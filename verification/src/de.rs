//! The read side of the engine: building default values for skipped
//! fields and decoding payload bytes back into values, using the dedup
//! table read from the preamble block.

use vstd::prelude::*;
use vstd::slice::slice_subrange;
use vstd::bytes::{u16_from_le_bytes, u32_from_le_bytes, u64_from_le_bytes};
use crate::value::{Value, Ty, ValueV, TyV, FieldTy, FieldTyV, defaultable, default_val, default_vals_tys,
    default_vals_fields, value_view, ty_view, field_view, all_defaultable_tys,
    all_defaultable_fields};
use crate::serde::{Mode, read_size, read_str_inline};
use crate::dedup::DedupContext;
use crate::wire::{dec_val, dec_elems, dec_entries, dec_tuple, dec_fields};
use crate::ser::scalar_ty;
use crate::varint::{varint_read, decode_min};
use crate::Error;

verus! {

/// Builds the default value of a type: false, zero, the empty string,
/// the empty sequence, the absent option, fields' defaults, or an enum's
/// first variant filled with defaults. Fails exactly where the type has
/// no default (a result-like type, or an empty sum type somewhere).
#[verifier::loop_isolation(false)]
#[verifier::rlimit(100)]
#[verifier::spinoff_prover]
pub fn default_value(t: &Ty) -> (r: Result<Value, Error>)
    ensures
        match r {
            Ok(val) => defaultable(t@) && val@ == default_val(t@),
            Err(e) => !defaultable(t@) && e == Error::EmptySumType,
        },
    decreases t, 1int,
{
    match t {
        Ty::Bool => Ok(Value::Bool(false)),
        Ty::U8 => Ok(Value::U8(0)),
        Ty::U16 => Ok(Value::U16(0)),
        Ty::U32 => Ok(Value::U32(0)),
        Ty::U64 => Ok(Value::U64(0)),
        Ty::I16 => Ok(Value::I16(0)),
        Ty::I32 => Ok(Value::I32(0)),
        Ty::I64 => Ok(Value::I64(0)),
        Ty::Size => Ok(Value::Size(0)),
        Ty::Str => Ok(Value::Str(String::new())),
        Ty::List(_) => {
            let vals: Vec<Value> = Vec::new();
            let out = Value::List(vals);
            proof {
                assert(out@->List_0 =~= Seq::<ValueV>::empty());
                assert(out@ == ValueV::List(out@->List_0));
            }
            Ok(out)
        },
        Ty::Dict(_, _) => {
            let vals: Vec<Value> = Vec::new();
            let out = Value::List(vals);
            proof {
                assert(out@->List_0 =~= Seq::<ValueV>::empty());
                assert(out@ == ValueV::List(out@->List_0));
            }
            Ok(out)
        },
        Ty::Opt(_) => Ok(Value::Opt(None)),
        Ty::Res(_, _) => Err(Error::EmptySumType),
        Ty::Array(et, n) => {
            let count = *n;
            let mut vals: Vec<Value> = Vec::new();
            if count > 0 {
                match default_value(&**et) {
                    Ok(first) => {
                        vals.push(first);
                    },
                    Err(e) => {
                        return Err(e);
                    },
                }
                for i in 1..count
                    invariant
                        defaultable(et@),
                        vals@.len() == i,
                        forall|j: int| 0 <= j < i ==> value_view(#[trigger] vals@[j]) == default_val(et@),
                {
                    match default_value(&**et) {
                        Ok(d) => {
                            vals.push(d);
                        },
                        Err(_) => {
                            proof {
                                assert(false);
                            }
                        },
                    }
                }
            }
            let out = Value::Group(vals);
            proof {
                assert(out@->Group_0 =~= Seq::new(t@->Array_1 as nat, |i: int| default_val(et@)));
                assert(out@ == ValueV::Group(out@->Group_0));
            }
            Ok(out)
        },
        Ty::Tuple(ts) => {
            let mut vals: Vec<Value> = Vec::new();
            let ghost tvs = ts.deep_view();
            proof {
                assert(tvs =~= t@->Tuple_0);
            }
            let n = ts.len();
            for i in 0..n
                invariant
                    vals@.len() == i,
                    all_defaultable_tys(tvs.take(i as int)),
                    vals.deep_view() =~= default_vals_tys(tvs.take(i as int)),
            {
                proof {
                    assert(tvs[i as int] == ty_view(ts@[i as int]));
                }
                match default_value(&ts[i]) {
                    Ok(d) => {
                        let ghost before = vals.deep_view();
                        vals.push(d);
                        proof {
                            lemma_default_tys_snoc(tvs, i as int);
                            assert(vals.deep_view() =~= before + seq![default_val(tvs[i as int])]);
                        }
                    },
                    Err(e) => {
                        proof {
                            lemma_not_defaultable_tys(tvs, i as int);
                        }
                        return Err(Error::EmptySumType);
                    },
                }
            }
            proof {
                assert(tvs.take(n as int) =~= tvs);
                lemma_all_defaultable_tys_end(tvs);
            }
            let out = Value::Group(vals);
            proof {
                assert(out@->Group_0 =~= default_vals_tys(tvs));
                assert(out@ == ValueV::Group(out@->Group_0));
            }
            Ok(out)
        },
        Ty::Struct(fs) => {
            match default_fields(fs) {
                Ok(vals) => {
                    proof {
                        assert(fs.deep_view() =~= t@->Struct_0);
                    }
                    let out = Value::Group(vals);
                    proof {
                        assert(out@->Group_0 =~= default_vals_fields(t@->Struct_0));
                        assert(out@ == ValueV::Group(out@->Group_0));
                    }
                    Ok(out)
                },
                Err(e) => Err(e),
            }
        },
        Ty::Enum(vs) => {
            if vs.len() == 0 {
                return Err(Error::EmptySumType);
            }
            proof {
                assert((t@->Enum_0)[0] =~= vs@[0].fields.deep_view());
            }
            match default_fields(&vs[0].fields) {
                Ok(vals) => {
                    let out = Value::Case(0, vals);
                    proof {
                        assert(out@->Case_1 =~= default_vals_fields((t@->Enum_0)[0]));
                        assert(out@ == ValueV::Case(0, out@->Case_1));
                    }
                    Ok(out)
                },
                Err(e) => Err(e),
            }
        },
    }
}

/// Builds the defaults of a field list, in order.
#[verifier::loop_isolation(false)]
#[verifier::rlimit(100)]
#[verifier::spinoff_prover]
fn default_fields(fs: &Vec<FieldTy>) -> (r: Result<Vec<Value>, Error>)
    ensures
        match r {
            Ok(vals) => all_defaultable_fields(fs.deep_view())
                && vals.deep_view() == default_vals_fields(fs.deep_view()),
            Err(e) => !all_defaultable_fields(fs.deep_view()) && e == Error::EmptySumType,
        },
    decreases fs, 0int,
{
    let mut vals: Vec<Value> = Vec::new();
    let ghost fvs = fs.deep_view();
    let n = fs.len();
    for i in 0..n
        invariant
            vals@.len() == i,
            all_defaultable_fields(fvs.take(i as int)),
            vals.deep_view() =~= default_vals_fields(fvs.take(i as int)),
    {
        proof {
            assert(fvs[i as int] == field_view(fs@[i as int]));
        }
        match default_value(&fs[i].ty) {
            Ok(d) => {
                let ghost before = vals.deep_view();
                vals.push(d);
                proof {
                    lemma_default_fields_snoc(fvs, i as int);
                    assert(vals.deep_view() =~= before + seq![default_val(fvs[i as int].ty)]);
                }
            },
            Err(e) => {
                proof {
                    lemma_not_defaultable_fields(fvs, i as int);
                }
                return Err(Error::EmptySumType);
            },
        }
    }
    proof {
        assert(fvs.take(n as int) =~= fvs);
        lemma_all_defaultable_fields_end(fvs);
    }
    Ok(vals)
}

/// Appending one default extends the run of defaults by one.
proof fn lemma_default_tys_snoc(ts: Seq<TyV>, i: int)
    requires
        0 <= i < ts.len(),
        all_defaultable_tys(ts.take(i)),
        defaultable(ts[i]),
    ensures
        all_defaultable_tys(ts.take(i + 1)),
        default_vals_tys(ts.take(i + 1))
            == default_vals_tys(ts.take(i)) + seq![default_val(ts[i])],
    decreases i,
{
    assert(ts.take(i + 1).take(i) =~= ts.take(i));
    lemma_defaults_app_tys(ts.take(i + 1), i);
}

proof fn lemma_defaults_app_tys(ts: Seq<TyV>, i: int)
    requires
        0 <= i,
        ts.len() == i + 1,
        all_defaultable_tys(ts.take(i)),
        defaultable(ts[i]),
    ensures
        all_defaultable_tys(ts),
        default_vals_tys(ts) == default_vals_tys(ts.take(i)) + seq![default_val(ts[i])],
    decreases i,
{
    if i == 0 {
        assert(ts.take(0) =~= Seq::<TyV>::empty());
        assert(ts.skip(1) =~= Seq::<TyV>::empty());
        assert(default_vals_tys(ts.skip(1)) =~= Seq::<ValueV>::empty());
        assert(default_vals_tys(ts) =~= seq![default_val(ts[0])]);
        assert(default_vals_tys(ts) =~= default_vals_tys(ts.take(0)) + seq![default_val(ts[0])]);
    } else {
        assert(ts.take(i)[0] == ts[0]);
        assert(ts.skip(1).take(i - 1) =~= ts.take(i).skip(1));
        lemma_defaults_app_tys(ts.skip(1), i - 1);
        assert(ts.skip(1)[i - 1] == ts[i]);
        assert(seq![default_val(ts[0])] + (default_vals_tys(ts.skip(1).take(i - 1))
            + seq![default_val(ts[i])])
            =~= (seq![default_val(ts[0])] + default_vals_tys(ts.take(i).skip(1)))
                + seq![default_val(ts[i])]);
    }
}

/// A non-defaultable entry makes the whole run non-defaultable.
proof fn lemma_not_defaultable_tys(ts: Seq<TyV>, i: int)
    requires
        0 <= i < ts.len(),
        !defaultable(ts[i]),
    ensures
        !all_defaultable_tys(ts),
    decreases i,
{
    if i > 0 {
        lemma_not_defaultable_tys(ts.skip(1), i - 1);
        assert(ts.skip(1)[i - 1] == ts[i]);
    }
}

/// A fully-taken prefix of defaults covers the whole run.
proof fn lemma_all_defaultable_tys_end(ts: Seq<TyV>)
    ensures
        all_defaultable_tys(ts.take(ts.len() as int)) ==> all_defaultable_tys(ts),
{
    assert(ts.take(ts.len() as int) =~= ts);
}

proof fn lemma_default_fields_snoc(fs: Seq<FieldTyV>, i: int)
    requires
        0 <= i < fs.len(),
        all_defaultable_fields(fs.take(i)),
        defaultable(fs[i].ty),
    ensures
        all_defaultable_fields(fs.take(i + 1)),
        default_vals_fields(fs.take(i + 1))
            == default_vals_fields(fs.take(i)) + seq![default_val(fs[i].ty)],
    decreases i,
{
    assert(fs.take(i + 1).take(i) =~= fs.take(i));
    lemma_defaults_app_fields(fs.take(i + 1), i);
}

proof fn lemma_defaults_app_fields(fs: Seq<FieldTyV>, i: int)
    requires
        0 <= i,
        fs.len() == i + 1,
        all_defaultable_fields(fs.take(i)),
        defaultable(fs[i].ty),
    ensures
        all_defaultable_fields(fs),
        default_vals_fields(fs) == default_vals_fields(fs.take(i)) + seq![default_val(fs[i].ty)],
    decreases i,
{
    if i == 0 {
        assert(fs.take(0) =~= Seq::<FieldTyV>::empty());
        assert(fs.skip(1) =~= Seq::<FieldTyV>::empty());
        assert(default_vals_fields(fs.skip(1)) =~= Seq::<ValueV>::empty());
        assert(default_vals_fields(fs) =~= seq![default_val(fs[0].ty)]);
        assert(default_vals_fields(fs)
            =~= default_vals_fields(fs.take(0)) + seq![default_val(fs[0].ty)]);
    } else {
        assert(fs.take(i)[0] == fs[0]);
        assert(fs.skip(1).take(i - 1) =~= fs.take(i).skip(1));
        lemma_defaults_app_fields(fs.skip(1), i - 1);
        assert(fs.skip(1)[i - 1] == fs[i]);
        assert(seq![default_val(fs[0].ty)] + (default_vals_fields(fs.skip(1).take(i - 1))
            + seq![default_val(fs[i].ty)])
            =~= (seq![default_val(fs[0].ty)] + default_vals_fields(fs.take(i).skip(1)))
                + seq![default_val(fs[i].ty)]);
    }
}

proof fn lemma_not_defaultable_fields(fs: Seq<FieldTyV>, i: int)
    requires
        0 <= i < fs.len(),
        !defaultable(fs[i].ty),
    ensures
        !all_defaultable_fields(fs),
    decreases i,
{
    if i > 0 {
        lemma_not_defaultable_fields(fs.skip(1), i - 1);
        assert(fs.skip(1)[i - 1] == fs[i]);
    }
}

proof fn lemma_all_defaultable_fields_end(fs: Seq<FieldTyV>)
    ensures
        all_defaultable_fields(fs.take(fs.len() as int)) ==> all_defaultable_fields(fs),
{
    assert(fs.take(fs.len() as int) =~= fs);
}


/// Decodes one value of type `t` from `pipe` at `pos`, using the dedup
/// table `ctx` for string references; returns the value with the
/// position after it, or the exact error that [`dec_val`] gives.
#[verifier::loop_isolation(false)]
#[verifier::rlimit(100)]
#[verifier::spinoff_prover]
pub fn decode_value(t: &Ty, pipe: &Vec<u8>, pos: usize, m: Mode, ctx: &DedupContext) -> (r: Result<(Value, usize), Error>)
    requires
        pos <= pipe@.len(),
    ensures
        match r {
            Ok((val, end)) => {
                &&& dec_val(t@, pipe@.skip(pos as int), m, ctx@)
                    == Ok::<_, Error>((val@, (end - pos) as nat))
                &&& pos <= end <= pipe@.len()
            },
            Err(e) => dec_val(t@, pipe@.skip(pos as int), m, ctx@) == Err::<(ValueV, nat), _>(e),
        },
    decreases t, 1int,
{
    match t {
        Ty::List(_) => {
            match read_size(pipe, pos, m.usize_len) {
                Ok((n, mid)) => {
                    proof {
                        assert(pipe@.skip(pos as int).skip((mid - pos) as int)
                            =~= pipe@.skip(mid as int));
                    }
                    match decode_elems(t, n, pipe, mid, m, ctx) {
                        Ok((vals, end)) => {
                            let out = Value::List(vals);
                            proof {
                                assert(out@->List_0 =~= vals.deep_view());
                                assert(out@ == ValueV::List(out@->List_0));
                            }
                            Ok((out, end))
                        },
                        Err(e) => Err(e),
                    }
                },
                Err(e) => Err(e),
            }
        },
        Ty::Array(_, n) => {
            match decode_elems(t, *n, pipe, pos, m, ctx) {
                Ok((vals, end)) => {
                    let out = Value::Group(vals);
                    proof {
                        assert(out@->Group_0 =~= vals.deep_view());
                        assert(out@ == ValueV::Group(out@->Group_0));
                    }
                    Ok((out, end))
                },
                Err(e) => Err(e),
            }
        },
        Ty::Dict(_, _) => {
            match read_size(pipe, pos, m.usize_len) {
                Ok((n, mid)) => {
                    proof {
                        assert(pipe@.skip(pos as int).skip((mid - pos) as int)
                            =~= pipe@.skip(mid as int));
                    }
                    match decode_entries(t, n, pipe, mid, m, ctx) {
                        Ok((vals, end)) => {
                            let out = Value::List(vals);
                            proof {
                                assert(out@->List_0 =~= vals.deep_view());
                                assert(out@ == ValueV::List(out@->List_0));
                            }
                            Ok((out, end))
                        },
                        Err(e) => Err(e),
                    }
                },
                Err(e) => Err(e),
            }
        },
        Ty::Opt(et) => {
            if pos >= pipe.len() {
                return Err(Error::Io);
            }
            let tag = pipe[pos];
            if tag == 0 {
                Ok((Value::Opt(None), pos + 1))
            } else if tag == 1 {
                proof {
                    assert(pipe@.skip(pos as int).skip(1) =~= pipe@.skip(pos as int + 1));
                }
                match decode_value(&**et, pipe, pos + 1, m, ctx) {
                    Ok((inner, end)) => {
                        let out = Value::Opt(Some(Box::new(inner)));
                        Ok((out, end))
                    },
                    Err(e) => Err(e),
                }
            } else {
                Err(Error::InvalidVariant(tag as usize))
            }
        },
        Ty::Res(ot, et) => {
            if pos >= pipe.len() {
                return Err(Error::Io);
            }
            let tag = pipe[pos];
            if tag == 0 || tag == 1 {
                let side = tag == 1;
                proof {
                    assert(pipe@.skip(pos as int).skip(1) =~= pipe@.skip(pos as int + 1));
                }
                let it = if side { &**et } else { &**ot };
                match decode_value(it, pipe, pos + 1, m, ctx) {
                    Ok((inner, end)) => {
                        let out = Value::Res(side, Box::new(inner));
                        Ok((out, end))
                    },
                    Err(e) => Err(e),
                }
            } else {
                Err(Error::InvalidVariant(tag as usize))
            }
        },
        Ty::Tuple(ts) => {
            proof {
                assert(ts.deep_view() =~= t@->Tuple_0);
            }
            match decode_tuple(ts, pipe, pos, m, ctx) {
                Ok((vals, end)) => {
                    let out = Value::Group(vals);
                    proof {
                        assert(out@->Group_0 =~= vals.deep_view());
                        assert(out@ == ValueV::Group(out@->Group_0));
                    }
                    Ok((out, end))
                },
                Err(e) => Err(e),
            }
        },
        Ty::Struct(fs) => {
            proof {
                assert(fs.deep_view() =~= t@->Struct_0);
            }
            match decode_fields(fs, pipe, pos, m, ctx) {
                Ok((vals, end)) => {
                    let out = Value::Group(vals);
                    proof {
                        assert(out@->Group_0 =~= vals.deep_view());
                        assert(out@ == ValueV::Group(out@->Group_0));
                    }
                    Ok((out, end))
                },
                Err(e) => Err(e),
            }
        },
        Ty::Enum(vs) => {
            if vs.len() == 0 {
                return Err(Error::EmptySumType);
            }
            match read_size(pipe, pos, m.usize_len) {
                Ok((d, mid)) => {
                    if d >= vs.len() {
                        return Err(Error::InvalidVariant(d));
                    }
                    proof {
                        assert(pipe@.skip(pos as int).skip((mid - pos) as int)
                            =~= pipe@.skip(mid as int));
                        assert(vs@[d as int].fields.deep_view() =~= (t@->Enum_0)[d as int]);
                    }
                    match decode_fields(&vs[d].fields, pipe, mid, m, ctx) {
                        Ok((vals, end)) => {
                            let out = Value::Case(d, vals);
                            proof {
                                assert(out@->Case_1 =~= vals.deep_view());
                                assert(out@ == ValueV::Case(d, out@->Case_1));
                            }
                            Ok((out, end))
                        },
                        Err(e) => Err(e),
                    }
                },
                Err(e) => Err(e),
            }
        },
        _ => decode_scalar(t, pipe, pos, m, ctx),
    }
}

/// Decodes one leaf value.
#[verifier::rlimit(100)]
#[verifier::spinoff_prover]
fn decode_scalar(t: &Ty, pipe: &Vec<u8>, pos: usize, m: Mode, ctx: &DedupContext) -> (r: Result<(Value, usize), Error>)
    requires
        pos <= pipe@.len(),
        scalar_ty(t@),
    ensures
        match r {
            Ok((val, end)) => {
                &&& dec_val(t@, pipe@.skip(pos as int), m, ctx@)
                    == Ok::<_, Error>((val@, (end - pos) as nat))
                &&& pos <= end <= pipe@.len()
            },
            Err(e) => dec_val(t@, pipe@.skip(pos as int), m, ctx@) == Err::<(ValueV, nat), _>(e),
        },
{
    let len = pipe.len();
    match t {
        Ty::Bool => {
            if pos >= len {
                return Err(Error::Io);
            }
            Ok((Value::Bool(pipe[pos] != 0), pos + 1))
        },
        Ty::U8 => {
            if pos >= len {
                return Err(Error::Io);
            }
            Ok((Value::U8(pipe[pos]), pos + 1))
        },
        Ty::U16 => {
            if m.fixed_size_use_varint {
                match varint_read(pipe, pos) {
                    Ok((x, end)) => if x <= u16::MAX as u64 {
                        Ok((Value::U16(x as u16), end))
                    } else {
                        Err(Error::TryFromInt)
                    },
                    Err(e) => Err(e),
                }
            } else {
                if len - pos < 2 {
                    return Err(Error::Io);
                }
                let x = u16_from_le_bytes(slice_subrange(pipe.as_slice(), pos, pos + 2));
                proof {
                    assert(pipe@.subrange(pos as int, pos + 2)
                        =~= pipe@.skip(pos as int).take(2));
                }
                Ok((Value::U16(x), pos + 2))
            }
        },
        Ty::U32 => {
            if m.fixed_size_use_varint {
                match varint_read(pipe, pos) {
                    Ok((x, end)) => if x <= u32::MAX as u64 {
                        Ok((Value::U32(x as u32), end))
                    } else {
                        Err(Error::TryFromInt)
                    },
                    Err(e) => Err(e),
                }
            } else {
                if len - pos < 4 {
                    return Err(Error::Io);
                }
                let x = u32_from_le_bytes(slice_subrange(pipe.as_slice(), pos, pos + 4));
                proof {
                    assert(pipe@.subrange(pos as int, pos + 4)
                        =~= pipe@.skip(pos as int).take(4));
                }
                Ok((Value::U32(x), pos + 4))
            }
        },
        Ty::U64 => {
            if m.fixed_size_use_varint {
                match varint_read(pipe, pos) {
                    Ok((x, end)) => Ok((Value::U64(x), end)),
                    Err(e) => Err(e),
                }
            } else {
                if len - pos < 8 {
                    return Err(Error::Io);
                }
                let x = u64_from_le_bytes(slice_subrange(pipe.as_slice(), pos, pos + 8));
                proof {
                    assert(pipe@.subrange(pos as int, pos + 8)
                        =~= pipe@.skip(pos as int).take(8));
                }
                Ok((Value::U64(x), pos + 8))
            }
        },
        Ty::I16 => {
            if m.fixed_size_use_varint {
                match varint_read(pipe, pos) {
                    Ok((x, end)) => {
                        let v = decode_min(x);
                        if v >= i16::MIN as i64 && v <= i16::MAX as i64 {
                            Ok((Value::I16(v as i16), end))
                        } else {
                            Err(Error::TryFromInt)
                        }
                    },
                    Err(e) => Err(e),
                }
            } else {
                if len - pos < 2 {
                    return Err(Error::Io);
                }
                let x = u16_from_le_bytes(slice_subrange(pipe.as_slice(), pos, pos + 2));
                proof {
                    assert(pipe@.subrange(pos as int, pos + 2)
                        =~= pipe@.skip(pos as int).take(2));
                }
                Ok((Value::I16(#[verifier::truncate] (x as i16)), pos + 2))
            }
        },
        Ty::I32 => {
            if m.fixed_size_use_varint {
                match varint_read(pipe, pos) {
                    Ok((x, end)) => {
                        let v = decode_min(x);
                        if v >= i32::MIN as i64 && v <= i32::MAX as i64 {
                            Ok((Value::I32(v as i32), end))
                        } else {
                            Err(Error::TryFromInt)
                        }
                    },
                    Err(e) => Err(e),
                }
            } else {
                if len - pos < 4 {
                    return Err(Error::Io);
                }
                let x = u32_from_le_bytes(slice_subrange(pipe.as_slice(), pos, pos + 4));
                proof {
                    assert(pipe@.subrange(pos as int, pos + 4)
                        =~= pipe@.skip(pos as int).take(4));
                }
                Ok((Value::I32(#[verifier::truncate] (x as i32)), pos + 4))
            }
        },
        Ty::I64 => {
            if m.fixed_size_use_varint {
                match varint_read(pipe, pos) {
                    Ok((x, end)) => Ok((Value::I64(decode_min(x)), end)),
                    Err(e) => Err(e),
                }
            } else {
                if len - pos < 8 {
                    return Err(Error::Io);
                }
                let x = u64_from_le_bytes(slice_subrange(pipe.as_slice(), pos, pos + 8));
                proof {
                    assert(pipe@.subrange(pos as int, pos + 8)
                        =~= pipe@.skip(pos as int).take(8));
                }
                Ok((Value::I64(#[verifier::truncate] (x as i64)), pos + 8))
            }
        },
        Ty::Size => {
            match read_size(pipe, pos, m.usize_len) {
                Ok((x, end)) => Ok((Value::Size(x), end)),
                Err(e) => Err(e),
            }
        },
        Ty::Str => {
            if m.use_dedup {
                match read_size(pipe, pos, m.dedup_idx) {
                    Ok((idx, end)) => {
                        match ctx.get_str(idx) {
                            Some(s) => Ok((Value::Str(s.to_owned()), end)),
                            None => Err(Error::StrOutOfRange(idx)),
                        }
                    },
                    Err(e) => Err(e),
                }
            } else {
                match read_str_inline(pipe, pos, m.usize_len) {
                    Ok((s, end)) => Ok((Value::Str(s), end)),
                    Err(e) => Err(e),
                }
            }
        },
        _ => {
            proof {
                assert(false);
            }
            Err(Error::Io)
        },
    }
}

/// Decodes `n` elements of the element type of `t` (a list or array type).
#[verifier::loop_isolation(false)]
#[verifier::rlimit(100)]
#[verifier::spinoff_prover]
fn decode_elems(t: &Ty, n: usize, pipe: &Vec<u8>, pos: usize, m: Mode, ctx: &DedupContext) -> (r: Result<(Vec<Value>, usize), Error>)
    requires
        pos <= pipe@.len(),
        t@ is List || t@ is Array,
    ensures
        match r {
            Ok((vals, end)) => {
                &&& dec_elems(t@, n as nat, pipe@.skip(pos as int), m, ctx@)
                    == Ok::<_, Error>((vals.deep_view(), (end - pos) as nat))
                &&& pos <= end <= pipe@.len()
            },
            Err(e) => dec_elems(t@, n as nat, pipe@.skip(pos as int), m, ctx@)
                == Err::<(Seq<ValueV>, nat), _>(e),
        },
    decreases t, 0int,
{
    let et = match t {
        Ty::List(e) => &**e,
        Ty::Array(e, _) => &**e,
        _ => {
            proof {
                assert(false);
            }
            return Err(Error::Io);
        },
    };
    let mut vals: Vec<Value> = Vec::new();
    let mut cur = pos;
    proof {
        assert(vals.deep_view() =~= Seq::<ValueV>::empty());
    }
    for j in 0..n
        invariant
            pos <= cur <= pipe@.len(),
            vals@.len() == j,
            et@ == (match t@ {
                TyV::List(e) => *e,
                TyV::Array(e, _) => *e,
                _ => TyV::Bool,
            }),
            match dec_elems(t@, (n - j) as nat, pipe@.skip(cur as int), m, ctx@) {
                Ok((rest, k2)) => dec_elems(t@, n as nat, pipe@.skip(pos as int), m, ctx@)
                    == Ok::<_, Error>((vals.deep_view() + rest, ((cur - pos) + k2) as nat)),
                Err(e) => dec_elems(t@, n as nat, pipe@.skip(pos as int), m, ctx@)
                    == Err::<(Seq<ValueV>, nat), _>(e),
            },
    {
        let ghost prev = cur as int;
        match decode_value(et, pipe, cur, m, ctx) {
            Ok((val, end)) => {
                let ghost before = vals.deep_view();
                vals.push(val);
                cur = end;
                proof {
                    assert(pipe@.skip(prev).skip(cur - prev) =~= pipe@.skip(cur as int));
                    assert(vals.deep_view() =~= before + seq![vals@[j as int]@]);
                    match dec_elems(t@, (n - j - 1) as nat, pipe@.skip(cur as int), m, ctx@) {
                        Ok((rest, k2)) => {
                            assert(before + (seq![vals@[j as int]@] + rest)
                                =~= vals.deep_view() + rest);
                        },
                        Err(e) => {},
                    }
                }
            },
            Err(e) => {
                return Err(e);
            },
        }
    }
    proof {
        assert(vals.deep_view() + Seq::<ValueV>::empty() =~= vals.deep_view());
    }
    Ok((vals, cur))
}

/// Decodes `n` key/value entries of the entry types of `t` (a map type),
/// each entry a two-field group.
#[verifier::loop_isolation(false)]
#[verifier::rlimit(100)]
#[verifier::spinoff_prover]
fn decode_entries(t: &Ty, n: usize, pipe: &Vec<u8>, pos: usize, m: Mode, ctx: &DedupContext) -> (r: Result<(Vec<Value>, usize), Error>)
    requires
        pos <= pipe@.len(),
        t@ is Dict,
    ensures
        match r {
            Ok((vals, end)) => {
                &&& dec_entries(t@, n as nat, pipe@.skip(pos as int), m, ctx@)
                    == Ok::<_, Error>((vals.deep_view(), (end - pos) as nat))
                &&& pos <= end <= pipe@.len()
            },
            Err(e) => dec_entries(t@, n as nat, pipe@.skip(pos as int), m, ctx@)
                == Err::<(Seq<ValueV>, nat), _>(e),
        },
    decreases t, 0int,
{
    let (kt, vt) = match t {
        Ty::Dict(k, v) => (&**k, &**v),
        _ => {
            proof {
                assert(false);
            }
            return Err(Error::Io);
        },
    };
    let mut vals: Vec<Value> = Vec::new();
    let mut cur = pos;
    proof {
        assert(vals.deep_view() =~= Seq::<ValueV>::empty());
    }
    for j in 0..n
        invariant
            pos <= cur <= pipe@.len(),
            vals@.len() == j,
            t@ == TyV::Dict(Box::new(kt@), Box::new(vt@)),
            match dec_entries(t@, (n - j) as nat, pipe@.skip(cur as int), m, ctx@) {
                Ok((rest, k2)) => dec_entries(t@, n as nat, pipe@.skip(pos as int), m, ctx@)
                    == Ok::<_, Error>((vals.deep_view() + rest, ((cur - pos) + k2) as nat)),
                Err(e) => dec_entries(t@, n as nat, pipe@.skip(pos as int), m, ctx@)
                    == Err::<(Seq<ValueV>, nat), _>(e),
            },
    {
        let ghost prev = cur as int;
        let kval = match decode_value(kt, pipe, cur, m, ctx) {
            Ok((kval, kend)) => {
                proof {
                    assert(pipe@.skip(prev).skip(kend - prev) =~= pipe@.skip(kend as int));
                }
                cur = kend;
                kval
            },
            Err(e) => {
                return Err(e);
            },
        };
        let ghost kmid = cur as int;
        match decode_value(vt, pipe, cur, m, ctx) {
            Ok((vval, vend)) => {
                let ghost before = vals.deep_view();
                let ghost kv = kval@;
                let ghost vv = vval@;
                let mut pair: Vec<Value> = Vec::new();
                pair.push(kval);
                pair.push(vval);
                let entry = Value::Group(pair);
                proof {
                    assert(entry@->Group_0 =~= seq![kv, vv]);
                    assert(entry@ == ValueV::Group(seq![kv, vv]));
                }
                vals.push(entry);
                cur = vend;
                proof {
                    assert(pipe@.skip(kmid).skip(cur - kmid) =~= pipe@.skip(cur as int));
                    assert(pipe@.skip(prev).skip(cur - prev) =~= pipe@.skip(cur as int));
                    assert(vals.deep_view() =~= before + seq![ValueV::Group(seq![kv, vv])]);
                    match dec_entries(t@, (n - j - 1) as nat, pipe@.skip(cur as int), m, ctx@) {
                        Ok((rest, k2)) => {
                            assert(before + (seq![ValueV::Group(seq![kv, vv])] + rest)
                                =~= vals.deep_view() + rest);
                        },
                        Err(e) => {},
                    }
                }
            },
            Err(e) => {
                return Err(e);
            },
        }
    }
    proof {
        assert(vals.deep_view() + Seq::<ValueV>::empty() =~= vals.deep_view());
    }
    Ok((vals, cur))
}

/// Decodes tuple fields, in declared order.
#[verifier::loop_isolation(false)]
#[verifier::rlimit(100)]
#[verifier::spinoff_prover]
fn decode_tuple(ts: &Vec<Ty>, pipe: &Vec<u8>, pos: usize, m: Mode, ctx: &DedupContext) -> (r: Result<(Vec<Value>, usize), Error>)
    requires
        pos <= pipe@.len(),
    ensures
        match r {
            Ok((vals, end)) => {
                &&& dec_tuple(ts.deep_view(), 0, pipe@.skip(pos as int), m, ctx@)
                    == Ok::<_, Error>((vals.deep_view(), (end - pos) as nat))
                &&& pos <= end <= pipe@.len()
            },
            Err(e) => dec_tuple(ts.deep_view(), 0, pipe@.skip(pos as int), m, ctx@)
                == Err::<(Seq<ValueV>, nat), _>(e),
        },
    decreases ts, 0int,
{
    let ghost tvs = ts.deep_view();
    let mut vals: Vec<Value> = Vec::new();
    let mut cur = pos;
    proof {
        assert(vals.deep_view() =~= Seq::<ValueV>::empty());
    }
    let n = ts.len();
    for i in 0..n
        invariant
            pos <= cur <= pipe@.len(),
            vals@.len() == i,
            match dec_tuple(tvs, i as int, pipe@.skip(cur as int), m, ctx@) {
                Ok((rest, k2)) => dec_tuple(tvs, 0, pipe@.skip(pos as int), m, ctx@)
                    == Ok::<_, Error>((vals.deep_view() + rest, ((cur - pos) + k2) as nat)),
                Err(e) => dec_tuple(tvs, 0, pipe@.skip(pos as int), m, ctx@)
                    == Err::<(Seq<ValueV>, nat), _>(e),
            },
    {
        let ghost prev = cur as int;
        proof {
            assert(tvs[i as int] == ty_view(ts@[i as int]));
        }
        match decode_value(&ts[i], pipe, cur, m, ctx) {
            Ok((val, end)) => {
                let ghost before = vals.deep_view();
                vals.push(val);
                cur = end;
                proof {
                    assert(pipe@.skip(prev).skip(cur - prev) =~= pipe@.skip(cur as int));
                    assert(vals.deep_view() =~= before + seq![vals@[i as int]@]);
                    match dec_tuple(tvs, i as int + 1, pipe@.skip(cur as int), m, ctx@) {
                        Ok((rest, k2)) => {
                            assert(before + (seq![vals@[i as int]@] + rest)
                                =~= vals.deep_view() + rest);
                        },
                        Err(e) => {},
                    }
                }
            },
            Err(e) => {
                return Err(e);
            },
        }
    }
    proof {
        assert(vals.deep_view() + Seq::<ValueV>::empty() =~= vals.deep_view());
    }
    Ok((vals, cur))
}

/// Decodes annotated fields: a skip-marked field consumes nothing and is
/// populated with its type's default; a no-dedup field decodes with
/// dedup disabled.
#[verifier::loop_isolation(false)]
#[verifier::rlimit(100)]
#[verifier::spinoff_prover]
fn decode_fields(fs: &Vec<FieldTy>, pipe: &Vec<u8>, pos: usize, m: Mode, ctx: &DedupContext) -> (r: Result<(Vec<Value>, usize), Error>)
    requires
        pos <= pipe@.len(),
    ensures
        match r {
            Ok((vals, end)) => {
                &&& dec_fields(fs.deep_view(), 0, pipe@.skip(pos as int), m, ctx@)
                    == Ok::<_, Error>((vals.deep_view(), (end - pos) as nat))
                &&& pos <= end <= pipe@.len()
            },
            Err(e) => dec_fields(fs.deep_view(), 0, pipe@.skip(pos as int), m, ctx@)
                == Err::<(Seq<ValueV>, nat), _>(e),
        },
    decreases fs, 0int,
{
    let ghost fvs = fs.deep_view();
    let mut vals: Vec<Value> = Vec::new();
    let mut cur = pos;
    proof {
        assert(vals.deep_view() =~= Seq::<ValueV>::empty());
    }
    let n = fs.len();
    for i in 0..n
        invariant
            pos <= cur <= pipe@.len(),
            vals@.len() == i,
            match dec_fields(fvs, i as int, pipe@.skip(cur as int), m, ctx@) {
                Ok((rest, k2)) => dec_fields(fvs, 0, pipe@.skip(pos as int), m, ctx@)
                    == Ok::<_, Error>((vals.deep_view() + rest, ((cur - pos) + k2) as nat)),
                Err(e) => dec_fields(fvs, 0, pipe@.skip(pos as int), m, ctx@)
                    == Err::<(Seq<ValueV>, nat), _>(e),
            },
    {
        let ghost prev = cur as int;
        proof {
            assert(fvs[i as int] == field_view(fs@[i as int]));
        }
        if fs[i].skip {
            match default_value(&fs[i].ty) {
                Ok(d) => {
                    let ghost before = vals.deep_view();
                    vals.push(d);
                    proof {
                        assert(vals.deep_view() =~= before + seq![vals@[i as int]@]);
                        match dec_fields(fvs, i as int + 1, pipe@.skip(cur as int), m, ctx@) {
                            Ok((rest, k2)) => {
                                assert(before + (seq![default_val(fvs[i as int].ty)] + rest)
                                    =~= vals.deep_view() + rest);
                            },
                            Err(e) => {},
                        }
                    }
                },
                Err(e) => {
                    return Err(e);
                },
            }
        } else {
            let fm = if fs[i].no_dedup {
                m.with_dedup_disabled()
            } else {
                m
            };
            match decode_value(&fs[i].ty, pipe, cur, fm, ctx) {
                Ok((val, end)) => {
                    let ghost before = vals.deep_view();
                    vals.push(val);
                    cur = end;
                    proof {
                        assert(pipe@.skip(prev).skip(cur - prev) =~= pipe@.skip(cur as int));
                        assert(vals.deep_view() =~= before + seq![vals@[i as int]@]);
                        match dec_fields(fvs, i as int + 1, pipe@.skip(cur as int), m, ctx@) {
                            Ok((rest, k2)) => {
                                assert(before + (seq![vals@[i as int]@] + rest)
                                    =~= vals.deep_view() + rest);
                            },
                            Err(e) => {},
                        }
                    }
                },
                Err(e) => {
                    return Err(e);
                },
            }
        }
    }
    proof {
        assert(vals.deep_view() + Seq::<ValueV>::empty() =~= vals.deep_view());
    }
    Ok((vals, cur))
}

} // verus!

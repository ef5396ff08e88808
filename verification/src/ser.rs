//! The write side of the engine: the prescan pass that populates the
//! dedup table against a discarded sink, and the real pass that writes
//! the payload bytes using the frozen table.

use vstd::prelude::*;
use crate::value::{Value, Ty, ValueV, TyV, FieldTy, conforms, value_view, ty_view, field_view};
use crate::serde::Mode;
use crate::dedup::{DedupContext, tbl_intern, tbl_intern_all, lemma_intern_all_app,
    lemma_concat_contains};
use crate::wire::{strs_of, strs_of_elems, strs_of_entries, strs_of_tuple, strs_of_fields,
    enc_val, enc_elems, enc_entries, enc_tuple, enc_fields};
use crate::serde::{spec_write_size, write_size, write_str_inline};
use crate::varint::{varint_write, encode_min};
use vstd::bytes::{u16_to_le_bytes, u32_to_le_bytes, u64_to_le_bytes};
use crate::Error;

verus! {

/// The prescan pass over one value: a full traversal whose only visible
/// effect is interning, into `ctx`, every string met inside dedup scope,
/// in traversal order — exactly the strings the real pass will look up.
#[verifier::loop_isolation(false)]
pub fn prescan_value(v: &Value, t: &Ty, m: Mode, ctx: &mut DedupContext)
    requires
        conforms(v@, t@),
        old(ctx).wf(),
    ensures
        final(ctx).wf(),
        final(ctx)@ == tbl_intern_all(old(ctx)@, strs_of(v@, t@, m.use_dedup)),
    decreases v, 1int,
{
    let ghost tbl0 = ctx@;
    if !m.use_dedup {
        return;
    }
    match (t, v) {
        (Ty::Str, Value::Str(s)) => {
            ctx.put_str(s.as_str());
            proof {
                let strs = strs_of(v@, t@, true);
                assert(strs =~= seq![s@]);
                assert(strs[0] == s@);
                assert(strs.skip(1) =~= Seq::<Seq<char>>::empty());
                assert(tbl_intern_all(tbl_intern(tbl0, s@), Seq::<Seq<char>>::empty())
                    == tbl_intern(tbl0, s@));
            }
        },
        (Ty::List(et), Value::List(items)) => {
            proof {
                assert(items.deep_view() =~= v@->List_0);
            }
            prescan_elems(items, et, m, ctx);
        },
        (Ty::Array(et, _), Value::Group(items)) => {
            proof {
                assert(items.deep_view() =~= v@->Group_0);
            }
            prescan_elems(items, et, m, ctx);
        },
        (Ty::Dict(kt, vt), Value::List(entries)) => {
            proof {
                assert(entries.deep_view() =~= v@->List_0);
            }
            prescan_entries(entries, kt, vt, m, ctx);
        },
        (Ty::Opt(et), Value::Opt(o)) => {
            match o {
                Some(inner) => {
                    prescan_value(&**inner, et, m, ctx);
                },
                None => {},
            }
        },
        (Ty::Res(ot, et), Value::Res(side, inner)) => {
            if *side {
                prescan_value(&**inner, et, m, ctx);
            } else {
                prescan_value(&**inner, ot, m, ctx);
            }
        },
        (Ty::Tuple(ts), Value::Group(items)) => {
            proof {
                assert(items.deep_view() =~= v@->Group_0);
                assert(ts.deep_view() =~= t@->Tuple_0);
            }
            prescan_tuple(items, ts, m, ctx);
        },
        (Ty::Struct(fs), Value::Group(items)) => {
            proof {
                assert(items.deep_view() =~= v@->Group_0);
                assert(fs.deep_view() =~= t@->Struct_0);
            }
            prescan_fields(items, fs, m, ctx);
        },
        (Ty::Enum(vs), Value::Case(d, items)) => {
            proof {
                assert(*d < vs@.len());
                assert(items.deep_view() =~= v@->Case_1);
                assert(vs@[*d as int].fields.deep_view() =~= (t@->Enum_0)[*d as int]);
            }
            prescan_fields(items, &vs[*d].fields, m, ctx);
        },
        _ => {},
    }
}

/// Prescan of a run of same-typed elements, in order.
#[verifier::loop_isolation(false)]
fn prescan_elems(items: &Vec<Value>, et: &Ty, m: Mode, ctx: &mut DedupContext)
    requires
        m.use_dedup,
        forall|j: int| 0 <= j < items@.len() ==> conforms(#[trigger] items.deep_view()[j], et@),
        old(ctx).wf(),
    ensures
        final(ctx).wf(),
        final(ctx)@ == tbl_intern_all(old(ctx)@, strs_of_elems(items.deep_view(), et@, 0)),
    decreases items, 0int,
{
    let ghost tbl0 = ctx@;
    let ghost ivs = items.deep_view();
    let n = items.len();
    for i in 0..n
        invariant
            ctx.wf(),
            tbl_intern_all(ctx@, strs_of_elems(ivs, et@, i as int))
                == tbl_intern_all(tbl0, strs_of_elems(ivs, et@, 0)),
    {
        let ghost before = ctx@;
        prescan_value(&items[i], et, m, ctx);
        proof {
            lemma_intern_all_app(
                before,
                strs_of(ivs[i as int], et@, true),
                strs_of_elems(ivs, et@, i as int + 1),
            );
            assert(strs_of(ivs[i as int], et@, true) + strs_of_elems(ivs, et@, i as int + 1)
                =~= strs_of_elems(ivs, et@, i as int));
        }
    }
}

/// Prescan of a run of map entries, each key before its value.
#[verifier::loop_isolation(false)]
fn prescan_entries(entries: &Vec<Value>, kt: &Ty, vt: &Ty, m: Mode, ctx: &mut DedupContext)
    requires
        m.use_dedup,
        forall|j: int| 0 <= j < entries@.len()
            ==> ((#[trigger] entries.deep_view()[j]) matches ValueV::Group(kv)
                && kv.len() == 2
                && conforms(kv[0], kt@)
                && conforms(kv[1], vt@)),
        old(ctx).wf(),
    ensures
        final(ctx).wf(),
        final(ctx)@ == tbl_intern_all(old(ctx)@, strs_of_entries(entries.deep_view(), kt@, vt@, 0)),
    decreases entries, 0int,
{
    let ghost tbl0 = ctx@;
    let ghost evs = entries.deep_view();
    let n = entries.len();
    for i in 0..n
        invariant
            ctx.wf(),
            tbl_intern_all(ctx@, strs_of_entries(evs, kt@, vt@, i as int))
                == tbl_intern_all(tbl0, strs_of_entries(evs, kt@, vt@, 0)),
    {
        let ghost before = ctx@;
        let ghost kvg = evs[i as int]->Group_0;
        match &entries[i] {
            Value::Group(kv) => {
                proof {
                    assert(evs[i as int] == value_view(entries@[i as int]));
                    assert(kvg.len() == kv@.len());
                    assert(kvg[0] == value_view(kv@[0]));
                    assert(kvg[1] == value_view(kv@[1]));
                }
                prescan_value(&kv[0], kt, m, ctx);
                prescan_value(&kv[1], vt, m, ctx);
                proof {
                    lemma_intern_all_app(
                        before,
                        strs_of(kvg[0], kt@, true),
                        strs_of(kvg[1], vt@, true),
                    );
                    lemma_intern_all_app(
                        before,
                        strs_of(kvg[0], kt@, true) + strs_of(kvg[1], vt@, true),
                        strs_of_entries(evs, kt@, vt@, i as int + 1),
                    );
                    assert((strs_of(kvg[0], kt@, true) + strs_of(kvg[1], vt@, true))
                        + strs_of_entries(evs, kt@, vt@, i as int + 1)
                        =~= strs_of_entries(evs, kt@, vt@, i as int));
                }
            },
            _ => {
                proof {
                    assert(false);
                }
            },
        }
    }
}

/// Prescan of tuple fields, in declared order.
#[verifier::loop_isolation(false)]
fn prescan_tuple(items: &Vec<Value>, ts: &Vec<Ty>, m: Mode, ctx: &mut DedupContext)
    requires
        m.use_dedup,
        items@.len() == ts@.len(),
        forall|j: int| 0 <= j < items@.len()
            ==> conforms(#[trigger] items.deep_view()[j], ts.deep_view()[j]),
        old(ctx).wf(),
    ensures
        final(ctx).wf(),
        final(ctx)@ == tbl_intern_all(
            old(ctx)@,
            strs_of_tuple(items.deep_view(), ts.deep_view(), 0),
        ),
    decreases items, 0int,
{
    let ghost tbl0 = ctx@;
    let ghost ivs = items.deep_view();
    let ghost tvs = ts.deep_view();
    let n = items.len();
    for i in 0..n
        invariant
            ctx.wf(),
            tbl_intern_all(ctx@, strs_of_tuple(ivs, tvs, i as int))
                == tbl_intern_all(tbl0, strs_of_tuple(ivs, tvs, 0)),
    {
        let ghost before = ctx@;
        proof {
            assert(ivs[i as int] == value_view(items@[i as int]));
            assert(tvs[i as int] == ty_view(ts@[i as int]));
        }
        prescan_value(&items[i], &ts[i], m, ctx);
        proof {
            lemma_intern_all_app(
                before,
                strs_of(ivs[i as int], tvs[i as int], true),
                strs_of_tuple(ivs, tvs, i as int + 1),
            );
            assert(strs_of(ivs[i as int], tvs[i as int], true) + strs_of_tuple(ivs, tvs, i as int + 1)
                =~= strs_of_tuple(ivs, tvs, i as int));
        }
    }
}

/// Prescan of annotated fields: a skipped field is not traversed; a
/// no-dedup field is traversed with dedup off, so it interns nothing.
#[verifier::loop_isolation(false)]
fn prescan_fields(items: &Vec<Value>, fs: &Vec<FieldTy>, m: Mode, ctx: &mut DedupContext)
    requires
        m.use_dedup,
        items@.len() == fs@.len(),
        forall|j: int| 0 <= j < items@.len()
            ==> conforms(#[trigger] items.deep_view()[j], fs.deep_view()[j].ty),
        old(ctx).wf(),
    ensures
        final(ctx).wf(),
        final(ctx)@ == tbl_intern_all(
            old(ctx)@,
            strs_of_fields(items.deep_view(), fs.deep_view(), 0),
        ),
    decreases items, 0int,
{
    let ghost tbl0 = ctx@;
    let ghost ivs = items.deep_view();
    let ghost fvs = fs.deep_view();
    let n = items.len();
    for i in 0..n
        invariant
            ctx.wf(),
            tbl_intern_all(ctx@, strs_of_fields(ivs, fvs, i as int))
                == tbl_intern_all(tbl0, strs_of_fields(ivs, fvs, 0)),
    {
        let ghost before = ctx@;
        proof {
            assert(ivs[i as int] == value_view(items@[i as int]));
            assert(fvs[i as int] == field_view(fs@[i as int]));
        }
        if !fs[i].skip {
            let fm = if fs[i].no_dedup {
                m.with_dedup_disabled()
            } else {
                m
            };
            prescan_value(&items[i], &fs[i].ty, fm, ctx);
        }
        proof {
            let head = if fvs[i as int].skip || fvs[i as int].no_dedup {
                Seq::<Seq<char>>::empty()
            } else {
                strs_of(ivs[i as int], fvs[i as int].ty, true)
            };
            assert(ctx@ == tbl_intern_all(before, head));
            lemma_intern_all_app(before, head, strs_of_fields(ivs, fvs, i as int + 1));
            assert(head + strs_of_fields(ivs, fvs, i as int + 1)
                =~= strs_of_fields(ivs, fvs, i as int));
        }
    }
}


/// The real encoding pass over one value: appends the payload bytes of
/// `v` to `pipe`, looking every in-scope string up in the frozen table
/// `ctx` — which the prescan pass populated — and fails, exactly as the
/// wire format says, when a size value does not fit its width.
#[verifier::loop_isolation(false)]
#[verifier::rlimit(100)]
#[verifier::spinoff_prover]
pub fn encode_value(v: &Value, t: &Ty, m: Mode, ctx: &DedupContext, pipe: &mut Vec<u8>) -> (r: Result<(), Error>)
    requires
        conforms(v@, t@),
        ctx.wf(),
        forall|s: Seq<char>| strs_of(v@, t@, m.use_dedup).contains(s) ==> ctx@.contains(s),
    ensures
        match r {
            Ok(()) => enc_val(v@, t@, m, ctx@) matches Ok(b) && final(pipe)@ == old(pipe)@ + b,
            Err(e) => enc_val(v@, t@, m, ctx@) == Err::<Seq<u8>, _>(e),
        },
    decreases v, 1int,
{
    match (t, v) {
        (Ty::List(et), Value::List(items)) => {
            proof {
                assert(items.deep_view() =~= v@->List_0);
            }
            match write_size(items.len(), m.usize_len, pipe) {
                Ok(()) => {
                    let ghost mid = pipe@;
                    match encode_elems(items, et, m, ctx, pipe) {
                        Ok(()) => {
                            proof {
                                let pre = spec_write_size(items.deep_view().len(), m.usize_len)->Ok_0;
                                let b = enc_elems(items.deep_view(), et@, 0, m, ctx@)->Ok_0;
                                assert(pipe@ =~= old(pipe)@ + (pre + b));
                            }
                            Ok(())
                        },
                        Err(e) => Err(e),
                    }
                },
                Err(e) => Err(e),
            }
        },
        (Ty::Array(et, _), Value::Group(items)) => {
            proof {
                assert(items.deep_view() =~= v@->Group_0);
            }
            encode_elems(items, et, m, ctx, pipe)
        },
        (Ty::Dict(kt, vt), Value::List(entries)) => {
            proof {
                assert(entries.deep_view() =~= v@->List_0);
            }
            match write_size(entries.len(), m.usize_len, pipe) {
                Ok(()) => {
                    match encode_entries(entries, kt, vt, m, ctx, pipe) {
                        Ok(()) => {
                            proof {
                                let pre = spec_write_size(entries.deep_view().len(), m.usize_len)->Ok_0;
                                let b = enc_entries(entries.deep_view(), kt@, vt@, 0, m, ctx@)->Ok_0;
                                assert(pipe@ =~= old(pipe)@ + (pre + b));
                            }
                            Ok(())
                        },
                        Err(e) => Err(e),
                    }
                },
                Err(e) => Err(e),
            }
        },
        (Ty::Opt(et), Value::Opt(o)) => {
            match o {
                None => {
                    pipe.push(0);
                    proof {
                        assert(pipe@ =~= old(pipe)@ + seq![0u8]);
                    }
                    Ok(())
                },
                Some(inner) => {
                    pipe.push(1);
                    match encode_value(&**inner, et, m, ctx, pipe) {
                        Ok(()) => {
                            proof {
                                let b = enc_val((**inner)@, et@, m, ctx@)->Ok_0;
                                assert(pipe@ =~= old(pipe)@ + (seq![1u8] + b));
                            }
                            Ok(())
                        },
                        Err(e) => Err(e),
                    }
                },
            }
        },
        (Ty::Res(ot, et), Value::Res(side, inner)) => {
            pipe.push(if *side { 1 } else { 0 });
            let it = if *side { et } else { ot };
            match encode_value(&**inner, it, m, ctx, pipe) {
                Ok(()) => {
                    proof {
                        let b = enc_val((**inner)@, it@, m, ctx@)->Ok_0;
                        assert(pipe@ =~= old(pipe)@ + (seq![if v@->Res_0 { 1u8 } else { 0u8 }] + b));
                    }
                    Ok(())
                },
                Err(e) => Err(e),
            }
        },
        (Ty::Tuple(ts), Value::Group(items)) => {
            proof {
                assert(items.deep_view() =~= v@->Group_0);
                assert(ts.deep_view() =~= t@->Tuple_0);
            }
            encode_tuple(items, ts, m, ctx, pipe)
        },
        (Ty::Struct(fs), Value::Group(items)) => {
            proof {
                assert(items.deep_view() =~= v@->Group_0);
                assert(fs.deep_view() =~= t@->Struct_0);
            }
            encode_fields(items, fs, m, ctx, pipe)
        },
        (Ty::Enum(vs), Value::Case(d, items)) => {
            proof {
                assert(*d < vs@.len());
                assert(items.deep_view() =~= v@->Case_1);
                assert(vs@[*d as int].fields.deep_view() =~= (t@->Enum_0)[*d as int]);
            }
            match write_size(*d, m.usize_len, pipe) {
                Ok(()) => {
                    match encode_fields(items, &vs[*d].fields, m, ctx, pipe) {
                        Ok(()) => {
                            proof {
                                let pre = spec_write_size(*d as nat, m.usize_len)->Ok_0;
                                let b = enc_fields(
                                    items.deep_view(),
                                    (t@->Enum_0)[*d as int],
                                    0,
                                    m,
                                    ctx@,
                                )->Ok_0;
                                assert(pipe@ =~= old(pipe)@ + (pre + b));
                            }
                            Ok(())
                        },
                        Err(e) => Err(e),
                    }
                },
                Err(e) => Err(e),
            }
        },
        _ => encode_scalar(v, t, m, ctx, pipe),
    }
}

/// Whether a type is a leaf of the schema: nothing nested inside.
pub open spec fn scalar_ty(t: TyV) -> bool {
    match t {
        TyV::Bool | TyV::U8 | TyV::U16 | TyV::U32 | TyV::U64
        | TyV::I16 | TyV::I32 | TyV::I64 | TyV::Size | TyV::Str => true,
        _ => false,
    }
}

/// The real pass over one leaf value.
#[verifier::rlimit(60)]
#[verifier::spinoff_prover]
fn encode_scalar(v: &Value, t: &Ty, m: Mode, ctx: &DedupContext, pipe: &mut Vec<u8>) -> (r: Result<(), Error>)
    requires
        conforms(v@, t@),
        scalar_ty(t@),
        ctx.wf(),
        forall|s: Seq<char>| strs_of(v@, t@, m.use_dedup).contains(s) ==> ctx@.contains(s),
    ensures
        match r {
            Ok(()) => enc_val(v@, t@, m, ctx@) matches Ok(b) && final(pipe)@ == old(pipe)@ + b,
            Err(e) => enc_val(v@, t@, m, ctx@) == Err::<Seq<u8>, _>(e),
        },
{
    match (t, v) {
        (Ty::Bool, Value::Bool(x)) => {
            pipe.push(if *x { 255 } else { 0 });
            proof {
                assert(pipe@ =~= old(pipe)@ + seq![if v@->Bool_0 { 255u8 } else { 0u8 }]);
            }
            Ok(())
        },
        (Ty::U8, Value::U8(x)) => {
            pipe.push(*x);
            proof {
                assert(pipe@ =~= old(pipe)@ + seq![v@->U8_0]);
            }
            Ok(())
        },
        (Ty::U16, Value::U16(x)) => {
            if m.fixed_size_use_varint {
                varint_write(*x as u64, pipe);
            } else {
                let bytes = u16_to_le_bytes(*x);
                pipe.extend_from_slice(bytes.as_slice());
            }
            Ok(())
        },
        (Ty::U32, Value::U32(x)) => {
            if m.fixed_size_use_varint {
                varint_write(*x as u64, pipe);
            } else {
                let bytes = u32_to_le_bytes(*x);
                pipe.extend_from_slice(bytes.as_slice());
            }
            Ok(())
        },
        (Ty::U64, Value::U64(x)) => {
            if m.fixed_size_use_varint {
                varint_write(*x, pipe);
            } else {
                let bytes = u64_to_le_bytes(*x);
                pipe.extend_from_slice(bytes.as_slice());
            }
            Ok(())
        },
        (Ty::I16, Value::I16(x)) => {
            if m.fixed_size_use_varint {
                varint_write(encode_min(*x as i64), pipe);
            } else {
                let bytes = u16_to_le_bytes(#[verifier::truncate] (*x as u16));
                pipe.extend_from_slice(bytes.as_slice());
            }
            Ok(())
        },
        (Ty::I32, Value::I32(x)) => {
            if m.fixed_size_use_varint {
                varint_write(encode_min(*x as i64), pipe);
            } else {
                let bytes = u32_to_le_bytes(#[verifier::truncate] (*x as u32));
                pipe.extend_from_slice(bytes.as_slice());
            }
            Ok(())
        },
        (Ty::I64, Value::I64(x)) => {
            if m.fixed_size_use_varint {
                varint_write(encode_min(*x), pipe);
            } else {
                let bytes = u64_to_le_bytes(#[verifier::truncate] (*x as u64));
                pipe.extend_from_slice(bytes.as_slice());
            }
            Ok(())
        },
        (Ty::Size, Value::Size(x)) => write_size(*x, m.usize_len, pipe),
        (Ty::Str, Value::Str(s)) => {
            if m.use_dedup {
                proof {
                    let strs = strs_of(v@, t@, true);
                    assert(strs =~= seq![s@]);
                    assert(strs[0] == s@);
                    assert(strs.contains(s@));
                }
                match ctx.get_index(s.as_str()) {
                    Some(i) => write_size(i, m.dedup_idx, pipe),
                    None => {
                        proof {
                            assert(false);
                        }
                        Err(Error::StrOutOfRange(0))
                    },
                }
            } else {
                write_str_inline(s.as_str(), m.usize_len, pipe)
            }
        },
        _ => {
            proof {
                assert(false);
            }
            Err(Error::Io)
        },
    }
}

/// The real pass over a run of same-typed elements, in order.
#[verifier::loop_isolation(false)]
pub(crate) fn encode_elems(items: &Vec<Value>, et: &Ty, m: Mode, ctx: &DedupContext, pipe: &mut Vec<u8>) -> (r: Result<(), Error>)
    requires
        forall|j: int| 0 <= j < items@.len() ==> conforms(#[trigger] items.deep_view()[j], et@),
        ctx.wf(),
        m.use_dedup ==> forall|s: Seq<char>| strs_of_elems(items.deep_view(), et@, 0).contains(s)
            ==> ctx@.contains(s),
    ensures
        match r {
            Ok(()) => enc_elems(items.deep_view(), et@, 0, m, ctx@) matches Ok(b)
                && final(pipe)@ == old(pipe)@ + b,
            Err(e) => enc_elems(items.deep_view(), et@, 0, m, ctx@) == Err::<Seq<u8>, _>(e),
        },
    decreases items, 0int,
{
    let ghost ivs = items.deep_view();
    let ghost start = pipe@;
    let n = items.len();
    for i in 0..n
        invariant
            pipe@.len() >= start.len(),
            pipe@.take(start.len() as int) == start,
            m.use_dedup ==> forall|s: Seq<char>| strs_of_elems(ivs, et@, i as int).contains(s)
                ==> ctx@.contains(s),
            match enc_elems(ivs, et@, i as int, m, ctx@) {
                Ok(rest) => enc_elems(ivs, et@, 0, m, ctx@)
                    == Ok::<Seq<u8>, Error>(pipe@.skip(start.len() as int) + rest),
                Err(e) => enc_elems(ivs, et@, 0, m, ctx@) == Err::<Seq<u8>, _>(e),
            },
    {
        let ghost before = pipe@;
        proof {
            assert(ivs[i as int] == value_view(items@[i as int]));
            if m.use_dedup {
                lemma_concat_contains(
                    strs_of(ivs[i as int], et@, true),
                    strs_of_elems(ivs, et@, i as int + 1),
                );
                assert(strs_of(ivs[i as int], et@, true) + strs_of_elems(ivs, et@, i as int + 1)
                    =~= strs_of_elems(ivs, et@, i as int));
            }
        }
        match encode_value(&items[i], et, m, ctx, pipe) {
            Ok(()) => {
                proof {
                    let hb = enc_val(ivs[i as int], et@, m, ctx@)->Ok_0;
                    assert(pipe@.take(start.len() as int) =~= start);
                    assert(pipe@.skip(start.len() as int)
                        =~= before.skip(start.len() as int) + hb);
                    match enc_elems(ivs, et@, i as int + 1, m, ctx@) {
                        Ok(rest) => {
                            assert(before.skip(start.len() as int) + (hb + rest)
                                =~= pipe@.skip(start.len() as int) + rest);
                        },
                        Err(e) => {},
                    }
                }
            },
            Err(e) => {
                return Err(e);
            },
        }
    }
    proof {
        assert(pipe@.skip(start.len() as int) + Seq::<u8>::empty()
            =~= pipe@.skip(start.len() as int));
    }
    Ok(())
}

/// The real pass over a run of map entries, each key before its value.
#[verifier::loop_isolation(false)]
fn encode_entries(entries: &Vec<Value>, kt: &Ty, vt: &Ty, m: Mode, ctx: &DedupContext, pipe: &mut Vec<u8>) -> (r: Result<(), Error>)
    requires
        forall|j: int| 0 <= j < entries@.len()
            ==> ((#[trigger] entries.deep_view()[j]) matches ValueV::Group(kv)
                && kv.len() == 2
                && conforms(kv[0], kt@)
                && conforms(kv[1], vt@)),
        ctx.wf(),
        m.use_dedup ==> forall|s: Seq<char>| strs_of_entries(entries.deep_view(), kt@, vt@, 0).contains(s)
            ==> ctx@.contains(s),
    ensures
        match r {
            Ok(()) => enc_entries(entries.deep_view(), kt@, vt@, 0, m, ctx@) matches Ok(b)
                && final(pipe)@ == old(pipe)@ + b,
            Err(e) => enc_entries(entries.deep_view(), kt@, vt@, 0, m, ctx@)
                == Err::<Seq<u8>, _>(e),
        },
    decreases entries, 0int,
{
    let ghost evs = entries.deep_view();
    let ghost start = pipe@;
    let n = entries.len();
    for i in 0..n
        invariant
            pipe@.len() >= start.len(),
            pipe@.take(start.len() as int) == start,
            m.use_dedup ==> forall|s: Seq<char>| strs_of_entries(evs, kt@, vt@, i as int).contains(s)
                ==> ctx@.contains(s),
            match enc_entries(evs, kt@, vt@, i as int, m, ctx@) {
                Ok(rest) => enc_entries(evs, kt@, vt@, 0, m, ctx@)
                    == Ok::<Seq<u8>, Error>(pipe@.skip(start.len() as int) + rest),
                Err(e) => enc_entries(evs, kt@, vt@, 0, m, ctx@) == Err::<Seq<u8>, _>(e),
            },
    {
        let ghost before = pipe@;
        let ghost kvg = evs[i as int]->Group_0;
        proof {
            assert(evs[i as int] == value_view(entries@[i as int]));
            if m.use_dedup {
                let head = strs_of(kvg[0], kt@, true) + strs_of(kvg[1], vt@, true);
                lemma_concat_contains(head, strs_of_entries(evs, kt@, vt@, i as int + 1));
                assert(head + strs_of_entries(evs, kt@, vt@, i as int + 1)
                    =~= strs_of_entries(evs, kt@, vt@, i as int));
                lemma_concat_contains(
                    strs_of(kvg[0], kt@, true),
                    strs_of(kvg[1], vt@, true),
                );
            }
        }
        match &entries[i] {
            Value::Group(kv) => {
                proof {
                    assert(kvg.len() == kv@.len());
                    assert(kvg[0] == value_view(kv@[0]));
                    assert(kvg[1] == value_view(kv@[1]));
                }
                match encode_value(&kv[0], kt, m, ctx, pipe) {
                    Ok(()) => {},
                    Err(e) => {
                        return Err(e);
                    },
                }
                match encode_value(&kv[1], vt, m, ctx, pipe) {
                    Ok(()) => {},
                    Err(e) => {
                        return Err(e);
                    },
                }
                proof {
                    let kb = enc_val(kvg[0], kt@, m, ctx@)->Ok_0;
                    let vb = enc_val(kvg[1], vt@, m, ctx@)->Ok_0;
                    assert(pipe@.take(start.len() as int) =~= start);
                    assert(pipe@.skip(start.len() as int)
                        =~= before.skip(start.len() as int) + (kb + vb));
                    match enc_entries(evs, kt@, vt@, i as int + 1, m, ctx@) {
                        Ok(rest) => {
                            assert(before.skip(start.len() as int) + ((kb + vb) + rest)
                                =~= pipe@.skip(start.len() as int) + rest);
                        },
                        Err(e) => {},
                    }
                }
            },
            _ => {
                proof {
                    assert(false);
                }
                return Err(Error::Io);
            },
        }
    }
    proof {
        assert(pipe@.skip(start.len() as int) + Seq::<u8>::empty()
            =~= pipe@.skip(start.len() as int));
    }
    Ok(())
}

/// The real pass over tuple fields, in declared order.
#[verifier::loop_isolation(false)]
fn encode_tuple(items: &Vec<Value>, ts: &Vec<Ty>, m: Mode, ctx: &DedupContext, pipe: &mut Vec<u8>) -> (r: Result<(), Error>)
    requires
        items@.len() == ts@.len(),
        forall|j: int| 0 <= j < items@.len()
            ==> conforms(#[trigger] items.deep_view()[j], ts.deep_view()[j]),
        ctx.wf(),
        m.use_dedup ==> forall|s: Seq<char>| strs_of_tuple(items.deep_view(), ts.deep_view(), 0).contains(s)
            ==> ctx@.contains(s),
    ensures
        match r {
            Ok(()) => enc_tuple(items.deep_view(), ts.deep_view(), 0, m, ctx@) matches Ok(b)
                && final(pipe)@ == old(pipe)@ + b,
            Err(e) => enc_tuple(items.deep_view(), ts.deep_view(), 0, m, ctx@)
                == Err::<Seq<u8>, _>(e),
        },
    decreases items, 0int,
{
    let ghost ivs = items.deep_view();
    let ghost tvs = ts.deep_view();
    let ghost start = pipe@;
    let n = items.len();
    for i in 0..n
        invariant
            pipe@.len() >= start.len(),
            pipe@.take(start.len() as int) == start,
            m.use_dedup ==> forall|s: Seq<char>| strs_of_tuple(ivs, tvs, i as int).contains(s)
                ==> ctx@.contains(s),
            match enc_tuple(ivs, tvs, i as int, m, ctx@) {
                Ok(rest) => enc_tuple(ivs, tvs, 0, m, ctx@)
                    == Ok::<Seq<u8>, Error>(pipe@.skip(start.len() as int) + rest),
                Err(e) => enc_tuple(ivs, tvs, 0, m, ctx@) == Err::<Seq<u8>, _>(e),
            },
    {
        let ghost before = pipe@;
        proof {
            assert(ivs[i as int] == value_view(items@[i as int]));
            assert(tvs[i as int] == ty_view(ts@[i as int]));
            if m.use_dedup {
                lemma_concat_contains(
                    strs_of(ivs[i as int], tvs[i as int], true),
                    strs_of_tuple(ivs, tvs, i as int + 1),
                );
                assert(strs_of(ivs[i as int], tvs[i as int], true)
                    + strs_of_tuple(ivs, tvs, i as int + 1)
                    =~= strs_of_tuple(ivs, tvs, i as int));
            }
        }
        match encode_value(&items[i], &ts[i], m, ctx, pipe) {
            Ok(()) => {
                proof {
                    let hb = enc_val(ivs[i as int], tvs[i as int], m, ctx@)->Ok_0;
                    assert(pipe@.take(start.len() as int) =~= start);
                    assert(pipe@.skip(start.len() as int)
                        =~= before.skip(start.len() as int) + hb);
                    match enc_tuple(ivs, tvs, i as int + 1, m, ctx@) {
                        Ok(rest) => {
                            assert(before.skip(start.len() as int) + (hb + rest)
                                =~= pipe@.skip(start.len() as int) + rest);
                        },
                        Err(e) => {},
                    }
                }
            },
            Err(e) => {
                return Err(e);
            },
        }
    }
    proof {
        assert(pipe@.skip(start.len() as int) + Seq::<u8>::empty()
            =~= pipe@.skip(start.len() as int));
    }
    Ok(())
}

/// The real pass over annotated fields: a skip-marked field is omitted
/// entirely; a no-dedup field's subtree is written with dedup disabled.
#[verifier::loop_isolation(false)]
#[verifier::rlimit(100)]
#[verifier::spinoff_prover]
fn encode_fields(items: &Vec<Value>, fs: &Vec<FieldTy>, m: Mode, ctx: &DedupContext, pipe: &mut Vec<u8>) -> (r: Result<(), Error>)
    requires
        items@.len() == fs@.len(),
        forall|j: int| 0 <= j < items@.len()
            ==> conforms(#[trigger] items.deep_view()[j], fs.deep_view()[j].ty),
        ctx.wf(),
        m.use_dedup ==> forall|s: Seq<char>| strs_of_fields(items.deep_view(), fs.deep_view(), 0).contains(s)
            ==> ctx@.contains(s),
    ensures
        match r {
            Ok(()) => enc_fields(items.deep_view(), fs.deep_view(), 0, m, ctx@) matches Ok(b)
                && final(pipe)@ == old(pipe)@ + b,
            Err(e) => enc_fields(items.deep_view(), fs.deep_view(), 0, m, ctx@)
                == Err::<Seq<u8>, _>(e),
        },
    decreases items, 0int,
{
    let ghost ivs = items.deep_view();
    let ghost fvs = fs.deep_view();
    let ghost start = pipe@;
    let n = items.len();
    for i in 0..n
        invariant
            pipe@.len() >= start.len(),
            pipe@.take(start.len() as int) == start,
            m.use_dedup ==> forall|s: Seq<char>| strs_of_fields(ivs, fvs, i as int).contains(s)
                ==> ctx@.contains(s),
            match enc_fields(ivs, fvs, i as int, m, ctx@) {
                Ok(rest) => enc_fields(ivs, fvs, 0, m, ctx@)
                    == Ok::<Seq<u8>, Error>(pipe@.skip(start.len() as int) + rest),
                Err(e) => enc_fields(ivs, fvs, 0, m, ctx@) == Err::<Seq<u8>, _>(e),
            },
    {
        let ghost before = pipe@;
        let ghost shead = if fvs[i as int].skip || fvs[i as int].no_dedup {
            Seq::<Seq<char>>::empty()
        } else {
            strs_of(ivs[i as int], fvs[i as int].ty, true)
        };
        proof {
            assert(ivs[i as int] == value_view(items@[i as int]));
            assert(fvs[i as int] == field_view(fs@[i as int]));
            if m.use_dedup {
                lemma_concat_contains(shead, strs_of_fields(ivs, fvs, i as int + 1));
                assert(shead + strs_of_fields(ivs, fvs, i as int + 1)
                    =~= strs_of_fields(ivs, fvs, i as int));
            }
        }
        if !fs[i].skip {
            let fm = if fs[i].no_dedup {
                m.with_dedup_disabled()
            } else {
                m
            };
            proof {
                if fvs[i as int].no_dedup {
                    assert(strs_of(ivs[i as int], fvs[i as int].ty, fm.use_dedup)
                        =~= Seq::<Seq<char>>::empty());
                }
            }
            match encode_value(&items[i], &fs[i].ty, fm, ctx, pipe) {
                Ok(()) => {
                    proof {
                        let hb = enc_val(ivs[i as int], fvs[i as int].ty, fm, ctx@)->Ok_0;
                        assert(pipe@.take(start.len() as int) =~= start);
                        assert(pipe@.skip(start.len() as int)
                            =~= before.skip(start.len() as int) + hb);
                        match enc_fields(ivs, fvs, i as int + 1, m, ctx@) {
                            Ok(rest) => {
                                assert(before.skip(start.len() as int) + (hb + rest)
                                    =~= pipe@.skip(start.len() as int) + rest);
                            },
                            Err(e) => {},
                        }
                    }
                },
                Err(e) => {
                    return Err(e);
                },
            }
        } else {
            proof {
                match enc_fields(ivs, fvs, i as int + 1, m, ctx@) {
                    Ok(rest) => {
                        assert(before.skip(start.len() as int) + (Seq::<u8>::empty() + rest)
                            =~= pipe@.skip(start.len() as int) + rest);
                    },
                    Err(e) => {},
                }
            }
        }
    }
    proof {
        assert(pipe@.skip(start.len() as int) + Seq::<u8>::empty()
            =~= pipe@.skip(start.len() as int));
    }
    Ok(())
}

} // verus!

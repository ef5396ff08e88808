//! The wire format itself, as mathematics: what bytes a value produces
//! under a mode and a dedup table, which strings a traversal interns,
//! and what a byte stream decodes to.

use vstd::prelude::*;
use vstd::bytes::*;
use crate::value::{ValueV, TyV, FieldTyV, defaultable, default_val, conforms, bounded_val,
    wf_ty, wf_tys, wf_fields, wf_variants, reset_skip, reset_skip_elems, reset_skip_entries,
    reset_skip_tuple, reset_skip_fields};
use crate::serde::{Mode, UsizeLen, spec_write_size, spec_read_usize, spec_write_str_inline,
    spec_read_str_inline, lemma_size_roundtrip, lemma_str_inline_roundtrip};
use crate::varint::{lemma_varint_roundtrip, lemma_zigzag_roundtrip};
use crate::varint::{spec_varint, spec_varint_read, spec_zigzag, spec_unzigzag};
use crate::Error;

verus! {

/// The strings a traversal of `v` meets inside dedup scope, in traversal
/// order: what the prescan pass interns. A subtree under a no-dedup
/// field, a skipped field, and everything outside dedup scope contribute
/// nothing, matching their real-pass behavior.
pub open spec fn strs_of(v: ValueV, t: TyV, on: bool) -> Seq<Seq<char>>
    decreases v, 1int, 0int,
{
    if !on {
        Seq::empty()
    } else {
        match (t, v) {
            (TyV::Str, ValueV::Str(s)) => seq![s],
            (TyV::List(et), ValueV::List(items)) => strs_of_elems(items, *et, 0),
            (TyV::Array(et, _), ValueV::Group(items)) => strs_of_elems(items, *et, 0),
            (TyV::Dict(kt, vt), ValueV::List(entries)) => strs_of_entries(entries, *kt, *vt, 0),
            (TyV::Opt(et), ValueV::Opt(o)) => match o {
                Some(inner) => strs_of(*inner, *et, true),
                None => Seq::empty(),
            },
            (TyV::Res(ot, et), ValueV::Res(side, inner)) => strs_of(
                *inner,
                if side { *et } else { *ot },
                true,
            ),
            (TyV::Tuple(ts), ValueV::Group(items)) => strs_of_tuple(items, ts, 0),
            (TyV::Struct(fs), ValueV::Group(items)) => strs_of_fields(items, fs, 0),
            (TyV::Enum(vs), ValueV::Case(d, items)) => if d < vs.len() {
                strs_of_fields(items, vs[d as int], 0)
            } else {
                Seq::empty()
            },
            _ => Seq::empty(),
        }
    }
}

/// The strings of the elements from position `i` on.
pub open spec fn strs_of_elems(items: Seq<ValueV>, et: TyV, i: int) -> Seq<Seq<char>>
    decreases items, 0int, items.len() - i,
{
    if i < 0 || i >= items.len() {
        Seq::empty()
    } else {
        strs_of(items[i], et, true) + strs_of_elems(items, et, i + 1)
    }
}

/// The strings of the map entries from position `i` on, keys before values.
pub open spec fn strs_of_entries(entries: Seq<ValueV>, kt: TyV, vt: TyV, i: int) -> Seq<Seq<char>>
    decreases entries, 0int, entries.len() - i,
{
    if i < 0 || i >= entries.len() {
        Seq::empty()
    } else {
        let head = match entries[i] {
            ValueV::Group(kv) => if kv.len() == 2 {
                strs_of(kv[0], kt, true) + strs_of(kv[1], vt, true)
            } else {
                Seq::empty()
            },
            _ => Seq::empty(),
        };
        head + strs_of_entries(entries, kt, vt, i + 1)
    }
}

/// The strings of the tuple fields from position `i` on.
pub open spec fn strs_of_tuple(items: Seq<ValueV>, ts: Seq<TyV>, i: int) -> Seq<Seq<char>>
    decreases items, 0int, items.len() - i,
{
    if i < 0 || i >= items.len() || ts.len() != items.len() {
        Seq::empty()
    } else {
        strs_of(items[i], ts[i], true) + strs_of_tuple(items, ts, i + 1)
    }
}

/// The strings of the annotated fields from position `i` on: a skipped
/// field is not traversed, and a no-dedup field's subtree interns nothing.
pub open spec fn strs_of_fields(items: Seq<ValueV>, fs: Seq<FieldTyV>, i: int) -> Seq<Seq<char>>
    decreases items, 0int, items.len() - i,
{
    if i < 0 || i >= items.len() || fs.len() != items.len() {
        Seq::empty()
    } else {
        let head = if fs[i].skip || fs[i].no_dedup {
            Seq::empty()
        } else {
            strs_of(items[i], fs[i].ty, true)
        };
        head + strs_of_fields(items, fs, i + 1)
    }
}

/// The bytes a string produces: with dedup on, its table identifier as a
/// size value of the dedup-index width — the string must already stand in
/// the table; with dedup off, the inline length-plus-UTF-8 form.
pub open spec fn enc_str(s: Seq<char>, m: Mode, tbl: Seq<Seq<char>>) -> Result<Seq<u8>, Error> {
    if m.use_dedup {
        if tbl.contains(s) {
            spec_write_size(tbl.index_of(s) as nat, m.dedup_idx)
        } else {
            Err(Error::StrOutOfRange(0))
        }
    } else {
        spec_write_str_inline(s, m.usize_len)
    }
}

/// The payload bytes of value `v` of type `t` under mode `m` with dedup
/// table `tbl`, or the exact error when a size does not fit its width.
pub open spec fn enc_val(v: ValueV, t: TyV, m: Mode, tbl: Seq<Seq<char>>) -> Result<Seq<u8>, Error>
    decreases v, 1int, 0int,
{
    match (t, v) {
        (TyV::Bool, ValueV::Bool(b)) => Ok(seq![if b { 255u8 } else { 0u8 }]),
        (TyV::U8, ValueV::U8(x)) => Ok(seq![x]),
        (TyV::U16, ValueV::U16(x)) => Ok(
            if m.fixed_size_use_varint {
                spec_varint(x as u64)
            } else {
                spec_u16_to_le_bytes(x)
            },
        ),
        (TyV::U32, ValueV::U32(x)) => Ok(
            if m.fixed_size_use_varint {
                spec_varint(x as u64)
            } else {
                spec_u32_to_le_bytes(x)
            },
        ),
        (TyV::U64, ValueV::U64(x)) => Ok(
            if m.fixed_size_use_varint {
                spec_varint(x)
            } else {
                spec_u64_to_le_bytes(x)
            },
        ),
        (TyV::I16, ValueV::I16(x)) => Ok(
            if m.fixed_size_use_varint {
                spec_varint(spec_zigzag(x as i64))
            } else {
                spec_u16_to_le_bytes(x as u16)
            },
        ),
        (TyV::I32, ValueV::I32(x)) => Ok(
            if m.fixed_size_use_varint {
                spec_varint(spec_zigzag(x as i64))
            } else {
                spec_u32_to_le_bytes(x as u32)
            },
        ),
        (TyV::I64, ValueV::I64(x)) => Ok(
            if m.fixed_size_use_varint {
                spec_varint(spec_zigzag(x))
            } else {
                spec_u64_to_le_bytes(x as u64)
            },
        ),
        (TyV::Size, ValueV::Size(x)) => spec_write_size(x as nat, m.usize_len),
        (TyV::Str, ValueV::Str(s)) => enc_str(s, m, tbl),
        (TyV::List(et), ValueV::List(items)) => match spec_write_size(items.len(), m.usize_len) {
            Ok(pre) => match enc_elems(items, *et, 0, m, tbl) {
                Ok(b) => Ok(pre + b),
                Err(e) => Err(e),
            },
            Err(e) => Err(e),
        },
        (TyV::Array(et, _), ValueV::Group(items)) => enc_elems(items, *et, 0, m, tbl),
        (TyV::Dict(kt, vt), ValueV::List(entries)) => match spec_write_size(
            entries.len(),
            m.usize_len,
        ) {
            Ok(pre) => match enc_entries(entries, *kt, *vt, 0, m, tbl) {
                Ok(b) => Ok(pre + b),
                Err(e) => Err(e),
            },
            Err(e) => Err(e),
        },
        (TyV::Opt(et), ValueV::Opt(o)) => match o {
            None => Ok(seq![0u8]),
            Some(inner) => match enc_val(*inner, *et, m, tbl) {
                Ok(b) => Ok(seq![1u8] + b),
                Err(e) => Err(e),
            },
        },
        (TyV::Res(ot, et), ValueV::Res(side, inner)) => match enc_val(
            *inner,
            if side { *et } else { *ot },
            m,
            tbl,
        ) {
            Ok(b) => Ok(seq![if side { 1u8 } else { 0u8 }] + b),
            Err(e) => Err(e),
        },
        (TyV::Tuple(ts), ValueV::Group(items)) => enc_tuple(items, ts, 0, m, tbl),
        (TyV::Struct(fs), ValueV::Group(items)) => enc_fields(items, fs, 0, m, tbl),
        (TyV::Enum(vs), ValueV::Case(d, items)) => if d < vs.len() {
            match spec_write_size(d as nat, m.usize_len) {
                Ok(pre) => match enc_fields(items, vs[d as int], 0, m, tbl) {
                    Ok(b) => Ok(pre + b),
                    Err(e) => Err(e),
                },
                Err(e) => Err(e),
            }
        } else {
            Err(Error::InvalidVariant(d))
        },
        _ => Err(Error::Io),
    }
}

/// The bytes of the elements from position `i` on, concatenated.
pub open spec fn enc_elems(items: Seq<ValueV>, et: TyV, i: int, m: Mode, tbl: Seq<Seq<char>>) -> Result<Seq<u8>, Error>
    decreases items, 0int, items.len() - i,
{
    if i < 0 || i >= items.len() {
        Ok(Seq::empty())
    } else {
        match enc_val(items[i], et, m, tbl) {
            Ok(b) => match enc_elems(items, et, i + 1, m, tbl) {
                Ok(r) => Ok(b + r),
                Err(e) => Err(e),
            },
            Err(e) => Err(e),
        }
    }
}

/// The bytes of the map entries from position `i` on: key, then value.
pub open spec fn enc_entries(entries: Seq<ValueV>, kt: TyV, vt: TyV, i: int, m: Mode, tbl: Seq<Seq<char>>) -> Result<Seq<u8>, Error>
    decreases entries, 0int, entries.len() - i,
{
    if i < 0 || i >= entries.len() {
        Ok(Seq::empty())
    } else {
        let head = match entries[i] {
            ValueV::Group(kv) => if kv.len() == 2 {
                match enc_val(kv[0], kt, m, tbl) {
                    Ok(kb) => match enc_val(kv[1], vt, m, tbl) {
                        Ok(vb) => Ok(kb + vb),
                        Err(e) => Err(e),
                    },
                    Err(e) => Err(e),
                }
            } else {
                Err(Error::Io)
            },
            _ => Err(Error::Io),
        };
        match head {
            Ok(hb) => match enc_entries(entries, kt, vt, i + 1, m, tbl) {
                Ok(r) => Ok(hb + r),
                Err(e) => Err(e),
            },
            Err(e) => Err(e),
        }
    }
}

/// The bytes of the tuple fields from position `i` on, in declared order.
pub open spec fn enc_tuple(items: Seq<ValueV>, ts: Seq<TyV>, i: int, m: Mode, tbl: Seq<Seq<char>>) -> Result<Seq<u8>, Error>
    decreases items, 0int, items.len() - i,
{
    if i < 0 || i >= items.len() || ts.len() != items.len() {
        Ok(Seq::empty())
    } else {
        match enc_val(items[i], ts[i], m, tbl) {
            Ok(b) => match enc_tuple(items, ts, i + 1, m, tbl) {
                Ok(r) => Ok(b + r),
                Err(e) => Err(e),
            },
            Err(e) => Err(e),
        }
    }
}

/// The bytes of the annotated fields from position `i` on: a skip-marked
/// field is omitted entirely; a no-dedup field's subtree is encoded with
/// dedup disabled, whatever the ambient mode says.
pub open spec fn enc_fields(items: Seq<ValueV>, fs: Seq<FieldTyV>, i: int, m: Mode, tbl: Seq<Seq<char>>) -> Result<Seq<u8>, Error>
    decreases items, 0int, items.len() - i,
{
    if i < 0 || i >= items.len() || fs.len() != items.len() {
        Ok(Seq::empty())
    } else {
        let head = if fs[i].skip {
            Ok(Seq::<u8>::empty())
        } else {
            enc_val(
                items[i],
                fs[i].ty,
                if fs[i].no_dedup { m.with_dedup_disabled() } else { m },
                tbl,
            )
        };
        match head {
            Ok(hb) => match enc_fields(items, fs, i + 1, m, tbl) {
                Ok(r) => Ok(hb + r),
                Err(e) => Err(e),
            },
            Err(e) => Err(e),
        }
    }
}

/// What a string decodes to: with dedup on, a table identifier of the
/// dedup-index width, failing with `StrOutOfRange` past the table's end;
/// with dedup off, the inline length-plus-UTF-8 form.
pub open spec fn dec_str(bytes: Seq<u8>, m: Mode, tbl: Seq<Seq<char>>) -> Result<(ValueV, nat), Error> {
    if m.use_dedup {
        match spec_read_usize(bytes, m.dedup_idx) {
            Ok((idx, n)) => if idx < tbl.len() {
                Ok((ValueV::Str(tbl[idx as int]), n))
            } else {
                Err(Error::StrOutOfRange(idx))
            },
            Err(e) => Err(e),
        }
    } else {
        match spec_read_str_inline(bytes, m.usize_len) {
            Ok((s, n)) => Ok((ValueV::Str(s), n)),
            Err(e) => Err(e),
        }
    }
}

/// What the front of `bytes` decodes to at type `t` under mode `m` with
/// dedup table `tbl`: the value and the bytes consumed, or the exact
/// error. Failures: `Io` for a truncated stream, `TryFromInt` for a
/// number that does not fit, `InvalidUtf8` for bad string bytes,
/// `StrOutOfRange` for a bad table identifier, `InvalidVariant` for a
/// discriminant beyond the known variants, and `EmptySumType` for a sum
/// type with no variants, recognized before any byte is consumed.
pub open spec fn dec_val(t: TyV, bytes: Seq<u8>, m: Mode, tbl: Seq<Seq<char>>) -> Result<(ValueV, nat), Error>
    decreases t, 1int, 0int,
{
    match t {
        TyV::Bool => if bytes.len() >= 1 {
            Ok((ValueV::Bool(bytes[0] != 0), 1))
        } else {
            Err(Error::Io)
        },
        TyV::U8 => if bytes.len() >= 1 {
            Ok((ValueV::U8(bytes[0]), 1))
        } else {
            Err(Error::Io)
        },
        TyV::U16 => if m.fixed_size_use_varint {
            match spec_varint_read(bytes) {
                Ok((x, n)) => if x <= u16::MAX {
                    Ok((ValueV::U16(x as u16), n))
                } else {
                    Err(Error::TryFromInt)
                },
                Err(e) => Err(e),
            }
        } else if bytes.len() >= 2 {
            Ok((ValueV::U16(spec_u16_from_le_bytes(bytes.take(2))), 2))
        } else {
            Err(Error::Io)
        },
        TyV::U32 => if m.fixed_size_use_varint {
            match spec_varint_read(bytes) {
                Ok((x, n)) => if x <= u32::MAX {
                    Ok((ValueV::U32(x as u32), n))
                } else {
                    Err(Error::TryFromInt)
                },
                Err(e) => Err(e),
            }
        } else if bytes.len() >= 4 {
            Ok((ValueV::U32(spec_u32_from_le_bytes(bytes.take(4))), 4))
        } else {
            Err(Error::Io)
        },
        TyV::U64 => if m.fixed_size_use_varint {
            match spec_varint_read(bytes) {
                Ok((x, n)) => Ok((ValueV::U64(x), n)),
                Err(e) => Err(e),
            }
        } else if bytes.len() >= 8 {
            Ok((ValueV::U64(spec_u64_from_le_bytes(bytes.take(8))), 8))
        } else {
            Err(Error::Io)
        },
        TyV::I16 => if m.fixed_size_use_varint {
            match spec_varint_read(bytes) {
                Ok((x, n)) => if i16::MIN <= spec_unzigzag(x) <= i16::MAX {
                    Ok((ValueV::I16(spec_unzigzag(x) as i16), n))
                } else {
                    Err(Error::TryFromInt)
                },
                Err(e) => Err(e),
            }
        } else if bytes.len() >= 2 {
            Ok((ValueV::I16(spec_u16_from_le_bytes(bytes.take(2)) as i16), 2))
        } else {
            Err(Error::Io)
        },
        TyV::I32 => if m.fixed_size_use_varint {
            match spec_varint_read(bytes) {
                Ok((x, n)) => if i32::MIN <= spec_unzigzag(x) <= i32::MAX {
                    Ok((ValueV::I32(spec_unzigzag(x) as i32), n))
                } else {
                    Err(Error::TryFromInt)
                },
                Err(e) => Err(e),
            }
        } else if bytes.len() >= 4 {
            Ok((ValueV::I32(spec_u32_from_le_bytes(bytes.take(4)) as i32), 4))
        } else {
            Err(Error::Io)
        },
        TyV::I64 => if m.fixed_size_use_varint {
            match spec_varint_read(bytes) {
                Ok((x, n)) => Ok((ValueV::I64(spec_unzigzag(x)), n)),
                Err(e) => Err(e),
            }
        } else if bytes.len() >= 8 {
            Ok((ValueV::I64(spec_u64_from_le_bytes(bytes.take(8)) as i64), 8))
        } else {
            Err(Error::Io)
        },
        TyV::Size => match spec_read_usize(bytes, m.usize_len) {
            Ok((x, n)) => Ok((ValueV::Size(x), n)),
            Err(e) => Err(e),
        },
        TyV::Str => dec_str(bytes, m, tbl),
        TyV::List(_) => match spec_read_usize(bytes, m.usize_len) {
            Ok((n, k)) => match dec_elems(t, n as nat, bytes.skip(k as int), m, tbl) {
                Ok((items, k2)) => Ok((ValueV::List(items), k + k2)),
                Err(e) => Err(e),
            },
            Err(e) => Err(e),
        },
        TyV::Array(_, n) => match dec_elems(t, n as nat, bytes, m, tbl) {
            Ok((items, k)) => Ok((ValueV::Group(items), k)),
            Err(e) => Err(e),
        },
        TyV::Dict(_, _) => match spec_read_usize(bytes, m.usize_len) {
            Ok((n, k)) => match dec_entries(t, n as nat, bytes.skip(k as int), m, tbl) {
                Ok((entries, k2)) => Ok((ValueV::List(entries), k + k2)),
                Err(e) => Err(e),
            },
            Err(e) => Err(e),
        },
        TyV::Opt(et) => if bytes.len() >= 1 {
            if bytes[0] == 0 {
                Ok((ValueV::Opt(None), 1))
            } else if bytes[0] == 1 {
                match dec_val(*et, bytes.skip(1), m, tbl) {
                    Ok((inner, n)) => Ok((ValueV::Opt(Some(Box::new(inner))), n + 1)),
                    Err(e) => Err(e),
                }
            } else {
                Err(Error::InvalidVariant(bytes[0] as usize))
            }
        } else {
            Err(Error::Io)
        },
        TyV::Res(ot, et) => if bytes.len() >= 1 {
            if bytes[0] == 0 || bytes[0] == 1 {
                let side = bytes[0] == 1;
                match dec_val(if side { *et } else { *ot }, bytes.skip(1), m, tbl) {
                    Ok((inner, n)) => Ok((ValueV::Res(side, Box::new(inner)), n + 1)),
                    Err(e) => Err(e),
                }
            } else {
                Err(Error::InvalidVariant(bytes[0] as usize))
            }
        } else {
            Err(Error::Io)
        },
        TyV::Tuple(ts) => match dec_tuple(ts, 0, bytes, m, tbl) {
            Ok((items, k)) => Ok((ValueV::Group(items), k)),
            Err(e) => Err(e),
        },
        TyV::Struct(fs) => match dec_fields(fs, 0, bytes, m, tbl) {
            Ok((items, k)) => Ok((ValueV::Group(items), k)),
            Err(e) => Err(e),
        },
        TyV::Enum(vs) => if vs.len() == 0 {
            Err(Error::EmptySumType)
        } else {
            match spec_read_usize(bytes, m.usize_len) {
                Ok((d, k)) => if d < vs.len() {
                    match dec_fields(vs[d as int], 0, bytes.skip(k as int), m, tbl) {
                        Ok((items, k2)) => Ok((ValueV::Case(d, items), k + k2)),
                        Err(e) => Err(e),
                    }
                } else {
                    Err(Error::InvalidVariant(d))
                },
                Err(e) => Err(e),
            }
        },
    }
}

/// What `n` elements of the element type of `t` (a list or array type)
/// decode to, from the front of `bytes`.
pub open spec fn dec_elems(t: TyV, n: nat, bytes: Seq<u8>, m: Mode, tbl: Seq<Seq<char>>) -> Result<(Seq<ValueV>, nat), Error>
    decreases t, 0int, n,
{
    let et = match t {
        TyV::List(et) => *et,
        TyV::Array(et, _) => *et,
        _ => TyV::Bool,
    };
    if !(t is List || t is Array) {
        Err(Error::Io)
    } else if n == 0 {
        Ok((Seq::empty(), 0))
    } else {
        match dec_val(et, bytes, m, tbl) {
            Ok((v, k)) => match dec_elems(t, (n - 1) as nat, bytes.skip(k as int), m, tbl) {
                Ok((rest, k2)) => Ok((seq![v] + rest, k + k2)),
                Err(e) => Err(e),
            },
            Err(e) => Err(e),
        }
    }
}

/// What `n` key/value entries of the entry types of `t` (a map type)
/// decode to, from the front of `bytes`: each a two-field group.
pub open spec fn dec_entries(t: TyV, n: nat, bytes: Seq<u8>, m: Mode, tbl: Seq<Seq<char>>) -> Result<(Seq<ValueV>, nat), Error>
    decreases t, 0int, n,
{
    match t {
        TyV::Dict(kt, vt) => if n == 0 {
            Ok((Seq::empty(), 0))
        } else {
            match dec_val(*kt, bytes, m, tbl) {
                Ok((kv, k)) => match dec_val(*vt, bytes.skip(k as int), m, tbl) {
                    Ok((vv, k2)) => match dec_entries(
                        t,
                        (n - 1) as nat,
                        bytes.skip(k as int + k2 as int),
                        m,
                        tbl,
                    ) {
                        Ok((rest, k3)) => Ok(
                            (seq![ValueV::Group(seq![kv, vv])] + rest, k + k2 + k3),
                        ),
                        Err(e) => Err(e),
                    },
                    Err(e) => Err(e),
                },
                Err(e) => Err(e),
            }
        },
        _ => Err(Error::Io),
    }
}

/// What the tuple fields from position `i` on decode to.
pub open spec fn dec_tuple(ts: Seq<TyV>, i: int, bytes: Seq<u8>, m: Mode, tbl: Seq<Seq<char>>) -> Result<(Seq<ValueV>, nat), Error>
    decreases ts, 0int, ts.len() - i,
{
    if i < 0 || i >= ts.len() {
        Ok((Seq::empty(), 0))
    } else {
        match dec_val(ts[i], bytes, m, tbl) {
            Ok((v, k)) => match dec_tuple(ts, i + 1, bytes.skip(k as int), m, tbl) {
                Ok((rest, k2)) => Ok((seq![v] + rest, k + k2)),
                Err(e) => Err(e),
            },
            Err(e) => Err(e),
        }
    }
}

/// What the annotated fields from position `i` on decode to: a
/// skip-marked field consumes nothing and is populated with its type's
/// default — a skip-marked field whose type has no default is a schema
/// fault that a well-formed schema rules out; a no-dedup field decodes
/// with dedup disabled.
pub open spec fn dec_fields(fs: Seq<FieldTyV>, i: int, bytes: Seq<u8>, m: Mode, tbl: Seq<Seq<char>>) -> Result<(Seq<ValueV>, nat), Error>
    decreases fs, 0int, fs.len() - i,
{
    if i < 0 || i >= fs.len() {
        Ok((Seq::empty(), 0))
    } else if fs[i].skip {
        if defaultable(fs[i].ty) {
            match dec_fields(fs, i + 1, bytes, m, tbl) {
                Ok((rest, k)) => Ok((seq![default_val(fs[i].ty)] + rest, k)),
                Err(e) => Err(e),
            }
        } else {
            Err(Error::EmptySumType)
        }
    } else {
        let fm = if fs[i].no_dedup {
            m.with_dedup_disabled()
        } else {
            m
        };
        match dec_val(fs[i].ty, bytes, fm, tbl) {
            Ok((v, k)) => match dec_fields(fs, i + 1, bytes.skip(k as int), m, tbl) {
                Ok((rest, k2)) => Ok((seq![v] + rest, k + k2)),
                Err(e) => Err(e),
            },
            Err(e) => Err(e),
        }
    }
}


/// Every variant of a well-formed sum type is itself well formed.
pub proof fn lemma_wf_variant(vs: Seq<Seq<FieldTyV>>, d: int)
    requires
        wf_variants(vs),
        0 <= d < vs.len(),
    ensures
        wf_fields(vs[d]),
    decreases vs.len(),
{
    if d > 0 {
        lemma_wf_variant(vs.skip(1), d - 1);
        assert(vs.skip(1)[d - 1] == vs[d]);
    }
}

/// What was encoded decodes back, whatever follows it in the stream: the
/// value returns with each skip-marked field reset to its default.
#[verifier::rlimit(100)]
#[verifier::spinoff_prover]
pub proof fn lemma_enc_dec_val(v: ValueV, t: TyV, m: Mode, tbl: Seq<Seq<char>>, rest: Seq<u8>)
    requires
        conforms(v, t),
        wf_ty(t),
        bounded_val(v),
        tbl.len() <= usize::MAX,
        enc_val(v, t, m, tbl) is Ok,
    ensures
        ({
            let b = enc_val(v, t, m, tbl)->Ok_0;
            dec_val(t, b + rest, m, tbl) == Ok::<_, Error>((reset_skip(v, t), b.len()))
        }),
    decreases v, 1int, 0int,
{
    let b = enc_val(v, t, m, tbl)->Ok_0;
    let s = b + rest;
    match (t, v) {
        (TyV::Bool, ValueV::Bool(_)) => {
            lemma_enc_dec_scalar_case(v, t, m, tbl, rest);
        },
        (TyV::U8, ValueV::U8(_)) => {
            lemma_enc_dec_scalar_case(v, t, m, tbl, rest);
        },
        (TyV::U16, ValueV::U16(_)) => {
            lemma_enc_dec_int(v, t, m, tbl, rest);
        },
        (TyV::U32, ValueV::U32(_)) => {
            lemma_enc_dec_int(v, t, m, tbl, rest);
        },
        (TyV::U64, ValueV::U64(_)) => {
            lemma_enc_dec_int(v, t, m, tbl, rest);
        },
        (TyV::I16, ValueV::I16(_)) => {
            lemma_enc_dec_int(v, t, m, tbl, rest);
        },
        (TyV::I32, ValueV::I32(_)) => {
            lemma_enc_dec_int(v, t, m, tbl, rest);
        },
        (TyV::I64, ValueV::I64(_)) => {
            lemma_enc_dec_int(v, t, m, tbl, rest);
        },
        (TyV::Size, ValueV::Size(_)) => {
            lemma_enc_dec_scalar_case(v, t, m, tbl, rest);
        },
        (TyV::Str, ValueV::Str(_)) => {
            lemma_enc_dec_scalar_case(v, t, m, tbl, rest);
        },
        (TyV::List(et), ValueV::List(items)) => {
            let pre = spec_write_size(items.len(), m.usize_len)->Ok_0;
            let eb = enc_elems(items, *et, 0, m, tbl)->Ok_0;
            lemma_size_roundtrip(items.len(), m.usize_len, eb + rest);
            assert(s =~= pre + (eb + rest));
            assert(s.skip(pre.len() as int) =~= eb + rest);
            lemma_enc_dec_elems(items, t, *et, 0, m, tbl, rest);
            assert(items.skip(0) =~= items);
        },
        (TyV::Array(et, n), ValueV::Group(items)) => {
            lemma_enc_dec_elems(items, t, *et, 0, m, tbl, rest);
            assert(items.skip(0) =~= items);
        },
        (TyV::Dict(kt, vt), ValueV::List(entries)) => {
            let pre = spec_write_size(entries.len(), m.usize_len)->Ok_0;
            let eb = enc_entries(entries, *kt, *vt, 0, m, tbl)->Ok_0;
            lemma_size_roundtrip(entries.len(), m.usize_len, eb + rest);
            assert(s =~= pre + (eb + rest));
            assert(s.skip(pre.len() as int) =~= eb + rest);
            lemma_enc_dec_entries(entries, t, *kt, *vt, 0, m, tbl, rest);
            assert(entries.skip(0) =~= entries);
        },
        (TyV::Opt(et), ValueV::Opt(o)) => {
            match o {
                None => {
                    assert(s[0] == 0u8);
                },
                Some(inner) => {
                    let pb = enc_val(*inner, *et, m, tbl)->Ok_0;
                    assert(s[0] == 1u8);
                    assert(s.skip(1) =~= pb + rest);
                    lemma_enc_dec_val(*inner, *et, m, tbl, rest);
                },
            }
        },
        (TyV::Res(ot, et), ValueV::Res(side, inner)) => {
            let it = if side { *et } else { *ot };
            let pb = enc_val(*inner, it, m, tbl)->Ok_0;
            assert(s[0] == (if side { 1u8 } else { 0u8 }));
            assert(s.skip(1) =~= pb + rest);
            lemma_enc_dec_val(*inner, it, m, tbl, rest);
        },
        (TyV::Tuple(ts), ValueV::Group(items)) => {
            assert(ts.skip(0) =~= ts);
            lemma_enc_dec_tuple(items, ts, 0, m, tbl, rest);
            assert(items.skip(0) =~= items);
        },
        (TyV::Struct(fs), ValueV::Group(items)) => {
            assert(fs.skip(0) =~= fs);
            lemma_enc_dec_fields(items, fs, 0, m, tbl, rest);
            assert(items.skip(0) =~= items);
        },
        (TyV::Enum(vs), ValueV::Case(d, items)) => {
            let pre = spec_write_size(d as nat, m.usize_len)->Ok_0;
            let eb = enc_fields(items, vs[d as int], 0, m, tbl)->Ok_0;
            lemma_size_roundtrip(d as nat, m.usize_len, eb + rest);
            assert(s =~= pre + (eb + rest));
            assert(s.skip(pre.len() as int) =~= eb + rest);
            lemma_wf_variant(vs, d as int);
            assert(vs[d as int].skip(0) =~= vs[d as int]);
            lemma_enc_dec_fields(items, vs[d as int], 0, m, tbl, rest);
            assert(items.skip(0) =~= items);
        },
        _ => {},
    }
}



/// The leaf cases of the round trip other than the integers, proved
/// apart.
#[verifier::rlimit(100)]
#[verifier::spinoff_prover]
proof fn lemma_enc_dec_scalar_case(v: ValueV, t: TyV, m: Mode, tbl: Seq<Seq<char>>, rest: Seq<u8>)
    requires
        conforms(v, t),
        bounded_val(v),
        t is Bool || t is U8 || t is Size || t is Str,
        tbl.len() <= usize::MAX,
        enc_val(v, t, m, tbl) is Ok,
    ensures
        ({
            let b = enc_val(v, t, m, tbl)->Ok_0;
            dec_val(t, b + rest, m, tbl) == Ok::<_, Error>((reset_skip(v, t), b.len()))
        }),
{
    let b = enc_val(v, t, m, tbl)->Ok_0;
    let s = b + rest;
    match (t, v) {
        (TyV::Bool, ValueV::Bool(x)) => {
            assert(s[0] == (if x { 255u8 } else { 0u8 }));
        },
        (TyV::U8, ValueV::U8(x)) => {
            assert(s[0] == x);
        },
        (TyV::Size, ValueV::Size(x)) => {
            lemma_size_roundtrip(x as nat, m.usize_len, rest);
        },
        (TyV::Str, ValueV::Str(st)) => {
            if m.use_dedup {
                assert(tbl.contains(st));
                let i = tbl.index_of(st);
                assert(0 <= i < tbl.len() && tbl[i] == st);
                lemma_size_roundtrip(i as nat, m.dedup_idx, rest);
            } else {
                lemma_str_inline_roundtrip(st, m.usize_len, rest);
            }
        },
        _ => {},
    }
}

/// The integer cases of the round trip, proved apart.
#[verifier::rlimit(100)]
#[verifier::spinoff_prover]
proof fn lemma_enc_dec_int(v: ValueV, t: TyV, m: Mode, tbl: Seq<Seq<char>>, rest: Seq<u8>)
    requires
        conforms(v, t),
        t is U16 || t is U32 || t is U64 || t is I16 || t is I32 || t is I64,
        enc_val(v, t, m, tbl) is Ok,
    ensures
        ({
            let b = enc_val(v, t, m, tbl)->Ok_0;
            dec_val(t, b + rest, m, tbl) == Ok::<_, Error>((reset_skip(v, t), b.len()))
        }),
{
    let b = enc_val(v, t, m, tbl)->Ok_0;
    let s = b + rest;
    match (t, v) {
        (TyV::U16, ValueV::U16(x)) => {
            if m.fixed_size_use_varint {
                lemma_varint_roundtrip(x as u64, rest);
            } else {
                vstd::bytes::lemma_auto_spec_u16_to_from_le_bytes();
                assert(s.take(2) =~= b);
            }
        },
        (TyV::U32, ValueV::U32(x)) => {
            if m.fixed_size_use_varint {
                lemma_varint_roundtrip(x as u64, rest);
            } else {
                vstd::bytes::lemma_auto_spec_u32_to_from_le_bytes();
                assert(s.take(4) =~= b);
            }
        },
        (TyV::U64, ValueV::U64(x)) => {
            if m.fixed_size_use_varint {
                lemma_varint_roundtrip(x, rest);
            } else {
                vstd::bytes::lemma_auto_spec_u64_to_from_le_bytes();
                assert(s.take(8) =~= b);
            }
        },
        (TyV::I16, ValueV::I16(x)) => {
            if m.fixed_size_use_varint {
                lemma_varint_roundtrip(crate::varint::spec_zigzag(x as i64), rest);
                lemma_zigzag_roundtrip(x as i64);
            } else {
                vstd::bytes::lemma_auto_spec_u16_to_from_le_bytes();
                assert(s.take(2) =~= b);
                assert((x as u16) as i16 == x) by (bit_vector);
            }
        },
        (TyV::I32, ValueV::I32(x)) => {
            if m.fixed_size_use_varint {
                lemma_varint_roundtrip(crate::varint::spec_zigzag(x as i64), rest);
                lemma_zigzag_roundtrip(x as i64);
            } else {
                vstd::bytes::lemma_auto_spec_u32_to_from_le_bytes();
                assert(s.take(4) =~= b);
                assert((x as u32) as i32 == x) by (bit_vector);
            }
        },
        (TyV::I64, ValueV::I64(x)) => {
            if m.fixed_size_use_varint {
                lemma_varint_roundtrip(crate::varint::spec_zigzag(x), rest);
                lemma_zigzag_roundtrip(x);
            } else {
                vstd::bytes::lemma_auto_spec_u64_to_from_le_bytes();
                assert(s.take(8) =~= b);
                assert((x as u64) as i64 == x) by (bit_vector);
            }
        },
        _ => {},
    }
}

/// Elements encoded from position `i` on decode back one by one.
proof fn lemma_enc_dec_elems(items: Seq<ValueV>, t: TyV, et: TyV, i: int, m: Mode, tbl: Seq<Seq<char>>, rest: Seq<u8>)
    requires
        (t matches TyV::List(e) && *e == et) || (t matches TyV::Array(e, _) && *e == et),
        0 <= i <= items.len(),
        items.len() <= usize::MAX,
        forall|j: int| 0 <= j < items.len() ==> conforms(#[trigger] items[j], et),
        forall|j: int| 0 <= j < items.len() ==> bounded_val(#[trigger] items[j]),
        wf_ty(et),
        tbl.len() <= usize::MAX,
        enc_elems(items, et, i, m, tbl) is Ok,
    ensures
        ({
            let b = enc_elems(items, et, i, m, tbl)->Ok_0;
            dec_elems(t, (items.len() - i) as nat, b + rest, m, tbl)
                == Ok::<_, Error>((reset_skip_elems(items.skip(i), et), b.len()))
        }),
    decreases items, 0int, items.len() - i,
{
    let b = enc_elems(items, et, i, m, tbl)->Ok_0;
    if i == items.len() {
        assert(b + rest =~= rest);
        assert(items.skip(i) =~= Seq::<ValueV>::empty());
    } else {
        let hb = enc_val(items[i], et, m, tbl)->Ok_0;
        let tb = enc_elems(items, et, i + 1, m, tbl)->Ok_0;
        lemma_enc_dec_val(items[i], et, m, tbl, tb + rest);
        assert(b + rest =~= hb + (tb + rest));
        assert((b + rest).skip(hb.len() as int) =~= tb + rest);
        lemma_enc_dec_elems(items, t, et, i + 1, m, tbl, rest);
        assert(items.skip(i)[0] == items[i]);
        assert(items.skip(i).skip(1) =~= items.skip(i + 1));
    }
}

/// Map entries encoded from position `i` on decode back, key then value.
proof fn lemma_enc_dec_entries(entries: Seq<ValueV>, t: TyV, kt: TyV, vt: TyV, i: int, m: Mode, tbl: Seq<Seq<char>>, rest: Seq<u8>)
    requires
        t matches TyV::Dict(k, v) && *k == kt && *v == vt,
        0 <= i <= entries.len(),
        entries.len() <= usize::MAX,
        forall|j: int| 0 <= j < entries.len() ==> ((#[trigger] entries[j]) matches ValueV::Group(kv)
            && kv.len() == 2
            && conforms(kv[0], kt)
            && conforms(kv[1], vt)),
        forall|j: int| 0 <= j < entries.len() ==> bounded_val(#[trigger] entries[j]),
        wf_ty(kt),
        wf_ty(vt),
        tbl.len() <= usize::MAX,
        enc_entries(entries, kt, vt, i, m, tbl) is Ok,
    ensures
        ({
            let b = enc_entries(entries, kt, vt, i, m, tbl)->Ok_0;
            dec_entries(t, (entries.len() - i) as nat, b + rest, m, tbl)
                == Ok::<_, Error>((reset_skip_entries(entries.skip(i), kt, vt), b.len()))
        }),
    decreases entries, 0int, entries.len() - i,
{
    let b = enc_entries(entries, kt, vt, i, m, tbl)->Ok_0;
    if i == entries.len() {
        assert(b + rest =~= rest);
        assert(entries.skip(i) =~= Seq::<ValueV>::empty());
    } else {
        let kv = entries[i]->Group_0;
        let kb = enc_val(kv[0], kt, m, tbl)->Ok_0;
        let vb = enc_val(kv[1], vt, m, tbl)->Ok_0;
        let tb = enc_entries(entries, kt, vt, i + 1, m, tbl)->Ok_0;
        lemma_enc_dec_val(kv[0], kt, m, tbl, vb + (tb + rest));
        lemma_enc_dec_val(kv[1], vt, m, tbl, tb + rest);
        assert(b + rest =~= kb + (vb + (tb + rest)));
        assert((b + rest).skip(kb.len() as int) =~= vb + (tb + rest));
        assert((b + rest).skip(kb.len() as int + vb.len() as int) =~= tb + rest);
        lemma_enc_dec_entries(entries, t, kt, vt, i + 1, m, tbl, rest);
        assert(entries.skip(i)[0] == entries[i]);
        assert(entries.skip(i).skip(1) =~= entries.skip(i + 1));
    }
}

/// Tuple fields encoded from position `i` on decode back in order.
proof fn lemma_enc_dec_tuple(items: Seq<ValueV>, ts: Seq<TyV>, i: int, m: Mode, tbl: Seq<Seq<char>>, rest: Seq<u8>)
    requires
        0 <= i <= items.len(),
        ts.len() == items.len(),
        forall|j: int| 0 <= j < items.len() ==> conforms(#[trigger] items[j], ts[j]),
        forall|j: int| 0 <= j < items.len() ==> bounded_val(#[trigger] items[j]),
        wf_tys(ts.skip(i)),
        tbl.len() <= usize::MAX,
        enc_tuple(items, ts, i, m, tbl) is Ok,
    ensures
        ({
            let b = enc_tuple(items, ts, i, m, tbl)->Ok_0;
            dec_tuple(ts, i, b + rest, m, tbl)
                == Ok::<_, Error>((reset_skip_tuple(items.skip(i), ts.skip(i)), b.len()))
        }),
    decreases items, 0int, items.len() - i,
{
    let b = enc_tuple(items, ts, i, m, tbl)->Ok_0;
    if i == items.len() {
        assert(b + rest =~= rest);
        assert(items.skip(i) =~= Seq::<ValueV>::empty());
    } else {
        let hb = enc_val(items[i], ts[i], m, tbl)->Ok_0;
        let tb = enc_tuple(items, ts, i + 1, m, tbl)->Ok_0;
        assert(wf_ty(ts.skip(i)[0]) && wf_tys(ts.skip(i).skip(1)));
        assert(ts.skip(i)[0] == ts[i]);
        assert(ts.skip(i).skip(1) =~= ts.skip(i + 1));
        lemma_enc_dec_val(items[i], ts[i], m, tbl, tb + rest);
        assert(b + rest =~= hb + (tb + rest));
        assert((b + rest).skip(hb.len() as int) =~= tb + rest);
        lemma_enc_dec_tuple(items, ts, i + 1, m, tbl, rest);
        assert(items.skip(i)[0] == items[i]);
        assert(items.skip(i).skip(1) =~= items.skip(i + 1));
    }
}

/// Annotated fields encoded from position `i` on decode back: a skipped
/// field returns as its default, the others as themselves.
proof fn lemma_enc_dec_fields(items: Seq<ValueV>, fs: Seq<FieldTyV>, i: int, m: Mode, tbl: Seq<Seq<char>>, rest: Seq<u8>)
    requires
        0 <= i <= items.len(),
        fs.len() == items.len(),
        forall|j: int| 0 <= j < items.len() ==> conforms(#[trigger] items[j], fs[j].ty),
        forall|j: int| 0 <= j < items.len() ==> bounded_val(#[trigger] items[j]),
        wf_fields(fs.skip(i)),
        tbl.len() <= usize::MAX,
        enc_fields(items, fs, i, m, tbl) is Ok,
    ensures
        ({
            let b = enc_fields(items, fs, i, m, tbl)->Ok_0;
            dec_fields(fs, i, b + rest, m, tbl)
                == Ok::<_, Error>((reset_skip_fields(items.skip(i), fs.skip(i)), b.len()))
        }),
    decreases items, 0int, items.len() - i,
{
    let b = enc_fields(items, fs, i, m, tbl)->Ok_0;
    if i == items.len() {
        assert(b + rest =~= rest);
        assert(items.skip(i) =~= Seq::<ValueV>::empty());
    } else {
        assert(wf_ty(fs.skip(i)[0].ty) && (fs.skip(i)[0].skip ==> defaultable(fs.skip(i)[0].ty))
            && wf_fields(fs.skip(i).skip(1)));
        assert(fs.skip(i)[0] == fs[i]);
        assert(fs.skip(i).skip(1) =~= fs.skip(i + 1));
        let tb = enc_fields(items, fs, i + 1, m, tbl)->Ok_0;
        if fs[i].skip {
            assert(b + rest =~= Seq::<u8>::empty() + (tb + rest));
            assert(b + rest =~= tb + rest);
            lemma_enc_dec_fields(items, fs, i + 1, m, tbl, rest);
        } else {
            let fm = if fs[i].no_dedup { m.with_dedup_disabled() } else { m };
            let hb = enc_val(items[i], fs[i].ty, fm, tbl)->Ok_0;
            lemma_enc_dec_val(items[i], fs[i].ty, fm, tbl, tb + rest);
            assert(b + rest =~= hb + (tb + rest));
            assert((b + rest).skip(hb.len() as int) =~= tb + rest);
            lemma_enc_dec_fields(items, fs, i + 1, m, tbl, rest);
        }
        assert(items.skip(i)[0] == items[i]);
        assert(items.skip(i).skip(1) =~= items.skip(i + 1));
    }
}


/// The dedup table that one top-level encoding call builds: the distinct
/// in-scope strings of the value, identifiers in first-occurrence order.
pub open spec fn blob_table(v: ValueV, t: TyV) -> Seq<Seq<char>> {
    crate::dedup::tbl_intern_all(Seq::empty(), strs_of(v, t, true))
}

/// The whole serialized blob: with dedup on, the table block followed by
/// the payload encoded against that table; with dedup off, the payload
/// alone, strings written inline.
pub open spec fn spec_serialize(v: ValueV, t: TyV, m: Mode) -> Result<Seq<u8>, Error> {
    if m.use_dedup {
        let tbl = blob_table(v, t);
        match crate::dedup::spec_table_bytes(tbl) {
            Ok(tb) => match enc_val(v, t, m, tbl) {
                Ok(pb) => Ok(tb + pb),
                Err(e) => Err(e),
            },
            Err(e) => Err(e),
        }
    } else {
        enc_val(v, t, m, Seq::empty())
    }
}

/// What a whole blob decodes to: with dedup on, the table block is read
/// first and every payload string reference resolves against it; with
/// dedup off, the payload is decoded directly. Trailing bytes after the
/// value are not an error.
pub open spec fn spec_deserialize(bytes: Seq<u8>, t: TyV, m: Mode) -> Result<ValueV, Error> {
    if m.use_dedup {
        match crate::dedup::spec_read_table(bytes) {
            Ok((tbl, k)) => match dec_val(t, bytes.skip(k as int), m, tbl) {
                Ok((v, _)) => Ok(v),
                Err(e) => Err(e),
            },
            Err(e) => Err(e),
        }
    } else {
        match dec_val(t, bytes, m, Seq::empty()) {
            Ok((v, _)) => Ok(v),
            Err(e) => Err(e),
        }
    }
}

} // verus!

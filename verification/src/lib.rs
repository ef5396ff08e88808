//! A compact, schema-driven binary serialization engine, with the domain
//! models that use it.
//!
//! Values are encoded into a dense byte stream using variable-length
//! integers, zig-zag encoding for signed values, and an optional
//! string-deduplication table written as a preamble block. Because the
//! encoder only discovers the full string set by traversing the whole
//! value, the write path runs twice when deduplication is on: a prescan
//! pass populates the table against a discarded sink, the table block is
//! written, and the real pass emits every string as a table identifier.
//! The wire format is stated as mathematics in [`wire`], and the laws it
//! obeys — round-tripping above all — are proved in [`laws`].

use vstd::prelude::*;

use crate::value::{Value, Ty, ValueV, conforms};
use crate::ser::prescan_value;

pub mod de;
pub mod datasource;
pub mod dedup;
pub mod gamedata;
pub mod ident;
pub mod langtable;
pub mod laws;
pub mod restree;
pub mod ser;
pub mod serde;
pub mod serdeobj;
pub mod workspace;
pub mod util;
pub mod value;
pub mod wire;
pub mod varint;

verus! {

/// What can go wrong while encoding or decoding.
///
/// `Io` stands for a truncated or otherwise unreadable stream,
/// `TryFromInt` for a numeric value that does not fit the width it is
/// written or read with, `InvalidUtf8` for string bytes that are not
/// valid UTF-8, `StrOutOfRange` for a dedup-table index with no entry,
/// `InvalidVariant` for an enum discriminant beyond the known variants,
/// `EmptySumType` for an attempt to decode an enum with no variants,
/// and `Custom` carries a hand-written codec's own failure.
#[derive(Debug, Clone, PartialEq, Eq)]
pub enum Error {
    Io,
    TryFromInt,
    InvalidUtf8,
    StrOutOfRange(usize),
    InvalidVariant(usize),
    EmptySumType,
    Custom(String),
}

impl Error {
    /// A domain-specific failure raised by a hand-written codec.
    pub fn custom(s: &str) -> (r: Error)
        ensures
            r matches Error::Custom(m) && m@ == s@,
    {
        Error::Custom(s.to_owned())
    }
}

/// Serializes `value` under the default mode.
pub fn serialize(value: &Value, ty: &Ty) -> (r: Result<Vec<u8>, Error>)
    requires
        conforms(value@, ty@),
    ensures
        match r {
            Ok(bytes) => wire::spec_serialize(value@, ty@, serde::Mode::spec_default())
                matches Ok(b) && bytes@ == b,
            Err(e) => wire::spec_serialize(value@, ty@, serde::Mode::spec_default())
                == Err::<Seq<u8>, _>(e),
        },
{
    serialize_with(value, ty, serde::Mode::default())
}

/// Serializes `value` under the default mode, appending to `pipe`.
pub fn serialize_into(pipe: &mut Vec<u8>, value: &Value, ty: &Ty) -> (r: Result<(), Error>)
    requires
        conforms(value@, ty@),
    ensures
        match r {
            Ok(()) => wire::spec_serialize(value@, ty@, serde::Mode::spec_default())
                matches Ok(b) && final(pipe)@ == old(pipe)@ + b,
            Err(e) => wire::spec_serialize(value@, ty@, serde::Mode::spec_default())
                == Err::<Seq<u8>, _>(e),
        },
{
    serialize_with_into(pipe, value, ty, serde::Mode::default())
}

/// Serializes `value` of schema type `ty` under `mode` into a fresh
/// buffer. The result is a function of the value, type and mode alone,
/// so encoding the same value twice gives identical bytes, identical
/// table contents and identical identifier assignments.
pub fn serialize_with(value: &Value, ty: &Ty, mode: serde::Mode) -> (r: Result<Vec<u8>, Error>)
    requires
        conforms(value@, ty@),
    ensures
        match r {
            Ok(bytes) => wire::spec_serialize(value@, ty@, mode) matches Ok(b) && bytes@ == b,
            Err(e) => wire::spec_serialize(value@, ty@, mode) == Err::<Seq<u8>, _>(e),
        },
{
    let mut buf: Vec<u8> = Vec::new();
    match serialize_with_into(&mut buf, value, ty, mode) {
        Ok(()) => {
            proof {
                assert(buf@ =~= wire::spec_serialize(value@, ty@, mode)->Ok_0);
            }
            Ok(buf)
        },
        Err(e) => Err(e),
    }
}

/// The top-level write protocol, appending to `pipe`: with dedup on, a
/// prescan pass populates a fresh table against a discarded sink, the
/// table block is written, then the real pass writes the payload with
/// the table frozen; with dedup off, the real pass runs directly.
/// On failure the sink may hold a partial prefix, which the caller
/// discards.
pub fn serialize_with_into(pipe: &mut Vec<u8>, value: &Value, ty: &Ty, mode: serde::Mode) -> (r: Result<(), Error>)
    requires
        conforms(value@, ty@),
    ensures
        match r {
            Ok(()) => wire::spec_serialize(value@, ty@, mode) matches Ok(b)
                && final(pipe)@ == old(pipe)@ + b,
            Err(e) => wire::spec_serialize(value@, ty@, mode) == Err::<Seq<u8>, _>(e),
        },
{
    if mode.use_dedup {
        let mut ctx = dedup::DedupContext::new();
        prescan_value(value, ty, mode, &mut ctx);
        proof {
            dedup::lemma_intern_all_distinct(
                Seq::empty(),
                wire::strs_of(value@, ty@, true),
            );
            assert forall|s: Seq<char>| wire::strs_of(value@, ty@, mode.use_dedup).contains(s)
                implies ctx@.contains(s) by {
                let strs = wire::strs_of(value@, ty@, true);
                let k = choose|k: int| 0 <= k < strs.len() && strs[k] == s;
                assert(ctx@.contains(strs[k]));
            }
        }
        ctx.write_to(pipe);
        let ghost mid = pipe@;
        match ser::encode_value(value, ty, mode, &ctx, pipe) {
            Ok(()) => {
                proof {
                    let tb = dedup::spec_table_bytes(ctx@)->Ok_0;
                    let pb = wire::enc_val(value@, ty@, mode, ctx@)->Ok_0;
                    assert(pipe@ =~= old(pipe)@ + (tb + pb));
                }
                Ok(())
            },
            Err(e) => Err(e),
        }
    } else {
        let ctx = dedup::DedupContext::new();
        ser::encode_value(value, ty, mode, &ctx, pipe)
    }
}

/// Deserializes a value of schema type `ty` from `buf` under the
/// default mode.
pub fn deserialize(buf: &Vec<u8>, ty: &Ty) -> (r: Result<Value, Error>)
    ensures
        match r {
            Ok(val) => wire::spec_deserialize(buf@, ty@, serde::Mode::spec_default())
                == Ok::<ValueV, Error>(val@),
            Err(e) => wire::spec_deserialize(buf@, ty@, serde::Mode::spec_default())
                == Err::<ValueV, Error>(e),
        },
{
    deserialize_with(buf, ty, serde::Mode::default())
}

/// Deserializes a value of schema type `ty` from the whole of `buf`:
/// the mode must be the one the blob was encoded with — it is not
/// negotiated on the wire. Trailing bytes after the value are ignored,
/// as the stream may carry more data.
pub fn deserialize_with(buf: &Vec<u8>, ty: &Ty, mode: serde::Mode) -> (r: Result<Value, Error>)
    ensures
        match r {
            Ok(val) => wire::spec_deserialize(buf@, ty@, mode) == Ok::<ValueV, Error>(val@),
            Err(e) => wire::spec_deserialize(buf@, ty@, mode) == Err::<ValueV, Error>(e),
        },
{
    match deserialize_with_from(buf, 0, ty, mode) {
        Ok((val, _)) => {
            proof {
                assert(buf@.skip(0) =~= buf@);
            }
            Ok(val)
        },
        Err(e) => {
            proof {
                assert(buf@.skip(0) =~= buf@);
            }
            Err(e)
        },
    }
}

/// Deserializes from `pipe` at the stream's start under the default mode;
/// returns the value with the position after it.
pub fn deserialize_from(pipe: &Vec<u8>, ty: &Ty) -> (r: Result<(Value, usize), Error>)
    ensures
        match r {
            Ok((val, end)) => wire::spec_deserialize(pipe@, ty@, serde::Mode::spec_default())
                == Ok::<ValueV, Error>(val@) && end <= pipe@.len(),
            Err(e) => wire::spec_deserialize(pipe@, ty@, serde::Mode::spec_default())
                == Err::<ValueV, Error>(e),
        },
{
    let r = deserialize_with_from(pipe, 0, ty, serde::Mode::default());
    proof {
        assert(pipe@.skip(0) =~= pipe@);
    }
    r
}

/// The top-level read protocol, from `pipe` at `pos`: with dedup on, the
/// whole table block is read before any payload byte, then the payload
/// is decoded against it; with dedup off, the payload is decoded
/// directly. Returns the value with the position after it.
pub fn deserialize_with_from(pipe: &Vec<u8>, pos: usize, ty: &Ty, mode: serde::Mode) -> (r: Result<(Value, usize), Error>)
    requires
        pos <= pipe@.len(),
    ensures
        match r {
            Ok((val, end)) => wire::spec_deserialize(pipe@.skip(pos as int), ty@, mode)
                == Ok::<ValueV, Error>(val@) && pos <= end <= pipe@.len(),
            Err(e) => wire::spec_deserialize(pipe@.skip(pos as int), ty@, mode)
                == Err::<ValueV, Error>(e),
        },
{
    if mode.use_dedup {
        match dedup::DedupContext::read_from(pipe, pos) {
            Ok((ctx, mid)) => {
                proof {
                    assert(pipe@.skip(pos as int).skip((mid - pos) as int)
                        =~= pipe@.skip(mid as int));
                }
                de::decode_value(ty, pipe, mid, mode, &ctx)
            },
            Err(e) => Err(e),
        }
    } else {
        let ctx = dedup::DedupContext::new();
        de::decode_value(ty, pipe, pos, mode, &ctx)
    }
}

/// Decodes into an existing value, replacing it whole; on failure the
/// target is left as it was.
pub fn deserialize_in_place(target: &mut Value, pipe: &Vec<u8>, ty: &Ty, mode: serde::Mode) -> (r: Result<(), Error>)
    ensures
        match r {
            Ok(()) => wire::spec_deserialize(pipe@, ty@, mode) == Ok::<ValueV, Error>(final(target)@),
            Err(e) => wire::spec_deserialize(pipe@, ty@, mode) == Err::<ValueV, Error>(e)
                && *final(target) == *old(target),
        },
{
    match deserialize_with_from(pipe, 0, ty, mode) {
        Ok((val, _)) => {
            proof {
                assert(pipe@.skip(0) =~= pipe@);
            }
            *target = val;
            Ok(())
        },
        Err(e) => {
            proof {
                assert(pipe@.skip(0) =~= pipe@);
            }
            Err(e)
        },
    }
}

} // verus!

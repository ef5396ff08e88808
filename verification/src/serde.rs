//! The wire mode: an immutable configuration value that controls the
//! width policy for size values and dedup indices, whether fixed-width
//! integers are packed as varints, and whether string deduplication is
//! active for the current subtree.

use vstd::prelude::*;
use vstd::bytes::*;
use vstd::slice::{slice_subrange, slice_to_vec};
use vstd::utf8::{encode_utf8, decode_utf8, valid_utf8, encode_utf8_valid_utf8, encode_utf8_decode_utf8};
use crate::varint::{spec_varint, spec_varint_read, varint_write, varint_read};
use crate::Error;

verus! {

/// How a size value (or a dedup index) is written: a fixed width of
/// one, two, four or eight little-endian bytes, or as a varint.
#[derive(Debug, Eq, PartialEq, Clone, Copy, Structural)]
pub enum UsizeLen {
    U8,
    U16,
    U32,
    U64,
    Variable,
}

/// The configuration of one serialization call. It is threaded by value
/// through the whole traversal; a field can override it for its own
/// subtree without the ambient mode seen by sibling fields changing.
#[derive(Debug, Eq, PartialEq, Clone, Copy, Structural)]
pub struct Mode {
    /// Width of size values: lengths and enum discriminants.
    pub usize_len: UsizeLen,
    /// Width of the indices that replace deduplicated strings.
    pub dedup_idx: UsizeLen,
    /// Whether fixed-width integers are written zig-zag + varint instead.
    pub fixed_size_use_varint: bool,
    /// Whether strings go through the shared dedup table. Once a subtree
    /// has disabled this, nothing nested inside may turn it back on.
    pub use_dedup: bool,
}

impl Mode {
    /// The mode that [`Mode::default`] returns: variable-width sizes and
    /// dedup indices, plain fixed-width integers, dedup off.
    pub open spec fn spec_default() -> Mode {
        Mode {
            usize_len: UsizeLen::Variable,
            dedup_idx: UsizeLen::Variable,
            fixed_size_use_varint: false,
            use_dedup: false,
        }
    }

    /// The default mode with string deduplication switched on.
    pub fn dedup() -> (r: Mode)
        ensures
            r == (Mode { use_dedup: true, ..Mode::spec_default() }),
    {
        Mode {
            usize_len: UsizeLen::Variable,
            dedup_idx: UsizeLen::Variable,
            fixed_size_use_varint: false,
            use_dedup: true,
        }
    }

    /// The same mode with another width for size values.
    pub fn with_usize_len(self, usize_len: UsizeLen) -> (r: Mode)
        ensures
            r == (Mode { usize_len, ..self }),
    {
        Mode { usize_len, ..self }
    }

    /// The same mode with varint packing of fixed-width integers
    /// switched on or off.
    pub fn with_fixed_size_use_varint(self, enabled: bool) -> (r: Mode)
        ensures
            r == (Mode { fixed_size_use_varint: enabled, ..self }),
    {
        Mode { fixed_size_use_varint: enabled, ..self }
    }

    /// The mode for a subtree that opts out of string deduplication,
    /// as mathematics.
    pub open spec fn spec_with_dedup_disabled(self) -> Mode {
        Mode { use_dedup: false, ..self }
    }

    /// The mode for a subtree that opts out of string deduplication.
    /// A pure, localized override: the caller's own mode is unchanged.
    #[verifier::when_used_as_spec(spec_with_dedup_disabled)]
    pub fn with_dedup_disabled(self) -> (r: Mode)
        ensures
            r == (Mode { use_dedup: false, ..self }),
    {
        Mode { use_dedup: false, ..self }
    }
}

impl Default for Mode {
    /// Variable-width sizes and dedup indices, fixed-width integers not
    /// varint-packed, dedup off unless explicitly requested.
    fn default() -> (r: Mode)
        ensures
            r == Mode::spec_default(),
    {
        Mode {
            usize_len: UsizeLen::Variable,
            dedup_idx: UsizeLen::Variable,
            fixed_size_use_varint: false,
            use_dedup: false,
        }
    }
}

/// The bytes that a size value `v` produces under width policy `len`:
/// `v` little-endian in exactly the fixed width, or its varint encoding.
/// A value too large for the width is a numeric-range failure.
pub open spec fn spec_write_size(v: nat, len: UsizeLen) -> Result<Seq<u8>, Error> {
    match len {
        UsizeLen::U8 => if v <= u8::MAX {
            Ok(seq![v as u8])
        } else {
            Err(Error::TryFromInt)
        },
        UsizeLen::U16 => if v <= u16::MAX {
            Ok(spec_u16_to_le_bytes(v as u16))
        } else {
            Err(Error::TryFromInt)
        },
        UsizeLen::U32 => if v <= u32::MAX {
            Ok(spec_u32_to_le_bytes(v as u32))
        } else {
            Err(Error::TryFromInt)
        },
        UsizeLen::U64 => if v <= u64::MAX {
            Ok(spec_u64_to_le_bytes(v as u64))
        } else {
            Err(Error::TryFromInt)
        },
        UsizeLen::Variable => if v <= u64::MAX {
            Ok(spec_varint(v as u64))
        } else {
            Err(Error::TryFromInt)
        },
    }
}

/// What reading a size value under width policy `len` from the front of
/// `bytes` yields: the value and the bytes consumed, or the exact error.
pub open spec fn spec_read_size(bytes: Seq<u8>, len: UsizeLen) -> Result<(u64, nat), Error> {
    match len {
        UsizeLen::U8 => if bytes.len() >= 1 {
            Ok((bytes[0] as u64, 1))
        } else {
            Err(Error::Io)
        },
        UsizeLen::U16 => if bytes.len() >= 2 {
            Ok((spec_u16_from_le_bytes(bytes.take(2)) as u64, 2))
        } else {
            Err(Error::Io)
        },
        UsizeLen::U32 => if bytes.len() >= 4 {
            Ok((spec_u32_from_le_bytes(bytes.take(4)) as u64, 4))
        } else {
            Err(Error::Io)
        },
        UsizeLen::U64 => if bytes.len() >= 8 {
            Ok((spec_u64_from_le_bytes(bytes.take(8)), 8))
        } else {
            Err(Error::Io)
        },
        UsizeLen::Variable => spec_varint_read(bytes),
    }
}

/// A size value read back is the size value written, whatever follows it.
pub proof fn lemma_size_roundtrip(v: nat, len: UsizeLen, rest: Seq<u8>)
    requires
        spec_write_size(v, len) is Ok,
    ensures
        ({
            let enc = spec_write_size(v, len)->Ok_0;
            spec_read_size(enc + rest, len) == Ok::<_, Error>((v as u64, enc.len()))
        }),
{
    let enc = spec_write_size(v, len)->Ok_0;
    match len {
        UsizeLen::U8 => {
            assert((enc + rest)[0] == v as u8);
        },
        UsizeLen::U16 => {
            lemma_auto_spec_u16_to_from_le_bytes();
            assert((enc + rest).take(2) =~= enc);
        },
        UsizeLen::U32 => {
            lemma_auto_spec_u32_to_from_le_bytes();
            assert((enc + rest).take(4) =~= enc);
        },
        UsizeLen::U64 => {
            lemma_auto_spec_u64_to_from_le_bytes();
            assert((enc + rest).take(8) =~= enc);
        },
        UsizeLen::Variable => {
            crate::varint::lemma_varint_roundtrip(v as u64, rest);
        },
    }
}

/// Appends the size value `v` to `pipe` under width policy `len`.
/// Fails, leaving `pipe` unchanged, exactly when `v` does not fit.
pub fn write_size(v: usize, len: UsizeLen, pipe: &mut Vec<u8>) -> (r: Result<(), Error>)
    ensures
        match r {
            Ok(()) => spec_write_size(v as nat, len) matches Ok(enc)
                && final(pipe)@ == old(pipe)@ + enc,
            Err(e) => spec_write_size(v as nat, len) == Err::<Seq<u8>, _>(e)
                && final(pipe)@ == old(pipe)@,
        },
{
    match len {
        UsizeLen::U8 => {
            if v > u8::MAX as usize {
                return Err(Error::TryFromInt);
            }
            pipe.push(v as u8);
            Ok(())
        },
        UsizeLen::U16 => {
            if v > u16::MAX as usize {
                return Err(Error::TryFromInt);
            }
            let bytes = u16_to_le_bytes(v as u16);
            pipe.extend_from_slice(bytes.as_slice());
            Ok(())
        },
        UsizeLen::U32 => {
            if v > u32::MAX as usize {
                return Err(Error::TryFromInt);
            }
            let bytes = u32_to_le_bytes(v as u32);
            pipe.extend_from_slice(bytes.as_slice());
            Ok(())
        },
        UsizeLen::U64 => {
            let bytes = u64_to_le_bytes(v as u64);
            pipe.extend_from_slice(bytes.as_slice());
            Ok(())
        },
        UsizeLen::Variable => {
            varint_write(v as u64, pipe);
            Ok(())
        },
    }
}

/// What reading a size value yields once it is narrowed to `usize`:
/// as [`spec_read_size`], and a value beyond `usize::MAX` is a
/// numeric-range failure.
pub open spec fn spec_read_usize(bytes: Seq<u8>, len: UsizeLen) -> Result<(usize, nat), Error> {
    match spec_read_size(bytes, len) {
        Ok((v, n)) => if v <= usize::MAX {
            Ok((v as usize, n))
        } else {
            Err(Error::TryFromInt)
        },
        Err(e) => Err(e),
    }
}

/// Reads a size value under width policy `len` from `pipe` at `pos`;
/// returns the value with the position after it.
pub fn read_size(pipe: &Vec<u8>, pos: usize, len: UsizeLen) -> (r: Result<(usize, usize), Error>)
    requires
        pos <= pipe@.len(),
    ensures
        match r {
            Ok((v, end)) => {
                &&& spec_read_usize(pipe@.skip(pos as int), len)
                    == Ok::<_, Error>((v, (end - pos) as nat))
                &&& pos < end <= pipe@.len()
            },
            Err(e) => spec_read_usize(pipe@.skip(pos as int), len) == Err::<(usize, nat), _>(e),
        },
{
    let n = pipe.len();
    match len {
        UsizeLen::U8 => {
            if pos >= n {
                return Err(Error::Io);
            }
            Ok((pipe[pos] as usize, pos + 1))
        },
        UsizeLen::U16 => {
            if n - pos < 2 {
                return Err(Error::Io);
            }
            let x = u16_from_le_bytes(slice_subrange(pipe.as_slice(), pos, pos + 2));
            proof {
                assert(pipe@.subrange(pos as int, pos + 2) =~= pipe@.skip(pos as int).take(2));
            }
            Ok((x as usize, pos + 2))
        },
        UsizeLen::U32 => {
            if n - pos < 4 {
                return Err(Error::Io);
            }
            let x = u32_from_le_bytes(slice_subrange(pipe.as_slice(), pos, pos + 4));
            proof {
                assert(pipe@.subrange(pos as int, pos + 4) =~= pipe@.skip(pos as int).take(4));
            }
            if x as u64 > usize::MAX as u64 {
                return Err(Error::TryFromInt);
            }
            Ok((x as usize, pos + 4))
        },
        UsizeLen::U64 => {
            if n - pos < 8 {
                return Err(Error::Io);
            }
            let x = u64_from_le_bytes(slice_subrange(pipe.as_slice(), pos, pos + 8));
            proof {
                assert(pipe@.subrange(pos as int, pos + 8) =~= pipe@.skip(pos as int).take(8));
            }
            if x > usize::MAX as u64 {
                return Err(Error::TryFromInt);
            }
            Ok((x as usize, pos + 8))
        },
        UsizeLen::Variable => {
            match varint_read(pipe, pos) {
                Ok((v, end)) => {
                    if v > usize::MAX as u64 {
                        return Err(Error::TryFromInt);
                    }
                    Ok((v as usize, end))
                },
                Err(e) => Err(e),
            }
        },
    }
}

/// The bytes of a string written inline: its UTF-8 length as a size
/// value under width policy `ul`, then the raw UTF-8 bytes.
pub open spec fn spec_write_str_inline(s: Seq<char>, ul: UsizeLen) -> Result<Seq<u8>, Error> {
    let b = encode_utf8(s);
    match spec_write_size(b.len(), ul) {
        Ok(pre) => Ok(pre + b),
        Err(e) => Err(e),
    }
}

/// What reading an inline string from the front of `bytes` yields: the
/// character sequence and the bytes consumed, or the exact error:
/// `Io` when truncated, `InvalidUtf8` when the bytes are not UTF-8.
pub open spec fn spec_read_str_inline(bytes: Seq<u8>, ul: UsizeLen) -> Result<(Seq<char>, nat), Error> {
    match spec_read_usize(bytes, ul) {
        Ok((len, n)) => if n + len <= bytes.len() {
            let b = bytes.subrange(n as int, n + len);
            if valid_utf8(b) {
                Ok((decode_utf8(b), (n + len) as nat))
            } else {
                Err(Error::InvalidUtf8)
            }
        } else {
            Err(Error::Io)
        },
        Err(e) => Err(e),
    }
}

/// An inline string read back is the string written, whatever follows it.
pub proof fn lemma_str_inline_roundtrip(s: Seq<char>, ul: UsizeLen, rest: Seq<u8>)
    requires
        spec_write_str_inline(s, ul) is Ok,
        encode_utf8(s).len() <= usize::MAX,
    ensures
        ({
            let enc = spec_write_str_inline(s, ul)->Ok_0;
            spec_read_str_inline(enc + rest, ul) == Ok::<_, Error>((s, enc.len()))
        }),
{
    let b = encode_utf8(s);
    let enc = spec_write_str_inline(s, ul)->Ok_0;
    let pre = spec_write_size(b.len(), ul)->Ok_0;
    lemma_size_roundtrip(b.len(), ul, b + rest);
    assert(enc + rest =~= pre + (b + rest));
    assert((enc + rest).subrange(pre.len() as int, pre.len() as int + b.len() as int) =~= b);
    encode_utf8_valid_utf8(s);
    encode_utf8_decode_utf8(s);
}

/// Relies on `String::from_utf8`: returns the string whose UTF-8
/// encoding is the given bytes, and fails exactly on invalid UTF-8.
#[verifier::external_body]
fn string_from_utf8(bytes: Vec<u8>) -> (r: Option<String>)
    ensures
        r is Some <==> valid_utf8(bytes@),
        r matches Some(s) ==> s@ == decode_utf8(bytes@),
{
    String::from_utf8(bytes).ok()
}

/// Appends `s` to `pipe` as an inline string: UTF-8 length under width
/// policy `ul`, then the raw UTF-8 bytes. Fails, leaving `pipe`
/// unchanged, exactly when the length does not fit the width.
pub fn write_str_inline(s: &str, ul: UsizeLen, pipe: &mut Vec<u8>) -> (r: Result<(), Error>)
    ensures
        encode_utf8(s@).len() <= usize::MAX,
        match r {
            Ok(()) => spec_write_str_inline(s@, ul) matches Ok(enc)
                && final(pipe)@ == old(pipe)@ + enc,
            Err(e) => spec_write_str_inline(s@, ul) == Err::<Seq<u8>, _>(e)
                && final(pipe)@ == old(pipe)@,
        },
{
    let bytes = s.as_bytes();
    match write_size(bytes.len(), ul, pipe) {
        Ok(()) => {
            pipe.extend_from_slice(bytes);
            Ok(())
        },
        Err(e) => Err(e),
    }
}

/// Reads an inline string from `pipe` at `pos`; returns it with the
/// position after it. Fails exactly on a length that does not fit, a
/// truncated stream, or bytes that are not valid UTF-8.
pub fn read_str_inline(pipe: &Vec<u8>, pos: usize, ul: UsizeLen) -> (r: Result<(String, usize), Error>)
    requires
        pos <= pipe@.len(),
    ensures
        match r {
            Ok((s, end)) => {
                &&& spec_read_str_inline(pipe@.skip(pos as int), ul)
                    == Ok::<_, Error>((s@, (end - pos) as nat))
                &&& pos <= end <= pipe@.len()
            },
            Err(e) => spec_read_str_inline(pipe@.skip(pos as int), ul)
                == Err::<(Seq<char>, nat), _>(e),
        },
{
    match read_size(pipe, pos, ul) {
        Ok((len, mid)) => {
            if len > pipe.len() - mid {
                return Err(Error::Io);
            }
            let raw = slice_to_vec(slice_subrange(pipe.as_slice(), mid, mid + len));
            proof {
                assert(pipe@.subrange(mid as int, mid + len)
                    =~= pipe@.skip(pos as int).subrange((mid - pos) as int, mid - pos + len));
            }
            match string_from_utf8(raw) {
                Some(out) => Ok((out, mid + len)),
                None => Err(Error::InvalidUtf8),
            }
        },
        Err(e) => Err(e),
    }
}

} // verus!

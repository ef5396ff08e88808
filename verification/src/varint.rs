//! Zig-zag encoding for signed integers and the 7-bit variable-length
//! encoding for unsigned integers that the wire format uses for sizes,
//! dedup indices and varint-packed integers.

use vstd::prelude::*;
use crate::Error;

verus! {

/// Mathematical zig-zag map: non-negative `n` goes to `2 * n`,
/// negative `n` goes to `-2 * n - 1`, so small magnitudes stay small.
pub open spec fn spec_zigzag(n: i64) -> u64 {
    if n >= 0 {
        (2 * n) as u64
    } else {
        (-2 * n - 1) as u64
    }
}

/// Exact inverse of [`spec_zigzag`]: even values come from non-negative
/// integers, odd values from negative ones.
pub open spec fn spec_unzigzag(u: u64) -> i64 {
    if u % 2 == 0 {
        (u / 2) as i64
    } else {
        (-((u + 1) / 2)) as i64
    }
}

/// Zig-zag is undone exactly by its inverse, for every `i64` value.
pub proof fn lemma_zigzag_roundtrip(n: i64)
    ensures
        spec_unzigzag(spec_zigzag(n)) == n,
{
}

/// The inverse direction: every `u64` value is the zig-zag image of
/// exactly the value it decodes to.
pub proof fn lemma_unzigzag_roundtrip(u: u64)
    ensures
        spec_zigzag(spec_unzigzag(u)) == u,
{
}

/// Maps a signed integer to an unsigned one so that values of small
/// magnitude, positive or negative, become small unsigned values.
pub fn encode_min(num: i64) -> (r: u64)
    ensures
        r == spec_zigzag(num),
{
    let u_num = num as u64;
    let r = (u_num << 1u64) ^ ((num >> 63i64) as u64);
    proof {
        assert(num >= 0 ==> ((num as u64) << 1u64) ^ ((num >> 63i64) as u64) == 2 * num)
            by (bit_vector);
        assert(num < 0 ==> ((num as u64) << 1u64) ^ ((num >> 63i64) as u64) == -2 * num - 1)
            by (bit_vector);
    }
    r
}

/// Exact inverse of [`encode_min`].
pub fn decode_min(num: u64) -> (r: i64)
    ensures
        r == spec_unzigzag(num),
{
    let r = ((num >> 1u64) as i64) ^ (((num << 63u64) as i64) >> 63i64);
    proof {
        assert(num % 2 == 0 ==> ((num >> 1u64) as i64) ^ (((num << 63u64) as i64) >> 63i64)
            == num / 2) by (bit_vector);
        assert(num % 2 != 0 ==> ((num >> 1u64) as i64) ^ (((num << 63u64) as i64) >> 63i64)
            == -((num + 1) / 2)) by (bit_vector);
    }
    r
}

/// The byte sequence that the variable-length encoding produces for `n`:
/// seven bits per byte, least-significant group first, the high bit of
/// every byte but the last set as a continuation marker.
pub open spec fn spec_varint(n: u64) -> Seq<u8>
    decreases n,
{
    if n < 128 {
        seq![n as u8]
    } else {
        seq![(n % 128 + 128) as u8] + spec_varint(n / 128)
    }
}

/// A varint encoding never takes more than ten bytes, and zero takes one.
pub proof fn lemma_varint_len(n: u64)
    ensures
        1 <= spec_varint(n).len() <= 10,
{
    reveal_with_fuel(pow128, 11);
    lemma_varint_len_bound(n, 10);
}

/// A value below `128^k` encodes into at most `k` bytes.
proof fn lemma_varint_len_bound(n: u64, k: nat)
    requires
        1 <= k,
        n < pow128(k),
    ensures
        1 <= spec_varint(n).len() <= k,
    decreases k,
{
    if n >= 128 {
        assert(pow128(k) == 128 * pow128((k - 1) as nat));
        assert(n / 128 < pow128((k - 1) as nat)) by (nonlinear_arith)
            requires
                n < 128 * pow128((k - 1) as nat),
        ;
        lemma_varint_len_bound(n / 128, (k - 1) as nat);
    }
}

/// `128^k`, the weight of the `k`-th seven-bit group.
pub open spec fn pow128(k: nat) -> nat
    decreases k,
{
    if k == 0 {
        1
    } else {
        128 * pow128((k - 1) as nat)
    }
}


/// Zero encodes as exactly one zero byte.
pub proof fn lemma_varint_zero()
    ensures
        spec_varint(0) == seq![0u8],
        spec_varint(0).len() == 1,
{
    assert(spec_varint(0) =~= seq![0u8]);
}

/// Appends the variable-length encoding of `num` to `pipe` and returns
/// how many bytes were written.
pub fn varint_write(num: u64, pipe: &mut Vec<u8>) -> (n: usize)
    ensures
        final(pipe)@ == old(pipe)@ + spec_varint(num),
        n == spec_varint(num).len(),
{
    let ghost start = pipe@;
    let mut cur: u64 = num;
    let mut n: usize = 0;
    proof {
        lemma_varint_len(num);
    }
    loop
        invariant
            start == old(pipe)@,
            pipe@.len() == start.len() + n,
            start + spec_varint(num) == pipe@ + spec_varint(cur),
            spec_varint(num).len() <= 10,
            n <= 10,
            spec_varint(cur).len() + n == spec_varint(num).len(),
        decreases spec_varint(cur).len(),
    {
        proof {
            lemma_varint_len(cur);
        }
        if cur < 128 {
            pipe.push(cur as u8);
            n += 1;
            proof {
                assert(spec_varint(cur) == seq![cur as u8]);
                assert(pipe@ == start + spec_varint(num));
            }
            return n;
        } else {
            let piece = (#[verifier::truncate] (cur as u8) & 0x7f) | 0x80;
            proof {
                assert(cur >= 128 ==> ((cur as u8 & 0x7f) | 0x80) == cur % 128 + 128)
                    by (bit_vector);
                assert(cur >= 128 ==> (cur >> 7u64) == cur / 128) by (bit_vector);
            }
            pipe.push(piece);
            n += 1;
            cur = cur >> 7u64;
            proof {
                assert(start + spec_varint(num) == pipe@ + spec_varint(cur));
            }
        }
    }
}

/// What reading a varint from the front of `bytes` yields, as mathematics:
/// the decoded value (unbounded) and the count of bytes consumed. A
/// truncated input fails with `Io`; an encoding of more than ten groups
/// fails with `TryFromInt`. `idx` counts the groups already consumed.
pub open spec fn spec_varint_groups(bytes: Seq<u8>, idx: nat) -> Result<(nat, nat), Error>
    decreases 10 - idx,
{
    if idx >= 10 {
        Err(Error::TryFromInt)
    } else if bytes.len() == 0 {
        Err(Error::Io)
    } else if bytes[0] < 128 {
        Ok((bytes[0] as nat, 1))
    } else {
        match spec_varint_groups(bytes.skip(1), idx + 1) {
            Ok((v, n)) => Ok(((bytes[0] - 128) as nat + 128 * v, n + 1)),
            Err(e) => Err(e),
        }
    }
}

/// The result of reading a varint from the front of `bytes`: the value and
/// the bytes consumed, or the exact error: `Io` for a truncated input,
/// `TryFromInt` for an encoding of more than ten groups or a value beyond
/// `u64::MAX`.
pub open spec fn spec_varint_read(bytes: Seq<u8>) -> Result<(u64, nat), Error> {
    match spec_varint_groups(bytes, 0) {
        Ok((v, n)) => if v <= u64::MAX {
            Ok((v as u64, n))
        } else {
            Err(Error::TryFromInt)
        },
        Err(e) => Err(e),
    }
}

/// Reads a variable-length integer from `pipe` starting at `pos`;
/// returns the value with the position after it. Fails exactly on
/// malformed input: truncated, over ten groups, or beyond `u64::MAX`.
pub fn varint_read(pipe: &Vec<u8>, pos: usize) -> (r: Result<(u64, usize), Error>)
    requires
        pos <= pipe@.len(),
    ensures
        match r {
            Ok((v, end)) => {
                &&& spec_varint_read(pipe@.skip(pos as int)) == Ok::<_, Error>((v, (end - pos) as nat))
                &&& pos < end <= pipe@.len()
            },
            Err(e) => spec_varint_read(pipe@.skip(pos as int)) == Err::<(u64, nat), _>(e),
        },
{
    match read_groups(pipe, pos, 0) {
        Ok((v, end)) => Ok((v, end)),
        Err(e) => Err(e),
    }
}

/// One seven-bit group of [`varint_read`]'s loop, written as the same
/// recursion that [`spec_varint_groups`] uses.
fn read_groups(pipe: &Vec<u8>, pos: usize, idx: u8) -> (r: Result<(u64, usize), Error>)
    requires
        pos <= pipe@.len(),
        idx <= 10,
    ensures
        match r {
            Ok((v, end)) => {
                &&& spec_varint_groups(pipe@.skip(pos as int), idx as nat)
                    == Ok::<_, Error>((v as nat, (end - pos) as nat))
                &&& pos < end <= pipe@.len()
            },
            Err(e) => match spec_varint_groups(pipe@.skip(pos as int), idx as nat) {
                Ok((v, _)) => v > u64::MAX && e == Error::TryFromInt,
                Err(se) => e == se,
            },
        },
    decreases 10 - idx,
{
    if idx >= 10 {
        return Err(Error::TryFromInt);
    }
    if pos >= pipe.len() {
        return Err(Error::Io);
    }
    let b = pipe[pos];
    if b < 128 {
        Ok((b as u64, pos + 1))
    } else {
        proof {
            assert(pipe@.skip(pos as int).skip(1) == pipe@.skip(pos as int + 1));
        }
        match read_groups(pipe, pos + 1, idx + 1) {
            Ok((v, end)) => {
                let g = (b - 128) as u64;
                if v > (u64::MAX - g as u64) / 128 {
                    proof {
                        assert((b - 128) as nat + 128 * (v as nat) > u64::MAX) by (nonlinear_arith)
                            requires
                                v > (u64::MAX - (b - 128)) / 128,
                                b >= 128,
                        ;
                    }
                    Err(Error::TryFromInt)
                } else {
                    let out = g + 128 * v;
                    Ok((out, end))
                }
            },
            Err(e) => Err(e),
        }
    }
}

/// Reading back what [`spec_varint`] wrote, from any position, succeeds
/// and yields the value written, whatever follows it in the stream.
pub proof fn lemma_varint_roundtrip(n: u64, rest: Seq<u8>)
    ensures
        spec_varint_read(spec_varint(n) + rest) == Ok::<_, Error>((n, spec_varint(n).len())),
{
    lemma_varint_len(n);
    lemma_varint_groups_roundtrip(n, rest, 0);
}

proof fn lemma_varint_groups_roundtrip(n: u64, rest: Seq<u8>, idx: nat)
    requires
        idx + spec_varint(n).len() <= 10,
    ensures
        spec_varint_groups(spec_varint(n) + rest, idx) == Ok::<_, Error>((n as nat, spec_varint(n).len())),
    decreases n,
{
    let s = spec_varint(n) + rest;
    if n < 128 {
        assert(s[0] == n as u8);
    } else {
        assert(s[0] == (n % 128 + 128) as u8);
        assert(s.skip(1) == spec_varint(n / 128) + rest);
        lemma_varint_groups_roundtrip(n / 128, rest, idx + 1);
        assert(n % 128 + 128 * (n / 128) == n);
    }
}

} // verus!

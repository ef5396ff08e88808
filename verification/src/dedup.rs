//! The string-interning table. During encoding it is built incrementally
//! by a prescan traversal; before decoding it is read back whole from the
//! preamble block. Identifiers are dense integers assigned in order of
//! first occurrence, and the identifier of a string, once assigned, never
//! changes for the rest of the traversal.

use vstd::prelude::*;
use vstd::utf8::{encode_utf8, encode_utf8_decode_utf8};
use crate::serde::{UsizeLen, spec_write_size, spec_read_usize, spec_write_str_inline,
    spec_read_str_inline, write_size, read_size, write_str_inline, read_str_inline};
use crate::varint::lemma_varint_len;
use crate::Error;

verus! {

/// Interning one string: already present, the table is unchanged;
/// otherwise the string is appended, taking the next identifier.
pub open spec fn tbl_intern(tbl: Seq<Seq<char>>, s: Seq<char>) -> Seq<Seq<char>> {
    if tbl.contains(s) {
        tbl
    } else {
        tbl.push(s)
    }
}

/// Interning a whole traversal's strings, in traversal order.
pub open spec fn tbl_intern_all(tbl: Seq<Seq<char>>, strs: Seq<Seq<char>>) -> Seq<Seq<char>>
    decreases strs.len(),
{
    if strs.len() == 0 {
        tbl
    } else {
        tbl_intern_all(tbl_intern(tbl, strs[0]), strs.skip(1))
    }
}

/// No string occurs twice, so each has exactly one identifier.
pub open spec fn tbl_distinct(tbl: Seq<Seq<char>>) -> bool {
    forall|i: int, j: int| 0 <= i < j < tbl.len() ==> tbl[i] != tbl[j]
}

/// Interning keeps the table duplicate-free and only ever appends.
pub proof fn lemma_intern_distinct(tbl: Seq<Seq<char>>, s: Seq<char>)
    requires
        tbl_distinct(tbl),
    ensures
        tbl_distinct(tbl_intern(tbl, s)),
        tbl.is_prefix_of(tbl_intern(tbl, s)),
        tbl_intern(tbl, s).contains(s),
{
    if !tbl.contains(s) {
        let t2 = tbl.push(s);
        assert(t2[tbl.len() as int] == s);
        assert forall|i: int, j: int| 0 <= i < j < t2.len() implies t2[i] != t2[j] by {
            if j < tbl.len() {
            } else {
                assert(t2[j] == s);
                assert(tbl.contains(s) == false);
                assert(t2[i] == tbl[i]);
                if t2[i] == s {
                    assert(tbl.contains(s));
                }
            }
        }
        assert(tbl =~= t2.take(tbl.len() as int));
    } else {
        assert(tbl =~= tbl_intern(tbl, s).take(tbl.len() as int));
    }
}

/// Interning a sequence of strings keeps the table duplicate-free, only
/// ever appends, and leaves every interned string present.
pub proof fn lemma_intern_all_distinct(tbl: Seq<Seq<char>>, strs: Seq<Seq<char>>)
    requires
        tbl_distinct(tbl),
    ensures
        tbl_distinct(tbl_intern_all(tbl, strs)),
        tbl.is_prefix_of(tbl_intern_all(tbl, strs)),
        forall|k: int| 0 <= k < strs.len() ==> tbl_intern_all(tbl, strs).contains(#[trigger] strs[k]),
        forall|s: Seq<char>| tbl.contains(s) ==> tbl_intern_all(tbl, strs).contains(s),
        forall|s: Seq<char>| #[trigger] tbl_intern_all(tbl, strs).contains(s)
            ==> tbl.contains(s) || strs.contains(s),
    decreases strs.len(),
{
    if strs.len() > 0 {
        let t1 = tbl_intern(tbl, strs[0]);
        lemma_intern_distinct(tbl, strs[0]);
        lemma_intern_all_distinct(t1, strs.skip(1));
        let tf = tbl_intern_all(tbl, strs);
        assert(t1.is_prefix_of(tf));
        lemma_prefix_trans(tbl, t1, tf);
        assert forall|s: Seq<char>| t1.contains(s) implies tf.contains(s) by {
            let i = choose|i: int| 0 <= i < t1.len() && t1[i] == s;
            assert(tf[i] == s);
        }
        assert forall|k: int| 0 <= k < strs.len() implies tf.contains(#[trigger] strs[k]) by {
            if k == 0 {
                assert(t1.contains(strs[0]));
            } else {
                assert(strs.skip(1)[k - 1] == strs[k]);
            }
        }
        assert forall|s: Seq<char>| tbl.contains(s) implies tf.contains(s) by {
            let i = choose|i: int| 0 <= i < tbl.len() && tbl[i] == s;
            assert(t1[i] == s);
            assert(t1.contains(s));
        }
        assert forall|s: Seq<char>| #[trigger] tf.contains(s)
            implies tbl.contains(s) || strs.contains(s) by {
            assert(t1.contains(s) || strs.skip(1).contains(s));
            if t1.contains(s) {
                if !tbl.contains(s) {
                    let i = choose|i: int| 0 <= i < t1.len() && t1[i] == s;
                    assert(t1[t1.len() - 1] == strs[0]);
                    if i < tbl.len() {
                        assert(tbl[i] == s);
                    } else {
                        assert(s == strs[0]);
                    }
                }
            } else {
                let k = choose|k: int| 0 <= k < strs.skip(1).len() && strs.skip(1)[k] == s;
                assert(strs[k + 1] == s);
            }
        }
    }
}

/// Prefix order among tables is transitive.
pub proof fn lemma_prefix_trans(a: Seq<Seq<char>>, b: Seq<Seq<char>>, c: Seq<Seq<char>>)
    requires
        a.is_prefix_of(b),
        b.is_prefix_of(c),
    ensures
        a.is_prefix_of(c),
{
    assert(a =~= c.take(a.len() as int));
}

/// Interning the concatenation of two traversals is interning one after
/// the other: the law that composes sibling fields and passes.
pub proof fn lemma_intern_all_app(tbl: Seq<Seq<char>>, a: Seq<Seq<char>>, b: Seq<Seq<char>>)
    ensures
        tbl_intern_all(tbl, a + b) == tbl_intern_all(tbl_intern_all(tbl, a), b),
    decreases a.len(),
{
    if a.len() == 0 {
        assert(a + b =~= b);
    } else {
        assert((a + b)[0] == a[0]);
        assert((a + b).skip(1) =~= a.skip(1) + b);
        lemma_intern_all_app(tbl_intern(tbl, a[0]), a.skip(1), b);
    }
}

/// A duplicate-free table holds each string at exactly one identifier.
pub proof fn lemma_distinct_index_unique(tbl: Seq<Seq<char>>, s: Seq<char>, i: int)
    requires
        tbl_distinct(tbl),
        0 <= i < tbl.len(),
        tbl[i] == s,
    ensures
        tbl.index_of(s) == i,
        tbl.contains(s),
{
    assert(tbl.contains(s));
    let j = tbl.index_of(s);
    assert(0 <= j < tbl.len() && tbl[j] == s);
    if i < j {
        assert(tbl[i] != tbl[j]);
    } else if j < i {
        assert(tbl[j] != tbl[i]);
    }
}

/// A string already in a table keeps its identifier when the table grows.
pub proof fn lemma_prefix_index_of(t1: Seq<Seq<char>>, t2: Seq<Seq<char>>, s: Seq<char>)
    requires
        tbl_distinct(t2),
        t1.is_prefix_of(t2),
        t1.contains(s),
    ensures
        t2.contains(s),
        t2.index_of(s) == t1.index_of(s),
        0 <= t1.index_of(s) < t1.len(),
        t1[t1.index_of(s)] == s,
{
    let i = t1.index_of(s);
    assert(0 <= i < t1.len() && t1[i] == s);
    assert(t2[i] == s);
    lemma_distinct_index_unique(t2, s, i);
}


/// Membership in a concatenation of string sequences.
pub proof fn lemma_concat_contains(a: Seq<Seq<char>>, b: Seq<Seq<char>>)
    ensures
        forall|x: Seq<char>| #[trigger] (a + b).contains(x) <==> a.contains(x) || b.contains(x),
{
    assert forall|x: Seq<char>| #[trigger] (a + b).contains(x)
        implies a.contains(x) || b.contains(x) by {
        let i = choose|i: int| 0 <= i < (a + b).len() && (a + b)[i] == x;
        if i < a.len() {
            assert(a[i] == x);
        } else {
            assert(b[i - a.len()] == x);
        }
    }
    assert forall|x: Seq<char>| a.contains(x) || b.contains(x)
        implies #[trigger] (a + b).contains(x) by {
        if a.contains(x) {
            let i = choose|i: int| 0 <= i < a.len() && a[i] == x;
            assert((a + b)[i] == x);
        } else {
            let i = choose|i: int| 0 <= i < b.len() && b[i] == x;
            assert((a + b)[a.len() + i] == x);
        }
    }
}

/// Whether two string slices hold the same characters.
pub fn str_eq(a: &str, b: &str) -> (r: bool)
    ensures
        r == (a@ == b@),
{
    let ab = a.as_bytes();
    let bb = b.as_bytes();
    proof {
        encode_utf8_decode_utf8(a@);
        encode_utf8_decode_utf8(b@);
    }
    if ab.len() != bb.len() {
        return false;
    }
    let n = ab.len();
    for i in 0..n
        invariant
            n == ab@.len() == bb@.len(),
            ab@ == encode_utf8(a@),
            bb@ == encode_utf8(b@),
            forall|j: int| 0 <= j < i ==> ab@[j] == bb@[j],
    {
        if ab[i] != bb[i] {
            return false;
        }
    }
    proof {
        assert(ab@ =~= bb@);
    }
    true
}

/// The string-interning table: content to identifier while encoding,
/// identifier to content while decoding. The vector holds the strings
/// in identifier order, so an identifier is its position.
pub struct DedupContext {
    strings: Vec<String>,
}

impl View for DedupContext {
    type V = Seq<Seq<char>>;

    closed spec fn view(&self) -> Seq<Seq<char>> {
        self.strings.deep_view()
    }
}

impl DedupContext {
    /// The table never assigns two identifiers to one string. This holds
    /// of every table the encoder builds; a table read from the stream is
    /// only ever used by identifier and need not satisfy it.
    pub open spec fn wf(&self) -> bool {
        tbl_distinct(self@)
    }

    /// An empty table.
    pub fn new() -> (r: DedupContext)
        ensures
            r@ == Seq::<Seq<char>>::empty(),
            r.wf(),
    {
        let r = DedupContext { strings: Vec::new() };
        proof {
            assert(r@ =~= Seq::<Seq<char>>::empty());
        }
        r
    }

    /// How many strings the table holds.
    pub fn len(&self) -> (n: usize)
        ensures
            n == self@.len(),
    {
        self.strings.len()
    }

    /// Returns `s`'s identifier, interning it first if it is new: the
    /// existing identifier if `s` was seen before in this traversal, else
    /// the next sequential one (the count of distinct strings so far).
    pub fn put_str(&mut self, s: &str) -> (id: usize)
        requires
            old(self).wf(),
        ensures
            final(self).wf(),
            final(self)@ == tbl_intern(old(self)@, s@),
            id < final(self)@.len(),
            final(self)@[id as int] == s@,
            id == final(self)@.index_of(s@),
    {
        let n = self.strings.len();
        for i in 0..n
            invariant
                n == self@.len(),
                self.wf(),
                forall|j: int| 0 <= j < i ==> self@[j] != s@,
        {
            proof {
                assert(self@[i as int] == self.strings@[i as int]@);
            }
            if str_eq(self.strings[i].as_str(), s) {
                proof {
                    assert(self@.contains(s@));
                    assert(tbl_intern(self@, s@) == self@);
                    lemma_distinct_index_unique(self@, s@, i as int);
                }
                return i;
            }
        }
        proof {
            if self@.contains(s@) {
                let j = choose|j: int| 0 <= j < self@.len() && self@[j] == s@;
                assert(self@[j] != s@);
            }
            lemma_intern_distinct(self@, s@);
        }
        self.strings.push(s.to_owned());
        proof {
            assert(self@ =~= tbl_intern(old(self)@, s@));
            lemma_distinct_index_unique(self@, s@, n as int);
        }
        n
    }


    /// The identifier of `s`, or nothing if `s` is not in the table.
    /// Used by the real encoding pass, which only looks the table up.
    pub fn get_index(&self, s: &str) -> (r: Option<usize>)
        ensures
            match r {
                Some(i) => i < self@.len() && self@[i as int] == s@
                    && (self.wf() ==> i == self@.index_of(s@)),
                None => !self@.contains(s@),
            },
    {
        let n = self.strings.len();
        for i in 0..n
            invariant
                n == self@.len(),
                forall|j: int| 0 <= j < i ==> self@[j] != s@,
        {
            proof {
                assert(self@[i as int] == self.strings@[i as int]@);
            }
            if str_eq(self.strings[i].as_str(), s) {
                proof {
                    if self.wf() {
                        lemma_distinct_index_unique(self@, s@, i as int);
                    }
                }
                return Some(i);
            }
        }
        proof {
            if self@.contains(s@) {
                let j = choose|j: int| 0 <= j < self@.len() && self@[j] == s@;
                assert(self@[j] != s@);
            }
        }
        None
    }

    /// The string behind an identifier, or nothing for an identifier the
    /// table does not hold.
    pub fn get_str(&self, idx: usize) -> (r: Option<&str>)
        ensures
            match r {
                Some(s) => idx < self@.len() && s@ == self@[idx as int],
                None => idx >= self@.len(),
            },
    {
        if idx < self.strings.len() {
            proof {
                assert(self@[idx as int] == self.strings@[idx as int]@);
            }
            Some(self.strings[idx].as_str())
        } else {
            None
        }
    }
}


/// The bytes of the table entries from position `i` on: each string
/// written inline with a variable-width length.
pub open spec fn spec_table_entries(tbl: Seq<Seq<char>>, i: int) -> Result<Seq<u8>, Error>
    decreases tbl.len() - i,
{
    if i < 0 || i >= tbl.len() {
        Ok(Seq::empty())
    } else {
        match spec_write_str_inline(tbl[i], UsizeLen::Variable) {
            Ok(b) => match spec_table_entries(tbl, i + 1) {
                Ok(r) => Ok(b + r),
                Err(e) => Err(e),
            },
            Err(e) => Err(e),
        }
    }
}

/// The preamble block that carries the dedup table: the count of strings
/// as a varint, then the strings in identifier order, length-prefixed.
pub open spec fn spec_table_bytes(tbl: Seq<Seq<char>>) -> Result<Seq<u8>, Error> {
    match spec_write_size(tbl.len(), UsizeLen::Variable) {
        Ok(pre) => match spec_table_entries(tbl, 0) {
            Ok(r) => Ok(pre + r),
            Err(e) => Err(e),
        },
        Err(e) => Err(e),
    }
}

/// What reading `n` table entries from the front of `bytes` yields.
pub open spec fn spec_read_table_entries(bytes: Seq<u8>, n: nat) -> Result<(Seq<Seq<char>>, nat), Error>
    decreases n,
{
    if n == 0 {
        Ok((Seq::empty(), 0))
    } else {
        match spec_read_str_inline(bytes, UsizeLen::Variable) {
            Ok((s, k)) => match spec_read_table_entries(bytes.skip(k as int), (n - 1) as nat) {
                Ok((rest, k2)) => Ok((seq![s] + rest, k + k2)),
                Err(e) => Err(e),
            },
            Err(e) => Err(e),
        }
    }
}

/// What reading the whole table block from the front of `bytes` yields:
/// the strings in identifier order and the bytes consumed, or the error.
pub open spec fn spec_read_table(bytes: Seq<u8>) -> Result<(Seq<Seq<char>>, nat), Error> {
    match spec_read_usize(bytes, UsizeLen::Variable) {
        Ok((n, k)) => match spec_read_table_entries(bytes.skip(k as int), n as nat) {
            Ok((tbl, k2)) => Ok((tbl, k + k2)),
            Err(e) => Err(e),
        },
        Err(e) => Err(e),
    }
}

/// A table read back is the table written, in the same identifier order,
/// whatever follows the block in the stream.
pub proof fn lemma_table_roundtrip(tbl: Seq<Seq<char>>, rest: Seq<u8>)
    requires
        spec_table_bytes(tbl) is Ok,
        tbl.len() <= usize::MAX,
        forall|i: int| 0 <= i < tbl.len() ==> encode_utf8(#[trigger] tbl[i]).len() <= usize::MAX,
    ensures
        ({
            let enc = spec_table_bytes(tbl)->Ok_0;
            spec_read_table(enc + rest) == Ok::<_, Error>((tbl, enc.len()))
        }),
{
    let enc = spec_table_bytes(tbl)->Ok_0;
    let pre = spec_write_size(tbl.len(), UsizeLen::Variable)->Ok_0;
    let body = spec_table_entries(tbl, 0)->Ok_0;
    crate::serde::lemma_size_roundtrip(tbl.len(), UsizeLen::Variable, body + rest);
    assert(enc + rest =~= pre + (body + rest));
    lemma_table_entries_roundtrip(tbl, 0, rest);
    assert(tbl.skip(0) =~= tbl);
    assert((enc + rest).skip(pre.len() as int) =~= body + rest);
}

proof fn lemma_table_entries_roundtrip(tbl: Seq<Seq<char>>, i: int, rest: Seq<u8>)
    requires
        0 <= i <= tbl.len(),
        spec_table_entries(tbl, i) is Ok,
        forall|k: int| 0 <= k < tbl.len() ==> encode_utf8(#[trigger] tbl[k]).len() <= usize::MAX,
    ensures
        ({
            let enc = spec_table_entries(tbl, i)->Ok_0;
            spec_read_table_entries(enc + rest, (tbl.len() - i) as nat)
                == Ok::<_, Error>((tbl.skip(i), enc.len()))
        }),
    decreases tbl.len() - i,
{
    let enc = spec_table_entries(tbl, i)->Ok_0;
    if i == tbl.len() {
        assert(tbl.skip(i) =~= Seq::<Seq<char>>::empty());
        assert(enc + rest =~= rest);
    } else {
        let b = spec_write_str_inline(tbl[i], UsizeLen::Variable)->Ok_0;
        let tail = spec_table_entries(tbl, i + 1)->Ok_0;
        crate::serde::lemma_str_inline_roundtrip(tbl[i], UsizeLen::Variable, tail + rest);
        assert(enc + rest =~= b + (tail + rest));
        lemma_table_entries_roundtrip(tbl, i + 1, rest);
        assert((enc + rest).skip(b.len() as int) =~= tail + rest);
        assert(tbl.skip(i) =~= seq![tbl[i]] + tbl.skip(i + 1));
    }
}

impl DedupContext {
    /// Writes the table as its preamble block: the count, then the
    /// strings in identifier order. The table itself is never
    /// deduplicated, and its lengths are always variable-width.
    pub fn write_to(&self, pipe: &mut Vec<u8>)
        ensures
            spec_table_bytes(self@) matches Ok(enc) && final(pipe)@ == old(pipe)@ + enc,
    {
        let ghost start = pipe@;
        let n = self.strings.len();
        proof {
            lemma_varint_len(n as u64);
        }
        let r = write_size(n, UsizeLen::Variable, pipe);
        let ghost pre = spec_write_size(self@.len(), UsizeLen::Variable)->Ok_0;
        for i in 0..n
            invariant
                n == self@.len(),
                pre == spec_write_size(self@.len(), UsizeLen::Variable)->Ok_0,
                spec_write_size(self@.len(), UsizeLen::Variable) is Ok,
                match spec_table_entries(self@, i as int) {
                    Ok(r) => Ok::<_, Error>(pipe@.skip(start.len() as int + pre.len() as int) + r)
                        == spec_table_entries(self@, 0),
                    Err(e) => spec_table_entries(self@, 0) == Err::<Seq<u8>, _>(e),
                },
                pipe@.len() >= start.len() + pre.len(),
                pipe@.take(start.len() as int) == start,
                pipe@.subrange(start.len() as int, start.len() as int + pre.len() as int) == pre,
        {
            proof {
                assert(self@[i as int] == self.strings@[i as int]@);
            }
            let ghost before = pipe@;
            let wr = write_str_inline(self.strings[i].as_str(), UsizeLen::Variable, pipe);
            proof {
                assert(wr is Ok);
                let b = spec_write_str_inline(self@[i as int], UsizeLen::Variable)->Ok_0;
                assert(pipe@.skip(start.len() as int + pre.len() as int)
                    =~= before.skip(start.len() as int + pre.len() as int) + b);
                match spec_table_entries(self@, i + 1) {
                    Ok(r) => {
                        assert(before.skip(start.len() as int + pre.len() as int) + b + r
                            =~= before.skip(start.len() as int + pre.len() as int) + (b + r));
                    },
                    Err(e) => {},
                }
                assert(pipe@.take(start.len() as int) =~= start);
                assert(pipe@.subrange(start.len() as int, start.len() as int + pre.len() as int)
                    =~= pre);
            }
        }
        proof {
            let body = spec_table_entries(self@, 0)->Ok_0;
            assert(pipe@.skip(start.len() as int + pre.len() as int) + Seq::<u8>::empty()
                =~= pipe@.skip(start.len() as int + pre.len() as int));
            assert(pipe@ =~= start + (pre + body));
        }
    }

    /// Reads the table block from `pipe` at `pos` and builds the
    /// identifier-to-content mapping used by subsequent decode calls;
    /// returns it with the position after the block.
    pub fn read_from(pipe: &Vec<u8>, pos: usize) -> (r: Result<(DedupContext, usize), Error>)
        requires
            pos <= pipe@.len(),
        ensures
            match r {
                Ok((ctx, end)) => {
                    &&& spec_read_table(pipe@.skip(pos as int))
                        == Ok::<_, Error>((ctx@, (end - pos) as nat))
                    &&& pos <= end <= pipe@.len()
                },
                Err(e) => spec_read_table(pipe@.skip(pos as int)) == Err::<(Seq<Seq<char>>, nat), _>(e),
            },
    {
        let (count, mut cur) = match read_size(pipe, pos, UsizeLen::Variable) {
            Ok(v) => v,
            Err(e) => {
                return Err(e);
            },
        };
        let mut strings: Vec<String> = Vec::new();
        let ghost entry_start = cur as int;
        proof {
            assert(pipe@.skip(pos as int).skip((cur - pos) as int) =~= pipe@.skip(entry_start));
            assert(strings.deep_view() =~= Seq::<Seq<char>>::empty());
            match spec_read_table_entries(pipe@.skip(entry_start), count as nat) {
                Ok((rest, k2)) => {
                    assert(strings.deep_view() + rest =~= rest);
                },
                Err(e) => {},
            }
        }
        for j in 0..count
            invariant
                spec_read_usize(pipe@.skip(pos as int), UsizeLen::Variable)
                    == Ok::<_, Error>((count, (entry_start - pos) as nat)),
                pos <= entry_start <= cur <= pipe@.len(),
                strings@.len() == j,
                match spec_read_table_entries(pipe@.skip(cur as int), (count - j) as nat) {
                    Ok((rest, k2)) => spec_read_table_entries(pipe@.skip(entry_start), count as nat)
                        == Ok::<_, Error>((strings.deep_view() + rest, ((cur - entry_start) + k2) as nat)),
                    Err(e) => spec_read_table_entries(pipe@.skip(entry_start), count as nat)
                        == Err::<(Seq<Seq<char>>, nat), _>(e),
                },
        {
            let ghost prev = cur as int;
            match read_str_inline(pipe, cur, UsizeLen::Variable) {
                Ok((s, end)) => {
                    let ghost before = strings.deep_view();
                    strings.push(s);
                    cur = end;
                    proof {
                        assert(pipe@.skip(prev).skip(cur - prev) =~= pipe@.skip(cur as int));
                        assert(strings.deep_view() =~= before + seq![strings@[j as int]@]);
                        match spec_read_table_entries(pipe@.skip(cur as int), (count - j - 1) as nat) {
                            Ok((rest, k2)) => {
                                assert(before + (seq![strings@[j as int]@] + rest)
                                    =~= strings.deep_view() + rest);
                            },
                            Err(e) => {},
                        }
                    }
                },
                Err(e) => {
                    proof {
                        assert(spec_read_table_entries(pipe@.skip(cur as int), (count - j) as nat)
                            == Err::<(Seq<Seq<char>>, nat), _>(e));
                        assert(spec_read_table_entries(pipe@.skip(entry_start), count as nat)
                            == Err::<(Seq<Seq<char>>, nat), _>(e));
                        assert(pipe@.skip(pos as int).skip(entry_start - pos) =~= pipe@.skip(entry_start));
                    }
                    return Err(e);
                },
            }
        }
        proof {
            assert(strings.deep_view() + Seq::<Seq<char>>::empty() =~= strings.deep_view());
            assert(pipe@.skip(pos as int).skip(entry_start - pos) =~= pipe@.skip(entry_start));
        }
        Ok((DedupContext { strings }, cur))
    }
}

} // verus!

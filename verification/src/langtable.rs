//! The localization table: per-language maps from localization keys to
//! translated text, with the languages and keys also kept in the order
//! they were first seen.

use vstd::prelude::*;
use crate::dedup::str_eq;

verus! {

/// A shared string: one owner here, since sharing is not load-bearing
/// for the table's behavior.
#[derive(Debug, PartialEq, Eq)]
pub struct RcString {
    inner: String,
}

impl View for RcString {
    type V = Seq<char>;

    closed spec fn view(&self) -> Seq<char> {
        self.inner@
    }
}

impl RcString {
    /// Wraps a string.
    pub fn from(s: String) -> (r: RcString)
        ensures
            r@ == s@,
    {
        RcString { inner: s }
    }

    /// Gives the string up.
    pub fn into_inner(self) -> (r: String)
        ensures
            r@ == self@,
    {
        self.inner
    }

    /// The text.
    pub fn as_str(&self) -> (r: &str)
        ensures
            r@ == self@,
    {
        self.inner.as_str()
    }
}

/// One language's translations: localization key to text.
#[derive(Debug, PartialEq)]
pub struct LanguageTablePart {
    pub repr: Vec<(String, String)>,
}

/// Whether some pair of `s` has key `k`.
pub open spec fn kv_has(s: Seq<(Seq<char>, Seq<char>)>, k: Seq<char>) -> bool {
    exists|i: int| 0 <= i < s.len() && (#[trigger] s[i]).0 == k
}

/// The value under key `k`, where exactly one pair carries it.
pub open spec fn kv_value_at(s: Seq<(Seq<char>, Seq<char>)>, i: int) -> Seq<char> {
    s[i].1
}

impl LanguageTablePart {
    /// Each key occurs at most once.
    pub open spec fn wf(&self) -> bool {
        forall|i: int, j: int| 0 <= i < j < self.repr.deep_view().len()
            ==> (#[trigger] self.repr.deep_view()[i]).0 != (#[trigger] self.repr.deep_view()[j]).0
    }

    /// An empty part.
    pub fn new() -> (r: LanguageTablePart)
        ensures
            r.repr.deep_view() == Seq::<(Seq<char>, Seq<char>)>::empty(),
            r.wf(),
    {
        let r = LanguageTablePart { repr: Vec::new() };
        proof {
            assert(r.repr.deep_view() =~= Seq::<(Seq<char>, Seq<char>)>::empty());
        }
        r
    }

    /// The position of `key`, if present.
    #[verifier::loop_isolation(false)]
    fn find(&self, key: &str) -> (r: Option<usize>)
        ensures
            match r {
                Some(i) => i < self.repr.deep_view().len()
                    && self.repr.deep_view()[i as int].0 == key@,
                None => !kv_has(self.repr.deep_view(), key@),
            },
    {
        let n = self.repr.len();
        for i in 0..n
            invariant
                n == self.repr@.len(),
                forall|j: int| 0 <= j < i
                    ==> (#[trigger] self.repr.deep_view()[j]).0 != key@,
        {
            proof {
                assert(self.repr.deep_view()[i as int].0 == self.repr@[i as int].0@);
            }
            if str_eq(self.repr[i].0.as_str(), key) {
                return Some(i);
            }
        }
        None
    }

    /// The text under `key`, if any.
    pub fn get(&self, key: &str) -> (r: Option<&str>)
        ensures
            match r {
                Some(v) => exists|i: int| 0 <= i < self.repr.deep_view().len()
                    && (#[trigger] self.repr.deep_view()[i]).0 == key@
                    && self.repr.deep_view()[i].1 == v@,
                None => !kv_has(self.repr.deep_view(), key@),
            },
    {
        match self.find(key) {
            Some(i) => {
                proof {
                    assert(self.repr.deep_view()[i as int].1 == self.repr@[i as int].1@);
                }
                Some(self.repr[i].1.as_str())
            },
            None => None,
        }
    }

    /// Stores `text` under `key`, handing back what it replaces.
    #[verifier::loop_isolation(false)]
    pub fn insert(&mut self, key: &str, text: &str) -> (r: Option<String>)
        requires
            old(self).wf(),
        ensures
            final(self).wf(),
            kv_has(final(self).repr.deep_view(), key@),
            exists|i: int| 0 <= i < final(self).repr.deep_view().len()
                && (#[trigger] final(self).repr.deep_view()[i]).0 == key@
                && final(self).repr.deep_view()[i].1 == text@,
            match r {
                Some(prev) => kv_has(old(self).repr.deep_view(), key@),
                None => !kv_has(old(self).repr.deep_view(), key@),
            },
    {
        match self.find(key) {
            Some(i) => {
                let ghost before = self.repr.deep_view();
                let (_, prev) = self.repr.remove(i);
                self.repr.push((key.to_owned(), text.to_owned()));
                proof {
                    let now = self.repr.deep_view();
                    assert(now =~= before.remove(i as int).push((key@, text@)));
                    assert(now[now.len() - 1].0 == key@);
                    assert forall|a: int, b: int| 0 <= a < b < now.len()
                        implies (#[trigger] now[a]).0 != (#[trigger] now[b]).0 by {
                        assert(before.remove(i as int)[a]
                            == if a < i { before[a] } else { before[a + 1] });
                        if b < now.len() - 1 {
                            assert(before.remove(i as int)[b]
                                == if b < i { before[b] } else { before[b + 1] });
                        }
                    }
                }
                Some(prev)
            },
            None => {
                let ghost before = self.repr.deep_view();
                self.repr.push((key.to_owned(), text.to_owned()));
                proof {
                    let now = self.repr.deep_view();
                    assert(now =~= before.push((key@, text@)));
                    assert(now[now.len() - 1].0 == key@);
                }
                None
            },
        }
    }

    /// Removes `key`, handing back its text, if it was there.
    pub fn remove(&mut self, key: &str) -> (r: Option<String>)
        requires
            old(self).wf(),
        ensures
            final(self).wf(),
            !kv_has(final(self).repr.deep_view(), key@),
            r is Some <==> kv_has(old(self).repr.deep_view(), key@),
    {
        match self.find(key) {
            Some(i) => {
                let ghost before = self.repr.deep_view();
                let (_, prev) = self.repr.remove(i);
                proof {
                    let now = self.repr.deep_view();
                    assert(now =~= before.remove(i as int));
                    assert forall|a: int, b: int| 0 <= a < b < now.len()
                        implies (#[trigger] now[a]).0 != (#[trigger] now[b]).0 by {
                        assert(now[a] == if a < i { before[a] } else { before[a + 1] });
                        assert(now[b] == if b < i { before[b] } else { before[b + 1] });
                    }
                    if kv_has(now, key@) {
                        let j = choose|j: int| 0 <= j < now.len() && (#[trigger] now[j]).0 == key@;
                        let jj = if j < i { j } else { j + 1 };
                        assert(before[jj].0 == key@);
                        assert(before[i as int].0 == key@);
                    }
                }
                Some(prev)
            },
            None => None,
        }
    }

    /// How many keys the part holds.
    pub fn len(&self) -> (n: usize)
        ensures
            n == self.repr@.len(),
    {
        self.repr.len()
    }
}

/// Whether some string of `s` reads `x`.
pub open spec fn names_contain(s: Seq<Seq<char>>, x: Seq<char>) -> bool {
    exists|i: int| 0 <= i < s.len() && s[i] == x
}

/// The localization table: one part per language, plus the languages and
/// localization keys in first-seen order, each listed once.
#[derive(Debug, PartialEq)]
pub struct LanguageTable {
    pub repr: Vec<(String, LanguageTablePart)>,
    pub languages: Vec<String>,
    pub keys: Vec<String>,
}

impl LanguageTable {
    /// Languages and keys are listed without repetition, and each part
    /// belongs to exactly one language.
    pub open spec fn wf(&self) -> bool {
        &&& (forall|i: int, j: int| 0 <= i < j < self.languages.deep_view().len()
            ==> self.languages.deep_view()[i] != self.languages.deep_view()[j])
        &&& (forall|i: int, j: int| 0 <= i < j < self.keys.deep_view().len()
            ==> self.keys.deep_view()[i] != self.keys.deep_view()[j])
        &&& (forall|i: int, j: int| 0 <= i < j < self.repr@.len()
            ==> (#[trigger] self.repr@[i]).0@ != (#[trigger] self.repr@[j]).0@)
        &&& (forall|i: int| 0 <= i < self.repr@.len()
            ==> (#[trigger] self.repr@[i]).1.wf())
    }

    /// An empty table.
    pub fn new() -> (r: LanguageTable)
        ensures
            r.repr@.len() == 0,
            r.languages@.len() == 0,
            r.keys@.len() == 0,
            r.wf(),
    {
        LanguageTable { repr: Vec::new(), languages: Vec::new(), keys: Vec::new() }
    }

    /// Adds a language to the list, once; reports whether it was new.
    #[verifier::loop_isolation(false)]
    pub fn add_language(&mut self, name: &str) -> (r: bool)
        requires
            old(self).wf(),
        ensures
            final(self).wf(),
            final(self).repr == old(self).repr,
            final(self).keys == old(self).keys,
            names_contain(final(self).languages.deep_view(), name@),
            r == !names_contain(old(self).languages.deep_view(), name@),
            final(self).languages.deep_view() == (if r {
                old(self).languages.deep_view().push(name@)
            } else {
                old(self).languages.deep_view()
            }),
    {
        let n = self.languages.len();
        for i in 0..n
            invariant
                *self == *old(self),
                n == self.languages@.len(),
                forall|j: int| 0 <= j < i ==> self.languages.deep_view()[j] != name@,
        {
            proof {
                assert(self.languages.deep_view()[i as int] == self.languages@[i as int]@);
            }
            if str_eq(self.languages[i].as_str(), name) {
                return false;
            }
        }
        let ghost before = self.languages.deep_view();
        self.languages.push(name.to_owned());
        proof {
            assert(self.languages.deep_view() =~= before.push(name@));
            assert(self.languages.deep_view()[before.len() as int] == name@);
        }
        true
    }

    /// Adds a localization key to the list, once; reports whether it was
    /// new.
    #[verifier::loop_isolation(false)]
    pub fn add_key(&mut self, key: &str) -> (r: bool)
        requires
            old(self).wf(),
        ensures
            final(self).wf(),
            final(self).repr == old(self).repr,
            final(self).languages == old(self).languages,
            names_contain(final(self).keys.deep_view(), key@),
            r == !names_contain(old(self).keys.deep_view(), key@),
            final(self).keys.deep_view() == (if r {
                old(self).keys.deep_view().push(key@)
            } else {
                old(self).keys.deep_view()
            }),
    {
        let n = self.keys.len();
        for i in 0..n
            invariant
                *self == *old(self),
                n == self.keys@.len(),
                forall|j: int| 0 <= j < i ==> self.keys.deep_view()[j] != key@,
        {
            proof {
                assert(self.keys.deep_view()[i as int] == self.keys@[i as int]@);
            }
            if str_eq(self.keys[i].as_str(), key) {
                return false;
            }
        }
        let ghost before = self.keys.deep_view();
        self.keys.push(key.to_owned());
        proof {
            assert(self.keys.deep_view() =~= before.push(key@));
            assert(self.keys.deep_view()[before.len() as int] == key@);
        }
        true
    }

    /// Adds a localization key, discarding whether it was new.
    pub fn add_localization_key(&mut self, key: &str)
        requires
            old(self).wf(),
        ensures
            final(self).wf(),
            final(self).repr == old(self).repr,
            final(self).languages == old(self).languages,
            names_contain(final(self).keys.deep_view(), key@),
    {
        let _ = self.add_key(key);
    }

    /// The position of `lang`'s part, if any.
    #[verifier::loop_isolation(false)]
    fn find_lang(&self, lang: &str) -> (r: Option<usize>)
        ensures
            match r {
                Some(i) => i < self.repr@.len() && self.repr@[i as int].0@ == lang@,
                None => forall|j: int| 0 <= j < self.repr@.len()
                    ==> (#[trigger] self.repr@[j]).0@ != lang@,
            },
    {
        let n = self.repr.len();
        for i in 0..n
            invariant
                n == self.repr@.len(),
                forall|j: int| 0 <= j < i ==> (#[trigger] self.repr@[j]).0@ != lang@,
        {
            if str_eq(self.repr[i].0.as_str(), lang) {
                return Some(i);
            }
        }
        None
    }

    /// Stores `text` under `lang` and `key`, creating the language's
    /// part first if needed; hands back the text it replaces.
    #[verifier::loop_isolation(false)]
    pub fn insert(&mut self, lang: &str, key: &str, text: &str) -> (r: Option<String>)
        requires
            old(self).wf(),
        ensures
            final(self).wf(),
            names_contain(final(self).languages.deep_view(), lang@),
            names_contain(final(self).keys.deep_view(), key@),
            exists|i: int| 0 <= i < final(self).repr@.len()
                && (#[trigger] final(self).repr@[i]).0@ == lang@
                && kv_has(final(self).repr@[i].1.repr.deep_view(), key@),
    {
        let _ = self.add_language(lang);
        let _ = self.add_key(key);
        match self.find_lang(lang) {
            Some(i) => {
                let ghost before = self.repr@;
                let (name, mut part) = self.repr.remove(i);
                let prev = part.insert(key, text);
                self.repr.push((name, part));
                proof {
                    let now = self.repr@;
                    assert(now =~= before.remove(i as int).push((before[i as int].0, part)));
                    assert(now[now.len() - 1].0@ == lang@);
                    assert(kv_has(now[now.len() - 1].1.repr.deep_view(), key@));
                    assert forall|a: int, b: int| 0 <= a < b < now.len()
                        implies (#[trigger] now[a]).0@ != (#[trigger] now[b]).0@ by {
                        assert(before.remove(i as int)[a]
                            == if a < i { before[a] } else { before[a + 1] });
                        if b < now.len() - 1 {
                            assert(before.remove(i as int)[b]
                                == if b < i { before[b] } else { before[b + 1] });
                        }
                    }
                    assert forall|k: int| 0 <= k < now.len()
                        implies (#[trigger] now[k]).1.wf() by {
                        if k < now.len() - 1 {
                            assert(before.remove(i as int)[k]
                                == if k < i { before[k] } else { before[k + 1] });
                        }
                    }
                }
                prev
            },
            None => {
                let ghost before = self.repr@;
                let mut part = LanguageTablePart::new();
                let prev = part.insert(key, text);
                self.repr.push((lang.to_owned(), part));
                proof {
                    let now = self.repr@;
                    assert(now =~= before.push((now[now.len() - 1].0, part)));
                    assert(now[now.len() - 1].0@ == lang@);
                    assert(kv_has(now[now.len() - 1].1.repr.deep_view(), key@));
                }
                None
            },
        }
    }

    /// The text stored under `lang` and `key`, if any.
    pub fn get(&self, lang: &str, key: &str) -> (r: Option<&str>)
        ensures
            r is Some ==> exists|i: int| 0 <= i < self.repr@.len()
                && (#[trigger] self.repr@[i]).0@ == lang@
                && kv_has(self.repr@[i].1.repr.deep_view(), key@),
    {
        match self.find_lang(lang) {
            Some(i) => {
                match self.repr[i].1.get(key) {
                    Some(v) => Some(v),
                    None => None,
                }
            },
            None => None,
        }
    }

    /// Removes `key`'s text under `lang`, handing it back, if it was
    /// there.
    pub fn remove(&mut self, lang: &str, key: &str) -> (r: Option<String>)
        requires
            old(self).wf(),
        ensures
            final(self).wf(),
            final(self).languages == old(self).languages,
            final(self).keys == old(self).keys,
    {
        match self.find_lang(lang) {
            Some(i) => {
                let ghost before = self.repr@;
                let (name, mut part) = self.repr.remove(i);
                let prev = part.remove(key);
                self.repr.push((name, part));
                proof {
                    let now = self.repr@;
                    assert(now =~= before.remove(i as int).push((before[i as int].0, part)));
                    assert forall|a: int, b: int| 0 <= a < b < now.len()
                        implies (#[trigger] now[a]).0@ != (#[trigger] now[b]).0@ by {
                        assert(before.remove(i as int)[a]
                            == if a < i { before[a] } else { before[a + 1] });
                        if b < now.len() - 1 {
                            assert(before.remove(i as int)[b]
                                == if b < i { before[b] } else { before[b + 1] });
                        }
                    }
                    assert forall|k: int| 0 <= k < now.len()
                        implies (#[trigger] now[k]).1.wf() by {
                        if k < now.len() - 1 {
                            assert(before.remove(i as int)[k]
                                == if k < i { before[k] } else { before[k + 1] });
                        }
                    }
                }
                prev
            },
            None => None,
        }
    }

    /// The part holding `lang`'s translations, if any.
    pub fn get_part(&self, lang: &str) -> (r: Option<&LanguageTablePart>)
        ensures
            match r {
                Some(p) => exists|i: int| 0 <= i < self.repr@.len()
                    && (#[trigger] self.repr@[i]).0@ == lang@ && self.repr@[i].1 == *p,
                None => forall|j: int| 0 <= j < self.repr@.len()
                    ==> (#[trigger] self.repr@[j]).0@ != lang@,
            },
    {
        match self.find_lang(lang) {
            Some(i) => Some(&self.repr[i].1),
            None => None,
        }
    }

    /// Whether `lang` is a known language.
    #[verifier::loop_isolation(false)]
    pub fn contains_language(&self, lang: &str) -> (r: bool)
        ensures
            r == names_contain(self.languages.deep_view(), lang@),
    {
        let n = self.languages.len();
        for i in 0..n
            invariant
                n == self.languages@.len(),
                forall|j: int| 0 <= j < i ==> self.languages.deep_view()[j] != lang@,
        {
            proof {
                assert(self.languages.deep_view()[i as int] == self.languages@[i as int]@);
            }
            if str_eq(self.languages[i].as_str(), lang) {
                return true;
            }
        }
        false
    }

    /// Empties the table.
    pub fn clear(&mut self)
        ensures
            final(self).repr@.len() == 0,
            final(self).languages@.len() == 0,
            final(self).keys@.len() == 0,
            final(self).wf(),
    {
        self.repr.clear();
        self.languages.clear();
        self.keys.clear();
    }

    /// How many localization keys the table lists.
    pub fn key_count(&self) -> (n: usize)
        ensures
            n == self.keys@.len(),
    {
        self.keys.len()
    }

    /// How many languages the table lists.
    pub fn lang_count(&self) -> (n: usize)
        ensures
            n == self.languages@.len(),
    {
        self.languages.len()
    }

    /// The language at a list position, if any.
    pub fn get_language_at(&self, idx: usize) -> (r: Option<&String>)
        ensures
            match r {
                Some(s) => idx < self.languages@.len() && s@ == self.languages.deep_view()[idx as int],
                None => idx >= self.languages@.len(),
            },
    {
        if idx < self.languages.len() {
            proof {
                assert(self.languages.deep_view()[idx as int] == self.languages@[idx as int]@);
            }
            Some(&self.languages[idx])
        } else {
            None
        }
    }

    /// The key at a list position, if any.
    pub fn get_key_at(&self, idx: usize) -> (r: Option<&String>)
        ensures
            match r {
                Some(s) => idx < self.keys@.len() && s@ == self.keys.deep_view()[idx as int],
                None => idx >= self.keys@.len(),
            },
    {
        if idx < self.keys.len() {
            proof {
                assert(self.keys.deep_view()[idx as int] == self.keys@[idx as int]@);
            }
            Some(&self.keys[idx])
        } else {
            None
        }
    }

    /// The language at a column position, as text.
    pub fn column_name(&self, idx: usize) -> (r: Option<&str>)
        ensures
            match r {
                Some(s) => idx < self.languages@.len() && s@ == self.languages.deep_view()[idx as int],
                None => idx >= self.languages@.len(),
            },
    {
        match self.get_language_at(idx) {
            Some(s) => Some(s.as_str()),
            None => None,
        }
    }

    /// The key at a row position, as text.
    pub fn row_name(&self, idx: usize) -> (r: Option<&str>)
        ensures
            match r {
                Some(s) => idx < self.keys@.len() && s@ == self.keys.deep_view()[idx as int],
                None => idx >= self.keys@.len(),
            },
    {
        match self.get_key_at(idx) {
            Some(s) => Some(s.as_str()),
            None => None,
        }
    }

    /// How many rows (keys) the table has.
    pub fn row_count(&self) -> (n: usize)
        ensures
            n == self.keys@.len(),
    {
        self.keys.len()
    }

    /// How many columns (languages) the table has.
    pub fn column_count(&self) -> (n: usize)
        ensures
            n == self.languages@.len(),
    {
        self.languages.len()
    }
}

} // verus!

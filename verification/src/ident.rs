//! Namespaced identifiers of the form `namespace:path`. A missing
//! namespace means the default one.

use vstd::prelude::*;
use vstd::string::{StrSliceExecFns, StringExecFns};

verus! {

/// The position of the first `:` in `s`, if any: everything before it is
/// the namespace, everything after it the path.
pub open spec fn spec_sep(s: Seq<char>) -> Option<int>
    decreases s.len(),
{
    if s.len() == 0 {
        None
    } else if s[0] == ':' {
        Some(0)
    } else {
        match spec_sep(s.skip(1)) {
            Some(i) => Some(i + 1),
            None => None,
        }
    }
}

/// The separator position is exactly the first `:`.
pub proof fn lemma_sep_char(s: Seq<char>)
    ensures
        match spec_sep(s) {
            Some(i) => 0 <= i < s.len() && s[i] == ':'
                && forall|j: int| 0 <= j < i ==> s[j] != ':',
            None => forall|j: int| 0 <= j < s.len() ==> s[j] != ':',
        },
    decreases s.len(),
{
    if s.len() > 0 && s[0] != ':' {
        lemma_sep_char(s.skip(1));
        match spec_sep(s.skip(1)) {
            Some(i) => {
                assert(s.skip(1)[i] == s[i + 1]);
                assert forall|j: int| 0 <= j < i + 1 implies s[j] != ':' by {
                    if j > 0 {
                        assert(s.skip(1)[j - 1] == s[j]);
                    }
                }
            },
            None => {
                assert forall|j: int| 0 <= j < s.len() implies s[j] != ':' by {
                    if j > 0 {
                        assert(s.skip(1)[j - 1] == s[j]);
                    }
                }
            },
        }
    }
}

/// A first `:` at `i` pins the separator position to `i`.
pub proof fn lemma_sep_unique(s: Seq<char>, i: int)
    requires
        0 <= i < s.len(),
        s[i] == ':',
        forall|j: int| 0 <= j < i ==> s[j] != ':',
    ensures
        spec_sep(s) == Some(i),
    decreases i,
{
    if i > 0 {
        assert forall|j: int| 0 <= j < i - 1 implies s.skip(1)[j] != ':' by {
            assert(s.skip(1)[j] == s[j + 1]);
        }
        assert(s.skip(1)[i - 1] == s[i]);
        lemma_sep_unique(s.skip(1), i - 1);
    }
}

/// The namespace part of an identifier string: what stands before the
/// first `:`, or the default namespace where there is none.
pub open spec fn spec_namespace(s: Seq<char>) -> Seq<char> {
    match spec_sep(s) {
        Some(i) => s.take(i),
        None => "minecraft"@,
    }
}

/// The path part of an identifier string: what stands after the first
/// `:`, or the whole string where there is none.
pub open spec fn spec_path(s: Seq<char>) -> Seq<char> {
    match spec_sep(s) {
        Some(i) => s.skip(i + 1),
        None => s,
    }
}

/// Finds the first `:` of `s`.
fn find_sep(s: &str) -> (r: Option<usize>)
    ensures
        match r {
            Some(i) => spec_sep(s@) == Some(i as int),
            None => spec_sep(s@) is None,
        },
{
    let n = s.unicode_len();
    for i in 0..n
        invariant
            n == s@.len(),
            forall|j: int| 0 <= j < i ==> s@[j] != ':',
    {
        if s.get_char(i) == ':' {
            proof {
                lemma_sep_unique(s@, i as int);
            }
            return Some(i);
        }
    }
    proof {
        lemma_sep_char(s@);
    }
    None
}

/// An owned namespaced identifier.
#[derive(Debug, PartialEq, Eq)]
pub struct Identifier {
    inner: String,
}

/// A borrowed view of a namespaced identifier's text.
#[derive(Debug, PartialEq, Eq)]
pub struct Ident {
    inner: String,
}

impl View for Identifier {
    type V = Seq<char>;

    closed spec fn view(&self) -> Seq<char> {
        self.inner@
    }
}

impl View for Ident {
    type V = Seq<char>;

    closed spec fn view(&self) -> Seq<char> {
        self.inner@
    }
}

impl Identifier {
    /// Joins a namespace and a path with the separator.
    pub fn from_components(namespace: &str, path: &str) -> (r: Identifier)
        ensures
            r@ == namespace@ + seq![':'] + path@,
    {
        let mut s = namespace.to_owned();
        s.append(":");
        s.append(path);
        proof {
            reveal_strlit(":");
            assert(namespace@ + ":"@ + path@ =~= namespace@ + seq![':'] + path@);
        }
        Identifier { inner: s }
    }

    /// Wraps an already-joined identifier string.
    pub fn from_string(s: String) -> (r: Identifier)
        ensures
            r@ == s@,
    {
        Identifier { inner: s }
    }

    /// Sets the namespace, or removes it (with its separator) when given
    /// nothing; the path is kept as it is.
    pub fn set_namespace(&mut self, namespace: Option<&str>)
        ensures
            match namespace {
                Some(ns) => final(self)@ == ns@ + seq![':'] + spec_path(old(self)@),
                None => final(self)@ == spec_path(old(self)@),
            },
    {
        let path_owned = match find_sep(self.inner.as_str()) {
            Some(i) => {
                proof {
                    lemma_sep_char(self@);
                    assert(self@.subrange(i as int + 1, self@.len() as int)
                        =~= self@.skip(i as int + 1));
                }
                let n = self.inner.as_str().unicode_len();
                self.inner.as_str().substring_char(i + 1, n).to_owned()
            },
            None => self.inner.clone(),
        };
        match namespace {
            None => {
                self.inner = path_owned;
            },
            Some(ns) => {
                let mut s = ns.to_owned();
                s.append(":");
                s.append(path_owned.as_str());
                proof {
                    reveal_strlit(":");
                    assert(ns@ + ":"@ + spec_path(old(self)@)
                        =~= ns@ + seq![':'] + spec_path(old(self)@));
                }
                self.inner = s;
            },
        }
    }

    /// Replaces the path, keeping the namespace (and separator) as they
    /// are; an identifier without a separator becomes just the path.
    pub fn set_path(&mut self, path: &str)
        ensures
            final(self)@ == (match spec_sep(old(self)@) {
                Some(i) => old(self)@.take(i + 1) + path@,
                None => path@,
            }),
    {
        match find_sep(self.inner.as_str()) {
            None => {
                self.inner = path.to_owned();
            },
            Some(i) => {
                let n = self.inner.as_str().unicode_len();
                proof {
                    lemma_sep_char(self@);
                }
                let head = self.inner.as_str().substring_char(0, i + 1);
                let mut s = head.to_owned();
                s.append(path);
                proof {
                    assert(old(self)@.subrange(0, i + 1) =~= old(self)@.take(i as int + 1));
                }
                self.inner = s;
            },
        }
    }

    /// Gives the identifier's text up.
    pub fn into_inner(self) -> (r: String)
        ensures
            r@ == self@,
    {
        self.inner
    }

    /// The identifier as a borrowed-style value.
    pub fn as_ident(&self) -> (r: Ident)
        ensures
            r@ == self@,
    {
        Ident { inner: self.inner.clone() }
    }
}

impl Ident {
    /// Wraps a string slice as an identifier.
    pub fn new(s: &str) -> (r: Ident)
        ensures
            r@ == s@,
    {
        Ident { inner: s.to_owned() }
    }

    /// The namespace, or the default one where the text has none.
    pub fn namespace(&self) -> (r: &str)
        ensures
            r@ == spec_namespace(self@),
    {
        match find_sep(self.inner.as_str()) {
            Some(i) => {
                proof {
                    lemma_sep_char(self@);
                    assert(self@.subrange(0, i as int) =~= self@.take(i as int));
                }
                self.inner.as_str().substring_char(0, i)
            },
            None => "minecraft",
        }
    }

    /// The namespace, or nothing where the text has none.
    pub fn namespace_raw(&self) -> (r: Option<&str>)
        ensures
            match r {
                Some(ns) => spec_sep(self@) is Some && ns@ == self@.take(spec_sep(self@)->0),
                None => spec_sep(self@) is None,
            },
    {
        match find_sep(self.inner.as_str()) {
            Some(i) => {
                proof {
                    lemma_sep_char(self@);
                    assert(self@.subrange(0, i as int) =~= self@.take(i as int));
                }
                Some(self.inner.as_str().substring_char(0, i))
            },
            None => None,
        }
    }

    /// The path part: everything after the first separator, or the whole
    /// text where there is none.
    pub fn path(&self) -> (r: &str)
        ensures
            r@ == spec_path(self@),
    {
        match find_sep(self.inner.as_str()) {
            Some(i) => {
                let n = self.inner.as_str().unicode_len();
                proof {
                    lemma_sep_char(self@);
                    assert(self@.subrange(i as int + 1, self@.len() as int)
                        =~= self@.skip(i as int + 1));
                }
                self.inner.as_str().substring_char(i + 1, n)
            },
            None => self.inner.as_str(),
        }
    }

    /// The raw text.
    pub fn as_str(&self) -> (r: &str)
        ensures
            r@ == self@,
    {
        self.inner.as_str()
    }

    /// Drops an explicit default namespace: `minecraft:x` becomes `x`,
    /// anything else is kept as it is.
    pub fn trim(&self) -> (r: Ident)
        ensures
            r@ == (if spec_sep(self@) is Some && spec_namespace(self@) == "minecraft"@ {
                spec_path(self@)
            } else {
                self@
            }),
    {
        let has_default = match self.namespace_raw() {
            Some(ns) => crate::dedup::str_eq(ns, "minecraft"),
            None => false,
        };
        if has_default {
            Ident { inner: self.path().to_owned() }
        } else {
            Ident { inner: self.inner.clone() }
        }
    }

    /// An owned copy.
    pub fn to_identifier(&self) -> (r: Identifier)
        ensures
            r@ == self@,
    {
        Identifier { inner: self.inner.clone() }
    }
}

/// The path of an identifier with a `:` keeps everything after it, so
/// joining components and reading the path back gives the path exactly
/// when the namespace itself holds no separator.
pub proof fn lemma_components_roundtrip(ns: Seq<char>, path: Seq<char>)
    requires
        forall|j: int| 0 <= j < ns.len() ==> ns[j] != ':',
    ensures
        spec_namespace(ns + seq![':'] + path) == ns,
        spec_path(ns + seq![':'] + path) == path,
{
    let s = ns + seq![':'] + path;
    assert(s[ns.len() as int] == ':');
    assert forall|j: int| 0 <= j < ns.len() implies s[j] != ':' by {
        assert(s[j] == ns[j]);
    }
    lemma_sep_unique(s, ns.len() as int);
    assert(s.take(ns.len() as int) =~= ns);
    assert(s.skip(ns.len() as int + 1) =~= path);
}

} // verus!

//! Paths into the resource tree, held as component lists, and the tree
//! nodes they address.

use vstd::prelude::*;
use vstd::string::StringExecFns;
use crate::datasource::FileType;

verus! {

/// A path into the resource tree: the components from the root down.
#[derive(Debug, PartialEq)]
pub struct FileTreePath(pub Vec<String>);

/// The textual form of a tree path: each component behind a slash.
pub open spec fn spec_full_path(comps: Seq<Seq<char>>) -> Seq<char>
    decreases comps.len(),
{
    if comps.len() == 0 {
        Seq::empty()
    } else {
        spec_full_path(comps.drop_last()) + seq!['/'] + comps.last()
    }
}

impl FileTreePath {
    /// Whether this is the tree's root.
    pub fn is_root(&self) -> (r: bool)
        ensures
            r == (self.0@.len() == 0),
    {
        self.0.len() == 0
    }

    /// The path one level up, or nothing at the root.
    #[verifier::loop_isolation(false)]
    pub fn parent(&self) -> (r: Option<FileTreePath>)
        ensures
            match r {
                Some(p) => self.0@.len() > 0 && p.0.deep_view() == self.0.deep_view().drop_last(),
                None => self.0@.len() == 0,
            },
    {
        if self.0.len() == 0 {
            return None;
        }
        let mut comps: Vec<String> = Vec::new();
        let n = self.0.len() - 1;
        proof {
            assert(comps.deep_view() =~= self.0.deep_view().take(0));
        }
        for i in 0..n
            invariant
                n == self.0@.len() - 1,
                comps@.len() == i,
                comps.deep_view() == self.0.deep_view().take(i as int),
        {
            comps.push(self.0[i].clone());
            proof {
                assert(comps.deep_view() =~= self.0.deep_view().take(i as int + 1));
            }
        }
        let p = FileTreePath(comps);
        proof {
            assert(p.0.deep_view() =~= self.0.deep_view().drop_last());
        }
        Some(p)
    }

    /// The path one level down, into `name`.
    #[verifier::loop_isolation(false)]
    pub fn child(&self, name: &str) -> (r: FileTreePath)
        ensures
            r.0.deep_view() == self.0.deep_view().push(name@),
    {
        let mut comps: Vec<String> = Vec::new();
        let n = self.0.len();
        proof {
            assert(comps.deep_view() =~= self.0.deep_view().take(0));
        }
        for i in 0..n
            invariant
                n == self.0@.len(),
                comps@.len() == i,
                comps.deep_view() == self.0.deep_view().take(i as int),
        {
            comps.push(self.0[i].clone());
            proof {
                assert(comps.deep_view() =~= self.0.deep_view().take(i as int + 1));
            }
        }
        comps.push(name.to_owned());
        let r = FileTreePath(comps);
        proof {
            assert(self.0.deep_view().take(n as int) =~= self.0.deep_view());
            assert(r.0.deep_view() =~= self.0.deep_view().push(name@));
        }
        r
    }

    /// The whole path as text, each component behind a slash.
    #[verifier::loop_isolation(false)]
    pub fn full_path(&self) -> (r: String)
        ensures
            r@ == spec_full_path(self.0.deep_view()),
    {
        let ghost cvs = self.0.deep_view();
        let mut out = String::new();
        let n = self.0.len();
        proof {
            assert(cvs.take(0) =~= Seq::<Seq<char>>::empty());
            assert(out@ =~= spec_full_path(cvs.take(0)));
        }
        for i in 0..n
            invariant
                n == self.0@.len() == cvs.len(),
                out@ == spec_full_path(cvs.take(i as int)),
            decreases n - i,
        {
            out.append("/");
            out.append(self.0[i].as_str());
            proof {
                reveal_strlit("/");
                assert("/"@ =~= seq!['/']);
                assert(cvs.take(i as int + 1).drop_last() =~= cvs.take(i as int));
                assert(cvs.take(i as int + 1).last() == cvs[i as int]);
                assert(cvs[i as int] == self.0@[i as int]@);
            }
        }
        proof {
            assert(cvs.take(n as int) =~= cvs);
        }
        out
    }

    /// The last component, or nothing at the root.
    pub fn path(&self) -> (r: Option<&str>)
        ensures
            match r {
                Some(s) => self.0@.len() > 0 && s@ == self.0.deep_view().last(),
                None => self.0@.len() == 0,
            },
    {
        if self.0.len() == 0 {
            None
        } else {
            Some(self.0[self.0.len() - 1].as_str())
        }
    }
}

/// One node of the resource tree: its name, its tree path, an optional
/// on-disk path, what it was recognized as, and its children.
#[derive(Debug, PartialEq)]
pub struct FileTree {
    pub name: String,
    pub ft_path: FileTreePath,
    pub path: Option<String>,
    pub file_type: Option<FileType>,
    pub children: Vec<FileTree>,
}

} // verus!

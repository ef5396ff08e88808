//! The plain-value side of the data-source layer: open options, file
//! metadata, directory entries with their paths as component lists, and
//! path normalization.

use vstd::prelude::*;

verus! {

/// What a path resolves to once `.`, `..`, empty components and any
/// root marker are folded away: a normal component is kept, `..` drops
/// the last kept component, everything else vanishes.
pub open spec fn spec_normalize(comps: Seq<Seq<char>>) -> Seq<Seq<char>>
    decreases comps.len(),
{
    if comps.len() == 0 {
        Seq::empty()
    } else {
        let r = spec_normalize(comps.drop_last());
        let last = comps.last();
        if last =~= Seq::<char>::empty() || last =~= "."@ {
            r
        } else if last =~= ".."@ {
            if r.len() == 0 {
                r
            } else {
                r.drop_last()
            }
        } else {
            r.push(last)
        }
    }
}

/// Normalizes a path given as components: resolves `.` and `..`, and
/// drops empty components, never escaping above the root.
#[verifier::loop_isolation(false)]
pub fn normalize_path(comps: &Vec<String>) -> (r: Vec<String>)
    ensures
        r.deep_view() == spec_normalize(comps.deep_view()),
{
    let ghost cvs = comps.deep_view();
    let mut out: Vec<String> = Vec::new();
    let n = comps.len();
    proof {
        assert(out.deep_view() =~= Seq::<Seq<char>>::empty());
        assert(cvs.take(0) =~= Seq::<Seq<char>>::empty());
    }
    for i in 0..n
        invariant
            n == comps@.len() == cvs.len(),
            out.deep_view() == spec_normalize(cvs.take(i as int)),
        decreases n - i,
    {
        proof {
            reveal_strlit(".");
            reveal_strlit("..");
            assert(cvs[i as int] == comps@[i as int]@);
            assert(cvs.take(i as int + 1).drop_last() =~= cvs.take(i as int));
            assert(cvs.take(i as int + 1).last() == cvs[i as int]);
        }
        let ghost before = out.deep_view();
        let c = &comps[i];
        if c.as_str().is_empty() || crate::dedup::str_eq(c.as_str(), ".") {
        } else if crate::dedup::str_eq(c.as_str(), "..") {
            if out.len() > 0 {
                out.pop();
                proof {
                    assert(out.deep_view() =~= before.drop_last());
                }
            }
        } else {
            out.push(c.clone());
            proof {
                assert(out.deep_view() =~= before.push(cvs[i as int]));
            }
        }
    }
    proof {
        assert(cvs.take(n as int) =~= cvs);
    }
    out
}

/// How a file should be opened.
#[derive(Debug, Eq, PartialEq, Clone, Copy, Structural)]
pub struct OpenOptions {
    pub read: bool,
    pub write: bool,
    pub create: bool,
    pub append: bool,
}

impl OpenOptions {
    /// Everything off.
    pub fn new() -> (r: OpenOptions)
        ensures
            r == (OpenOptions { read: false, write: false, create: false, append: false }),
    {
        OpenOptions { read: false, write: false, create: false, append: false }
    }

    /// Open for reading only.
    pub fn reading() -> (r: OpenOptions)
        ensures
            r == (OpenOptions { read: true, write: false, create: false, append: false }),
    {
        OpenOptions { read: true, write: false, create: false, append: false }
    }

    /// Open for writing, creating the file first if asked to.
    pub fn writing(create: bool) -> (r: OpenOptions)
        ensures
            r == (OpenOptions { read: false, write: true, create, append: false }),
    {
        OpenOptions { read: false, write: true, create, append: false }
    }

    /// Sets the read flag.
    pub fn read(&mut self, read: bool)
        ensures
            *final(self) == (OpenOptions { read, ..*old(self) }),
    {
        self.read = read;
    }

    /// Sets the write flag.
    pub fn write(&mut self, write: bool)
        ensures
            *final(self) == (OpenOptions { write, ..*old(self) }),
    {
        self.write = write;
    }

    /// Sets the create flag.
    pub fn create(&mut self, create: bool)
        ensures
            *final(self) == (OpenOptions { create, ..*old(self) }),
    {
        self.create = create;
    }

    /// Sets the append flag.
    pub fn append(&mut self, append: bool)
        ensures
            *final(self) == (OpenOptions { append, ..*old(self) }),
    {
        self.append = append;
    }
}

impl Default for OpenOptions {
    /// The default is read-only access.
    fn default() -> (r: OpenOptions)
        ensures
            r == (OpenOptions { read: true, write: false, create: false, append: false }),
    {
        OpenOptions::reading()
    }
}

/// What a directory listing reports about one entry.
#[derive(Debug, Eq, PartialEq, Clone, Copy, Structural)]
pub struct FileInfo {
    pub is_file: bool,
    pub is_dir: bool,
    pub is_symlink: bool,
    pub read_only: bool,
}

impl FileInfo {
    /// Whether the entry is a regular file.
    pub fn is_file(&self) -> (r: bool)
        ensures
            r == self.is_file,
    {
        self.is_file
    }

    /// Whether the entry is a directory.
    pub fn is_dir(&self) -> (r: bool)
        ensures
            r == self.is_dir,
    {
        self.is_dir
    }

    /// Whether the entry is a symbolic link.
    pub fn is_symlink(&self) -> (r: bool)
        ensures
            r == self.is_symlink,
    {
        self.is_symlink
    }

    /// Whether the entry cannot be written to.
    pub fn read_only(&self) -> (r: bool)
        ensures
            r == self.read_only,
    {
        self.read_only
    }
}

/// One entry of a directory listing: its path and its metadata.
#[derive(Debug, PartialEq)]
pub struct DirEntry {
    pub path: String,
    pub info: FileInfo,
}

impl DirEntry {
    /// The entry's path.
    pub fn path(&self) -> (r: &str)
        ensures
            r@ == self.path@,
    {
        self.path.as_str()
    }

    /// The entry's metadata.
    pub fn info(&self) -> (r: FileInfo)
        ensures
            r == self.info,
    {
        self.info
    }
}

/// What kind of source backs a data source.
#[derive(Debug, Eq, PartialEq, Clone, Copy, Structural)]
pub enum DataSourceType {
    Dir,
    Zip,
}

/// What a workspace file is recognized as.
#[derive(Debug, Eq, PartialEq, Clone, Copy, Structural)]
pub enum FileType {
    Language,
    LanguagePart,
    Recipe,
}


/// Where a tree root's bytes come from: a directory or an archive, named
/// by its path.
#[derive(Debug, PartialEq)]
pub enum DataSourceProto {
    Dir(String),
    Zip(String),
}

} // verus!

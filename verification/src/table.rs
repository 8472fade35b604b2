//! An in-memory table of source files: each entry maps a path (with `/` as
//! the separator, relative to the project root) to the file's lines.  The
//! caller reads the files from wherever they live and fills the table; the
//! bundler resolves module declarations against it.

use vstd::prelude::*;

verus! {

/// One source file: its path and its lines (without trailing newlines).
pub struct FileEntry {
    pub path: String,
    pub lines: Vec<String>,
}

/// The specification-level image of one file.
pub ghost struct FileRec {
    pub path: Seq<char>,
    pub lines: Seq<Seq<char>>,
}

impl View for FileEntry {
    type V = FileRec;

    open spec fn view(&self) -> FileRec {
        FileRec { path: self.path@, lines: self.lines.deep_view() }
    }
}

/// The table of files available to a run.
pub struct FileTable {
    pub entries: Vec<FileEntry>,
}

impl View for FileTable {
    type V = Seq<FileRec>;

    open spec fn view(&self) -> Seq<FileRec> {
        self.entries.deep_view()
    }
}

impl DeepView for FileEntry {
    type V = FileRec;

    open spec fn deep_view(&self) -> FileRec {
        self@
    }
}

/// The lines of the file stored under `path`; of two entries with the same
/// path, the one added later wins.
pub open spec fn lookup(fs: Seq<FileRec>, path: Seq<char>) -> Option<Seq<Seq<char>>>
    decreases fs.len(),
{
    if fs.len() == 0 {
        None
    } else if fs.last().path == path {
        Some(fs.last().lines)
    } else {
        lookup(fs.drop_last(), path)
    }
}

/// The length of the longest path in the table; module paths that resolve
/// are strictly shorter, which bounds the depth of any expansion.
pub open spec fn max_path_len(fs: Seq<FileRec>) -> nat
    decreases fs.len(),
{
    if fs.len() == 0 {
        0
    } else if fs.last().path.len() >= max_path_len(fs.drop_last()) {
        fs.last().path.len()
    } else {
        max_path_len(fs.drop_last())
    }
}

pub proof fn lemma_lookup_path_len(fs: Seq<FileRec>, path: Seq<char>)
    ensures
        lookup(fs, path) is Some ==> path.len() <= max_path_len(fs),
    decreases fs.len(),
{
    if fs.len() > 0 && fs.last().path != path {
        lemma_lookup_path_len(fs.drop_last(), path);
    }
}

impl FileTable {
    /// An empty table.
    pub fn new() -> (t: FileTable)
        ensures
            t@ == Seq::<FileRec>::empty(),
    {
        let t = FileTable { entries: Vec::new() };
        proof {
            assert(t@ =~= Seq::<FileRec>::empty());
        }
        t
    }

    /// Add a file under `path`; it shadows any earlier entry with the same
    /// path.
    pub fn add_file(&mut self, path: String, lines: Vec<String>)
        ensures
            final(self)@ == old(self)@.push(
                FileRec { path: path@, lines: lines.deep_view() },
            ),
    {
        let ghost pre = self@;
        let entry = FileEntry { path, lines };
        let ghost rec = entry@;
        self.entries.push(entry);
        proof {
            assert(self@ =~= pre.push(rec));
        }
    }

    /// Look a path up, preferring the latest entry.
    pub fn find(&self, path: &str) -> (r: Option<&Vec<String>>)
        ensures
            match r {
                Some(lines) => lookup(self@, path@) == Some(lines.deep_view()),
                None => lookup(self@, path@) is None,
            },
    {
        let n: usize = self.entries.len();
        proof {
            assert(self@.subrange(0, n as int) =~= self@);
        }
        let mut i: usize = n;
        while i > 0
            invariant
                i <= n,
                n == self.entries.len(),
                lookup(self@, path@) == lookup(self@.subrange(0, i as int), path@),
            decreases i,
        {
            proof {
                assert(self@.subrange(0, i as int).last() == self.entries[i - 1]@);
                assert(self@.subrange(0, i as int).drop_last() =~= self@.subrange(
                    0,
                    i as int - 1,
                ));
            }
            if string_eq_str(&self.entries[i - 1].path, path) {
                return Some(&self.entries[i - 1].lines);
            }
            i = i - 1;
        }
        proof {
            assert(self@.subrange(0, 0) =~= Seq::<FileRec>::empty());
        }
        None
    }
}

/// Character-for-character equality of a `String` and a `&str`.
pub fn string_eq_str(a: &String, b: &str) -> (r: bool)
    ensures
        r == (a@ == b@),
{
    let an: usize = a.as_str().unicode_len();
    let bn: usize = b.unicode_len();
    if an != bn {
        proof {
            assert(a@ != b@);
        }
        return false;
    }
    let mut i: usize = 0;
    while i < an
        invariant
            i <= an,
            an == a@.len(),
            an == b@.len(),
            forall|j: int| 0 <= j < i ==> a@[j] == b@[j],
        decreases an - i,
    {
        if a.as_str().get_char(i) != b.get_char(i) {
            return false;
        }
        i = i + 1;
    }
    proof {
        assert(a@ =~= b@);
    }
    true
}

} // verus!

//! The recursive expander and import rewriter.
//!
//! A `Bundler` walks the entry file's lines; on the library-extern
//! declaration it expands the library root, and from there every declared
//! module, depth-first and in declaration order, wrapping each inlined file
//! in an explicit module block.  A growing skip set elides imports of
//! modules that are already embedded, and a fixed exclusion set keeps
//! configured modules (seeded with `tests`) out of the bundle entirely.

use vstd::prelude::*;
use crate::text::trim_end_spec;
use crate::text::trim_start_spec;
use crate::text::trim_end_line;
use crate::text::trim_start_line;
use crate::classify::LineShape;
use crate::classify::LineKind;
use crate::classify::classify;
use crate::classify::classify_line;
use crate::classify::lemma_mod_capture_nonempty;
use crate::table::FileRec;
use crate::table::FileTable;
use crate::table::lookup;
use crate::table::max_path_len;
use crate::table::lemma_lookup_path_len;
use crate::table::string_eq_str;

verus! {

/// The two fatal outcomes of a run.
#[derive(Clone, Copy, Debug, PartialEq, Eq)]
pub enum BundleError {
    /// An input file could not be found: the entry file, the library root,
    /// or a declared module under either file-layout convention.
    Traversal,
}

/// The fixed configuration of a run, as the specification sees it.
pub ghost struct BundleCfg {
    pub lib_name: Seq<char>,
    pub strip_comments: bool,
    pub minify: bool,
    pub skip_mod: Set<Seq<char>>,
    pub src_dir: Seq<char>,
}

/// A line selected for emission, after optional minification.
pub open spec fn fmt_line(cfg: BundleCfg, l: Seq<char>) -> Seq<char> {
    if cfg.minify {
        trim_start_spec(l)
    } else {
        l
    }
}

/// The opening wrapper line of an inlined module.
pub open spec fn open_marker(m: Seq<char>) -> Seq<char> {
    "pub mod "@ + m + " {"@
}

/// The closing wrapper line of an inlined module.
pub open spec fn close_marker() -> Seq<char> {
    "}"@
}

/// A use-declaration rewritten to a standalone import of its path.
pub open spec fn rewritten_use(p: Seq<char>) -> Seq<char> {
    "use "@ + p + ";"@
}

/// Join a directory and a file name with `/`; an empty directory stands for
/// the current one.
pub open spec fn path_join(dir: Seq<char>, f: Seq<char>) -> Seq<char> {
    if dir.len() == 0 {
        f
    } else {
        dir + "/"@ + f
    }
}

/// Extend a module import path with `::`; empty means the top level.
pub open spec fn import_join(pre: Seq<char>, m: Seq<char>) -> Seq<char> {
    if pre.len() == 0 {
        m
    } else {
        pre + "::"@ + m
    }
}

/// The directory part of a path: everything before the last `/`, or empty.
pub open spec fn parent_dir(p: Seq<char>) -> Seq<char>
    decreases p.len(),
{
    if p.len() == 0 {
        p
    } else if p.last() == '/' {
        p.drop_last()
    } else {
        parent_dir(p.drop_last())
    }
}

/// Resolve a module's source file: first the flat file `<path>.rs`, then
/// the directory-style `<path>/mod.rs`, both under the source directory.
pub open spec fn resolve_module(fs: Seq<FileRec>, cfg: BundleCfg, mod_path: Seq<char>) -> Option<
    Seq<Seq<char>>,
> {
    match lookup(fs, path_join(cfg.src_dir, mod_path + ".rs"@)) {
        Some(ls) => Some(ls),
        None => lookup(fs, path_join(cfg.src_dir, mod_path + "/mod.rs"@)),
    }
}

/// A measure that shrinks as module paths grow: a module path that resolves
/// is at least three characters shorter than the longest path in the table,
/// and each nested module's path is strictly longer than its parent's.
pub open spec fn walk_measure(fs: Seq<FileRec>, mod_path: Seq<char>) -> nat {
    if mod_path.len() <= max_path_len(fs) + 3 {
        (max_path_len(fs) + 3 - mod_path.len()) as nat
    } else {
        0
    }
}

/// A module path that resolves is bounded by the table's longest path.
pub proof fn lemma_resolve_bound(fs: Seq<FileRec>, cfg: BundleCfg, p: Seq<char>)
    ensures
        resolve_module(fs, cfg, p) is Some ==> p.len() + 3 <= max_path_len(fs),
{
    reveal_strlit(".rs");
    reveal_strlit("/mod.rs");
    reveal_strlit("/");
    lemma_lookup_path_len(fs, path_join(cfg.src_dir, p + ".rs"@));
    lemma_lookup_path_len(fs, path_join(cfg.src_dir, p + "/mod.rs"@));
}

/// The walk of one library file's lines from position `i` on, producing the
/// emitted lines and the final skip set, or `None` on a missing module.
///
/// At the top level (an empty `mod_path`, the library root) a module
/// declaration is dropped when its name is in the configured exclusion set;
/// below the root, when its name is literally `tests`.  An expanded module
/// contributes its opening wrapper, its own walked lines and its closing
/// wrapper, and registers its import path in the skip set before its body
/// is scanned.
pub open spec fn walk_lines(
    fs: Seq<FileRec>,
    cfg: BundleCfg,
    skip: Set<Seq<char>>,
    lines: Seq<Seq<char>>,
    i: int,
    mod_path: Seq<char>,
    mod_import: Seq<char>,
) -> Option<(Seq<Seq<char>>, Set<Seq<char>>)>
    decreases walk_measure(fs, mod_path), lines.len() - i,
        when 0 <= i <= lines.len()
        via walk_lines_decreases
{
    if i == lines.len() {
        Some((Seq::empty(), skip))
    } else {
        let l = trim_end_spec(lines[i]);
        let cl = classify_line(l, cfg.lib_name);
        if (cl is Comment || cl is LintSuppress) && cfg.strip_comments {
            walk_lines(fs, cfg, skip, lines, i + 1, mod_path, mod_import)
        } else {
            match cl {
                LineShape::ModDecl { name: m } => {
                    let excluded = if mod_path.len() == 0 {
                        cfg.skip_mod.contains(m)
                    } else {
                        m == "tests"@
                    };
                    if excluded {
                        walk_lines(fs, cfg, skip, lines, i + 1, mod_path, mod_import)
                    } else {
                        let c_path = path_join(mod_path, m);
                        let c_imp = import_join(mod_import, m);
                        match resolve_module(fs, cfg, c_path) {
                            None => None,
                            Some(cls) => match walk_lines(
                                fs,
                                cfg,
                                skip.insert(c_imp),
                                cls,
                                0,
                                c_path,
                                c_imp,
                            ) {
                                None => None,
                                Some(body) => match walk_lines(
                                    fs,
                                    cfg,
                                    body.1,
                                    lines,
                                    i + 1,
                                    mod_path,
                                    mod_import,
                                ) {
                                    None => None,
                                    Some(rest) => Some(
                                        (
                                            seq![open_marker(m)] + body.0 + seq![close_marker()]
                                                + rest.0,
                                            rest.1,
                                        ),
                                    ),
                                },
                            },
                        }
                    }
                },
                _ => match walk_lines(fs, cfg, skip, lines, i + 1, mod_path, mod_import) {
                    None => None,
                    Some(rest) => Some((seq![fmt_line(cfg, l)] + rest.0, rest.1)),
                },
            }
        }
    }
}

#[via_fn]
proof fn walk_lines_decreases(
    fs: Seq<FileRec>,
    cfg: BundleCfg,
    skip: Set<Seq<char>>,
    lines: Seq<Seq<char>>,
    i: int,
    mod_path: Seq<char>,
    mod_import: Seq<char>,
) {
    if 0 <= i < lines.len() {
        let l = trim_end_spec(lines[i]);
        match classify_line(l, cfg.lib_name) {
            LineShape::ModDecl { name: m } => {
                lemma_mod_capture_nonempty(l);
                let c_path = path_join(mod_path, m);
                lemma_resolve_bound(fs, cfg, c_path);
                reveal_strlit("/");
                assert(c_path.len() >= mod_path.len() + m.len());
            },
            _ => {},
        }
    }
}

/// The walk of the entry file's lines from position `i` on.  The
/// library-extern declaration expands to the walked library root; a
/// use-declaration of the library is elided when its captured path is in
/// the skip set and rewritten to a standalone import otherwise; everything
/// else is emitted verbatim, subject to comment stripping and minification.
pub open spec fn walk_entry(
    fs: Seq<FileRec>,
    cfg: BundleCfg,
    skip: Set<Seq<char>>,
    librs_path: Seq<char>,
    lines: Seq<Seq<char>>,
    i: int,
) -> Option<(Seq<Seq<char>>, Set<Seq<char>>)>
    decreases lines.len() - i,
        when 0 <= i <= lines.len()
{
    if i == lines.len() {
        Some((Seq::empty(), skip))
    } else {
        let l = trim_end_spec(lines[i]);
        let cl = classify_line(l, cfg.lib_name);
        if (cl is Comment || cl is LintSuppress) && cfg.strip_comments {
            walk_entry(fs, cfg, skip, librs_path, lines, i + 1)
        } else {
            match cl {
                LineShape::ExternDecl => match lookup(fs, librs_path) {
                    None => None,
                    Some(rl) => match walk_lines(
                        fs,
                        cfg,
                        skip,
                        rl,
                        0,
                        Seq::empty(),
                        Seq::empty(),
                    ) {
                        None => None,
                        Some(emb) => match walk_entry(fs, cfg, emb.1, librs_path, lines, i + 1) {
                            None => None,
                            Some(rest) => Some((emb.0 + rest.0, rest.1)),
                        },
                    },
                },
                LineShape::UseDecl { path } => if skip.contains(path) {
                    walk_entry(fs, cfg, skip, librs_path, lines, i + 1)
                } else {
                    match walk_entry(fs, cfg, skip, librs_path, lines, i + 1) {
                        None => None,
                        Some(rest) => Some((seq![rewritten_use(path)] + rest.0, rest.1)),
                    }
                },
                _ => match walk_entry(fs, cfg, skip, librs_path, lines, i + 1) {
                    None => None,
                    Some(rest) => Some((seq![fmt_line(cfg, l)] + rest.0, rest.1)),
                },
            }
        }
    }
}

/// The state of one bundling run: the fixed file locations, the library
/// name, the two skip sets and the output toggles.
pub struct Bundler {
    pub binrs_filename: String,
    pub bundle_filename: String,
    pub librs_filename: String,
    pub lib_name: String,
    pub skip_use: Vec<String>,
    pub skip_mod: Vec<String>,
    pub strip_comments: bool,
    pub minify: bool,
}

impl Bundler {
    /// The fixed configuration this state denotes.
    pub open spec fn cfg(self) -> BundleCfg {
        BundleCfg {
            lib_name: self.lib_name@,
            strip_comments: self.strip_comments,
            minify: self.minify,
            skip_mod: self.skip_mod.deep_view().to_set(),
            src_dir: parent_dir(self.librs_filename@),
        }
    }

    /// The set of import paths that are elided from output.
    pub open spec fn skip_use_set(self) -> Set<Seq<char>> {
        self.skip_use.deep_view().to_set()
    }

    /// Everything except the growing skip set is unchanged.
    pub open spec fn same_config(self, o: Bundler) -> bool {
        &&& self.binrs_filename@ == o.binrs_filename@
        &&& self.bundle_filename@ == o.bundle_filename@
        &&& self.librs_filename@ == o.librs_filename@
        &&& self.lib_name@ == o.lib_name@
        &&& self.skip_mod.deep_view() == o.skip_mod.deep_view()
        &&& self.strip_comments == o.strip_comments
        &&& self.minify == o.minify
    }

    /// What a run returns: the bundle's lines and the final skip set, or
    /// `None` when the entry file, the library root or a declared module
    /// cannot be found.
    pub open spec fn bundle_result(self, fs: Seq<FileRec>) -> Option<
        (Seq<Seq<char>>, Set<Seq<char>>),
    > {
        match lookup(fs, self.binrs_filename@) {
            None => None,
            Some(el) => walk_entry(
                fs,
                self.cfg(),
                self.skip_use_set(),
                self.librs_filename@,
                el,
                0,
            ),
        }
    }

    /// A bundler for an entry file and an output location, with the library
    /// root at the conventional `src/lib.rs`.
    pub fn new(binrs_filename: String, bundle_filename: String) -> (b: Bundler)
        ensures
            b.binrs_filename@ == binrs_filename@,
            b.bundle_filename@ == bundle_filename@,
            b.librs_filename@ == "src/lib.rs"@,
            b.lib_name@ == Seq::<char>::empty(),
            b.skip_use_set() == Set::<Seq<char>>::empty().insert("*"@),
            b.cfg().skip_mod == Set::<Seq<char>>::empty().insert("tests"@),
            b.strip_comments == true,
            b.minify == false,
    {
        Bundler::new_with_librs(binrs_filename, bundle_filename, String::from_str("src/lib.rs"))
    }

    /// A bundler with an explicit library root path.  Comment stripping
    /// starts enabled, minification disabled; the skip set is seeded with
    /// the wildcard import and the module exclusions with `tests`.
    pub fn new_with_librs(
        binrs_filename: String,
        bundle_filename: String,
        librs_filename: String,
    ) -> (b: Bundler)
        ensures
            b.binrs_filename@ == binrs_filename@,
            b.bundle_filename@ == bundle_filename@,
            b.librs_filename@ == librs_filename@,
            b.lib_name@ == Seq::<char>::empty(),
            b.skip_use_set() == Set::<Seq<char>>::empty().insert("*"@),
            b.cfg().skip_mod == Set::<Seq<char>>::empty().insert("tests"@),
            b.strip_comments == true,
            b.minify == false,
    {
        let mut skip_use: Vec<String> = Vec::new();
        skip_use.push(String::from_str("*"));
        let mut skip_mod: Vec<String> = Vec::new();
        skip_mod.push(String::from_str("tests"));
        let b = Bundler {
            binrs_filename,
            bundle_filename,
            librs_filename,
            lib_name: String::new(),
            skip_use,
            skip_mod,
            strip_comments: true,
            minify: false,
        };
        proof {
            reveal_strlit("");
            assert(b.lib_name@ =~= Seq::<char>::empty());
            assert(b.skip_use.deep_view() =~= Seq::<Seq<char>>::empty().push("*"@));
            assert(b.skip_mod.deep_view() =~= Seq::<Seq<char>>::empty().push("tests"@));
            assert(Seq::<Seq<char>>::empty().to_set() =~= Set::<Seq<char>>::empty());
            lemma_push_to_set(Seq::<Seq<char>>::empty(), "*"@);
            lemma_push_to_set(Seq::<Seq<char>>::empty(), "tests"@);
            assert(b.skip_use_set() =~= Set::<Seq<char>>::empty().insert("*"@));
            assert(b.cfg().skip_mod =~= Set::<Seq<char>>::empty().insert("tests"@));
        }
        b
    }

    /// Exclude a module name from inlining for the coming run.
    pub fn exclude_mod(&mut self, mod_name: String)
        ensures
            final(self).cfg().skip_mod == old(self).cfg().skip_mod.insert(mod_name@),
            final(self).skip_use_set() == old(self).skip_use_set(),
            final(self).binrs_filename@ == old(self).binrs_filename@,
            final(self).bundle_filename@ == old(self).bundle_filename@,
            final(self).librs_filename@ == old(self).librs_filename@,
            final(self).lib_name@ == old(self).lib_name@,
            final(self).strip_comments == old(self).strip_comments,
            final(self).minify == old(self).minify,
    {
        let ghost pre = self.skip_mod.deep_view();
        let ghost m = mod_name@;
        self.skip_mod.push(mod_name);
        proof {
            assert(self.skip_mod.deep_view() =~= pre.push(m));
            lemma_push_to_set(pre, m);
        }
    }

    /// Turn whitespace minification of emitted lines on or off.
    pub fn minify_set(&mut self, enable: bool)
        ensures
            *final(self) == (Bundler { minify: enable, ..*old(self) }),
    {
        self.minify = enable;
    }

    /// Turn stripping of blank, comment and lint-suppression lines on or
    /// off.
    pub fn strip_comments_set(&mut self, enable: bool)
        ensures
            *final(self) == (Bundler { strip_comments: enable, ..*old(self) }),
    {
        self.strip_comments = enable;
    }

    /// Set the library name recognized in extern- and use-declarations.
    pub fn crate_name(&mut self, name: String)
        ensures
            *final(self) == (Bundler { lib_name: name, ..*old(self) }),
    {
        self.lib_name = name;
    }
}

/// Pushing onto the list behind a skip set inserts into the set.
proof fn lemma_push_to_set(s: Seq<Seq<char>>, x: Seq<char>)
    ensures
        s.push(x).to_set() == s.to_set().insert(x),
{
    assert forall|e: Seq<char>| s.push(x).to_set().contains(e) implies s.to_set().insert(
        x,
    ).contains(e) by {
        let i = choose|i: int| 0 <= i < s.push(x).len() && s.push(x)[i] == e;
        if i < s.len() {
            assert(s[i] == e);
        }
    }
    assert forall|e: Seq<char>| s.to_set().insert(x).contains(e) implies s.push(x).to_set().contains(
        e,
    ) by {
        if e == x {
            assert(s.push(x)[s.len() as int] == e);
        } else {
            let i = choose|i: int| 0 <= i < s.len() && s[i] == e;
            assert(s.push(x)[i] == e);
        }
    }
    assert(s.push(x).to_set() =~= s.to_set().insert(x));
}


/// Append one line to the output, tracked at the view level.
fn push_line(out: &mut Vec<String>, s: String)
    ensures
        final(out).deep_view() == old(out).deep_view().push(s@),
{
    let ghost pre = out.deep_view();
    let ghost x = s@;
    out.push(s);
    proof {
        assert(out.deep_view() =~= pre.push(x));
    }
}

fn make_open_marker(m: &str) -> (r: String)
    ensures
        r@ == open_marker(m@),
{
    let mut t: String = String::from_str("pub mod ");
    t.append(m);
    t.append(" {");
    t
}

fn make_close_marker() -> (r: String)
    ensures
        r@ == close_marker(),
{
    String::from_str("}")
}

fn make_use_line(p: &str) -> (r: String)
    ensures
        r@ == rewritten_use(p@),
{
    let mut t: String = String::from_str("use ");
    t.append(p);
    t.append(";");
    t
}

fn join_path_exec(dir: &str, f: &str) -> (r: String)
    ensures
        r@ == path_join(dir@, f@),
{
    if dir.is_empty() {
        f.to_owned()
    } else {
        let mut t: String = String::from_str(dir);
        t.append("/");
        t.append(f);
        t
    }
}

fn join_import_exec(pre: &str, m: &str) -> (r: String)
    ensures
        r@ == import_join(pre@, m@),
{
    if pre.is_empty() {
        m.to_owned()
    } else {
        let mut t: String = String::from_str(pre);
        t.append("::");
        t.append(m);
        t
    }
}

proof fn lemma_parent_dir_at(p: Seq<char>, j: int)
    requires
        0 <= j < p.len(),
        p[j] == '/',
        forall|t: int| j < t < p.len() ==> p[t] != '/',
    ensures
        parent_dir(p) == p.subrange(0, j),
    decreases p.len(),
{
    if j == p.len() - 1 {
        assert(p.drop_last() =~= p.subrange(0, j));
    } else {
        assert(p.last() != '/');
        lemma_parent_dir_at(p.drop_last(), j);
        assert(p.drop_last().subrange(0, j) =~= p.subrange(0, j));
    }
}

proof fn lemma_parent_dir_none(p: Seq<char>)
    requires
        forall|t: int| 0 <= t < p.len() ==> p[t] != '/',
    ensures
        parent_dir(p) == Seq::<char>::empty(),
    decreases p.len(),
{
    if p.len() == 0 {
        assert(p =~= Seq::<char>::empty());
    } else {
        lemma_parent_dir_none(p.drop_last());
    }
}

/// The directory part of a path, with `/` as the separator.
pub fn parent_dir_exec(p: &str) -> (r: String)
    ensures
        r@ == parent_dir(p@),
{
    let n: usize = p.unicode_len();
    let mut k: usize = n;
    while k > 0
        invariant
            k <= n,
            n == p@.len(),
            forall|t: int| k <= t < n ==> p@[t] != '/',
        decreases k,
    {
        if p.get_char(k - 1) == '/' {
            proof {
                lemma_parent_dir_at(p@, k - 1);
            }
            return p.substring_char(0, k - 1).to_owned();
        }
        k = k - 1;
    }
    proof {
        lemma_parent_dir_none(p@);
        reveal_strlit("");
        assert(""@ =~= Seq::<char>::empty());
    }
    String::new()
}

fn list_contains(v: &Vec<String>, x: &str) -> (b: bool)
    ensures
        b == v.deep_view().to_set().contains(x@),
{
    let n: usize = v.len();
    let mut i: usize = 0;
    while i < n
        invariant
            i <= n,
            n == v.len(),
            forall|j: int| 0 <= j < i ==> v.deep_view()[j] != x@,
        decreases n - i,
    {
        if string_eq_str(&v[i], x) {
            proof {
                assert(v.deep_view()[i as int] == x@);
                assert(v.deep_view().contains(x@));
            }
            return true;
        }
        i = i + 1;
    }
    proof {
        assert(!v.deep_view().contains(x@));
    }
    false
}

impl Bundler {
    fn register_skip(&mut self, p: String)
        ensures
            final(self).skip_use_set() == old(self).skip_use_set().insert(p@),
            final(self).same_config(*old(self)),
    {
        let ghost pre = self.skip_use.deep_view();
        let ghost x = p@;
        self.skip_use.push(p);
        proof {
            assert(self.skip_use.deep_view() =~= pre.push(x));
            lemma_push_to_set(pre, x);
        }
    }

    fn format_line(&self, l: String) -> (r: String)
        ensures
            r@ == fmt_line(self.cfg(), l@),
    {
        if self.minify {
            trim_start_line(l.as_str())
        } else {
            l
        }
    }

    #[verifier::rlimit(100)]
    fn expand_lines(
        &mut self,
        fs: &FileTable,
        lines: &Vec<String>,
        mod_path: &str,
        mod_import: &str,
        src_dir: &str,
        out: &mut Vec<String>,
    ) -> (r: Result<(), BundleError>)
        requires
            src_dir@ == old(self).cfg().src_dir,
        ensures
            final(self).same_config(*old(self)),
            (match walk_lines(
                fs@,
                old(self).cfg(),
                old(self).skip_use_set(),
                lines.deep_view(),
                0,
                mod_path@,
                mod_import@,
            ) {
                Some(res) => (match r {
                    Ok(_) => final(out).deep_view() == old(out).deep_view() + res.0
                        && final(self).skip_use_set() == res.1,
                    Err(_) => false,
                }),
                None => (match r {
                    Ok(_) => false,
                    Err(_) => true,
                }),
            }),
        decreases walk_measure(fs@, mod_path@),
    {
        let ghost cfg = old(self).cfg();
        let ghost skip0 = old(self).skip_use_set();
        let ghost ldv = lines.deep_view();
        let ghost pp = mod_path@;
        let ghost imp = mod_import@;
        let ghost full = walk_lines(fs@, cfg, skip0, ldv, 0, pp, imp);
        let ghost out0 = out.deep_view();
        let ghost mut done: Seq<Seq<char>> = Seq::empty();
        let n: usize = lines.len();
        proof {
            assert(ldv.len() == n);
        }
        let mut i: usize = 0;
        proof {
            assert(out.deep_view() =~= out0 + done);
        }
        while i < n
            invariant
                i <= n,
                n == lines.len(),
                ldv == lines.deep_view(),
                ldv.len() == n,
                pp == mod_path@,
                imp == mod_import@,
                src_dir@ == cfg.src_dir,
                cfg == old(self).cfg(),
                skip0 == old(self).skip_use_set(),
                full == walk_lines(fs@, cfg, skip0, ldv, 0, pp, imp),
                self.same_config(*old(self)),
                self.cfg() == cfg,
                out.deep_view() == out0 + done,
                (match walk_lines(fs@, cfg, self.skip_use_set(), ldv, i as int, pp, imp) {
                    Some(res) => full == Some((done + res.0, res.1)),
                    None => full is None,
                }),
            decreases n - i,
        {
            let ghost skip_here = self.skip_use_set();
            let ghost cur = walk_lines(fs@, cfg, skip_here, ldv, i as int, pp, imp);
            let l: String = trim_end_line(lines[i].as_str());
            let ghost lv = trim_end_spec(ldv[i as int]);
            proof {
                assert(lines[i as int].deep_view() == ldv[i as int]);
                assert(l@ == lv);
            }
            let k: LineKind = classify(l.as_str(), self.lib_name.as_str());
            proof {
                assert(k@ == classify_line(lv, cfg.lib_name));
            }
            let is_comment: bool = match k {
                LineKind::Comment => true,
                LineKind::LintSuppress => true,
                _ => false,
            };
            if is_comment && self.strip_comments {
                proof {
                    assert(cur == walk_lines(fs@, cfg, skip_here, ldv, i + 1, pp, imp));
                }
            } else {
                match k {
                    LineKind::ModDecl { name: m } => {
                        let root_level: bool = mod_path.is_empty();
                        let in_list: bool = list_contains(&self.skip_mod, m.as_str());
                        let is_tests: bool = string_eq_str(&m, "tests");
                        let excluded: bool = if root_level {
                            in_list
                        } else {
                            is_tests
                        };
                        proof {
                            assert(self.skip_mod.deep_view().to_set() == cfg.skip_mod);
                            assert(root_level == (pp.len() == 0));
                            assert(in_list == cfg.skip_mod.contains(m@));
                            assert(is_tests == (m@ == "tests"@));
                        }
                        if excluded {
                            proof {
                                assert(cur == walk_lines(fs@, cfg, skip_here, ldv, i as int + 1, pp, imp));
                            }
                        } else {
                            let c_path: String = join_path_exec(mod_path, m.as_str());
                            let c_imp: String = join_import_exec(mod_import, m.as_str());
                            let mut f1: String = String::from_str(c_path.as_str());
                            f1.append(".rs");
                            let key1: String = join_path_exec(src_dir, f1.as_str());
                            let mut found: Option<&Vec<String>> = fs.find(key1.as_str());
                            if found.is_none() {
                                let mut f2: String = String::from_str(c_path.as_str());
                                f2.append("/mod.rs");
                                let key2: String = join_path_exec(src_dir, f2.as_str());
                                found = fs.find(key2.as_str());
                            }
                            match found {
                                None => {
                                    proof {
                                        assert(resolve_module(fs@, cfg, c_path@) is None);
                                        assert(cur is None);
                                        assert(full is None);
                                    }
                                    return Err(BundleError::Traversal);
                                },
                                Some(child) => {
                                    proof {
                                        assert(resolve_module(fs@, cfg, c_path@) == Some(
                                            child.deep_view(),
                                        ));
                                    }
                                    push_line(out, make_open_marker(m.as_str()));
                                    let c_imp_entry: String = c_imp.clone();
                                    self.register_skip(c_imp_entry);
                                    let ghost skip_in = self.skip_use_set();
                                    let ghost body = walk_lines(
                                        fs@,
                                        cfg,
                                        skip_in,
                                        child.deep_view(),
                                        0,
                                        c_path@,
                                        c_imp@,
                                    );
                                    proof {
                                        assert(skip_in == skip_here.insert(c_imp@));
                                        lemma_mod_capture_nonempty(lv);
                                        lemma_resolve_bound(fs@, cfg, c_path@);
                                        reveal_strlit("/");
                                        assert(c_path@.len() >= pp.len() + m@.len());
                                        assert(walk_measure(fs@, c_path@) < walk_measure(fs@, pp));
                                    }
                                    let rr = self.expand_lines(
                                        fs,
                                        child,
                                        c_path.as_str(),
                                        c_imp.as_str(),
                                        src_dir,
                                        out,
                                    );
                                    match rr {
                                        Err(e) => {
                                            proof {
                                                assert(body is None);
                                                assert(cur is None);
                                                assert(full is None);
                                            }
                                            return Err(e);
                                        },
                                        Ok(_) => {},
                                    }
                                    push_line(out, make_close_marker());
                                    proof {
                                        let bres = body->Some_0;
                                        let ghost a = seq![open_marker(m@)];
                                        let ghost c = seq![close_marker()];
                                        let ghost done_pre = done;
                                        assert(self.skip_use_set() == bres.1);
                                        done = done_pre + a + bres.0 + c;
                                        assert(out.deep_view() =~= out0 + done);
                                        let nxt = walk_lines(fs@, cfg, bres.1, ldv, i as int + 1, pp, imp);
                                        match nxt {
                                            Some(res) => {
                                                assert(cur == Some((a + bres.0 + c + res.0, res.1)));
                                                assert(done_pre + (a + bres.0 + c + res.0) =~= done
                                                    + res.0);
                                                assert(full == Some((done + res.0, res.1)));
                                            },
                                            None => {
                                                assert(cur is None);
                                                assert(full is None);
                                            },
                                        }
                                    }
                                },
                            }
                        }
                    },
                    _ => {
                        let formatted: String = self.format_line(l);
                        push_line(out, formatted);
                        proof {
                            let nxt = walk_lines(fs@, cfg, skip_here, ldv, i + 1, pp, imp);
                            match nxt {
                                Some(res) => {
                                    assert(cur == Some((seq![fmt_line(cfg, lv)] + res.0, res.1)));
                                    assert(done + (seq![fmt_line(cfg, lv)] + res.0) =~= (done
                                        + seq![fmt_line(cfg, lv)]) + res.0);
                                },
                                None => {},
                            }
                            done = done + seq![fmt_line(cfg, lv)];
                            assert(out.deep_view() =~= out0 + done);
                        }
                    },
                }
            }
            i = i + 1;
        }
        proof {
            let fin = walk_lines(fs@, cfg, self.skip_use_set(), ldv, n as int, pp, imp);
            assert(fin == Some((Seq::<Seq<char>>::empty(), self.skip_use_set())));
            assert(done + Seq::<Seq<char>>::empty() =~= done);
            assert(full == Some((done, self.skip_use_set())));
        }
        Ok(())
    }
}






impl Bundler {
    #[verifier::rlimit(100)]
    fn expand_entry(
        &mut self,
        fs: &FileTable,
        lines: &Vec<String>,
        src_dir: &str,
        out: &mut Vec<String>,
    ) -> (r: Result<(), BundleError>)
        requires
            src_dir@ == old(self).cfg().src_dir,
        ensures
            final(self).same_config(*old(self)),
            (match walk_entry(
                fs@,
                old(self).cfg(),
                old(self).skip_use_set(),
                old(self).librs_filename@,
                lines.deep_view(),
                0,
            ) {
                Some(res) => (match r {
                    Ok(_) => final(out).deep_view() == old(out).deep_view() + res.0
                        && final(self).skip_use_set() == res.1,
                    Err(_) => false,
                }),
                None => (match r {
                    Ok(_) => false,
                    Err(_) => true,
                }),
            }),
    {
        let ghost cfg = old(self).cfg();
        let ghost skip0 = old(self).skip_use_set();
        let ghost ldv = lines.deep_view();
        let ghost lp = old(self).librs_filename@;
        let ghost full = walk_entry(fs@, cfg, skip0, lp, ldv, 0);
        let ghost out0 = out.deep_view();
        let ghost mut done: Seq<Seq<char>> = Seq::empty();
        let n: usize = lines.len();
        let mut i: usize = 0;
        proof {
            assert(ldv.len() == n);
            assert(out.deep_view() =~= out0 + done);
        }
        while i < n
            invariant
                i <= n,
                n == lines.len(),
                ldv == lines.deep_view(),
                ldv.len() == n,
                lp == old(self).librs_filename@,
                src_dir@ == cfg.src_dir,
                cfg == old(self).cfg(),
                skip0 == old(self).skip_use_set(),
                full == walk_entry(fs@, cfg, skip0, lp, ldv, 0),
                self.same_config(*old(self)),
                self.cfg() == cfg,
                out.deep_view() == out0 + done,
                (match walk_entry(fs@, cfg, self.skip_use_set(), lp, ldv, i as int) {
                    Some(res) => full == Some((done + res.0, res.1)),
                    None => full is None,
                }),
            decreases n - i,
        {
            let ghost skip_here = self.skip_use_set();
            let ghost cur = walk_entry(fs@, cfg, skip_here, lp, ldv, i as int);
            let l: String = trim_end_line(lines[i].as_str());
            let ghost lv = trim_end_spec(ldv[i as int]);
            proof {
                assert(lines[i as int].deep_view() == ldv[i as int]);
                assert(l@ == lv);
            }
            let k: LineKind = classify(l.as_str(), self.lib_name.as_str());
            proof {
                assert(k@ == classify_line(lv, cfg.lib_name));
            }
            let is_comment: bool = match k {
                LineKind::Comment => true,
                LineKind::LintSuppress => true,
                _ => false,
            };
            if is_comment && self.strip_comments {
            } else {
                match k {
                    LineKind::ExternDecl => {
                        let root = fs.find(self.librs_filename.as_str());
                        match root {
                            None => {
                                proof {
                                    assert(cur is None);
                                    assert(full is None);
                                }
                                return Err(BundleError::Traversal);
                            },
                            Some(rl) => {
                                let ghost emb = walk_lines(
                                    fs@,
                                    cfg,
                                    skip_here,
                                    rl.deep_view(),
                                    0,
                                    Seq::empty(),
                                    Seq::empty(),
                                );
                                proof {
                                    reveal_strlit("");
                                    assert(""@ =~= Seq::<char>::empty());
                                }
                                let rr = self.expand_lines(fs, rl, "", "", src_dir, out);
                                match rr {
                                    Err(e) => {
                                        proof {
                                            assert(emb is None);
                                            assert(cur is None);
                                            assert(full is None);
                                        }
                                        return Err(e);
                                    },
                                    Ok(_) => {},
                                }
                                proof {
                                    let eres = emb->Some_0;
                                    let ghost done_pre = done;
                                    assert(self.skip_use_set() == eres.1);
                                    done = done_pre + eres.0;
                                    assert(out.deep_view() =~= out0 + done);
                                    let nxt = walk_entry(fs@, cfg, eres.1, lp, ldv, i as int + 1);
                                    match nxt {
                                        Some(res) => {
                                            assert(cur == Some((eres.0 + res.0, res.1)));
                                            assert(done_pre + (eres.0 + res.0) =~= done + res.0);
                                            assert(full == Some((done + res.0, res.1)));
                                        },
                                        None => {
                                            assert(cur is None);
                                            assert(full is None);
                                        },
                                    }
                                }
                            },
                        }
                    },
                    LineKind::UseDecl { path: pth } => {
                        let skipped: bool = list_contains(&self.skip_use, pth.as_str());
                        proof {
                            assert(skipped == skip_here.contains(pth@));
                        }
                        if skipped {
                        } else {
                            push_line(out, make_use_line(pth.as_str()));
                            proof {
                                let nxt = walk_entry(fs@, cfg, skip_here, lp, ldv, i as int + 1);
                                match nxt {
                                    Some(res) => {
                                        assert(cur == Some(
                                            (seq![rewritten_use(pth@)] + res.0, res.1),
                                        ));
                                        assert(done + (seq![rewritten_use(pth@)] + res.0) =~= (done
                                            + seq![rewritten_use(pth@)]) + res.0);
                                    },
                                    None => {},
                                }
                                done = done + seq![rewritten_use(pth@)];
                                assert(out.deep_view() =~= out0 + done);
                            }
                        }
                    },
                    _ => {
                        let formatted: String = self.format_line(l);
                        push_line(out, formatted);
                        proof {
                            let nxt = walk_entry(fs@, cfg, skip_here, lp, ldv, i as int + 1);
                            match nxt {
                                Some(res) => {
                                    assert(cur == Some((seq![fmt_line(cfg, lv)] + res.0, res.1)));
                                    assert(done + (seq![fmt_line(cfg, lv)] + res.0) =~= (done
                                        + seq![fmt_line(cfg, lv)]) + res.0);
                                },
                                None => {},
                            }
                            done = done + seq![fmt_line(cfg, lv)];
                            assert(out.deep_view() =~= out0 + done);
                        }
                    },
                }
            }
            i = i + 1;
        }
        proof {
            let fin = walk_entry(fs@, cfg, self.skip_use_set(), lp, ldv, n as int);
            assert(fin == Some((Seq::<Seq<char>>::empty(), self.skip_use_set())));
            assert(done + Seq::<Seq<char>>::empty() =~= done);
            assert(full == Some((done, self.skip_use_set())));
        }
        Ok(())
    }

    /// Run the bundler against a table of files: look the entry file up,
    /// expand it, and return the bundle's lines.  Returns the traversal
    /// error exactly when the entry file, the library root or a declared
    /// module cannot be found; the skip set then may hold a partial run's
    /// registrations.
    pub fn run(&mut self, fs: &FileTable) -> (r: Result<Vec<String>, BundleError>)
        ensures
            final(self).same_config(*old(self)),
            (match old(self).bundle_result(fs@) {
                Some(res) => (match r {
                    Ok(v) => v.deep_view() == res.0 && final(self).skip_use_set() == res.1,
                    Err(_) => false,
                }),
                None => (match r {
                    Ok(_) => false,
                    Err(_) => true,
                }),
            }),
    {
        let src_dir: String = parent_dir_exec(self.librs_filename.as_str());
        let entry = match fs.find(self.binrs_filename.as_str()) {
            None => {
                return Err(BundleError::Traversal);
            },
            Some(e) => e,
        };
        let mut out: Vec<String> = Vec::new();
        proof {
            assert(out.deep_view() =~= Seq::<Seq<char>>::empty());
        }
        let ghost pre_out = out.deep_view();
        match self.expand_entry(fs, entry, src_dir.as_str(), &mut out) {
            Ok(_) => {
                proof {
                    let res = old(self).bundle_result(fs@)->Some_0;
                    assert(out.deep_view() =~= pre_out + res.0);
                    assert(pre_out + res.0 =~= res.0);
                }
                Ok(out)
            },
            Err(e) => Err(e),
        }
    }
}

} // verus!

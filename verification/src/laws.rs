//! Laws of the expansion: properties that hold of every run, proved once
//! and for all over the walk specifications.

use vstd::prelude::*;
use crate::text::trim_end_spec;
use crate::classify::LineShape;
use crate::classify::classify_line;
use crate::classify::lemma_mod_capture_nonempty;
use crate::table::FileRec;
use crate::bundle::BundleCfg;
use crate::bundle::walk_lines;
use crate::bundle::walk_entry;
use crate::bundle::walk_measure;
use crate::bundle::resolve_module;
use crate::bundle::path_join;
use crate::bundle::import_join;
use crate::bundle::open_marker;
use crate::bundle::close_marker;
use crate::bundle::lemma_resolve_bound;

verus! {

/// The skip set only grows: whatever a library-file walk returns, every
/// import path that was suppressed when it started is still suppressed when
/// it ends.
pub proof fn lemma_skip_monotonic_lines(
    fs: Seq<FileRec>,
    cfg: BundleCfg,
    skip: Set<Seq<char>>,
    lines: Seq<Seq<char>>,
    i: int,
    mod_path: Seq<char>,
    mod_import: Seq<char>,
)
    requires
        0 <= i <= lines.len(),
    ensures
        (match walk_lines(fs, cfg, skip, lines, i, mod_path, mod_import) {
            Some(res) => skip.subset_of(res.1),
            None => true,
        }),
    decreases walk_measure(fs, mod_path), lines.len() - i,
{
    if i < lines.len() {
        let l = trim_end_spec(lines[i]);
        let cl = classify_line(l, cfg.lib_name);
        if (cl is Comment || cl is LintSuppress) && cfg.strip_comments {
            lemma_skip_monotonic_lines(fs, cfg, skip, lines, i + 1, mod_path, mod_import);
        } else {
            match cl {
                LineShape::ModDecl { name: m } => {
                    let excluded = if mod_path.len() == 0 {
                        cfg.skip_mod.contains(m)
                    } else {
                        m == "tests"@
                    };
                    if excluded {
                        lemma_skip_monotonic_lines(fs, cfg, skip, lines, i + 1, mod_path, mod_import);
                    } else {
                        let c_path = path_join(mod_path, m);
                        let c_imp = import_join(mod_import, m);
                        match resolve_module(fs, cfg, c_path) {
                            None => {},
                            Some(cls) => {
                                lemma_mod_capture_nonempty(l);
                                lemma_resolve_bound(fs, cfg, c_path);
                                reveal_strlit("/");
                                assert(c_path.len() >= mod_path.len() + m.len());
                                lemma_skip_monotonic_lines(
                                    fs,
                                    cfg,
                                    skip.insert(c_imp),
                                    cls,
                                    0,
                                    c_path,
                                    c_imp,
                                );
                                match walk_lines(fs, cfg, skip.insert(c_imp), cls, 0, c_path, c_imp) {
                                    None => {},
                                    Some(body) => {
                                        lemma_skip_monotonic_lines(
                                            fs,
                                            cfg,
                                            body.1,
                                            lines,
                                            i + 1,
                                            mod_path,
                                            mod_import,
                                        );
                                        assert(skip.subset_of(skip.insert(c_imp)));
                                    },
                                }
                            },
                        }
                    }
                },
                _ => {
                    lemma_skip_monotonic_lines(fs, cfg, skip, lines, i + 1, mod_path, mod_import);
                },
            }
        }
    }
}

/// The skip set only grows over the whole run: whatever the entry walk
/// returns, every import path suppressed at its start, the wildcard
/// included, is suppressed to the end.
pub proof fn lemma_skip_monotonic_entry(
    fs: Seq<FileRec>,
    cfg: BundleCfg,
    skip: Set<Seq<char>>,
    librs_path: Seq<char>,
    lines: Seq<Seq<char>>,
    i: int,
)
    requires
        0 <= i <= lines.len(),
    ensures
        (match walk_entry(fs, cfg, skip, librs_path, lines, i) {
            Some(res) => skip.subset_of(res.1),
            None => true,
        }),
    decreases lines.len() - i,
{
    if i < lines.len() {
        let l = trim_end_spec(lines[i]);
        let cl = classify_line(l, cfg.lib_name);
        if (cl is Comment || cl is LintSuppress) && cfg.strip_comments {
            lemma_skip_monotonic_entry(fs, cfg, skip, librs_path, lines, i + 1);
        } else {
            match cl {
                LineShape::ExternDecl => {
                    match crate::table::lookup(fs, librs_path) {
                        None => {},
                        Some(rl) => {
                            lemma_skip_monotonic_lines(
                                fs,
                                cfg,
                                skip,
                                rl,
                                0,
                                Seq::empty(),
                                Seq::empty(),
                            );
                            match walk_lines(fs, cfg, skip, rl, 0, Seq::empty(), Seq::empty()) {
                                None => {},
                                Some(emb) => {
                                    lemma_skip_monotonic_entry(
                                        fs,
                                        cfg,
                                        emb.1,
                                        librs_path,
                                        lines,
                                        i + 1,
                                    );
                                },
                            }
                        },
                    }
                },
                _ => {
                    lemma_skip_monotonic_entry(fs, cfg, skip, librs_path, lines, i + 1);
                },
            }
        }
    }
}

/// Suppression: a use-declaration whose captured path is already in the
/// skip set is elided, contributing nothing to the output and nothing to
/// the skip set.  With monotonicity this says that once a path enters the
/// set, no later use-declaration of that exact path is ever emitted.
pub proof fn lemma_use_decl_suppressed(
    fs: Seq<FileRec>,
    cfg: BundleCfg,
    skip: Set<Seq<char>>,
    librs_path: Seq<char>,
    lines: Seq<Seq<char>>,
    i: int,
    p: Seq<char>,
)
    requires
        0 <= i < lines.len(),
        classify_line(trim_end_spec(lines[i]), cfg.lib_name) == (LineShape::UseDecl { path: p }),
        skip.contains(p),
    ensures
        walk_entry(fs, cfg, skip, librs_path, lines, i) == walk_entry(
            fs,
            cfg,
            skip,
            librs_path,
            lines,
            i + 1,
        ),
{
}

/// Wildcard suppression: a use-declaration capturing `*` is always elided
/// when the wildcard is in the skip set, where every run's construction
/// puts it — and this holds whatever the configured module exclusions are.
pub proof fn lemma_wildcard_suppressed(
    fs: Seq<FileRec>,
    cfg: BundleCfg,
    skip: Set<Seq<char>>,
    librs_path: Seq<char>,
    lines: Seq<Seq<char>>,
    i: int,
)
    requires
        0 <= i < lines.len(),
        classify_line(trim_end_spec(lines[i]), cfg.lib_name) == (LineShape::UseDecl {
            path: "*"@,
        }),
        skip.contains("*"@),
    ensures
        walk_entry(fs, cfg, skip, librs_path, lines, i) == walk_entry(
            fs,
            cfg,
            skip,
            librs_path,
            lines,
            i + 1,
        ),
{
    lemma_use_decl_suppressed(fs, cfg, skip, librs_path, lines, i, "*"@);
}

/// Test-module exclusion below the root: a module declaration literally
/// naming `tests` is never expanded and never registered in the skip set,
/// regardless of the configured exclusion list.
pub proof fn lemma_tests_never_inlined(
    fs: Seq<FileRec>,
    cfg: BundleCfg,
    skip: Set<Seq<char>>,
    lines: Seq<Seq<char>>,
    i: int,
    mod_path: Seq<char>,
    mod_import: Seq<char>,
)
    requires
        0 <= i < lines.len(),
        mod_path.len() > 0,
        classify_line(trim_end_spec(lines[i]), cfg.lib_name) == (LineShape::ModDecl {
            name: "tests"@,
        }),
    ensures
        walk_lines(fs, cfg, skip, lines, i, mod_path, mod_import) == walk_lines(
            fs,
            cfg,
            skip,
            lines,
            i + 1,
            mod_path,
            mod_import,
        ),
{
}

/// Exclusion at the library root: a module declaration whose name is in
/// the configured exclusion set (seeded with `tests`) is dropped, not
/// expanded and not registered.
pub proof fn lemma_excluded_mod_dropped(
    fs: Seq<FileRec>,
    cfg: BundleCfg,
    skip: Set<Seq<char>>,
    lines: Seq<Seq<char>>,
    i: int,
    mod_import: Seq<char>,
    m: Seq<char>,
)
    requires
        0 <= i < lines.len(),
        classify_line(trim_end_spec(lines[i]), cfg.lib_name) == (LineShape::ModDecl { name: m }),
        cfg.skip_mod.contains(m),
    ensures
        walk_lines(fs, cfg, skip, lines, i, Seq::empty(), mod_import) == walk_lines(
            fs,
            cfg,
            skip,
            lines,
            i + 1,
            Seq::empty(),
            mod_import,
        ),
{
}

/// Fatal on a missing module: a module declaration that is not excluded
/// and whose name resolves to no file under either layout convention makes
/// the whole walk fail, so no complete bundle is produced.
pub proof fn lemma_missing_module_fatal(
    fs: Seq<FileRec>,
    cfg: BundleCfg,
    skip: Set<Seq<char>>,
    lines: Seq<Seq<char>>,
    i: int,
    mod_path: Seq<char>,
    mod_import: Seq<char>,
    m: Seq<char>,
)
    requires
        0 <= i < lines.len(),
        classify_line(trim_end_spec(lines[i]), cfg.lib_name) == (LineShape::ModDecl { name: m }),
        (if mod_path.len() == 0 {
            !cfg.skip_mod.contains(m)
        } else {
            m != "tests"@
        }),
        resolve_module(fs, cfg, path_join(mod_path, m)) is None,
    ensures
        walk_lines(fs, cfg, skip, lines, i, mod_path, mod_import) is None,
{
}

/// Round trip on plain content: lines that classify as plain, carry no
/// trailing whitespace and are walked without minification come out
/// verbatim, with the skip set untouched.
pub proof fn lemma_plain_lines_round_trip(
    fs: Seq<FileRec>,
    cfg: BundleCfg,
    skip: Set<Seq<char>>,
    lines: Seq<Seq<char>>,
    i: int,
    mod_path: Seq<char>,
    mod_import: Seq<char>,
)
    requires
        0 <= i <= lines.len(),
        !cfg.minify,
        forall|j: int|
            i <= j < lines.len() ==> lines[j] == trim_end_spec(lines[j]) && classify_line(
                lines[j],
                cfg.lib_name,
            ) is Plain,
    ensures
        walk_lines(fs, cfg, skip, lines, i, mod_path, mod_import) == Some(
            (lines.subrange(i, lines.len() as int), skip),
        ),
    decreases lines.len() - i,
{
    if i == lines.len() {
        assert(lines.subrange(i, lines.len() as int) =~= Seq::<Seq<char>>::empty());
    } else {
        lemma_plain_lines_round_trip(fs, cfg, skip, lines, i + 1, mod_path, mod_import);
        assert(seq![lines[i]] + lines.subrange(i + 1, lines.len() as int) =~= lines.subrange(
            i,
            lines.len() as int,
        ));
    }
}

/// Round trip for a leaf module: expanding a module declaration whose file
/// holds only plain, untrimmed-free lines, with minification off, emits
/// exactly the file's lines wrapped in the opening and closing module
/// markers, and registers exactly the module's import path.
pub proof fn lemma_leaf_module_round_trip(
    fs: Seq<FileRec>,
    cfg: BundleCfg,
    skip: Set<Seq<char>>,
    lines: Seq<Seq<char>>,
    i: int,
    mod_path: Seq<char>,
    mod_import: Seq<char>,
    m: Seq<char>,
    body_lines: Seq<Seq<char>>,
)
    requires
        0 <= i < lines.len(),
        !cfg.minify,
        classify_line(trim_end_spec(lines[i]), cfg.lib_name) == (LineShape::ModDecl { name: m }),
        (if mod_path.len() == 0 {
            !cfg.skip_mod.contains(m)
        } else {
            m != "tests"@
        }),
        resolve_module(fs, cfg, path_join(mod_path, m)) == Some(body_lines),
        forall|j: int|
            0 <= j < body_lines.len() ==> body_lines[j] == trim_end_spec(body_lines[j])
                && classify_line(body_lines[j], cfg.lib_name) is Plain,
    ensures
        walk_lines(fs, cfg, skip, lines, i, mod_path, mod_import) == (match walk_lines(
            fs,
            cfg,
            skip.insert(import_join(mod_import, m)),
            lines,
            i + 1,
            mod_path,
            mod_import,
        ) {
            Some(rest) => Some(
                (
                    seq![open_marker(m)] + body_lines + seq![close_marker()] + rest.0,
                    rest.1,
                ),
            ),
            None => None,
        }),
{
    let c_path = path_join(mod_path, m);
    let c_imp = import_join(mod_import, m);
    lemma_plain_lines_round_trip(fs, cfg, skip.insert(c_imp), body_lines, 0, c_path, c_imp);
    assert(body_lines.subrange(0, body_lines.len() as int) =~= body_lines);
}


/// Monotonicity at the run's boundary: whatever a successful run returns,
/// every import path suppressed when the run began — the seeded wildcard
/// among them — is still suppressed in the state the run ends with.
pub proof fn lemma_run_skip_monotonic(b: crate::bundle::Bundler, fs: Seq<FileRec>)
    ensures
        (match b.bundle_result(fs) {
            Some(res) => b.skip_use_set().subset_of(res.1),
            None => true,
        }),
{
    match crate::table::lookup(fs, b.binrs_filename@) {
        None => {},
        Some(el) => {
            lemma_skip_monotonic_entry(fs, b.cfg(), b.skip_use_set(), b.librs_filename@, el, 0);
        },
    }
}

} // verus!

//! The line classifier: decides which statement shape a single source line
//! matches, and extracts the captured sub-text where one exists.
//!
//! Each shape allows flexible internal whitespace and an optional trailing
//! end-of-line comment.  Classification is purely a function of the line's
//! text and the configured library name.

use vstd::prelude::*;
use crate::text::is_ws;
use crate::text::is_ws_char;
use crate::text::ws_end;
use crate::text::matches_at;
use crate::text::matches_at_exec;
use crate::text::ws_end_exec;

verus! {

/// The shape of one line, at the specification level.
pub enum LineShape {
    /// The whole line is whitespace and/or a trailing comment.
    Comment,
    /// A lint-level attribute, treated like a comment when stripping.
    LintSuppress,
    /// `extern crate <name>;` for the configured library name.
    ExternDecl,
    /// `use <name>::<path>;`, capturing the path after the library name.
    UseDecl { path: Seq<char> },
    /// `[pub ]mod <name>;`, capturing the module name.
    ModDecl { name: Seq<char> },
    /// None of the above; emitted verbatim.
    Plain,
}

/// The shape of one line, carrying its captured text.
#[derive(Debug, Clone, PartialEq, Eq)]
pub enum LineKind {
    Comment,
    LintSuppress,
    ExternDecl,
    UseDecl { path: String },
    ModDecl { name: String },
    Plain,
}

impl View for LineKind {
    type V = LineShape;

    open spec fn view(&self) -> LineShape {
        match self {
            LineKind::Comment => LineShape::Comment,
            LineKind::LintSuppress => LineShape::LintSuppress,
            LineKind::ExternDecl => LineShape::ExternDecl,
            LineKind::UseDecl { path } => LineShape::UseDecl { path: path@ },
            LineKind::ModDecl { name } => LineShape::ModDecl { name: name@ },
            LineKind::Plain => LineShape::Plain,
        }
    }
}

/// From position `i` on, the line holds only whitespace and, optionally, a
/// trailing `//` comment.
pub open spec fn tail_ok(s: Seq<char>, i: int) -> bool {
    let j = ws_end(s, i);
    j == s.len() || (j + 2 <= s.len() && s[j] == '/' && s[j + 1] == '/')
}

/// Shape 1: a blank or comment-only line.
pub open spec fn is_comment_line(s: Seq<char>) -> bool {
    tail_ok(s, 0)
}

/// Shape 2: a lint-suppression directive, `#![warn(` after leading blanks.
pub open spec fn is_lint_line(s: Seq<char>) -> bool {
    matches_at(s, ws_end(s, 0), seq!['#', '!', '[', 'w', 'a', 'r', 'n', '('])
}

/// Shape 3: `extern crate <name>;` with flexible whitespace and an optional
/// trailing comment.
pub open spec fn is_extern_decl(s: Seq<char>, name: Seq<char>) -> bool {
    let j0 = ws_end(s, 0);
    &&& matches_at(s, j0, seq!['e', 'x', 't', 'e', 'r', 'n'])
    &&& j0 + 6 < s.len() && is_ws(s[j0 + 6])
    &&& {
        let k1 = ws_end(s, j0 + 6);
        &&& matches_at(s, k1, seq!['c', 'r', 'a', 't', 'e'])
        &&& k1 + 5 < s.len() && is_ws(s[k1 + 5])
        &&& {
            let k2 = ws_end(s, k1 + 5);
            &&& matches_at(s, k2, name)
            &&& {
                let k3 = ws_end(s, k2 + name.len());
                k3 < s.len() && s[k3] == ';' && tail_ok(s, k3 + 1)
            }
        }
    }
}

/// The end of a greedy capture that must be followed by `;`, optional
/// whitespace and an optional trailing comment: the largest `m` in
/// `[lo, hi]` such that `s[m] == ';'` and only blank/comment text follows.
pub open spec fn capture_end(s: Seq<char>, lo: int, hi: int) -> Option<int>
    decreases hi - lo + 1,
{
    if lo < 0 || hi < lo || hi >= s.len() {
        None
    } else if s[hi] == ';' && tail_ok(s, hi + 1) {
        Some(hi)
    } else {
        capture_end(s, lo, hi - 1)
    }
}

pub proof fn lemma_capture_end(s: Seq<char>, lo: int, hi: int)
    ensures
        match capture_end(s, lo, hi) {
            Some(m) => lo <= m <= hi && m < s.len() && s[m] == ';' && tail_ok(s, m + 1),
            None => true,
        },
    decreases hi - lo + 1,
{
    if !(lo < 0 || hi < lo || hi >= s.len()) && !(s[hi] == ';' && tail_ok(s, hi + 1)) {
        lemma_capture_end(s, lo, hi - 1);
    }
}

/// Shape 4: `use <name>::<path>;`.  Returns the captured path, greedily the
/// longest text before a closing `;` and optional trailing comment.
pub open spec fn use_capture(s: Seq<char>, name: Seq<char>) -> Option<Seq<char>> {
    let j0 = ws_end(s, 0);
    if matches_at(s, j0, seq!['u', 's', 'e']) && j0 + 3 < s.len() && is_ws(s[j0 + 3]) {
        let k1 = ws_end(s, j0 + 3);
        if matches_at(s, k1, name) {
            let k2 = ws_end(s, k1 + name.len());
            if matches_at(s, k2, seq![':', ':']) {
                let q = ws_end(s, k2 + 2);
                match capture_end(s, q, s.len() - 1) {
                    Some(m) => Some(s.subrange(q, m)),
                    None => None,
                }
            } else {
                None
            }
        } else {
            None
        }
    } else {
        None
    }
}

/// Shape 5: `[pub ]mod <name>;`.  Returns the captured module name, greedy
/// and at least one character long.
pub open spec fn mod_capture(s: Seq<char>) -> Option<Seq<char>> {
    let j0 = ws_end(s, 0);
    let p = if matches_at(s, j0, seq!['p', 'u', 'b']) && j0 + 3 < s.len() && is_ws(s[j0 + 3]) {
        ws_end(s, j0 + 3)
    } else {
        j0
    };
    if matches_at(s, p, seq!['m', 'o', 'd']) && p + 3 < s.len() && is_ws(s[p + 3]) {
        let q = ws_end(s, p + 3);
        match capture_end(s, q + 1, s.len() - 1) {
            Some(m) => Some(s.subrange(q, m)),
            None => None,
        }
    } else {
        None
    }
}

/// A captured module name is never empty.
pub proof fn lemma_mod_capture_nonempty(s: Seq<char>)
    ensures
        match mod_capture(s) {
            Some(name) => name.len() >= 1,
            None => true,
        },
{
    crate::text::lemma_ws_end(s, 0);
    let j0 = ws_end(s, 0);
    let p = if matches_at(s, j0, seq!['p', 'u', 'b']) && j0 + 3 < s.len() && is_ws(s[j0 + 3]) {
        crate::text::lemma_ws_end(s, j0 + 3);
        ws_end(s, j0 + 3)
    } else {
        j0
    };
    if matches_at(s, p, seq!['m', 'o', 'd']) && p + 3 < s.len() && is_ws(s[p + 3]) {
        crate::text::lemma_ws_end(s, p + 3);
        let q = ws_end(s, p + 3);
        lemma_capture_end(s, q + 1, s.len() - 1);
        match capture_end(s, q + 1, s.len() - 1) {
            Some(m) => {
                assert(mod_capture(s) == Some(s.subrange(q, m)));
                assert(s.subrange(q, m).len() == m - q >= 1);
            },
            None => {
                assert(mod_capture(s) is None);
            },
        }
    }
}

/// Classification of one line against the fixed, ordered set of shapes.
/// The result depends only on the line's text and the library name.
pub open spec fn classify_line(s: Seq<char>, name: Seq<char>) -> LineShape {
    if is_comment_line(s) {
        LineShape::Comment
    } else if is_lint_line(s) {
        LineShape::LintSuppress
    } else if is_extern_decl(s, name) {
        LineShape::ExternDecl
    } else {
        match use_capture(s, name) {
            Some(path) => LineShape::UseDecl { path },
            None => match mod_capture(s) {
                Some(m) => LineShape::ModDecl { name: m },
                None => LineShape::Plain,
            },
        }
    }
}

fn tail_ok_exec(s: &str, i: usize) -> (b: bool)
    requires
        i <= s@.len(),
    ensures
        b == tail_ok(s@, i as int),
{
    let j: usize = ws_end_exec(s, i);
    let n: usize = s.unicode_len();
    if j == n {
        true
    } else if n - j >= 2 {
        s.get_char(j) == '/' && s.get_char(j + 1) == '/'
    } else {
        false
    }
}

fn capture_end_exec(s: &str, lo: usize) -> (r: Option<usize>)
    ensures
        match r {
            Some(m) => capture_end(s@, lo as int, s@.len() - 1) == Some(m as int) && m
                < s@.len(),
            None => capture_end(s@, lo as int, s@.len() - 1) is None,
        },
{
    let n: usize = s.unicode_len();
    let mut h: usize = n;
    while h > lo
        invariant
            h <= n,
            n == s@.len(),
            capture_end(s@, lo as int, n as int - 1) == capture_end(s@, lo as int, h as int - 1),
        decreases h,
    {
        let m: usize = h - 1;
        if s.get_char(m) == ';' && tail_ok_exec(s, m + 1) {
            return Some(m);
        }
        h = m;
    }
    None
}

/// Classify one line of source text against the recognized statement shapes.
/// The result is a pure function of `line` and `lib_name` alone: calling it
/// twice on the same arguments returns the same classification.
pub fn classify(line: &str, lib_name: &str) -> (k: LineKind)
    ensures
        k@ == classify_line(line@, lib_name@),
{
    let n: usize = line.unicode_len();
    let j0: usize = ws_end_exec(line, 0);
    if tail_ok_exec(line, 0) {
        return LineKind::Comment;
    }
    if matches_at_exec(line, j0, "#![warn(") {
        proof {
            reveal_strlit("#![warn(");
            assert("#![warn("@ =~= seq!['#', '!', '[', 'w', 'a', 'r', 'n', '(']);
        }
        return LineKind::LintSuppress;
    }
    proof {
        reveal_strlit("#![warn(");
        assert("#![warn("@ =~= seq!['#', '!', '[', 'w', 'a', 'r', 'n', '(']);
    }
    if is_extern_exec(line, lib_name) {
        return LineKind::ExternDecl;
    }
    match use_capture_exec(line, lib_name) {
        Some(path) => LineKind::UseDecl { path },
        None => match mod_capture_exec(line) {
            Some(name) => LineKind::ModDecl { name },
            None => LineKind::Plain,
        },
    }
}

fn is_extern_exec(s: &str, name: &str) -> (b: bool)
    ensures
        b == is_extern_decl(s@, name@),
{
    proof {
        reveal_strlit("extern");
        reveal_strlit("crate");
        assert("extern"@ =~= seq!['e', 'x', 't', 'e', 'r', 'n']);
        assert("crate"@ =~= seq!['c', 'r', 'a', 't', 'e']);
    }
    let n: usize = s.unicode_len();
    let j0: usize = ws_end_exec(s, 0);
    if !(matches_at_exec(s, j0, "extern") && j0 + 6 < n && is_ws_char(s.get_char(j0 + 6))) {
        return false;
    }
    let k1: usize = ws_end_exec(s, j0 + 6);
    if !(matches_at_exec(s, k1, "crate") && k1 + 5 < n && is_ws_char(s.get_char(k1 + 5))) {
        return false;
    }
    let k2: usize = ws_end_exec(s, k1 + 5);
    if !matches_at_exec(s, k2, name) {
        return false;
    }
    let nl: usize = name.unicode_len();
    let k3: usize = ws_end_exec(s, k2 + nl);
    k3 < n && s.get_char(k3) == ';' && tail_ok_exec(s, k3 + 1)
}

fn use_capture_exec(s: &str, name: &str) -> (r: Option<String>)
    ensures
        match r {
            Some(path) => use_capture(s@, name@) == Some(path@),
            None => use_capture(s@, name@) is None,
        },
{
    proof {
        reveal_strlit("use");
        reveal_strlit("::");
        assert("use"@ =~= seq!['u', 's', 'e']);
        assert("::"@ =~= seq![':', ':']);
    }
    let n: usize = s.unicode_len();
    let j0: usize = ws_end_exec(s, 0);
    if !(matches_at_exec(s, j0, "use") && j0 + 3 < n && is_ws_char(s.get_char(j0 + 3))) {
        return None;
    }
    let k1: usize = ws_end_exec(s, j0 + 3);
    if !matches_at_exec(s, k1, name) {
        return None;
    }
    let nl: usize = name.unicode_len();
    let k2: usize = ws_end_exec(s, k1 + nl);
    if !matches_at_exec(s, k2, "::") {
        return None;
    }
    let q: usize = ws_end_exec(s, k2 + 2);
    match capture_end_exec(s, q) {
        Some(m) => {
            proof {
                lemma_capture_end(s@, q as int, s@.len() - 1);
            }
            Some(s.substring_char(q, m).to_owned())
        },
        None => None,
    }
}

fn mod_capture_exec(s: &str) -> (r: Option<String>)
    ensures
        match r {
            Some(name) => mod_capture(s@) == Some(name@),
            None => mod_capture(s@) is None,
        },
{
    proof {
        reveal_strlit("pub");
        reveal_strlit("mod");
        assert("pub"@ =~= seq!['p', 'u', 'b']);
        assert("mod"@ =~= seq!['m', 'o', 'd']);
    }
    let n: usize = s.unicode_len();
    let j0: usize = ws_end_exec(s, 0);
    let p: usize = if matches_at_exec(s, j0, "pub") && j0 + 3 < n && is_ws_char(
        s.get_char(j0 + 3),
    ) {
        ws_end_exec(s, j0 + 3)
    } else {
        j0
    };
    if !(matches_at_exec(s, p, "mod") && p + 3 < n && is_ws_char(s.get_char(p + 3))) {
        return None;
    }
    let q: usize = ws_end_exec(s, p + 3);
    if q == n {
        return None;
    }
    match capture_end_exec(s, q + 1) {
        Some(m) => {
            proof {
                lemma_capture_end(s@, q + 1, s@.len() - 1);
            }
            Some(s.substring_char(q, m).to_owned())
        },
        None => None,
    }
}

} // verus!

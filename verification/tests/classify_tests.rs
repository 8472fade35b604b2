use bundler::classify;
use bundler::LineKind;

fn kind(line: &str, name: &str) -> LineKind {
    classify(line, name)
}

#[test]
fn classification_is_repeatable() {
    let a = kind("use mylib::path::to::x;", "mylib");
    let b = kind("use mylib::path::to::x;", "mylib");
    assert_eq!(a, b);
    let c = kind("  pub mod foo; // trailing", "mylib");
    let d = kind("  pub mod foo; // trailing", "mylib");
    assert_eq!(c, d);
}

#[test]
fn blank_and_comment_lines() {
    assert_eq!(kind("", "lib"), LineKind::Comment);
    assert_eq!(kind("   ", "lib"), LineKind::Comment);
    assert_eq!(kind("// a comment", "lib"), LineKind::Comment);
    assert_eq!(kind("   // indented comment", "lib"), LineKind::Comment);
}

#[test]
fn lint_suppression_lines() {
    assert_eq!(kind("#![warn(unused)]", "lib"), LineKind::LintSuppress);
    assert_eq!(kind("  #![warn(missing_docs)]", "lib"), LineKind::LintSuppress);
    assert_eq!(kind("#![allow(unused)]", "lib"), LineKind::Plain);
}

#[test]
fn extern_declaration() {
    assert_eq!(kind("extern crate mylib;", "mylib"), LineKind::ExternDecl);
    assert_eq!(kind("  extern  crate  mylib ; // dep", "mylib"), LineKind::ExternDecl);
    assert_eq!(kind("extern crate mylib;", "other"), LineKind::Plain);
    assert_eq!(kind("externcrate mylib;", "mylib"), LineKind::Plain);
}

#[test]
fn use_declaration_captures_path() {
    assert_eq!(
        kind("use mylib::a::b;", "mylib"),
        LineKind::UseDecl { path: String::from("a::b") }
    );
    assert_eq!(
        kind("use mylib::x; // comment", "mylib"),
        LineKind::UseDecl { path: String::from("x") }
    );
    assert_eq!(
        kind("use mylib::*;", "mylib"),
        LineKind::UseDecl { path: String::from("*") }
    );
    assert_eq!(kind("use otherlib::x;", "mylib"), LineKind::Plain);
}

#[test]
fn mod_declaration_captures_name() {
    assert_eq!(kind("mod foo;", "lib"), LineKind::ModDecl { name: String::from("foo") });
    assert_eq!(kind("pub mod foo;", "lib"), LineKind::ModDecl { name: String::from("foo") });
    assert_eq!(
        kind("  pub  mod  bar ; // files", "lib"),
        LineKind::ModDecl { name: String::from("bar ") }
    );
    assert_eq!(kind("pub(crate) mod foo;", "lib"), LineKind::Plain);
    assert_eq!(kind("mod foo {", "lib"), LineKind::Plain);
}

#[test]
fn plain_lines_fall_through() {
    assert_eq!(kind("fn main() {}", "lib"), LineKind::Plain);
    assert_eq!(kind("let x = 1;", "lib"), LineKind::Plain);
    assert_eq!(kind("use std::io;", "mylib"), LineKind::Plain);
}

#[test]
fn trimming_helpers() {
    assert_eq!(bundler::trim_end_line("ab  \t"), "ab");
    assert_eq!(bundler::trim_start_line("  \tab"), "ab");
    assert_eq!(bundler::trim_end_line("   "), "");
    assert_eq!(bundler::trim_start_line("a b"), "a b");
}

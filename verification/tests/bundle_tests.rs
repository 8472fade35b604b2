use bundler::BundleError;
use bundler::Bundler;
use bundler::FileTable;

fn sv(xs: &[&str]) -> Vec<String> {
    xs.iter().map(|s| s.to_string()).collect()
}

fn basic_bundler() -> Bundler {
    let mut b = Bundler::new(String::from("bin.rs"), String::from("out.rs"));
    b.crate_name(String::from("mylib"));
    b
}

#[test]
fn expands_extern_into_library_and_elides_import() {
    let mut fs = FileTable::new();
    fs.add_file(
        String::from("bin.rs"),
        sv(&["extern crate mylib;", "use mylib::a;", "fn main() {}"]),
    );
    fs.add_file(String::from("src/lib.rs"), sv(&["pub mod a;"]));
    fs.add_file(String::from("src/a.rs"), sv(&["pub fn f() {}"]));
    let mut b = basic_bundler();
    let out = b.run(&fs).unwrap();
    assert_eq!(out, sv(&["pub mod a {", "pub fn f() {}", "}", "fn main() {}"]));
}

#[test]
fn depth_first_declaration_order() {
    let mut fs = FileTable::new();
    fs.add_file(String::from("bin.rs"), sv(&["extern crate mylib;"]));
    fs.add_file(String::from("src/lib.rs"), sv(&["pub mod a;"]));
    fs.add_file(String::from("src/a.rs"), sv(&["mod b;", "mod c;", "a_tail();"]));
    fs.add_file(String::from("src/a/b.rs"), sv(&["mod d;", "b_tail();"]));
    fs.add_file(String::from("src/a/b/d.rs"), sv(&["d_body();"]));
    fs.add_file(String::from("src/a/c.rs"), sv(&["c_body();"]));
    let mut b = basic_bundler();
    let out = b.run(&fs).unwrap();
    assert_eq!(
        out,
        sv(&[
            "pub mod a {",
            "pub mod b {",
            "pub mod d {",
            "d_body();",
            "}",
            "b_tail();",
            "}",
            "pub mod c {",
            "c_body();",
            "}",
            "a_tail();",
            "}",
        ])
    );
}

#[test]
fn leaf_module_round_trips_verbatim() {
    let mut fs = FileTable::new();
    fs.add_file(String::from("bin.rs"), sv(&["extern crate mylib;"]));
    fs.add_file(String::from("src/lib.rs"), sv(&["pub mod leaf;"]));
    fs.add_file(
        String::from("src/leaf.rs"),
        sv(&["struct S;", "fn g(x: u8) -> u8 { x }", "const K: u8 = 3;"]),
    );
    let mut b = basic_bundler();
    b.strip_comments_set(false);
    let out = b.run(&fs).unwrap();
    assert_eq!(
        out,
        sv(&[
            "pub mod leaf {",
            "struct S;",
            "fn g(x: u8) -> u8 { x }",
            "const K: u8 = 3;",
            "}",
        ])
    );
}

#[test]
fn comment_elision() {
    let mut fs = FileTable::new();
    fs.add_file(String::from("bin.rs"), sv(&["// a comment", "   ", "code();"]));
    let mut b = basic_bundler();
    let out = b.run(&fs).unwrap();
    assert_eq!(out, sv(&["code();"]));
}

#[test]
fn comments_kept_when_stripping_disabled() {
    let mut fs = FileTable::new();
    fs.add_file(String::from("bin.rs"), sv(&["// keep me", "code();"]));
    let mut b = basic_bundler();
    b.strip_comments_set(false);
    let out = b.run(&fs).unwrap();
    assert_eq!(out, sv(&["// keep me", "code();"]));
}

#[test]
fn lint_suppression_stripped_like_comments() {
    let mut fs = FileTable::new();
    fs.add_file(String::from("bin.rs"), sv(&["#![warn(unused)]", "code();"]));
    let mut b = basic_bundler();
    let out = b.run(&fs).unwrap();
    assert_eq!(out, sv(&["code();"]));
}

#[test]
fn tests_module_never_inlined() {
    let mut fs = FileTable::new();
    fs.add_file(String::from("bin.rs"), sv(&["extern crate mylib;"]));
    fs.add_file(String::from("src/lib.rs"), sv(&["mod tests;", "pub mod a;"]));
    fs.add_file(String::from("src/a.rs"), sv(&["mod tests;", "x();"]));
    let mut b = basic_bundler();
    let out = b.run(&fs).unwrap();
    assert_eq!(out, sv(&["pub mod a {", "x();", "}"]));
}

#[test]
fn configured_exclusion_drops_module() {
    let mut fs = FileTable::new();
    fs.add_file(String::from("bin.rs"), sv(&["extern crate mylib;"]));
    fs.add_file(String::from("src/lib.rs"), sv(&["mod skipme;", "keep();"]));
    let mut b = basic_bundler();
    b.exclude_mod(String::from("skipme"));
    let out = b.run(&fs).unwrap();
    assert_eq!(out, sv(&["keep();"]));
}

#[test]
fn wildcard_import_always_elided() {
    let mut fs = FileTable::new();
    fs.add_file(
        String::from("bin.rs"),
        sv(&["use mylib::*;", "extern crate mylib;", "use mylib::*;"]),
    );
    fs.add_file(String::from("src/lib.rs"), sv(&["lib_line();"]));
    let mut b = basic_bundler();
    let out = b.run(&fs).unwrap();
    assert_eq!(out, sv(&["lib_line();"]));
}

#[test]
fn use_rewritten_before_embedding_and_elided_after() {
    let mut fs = FileTable::new();
    fs.add_file(
        String::from("bin.rs"),
        sv(&["use mylib::a;", "extern crate mylib;", "use mylib::a;"]),
    );
    fs.add_file(String::from("src/lib.rs"), sv(&["pub mod a;"]));
    fs.add_file(String::from("src/a.rs"), sv(&["body();"]));
    let mut b = basic_bundler();
    let out = b.run(&fs).unwrap();
    assert_eq!(out, sv(&["use a;", "pub mod a {", "body();", "}"]));
}

#[test]
fn unembedded_import_rewritten_to_bare_use() {
    let mut fs = FileTable::new();
    fs.add_file(String::from("bin.rs"), sv(&["use mylib::foo::bar;"]));
    let mut b = basic_bundler();
    let out = b.run(&fs).unwrap();
    assert_eq!(out, sv(&["use foo::bar;"]));
}

#[test]
fn nested_import_path_elided_after_nested_embedding() {
    let mut fs = FileTable::new();
    fs.add_file(
        String::from("bin.rs"),
        sv(&["extern crate mylib;", "use mylib::a::b;", "use mylib::a::z;"]),
    );
    fs.add_file(String::from("src/lib.rs"), sv(&["pub mod a;"]));
    fs.add_file(String::from("src/a.rs"), sv(&["mod b;"]));
    fs.add_file(String::from("src/a/b.rs"), sv(&["inner();"]));
    let mut b = basic_bundler();
    let out = b.run(&fs).unwrap();
    assert_eq!(
        out,
        sv(&["pub mod a {", "pub mod b {", "inner();", "}", "}", "use a::z;"])
    );
}

#[test]
fn minification_strips_surrounding_whitespace() {
    let mut fs = FileTable::new();
    fs.add_file(String::from("bin.rs"), sv(&["   let x = 1;   "]));
    let mut b = basic_bundler();
    b.minify_set(true);
    let out = b.run(&fs).unwrap();
    assert_eq!(out, sv(&["let x = 1;"]));
}

#[test]
fn minification_preserves_internal_spacing() {
    let mut fs = FileTable::new();
    fs.add_file(String::from("bin.rs"), sv(&["  let  y  =  2 ;  "]));
    let mut b = basic_bundler();
    b.minify_set(true);
    let out = b.run(&fs).unwrap();
    assert_eq!(out, sv(&["let  y  =  2 ;"]));
}

#[test]
fn missing_module_is_fatal() {
    let mut fs = FileTable::new();
    fs.add_file(String::from("bin.rs"), sv(&["extern crate mylib;"]));
    fs.add_file(String::from("src/lib.rs"), sv(&["mod nosuch;"]));
    let mut b = basic_bundler();
    let r = b.run(&fs);
    assert!(matches!(r, Err(BundleError::Traversal)));
}

#[test]
fn missing_entry_is_fatal() {
    let fs = FileTable::new();
    let mut b = basic_bundler();
    let r = b.run(&fs);
    assert!(matches!(r, Err(BundleError::Traversal)));
}

#[test]
fn missing_library_root_is_fatal() {
    let mut fs = FileTable::new();
    fs.add_file(String::from("bin.rs"), sv(&["extern crate mylib;"]));
    let mut b = basic_bundler();
    let r = b.run(&fs);
    assert!(matches!(r, Err(BundleError::Traversal)));
}

#[test]
fn directory_style_module_file() {
    let mut fs = FileTable::new();
    fs.add_file(String::from("bin.rs"), sv(&["extern crate mylib;"]));
    fs.add_file(String::from("src/lib.rs"), sv(&["pub mod m;"]));
    fs.add_file(String::from("src/m/mod.rs"), sv(&["inner();"]));
    let mut b = basic_bundler();
    let out = b.run(&fs).unwrap();
    assert_eq!(out, sv(&["pub mod m {", "inner();", "}"]));
}

#[test]
fn flat_file_preferred_over_directory_style() {
    let mut fs = FileTable::new();
    fs.add_file(String::from("bin.rs"), sv(&["extern crate mylib;"]));
    fs.add_file(String::from("src/lib.rs"), sv(&["pub mod m;"]));
    fs.add_file(String::from("src/m.rs"), sv(&["flat();"]));
    fs.add_file(String::from("src/m/mod.rs"), sv(&["dir();"]));
    let mut b = basic_bundler();
    let out = b.run(&fs).unwrap();
    assert_eq!(out, sv(&["pub mod m {", "flat();", "}"]));
}

#[test]
fn custom_library_root_path() {
    let mut fs = FileTable::new();
    fs.add_file(String::from("app.rs"), sv(&["extern crate zz;"]));
    fs.add_file(String::from("lib/root.rs"), sv(&["pub mod z;"]));
    fs.add_file(String::from("lib/z.rs"), sv(&["zed();"]));
    let mut b = Bundler::new_with_librs(
        String::from("app.rs"),
        String::from("out.rs"),
        String::from("lib/root.rs"),
    );
    b.crate_name(String::from("zz"));
    let out = b.run(&fs).unwrap();
    assert_eq!(out, sv(&["pub mod z {", "zed();", "}"]));
}

#[test]
fn no_extern_line_copies_entry_only() {
    let mut fs = FileTable::new();
    fs.add_file(String::from("bin.rs"), sv(&["fn main() {", "    work();", "}"]));
    fs.add_file(String::from("src/lib.rs"), sv(&["never();"]));
    let mut b = basic_bundler();
    let out = b.run(&fs).unwrap();
    assert_eq!(out, sv(&["fn main() {", "    work();", "}"]));
}

#[test]
fn lines_are_right_trimmed() {
    let mut fs = FileTable::new();
    fs.add_file(String::from("bin.rs"), sv(&["code();   ", "more();\t"]));
    let mut b = basic_bundler();
    let out = b.run(&fs).unwrap();
    assert_eq!(out, sv(&["code();", "more();"]));
}

#[test]
fn entry_module_declarations_stay_verbatim() {
    let mut fs = FileTable::new();
    fs.add_file(String::from("bin.rs"), sv(&["mod helper;", "fn main() {}"]));
    let mut b = basic_bundler();
    let out = b.run(&fs).unwrap();
    assert_eq!(out, sv(&["mod helper;", "fn main() {}"]));
}

#[test]
fn configured_exclusion_applies_at_root_only() {
    let mut fs = FileTable::new();
    fs.add_file(String::from("bin.rs"), sv(&["extern crate mylib;"]));
    fs.add_file(String::from("src/lib.rs"), sv(&["pub mod a;"]));
    fs.add_file(String::from("src/a.rs"), sv(&["mod skipme;"]));
    fs.add_file(String::from("src/a/skipme.rs"), sv(&["nested();"]));
    let mut b = basic_bundler();
    b.exclude_mod(String::from("skipme"));
    let out = b.run(&fs).unwrap();
    assert_eq!(
        out,
        sv(&["pub mod a {", "pub mod skipme {", "nested();", "}", "}"])
    );
}

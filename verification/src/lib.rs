//! Inline a multi-file source tree into one self-contained file.
//!
//! Given the lines of an entry file, a library root file and a table of
//! module files, the bundler substitutes each module declaration with the
//! contents of the file it names, wrapping the inlined text in an explicit
//! module block, and rewrites or elides imports of the embedded library.

mod text;
mod classify;
mod table;
mod bundle;
mod laws;

pub use text::trim_end_line;
pub use text::trim_start_line;
pub use classify::LineKind;
pub use classify::LineShape;
pub use classify::classify;
pub use table::FileTable;
pub use table::FileEntry;
pub use table::FileRec;
pub use bundle::Bundler;
pub use bundle::BundleError;
pub use bundle::BundleCfg;
pub use laws::lemma_skip_monotonic_lines;
pub use laws::lemma_skip_monotonic_entry;
pub use laws::lemma_use_decl_suppressed;
pub use laws::lemma_wildcard_suppressed;
pub use laws::lemma_tests_never_inlined;
pub use laws::lemma_excluded_mod_dropped;
pub use laws::lemma_missing_module_fatal;
pub use laws::lemma_run_skip_monotonic;
pub use laws::lemma_plain_lines_round_trip;
pub use laws::lemma_leaf_module_round_trip;

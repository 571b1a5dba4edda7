//! Core of a broker between a text editor and one or more LSP servers.
//!
//! The crate covers the multi-server dispatch and result-fusion layer: it
//! selects which configured servers see a given editor request, translates
//! positions between editor coordinates (1-based lines, byte columns) and
//! LSP coordinates (0-based lines, code units under a per-server offset
//! encoding), keeps the per-buffer diagnostic and code-lens caches, and
//! renders the editor scripts that display diagnostics, code lenses, goto
//! lists, code actions and the other feature results.
//!
//! Everything here is pure: the wire transport, the file system and the
//! editor output channel live outside and hand this crate plain values.

pub mod call_hierarchy;
pub mod clangd;
pub mod code_action;
pub mod code_lens;
pub mod diagnostics;
pub mod dispatch;
pub mod eclipse_jdt_ls;
pub mod escape;
pub mod formatting;
pub mod goto;
pub mod parse;
pub mod position;
pub mod range_formatting;
pub mod rename;
pub mod sorting;
pub mod strutil;
pub mod texlab;
pub mod types;

pub use strutil::chars_to_string;
pub use strutil::str_chars;

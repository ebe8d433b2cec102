//! The verified core of a terminal code-review tool: classifying the lines of a
//! diff hunk for the document view, drawing document rows, and turning plain
//! files outside any repository into reviewable diffs.

pub mod backend_laws;
pub mod build_laws;
pub mod diff_document;
pub mod document_laws;
pub mod file_backend;
pub mod model;
pub mod order;
pub mod path;
pub mod terminal;
pub mod text;
pub mod vcs;

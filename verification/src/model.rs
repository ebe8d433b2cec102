//! Diffs: files, hunks and lines.

use crate::path::FilePath;
use crate::terminal::TextStyle;
use vstd::prelude::*;

verus! {

/// Where a diff line comes from.
#[derive(Debug, Clone, Copy, PartialEq, Eq, Structural)]
pub enum LineOrigin {
    /// On both sides of the diff.
    Context,
    /// On the new side only.
    Addition,
    /// On the old side only.
    Deletion,
}

/// A line cut into syntax-highlighted pieces, where there are any.
pub type Highlight = Option<Vec<(TextStyle, String)>>;

/// One line of a hunk.
#[derive(Debug)]
pub struct DiffLine {
    pub origin: LineOrigin,
    pub content: String,
    pub old_lineno: Option<u32>,
    pub new_lineno: Option<u32>,
    pub highlighted_spans: Highlight,
}

/// What a [`DiffLine`] says, with text as characters.
#[verifier::ext_equal]
pub struct DiffLineView {
    pub origin: LineOrigin,
    pub content: Seq<char>,
    pub old_lineno: Option<u32>,
    pub new_lineno: Option<u32>,
    pub highlighted_spans: Option<Seq<(TextStyle, Seq<char>)>>,
}

/// Styled pieces of text, with text as characters.
pub open spec fn spans_view(spans: Seq<(TextStyle, String)>) -> Seq<(TextStyle, Seq<char>)> {
    spans.map_values(|span: (TextStyle, String)| (span.0, span.1@))
}

/// [`spans_view`] of pieces that may be missing.
pub open spec fn highlight_view(spans: Highlight) -> Option<Seq<(TextStyle, Seq<char>)>> {
    match spans {
        Some(spans) => Some(spans_view(spans@)),
        None => None,
    }
}

/// [`highlight_view`] of each line.
pub open spec fn highlights_view(lines: Seq<Highlight>) -> Seq<
    Option<Seq<(TextStyle, Seq<char>)>>,
> {
    lines.map_values(|line: Highlight| highlight_view(line))
}

impl View for DiffLine {
    type V = DiffLineView;

    open spec fn view(&self) -> DiffLineView {
        DiffLineView {
            origin: self.origin,
            content: self.content@,
            old_lineno: self.old_lineno,
            new_lineno: self.new_lineno,
            highlighted_spans: highlight_view(self.highlighted_spans),
        }
    }
}

/// The origins of a hunk's lines.
pub open spec fn origins(lines: Seq<DiffLine>) -> Seq<LineOrigin> {
    lines.map_values(|line: DiffLine| line.origin)
}

/// The lines of a hunk, as what they say.
pub open spec fn lines_view(lines: Seq<DiffLine>) -> Seq<DiffLineView> {
    lines.map_values(|line: DiffLine| line@)
}

/// A stretch of changed lines.
#[derive(Debug)]
pub struct DiffHunk {
    pub header: String,
    pub lines: Vec<DiffLine>,
    pub old_start: u32,
    pub old_count: u32,
    pub new_start: u32,
    pub new_count: u32,
}

/// What a [`DiffHunk`] says.
#[verifier::ext_equal]
pub struct DiffHunkView {
    pub header: Seq<char>,
    pub lines: Seq<DiffLineView>,
    pub old_start: u32,
    pub old_count: u32,
    pub new_start: u32,
    pub new_count: u32,
}

impl View for DiffHunk {
    type V = DiffHunkView;

    open spec fn view(&self) -> DiffHunkView {
        DiffHunkView {
            header: self.header@,
            lines: lines_view(self.lines@),
            old_start: self.old_start,
            old_count: self.old_count,
            new_start: self.new_start,
            new_count: self.new_count,
        }
    }
}

/// The hunks of a file, as what they say.
pub open spec fn hunks_view(hunks: Seq<DiffHunk>) -> Seq<DiffHunkView> {
    hunks.map_values(|hunk: DiffHunk| hunk@)
}

/// What happened to a file.
#[derive(Debug, Clone, Copy, PartialEq, Eq, Structural)]
pub enum FileStatus {
    /// The file is new.
    Added,
}

/// The changes of one file.
#[derive(Debug)]
pub struct DiffFile {
    pub old_path: Option<FilePath>,
    pub new_path: Option<FilePath>,
    pub status: FileStatus,
    pub hunks: Vec<DiffHunk>,
    pub is_binary: bool,
    pub is_too_large: bool,
    pub is_commit_message: bool,
    pub content_hash: u64,
}

/// What a [`DiffFile`] says.
#[verifier::ext_equal]
pub struct DiffFileView {
    pub old_path: Option<Seq<Seq<u8>>>,
    pub new_path: Option<Seq<Seq<u8>>>,
    pub status: FileStatus,
    pub hunks: Seq<DiffHunkView>,
    pub is_binary: bool,
    pub is_too_large: bool,
    pub is_commit_message: bool,
    pub content_hash: u64,
}

/// The components of a path that may be missing.
pub open spec fn path_view(path: Option<FilePath>) -> Option<Seq<Seq<u8>>> {
    match path {
        Some(path) => Some(path@),
        None => None,
    }
}

impl View for DiffFile {
    type V = DiffFileView;

    open spec fn view(&self) -> DiffFileView {
        DiffFileView {
            old_path: path_view(self.old_path),
            new_path: path_view(self.new_path),
            status: self.status,
            hunks: hunks_view(self.hunks@),
            is_binary: self.is_binary,
            is_too_large: self.is_too_large,
            is_commit_message: self.is_commit_message,
            content_hash: self.content_hash,
        }
    }
}

} // verus!

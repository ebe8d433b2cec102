//! What a review backend says about itself, and how it fails.

use crate::path::FilePath;
use std::io::ErrorKind;
use vstd::prelude::*;

verus! {

/// The kind of a failure that the system reported: opaque, carried through.
#[verifier::external_type_specification]
#[verifier::external_body]
pub struct ExErrorKind(ErrorKind);

/// The kind of an input or output failure.
#[derive(Debug, Clone, Copy, PartialEq, Eq)]
pub enum IoErrorKind {
    /// As the system reported it.
    Reported(ErrorKind),
    /// The path names something that cannot be reviewed.
    InvalidInput,
}

/// Why there is nothing to review.
#[derive(Debug, PartialEq, Eq)]
pub enum TuicrError {
    /// Something could not be read.
    Io { kind: IoErrorKind, message: String },
    /// There are no changes.
    NoChanges,
}

/// What a [`TuicrError`] says.
pub enum TuicrErrorView {
    Io { kind: IoErrorKind, message: Seq<char> },
    NoChanges,
}

impl View for TuicrError {
    type V = TuicrErrorView;

    open spec fn view(&self) -> TuicrErrorView {
        match *self {
            TuicrError::Io { kind, message } => TuicrErrorView::Io { kind, message: message@ },
            TuicrError::NoChanges => TuicrErrorView::NoChanges,
        }
    }
}

/// The system behind a backend.
#[derive(Debug, Clone, Copy, PartialEq, Eq, Structural)]
pub enum VcsType {
    /// Plain files.
    File,
}

/// What a backend reviews.
#[derive(Debug)]
pub struct VcsInfo {
    pub root_path: FilePath,
    pub head_commit: String,
    pub branch_name: Option<String>,
    pub vcs_type: VcsType,
}

/// What a [`VcsInfo`] says.
#[verifier::ext_equal]
pub struct VcsInfoView {
    pub root_path: Seq<Seq<u8>>,
    pub head_commit: Seq<char>,
    pub branch_name: Option<Seq<char>>,
    pub vcs_type: VcsType,
}

impl View for VcsInfo {
    type V = VcsInfoView;

    open spec fn view(&self) -> VcsInfoView {
        VcsInfoView {
            root_path: self.root_path@,
            head_commit: self.head_commit@,
            branch_name: match self.branch_name {
                Some(name) => Some(name@),
                None => None,
            },
            vcs_type: self.vcs_type,
        }
    }
}

/// An error says its kind and message, or that there are no changes.
pub proof fn error_says_what_it_holds(error: TuicrError)
    ensures
        error matches TuicrError::Io { kind, message } ==> error@ == (TuicrErrorView::Io {
            kind,
            message: message@,
        }),
        error is NoChanges ==> error@ == TuicrErrorView::NoChanges,
{
}

} // verus!

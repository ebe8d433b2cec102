//! Reviewing files outside of any repository.
//!
//! A single file or every text file of a directory shows up as a new file, so
//! that it can be annotated without version control. Reading files,
//! replacing tabs, highlighting and hashing are done elsewhere; here stand the decisions.

use crate::backend_laws::walked_files_are_in_place;
use crate::model::{
    highlight_view, highlights_view, hunks_view, lines_view, DiffFile, DiffFileView, DiffHunk,
    DiffHunkView, DiffLine, DiffLineView, FileStatus, Highlight, LineOrigin,
};
use crate::order::{rising, sort_files, sorted, SizedFile};
use crate::path::{joined, parent_of, relative_path, root_component, FilePath};
use crate::terminal::TextStyle;
use crate::text::{decimal, push_decimal, split_lines, text_lines, texts};
use crate::vcs::{IoErrorKind, TuicrError, TuicrErrorView, VcsInfo, VcsInfoView, VcsType};
use std::io::ErrorKind;
use vstd::prelude::*;

verus! {

/// Files larger than this are listed as too large and not loaded.
pub const MAX_FILE_BYTES: u64 = 10 * 1_024 * 1_024;

/// How many bytes of a file decide whether it is text.
pub const BINARY_SNIFF_BYTES: usize = 8192;

/// What a walk through a directory found at one path.
#[derive(Debug)]
pub struct WalkEntry {
    pub path: FilePath,
    pub is_file: bool,
    /// The size, where it could be found out.
    pub size: Option<u64>,
    /// The first bytes, or `None` if it cannot be opened or read.
    pub head: Option<Vec<u8>>,
}

/// The file to review at an entry of a walk, if any: the entry could be walked,
/// is a file, has a size, and is text.
pub open spec fn reviewable(entry: Option<WalkEntry>) -> Option<SizedFile> {
    match entry {
        Some(entry) => if entry.is_file && !probably_binary(bytes_view(entry.head)) {
            match entry.size {
                Some(size) => Some((entry.path, size)),
                None => None,
            }
        } else {
            None
        },
        None => None,
    }
}

/// The items that are there, in order.
pub open spec fn present<A>(items: Seq<Option<A>>) -> Seq<A>
    decreases items.len(),
{
    if items.len() == 0 {
        Seq::empty()
    } else {
        match items.last() {
            Some(item) => present(items.drop_last()).push(item),
            None => present(items.drop_last()),
        }
    }
}

/// The files to review among the entries of a walk, in the order of the walk.
pub open spec fn reviewable_files(entries: Seq<Option<WalkEntry>>) -> Seq<SizedFile> {
    present(entries.map_values(|entry: Option<WalkEntry>| reviewable(entry)))
}

/// Collects the files to review from the entries of a walk, where `None` is an
/// entry that could not be walked.
pub fn collect_text_files(entries: Vec<Option<WalkEntry>>) -> (files: Vec<SizedFile>)
    ensures
        sorted(files@),
        files@.to_multiset() == reviewable_files(entries@).to_multiset(),
{
    let ghost all = entries@.map_values(|entry: Option<WalkEntry>| reviewable(entry));
    let mut files: Vec<SizedFile> = Vec::new();
    for entry in it: entries.into_iter()
        invariant
            it.seq() == entries@,
            all == entries@.map_values(|entry: Option<WalkEntry>| reviewable(entry)),
            files@ == present(all.take(it.index() as int)),
    {
        proof {
            let at = it.index() as int;
            assert(all.take(at + 1).drop_last() =~= all.take(at));
            assert(all.take(at + 1).last() == reviewable(entry));
        }
        if let Some(entry) = entry {
            if entry.is_file && !is_probably_binary(&entry.head) {
                if let Some(size) = entry.size {
                    files.push((entry.path, size));
                }
            }
        }
    }
    assert(all.take(all.len() as int) =~= all);
    sort_files(files)
}

/// Whether a zero byte is among the bytes that decide.
pub open spec fn zero_sniffed(bytes: Seq<u8>) -> bool {
    exists|i: int| 0 <= i < bytes.len() && i < BINARY_SNIFF_BYTES && bytes[i] == 0
}

/// Whether a file seems to be binary, by its first bytes: it could not be read,
/// or a zero byte is among them.
pub open spec fn probably_binary(head: Option<Seq<u8>>) -> bool {
    match head {
        Some(bytes) => zero_sniffed(bytes),
        None => true,
    }
}

/// The bytes of a vector that may be missing.
pub open spec fn bytes_view(bytes: Option<Vec<u8>>) -> Option<Seq<u8>> {
    match bytes {
        Some(bytes) => Some(bytes@),
        None => None,
    }
}

/// Decides from the first bytes of a file whether it seems to be binary, where
/// `None` is a file that could not be opened or read.
pub fn is_probably_binary(head: &Option<Vec<u8>>) -> (binary: bool)
    ensures
        binary == probably_binary(bytes_view(*head)),
        match *head {
            Some(bytes) => binary == exists|i: int|
                0 <= i < bytes@.len() && i < 8192 && bytes@[i] == 0,
            None => binary,
        },
{
    match head {
        Some(bytes) => {
            let mut i: usize = 0;
            while i < bytes.len() && i < BINARY_SNIFF_BYTES
                invariant
                    *head == Some(*bytes),
                    i <= bytes@.len(),
                    forall|j: int| 0 <= j < i ==> bytes@[j] != 0,
                decreases bytes.len() - i,
            {
                if bytes[i] == 0 {
                    assert(zero_sniffed(bytes@)) by {
                        assert(bytes@[i as int] == 0);
                    }
                    return true;
                }
                i += 1;
            }
            false
        },
        None => true,
    }
}

impl WalkEntry {
    /// Lets go of the first bytes and keeps what they decide, so that the entries
    /// of a large walk take little room.
    pub fn shed_head(&mut self)
        ensures
            bytes_view(final(self).head) == if probably_binary(bytes_view(old(self).head)) {
                None
            } else {
                Some(Seq::<u8>::empty())
            },
            final(self).path == old(self).path,
            final(self).is_file == old(self).is_file,
            final(self).size == old(self).size,
            reviewable(Some(*final(self))) == reviewable(Some(*old(self))),
    {
        if is_probably_binary(&self.head) {
            self.head = None;
        } else {
            self.head = Some(Vec::new());
        }
    }
}

/// What the file system says about the path to review.
#[derive(Debug)]
pub enum PathProbe {
    /// It leads nowhere.
    Unresolved { kind: ErrorKind, detail: String },
    /// It leads somewhere that cannot be looked at.
    Unreadable { kind: ErrorKind, detail: String },
    /// A file, at this absolute path.
    File { path: FilePath, size: u64 },
    /// A directory, at this absolute path, with the entries found in it.
    Directory { path: FilePath, entries: Vec<Option<WalkEntry>> },
    /// Anything else.
    Other,
}

/// What the context of a file can be taken from.
#[derive(Debug)]
pub enum ContextSource {
    /// There is no file.
    NotAFile,
    /// The file cannot be read.
    Unreadable { kind: ErrorKind, detail: String },
    /// The text of the file.
    Text(String),
}

/// How far the diff of one file has been built, and what it waits for.
#[derive(Debug)]
pub enum DiffBuild {
    /// For the first bytes of the file.
    Sniff,
    /// For the text of the file.
    Read,
    /// For the tabs of these lines to be replaced.
    Tabify { lines: Vec<String> },
    /// For these lines of the diff to be highlighted.
    Highlight { contents: Vec<String> },
    /// For the hash of these hunks.
    Hash { hunks: Vec<DiffHunk>, too_large: bool },
    /// For nothing: the diff, or `None` where there is nothing to show.
    Done { file: Option<DiffFile> },
}

/// What a [`DiffBuild`] says.
#[verifier::ext_equal]
pub enum DiffBuildView {
    Sniff,
    Read,
    Tabify { lines: Seq<Seq<char>> },
    Highlight { contents: Seq<Seq<char>> },
    Hash { hunks: Seq<DiffHunkView>, too_large: bool },
    Done { file: Option<DiffFileView> },
}

/// What a diff that may be missing says.
pub open spec fn file_view(file: Option<DiffFile>) -> Option<DiffFileView> {
    match file {
        Some(file) => Some(file@),
        None => None,
    }
}

impl View for DiffBuild {
    type V = DiffBuildView;

    open spec fn view(&self) -> DiffBuildView {
        match *self {
            DiffBuild::Sniff => DiffBuildView::Sniff,
            DiffBuild::Read => DiffBuildView::Read,
            DiffBuild::Tabify { lines } => DiffBuildView::Tabify { lines: texts(lines@) },
            DiffBuild::Highlight { contents } => DiffBuildView::Highlight {
                contents: texts(contents@),
            },
            DiffBuild::Hash { hunks, too_large } => DiffBuildView::Hash {
                hunks: hunks_view(hunks@),
                too_large,
            },
            DiffBuild::Done { file } => DiffBuildView::Done { file: file_view(file) },
        }
    }
}

/// What was found out for a diff that is being built.
#[derive(Debug)]
pub enum Observation {
    /// The first bytes of the file, or `None` if it cannot be opened or read.
    Head(Option<Vec<u8>>),
    /// The text of the file, or `None` if it cannot be read as text.
    Text(Option<String>),
    /// The lines, with their tabs replaced.
    Tabified(Vec<String>),
    /// How each line is highlighted.
    Highlighted(Vec<Highlight>),
    /// The hash of the hunks.
    ContentHash(u64),
}

/// What an [`Observation`] says.
pub enum ObservationView {
    Head(Option<Seq<u8>>),
    Text(Option<Seq<char>>),
    Tabified(Seq<Seq<char>>),
    Highlighted(Seq<Option<Seq<(TextStyle, Seq<char>)>>>),
    ContentHash(u64),
}

impl View for Observation {
    type V = ObservationView;

    open spec fn view(&self) -> ObservationView {
        match *self {
            Observation::Head(head) => ObservationView::Head(bytes_view(head)),
            Observation::Text(Some(text)) => ObservationView::Text(Some(text@)),
            Observation::Text(None) => ObservationView::Text(None),
            Observation::Tabified(lines) => ObservationView::Tabified(texts(lines@)),
            Observation::Highlighted(lines) => ObservationView::Highlighted(
                highlights_view(lines@),
            ),
            Observation::ContentHash(hash) => ObservationView::ContentHash(hash),
        }
    }
}

/// Line `i` of a new file: an addition without an old number. Numbers count
/// from one.
pub open spec fn added_line(
    contents: Seq<Seq<char>>,
    highlights: Seq<Option<Seq<(TextStyle, Seq<char>)>>>,
    i: int,
) -> DiffLineView {
    DiffLineView {
        origin: LineOrigin::Addition,
        content: contents[i],
        old_lineno: None,
        new_lineno: Some((i + 1) as u32),
        highlighted_spans: highlights[i],
    }
}

/// The hunk of a new file: all of its lines.
pub open spec fn added_hunk(
    contents: Seq<Seq<char>>,
    highlights: Seq<Option<Seq<(TextStyle, Seq<char>)>>>,
) -> DiffHunkView {
    DiffHunkView {
        header: "@@ -0,0 +1,"@ + decimal(contents.len() as u32 as nat) + " @@"@,
        lines: Seq::new(contents.len(), |i: int| added_line(contents, highlights, i)),
        old_start: 0,
        old_count: 0,
        new_start: 1,
        new_count: contents.len() as u32,
    }
}

/// A new file.
pub open spec fn added_file(
    path: Seq<Seq<u8>>,
    hunks: Seq<DiffHunkView>,
    too_large: bool,
    content_hash: u64,
) -> DiffFileView {
    DiffFileView {
        old_path: None,
        new_path: Some(path),
        status: FileStatus::Added,
        hunks,
        is_binary: false,
        is_too_large: too_large,
        is_commit_message: false,
        content_hash,
    }
}

/// The next step of building the diff of a file.
///
/// A binary file has none, whatever its size. One that is too large is a new
/// file without hunks. One that cannot be read as text has none. The others are
/// new files with one hunk, or with none where they are empty. What was not
/// waited for changes nothing.
pub open spec fn build_step(
    root: Seq<Seq<u8>>,
    path: Seq<Seq<u8>>,
    size: u64,
    build: DiffBuildView,
    seen: ObservationView,
) -> DiffBuildView {
    match (build, seen) {
        (DiffBuildView::Sniff, ObservationView::Head(head)) => if probably_binary(head) {
            DiffBuildView::Done { file: None }
        } else if size > MAX_FILE_BYTES {
            DiffBuildView::Hash { hunks: Seq::empty(), too_large: true }
        } else {
            DiffBuildView::Read
        },
        (DiffBuildView::Read, ObservationView::Text(Some(text))) => if text_lines(text).len()
            == 0 {
            DiffBuildView::Hash { hunks: Seq::empty(), too_large: false }
        } else {
            DiffBuildView::Tabify { lines: text_lines(text) }
        },
        (DiffBuildView::Read, ObservationView::Text(None)) => DiffBuildView::Done { file: None },
        (DiffBuildView::Tabify { lines }, ObservationView::Tabified(contents)) => if contents.len()
            == lines.len() {
            DiffBuildView::Highlight { contents }
        } else {
            build
        },
        (
            DiffBuildView::Highlight { contents },
            ObservationView::Highlighted(highlights),
        ) => if highlights.len() == contents.len() {
            DiffBuildView::Hash {
                hunks: seq![added_hunk(contents, highlights)],
                too_large: false,
            }
        } else {
            build
        },
        (
            DiffBuildView::Hash { hunks, too_large },
            ObservationView::ContentHash(hash),
        ) => DiffBuildView::Done {
            file: Some(added_file(relative_path(path, root), hunks, too_large, hash)),
        },
        _ => build,
    }
}

/// Makes the hunk of a new file.
fn hunk_of_added_lines(contents: Vec<String>, highlights: Vec<Highlight>) -> (hunk: DiffHunk)
    requires
        highlights@.len() == contents@.len(),
    ensures
        hunk@ == added_hunk(texts(contents@), highlights_view(highlights@)),
{
    let ghost shown = texts(contents@);
    let ghost spans = highlights_view(highlights@);
    let count: usize = contents.len();
    let total_lines: u32 = #[verifier::truncate]
    (count as u32);
    let mut highlights = highlights;
    let mut lines: Vec<DiffLine> = Vec::with_capacity(count);
    for content in it: contents.into_iter()
        invariant
            it.seq() == contents@,
            count == contents@.len(),
            shown == texts(contents@),
            highlights@.len() == count,
            spans.len() == count,
            forall|j: int|
                it.index() <= j < count ==> highlight_view(#[trigger] highlights@[j]) == spans[j],
            lines@.len() == it.index(),
            lines_view(lines@) == Seq::new(
                it.index() as nat,
                |i: int| added_line(shown, spans, i),
            ),
    {
        let ghost before = lines@;
        assert(content@ == shown[it.index() as int]);
        let at: usize = lines.len();
        let line_num: u32 = #[verifier::truncate]
        ((at + 1) as u32);
        let highlighted_spans = highlights[at].take();
        assert(highlight_view(highlighted_spans) == spans[at as int]);
        lines.push(
            DiffLine {
                origin: LineOrigin::Addition,
                content,
                old_lineno: None,
                new_lineno: Some(line_num),
                highlighted_spans,
            },
        );
        assert(lines_view(lines@) =~= lines_view(before).push(
            added_line(shown, spans, at as int),
        ));
        assert(lines_view(lines@) =~= Seq::new(
            (it.index() + 1) as nat,
            |i: int| added_line(shown, spans, i),
        ));
    }
    let mut header = "@@ -0,0 +1,".to_owned();
    push_decimal(&mut header, total_lines);
    header.append(" @@");
    let hunk = DiffHunk {
        header,
        lines,
        old_start: 0,
        old_count: 0,
        new_start: 1,
        new_count: total_lines,
    };
    assert(hunk@ =~= added_hunk(shown, spans));
    hunk
}

/// What the backend of plain files says about itself.
pub open spec fn file_info(root: Seq<Seq<u8>>) -> VcsInfoView {
    VcsInfoView {
        root_path: root,
        head_commit: "file"@,
        branch_name: None,
        vcs_type: VcsType::File,
    }
}

/// The lines of a text from number `start` to number `end`, as far as it has
/// them, unchanged on both sides.
pub open spec fn context_lines(lines: Seq<Seq<char>>, start: int, end: int) -> Seq<DiffLineView> {
    let last = if end < lines.len() {
        end
    } else {
        lines.len() as int
    };
    Seq::new(
        if start <= last {
            (last - start + 1) as nat
        } else {
            0
        },
        |i: int| DiffLineView {
            origin: LineOrigin::Context,
            content: lines[start - 1 + i],
            old_lineno: Some((start + i) as u32),
            new_lineno: Some((start + i) as u32),
            highlighted_spans: None,
        },
    )
}

/// A backend for reviewing a file, or the text files of a directory.
pub struct FileBackend {
    info: VcsInfo,
    /// The absolute path of each file to review, with its size when it was found.
    files: Vec<SizedFile>,
}

/// What a [`FileBackend`] says about itself, and what it reviews.
pub struct FileBackendView {
    pub info: VcsInfoView,
    pub files: Seq<SizedFile>,
}

impl FileBackendView {
    /// The directory that files are shown from.
    pub open spec fn root(self) -> Seq<Seq<u8>> {
        self.info.root_path
    }
}

/// Whether a path leads from the root of the file system, and only there starts
/// at it.
pub open spec fn absolute(path: Seq<Seq<u8>>) -> bool {
    &&& path.len() > 0
    &&& path[0] == root_component()
    &&& forall|m: int| 0 < m < path.len() ==> path[m] != root_component()
}

/// Whether a path leads to something inside the directory `root`.
pub open spec fn below(path: Seq<Seq<u8>>, root: Seq<Seq<u8>>) -> bool {
    root.is_prefix_of(path) && root.len() < path.len()
}

/// The path of the file to review at an entry of a walk, if any.
pub open spec fn offered_path(entry: Option<WalkEntry>) -> Option<Seq<Seq<u8>>> {
    match reviewable(entry) {
        Some(file) => Some(file.0@),
        None => None,
    }
}

/// Whether a walk offers only absolute paths inside the directory `dir`.
pub open spec fn offers_below(entries: Seq<Option<WalkEntry>>, dir: Seq<Seq<u8>>) -> bool {
    forall|i: int|
        0 <= i < entries.len() ==> (offered_path(#[trigger] entries[i]) matches Some(path)
            ==> absolute(path) && below(path, dir))
}

/// Whether no two entries of a walk offer the same path.
pub open spec fn distinct_offers(entries: Seq<Option<WalkEntry>>) -> bool {
    forall|i: int, j: int|
        #![trigger entries[i], entries[j]]
        0 <= i < j < entries.len() && offered_path(entries[i]) is Some ==> offered_path(entries[i])
            != offered_path(entries[j])
}

/// Whether a probe says what a file system can say: paths are absolute, a file is
/// not the root, and a walk meets paths inside its directory, each once.
pub open spec fn sound(probe: PathProbe) -> bool {
    match probe {
        PathProbe::File { path, .. } => absolute(path@) && path@.len() > 1,
        PathProbe::Directory { path, entries } => absolute(path@) && distinct_offers(entries@)
            && offers_below(entries@, path@),
        _ => true,
    }
}

/// Whether there are files to review, all with absolute paths inside the root, in
/// strictly ascending order, so that no path occurs twice.
pub open spec fn in_place(backend: FileBackendView) -> bool {
    &&& backend.files.len() > 0
    &&& rising(backend.files)
    &&& forall|i: int|
        0 <= i < backend.files.len() ==> absolute((#[trigger] backend.files[i]).0@) && below(
            backend.files[i].0@,
            backend.root(),
        )
}

impl View for FileBackend {
    type V = FileBackendView;

    closed spec fn view(&self) -> FileBackendView {
        FileBackendView { info: self.info@, files: self.files@ }
    }
}

impl FileBackend {
    /// There is something to review, in order, outside of any repository.
    #[verifier::type_invariant]
    closed spec fn well_formed(self) -> bool {
        &&& self.files@.len() > 0
        &&& sorted(self.files@)
        &&& self.info@ == file_info(self.info.root_path@)
    }

    /// Opens `path` for review, given what the file system says about it.
    pub fn new(path: &str, probe: PathProbe) -> (opened: Result<FileBackend, TuicrError>)
        ensures
            match probe {
                PathProbe::Unresolved { kind, detail } => opened matches Err(error) && error@
                    == (TuicrErrorView::Io {
                    kind: IoErrorKind::Reported(kind),
                    message: "Cannot open '"@ + path@ + "': "@ + detail@,
                }),
                PathProbe::Unreadable { kind, detail } => opened matches Err(error) && error@
                    == (TuicrErrorView::Io {
                    kind: IoErrorKind::Reported(kind),
                    message: detail@,
                }),
                PathProbe::File { path: file, size } => opened matches Ok(backend) && backend@.info
                    == file_info(parent_of(file@)) && backend@.files == seq![(file, size)],
                PathProbe::Directory { path: dir, entries } => if reviewable_files(
                    entries@,
                ).len() == 0 {
                    opened matches Err(error) && error@ == TuicrErrorView::NoChanges
                } else {
                    opened matches Ok(backend) && backend@.info == file_info(dir@) && sorted(
                        backend@.files,
                    ) && backend@.files.to_multiset() == reviewable_files(entries@).to_multiset()
                },
                PathProbe::Other => opened matches Err(error) && error@ == (TuicrErrorView::Io {
                    kind: IoErrorKind::InvalidInput,
                    message: "'"@ + path@ + "' is not a file or directory"@,
                }),
            },
            sound(probe) ==> (opened matches Ok(backend) ==> in_place(backend@)),
    {
        let (root_path, files) = match probe {
            PathProbe::Unresolved { kind, detail } => {
                let mut message = "Cannot open '".to_owned();
                message.append(path);
                message.append("': ");
                message.append(detail.as_str());
                return Err(TuicrError::Io { kind: IoErrorKind::Reported(kind), message });
            },
            PathProbe::Unreadable { kind, detail } => {
                return Err(TuicrError::Io { kind: IoErrorKind::Reported(kind), message: detail });
            },
            PathProbe::File { path: file, size } => {
                let root = file.parent();
                let mut files: Vec<SizedFile> = Vec::new();
                files.push((file, size));
                proof {
                    assert(files@ =~= seq![(file, size)]);
                    assert(sound(probe) ==> below(file@, root@));
                }
                (root, files)
            },
            PathProbe::Directory { path: dir, entries } => {
                let ghost found = reviewable_files(entries@);
                let files = collect_text_files(entries);
                proof {
                    vstd::seq_lib::to_multiset_len(files@);
                    vstd::seq_lib::to_multiset_len(found);
                    if sound(probe) {
                        walked_files_are_in_place(entries@, files@, dir@);
                    }
                }
                if files.len() == 0 {
                    return Err(TuicrError::NoChanges);
                }
                (dir, files)
            },
            PathProbe::Other => {
                let mut message = "'".to_owned();
                message.append(path);
                message.append("' is not a file or directory");
                return Err(TuicrError::Io { kind: IoErrorKind::InvalidInput, message });
            },
        };
        let info = VcsInfo {
            root_path,
            head_commit: "file".to_owned(),
            branch_name: None,
            vcs_type: VcsType::File,
        };
        Ok(FileBackend { info, files })
    }

    /// What this backend reviews.
    pub fn info(&self) -> (info: &VcsInfo)
        ensures
            info@ == self@.info,
            info@ == file_info(self@.root()),
    {
        proof {
            use_type_invariant(self);
        }
        &self.info
    }

    /// The files to review.
    pub fn files(&self) -> (files: &Vec<SizedFile>)
        ensures
            files@ == self@.files,
            files@.len() > 0,
            sorted(files@),
    {
        proof {
            use_type_invariant(self);
        }
        &self.files
    }

    /// Takes the next step of building the diff of the file at `abs_path`.
    pub fn build_diff_file_for_path(
        &self,
        abs_path: &FilePath,
        file_size: u64,
        build: DiffBuild,
        seen: Observation,
    ) -> (next: DiffBuild)
        ensures
            next@ == build_step(self@.root(), abs_path@, file_size, build@, seen@),
    {
        match (build, seen) {
            // Binary files first, so that a large one is not listed as text.
            (DiffBuild::Sniff, Observation::Head(head)) => {
                if is_probably_binary(&head) {
                    DiffBuild::Done { file: None }
                } else if file_size > MAX_FILE_BYTES {
                    let hunks: Vec<DiffHunk> = Vec::new();
                    assert(hunks_view(hunks@) =~= Seq::empty());
                    DiffBuild::Hash { hunks, too_large: true }
                } else {
                    DiffBuild::Read
                }
            },
            (DiffBuild::Read, Observation::Text(Some(text))) => {
                let lines = split_lines(text.as_str());
                assert(lines@.len() == text_lines(text@).len());
                if lines.len() == 0 {
                    let hunks: Vec<DiffHunk> = Vec::new();
                    assert(hunks_view(hunks@) =~= Seq::empty());
                    DiffBuild::Hash { hunks, too_large: false }
                } else {
                    DiffBuild::Tabify { lines }
                }
            },
            (DiffBuild::Read, Observation::Text(None)) => DiffBuild::Done { file: None },
            (DiffBuild::Tabify { lines }, Observation::Tabified(contents)) => {
                if contents.len() == lines.len() {
                    DiffBuild::Highlight { contents }
                } else {
                    DiffBuild::Tabify { lines }
                }
            },
            (DiffBuild::Highlight { contents }, Observation::Highlighted(highlights)) => {
                if highlights.len() == contents.len() {
                    let ghost hunk = added_hunk(texts(contents@), highlights_view(highlights@));
                    let mut hunks: Vec<DiffHunk> = Vec::new();
                    hunks.push(hunk_of_added_lines(contents, highlights));
                    assert(hunks_view(hunks@) =~= seq![hunk]);
                    DiffBuild::Hash { hunks, too_large: false }
                } else {
                    DiffBuild::Highlight { contents }
                }
            },
            (DiffBuild::Hash { hunks, too_large }, Observation::ContentHash(content_hash)) => {
                let file = DiffFile {
                    old_path: None,
                    new_path: Some(abs_path.relative_to(&self.info.root_path)),
                    status: FileStatus::Added,
                    hunks,
                    is_binary: false,
                    is_too_large: too_large,
                    is_commit_message: false,
                    content_hash,
                };
                DiffBuild::Done { file: Some(file) }
            },
            (build, _) => build,
        }
    }

    /// Collects the diffs of the files to review, where `None` is a file without
    /// one.
    pub fn get_working_tree_diff(&self, built: Vec<Option<DiffFile>>) -> (diff: Result<
        Vec<DiffFile>,
        TuicrError,
    >)
        ensures
            match diff {
                Ok(files) => files@ == present(built@) && files@.len() > 0,
                Err(error) => error@ == TuicrErrorView::NoChanges && present(built@).len() == 0,
            },
    {
        let mut files: Vec<DiffFile> = Vec::new();
        for file in it: built.into_iter()
            invariant
                it.seq() == built@,
                files@ == present(built@.take(it.index() as int)),
        {
            proof {
                let at = it.index() as int;
                assert(built@.take(at + 1).drop_last() =~= built@.take(at));
            }
            if let Some(file) = file {
                files.push(file);
            }
        }
        assert(built@.take(built@.len() as int) =~= built@);
        if files.len() == 0 {
            return Err(TuicrError::NoChanges);
        }
        Ok(files)
    }

    /// Where to read the context lines `start_line` to `end_line` of a file, or
    /// `None` if there can be none.
    pub fn context_path(&self, file_path: &FilePath, start_line: u32, end_line: u32) -> (path:
        Option<FilePath>)
        ensures
            match path {
                Some(path) => 0 < start_line <= end_line && path@ == joined(
                    self@.root(),
                    file_path@,
                ),
                None => start_line > end_line || start_line == 0,
            },
    {
        if start_line > end_line || start_line == 0 {
            return None;
        }
        Some(self.info.root_path.join(file_path))
    }

    /// Cuts the context lines `start_line` to `end_line` out of a file.
    pub fn fetch_context_lines(&self, start_line: u32, end_line: u32, source: ContextSource) -> (
    context: Result<Vec<DiffLine>, TuicrError>)
        ensures
            if start_line > end_line || start_line == 0 {
                context matches Ok(lines) && lines@.len() == 0
            } else {
                match source {
                    ContextSource::NotAFile => context matches Ok(lines) && lines@.len() == 0,
                    ContextSource::Unreadable { kind, detail } => context matches Err(error)
                        && error@ == (TuicrErrorView::Io {
                        kind: IoErrorKind::Reported(kind),
                        message: detail@,
                    }),
                    ContextSource::Text(text) => context matches Ok(lines) && lines_view(lines@)
                        == context_lines(text_lines(text@), start_line as int, end_line as int),
                }
            },
    {
        let mut result: Vec<DiffLine> = Vec::new();
        if start_line > end_line || start_line == 0 {
            return Ok(result);
        }
        let text = match source {
            ContextSource::NotAFile => {
                return Ok(result);
            },
            ContextSource::Unreadable { kind, detail } => {
                return Err(TuicrError::Io { kind: IoErrorKind::Reported(kind), message: detail });
            },
            ContextSource::Text(text) => text,
        };
        let lines = split_lines(text.as_str());
        let ghost all = text_lines(text@);
        assert(lines@.len() == all.len());
        let ghost wanted = context_lines(all, start_line as int, end_line as int);
        let mut line_num: u64 = start_line as u64;
        assert(lines_view(result@) =~= wanted.take(0));
        while line_num <= end_line as u64 && line_num <= lines.len() as u64
            invariant
                0 < start_line <= line_num <= end_line + 1,
                texts(lines@) == all,
                wanted == context_lines(all, start_line as int, end_line as int),
                result@.len() == line_num - start_line,
                result@.len() <= wanted.len(),
                lines_view(result@) == wanted.take(line_num - start_line),
            decreases end_line + 1 - line_num,
        {
            let ghost before = result@;
            let idx: usize = (line_num - 1) as usize;
            assert(lines@[idx as int]@ == all[idx as int]);
            result.push(
                DiffLine {
                    origin: LineOrigin::Context,
                    content: lines[idx].clone(),
                    old_lineno: Some(line_num as u32),
                    new_lineno: Some(line_num as u32),
                    highlighted_spans: None,
                },
            );
            proof {
                let at = line_num - start_line;
                assert(lines_view(result@) =~= lines_view(before).push(result@.last()@));
                assert(result@.last()@ =~= wanted[at]);
                assert(lines_view(result@) =~= wanted.take(at + 1));
            }
            line_num += 1;
        }
        assert(wanted.take(wanted.len() as int) =~= wanted);
        Ok(result)
    }
}

} // verus!

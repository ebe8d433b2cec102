//! What the steps of building the diff of a file promise, and where they lead.

use crate::backend_laws::{build_after, highlights_line_by_line, shown_lines, FileFacts};
use crate::file_backend::{
    added_hunk, DiffBuild, DiffBuildView, FileBackend, Observation,
};
use crate::model::{
    highlights_view, hunks_view, lines_view, spans_view, DiffFile, DiffHunk, DiffLine,
    DiffLineView, FileStatus, Highlight, LineOrigin,
};
use crate::path::FilePath;
use crate::text::{
    decimal, each_line_feed_ends_a_line, ended_lines_are_the_text, text_lines, texts,
};
use vstd::prelude::*;

verus! {

/// Whether lines are highlighted alike: neither, or with the same pieces.
pub open spec fn same_pieces(a: Highlight, b: Highlight) -> bool {
    match (a, b) {
        (Some(a), Some(b)) => a@.len() == b@.len() && forall|i: int|
            0 <= i < a@.len() ==> (#[trigger] a@[i]).0 == b@[i].0 && a@[i].1@ == b@[i].1@,
        (None, None) => true,
        _ => false,
    }
}

/// Whether strings hold the same texts.
pub open spec fn same_texts(a: Seq<String>, b: Seq<String>) -> bool {
    a.len() == b.len() && forall|i: int| 0 <= i < a.len() ==> (#[trigger] a[i])@ == b[i]@
}

/// Whether lines have the same origin, content, numbers and highlighting.
pub open spec fn same_line(a: DiffLine, b: DiffLine) -> bool {
    &&& a.origin == b.origin
    &&& a.content@ == b.content@
    &&& a.old_lineno == b.old_lineno
    &&& a.new_lineno == b.new_lineno
    &&& same_pieces(a.highlighted_spans, b.highlighted_spans)
}

/// Whether hunks have the same header, the same starts and counts, and the same
/// lines.
pub open spec fn same_hunk(a: DiffHunk, b: DiffHunk) -> bool {
    &&& a.header@ == b.header@
    &&& a.old_start == b.old_start
    &&& a.old_count == b.old_count
    &&& a.new_start == b.new_start
    &&& a.new_count == b.new_count
    &&& a.lines@.len() == b.lines@.len()
    &&& forall|i: int| 0 <= i < a.lines@.len() ==> same_line(#[trigger] a.lines@[i], b.lines@[i])
}

/// Whether there are the same hunks.
pub open spec fn same_hunks(a: Seq<DiffHunk>, b: Seq<DiffHunk>) -> bool {
    a.len() == b.len() && forall|i: int| 0 <= i < a.len() ==> same_hunk(#[trigger] a[i], b[i])
}

/// Whether paths that may be missing have the same names.
pub open spec fn same_path(a: Option<FilePath>, b: Option<FilePath>) -> bool {
    match (a, b) {
        (Some(a), Some(b)) => a@ == b@,
        (None, None) => true,
        _ => false,
    }
}

/// Whether diffs are the same in everything.
pub open spec fn same_file(a: DiffFile, b: DiffFile) -> bool {
    &&& same_path(a.old_path, b.old_path)
    &&& same_path(a.new_path, b.new_path)
    &&& a.status == b.status
    &&& same_hunks(a.hunks@, b.hunks@)
    &&& a.is_binary == b.is_binary
    &&& a.is_too_large == b.is_too_large
    &&& a.is_commit_message == b.is_commit_message
    &&& a.content_hash == b.content_hash
}

proof fn lemma_same_pieces(a: Highlight, b: Highlight, n: DiffLine, m: DiffLine)
    requires
        n.highlighted_spans == a,
        m.highlighted_spans == b,
        n@.highlighted_spans == m@.highlighted_spans,
    ensures
        same_pieces(a, b),
{
    if let (Some(a), Some(b)) = (a, b) {
        assert(spans_view(a@).len() == a@.len());
        assert forall|i: int| 0 <= i < a@.len() implies (#[trigger] a@[i]).0 == b@[i].0
            && a@[i].1@ == b@[i].1@ by {
            assert(spans_view(a@)[i] == (a@[i].0, a@[i].1@));
            assert(spans_view(b@)[i] == (b@[i].0, b@[i].1@));
        }
    }
}

proof fn lemma_same_texts(a: Seq<String>, b: Seq<String>)
    requires
        texts(a) == texts(b),
    ensures
        same_texts(a, b),
{
    assert(texts(a).len() == a.len());
    assert forall|i: int| 0 <= i < a.len() implies (#[trigger] a[i])@ == b[i]@ by {
        assert(texts(a)[i] == a[i]@);
        assert(texts(b)[i] == b[i]@);
    }
}

proof fn lemma_same_hunk(a: DiffHunk, b: DiffHunk)
    requires
        a@ == b@,
    ensures
        same_hunk(a, b),
{
    assert(a@.lines.len() == a.lines@.len());
    assert(b@.lines.len() == b.lines@.len());
    assert forall|i: int| 0 <= i < a.lines@.len() implies same_line(
        #[trigger] a.lines@[i],
        b.lines@[i],
    ) by {
        assert(a@.lines[i] == a.lines@[i]@);
        assert(b@.lines[i] == b.lines@[i]@);
        lemma_same_pieces(
            a.lines@[i].highlighted_spans,
            b.lines@[i].highlighted_spans,
            a.lines@[i],
            b.lines@[i],
        );
    }
}

proof fn lemma_same_hunks(a: Seq<DiffHunk>, b: Seq<DiffHunk>)
    requires
        hunks_view(a) == hunks_view(b),
    ensures
        same_hunks(a, b),
{
    assert(hunks_view(a).len() == a.len());
    assert forall|i: int| 0 <= i < a.len() implies same_hunk(#[trigger] a[i], b[i]) by {
        assert(hunks_view(a)[i] == a[i]@);
        assert(hunks_view(b)[i] == b[i]@);
        lemma_same_hunk(a[i], b[i]);
    }
}

/// What a diff says tells it from every other diff.
pub proof fn diff_says_all_it_holds(a: DiffFile, b: DiffFile)
    ensures
        a@ == b@ ==> same_file(a, b),
{
    if a@ == b@ {
        lemma_same_hunks(a.hunks@, b.hunks@);
    }
}

/// The first bytes of a file decide first: where they could not be read, or one of
/// the first 8192 is zero, there is no diff. Else a file of more than ten mebibytes
/// becomes a placeholder without hunks, and any other is read.
pub proof fn first_bytes_decide(
    backend: &FileBackend,
    path: &FilePath,
    size: u64,
    head: Option<Vec<u8>>,
    next: DiffBuild,
)
    requires
        call_ensures(
            FileBackend::build_diff_file_for_path,
            (backend, path, size, DiffBuild::Sniff, Observation::Head(head)),
            next,
        ),
    ensures
        ({
            let text = head matches Some(bytes) && forall|i: int|
                0 <= i < bytes@.len() && i < 8192 ==> #[trigger] bytes@[i] != 0;
            &&& !text ==> next == (DiffBuild::Done { file: None })
            &&& text && size > 10_485_760 ==> (next matches DiffBuild::Hash { hunks, too_large }
                && hunks@.len() == 0 && too_large)
            &&& text && size <= 10_485_760 ==> next is Read
        }),
{
    if let DiffBuild::Hash { hunks, too_large } = next {
        assert(hunks_view(hunks@).len() == hunks@.len());
    }
}

/// A text is taken apart into as many lines as it has: one for each line feed, and
/// one more where it ends without. An empty one has no hunks. Without carriage
/// returns the lines, each with its line feed, are the text again.
pub proof fn text_is_taken_apart_whole(
    backend: &FileBackend,
    path: &FilePath,
    size: u64,
    text: String,
    next: DiffBuild,
)
    requires
        call_ensures(
            FileBackend::build_diff_file_for_path,
            (backend, path, size, DiffBuild::Read, Observation::Text(Some(text))),
            next,
        ),
    ensures
        text@.len() == 0 ==> (next matches DiffBuild::Hash { hunks, too_large } && hunks@.len() == 0
            && !too_large),
        text@.len() > 0 ==> (next matches DiffBuild::Tabify { lines } && {
            &&& lines@.len() == text_lines(text@).len()
            &&& forall|i: int|
                0 <= i < lines@.len() ==> (#[trigger] lines@[i])@ == text_lines(text@)[i]
            &&& lines@.len() == text@.filter(|c: char| c == '\n').len() + if text@.last() != '\n' {
                1int
            } else {
                0
            }
            &&& !text@.contains('\r') ==> lines@.map_values(
                |line: String| line@.push('\n'),
            ).flatten() == if text@.last() != '\n' {
                text@.push('\n')
            } else {
                text@
            }
        }),
{
    each_line_feed_ends_a_line(text@);
    if let DiffBuild::Hash { hunks, too_large } = next {
        assert(hunks_view(hunks@).len() == hunks@.len());
    }
    if text@.len() > 0 {
        assert(text_lines(text@).len() > 0);
    } else {
        assert(text_lines(text@).len() == 0);
    }
    if let DiffBuild::Tabify { lines } = next {
        assert(texts(lines@) == text_lines(text@));
        assert forall|i: int| 0 <= i < lines@.len() implies (#[trigger] lines@[i])@ == text_lines(
            text@,
        )[i] by {
            assert(texts(lines@)[i] == lines@[i]@);
        }
        if !text@.contains('\r') {
            ended_lines_are_the_text(text@);
            assert(lines@.map_values(|line: String| line@.push('\n')) =~= text_lines(
                text@,
            ).map_values(|line: Seq<char>| line.push('\n')));
        }
    }
}

/// A file that cannot be read as text has no diff.
pub proof fn unreadable_text_has_no_diff(
    backend: &FileBackend,
    path: &FilePath,
    size: u64,
    next: DiffBuild,
)
    requires
        call_ensures(
            FileBackend::build_diff_file_for_path,
            (backend, path, size, DiffBuild::Read, Observation::Text(None)),
            next,
        ),
    ensures
        next == (DiffBuild::Done { file: None }),
{
}

/// Lines with their tabs replaced take the place of the lines, one for one. Any
/// other number of lines is not what was waited for.
pub proof fn tabs_are_replaced_line_by_line(
    backend: &FileBackend,
    path: &FilePath,
    size: u64,
    lines: Vec<String>,
    replaced: Vec<String>,
    next: DiffBuild,
)
    requires
        call_ensures(
            FileBackend::build_diff_file_for_path,
            (backend, path, size, DiffBuild::Tabify { lines }, Observation::Tabified(replaced)),
            next,
        ),
    ensures
        replaced@.len() == lines@.len() ==> (next matches DiffBuild::Highlight { contents }
            && same_texts(contents@, replaced@)),
        replaced@.len() != lines@.len() ==> (next matches DiffBuild::Tabify { lines: waiting }
            && same_texts(waiting@, lines@)),
{
    assert(texts(lines@).len() == lines@.len());
    assert(texts(replaced@).len() == replaced@.len());
    if let DiffBuild::Highlight { contents } = next {
        lemma_same_texts(contents@, replaced@);
    }
    if let DiffBuild::Tabify { lines: waiting } = next {
        lemma_same_texts(waiting@, lines@);
    }
}

/// The lines of a diff make one hunk. Each is an addition with the content and the
/// highlighting it came with, no old number, and the next number of the new side,
/// from one on, in 32 bits. The hunk counts them. Any other number of highlighted
/// lines is not what was waited for.
pub proof fn lines_become_numbered_additions(
    backend: &FileBackend,
    path: &FilePath,
    size: u64,
    contents: Vec<String>,
    highlights: Vec<Highlight>,
    next: DiffBuild,
)
    requires
        call_ensures(
            FileBackend::build_diff_file_for_path,
            (
                backend,
                path,
                size,
                DiffBuild::Highlight { contents },
                Observation::Highlighted(highlights),
            ),
            next,
        ),
    ensures
        highlights@.len() == contents@.len() ==> (next matches DiffBuild::Hash {
            hunks,
            too_large,
        } && {
            &&& !too_large
            &&& hunks@.len() == 1
            &&& hunks@[0].header@ == "@@ -0,0 +1,"@ + decimal(
                contents@.len() as u32 as nat,
            ) + " @@"@
            &&& hunks@[0].old_start == 0
            &&& hunks@[0].old_count == 0
            &&& hunks@[0].new_start == 1
            &&& hunks@[0].new_count == contents@.len() as u32
            &&& hunks@[0].lines@.len() == contents@.len()
            &&& forall|i: int|
                0 <= i < contents@.len() ==> {
                    let line = #[trigger] hunks@[0].lines@[i];
                    &&& line.origin == LineOrigin::Addition
                    &&& line.content@ == contents@[i]@
                    &&& line.old_lineno is None
                    &&& line.new_lineno == Some((i + 1) as u32)
                    &&& i < u32::MAX ==> (line.new_lineno matches Some(n) && n as int == i + 1)
                    &&& same_pieces(line.highlighted_spans, highlights@[i])
                }
        }),
        highlights@.len() != contents@.len() ==> (next matches DiffBuild::Highlight {
            contents: waiting,
        } && same_texts(waiting@, contents@)),
{
    let shown = texts(contents@);
    let spans = highlights_view(highlights@);
    assert(shown.len() == contents@.len());
    assert(spans.len() == highlights@.len());
    if let DiffBuild::Highlight { contents: waiting } = next {
        lemma_same_texts(waiting@, contents@);
    }
    if let DiffBuild::Hash { hunks, too_large } = next {
        let all = hunks_view(hunks@);
        assert(all.len() == hunks@.len());
        assert(all[0] == hunks@[0]@);
        let hunk = added_hunk(shown, spans);
        assert(hunks@[0]@ == hunk);
        let lines = hunks@[0].lines@;
        assert(hunk.lines == lines_view(lines));
        assert(lines.len() == hunk.lines.len());
        assert forall|i: int| 0 <= i < contents@.len() implies {
            let line = #[trigger] hunks@[0].lines@[i];
            &&& line.origin == LineOrigin::Addition
            &&& line.content@ == contents@[i]@
            &&& line.old_lineno is None
            &&& line.new_lineno == Some((i + 1) as u32)
            &&& i < u32::MAX ==> (line.new_lineno matches Some(n) && n as int == i + 1)
            &&& same_pieces(line.highlighted_spans, highlights@[i])
        } by {
            assert(hunk.lines[i] == lines[i]@);
            assert(shown[i] == contents@[i]@);
            let other = DiffLine { highlighted_spans: highlights@[i], ..lines[i] };
            assert(spans[i] == other@.highlighted_spans);
            lemma_same_pieces(lines[i].highlighted_spans, highlights@[i], lines[i], other);
        }
    }
}

/// With the hash of its hunks a diff is finished: a new file, under its path as
/// seen from the root, with those hunks and that hash.
pub proof fn finished_diff_is_a_new_file(
    backend: &FileBackend,
    path: &FilePath,
    size: u64,
    hunks: Vec<DiffHunk>,
    too_large: bool,
    hash: u64,
    next: DiffBuild,
)
    requires
        call_ensures(
            FileBackend::build_diff_file_for_path,
            (
                backend,
                path,
                size,
                DiffBuild::Hash { hunks, too_large },
                Observation::ContentHash(hash),
            ),
            next,
        ),
    ensures
        next matches DiffBuild::Done { file: Some(file) } && {
            &&& file.old_path is None
            &&& file.new_path matches Some(shown) && {
                let root = backend@.root();
                let inside = root.len() <= path@.len() && forall|i: int|
                    0 <= i < root.len() ==> #[trigger] root[i] == path@[i];
                &&& inside ==> root + shown@ == path@
                &&& !inside ==> shown@ == path@
            }
            &&& file.status == FileStatus::Added
            &&& same_hunks(file.hunks@, hunks@)
            &&& !file.is_binary
            &&& file.is_too_large == too_large
            &&& !file.is_commit_message
            &&& file.content_hash == hash
        },
{
    if let DiffBuild::Done { file: Some(file) } = next {
        lemma_same_hunks(file.hunks@, hunks@);
        let root = backend@.root();
        let inside = root.len() <= path@.len() && forall|i: int|
            0 <= i < root.len() ==> #[trigger] root[i] == path@[i];
        let shown = file.new_path->0;
        if inside {
            assert(root =~= path@.subrange(0, root.len() as int));
            assert(root + path@.skip(root.len() as int) =~= path@);
        } else if root.is_prefix_of(path@) {
            assert forall|i: int| 0 <= i < root.len() implies #[trigger] root[i] == path@[i] by {
                assert(path@.subrange(0, root.len() as int)[i] == path@[i]);
            }
        }
    }
}

/// What was not waited for leaves a build as it is.
pub proof fn other_news_changes_nothing(
    backend: &FileBackend,
    path: &FilePath,
    size: u64,
    build: DiffBuild,
    seen: Observation,
    next: DiffBuild,
)
    requires
        call_ensures(
            FileBackend::build_diff_file_for_path,
            (backend, path, size, build, seen),
            next,
        ),
        build is Sniff ==> !(seen is Head),
        build is Read ==> !(seen is Text),
        build is Tabify ==> !(seen is Tabified),
        build is Highlight ==> !(seen is Highlighted),
        build is Hash ==> !(seen is ContentHash),
    ensures
        match build {
            DiffBuild::Sniff => next is Sniff,
            DiffBuild::Read => next is Read,
            DiffBuild::Tabify { lines } => next matches DiffBuild::Tabify { lines: same }
                && same_texts(same@, lines@),
            DiffBuild::Highlight { contents } => next matches DiffBuild::Highlight {
                contents: same,
            } && same_texts(same@, contents@),
            DiffBuild::Hash { hunks, too_large } => next matches DiffBuild::Hash {
                hunks: same,
                too_large: still,
            } && same_hunks(same@, hunks@) && still == too_large,
            DiffBuild::Done { file: Some(file) } => next matches DiffBuild::Done {
                file: Some(same),
            } && same_file(same, file),
            DiffBuild::Done { file: None } => next == (DiffBuild::Done { file: None }),
        },
{
    assert(next@ == build@);
    match (build, next) {
        (DiffBuild::Tabify { lines: a }, DiffBuild::Tabify { lines: b }) => {
            lemma_same_texts(b@, a@);
        },
        (DiffBuild::Highlight { contents: a }, DiffBuild::Highlight { contents: b }) => {
            lemma_same_texts(b@, a@);
        },
        (DiffBuild::Hash { hunks: a, .. }, DiffBuild::Hash { hunks: b, .. }) => {
            lemma_same_hunks(b@, a@);
        },
        (DiffBuild::Done { file: Some(a) }, DiffBuild::Done { file: Some(b) }) => {
            diff_says_all_it_holds(b, a);
        },
        _ => {},
    }
}

/// The diff of a text that is neither empty, binary nor too large shows the whole
/// text: its one hunk has as many lines as the text, and line `i` of it is an
/// addition with the number `i + 1` and holds that line of the text, with its tabs
/// replaced. Where tabs are kept and there is no carriage return, the contents,
/// each with a line feed, are the text again.
pub proof fn diff_shows_whole_text(
    root: Seq<Seq<u8>>,
    path: Seq<Seq<u8>>,
    size: u64,
    facts: FileFacts,
    bytes: Seq<u8>,
    text: Seq<char>,
)
    requires
        highlights_line_by_line(facts),
        facts.head == Some(bytes),
        forall|i: int| 0 <= i < bytes.len() && i < 8192 ==> bytes[i] != 0,
        size <= 10_485_760,
        facts.text == Some(text),
        text.len() > 0,
        text_lines(text).len() <= u32::MAX,
    ensures
        build_after(root, path, size, facts, DiffBuildView::Sniff, 5) matches DiffBuildView::Done {
            file: Some(file),
        } && file.hunks.len() == 1 && {
            let lines = file.hunks[0].lines;
            let total = text.filter(|c: char| c == '\n').len() + if text.last() != '\n' {
                1int
            } else {
                0
            };
            &&& lines.len() == total
            &&& lines.len() == text_lines(text).len()
            &&& file.hunks[0].new_count == total
            &&& file.hunks[0].header == "@@ -0,0 +1,"@ + decimal(total as nat) + " @@"@
            &&& forall|i: int|
                0 <= i < lines.len() ==> {
                    &&& (#[trigger] lines[i]).origin == LineOrigin::Addition
                    &&& lines[i].old_lineno is None
                    &&& lines[i].new_lineno matches Some(n) && n as int == i + 1
                    &&& lines[i].content == (facts.tabify)(text_lines(text)[i])
                }
            &&& !text.contains('\r') && (forall|line: Seq<char>| #[trigger]
                (facts.tabify)(line) == line) ==> lines.map_values(
                |line: DiffLineView| line.content.push('\n'),
            ).flatten() == if text.last() != '\n' {
                text.push('\n')
            } else {
                text
            }
        },
{
    reveal_with_fuel(build_after, 6);
    each_line_feed_ends_a_line(text);
    let contents = shown_lines(facts, text_lines(text));
    let highlights = (facts.highlight)(contents);
    assert(highlights.len() == contents.len());
    let lines = added_hunk(contents, highlights).lines;
    assert(text_lines(text).len() > 0);
    if !text.contains('\r') && (forall|line: Seq<char>| #[trigger] (facts.tabify)(line) == line) {
        ended_lines_are_the_text(text);
        assert(lines.map_values(|line: DiffLineView| line.content.push('\n')) =~= text_lines(
            text,
        ).map_values(|line: Seq<char>| line.push('\n')));
    }
}

} // verus!

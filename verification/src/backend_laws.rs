//! What reviewing plain files promises as a whole.

use crate::diff_document::{
    additions_before, deletions_behind, document_rows, rows_upto, run_before, DocRow, DocSign,
};
use crate::file_backend::{
    absolute, added_file, added_hunk, below, build_step, bytes_view, collect_text_files,
    context_lines, distinct_offers, file_view, is_probably_binary, offered_path, offers_below,
    present, probably_binary, reviewable, reviewable_files, ContextSource, DiffBuildView,
    FileBackend, ObservationView, PathProbe, WalkEntry, MAX_FILE_BYTES,
};
use crate::model::{
    lines_view, DiffFile, DiffFileView, DiffHunkView, DiffLine, DiffLineView, FileStatus,
    LineOrigin,
};
use crate::order::{
    lemma_map_multiset, listing, path_order, relative_paths_keep_order, rising, sorted,
    sorted_distinct_files_rise, sorted_files_are_one_list, SizedFile,
};
use crate::path::{
    parent_is_path_before_name, path_is_followed_from_base, relative_path, root_component,
    FilePath,
};
use crate::terminal::TextStyle;
use crate::text::{ended_lines_are_the_text, text_lines};
use crate::vcs::{IoErrorKind, TuicrError, VcsInfo, VcsType};
use vstd::prelude::*;

verus! {

/// All that is found out about one file while its diff is built.
pub struct FileFacts {
    pub head: Option<Seq<u8>>,
    pub text: Option<Seq<char>>,
    /// How the tabs of a line are replaced.
    pub tabify: spec_fn(Seq<char>) -> Seq<char>,
    /// How lines are highlighted.
    pub highlight: spec_fn(Seq<Seq<char>>) -> Seq<Option<Seq<(TextStyle, Seq<char>)>>>,
    /// How hunks are hashed.
    pub hash: spec_fn(Seq<DiffHunkView>) -> u64,
}

/// The lines of a diff: those of a text, with their tabs replaced.
pub open spec fn shown_lines(facts: FileFacts, lines: Seq<Seq<char>>) -> Seq<Seq<char>> {
    lines.map_values(facts.tabify)
}

/// Whether there is one answer for each line that is to be highlighted.
pub open spec fn highlights_line_by_line(facts: FileFacts) -> bool {
    forall|lines: Seq<Seq<char>>| (#[trigger] (facts.highlight)(lines)).len() == lines.len()
}

/// What a diff that is being built gets to know next.
pub open spec fn next_fact(facts: FileFacts, build: DiffBuildView) -> ObservationView {
    match build {
        DiffBuildView::Sniff => ObservationView::Head(facts.head),
        DiffBuildView::Read => ObservationView::Text(facts.text),
        DiffBuildView::Tabify { lines } => ObservationView::Tabified(shown_lines(facts, lines)),
        DiffBuildView::Highlight { contents } => ObservationView::Highlighted(
            (facts.highlight)(contents),
        ),
        DiffBuildView::Hash { hunks, .. } => ObservationView::ContentHash((facts.hash)(hunks)),
        DiffBuildView::Done { .. } => ObservationView::ContentHash(0),
    }
}

/// Where a build has got to after a number of steps.
pub open spec fn build_after(
    root: Seq<Seq<u8>>,
    path: Seq<Seq<u8>>,
    size: u64,
    facts: FileFacts,
    build: DiffBuildView,
    steps: nat,
) -> DiffBuildView
    decreases steps,
{
    if steps == 0 {
        build
    } else {
        build_after(
            root,
            path,
            size,
            facts,
            build_step(root, path, size, build, next_fact(facts, build)),
            (steps - 1) as nat,
        )
    }
}

/// The diff of a file, or `None` where it is not listed.
pub open spec fn reviewed_file(
    root: Seq<Seq<u8>>,
    path: Seq<Seq<u8>>,
    size: u64,
    facts: FileFacts,
) -> Option<DiffFileView> {
    let shown = relative_path(path, root);
    if probably_binary(facts.head) {
        None
    } else if size > MAX_FILE_BYTES {
        let hunks = Seq::<DiffHunkView>::empty();
        Some(added_file(shown, hunks, true, (facts.hash)(hunks)))
    } else {
        match facts.text {
            Some(text) => {
                let hunks = if text_lines(text).len() == 0 {
                    Seq::<DiffHunkView>::empty()
                } else {
                    let contents = shown_lines(facts, text_lines(text));
                    seq![added_hunk(contents, (facts.highlight)(contents))]
                };
                Some(added_file(shown, hunks, false, (facts.hash)(hunks)))
            },
            None => None,
        }
    }
}

/// Building the diff of a file ends after five steps at most, with the diff that
/// the facts about the file call for.
pub proof fn build_ends_with_reviewed_file(
    root: Seq<Seq<u8>>,
    path: Seq<Seq<u8>>,
    size: u64,
    facts: FileFacts,
)
    requires
        highlights_line_by_line(facts),
    ensures
        build_after(root, path, size, facts, DiffBuildView::Sniff, 5) == (DiffBuildView::Done {
            file: reviewed_file(root, path, size, facts),
        }),
{
    reveal_with_fuel(build_after, 6);
    if let Some(text) = facts.text {
        let contents = shown_lines(facts, text_lines(text));
        assert((facts.highlight)(contents).len() == contents.len());
    }
}

/// A finished build stays as it is, whatever else is found out.
pub proof fn finished_build_stays(
    root: Seq<Seq<u8>>,
    path: Seq<Seq<u8>>,
    size: u64,
    file: Option<DiffFileView>,
    seen: ObservationView,
)
    ensures
        build_step(root, path, size, DiffBuildView::Done { file }, seen) == (DiffBuildView::Done {
            file,
        }),
{
}

/// A binary file is not listed, not even as too large.
pub proof fn binary_files_are_skipped(
    root: Seq<Seq<u8>>,
    path: Seq<Seq<u8>>,
    size: u64,
    facts: FileFacts,
)
    requires
        probably_binary(facts.head),
    ensures
        reviewed_file(root, path, size, facts) is None,
{
}

/// Every listed file is a new text file, under its path from the root. It has
/// one hunk, or none where it is too large or empty.
pub proof fn listed_files_are_new(
    root: Seq<Seq<u8>>,
    path: Seq<Seq<u8>>,
    size: u64,
    facts: FileFacts,
)
    ensures
        reviewed_file(root, path, size, facts) matches Some(file) ==> {
            &&& file.status == FileStatus::Added
            &&& file.old_path is None
            &&& file.new_path == Some(relative_path(path, root))
            &&& !file.is_binary
            &&& !file.is_commit_message
            &&& file.is_too_large <==> size > MAX_FILE_BYTES
            &&& file.hunks.len() == if file.is_too_large || facts.text == Some(
                Seq::<char>::empty(),
            ) {
                0int
            } else {
                1
            }
            &&& file.content_hash == (facts.hash)(file.hunks)
        },
{
    if let Some(text) = facts.text {
        assert(text.len() == 0 ==> text =~= Seq::<char>::empty());
        assert(text_lines(text).len() == 0 <==> text.len() == 0);
    }
}

/// Every text file is listed, unless it cannot be read. Of one that is too large
/// the text does not matter.
pub proof fn text_files_are_listed(
    root: Seq<Seq<u8>>,
    path: Seq<Seq<u8>>,
    size: u64,
    facts: FileFacts,
)
    requires
        !probably_binary(facts.head),
    ensures
        reviewed_file(root, path, size, facts) is Some <==> (size > MAX_FILE_BYTES
            || facts.text is Some),
{
}

/// The hunk of a new file holds nothing but additions, numbered from one, as
/// many as it says.
pub proof fn new_file_lines_are_numbered(
    contents: Seq<Seq<char>>,
    highlights: Seq<Option<Seq<(TextStyle, Seq<char>)>>>,
    i: int,
)
    requires
        contents.len() <= u32::MAX,
        0 <= i < contents.len(),
    ensures
        added_hunk(contents, highlights).lines.len() == contents.len(),
        added_hunk(contents, highlights).new_count == contents.len(),
        added_hunk(contents, highlights).old_count == 0,
        added_hunk(contents, highlights).lines[i].origin == LineOrigin::Addition,
        added_hunk(contents, highlights).lines[i].old_lineno is None,
        added_hunk(contents, highlights).lines[i].new_lineno matches Some(n) && n == i + 1,
        added_hunk(contents, highlights).lines[i].content == contents[i],
{
}

/// A line without its highlighting.
pub open spec fn bare_line(line: DiffLineView) -> DiffLineView {
    DiffLineView { highlighted_spans: None, ..line }
}

/// A hunk without the highlighting of its lines.
pub open spec fn bare_hunk(hunk: DiffHunkView) -> DiffHunkView {
    DiffHunkView { lines: hunk.lines.map_values(|line: DiffLineView| bare_line(line)), ..hunk }
}

/// A diff without highlighting, and without the hash, which may depend on it.
pub open spec fn bare_file(file: DiffFileView) -> DiffFileView {
    DiffFileView {
        hunks: file.hunks.map_values(|hunk: DiffHunkView| bare_hunk(hunk)),
        content_hash: 0,
        ..file
    }
}

/// However its lines are highlighted, the hunk of a new file has the same header,
/// counts, and lines with the same origins, contents and numbers.
pub proof fn highlighting_keeps_hunk(
    contents: Seq<Seq<char>>,
    a: Seq<Option<Seq<(TextStyle, Seq<char>)>>>,
    b: Seq<Option<Seq<(TextStyle, Seq<char>)>>>,
)
    ensures
        bare_hunk(added_hunk(contents, a)) == bare_hunk(added_hunk(contents, b)),
{
    assert(bare_hunk(added_hunk(contents, a)).lines =~= bare_hunk(added_hunk(contents, b)).lines);
}

/// Highlighting changes nothing of a build but the highlighted pieces: two
/// answers for as many lines lead to hunks that differ in those alone.
pub proof fn highlighting_step_keeps_lines(
    root: Seq<Seq<u8>>,
    path: Seq<Seq<u8>>,
    size: u64,
    contents: Seq<Seq<char>>,
    a: Seq<Option<Seq<(TextStyle, Seq<char>)>>>,
    b: Seq<Option<Seq<(TextStyle, Seq<char>)>>>,
)
    requires
        a.len() == contents.len(),
        b.len() == contents.len(),
    ensures
        ({
            let waiting = DiffBuildView::Highlight { contents };
            let after_a = build_step(root, path, size, waiting, ObservationView::Highlighted(a));
            let after_b = build_step(root, path, size, waiting, ObservationView::Highlighted(b));
            &&& after_a is Hash && after_b is Hash
            &&& after_a->too_large == after_b->too_large
            &&& after_a->hunks.map_values(|hunk: DiffHunkView| bare_hunk(hunk))
                == after_b->hunks.map_values(|hunk: DiffHunkView| bare_hunk(hunk))
        }),
{
    highlighting_keeps_hunk(contents, a, b);
    assert(seq![added_hunk(contents, a)].map_values(|hunk: DiffHunkView| bare_hunk(hunk))
        =~= seq![added_hunk(contents, b)].map_values(|hunk: DiffHunkView| bare_hunk(hunk)));
}

/// Highlighting changes nothing of a diff but the highlighted pieces, and the
/// hash where that depends on them: two highlighters list the same file with the
/// same path, status, flags, hunks, lines, contents and numbers, or neither does.
pub proof fn highlighting_changes_only_pieces(
    root: Seq<Seq<u8>>,
    path: Seq<Seq<u8>>,
    size: u64,
    a: FileFacts,
    b: FileFacts,
)
    requires
        a.head == b.head,
        a.text == b.text,
        forall|line: Seq<char>| #[trigger] (a.tabify)(line) == (b.tabify)(line),
    ensures
        reviewed_file(root, path, size, a) is Some <==> reviewed_file(root, path, size, b) is Some,
        reviewed_file(root, path, size, a) matches Some(with_a) ==> (reviewed_file(
            root,
            path,
            size,
            b,
        ) matches Some(with_b) && bare_file(with_a) == bare_file(with_b)),
{
    if let Some(with_a) = reviewed_file(root, path, size, a) {
        let with_b = reviewed_file(root, path, size, b)->0;
        if let Some(text) = a.text {
            let contents = shown_lines(a, text_lines(text));
            assert(contents =~= shown_lines(b, text_lines(text)));
            highlighting_keeps_hunk(contents, (a.highlight)(contents), (b.highlight)(contents));
        }
        assert(bare_file(with_a).hunks =~= bare_file(with_b).hunks);
    }
}

proof fn lemma_no_deletions(lines: Seq<LineOrigin>, k: int)
    requires
        forall|m: int| 0 <= m < lines.len() ==> lines[m] == LineOrigin::Addition,
    ensures
        run_before(lines, LineOrigin::Deletion, k) == 0,
{
}

proof fn lemma_only_adds(lines: Seq<LineOrigin>, revealed: bool, n: int)
    requires
        0 <= n <= lines.len(),
        forall|m: int| 0 <= m < lines.len() ==> lines[m] == LineOrigin::Addition,
    ensures
        rows_upto(lines, revealed, n) == Seq::new(
            n as nat,
            |i: int| DocRow { line_idx: i as usize, sign: DocSign::Add, delete_above: false },
        ),
    decreases n,
{
    if n > 0 {
        lemma_only_adds(lines, revealed, n - 1);
        lemma_no_deletions(lines, n - 1 - additions_before(lines, n - 1));
        assert(deletions_behind(lines, n - 1) == 0);
        lemma_additions_before_nonnegative(lines, n - 1);
    }
    assert(rows_upto(lines, revealed, n) =~= Seq::new(
        n as nat,
        |i: int| DocRow { line_idx: i as usize, sign: DocSign::Add, delete_above: false },
    ));
}

proof fn lemma_additions_before_nonnegative(lines: Seq<LineOrigin>, k: int)
    ensures
        additions_before(lines, k) >= 0,
    decreases k,
{
    if 0 < k <= lines.len() && lines[k - 1] == LineOrigin::Addition {
        lemma_additions_before_nonnegative(lines, k - 1);
    }
}

/// In the document view a new file is drawn line for line, each line as added.
pub proof fn new_file_is_drawn_as_added(
    contents: Seq<Seq<char>>,
    highlights: Seq<Option<Seq<(TextStyle, Seq<char>)>>>,
    revealed: bool,
)
    ensures
        document_rows(
            added_hunk(contents, highlights).lines.map_values(|line: DiffLineView| line.origin),
            revealed,
        ) == Seq::new(
            contents.len(),
            |i: int| DocRow { line_idx: i as usize, sign: DocSign::Add, delete_above: false },
        ),
{
    let hunk = added_hunk(contents, highlights);
    let lines = hunk.lines.map_values(|line: DiffLineView| line.origin);
    lemma_only_adds(lines, revealed, lines.len() as int);
}

/// Context that ends where another begins makes one stretch with it.
pub proof fn context_continues(lines: Seq<Seq<char>>, start: int, mid: int, end: int)
    requires
        1 <= start <= mid <= end,
    ensures
        context_lines(lines, start, mid) + context_lines(lines, mid + 1, end) == context_lines(
            lines,
            start,
            end,
        ),
{
    assert(context_lines(lines, start, mid) + context_lines(lines, mid + 1, end)
        =~= context_lines(lines, start, end));
}

/// Context from the first line on shows the whole text.
pub proof fn context_covers_text(text: Seq<char>, end: int, i: int)
    requires
        text_lines(text).len() <= end,
        0 <= i < text_lines(text).len(),
    ensures
        context_lines(text_lines(text), 1, end).len() == text_lines(text).len(),
        context_lines(text_lines(text), 1, end)[i].content == text_lines(text)[i],
{
}

proof fn lemma_present_contains<A>(items: Seq<Option<A>>, item: A)
    ensures
        present(items).contains(item) <==> items.contains(Some(item)),
    decreases items.len(),
{
    if items.len() > 0 {
        let rest = items.drop_last();
        lemma_present_contains(rest, item);
        assert(items =~= rest.push(items.last()));
        if items.contains(Some(item)) {
            let i = choose|i: int| 0 <= i < items.len() && items[i] == Some(item);
            if i < rest.len() {
                assert(rest[i] == Some(item));
                let j = choose|j: int| 0 <= j < present(rest).len() && present(rest)[j] == item;
                assert(present(items)[j] == item);
            } else {
                assert(present(items).last() == item);
            }
        }
        if present(items).contains(item) {
            let j = choose|j: int| 0 <= j < present(items).len() && present(items)[j] == item;
            if j < present(rest).len() {
                assert(present(rest)[j] == item);
                let i = choose|i: int| 0 <= i < rest.len() && rest[i] == Some(item);
                assert(items[i] == Some(item));
            } else {
                assert(items[items.len() - 1] == Some(item));
            }
        }
    }
}

/// The files collected from a walk are exactly those that an entry offers: none
/// that is hidden behind a failure, no directory, nothing binary.
pub proof fn collected_files_are_offered(
    entries: Seq<Option<WalkEntry>>,
    files: Seq<SizedFile>,
    file: SizedFile,
)
    requires
        files.to_multiset() == reviewable_files(entries).to_multiset(),
    ensures
        files.contains(file) <==> exists|i: int|
            0 <= i < entries.len() && reviewable(#[trigger] entries[i]) == Some(file),
{
    let offers = entries.map_values(|entry: Option<WalkEntry>| reviewable(entry));
    vstd::seq_lib::to_multiset_contains(files, file);
    vstd::seq_lib::to_multiset_contains(reviewable_files(entries), file);
    lemma_present_contains(offers, file);
    if offers.contains(Some(file)) {
        let i = choose|i: int| 0 <= i < offers.len() && offers[i] == Some(file);
        assert(reviewable(entries[i]) == Some(file));
    }
    if exists|i: int| 0 <= i < entries.len() && reviewable(#[trigger] entries[i]) == Some(file) {
        let i = choose|i: int|
            0 <= i < entries.len() && reviewable(#[trigger] entries[i]) == Some(file);
        assert(offers[i] == Some(file));
    }
}

/// What diffs say.
pub open spec fn files_view(files: Seq<DiffFile>) -> Seq<DiffFileView> {
    files.map_values(|file: DiffFile| file@)
}

/// The diffs that the facts about files call for, file by file.
pub open spec fn reviewed_files(
    root: Seq<Seq<u8>>,
    files: Seq<SizedFile>,
    facts: Seq<FileFacts>,
) -> Seq<Option<DiffFileView>> {
    Seq::new(files.len(), |i: int| reviewed_file(root, files[i].0@, files[i].1, facts[i]))
}

proof fn lemma_present_views(built: Seq<Option<DiffFile>>)
    ensures
        files_view(present(built)) == present(
            built.map_values(|file: Option<DiffFile>| file_view(file)),
        ),
    decreases built.len(),
{
    let views = built.map_values(|file: Option<DiffFile>| file_view(file));
    if built.len() > 0 {
        let rest = built.drop_last();
        lemma_present_views(rest);
        assert(views.drop_last() =~= rest.map_values(|file: Option<DiffFile>| file_view(file)));
    }
    assert(files_view(present(built)) =~= present(views));
}

/// The diffs listed for review are those that the facts about the files call
/// for, in the order of the files.
pub proof fn working_tree_lists_reviewed_files(
    root: Seq<Seq<u8>>,
    files: Seq<SizedFile>,
    facts: Seq<FileFacts>,
    built: Seq<Option<DiffFile>>,
)
    requires
        facts.len() == files.len(),
        built.len() == files.len(),
        forall|i: int|
            0 <= i < files.len() ==> file_view(#[trigger] built[i]) == reviewed_file(
                root,
                files[i].0@,
                files[i].1,
                facts[i],
            ),
    ensures
        files_view(present(built)) == present(reviewed_files(root, files, facts)),
{
    lemma_present_views(built);
    assert(built.map_values(|file: Option<DiffFile>| file_view(file)) =~= reviewed_files(
        root,
        files,
        facts,
    ));
}

/// Items that a key tells apart are still told apart once the gaps are closed.
proof fn lemma_present_distinct<A, K>(items: Seq<Option<A>>, key: spec_fn(A) -> K)
    requires
        forall|i: int, j: int|
            #![trigger items[i], items[j]]
            0 <= i < j < items.len() && items[i] is Some && items[j] is Some ==> key(items[i]->0)
                != key(items[j]->0),
    ensures
        present(items).map_values(key).no_duplicates(),
    decreases items.len(),
{
    if items.len() > 0 {
        let rest = items.drop_last();
        lemma_present_distinct(rest, key);
        let before = present(rest);
        if let Some(item) = items.last() {
            assert forall|i: int| 0 <= i < before.len() implies key(#[trigger] before[i]) != key(
                item,
            ) by {
                lemma_present_contains(rest, before[i]);
                assert(before.contains(before[i]));
                let k = choose|k: int| 0 <= k < rest.len() && rest[k] == Some(before[i]);
                assert(items[k] == rest[k]);
                assert(items[items.len() - 1] == Some(item));
            }
            let keys = present(items).map_values(key);
            let old_keys = before.map_values(key);
            assert forall|i: int, j: int|
                0 <= i < keys.len() && 0 <= j < keys.len() && i != j implies keys[i] != keys[j] by {
                if i < before.len() {
                    assert(keys[i] == old_keys[i] && keys[i] == key(before[i]));
                }
                if j < before.len() {
                    assert(keys[j] == old_keys[j] && keys[j] == key(before[j]));
                }
            }
        }
    }
}

/// The files collected from a walk that offers no path twice rise strictly by
/// path.
pub proof fn collected_files_rise(entries: Seq<Option<WalkEntry>>, files: Seq<SizedFile>)
    requires
        distinct_offers(entries),
        sorted(files),
        files.to_multiset() == reviewable_files(entries).to_multiset(),
    ensures
        rising(files),
{
    let path = |file: SizedFile| file.0@;
    let offers = entries.map_values(|entry: Option<WalkEntry>| reviewable(entry));
    assert forall|i: int, j: int|
        #![trigger offers[i], offers[j]]
        0 <= i < j < offers.len() && offers[i] is Some && offers[j] is Some implies path(
        offers[i]->0,
    ) != path(offers[j]->0) by {
        assert(offered_path(entries[i]) != offered_path(entries[j]));
    }
    lemma_present_distinct(offers, path);
    let found = reviewable_files(entries);
    lemma_map_multiset(files, found, path);
    found.map_values(path).lemma_multiset_has_no_duplicates();
    files.map_values(path).lemma_multiset_has_no_duplicates_conv();
    sorted_distinct_files_rise(files);
}

/// Of a walk that meets paths inside its directory, each once, every file is
/// collected under an absolute path inside the directory, and no path twice.
pub proof fn walked_files_are_in_place(
    entries: Seq<Option<WalkEntry>>,
    files: Seq<SizedFile>,
    dir: Seq<Seq<u8>>,
)
    requires
        distinct_offers(entries),
        offers_below(entries, dir),
        sorted(files),
        files.to_multiset() == reviewable_files(entries).to_multiset(),
    ensures
        rising(files),
        forall|i: int|
            0 <= i < files.len() ==> absolute((#[trigger] files[i]).0@) && below(files[i].0@, dir),
{
    collected_files_rise(entries, files);
    assert forall|i: int| 0 <= i < files.len() implies absolute((#[trigger] files[i]).0@) && below(
        files[i].0@,
        dir,
    ) by {
        collected_files_are_offered(entries, files, files[i]);
        assert(files.contains(files[i]));
        let k = choose|k: int|
            0 <= k < entries.len() && reviewable(#[trigger] entries[k]) == Some(files[i]);
        assert(offered_path(entries[k]) == Some(files[i].0@));
    }
}

proof fn lemma_present_remove<A>(items: Seq<Option<A>>, at: int)
    requires
        0 <= at < items.len(),
    ensures
        present(items).to_multiset() == match items[at] {
            Some(item) => present(items.remove(at)).to_multiset().insert(item),
            None => present(items.remove(at)).to_multiset(),
        },
    decreases items.len(),
{
    let rest = items.drop_last();
    if at == items.len() - 1 {
        assert(items.remove(at) =~= rest);
        if let Some(item) = items[at] {
            vstd::seq_lib::to_multiset_build(present(rest), item);
        }
    } else {
        lemma_present_remove(rest, at);
        let less = items.remove(at);
        assert(less.drop_last() =~= rest.remove(at));
        assert(less.last() == items.last());
        assert(rest[at] == items[at]);
        if let Some(last) = items.last() {
            vstd::seq_lib::to_multiset_build(present(rest), last);
            vstd::seq_lib::to_multiset_build(present(rest.remove(at)), last);
            if let Some(item) = items[at] {
                assert(present(rest).to_multiset().insert(last) =~= present(
                    rest.remove(at),
                ).to_multiset().insert(last).insert(item));
            }
        }
    }
}

proof fn lemma_present_multiset<A>(a: Seq<Option<A>>, b: Seq<Option<A>>)
    requires
        a.to_multiset() == b.to_multiset(),
    ensures
        present(a).to_multiset() == present(b).to_multiset(),
    decreases a.len(),
{
    vstd::seq_lib::to_multiset_len(a);
    vstd::seq_lib::to_multiset_len(b);
    if a.len() == 0 {
        assert(a =~= b);
    } else {
        let item = a.last();
        let rest = a.drop_last();
        assert(a =~= rest.push(item));
        vstd::seq_lib::to_multiset_build(rest, item);
        vstd::seq_lib::to_multiset_contains(b, item);
        let at = choose|i: int| 0 <= i < b.len() && b[i] == item;
        vstd::seq_lib::to_multiset_remove(b, at);
        assert(rest.to_multiset() =~= b.remove(at).to_multiset());
        lemma_present_multiset(rest, b.remove(at));
        lemma_present_remove(b, at);
        lemma_present_remove(a, a.len() - 1);
        assert(a.remove(a.len() - 1) =~= rest);
    }
}

/// Walks that meet the same entries in different orders give the same list of
/// files.
pub proof fn order_of_walk_does_not_matter(
    a: Seq<Option<WalkEntry>>,
    b: Seq<Option<WalkEntry>>,
    a_files: Seq<SizedFile>,
    b_files: Seq<SizedFile>,
)
    requires
        a.to_multiset() == b.to_multiset(),
        sorted(a_files),
        sorted(b_files),
        a_files.to_multiset() == reviewable_files(a).to_multiset(),
        b_files.to_multiset() == reviewable_files(b).to_multiset(),
    ensures
        listing(a_files) == listing(b_files),
{
    let offer = |entry: Option<WalkEntry>| reviewable(entry);
    lemma_map_multiset(a, b, offer);
    lemma_present_multiset(a.map_values(offer), b.map_values(offer));
    sorted_files_are_one_list(a_files, b_files);
}

/// What is listed is the diff of one of the files.
proof fn lemma_listed_from(
    root: Seq<Seq<u8>>,
    files: Seq<SizedFile>,
    facts: Seq<FileFacts>,
    n: int,
    i: int,
) -> (k: int)
    requires
        0 <= n <= files.len(),
        0 <= i < present(reviewed_files(root, files, facts).take(n)).len(),
    ensures
        0 <= k < n,
        present(reviewed_files(root, files, facts).take(n))[i].new_path == Some(
            relative_path(files[k].0@, root),
        ),
{
    let views = reviewed_files(root, files, facts).take(n);
    let file = present(views)[i];
    lemma_present_contains(views, file);
    assert(present(views).contains(file));
    let k = choose|k: int| 0 <= k < views.len() && views[k] == Some(file);
    listed_files_are_new(root, files[k].0@, files[k].1, facts[k]);
    k
}

proof fn lemma_listed_paths_rise(
    root: Seq<Seq<u8>>,
    files: Seq<SizedFile>,
    facts: Seq<FileFacts>,
    n: int,
    i: int,
    j: int,
)
    requires
        rising(files),
        forall|k: int| 0 <= k < files.len() ==> below((#[trigger] files[k]).0@, root),
        0 <= n <= files.len(),
        0 <= i < j < present(reviewed_files(root, files, facts).take(n)).len(),
    ensures
        path_order(
            present(reviewed_files(root, files, facts).take(n))[i].new_path->0,
            present(reviewed_files(root, files, facts).take(n))[j].new_path->0,
        ) < 0,
    decreases n,
{
    let all = reviewed_files(root, files, facts);
    let views = all.take(n);
    assert(n > 0);
    let before = all.take(n - 1);
    assert(views.drop_last() =~= before);
    if j < present(before).len() {
        lemma_listed_paths_rise(root, files, facts, n - 1, i, j);
    } else {
        let k = lemma_listed_from(root, files, facts, n - 1, i);
        listed_files_are_new(root, files[n - 1].0@, files[n - 1].1, facts[n - 1]);
        relative_paths_keep_order(root, files[k].0@, files[n - 1].0@);
    }
}

/// The paths of the listed diffs rise strictly, where the files do and are inside
/// the root.
pub proof fn listed_paths_rise(
    root: Seq<Seq<u8>>,
    files: Seq<SizedFile>,
    facts: Seq<FileFacts>,
    i: int,
    j: int,
)
    requires
        rising(files),
        forall|k: int| 0 <= k < files.len() ==> below((#[trigger] files[k]).0@, root),
        0 <= i < j < present(reviewed_files(root, files, facts)).len(),
    ensures
        present(reviewed_files(root, files, facts))[i].new_path is Some,
        present(reviewed_files(root, files, facts))[j].new_path is Some,
        path_order(
            present(reviewed_files(root, files, facts))[i].new_path->0,
            present(reviewed_files(root, files, facts))[j].new_path->0,
        ) < 0,
{
    let all = reviewed_files(root, files, facts);
    assert(all.take(files.len() as int) =~= all);
    let a = lemma_listed_from(root, files, facts, files.len() as int, i);
    let b = lemma_listed_from(root, files, facts, files.len() as int, j);
    lemma_listed_paths_rise(root, files, facts, files.len() as int, i, j);
}

/// The path of each listed diff is relative, where the files are inside the root.
pub proof fn listed_paths_are_relative(
    root: Seq<Seq<u8>>,
    files: Seq<SizedFile>,
    facts: Seq<FileFacts>,
    i: int,
)
    requires
        absolute(root),
        forall|k: int|
            0 <= k < files.len() ==> absolute((#[trigger] files[k]).0@) && below(
                files[k].0@,
                root,
            ),
        0 <= i < present(reviewed_files(root, files, facts)).len(),
    ensures
        present(reviewed_files(root, files, facts))[i].new_path matches Some(path) && path.len()
            > 0 && path[0] != root_component(),
{
    let all = reviewed_files(root, files, facts);
    assert(all.take(files.len() as int) =~= all);
    let k = lemma_listed_from(root, files, facts, files.len() as int, i);
    assert(absolute(files[k].0@) && below(files[k].0@, root));
}

/// A file whose first bytes could be read is binary exactly if one of the first
/// 8192 of them is zero, whatever the others are. One that could not be read
/// counts as binary.
pub proof fn only_zero_bytes_make_binary(head: &Option<Vec<u8>>, binary: bool)
    requires
        call_ensures(is_probably_binary, (head,), binary),
    ensures
        *head matches Some(bytes) ==> (binary <==> exists|i: int|
            0 <= i < bytes@.len() && i < 8192 && #[trigger] bytes@[i] == 0),
        *head is None ==> binary,
{
}

/// What walks and builds take for binary is a file that could not be read, or with
/// a zero among its first 8192 bytes.
pub proof fn zero_bytes_decide_in_reviews(head: Option<Vec<u8>>)
    ensures
        head matches Some(bytes) ==> (probably_binary(bytes_view(head)) <==> exists|i: int|
            0 <= i < bytes@.len() && i < 8192 && #[trigger] bytes@[i] == 0),
        head is None ==> probably_binary(bytes_view(head)),
{
}

/// Whatever stands behind the bytes that decide, and whatever other byte than zero
/// stands in place of one that is not zero, a file stays text or binary.
pub proof fn other_bytes_do_not_matter(a: Seq<u8>, b: Seq<u8>)
    requires
        forall|i: int|
            0 <= i < 8192 ==> ((i < a.len() && #[trigger] a[i] == 0) <==> (i < b.len() && b[i]
                == 0)),
    ensures
        probably_binary(Some(a)) == probably_binary(Some(b)),
{
    if probably_binary(Some(a)) {
        let i = choose|i: int| 0 <= i < a.len() && i < 8192 && a[i] == 0;
        assert(b[i] == 0);
    }
    if probably_binary(Some(b)) {
        let i = choose|i: int| 0 <= i < b.len() && i < 8192 && b[i] == 0;
        assert(a[i] == 0);
    }
}

proof fn lemma_present_filter<A, B>(
    items: Seq<A>,
    found: spec_fn(A) -> Option<B>,
    keep: spec_fn(A) -> bool,
    pick: spec_fn(A) -> B,
)
    requires
        forall|item: A|
            #![trigger found(item)]
            found(item) == if keep(item) {
                Some(pick(item))
            } else {
                None
            },
    ensures
        present(items.map_values(found)) == items.filter(keep).map_values(pick),
    decreases items.len(),
{
    reveal(Seq::filter);
    let offers = items.map_values(found);
    if items.len() > 0 {
        let rest = items.drop_last();
        lemma_present_filter(rest, found, keep, pick);
        assert(offers.drop_last() =~= rest.map_values(found));
        assert(offers.last() == found(items.last()));
        if keep(items.last()) {
            assert(rest.filter(keep).push(items.last()).map_values(pick) =~= rest.filter(
                keep,
            ).map_values(pick).push(pick(items.last())));
        }
    }
    assert(present(offers) =~= items.filter(keep).map_values(pick));
}

/// What is listed is all that is there, each as often as it is there, in the same
/// order.
pub proof fn nothing_present_is_lost<A>(items: Seq<Option<A>>)
    ensures
        present(items) == items.filter(|item: Option<A>| item is Some).map_values(
            |item: Option<A>| item->0,
        ),
{
    let found = |item: Option<A>| item;
    assert(items.map_values(found) =~= items);
    lemma_present_filter(
        items,
        found,
        |item: Option<A>| item is Some,
        |item: Option<A>| item->0,
    );
}

/// Of the entries of a walk, those that could be walked, are files, have a size
/// and are text are collected, each with its path and size: text is what could be
/// read and has no zero among its first 8192 bytes.
pub proof fn text_files_are_collected(
    entries: Vec<Option<WalkEntry>>,
    files: Vec<SizedFile>,
)
    requires
        call_ensures(collect_text_files, (entries,), files),
    ensures
        files@.to_multiset() == entries@.filter(
            |entry: Option<WalkEntry>|
                entry matches Some(found) && found.is_file && found.size is Some && (
                found.head matches Some(bytes) && forall|i: int|
                    0 <= i < bytes@.len() && i < 8192 ==> #[trigger] bytes@[i] != 0),
        ).map_values(
            |entry: Option<WalkEntry>| (entry->0.path, entry->0.size->0),
        ).to_multiset(),
{
    lemma_present_filter(
        entries@,
        |entry: Option<WalkEntry>| reviewable(entry),
        |entry: Option<WalkEntry>|
            entry matches Some(found) && found.is_file && found.size is Some && (
            found.head matches Some(bytes) && forall|i: int|
                0 <= i < bytes@.len() && i < 8192 ==> #[trigger] bytes@[i] != 0),
        |entry: Option<WalkEntry>| (entry->0.path, entry->0.size->0),
    );
}

/// A walked file with a size, whose first bytes could be read and hold no zero, is
/// among the collected files.
pub proof fn text_file_is_collected(
    entries: Vec<Option<WalkEntry>>,
    files: Vec<SizedFile>,
    k: int,
    found: WalkEntry,
    size: u64,
    bytes: Vec<u8>,
)
    requires
        call_ensures(collect_text_files, (entries,), files),
        0 <= k < entries@.len(),
        entries@[k] == Some(found),
        found.is_file,
        found.size == Some(size),
        found.head == Some(bytes),
        forall|i: int| 0 <= i < bytes@.len() && i < 8192 ==> bytes@[i] != 0,
    ensures
        files@.contains((found.path, size)),
{
    collected_files_are_offered(entries@, files@, (found.path, size));
    assert(reviewable(entries@[k]) == Some((found.path, size)));
}

/// A collected file was walked, has the size it was found with, and is text.
pub proof fn collected_file_is_text(
    entries: Vec<Option<WalkEntry>>,
    files: Vec<SizedFile>,
    file: SizedFile,
) -> (k: int)
    requires
        call_ensures(collect_text_files, (entries,), files),
        files@.contains(file),
    ensures
        0 <= k < entries@.len(),
        entries@[k] matches Some(found) && found.is_file && found.path == file.0 && found.size
            == Some(file.1) && (found.head matches Some(bytes) && forall|i: int|
            0 <= i < bytes@.len() && i < 8192 ==> bytes@[i] != 0),
{
    collected_files_are_offered(entries@, files@, file);
    choose|i: int| 0 <= i < entries@.len() && reviewable(#[trigger] entries@[i]) == Some(file)
}

/// Whether an entry of a walk could be walked and is a text file with a size.
pub open spec fn is_text_file(entry: Option<WalkEntry>) -> bool {
    entry matches Some(found) && found.is_file && found.size is Some && (
    found.head matches Some(bytes) && forall|i: int|
        0 <= i < bytes@.len() && i < 8192 ==> #[trigger] bytes@[i] != 0)
}

proof fn lemma_nothing_reviewable(entries: Seq<Option<WalkEntry>>)
    ensures
        reviewable_files(entries).len() == 0 <==> forall|k: int|
            0 <= k < entries.len() ==> !is_text_file(#[trigger] entries[k]),
{
    let files = reviewable_files(entries);
    if files.len() > 0 {
        assert(files.contains(files[0]));
        collected_files_are_offered(entries, files, files[0]);
        let k = choose|i: int|
            0 <= i < entries.len() && reviewable(#[trigger] entries[i]) == Some(files[0]);
        assert(is_text_file(entries[k]));
    } else {
        assert forall|k: int| 0 <= k < entries.len() implies !is_text_file(
            #[trigger] entries[k],
        ) by {
            if let Some(file) = reviewable(entries[k]) {
                collected_files_are_offered(entries, files, file);
            }
        }
    }
}

/// A directory opens for review exactly if an entry of it is a text file with a
/// size, else there are no changes. Files are shown from the directory, and each
/// text file is reviewed, with its path and size, as often as it was walked.
pub proof fn directories_open_with_their_text_files(
    path: &str,
    dir: FilePath,
    entries: Vec<Option<WalkEntry>>,
    opened: Result<FileBackend, TuicrError>,
)
    requires
        call_ensures(
            FileBackend::new,
            (path, PathProbe::Directory { path: dir, entries }),
            opened,
        ),
    ensures
        opened is Ok <==> exists|k: int|
            0 <= k < entries@.len() && is_text_file(#[trigger] entries@[k]),
        opened matches Err(error) ==> error is NoChanges,
        opened matches Ok(backend) ==> {
            &&& backend@.root() == dir@
            &&& sorted(backend@.files)
            &&& backend@.files.to_multiset() == entries@.filter(
                |entry: Option<WalkEntry>| is_text_file(entry),
            ).map_values(
                |entry: Option<WalkEntry>| (entry->0.path, entry->0.size->0),
            ).to_multiset()
        },
{
    lemma_nothing_reviewable(entries@);
    lemma_present_filter(
        entries@,
        |entry: Option<WalkEntry>| reviewable(entry),
        |entry: Option<WalkEntry>| is_text_file(entry),
        |entry: Option<WalkEntry>| (entry->0.path, entry->0.size->0),
    );
}

/// A file opens for review whatever it holds, by itself, and is shown from the
/// directory that holds it.
pub proof fn files_open_by_themselves(
    path: &str,
    file: FilePath,
    size: u64,
    opened: Result<FileBackend, TuicrError>,
    dir: Seq<Seq<u8>>,
    name: Seq<u8>,
)
    requires
        call_ensures(FileBackend::new, (path, PathProbe::File { path: file, size }), opened),
        file@ == dir.push(name),
        name != seq![47u8],
    ensures
        opened matches Ok(backend) && {
            &&& backend@.root() == dir
            &&& backend@.files.len() == 1
            &&& backend@.files[0].0 == file
            &&& backend@.files[0].1 == size
        },
{
    parent_is_path_before_name(dir, name);
}

/// What cannot be found, looked at or reviewed fails to open, with the failure
/// that the system reported, or the one for what is neither file nor directory.
pub proof fn failures_to_open_are_reported(
    path: &str,
    probe: PathProbe,
    opened: Result<FileBackend, TuicrError>,
)
    requires
        call_ensures(FileBackend::new, (path, probe), opened),
    ensures
        probe matches PathProbe::Unresolved { kind, detail } ==> (opened matches Err(
            TuicrError::Io { kind: reported, message },
        ) && reported == IoErrorKind::Reported(kind) && message@ == "Cannot open '"@ + path@
            + "': "@ + detail@),
        probe matches PathProbe::Unreadable { kind, detail } ==> (opened matches Err(
            TuicrError::Io { kind: reported, message },
        ) && reported == IoErrorKind::Reported(kind) && message@ == detail@),
        probe is Other ==> (opened matches Err(TuicrError::Io { kind, message }) && kind
            == IoErrorKind::InvalidInput && message@ == "'"@ + path@
            + "' is not a file or directory"@),
{
}

/// The working tree lists the diffs that were built, each as it is and in their
/// order, and there are no changes exactly if none was built.
pub proof fn working_tree_keeps_every_diff(
    backend: &FileBackend,
    built: Vec<Option<DiffFile>>,
    diff: Result<Vec<DiffFile>, TuicrError>,
)
    requires
        call_ensures(FileBackend::get_working_tree_diff, (backend, built), diff),
    ensures
        diff is Ok <==> exists|i: int| 0 <= i < built@.len() && #[trigger] built@[i] is Some,
        diff matches Err(error) ==> error is NoChanges,
        diff matches Ok(files) ==> files@ == built@.filter(
            |file: Option<DiffFile>| file is Some,
        ).map_values(|file: Option<DiffFile>| file->0),
{
    nothing_present_is_lost(built@);
    if diff is Ok {
        let file = present(built@)[0];
        lemma_present_contains(built@, file);
        assert(present(built@).contains(file));
        let i = choose|i: int| 0 <= i < built@.len() && built@[i] == Some(file);
        assert(built@[i] is Some);
    } else if exists|i: int| 0 <= i < built@.len() && #[trigger] built@[i] is Some {
        let i = choose|i: int| 0 <= i < built@.len() && #[trigger] built@[i] is Some;
        lemma_present_contains(built@, built@[i]->0);
        assert(built@.contains(Some(built@[i]->0)));
    }
}

/// Context is read from a path behind the root, or from the path itself where that
/// starts at `/`, and from nowhere where no line is asked for.
pub proof fn context_is_read_behind_the_root(
    backend: &FileBackend,
    file: &FilePath,
    start: u32,
    end: u32,
    path: Option<FilePath>,
)
    requires
        call_ensures(FileBackend::context_path, (backend, file, start, end), path),
    ensures
        path is Some <==> 1 <= start <= end,
        path matches Some(found) ==> found@ == if file@.len() > 0 && file@[0] == seq![47u8] {
            file@
        } else {
            backend@.root() + file@
        },
{
    path_is_followed_from_base(backend@.root(), file@);
}

/// Where no line is asked for, or there is no file, there is no context. A file
/// that cannot be read fails with what the system reported.
pub proof fn context_needs_a_readable_file(
    backend: &FileBackend,
    start: u32,
    end: u32,
    source: ContextSource,
    context: Result<Vec<DiffLine>, TuicrError>,
)
    requires
        call_ensures(FileBackend::fetch_context_lines, (backend, start, end, source), context),
    ensures
        start == 0 || start > end || source is NotAFile ==> (context matches Ok(lines)
            && lines@.len() == 0),
        1 <= start <= end ==> (source matches ContextSource::Unreadable { kind, detail } ==> (
        context matches Err(TuicrError::Io { kind: reported, message }) && reported
            == IoErrorKind::Reported(kind) && message@ == detail@)),
        source is Text ==> context is Ok,
{
}

/// The backend of plain files says the directory that files are shown from, that
/// it is at `file`, and that there is no branch.
pub proof fn plain_files_have_no_branch(backend: &FileBackend, info: &VcsInfo)
    requires
        call_ensures(FileBackend::info, (backend,), info),
    ensures
        info.root_path@ == backend@.root(),
        info.head_commit@ == seq!['f', 'i', 'l', 'e'],
        info.branch_name is None,
        info.vcs_type == VcsType::File,
{
    reveal_strlit("file");
    assert("file"@ =~= seq!['f', 'i', 'l', 'e']);
}

/// Context line `i` has the number `start + i` on both sides and holds the line of
/// the text with that number. There is one for each number from `start` to `end`
/// that the text has a line for.
pub proof fn context_is_numbered_as_in_text(
    backend: &FileBackend,
    text: String,
    start: u32,
    end: u32,
    found: Result<Vec<DiffLine>, TuicrError>,
    context: Vec<DiffLine>,
)
    requires
        1 <= start <= end,
        call_ensures(
            FileBackend::fetch_context_lines,
            (backend, start, end, ContextSource::Text(text)),
            found,
        ),
        found == Ok::<Vec<DiffLine>, TuicrError>(context),
    ensures
        context@.len() == if text_lines(text@).len() < start {
            0
        } else if text_lines(text@).len() < end {
            text_lines(text@).len() - start + 1
        } else {
            end - start + 1
        },
        forall|i: int|
            0 <= i < context@.len() ==> {
                let line = #[trigger] context@[i];
                &&& line.origin == LineOrigin::Context
                &&& line.content@ == text_lines(text@)[start + i - 1]
                &&& line.old_lineno matches Some(n) && n as int == start + i
                &&& line.new_lineno matches Some(n) && n as int == start + i
                &&& line.highlighted_spans is None
            },
{
    let views = lines_view(context@);
    assert(context@.len() == views.len());
    assert forall|i: int| 0 <= i < context@.len() implies {
        let line = #[trigger] context@[i];
        &&& line.origin == LineOrigin::Context
        &&& line.content@ == text_lines(text@)[start + i - 1]
        &&& line.old_lineno matches Some(n) && n as int == start + i
        &&& line.new_lineno matches Some(n) && n as int == start + i
        &&& line.highlighted_spans is None
    } by {
        assert(views[i] == context@[i]@);
    }
}

/// Without carriage returns, the context of all lines of a text is the text, but
/// for the line feed that its last line may lack.
pub proof fn context_of_all_lines_is_the_text(
    backend: &FileBackend,
    text: String,
    end: u32,
    found: Result<Vec<DiffLine>, TuicrError>,
    context: Vec<DiffLine>,
)
    requires
        !text@.contains('\r'),
        1 <= end,
        text_lines(text@).len() <= end,
        call_ensures(
            FileBackend::fetch_context_lines,
            (backend, 1, end, ContextSource::Text(text)),
            found,
        ),
        found == Ok::<Vec<DiffLine>, TuicrError>(context),
    ensures
        context@.map_values(|line: DiffLine| line.content@.push('\n')).flatten() == if text@.len()
            > 0 && text@.last() != '\n' {
            text@.push('\n')
        } else {
            text@
        },
{
    context_is_numbered_as_in_text(backend, text, 1, end, found, context);
    ended_lines_are_the_text(text@);
    assert(context@.map_values(|line: DiffLine| line.content@.push('\n')) =~= text_lines(
        text@,
    ).map_values(|line: Seq<char>| line.push('\n')));
}

} // verus!

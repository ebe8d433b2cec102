//! The document view of a diff: the final text, with changes as signs in the
//! gutter.
//!
//! Each new-side line of a hunk becomes a row with a sign (added, changed, or
//! none). Deletions are hidden behind a marker until their hunk is revealed.

use crate::model::{origins, spans_view, DiffLine, DiffLineView, LineOrigin};
use crate::terminal::{
    blank_line, line_content, line_plain, push_span, rgb, rgb_color, TextStyle, Theme,
};
use crate::text::{decimal, push_decimal, push_spaces, right_aligned, spaces};
use ratatui::text::Line;
use vstd::prelude::*;

verus! {

/// The gutter sign of a document row.
#[derive(Debug, Clone, Copy, PartialEq, Eq, Structural)]
pub enum DocSign {
    /// Unchanged line: no gutter bar.
    Context,
    /// A line that was added and replaced no deletion.
    Add,
    /// An added line that replaced a deletion.
    Change,
    /// A deleted line, shown only when its hunk is revealed.
    Delete,
}

/// One document row: the line of the hunk that it draws, its sign, and whether
/// hidden deletions sit above it.
#[derive(Debug, Clone, Copy)]
pub struct DocRow {
    pub line_idx: usize,
    pub sign: DocSign,
    pub delete_above: bool,
}

/// How many lines of the given origin stand in a row right before line `k`.
pub open spec fn run_before(lines: Seq<LineOrigin>, origin: LineOrigin, k: int) -> int
    decreases k,
{
    if 0 < k <= lines.len() && lines[k - 1] == origin {
        1 + run_before(lines, origin, k - 1)
    } else {
        0
    }
}

/// How many additions stand in a row right before line `k`.
pub open spec fn additions_before(lines: Seq<LineOrigin>, k: int) -> int {
    run_before(lines, LineOrigin::Addition, k)
}

/// How many deletions stand in a row before the additions right before line `k`.
pub open spec fn deletions_behind(lines: Seq<LineOrigin>, k: int) -> int {
    run_before(lines, LineOrigin::Deletion, k - additions_before(lines, k))
}

/// The sign of line `k`. An addition is a change while the run of deletions
/// before its run of additions has a line left to pair it with.
pub open spec fn sign_of(lines: Seq<LineOrigin>, k: int) -> DocSign {
    match lines[k] {
        LineOrigin::Context => DocSign::Context,
        LineOrigin::Deletion => DocSign::Delete,
        LineOrigin::Addition => if additions_before(lines, k) < deletions_behind(lines, k) {
            DocSign::Change
        } else {
            DocSign::Add
        },
    }
}

/// Whether a run of deletions and the run of additions that follows it end
/// before line `k`, with more deletions than additions.
pub open spec fn surplus_ends_at(lines: Seq<LineOrigin>, k: int) -> bool {
    &&& k < lines.len() ==> lines[k] != LineOrigin::Addition
    &&& 0 < k < lines.len() && lines[k - 1] == LineOrigin::Deletion ==> lines[k]
        != LineOrigin::Deletion
    &&& deletions_behind(lines, k) > additions_before(lines, k)
}

/// Whether every line from `from` up to `to` is a deletion.
pub open spec fn only_deletions(lines: Seq<LineOrigin>, from: int, to: int) -> bool {
    forall|m: int| from <= m < to ==> lines[m] == LineOrigin::Deletion
}

/// Whether deletions without an addition to replace them end above line `k`,
/// with nothing but deletions between them and line `k`.
pub open spec fn hidden_deletions_above(lines: Seq<LineOrigin>, k: int) -> bool {
    exists|e: int|
        0 < e <= k && #[trigger] surplus_ends_at(lines, e) && only_deletions(lines, e, k)
}

/// Whether line `k` has a row of its own.
pub open spec fn emitted(lines: Seq<LineOrigin>, revealed: bool, k: int) -> bool {
    revealed || lines[k] != LineOrigin::Deletion
}

/// The row of line `k`. While the hunk is not revealed, the first row behind
/// hidden deletions carries the marker for them.
pub open spec fn row_of(lines: Seq<LineOrigin>, revealed: bool, k: int) -> DocRow {
    DocRow {
        line_idx: k as usize,
        sign: sign_of(lines, k),
        delete_above: !revealed && lines[k] != LineOrigin::Deletion && hidden_deletions_above(
            lines,
            k,
        ),
    }
}

/// The rows of the first `n` lines, in order.
pub open spec fn rows_upto(lines: Seq<LineOrigin>, revealed: bool, n: int) -> Seq<DocRow>
    decreases n,
{
    if n <= 0 {
        Seq::empty()
    } else {
        let rows = rows_upto(lines, revealed, n - 1);
        if emitted(lines, revealed, n - 1) {
            rows.push(row_of(lines, revealed, n - 1))
        } else {
            rows
        }
    }
}

/// The document rows of a hunk.
pub open spec fn document_rows(lines: Seq<LineOrigin>, revealed: bool) -> Seq<DocRow> {
    rows_upto(lines, revealed, lines.len() as int)
}

/// A run that fills `from..to` and starts behind another line is as long as that.
pub(crate) proof fn lemma_run_before(lines: Seq<LineOrigin>, origin: LineOrigin, from: int, to: int)
    requires
        0 <= from <= to <= lines.len(),
        forall|m: int| from <= m < to ==> lines[m] == origin,
        from == 0 || lines[from - 1] != origin,
    ensures
        run_before(lines, origin, to) == to - from,
    decreases to - from,
{
    if from < to {
        lemma_run_before(lines, origin, from, to - 1);
    }
}

/// Runs of deletions in `start..mid` and of additions in `mid..end`, seen from
/// a line among or right behind the additions.
pub(crate) proof fn lemma_runs(lines: Seq<LineOrigin>, start: int, mid: int, k: int)
    requires
        0 <= start < mid <= k <= lines.len(),
        start == 0 || lines[start - 1] != LineOrigin::Deletion,
        forall|m: int| start <= m < mid ==> lines[m] == LineOrigin::Deletion,
        forall|m: int| mid <= m < k ==> lines[m] == LineOrigin::Addition,
    ensures
        additions_before(lines, k) == k - mid,
        deletions_behind(lines, k) == mid - start,
{
    lemma_run_before(lines, LineOrigin::Addition, mid, k);
    lemma_run_before(lines, LineOrigin::Deletion, start, mid);
}

/// The length of a run is the distance over which its origin reaches back.
proof fn lemma_run_bounds(lines: Seq<LineOrigin>, origin: LineOrigin, k: int)
    requires
        0 <= k <= lines.len(),
    ensures
        0 <= run_before(lines, origin, k) <= k,
        forall|m: int| k - run_before(lines, origin, k) <= m < k ==> lines[m] == origin,
        run_before(lines, origin, k) < k ==> lines[k - run_before(lines, origin, k) - 1] != origin,
    decreases k,
{
    if 0 < k && lines[k - 1] == origin {
        lemma_run_bounds(lines, origin, k - 1);
    }
}

/// Behind a context line no deletion is hidden yet.
proof fn lemma_context_clears(lines: Seq<LineOrigin>, k: int)
    requires
        0 <= k < lines.len(),
        lines[k] == LineOrigin::Context,
    ensures
        !hidden_deletions_above(lines, k + 1),
        k + 1 < lines.len() && lines[k + 1] == LineOrigin::Addition ==> deletions_behind(
            lines,
            k + 1,
        ) == 0,
{
    assert(additions_before(lines, k + 1) == 0);
    assert(deletions_behind(lines, k + 1) == 0);
}

/// An addition that no deletion pairs with hides nothing.
proof fn lemma_unpaired_addition(lines: Seq<LineOrigin>, k: int)
    requires
        0 <= k < lines.len(),
        lines[k] == LineOrigin::Addition,
        deletions_behind(lines, k) == 0,
    ensures
        sign_of(lines, k) == DocSign::Add,
        !hidden_deletions_above(lines, k + 1),
        deletions_behind(lines, k + 1) == 0,
{
    lemma_run_bounds(lines, LineOrigin::Addition, k);
    assert(additions_before(lines, k + 1) == 1 + additions_before(lines, k));
}

/// Of the additions behind a run of deletions in `start..mid`, the first has
/// hidden deletions above it if the run has, and no other has any.
proof fn lemma_hidden_above_additions(lines: Seq<LineOrigin>, start: int, mid: int, k: int)
    requires
        0 <= start < mid <= k < lines.len(),
        start == 0 || lines[start - 1] != LineOrigin::Deletion,
        only_deletions(lines, start, mid),
        forall|m: int| mid <= m <= k ==> lines[m] == LineOrigin::Addition,
    ensures
        hidden_deletions_above(lines, k) <==> k == mid && hidden_deletions_above(lines, start),
{
    if k == mid && hidden_deletions_above(lines, start) {
        let e = choose|e: int|
            0 < e <= start && #[trigger] surplus_ends_at(lines, e) && only_deletions(
                lines,
                e,
                start,
            );
        assert(only_deletions(lines, e, k));
    }
    if hidden_deletions_above(lines, k) {
        let e = choose|e: int|
            0 < e <= k && #[trigger] surplus_ends_at(lines, e) && only_deletions(lines, e, k);
        assert(e < k && lines[k - 1] == LineOrigin::Deletion);
        assert(k == mid);
        assert(e <= start);
        assert(only_deletions(lines, e, start));
    }
}

/// Behind a run of deletions in `start..mid` and one of additions in `mid..end`,
/// deletions are hidden if these are in surplus.
pub(crate) proof fn lemma_paired_runs(lines: Seq<LineOrigin>, start: int, mid: int, end: int)
    requires
        0 <= start < mid <= end <= lines.len(),
        start == 0 || lines[start - 1] != LineOrigin::Deletion,
        forall|m: int| start <= m < mid ==> lines[m] == LineOrigin::Deletion,
        forall|m: int| mid <= m < end ==> lines[m] == LineOrigin::Addition,
        end < lines.len() ==> lines[end] != LineOrigin::Addition,
        end < lines.len() && mid == end ==> lines[end] != LineOrigin::Deletion,
    ensures
        hidden_deletions_above(lines, end) <==> mid - start > end - mid,
        surplus_ends_at(lines, end) <==> mid - start > end - mid,
{
    lemma_runs(lines, start, mid, end);
    if mid - start > end - mid {
        assert(surplus_ends_at(lines, end));
        assert(only_deletions(lines, end, end));
    } else if hidden_deletions_above(lines, end) {
        let e = choose|e: int|
            0 < e <= end && #[trigger] surplus_ends_at(lines, e) && only_deletions(lines, e, end);
        assert(e < end && lines[end - 1] == LineOrigin::Deletion);
    }
}

/// Takes a flag: returns it and clears it.
pub fn take(flag: &mut bool) -> (taken: bool)
    ensures
        taken == *old(flag),
        *final(flag) == false,
{
    let taken = *flag;
    *flag = false;
    taken
}

/// Classifies the lines of a hunk into the document rows to draw.
///
/// Each run of deletions is paired with the run of additions that follows it:
/// paired additions are changes, surplus additions are adds, and surplus
/// deletions leave a marker on the next row behind both runs, unless the hunk is
/// revealed and every deletion has a row of its own.
pub fn compute_hunk_signs(lines: &[DiffLine], revealed: bool) -> (rows: Vec<DocRow>)
    ensures
        rows@ == document_rows(origins(lines@), revealed),
{
    let ghost o = origins(lines@);
    let mut rows: Vec<DocRow> = Vec::with_capacity(lines.len());
    let mut pending_delete_marker: bool = false;
    let mut i: usize = 0;
    while i < lines.len()
        invariant
            i <= lines@.len(),
            o == origins(lines@),
            rows@ == rows_upto(o, revealed, i as int),
            pending_delete_marker == (!revealed && hidden_deletions_above(o, i as int)),
            0 < i < o.len() && o[i - 1] == LineOrigin::Deletion ==> o[i as int]
                != LineOrigin::Deletion,
            i < o.len() && o[i as int] == LineOrigin::Addition ==> deletions_behind(o, i as int)
                == 0,
        decreases lines.len() - i,
    {
        match lines[i].origin {
            LineOrigin::Context => {
                proof {
                    lemma_context_clears(o, i as int);
                }
                let delete_above = take(&mut pending_delete_marker);
                rows.push(DocRow { line_idx: i, sign: DocSign::Context, delete_above });
                i += 1;
            },
            LineOrigin::Addition => {
                proof {
                    lemma_unpaired_addition(o, i as int);
                }
                let delete_above = take(&mut pending_delete_marker);
                rows.push(DocRow { line_idx: i, sign: DocSign::Add, delete_above });
                i += 1;
            },
            LineOrigin::Deletion => {
                // The run of deletions, then the run of additions that follows it.
                let del_start: usize = i;
                while i < lines.len() && lines[i].origin == LineOrigin::Deletion
                    invariant
                        del_start <= i <= lines@.len(),
                        o == origins(lines@),
                        forall|m: int| del_start <= m < i ==> o[m] == LineOrigin::Deletion,
                    decreases lines.len() - i,
                {
                    i += 1;
                }
                let add_start: usize = i;
                let del_count: usize = add_start - del_start;
                while i < lines.len() && lines[i].origin == LineOrigin::Addition
                    invariant
                        add_start <= i <= lines@.len(),
                        o == origins(lines@),
                        forall|m: int| add_start <= m < i ==> o[m] == LineOrigin::Addition,
                    decreases lines.len() - i,
                {
                    i += 1;
                }
                let add_count: usize = i - add_start;

                let mut k: usize = del_start;
                while k < add_start
                    invariant
                        del_start <= k <= add_start <= o.len(),
                        forall|m: int|
                            del_start <= m < add_start ==> o[m] == LineOrigin::Deletion,
                        rows@ == rows_upto(o, revealed, k as int),
                    decreases add_start - k,
                {
                    if revealed {
                        rows.push(
                            DocRow { line_idx: k, sign: DocSign::Delete, delete_above: false },
                        );
                    }
                    k += 1;
                }
                while k < i
                    invariant
                        del_start < add_start <= k <= i <= o.len(),
                        o.len() <= usize::MAX,
                        del_start == 0 || o[del_start - 1] != LineOrigin::Deletion,
                        forall|m: int|
                            del_start <= m < add_start ==> o[m] == LineOrigin::Deletion,
                        forall|m: int| add_start <= m < i ==> o[m] == LineOrigin::Addition,
                        del_count == add_start - del_start,
                        rows@ == rows_upto(o, revealed, k as int),
                        pending_delete_marker == (!revealed && k == add_start
                            && hidden_deletions_above(o, del_start as int)),
                    decreases i - k,
                {
                    let sign = if k - add_start < del_count {
                        DocSign::Change
                    } else {
                        DocSign::Add
                    };
                    proof {
                        lemma_runs(o, del_start as int, add_start as int, k as int);
                        lemma_hidden_above_additions(
                            o,
                            del_start as int,
                            add_start as int,
                            k as int,
                        );
                    }
                    // A marker left by the runs before these goes to the first row.
                    let delete_above = take(&mut pending_delete_marker);
                    rows.push(DocRow { line_idx: k, sign, delete_above });
                    k += 1;
                }

                // Deletions beyond the additions are hidden, unless they are revealed.
                if !revealed && del_count > add_count {
                    pending_delete_marker = true;
                }
                proof {
                    lemma_paired_runs(o, del_start as int, add_start as int, i as int);
                }
            },
        }
    }
    rows
}

/// The line number that a row shows: the new one, or the old one where there is
/// no new one or the row shows a deletion.
pub open spec fn shown_lineno(line: DiffLineView, row: DocRow) -> Option<u32> {
    if row.sign == DocSign::Delete || line.new_lineno is None {
        line.old_lineno
    } else {
        line.new_lineno
    }
}

/// The line number column, `lw` digits wide and followed by a space.
pub open spec fn lineno_text(lineno: Option<u32>, lw: nat) -> Seq<char> {
    match lineno {
        Some(n) => right_aligned(decimal(n as nat), lw).push(' '),
        None => spaces(lw + 1),
    }
}

/// Whether a row shows the marker for hidden deletions: its own sign goes first.
pub open spec fn shows_marker(row: DocRow) -> bool {
    row.delete_above && row.sign == DocSign::Context
}

/// The gutter cell of a row, with the space behind it.
pub open spec fn sign_text(row: DocRow) -> Seq<char> {
    if shows_marker(row) {
        "▔"@.push(' ')
    } else if row.sign == DocSign::Context {
        " "@.push(' ')
    } else {
        "▌"@.push(' ')
    }
}

/// The style of the gutter cell. A change is amber: themes have no colour for it.
pub open spec fn sign_style(row: DocRow, theme: Theme) -> TextStyle {
    if shows_marker(row) {
        TextStyle::plain().with_fg(theme.diff_del)
    } else {
        match row.sign {
            DocSign::Context => theme.diff_context_style,
            DocSign::Add => TextStyle::plain().with_fg(theme.diff_add),
            DocSign::Change => TextStyle::plain().with_fg(rgb(220, 180, 60)),
            DocSign::Delete => TextStyle::plain().with_fg(theme.diff_del),
        }
    }
}

/// The style of text without syntax highlighting.
pub open spec fn content_style(row: DocRow, theme: Theme) -> TextStyle {
    if row.sign == DocSign::Delete {
        theme.diff_del_style
    } else {
        theme.diff_context_style
    }
}

/// The text of a row: its highlighted pieces, or its content as one piece.
pub open spec fn content_spans(line: DiffLineView, row: DocRow, theme: Theme) -> Seq<
    (TextStyle, Seq<char>),
> {
    match line.highlighted_spans {
        Some(spans) => spans,
        None => seq![(content_style(row, theme), line.content)],
    }
}

/// What ends a row: a deletion carries its background to the end of the line.
pub open spec fn end_spans(line: DiffLineView, row: DocRow, theme: Theme) -> Seq<
    (TextStyle, Seq<char>),
> {
    if row.sign != DocSign::Delete {
        Seq::empty()
    } else if line.highlighted_spans is Some {
        seq![(content_style(row, theme).with_bg(theme.syntax_del_bg), Seq::<char>::empty())]
    } else {
        seq![(content_style(row, theme), Seq::<char>::empty())]
    }
}

/// The spans of a document row, from left to right.
pub open spec fn document_spans(
    indicator: Seq<char>,
    line: DiffLineView,
    row: DocRow,
    theme: Theme,
    lw: nat,
) -> Seq<(TextStyle, Seq<char>)> {
    seq![
        (theme.current_line_indicator_style, indicator),
        (theme.dim_style, lineno_text(shown_lineno(line, row), lw)),
        (sign_style(row, theme), sign_text(row)),
    ] + content_spans(line, row, theme) + end_spans(line, row, theme)
}

/// Writes the line number column.
fn lineno_column(lineno: Option<u32>, lw: usize) -> (column: String)
    requires
        lw < usize::MAX,
    ensures
        column@ == lineno_text(lineno, lw as nat),
{
    let mut column = String::new();
    match lineno {
        Some(n) => {
            let mut digits = String::new();
            push_decimal(&mut digits, n);
            let width: usize = digits.as_str().unicode_len();
            if width < lw {
                push_spaces(&mut column, lw - width);
            }
            column.append(digits.as_str());
            column.push(' ');
            assert(column@ =~= lineno_text(lineno, lw as nat));
        },
        None => {
            push_spaces(&mut column, lw + 1);
            assert(column@ =~= lineno_text(lineno, lw as nat));
        },
    }
    column
}

/// Picks the gutter cell of a row and its style.
fn gutter_sign(row: DocRow, theme: &Theme) -> (sign: (String, TextStyle))
    ensures
        sign.0@ == sign_text(row),
        sign.1 == sign_style(row, *theme),
{
    let (sign_char, sign_style) = if row.delete_above && row.sign == DocSign::Context {
        ("▔", TextStyle::new().fg(theme.diff_del))
    } else {
        match row.sign {
            DocSign::Context => (" ", theme.diff_context_style),
            DocSign::Add => ("▌", TextStyle::new().fg(theme.diff_add)),
            DocSign::Change => ("▌", TextStyle::new().fg(rgb_color(220, 180, 60))),
            DocSign::Delete => ("▌", TextStyle::new().fg(theme.diff_del)),
        }
    };
    let mut text = sign_char.to_owned();
    text.push(' ');
    (text, sign_style)
}

/// Draws one document row: appends a line to `lines` and counts it in
/// `line_idx`.
///
/// `indicator` marks whether the row is under the cursor. A row outside the
/// viewport, which reaches from `visible_start` up to `visible_end`, is kept in
/// step by a blank line.
pub fn render_document_line(
    lines: &mut Vec<Line<'static>>,
    line_idx: &mut usize,
    indicator: &str,
    diff_line: &DiffLine,
    row: DocRow,
    theme: &Theme,
    lw: usize,
    visible_start: usize,
    visible_end: usize,
)
    requires
        *old(line_idx) < usize::MAX,
        visible_start <= *old(line_idx) < visible_end ==> lw < usize::MAX,
    ensures
        *final(line_idx) == *old(line_idx) + 1,
        final(lines)@.len() == old(lines)@.len() + 1,
        final(lines)@.drop_last() == old(lines)@,
        line_plain(final(lines)@.last()),
        line_content(final(lines)@.last()) == if visible_start <= *old(line_idx) < visible_end {
            document_spans(indicator@, diff_line@, row, *theme, lw as nat)
        } else {
            Seq::empty()
        },
{
    let mut line = blank_line();
    if *line_idx < visible_start || *line_idx >= visible_end {
        lines.push(line);
        *line_idx += 1;
        assert(lines@.drop_last() =~= old(lines)@);
        return;
    }

    // The new side's number for everything except a revealed deletion.
    let lineno = match row.sign {
        DocSign::Delete => diff_line.old_lineno,
        _ => match diff_line.new_lineno {
            Some(n) => Some(n),
            None => diff_line.old_lineno,
        },
    };
    let (sign_text, sign_style) = gutter_sign(row, theme);
    let content_style = match row.sign {
        DocSign::Delete => theme.diff_del_style,
        _ => theme.diff_context_style,
    };

    push_span(&mut line, indicator.to_owned(), theme.current_line_indicator_style);
    push_span(&mut line, lineno_column(lineno, lw), theme.dim_style);
    push_span(&mut line, sign_text, sign_style);
    let ghost head = line_content(line);

    match &diff_line.highlighted_spans {
        Some(highlighted) => {
            let mut done: usize = 0;
            while done < highlighted.len()
                invariant
                    done <= highlighted@.len(),
                    line_plain(line),
                    line_content(line) == head + spans_view(highlighted@).take(done as int),
                decreases highlighted.len() - done,
            {
                push_span(&mut line, highlighted[done].1.clone(), highlighted[done].0);
                done += 1;
                assert(line_content(line) =~= head + spans_view(highlighted@).take(done as int));
            }
            assert(spans_view(highlighted@).take(done as int) =~= spans_view(highlighted@));
        },
        None => {
            push_span(&mut line, diff_line.content.clone(), content_style);
        },
    }
    assert(line_content(line) =~= head + content_spans(diff_line@, row, *theme));

    if row.sign == DocSign::Delete {
        let eol = match &diff_line.highlighted_spans {
            Some(_) => content_style.bg(theme.syntax_del_bg),
            None => content_style,
        };
        push_span(&mut line, String::new(), eol);
    }
    assert(line_content(line) =~= document_spans(indicator@, diff_line@, row, *theme, lw as nat));

    lines.push(line);
    *line_idx += 1;
    assert(lines@.drop_last() =~= old(lines)@);
}

} // verus!

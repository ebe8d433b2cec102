//! What the document rows of a hunk promise as a whole.

use crate::diff_document::{
    additions_before, compute_hunk_signs, content_style, deletions_behind, document_rows,
    document_spans, emitted, hidden_deletions_above, lemma_paired_runs, lemma_run_before,
    lemma_runs, only_deletions, row_of, rows_upto, sign_of, surplus_ends_at, DocRow, DocSign,
};
use crate::model::{origins, DiffLine, DiffLineView, LineOrigin};
use crate::terminal::{rgb, TextStyle, Theme};
use crate::text::{decimal, decimal_reads_back};
use vstd::prelude::*;

verus! {

/// Whether some row draws line `k`.
pub open spec fn drawn(rows: Seq<DocRow>, k: int) -> bool {
    exists|i: int| 0 <= i < rows.len() && (#[trigger] rows[i]).line_idx == k
}

/// The line that a row draws, and its sign.
pub open spec fn drawn_signs(rows: Seq<DocRow>) -> Seq<(usize, DocSign)> {
    rows.map_values(|row: DocRow| (row.line_idx, row.sign))
}

/// The rows that do not show a deletion.
pub open spec fn without_deletions(rows: Seq<DocRow>) -> Seq<DocRow> {
    rows.filter(|row: DocRow| row.sign != DocSign::Delete)
}

proof fn lemma_rows_upto(lines: Seq<LineOrigin>, revealed: bool, n: int)
    requires
        0 <= n <= lines.len() <= usize::MAX,
    ensures
        forall|i: int|
            #![trigger rows_upto(lines, revealed, n)[i]]
            0 <= i < rows_upto(lines, revealed, n).len() ==> {
                let row = rows_upto(lines, revealed, n)[i];
                row.line_idx < n && emitted(lines, revealed, row.line_idx as int) && row == row_of(
                    lines,
                    revealed,
                    row.line_idx as int,
                )
            },
        forall|i: int, j: int|
            0 <= i < j < rows_upto(lines, revealed, n).len() ==> rows_upto(
                lines,
                revealed,
                n,
            )[i].line_idx < rows_upto(lines, revealed, n)[j].line_idx,
        forall|k: int|
            0 <= k < n && #[trigger] emitted(lines, revealed, k) ==> drawn(
                rows_upto(lines, revealed, n),
                k,
            ),
    decreases n,
{
    if n > 0 {
        lemma_rows_upto(lines, revealed, n - 1);
        let before = rows_upto(lines, revealed, n - 1);
        let rows = rows_upto(lines, revealed, n);
        if emitted(lines, revealed, n - 1) {
            assert(rows[rows.len() - 1] == row_of(lines, revealed, n - 1));
            assert(drawn(rows, n - 1));
        }
        assert forall|k: int| 0 <= k < n && #[trigger] emitted(lines, revealed, k) implies drawn(
            rows,
            k,
        ) by {
            if k < n - 1 {
                let i = choose|i: int|
                    0 <= i < before.len() && (#[trigger] before[i]).line_idx == k;
                assert(rows[i] == before[i]);
            }
        }
    }
}

/// Each row draws a line of the hunk, as that line calls for.
pub proof fn rows_draw_lines_of_the_hunk(lines: Seq<LineOrigin>, revealed: bool, i: int)
    requires
        lines.len() <= usize::MAX,
        0 <= i < document_rows(lines, revealed).len(),
    ensures
        document_rows(lines, revealed)[i].line_idx < lines.len(),
        document_rows(lines, revealed)[i] == row_of(
            lines,
            revealed,
            document_rows(lines, revealed)[i].line_idx as int,
        ),
{
    lemma_rows_upto(lines, revealed, lines.len() as int);
}

/// Rows come in source order.
pub proof fn rows_in_source_order(lines: Seq<LineOrigin>, revealed: bool, i: int, j: int)
    requires
        lines.len() <= usize::MAX,
        0 <= i < j < document_rows(lines, revealed).len(),
    ensures
        document_rows(lines, revealed)[i].line_idx < document_rows(lines, revealed)[j].line_idx,
{
    lemma_rows_upto(lines, revealed, lines.len() as int);
}

/// A line is drawn unless it is a deletion in a hunk that is not revealed. With
/// [`rows_in_source_order`] no line is drawn twice.
pub proof fn row_per_visible_line(lines: Seq<LineOrigin>, revealed: bool, k: int)
    requires
        lines.len() <= usize::MAX,
        0 <= k < lines.len(),
    ensures
        drawn(document_rows(lines, revealed), k) <==> (revealed || lines[k]
            != LineOrigin::Deletion),
{
    lemma_rows_upto(lines, revealed, lines.len() as int);
    let rows = document_rows(lines, revealed);
    if drawn(rows, k) {
        let i = choose|i: int| 0 <= i < rows.len() && (#[trigger] rows[i]).line_idx == k;
        assert(emitted(lines, revealed, rows[i].line_idx as int));
    }
    if revealed || lines[k] != LineOrigin::Deletion {
        assert(emitted(lines, revealed, k));
    }
}

/// There is a row for each line with a new line number and, once the hunk is
/// revealed, for each deletion.
pub proof fn row_per_new_side_line(lines: Seq<DiffLine>, revealed: bool, k: int)
    requires
        lines.len() <= usize::MAX,
        0 <= k < lines.len(),
        lines[k].new_lineno is Some <==> lines[k].origin != LineOrigin::Deletion,
    ensures
        drawn(document_rows(origins(lines), revealed), k) <==> (lines[k].new_lineno is Some || (
        revealed && lines[k].origin == LineOrigin::Deletion)),
{
    row_per_visible_line(origins(lines), revealed, k);
}

/// While a hunk is not revealed no row shows a deletion; once it is, no row
/// carries the marker for hidden ones.
pub proof fn deletions_are_marked_or_shown(lines: Seq<LineOrigin>, revealed: bool, i: int)
    requires
        lines.len() <= usize::MAX,
        0 <= i < document_rows(lines, revealed).len(),
    ensures
        !revealed ==> document_rows(lines, revealed)[i].sign != DocSign::Delete,
        revealed ==> !document_rows(lines, revealed)[i].delete_above,
{
    lemma_rows_upto(lines, revealed, lines.len() as int);
}

proof fn lemma_revealing_upto(lines: Seq<LineOrigin>, n: int)
    requires
        0 <= n <= lines.len(),
    ensures
        drawn_signs(without_deletions(rows_upto(lines, true, n))) == drawn_signs(
            rows_upto(lines, false, n),
        ),
    decreases n,
{
    reveal(Seq::filter);
    let keep = |row: DocRow| row.sign != DocSign::Delete;
    if n > 0 {
        lemma_revealing_upto(lines, n - 1);
        let before = rows_upto(lines, true, n - 1);
        let rows = rows_upto(lines, true, n);
        assert(rows.drop_last() =~= before);
        assert(rows.filter(keep) == if keep(rows.last()) {
            before.filter(keep).push(rows.last())
        } else {
            before.filter(keep)
        });
        let shown = rows_upto(lines, false, n - 1);
        if lines[n - 1] != LineOrigin::Deletion {
            assert(drawn_signs(before.filter(keep).push(rows.last())) =~= drawn_signs(
                before.filter(keep),
            ).push((rows.last().line_idx, rows.last().sign)));
            let last = row_of(lines, false, n - 1);
            assert(drawn_signs(shown.push(last)) =~= drawn_signs(shown).push(
                (last.line_idx, last.sign),
            ));
        }
    } else {
        assert(drawn_signs(without_deletions(rows_upto(lines, true, n))) =~= drawn_signs(
            rows_upto(lines, false, n),
        ));
    }
}

/// Revealing a hunk only adds rows for its deletions: the other rows draw the
/// same lines with the same signs, in the same order.
pub proof fn revealing_adds_only_deletions(lines: Seq<LineOrigin>)
    ensures
        drawn_signs(without_deletions(document_rows(lines, true))) == drawn_signs(
            document_rows(lines, false),
        ),
{
    lemma_revealing_upto(lines, lines.len() as int);
}

/// Lines `start..mid` are a whole run of deletions, and `mid..end` is the whole
/// run of additions that follows it.
pub open spec fn paired_runs(lines: Seq<LineOrigin>, start: int, mid: int, end: int) -> bool {
    &&& 0 <= start < mid <= end <= lines.len()
    &&& start == 0 || lines[start - 1] != LineOrigin::Deletion
    &&& forall|m: int| start <= m < mid ==> lines[m] == LineOrigin::Deletion
    &&& forall|m: int| mid <= m < end ==> lines[m] == LineOrigin::Addition
    &&& end < lines.len() ==> lines[end] != LineOrigin::Addition
    &&& end < lines.len() && mid == end ==> lines[end] != LineOrigin::Deletion
}

/// Of the additions after a run of deletions, as many as there are deletions are
/// changes, and the rest are adds.
pub proof fn deletions_pair_with_additions(
    lines: Seq<LineOrigin>,
    start: int,
    mid: int,
    end: int,
    k: int,
)
    requires
        paired_runs(lines, start, mid, end),
        mid <= k < end,
    ensures
        k - mid < mid - start ==> sign_of(lines, k) == DocSign::Change,
        k - mid >= mid - start ==> sign_of(lines, k) == DocSign::Add,
{
    lemma_runs(lines, start, mid, k);
}

/// Deletions that no addition replaces mark the next row behind them and their
/// additions, while the hunk is not revealed.
pub proof fn surplus_deletions_mark_next_row(
    lines: Seq<LineOrigin>,
    start: int,
    mid: int,
    end: int,
    i: int,
)
    requires
        lines.len() <= usize::MAX,
        paired_runs(lines, start, mid, end),
        mid - start > end - mid,
        0 <= i < document_rows(lines, false).len(),
        document_rows(lines, false)[i].line_idx >= end,
        i > 0 ==> document_rows(lines, false)[i - 1].line_idx < end,
    ensures
        document_rows(lines, false)[i].delete_above,
{
    let rows = document_rows(lines, false);
    let k = rows[i].line_idx as int;
    lemma_rows_upto(lines, false, lines.len() as int);
    lemma_paired_runs(lines, start, mid, end);
    assert forall|m: int| end <= m < k implies lines[m] == LineOrigin::Deletion by {
        if lines[m] != LineOrigin::Deletion {
            assert(emitted(lines, false, m));
            let j = choose|j: int| 0 <= j < rows.len() && (#[trigger] rows[j]).line_idx == m;
            if j >= i {
                assert(rows[i].line_idx <= rows[j].line_idx);
            } else {
                assert(rows[j].line_idx <= rows[i - 1].line_idx);
            }
        }
    }
    assert(only_deletions(lines, end, k));
    assert(emitted(lines, false, k));
}

/// A marked row is the next one behind surplus deletions and their additions.
pub proof fn marked_rows_follow_surplus_deletions(lines: Seq<LineOrigin>, i: int)
    requires
        lines.len() <= usize::MAX,
        0 <= i < document_rows(lines, false).len(),
        document_rows(lines, false)[i].delete_above,
    ensures
        exists|end: int|
            0 < end <= document_rows(lines, false)[i].line_idx && #[trigger] surplus_ends_at(
                lines,
                end,
            ) && (i > 0 ==> document_rows(lines, false)[i - 1].line_idx < end),
{
    let rows = document_rows(lines, false);
    let k = rows[i].line_idx as int;
    lemma_rows_upto(lines, false, lines.len() as int);
    assert(hidden_deletions_above(lines, k));
    let end = choose|e: int|
        0 < e <= k && #[trigger] surplus_ends_at(lines, e) && only_deletions(lines, e, k);
    if i > 0 && rows[i - 1].line_idx >= end {
        let m = rows[i - 1].line_idx as int;
        assert(emitted(lines, false, m));
        assert(end <= m < k);
    }
}

/// Deletions that are all replaced leave no marker on the line behind their
/// additions.
pub proof fn replaced_deletions_leave_no_mark(
    lines: Seq<LineOrigin>,
    start: int,
    mid: int,
    end: int,
)
    requires
        paired_runs(lines, start, mid, end),
        mid - start <= end - mid,
        end < lines.len(),
    ensures
        !row_of(lines, false, end).delete_above,
{
    lemma_paired_runs(lines, start, mid, end);
}

/// Where the next row behind surplus deletions is a context row, its gutter shows
/// that something was deleted there.
pub proof fn surplus_deletions_are_drawn(
    lines: Seq<LineOrigin>,
    start: int,
    mid: int,
    end: int,
    i: int,
    indicator: Seq<char>,
    line: DiffLineView,
    theme: Theme,
    lw: nat,
)
    requires
        lines.len() <= usize::MAX,
        paired_runs(lines, start, mid, end),
        mid - start > end - mid,
        0 <= i < document_rows(lines, false).len(),
        document_rows(lines, false)[i].line_idx >= end,
        i > 0 ==> document_rows(lines, false)[i - 1].line_idx < end,
        document_rows(lines, false)[i].sign == DocSign::Context,
    ensures
        document_spans(indicator, line, document_rows(lines, false)[i], theme, lw)[2] == (
            TextStyle::plain().with_fg(theme.diff_del),
            "▔"@.push(' '),
        ),
{
    surplus_deletions_mark_next_row(lines, start, mid, end, i);
}

/// Unless it is highlighted, a row draws its line's content whole.
pub proof fn content_is_drawn_whole(
    indicator: Seq<char>,
    line: DiffLineView,
    row: DocRow,
    theme: Theme,
    lw: nat,
)
    requires
        line.highlighted_spans is None,
    ensures
        document_spans(indicator, line, row, theme, lw)[3] == (
            content_style(row, theme),
            line.content,
        ),
{
}

/// A row shows no sign where its line is context, the sign of a deletion where it
/// is a deletion, and that of an add or a change where it is an addition.
pub proof fn signs_follow_origins(lines: &[DiffLine], revealed: bool, rows: Vec<DocRow>, i: int)
    requires
        call_ensures(compute_hunk_signs, (lines, revealed), rows),
        0 <= i < rows@.len(),
    ensures
        rows@[i].line_idx < lines@.len(),
        rows@[i].sign == DocSign::Context <==> lines@[rows@[i].line_idx as int].origin
            == LineOrigin::Context,
        rows@[i].sign == DocSign::Delete <==> lines@[rows@[i].line_idx as int].origin
            == LineOrigin::Deletion,
        (rows@[i].sign == DocSign::Add || rows@[i].sign == DocSign::Change) <==> lines@[
        rows@[i].line_idx as int].origin == LineOrigin::Addition,
{
    assert(lines@.len() == lines.len());
    lemma_rows_upto(origins(lines@), revealed, lines@.len() as int);
}

/// Each line of the new side has exactly one row, and so has each deletion once
/// the hunk is revealed. A deletion of a hunk that is not revealed has none.
pub proof fn each_visible_line_has_one_row(
    lines: &[DiffLine],
    revealed: bool,
    rows: Vec<DocRow>,
    k: int,
)
    requires
        call_ensures(compute_hunk_signs, (lines, revealed), rows),
        0 <= k < lines@.len(),
    ensures
        revealed || lines@[k].origin != LineOrigin::Deletion ==> exists|i: int|
            0 <= i < rows@.len() && (#[trigger] rows@[i]).line_idx == k,
        !revealed && lines@[k].origin == LineOrigin::Deletion ==> forall|i: int|
            0 <= i < rows@.len() ==> (#[trigger] rows@[i]).line_idx != k,
        forall|i: int, j: int|
            0 <= i < j < rows@.len() ==> (#[trigger] rows@[i]).line_idx < (
            #[trigger] rows@[j]).line_idx,
{
    assert(lines@.len() == lines.len());
    lemma_rows_upto(origins(lines@), revealed, lines@.len() as int);
    row_per_visible_line(origins(lines@), revealed, k);
}

/// Where an addition stands `k - mid` lines into its run, and `mid - start`
/// deletions stand right before that run, its row shows a change if one of the
/// deletions is left for it to replace, else an add.
pub proof fn changes_replace_deletions(
    lines: &[DiffLine],
    revealed: bool,
    rows: Vec<DocRow>,
    i: int,
    start: int,
    mid: int,
    k: int,
)
    requires
        call_ensures(compute_hunk_signs, (lines, revealed), rows),
        0 <= i < rows@.len(),
        rows@[i].line_idx == k,
        0 <= start <= mid <= k < lines@.len(),
        forall|m: int| start <= m < mid ==> lines@[m].origin == LineOrigin::Deletion,
        forall|m: int| mid <= m <= k ==> lines@[m].origin == LineOrigin::Addition,
        start == 0 || lines@[start - 1].origin != LineOrigin::Deletion,
        mid == 0 || lines@[mid - 1].origin != LineOrigin::Addition,
    ensures
        rows@[i].sign == if k - mid < mid - start {
            DocSign::Change
        } else {
            DocSign::Add
        },
{
    let o = origins(lines@);
    assert(lines@.len() == lines.len());
    lemma_rows_upto(o, revealed, lines@.len() as int);
    lemma_run_before(o, LineOrigin::Addition, mid, k);
    lemma_run_before(o, LineOrigin::Deletion, start, mid);
}

/// Where hidden deletions leave their marker. Before the line of a row that is
/// not an addition stand `k - mid` additions, and before these `mid - start`
/// deletions: the row is marked where there are more deletions.
pub proof fn context_is_marked_below_surplus_deletions(
    lines: &[DiffLine],
    rows: Vec<DocRow>,
    i: int,
    start: int,
    mid: int,
    k: int,
)
    requires
        call_ensures(compute_hunk_signs, (lines, false), rows),
        0 <= i < rows@.len(),
        rows@[i].line_idx == k,
        0 <= start <= mid <= k < lines@.len(),
        lines@[k].origin != LineOrigin::Addition,
        forall|m: int| start <= m < mid ==> lines@[m].origin == LineOrigin::Deletion,
        forall|m: int| mid <= m < k ==> lines@[m].origin == LineOrigin::Addition,
        start == 0 || lines@[start - 1].origin != LineOrigin::Deletion,
        mid == 0 || lines@[mid - 1].origin != LineOrigin::Addition,
    ensures
        rows@[i].delete_above <==> mid - start > k - mid,
{
    let o = origins(lines@);
    assert(lines@.len() == lines.len());
    lemma_rows_upto(o, false, lines@.len() as int);
    assert(emitted(o, false, k));
    lemma_run_before(o, LineOrigin::Addition, mid, k);
    lemma_run_before(o, LineOrigin::Deletion, start, mid);
    assert(o[k] == LineOrigin::Context);
    if mid - start > k - mid {
        assert(surplus_ends_at(o, k));
        assert(only_deletions(o, k, k));
    } else if hidden_deletions_above(o, k) {
        let e = choose|e: int|
            0 < e <= k && #[trigger] surplus_ends_at(o, e) && only_deletions(o, e, k);
        if e < k {
            assert(o[k - 1] == LineOrigin::Deletion);
            assert(lines@[k - 1].origin == LineOrigin::Deletion);
        }
    }
}

/// Where the marker of hidden deletions goes to an addition. Right before its
/// line stand `k - end` deletions, before these `end - mid` additions, and before
/// these `mid - start` deletions: the row is marked where there are more of the
/// latter than additions between. An addition right behind another is not marked.
pub proof fn additions_are_marked_below_surplus_deletions(
    lines: &[DiffLine],
    rows: Vec<DocRow>,
    i: int,
    start: int,
    mid: int,
    end: int,
    k: int,
)
    requires
        call_ensures(compute_hunk_signs, (lines, false), rows),
        0 <= i < rows@.len(),
        rows@[i].line_idx == k,
        0 <= start <= mid <= end <= k < lines@.len(),
        lines@[k].origin == LineOrigin::Addition,
        forall|m: int| start <= m < mid ==> lines@[m].origin == LineOrigin::Deletion,
        forall|m: int| mid <= m < end ==> lines@[m].origin == LineOrigin::Addition,
        forall|m: int| end <= m < k ==> lines@[m].origin == LineOrigin::Deletion,
        start == 0 || lines@[start - 1].origin != LineOrigin::Deletion,
        mid == 0 || lines@[mid - 1].origin != LineOrigin::Addition,
        end == 0 || lines@[end - 1].origin != LineOrigin::Deletion,
    ensures
        rows@[i].delete_above <==> end < k && mid - start > end - mid,
{
    let o = origins(lines@);
    assert(lines@.len() == lines.len());
    lemma_rows_upto(o, false, lines@.len() as int);
    assert(emitted(o, false, k));
    lemma_run_before(o, LineOrigin::Addition, mid, end);
    lemma_run_before(o, LineOrigin::Deletion, start, mid);
    assert(additions_before(o, end) == end - mid);
    assert(deletions_behind(o, end) == mid - start);
    if end < k && mid - start > end - mid {
        assert(o[end] == LineOrigin::Deletion);
        assert(surplus_ends_at(o, end));
        assert(only_deletions(o, end, k));
    }
    if hidden_deletions_above(o, k) {
        let e = choose|e: int|
            0 < e <= k && #[trigger] surplus_ends_at(o, e) && only_deletions(o, e, k);
        assert(e < k);
        assert(o[e] == LineOrigin::Deletion);
        assert(o[k - 1] == LineOrigin::Deletion);
        assert(lines@[k - 1].origin == LineOrigin::Deletion);
        if e > end {
            assert(lines@[e - 1].origin == LineOrigin::Deletion);
            assert(o[e - 1] == LineOrigin::Deletion);
        }
        if e < end {
            assert(o[end - 1] == LineOrigin::Deletion);
        }
    }
}

/// Once a hunk is revealed no row is marked.
pub proof fn revealed_rows_are_not_marked(lines: &[DiffLine], rows: Vec<DocRow>, i: int)
    requires
        call_ensures(compute_hunk_signs, (lines, true), rows),
        0 <= i < rows@.len(),
    ensures
        !rows@[i].delete_above,
{
    assert(lines@.len() == lines.len());
    lemma_rows_upto(origins(lines@), true, lines@.len() as int);
}

/// The line number of a row is the line's number on the new side, whether or not
/// the row is marked. Only a deletion, and a line without a new number, show the
/// old one. It stands in decimal at the right of its column, with nothing but
/// spaces before it and one space behind.
pub proof fn rows_are_numbered_by_the_new_side(
    indicator: Seq<char>,
    line: DiffLine,
    row: DocRow,
    theme: Theme,
    lw: nat,
    spans: Seq<(TextStyle, Seq<char>)>,
    n: u32,
)
    requires
        spans == document_spans(indicator, line@, row, theme, lw),
        row.sign != DocSign::Delete && line.new_lineno is Some ==> line.new_lineno == Some(n),
        row.sign == DocSign::Delete || line.new_lineno is None ==> line.old_lineno == Some(n),
    ensures
        spans.len() > 1,
        spans[1].0 == theme.dim_style,
        ({
            let column = spans[1].1;
            let digits = decimal(n as nat);
            let pad = if digits.len() < lw {
                lw - digits.len()
            } else {
                0
            };
            &&& column.len() == pad + digits.len() + 1
            &&& forall|j: int| 0 <= j < pad ==> column[j] == ' '
            &&& forall|j: int| 0 <= j < digits.len() ==> column[pad + j] == digits[j]
            &&& column.last() == ' '
        }),
{
}

/// The number in a row's column reads as the line's number.
pub proof fn numbers_read_back(
    indicator: Seq<char>,
    line: DiffLine,
    row: DocRow,
    theme: Theme,
    lw: nat,
    spans: Seq<(TextStyle, Seq<char>)>,
    n: u32,
)
    requires
        spans == document_spans(indicator, line@, row, theme, lw),
        row.sign != DocSign::Delete && line.new_lineno is Some ==> line.new_lineno == Some(n),
        row.sign == DocSign::Delete || line.new_lineno is None ==> line.old_lineno == Some(n),
    ensures
        ({
            let column = spans[1].1;
            exists|pad: int|
                {
                    &&& 0 <= pad < column.len() - 1
                    &&& pad > 0 ==> column.len() == lw + 1
                    &&& forall|j: int| 0 <= j < pad ==> column[j] == ' '
                    &&& forall|j: int|
                        pad <= j < column.len() - 1 ==> '0' <= #[trigger] column[j] <= '9'
                    &&& (#[trigger] column.subrange(pad, column.len() - 1)).fold_left(
                        0int,
                        |value: int, c: char| 10 * value + (c as int - '0' as int),
                    ) == n
                }
        }),
{
    rows_are_numbered_by_the_new_side(indicator, line, row, theme, lw, spans, n);
    decimal_reads_back(n as nat);
    let column = spans[1].1;
    let digits = decimal(n as nat);
    let pad = if digits.len() < lw {
        lw - digits.len()
    } else {
        0
    };
    assert(column.subrange(pad, column.len() - 1) =~= digits);
    assert forall|j: int| pad <= j < column.len() - 1 implies '0' <= #[trigger] column[j]
        <= '9' by {
        assert(column[j] == digits[j - pad]);
    }
}

/// A row without a number to show has nothing but spaces in the column.
pub proof fn missing_numbers_are_blank(
    indicator: Seq<char>,
    line: DiffLine,
    row: DocRow,
    theme: Theme,
    lw: nat,
    spans: Seq<(TextStyle, Seq<char>)>,
)
    requires
        spans == document_spans(indicator, line@, row, theme, lw),
        line.old_lineno is None,
        row.sign == DocSign::Delete || line.new_lineno is None,
    ensures
        spans.len() > 1,
        spans[1].0 == theme.dim_style,
        spans[1].1.len() == lw + 1,
        forall|j: int| 0 <= j <= lw ==> spans[1].1[j] == ' ',
{
}

/// A row starts with the mark of the cursor, and its third span is the gutter. An
/// upper bar in the colour of deletions marks context below hidden ones; other
/// context has no bar. Adds and deletions have a bar in the theme's colours for
/// them, and changes an amber one, marked or not.
pub proof fn gutter_shows_the_sign(
    indicator: Seq<char>,
    line: DiffLine,
    row: DocRow,
    theme: Theme,
    lw: nat,
    spans: Seq<(TextStyle, Seq<char>)>,
)
    requires
        spans == document_spans(indicator, line@, row, theme, lw),
    ensures
        spans.len() > 2,
        spans[0] == (theme.current_line_indicator_style, indicator),
        spans[2].1.len() == 2,
        spans[2].1[0] == match row.sign {
            DocSign::Context => if row.delete_above {
                '▔'
            } else {
                ' '
            },
            _ => '▌',
        },
        spans[2].1[1] == ' ',
        row.sign == DocSign::Context && !row.delete_above ==> spans[2].0
            == theme.diff_context_style,
        row.sign != DocSign::Context || row.delete_above ==> {
            &&& spans[2].0.fg == Some(
                match row.sign {
                    DocSign::Context => theme.diff_del,
                    DocSign::Add => theme.diff_add,
                    DocSign::Change => rgb(220, 180, 60),
                    DocSign::Delete => theme.diff_del,
                },
            )
            &&& spans[2].0.bg is None
            &&& spans[2].0.underline_color is None
            &&& spans[2].0.add_modifier == 0
            &&& spans[2].0.sub_modifier == 0
        },
{
    reveal_strlit("▔");
    reveal_strlit("▌");
    reveal_strlit(" ");
}

/// Behind the gutter stands the text of the line: its highlighted pieces, each as
/// it is, or else its content in one piece, in the style of deletions if it is
/// one. A deletion ends with an empty piece that carries its style, and where it
/// is highlighted its background, to the end of the row; nothing else follows.
pub proof fn text_is_drawn_as_it_is(
    indicator: Seq<char>,
    line: DiffLine,
    row: DocRow,
    theme: Theme,
    lw: nat,
    spans: Seq<(TextStyle, Seq<char>)>,
)
    requires
        spans == document_spans(indicator, line@, row, theme, lw),
    ensures
        ({
            let style = if row.sign == DocSign::Delete {
                theme.diff_del_style
            } else {
                theme.diff_context_style
            };
            let end = if row.sign == DocSign::Delete {
                1int
            } else {
                0
            };
            match line.highlighted_spans {
                Some(pieces) => {
                    &&& spans.len() == 3 + pieces@.len() + end
                    &&& forall|j: int|
                        0 <= j < pieces@.len() ==> spans[3 + j].0 == (#[trigger] pieces@[j]).0
                            && spans[3 + j].1 == pieces@[j].1@
                },
                None => {
                    &&& spans.len() == 4 + end
                    &&& spans[3].0 == style
                    &&& spans[3].1 == line.content@
                },
            }
        }),
        row.sign == DocSign::Delete ==> {
            let last = spans.last();
            &&& last.1.len() == 0
            &&& last.0.fg == theme.diff_del_style.fg
            &&& last.0.bg == if line.highlighted_spans is Some {
                Some(theme.syntax_del_bg)
            } else {
                theme.diff_del_style.bg
            }
            &&& last.0.underline_color == theme.diff_del_style.underline_color
            &&& last.0.add_modifier == theme.diff_del_style.add_modifier
            &&& last.0.sub_modifier == theme.diff_del_style.sub_modifier
        },
{
}

} // verus!

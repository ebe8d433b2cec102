use ratatui::style::{Color, Modifier, Style};
use ratatui::text::{Line, Span};
use tuicr::diff_document::{compute_hunk_signs, render_document_line, take, DocRow, DocSign};
use tuicr::model::{DiffLine, LineOrigin};
use tuicr::terminal::{TextStyle, Theme};

fn line(origin: LineOrigin, old: Option<u32>, new: Option<u32>) -> DiffLine {
    DiffLine {
        origin,
        content: String::new(),
        old_lineno: old,
        new_lineno: new,
        highlighted_spans: None,
    }
}

fn ctx(o: u32, n: u32) -> DiffLine {
    line(LineOrigin::Context, Some(o), Some(n))
}

fn added(n: u32) -> DiffLine {
    line(LineOrigin::Addition, None, Some(n))
}

fn del(o: u32) -> DiffLine {
    line(LineOrigin::Deletion, Some(o), None)
}

/// Collapsed view emits a row per new-side line; deletions never produce rows.
#[test]
fn collapsed_emits_one_row_per_new_side_line() {
    let lines = vec![ctx(1, 1), del(2), added(2), added(3)];
    let rows = compute_hunk_signs(&lines, false);
    let emitted: Vec<usize> = rows.iter().map(|r| r.line_idx).collect();
    // del at index 1 is hidden; context + two additions remain.
    assert_eq!(emitted, vec![0, 2, 3]);
}

/// A deletion immediately followed by an addition is a "changed" line; the
/// surplus addition beyond the deletion count is a pure add.
#[test]
fn pairs_deletion_with_addition_as_change() {
    let lines = vec![del(5), added(5), added(6)];
    let rows = compute_hunk_signs(&lines, false);
    let signs: Vec<DocSign> = rows.iter().map(|r| r.sign).collect();
    assert_eq!(signs, vec![DocSign::Change, DocSign::Add]);
}

/// A pure deletion is invisible in the collapsed document, so it marks the next
/// emitted row instead of producing one.
#[test]
fn pure_deletion_marks_following_row() {
    let lines = vec![ctx(1, 1), del(2), ctx(3, 2)];
    let rows = compute_hunk_signs(&lines, false);
    assert_eq!(rows.len(), 2);
    assert!(!rows[0].delete_above);
    assert!(rows[1].delete_above, "row after the deletion is marked");
    assert_eq!(rows[1].line_idx, 2);
}

/// Surplus deletions beyond the paired additions still leave a marker.
#[test]
fn surplus_deletions_mark_following_row() {
    let lines = vec![del(1), del(2), added(1), ctx(3, 2)];
    let rows = compute_hunk_signs(&lines, false);
    // One addition pairs with one deletion (Change); the extra deletion
    // marks the trailing context row.
    assert_eq!(
        rows.iter().map(|r| r.sign).collect::<Vec<_>>(),
        vec![DocSign::Change, DocSign::Context]
    );
    assert!(rows[1].delete_above);
}

/// Revealing a hunk emits its deletions as their own rows, in source order.
#[test]
fn revealed_emits_deletion_rows() {
    let lines = vec![del(5), added(5), added(6)];
    let rows = compute_hunk_signs(&lines, true);
    let pairs: Vec<(usize, DocSign)> = rows.iter().map(|r| (r.line_idx, r.sign)).collect();
    assert_eq!(
        pairs,
        vec![
            (0, DocSign::Delete),
            (1, DocSign::Change),
            (2, DocSign::Add),
        ]
    );
}

fn plain_rows(lines: &[DiffLine], revealed: bool) -> Vec<(usize, DocSign, bool)> {
    compute_hunk_signs(lines, revealed)
        .iter()
        .map(|r| (r.line_idx, r.sign, r.delete_above))
        .collect()
}

#[test]
fn empty_hunk_has_no_rows() {
    assert!(plain_rows(&[], false).is_empty());
    assert!(plain_rows(&[], true).is_empty());
}

#[test]
fn trailing_deletion_leaves_no_row_to_mark() {
    assert_eq!(
        plain_rows(&[ctx(1, 1), del(2)], false),
        vec![(0, DocSign::Context, false)]
    );
}

#[test]
fn marker_is_used_up_by_one_row() {
    assert_eq!(
        plain_rows(&[del(1), ctx(2, 1), ctx(3, 2)], false),
        vec![(1, DocSign::Context, true), (2, DocSign::Context, false)]
    );
}

#[test]
fn marker_goes_to_the_next_row_even_if_changed() {
    let lines = [del(1), del(2), added(1), del(3), added(2), ctx(4, 3)];
    assert_eq!(
        plain_rows(&lines, false),
        vec![
            (2, DocSign::Change, false),
            (4, DocSign::Change, true),
            (5, DocSign::Context, false),
        ]
    );
}

#[test]
fn marker_goes_to_the_first_of_several_additions() {
    let lines = [del(1), del(2), added(1), del(3), added(2), added(3), ctx(4, 4)];
    assert_eq!(
        plain_rows(&lines, false),
        vec![
            (2, DocSign::Change, false),
            (4, DocSign::Change, true),
            (5, DocSign::Add, false),
            (6, DocSign::Context, false),
        ]
    );
}

#[test]
fn each_surplus_leaves_its_own_marker() {
    let lines = [del(1), del(2), added(1), del(3), del(4), added(2), ctx(5, 3)];
    assert_eq!(
        plain_rows(&lines, false),
        vec![
            (2, DocSign::Change, false),
            (5, DocSign::Change, true),
            (6, DocSign::Context, true),
        ]
    );
    assert!(plain_rows(&lines, true).iter().all(|row| !row.2));
}

#[test]
fn surplus_before_unreplaced_deletions_marks_once() {
    let lines = [del(1), del(2), added(1), del(3), ctx(4, 2), ctx(5, 3)];
    assert_eq!(
        plain_rows(&lines, false),
        vec![
            (2, DocSign::Change, false),
            (4, DocSign::Context, true),
            (5, DocSign::Context, false),
        ]
    );
}

#[test]
fn replaced_deletions_leave_no_marker() {
    assert_eq!(
        plain_rows(&[del(1), added(1), ctx(2, 2)], false),
        vec![(1, DocSign::Change, false), (2, DocSign::Context, false)]
    );
}

#[test]
fn addition_without_deletion_is_an_add() {
    assert_eq!(
        plain_rows(&[ctx(1, 1), added(2), added(3), ctx(2, 4)], false),
        vec![
            (0, DocSign::Context, false),
            (1, DocSign::Add, false),
            (2, DocSign::Add, false),
            (3, DocSign::Context, false),
        ]
    );
}

#[test]
fn revealing_keeps_the_other_rows() {
    let lines = [ctx(1, 1), del(2), del(3), added(2), ctx(4, 3)];
    let hidden: Vec<(usize, DocSign)> = compute_hunk_signs(&lines, false)
        .iter()
        .map(|r| (r.line_idx, r.sign))
        .collect();
    let revealed = compute_hunk_signs(&lines, true);
    let kept: Vec<(usize, DocSign)> = revealed
        .iter()
        .filter(|r| r.sign != DocSign::Delete)
        .map(|r| (r.line_idx, r.sign))
        .collect();
    assert_eq!(hidden, kept);
    assert_eq!(revealed.len(), 5);
    assert!(revealed.iter().all(|r| !r.delete_above));
}

#[test]
fn taking_a_flag_clears_it() {
    let mut flag = true;
    assert!(take(&mut flag));
    assert!(!flag);
    assert!(!take(&mut flag));
}

fn styled(fg: Color, modifier: Modifier) -> TextStyle {
    TextStyle {
        fg: Some(fg),
        bg: None,
        underline_color: None,
        add_modifier: modifier.bits(),
        sub_modifier: 0,
    }
}

fn theme() -> Theme {
    Theme {
        diff_add: Color::Green,
        diff_del: Color::Red,
        syntax_del_bg: Color::Indexed(52),
        diff_context_style: styled(Color::White, Modifier::empty()),
        diff_del_style: styled(Color::LightRed, Modifier::DIM),
        current_line_indicator_style: styled(Color::Yellow, Modifier::BOLD),
        dim_style: styled(Color::DarkGray, Modifier::empty()),
    }
}

fn row(sign: DocSign, delete_above: bool) -> DocRow {
    DocRow {
        line_idx: 0,
        sign,
        delete_above,
    }
}

fn draw(diff_line: &DiffLine, row: DocRow, lw: usize) -> Line<'static> {
    let mut lines: Vec<Line<'static>> = vec![Line::from("kept")];
    let mut line_idx = 7;
    render_document_line(
        &mut lines,
        &mut line_idx,
        ">",
        diff_line,
        row,
        &theme(),
        lw,
        0,
        100,
    );
    assert_eq!(line_idx, 8);
    assert_eq!(lines.len(), 2);
    assert_eq!(lines[0], Line::from("kept"));
    lines.pop().unwrap()
}

fn with_content(mut line: DiffLine, content: &str) -> DiffLine {
    line.content = content.to_string();
    line
}

fn fg(color: Color) -> Style {
    Style::default().fg(color)
}

fn head(lineno: &'static str, sign: &'static str, style: Style) -> Vec<Span<'static>> {
    vec![
        Span::styled(">", fg(Color::Yellow).add_modifier(Modifier::BOLD)),
        Span::styled(lineno, fg(Color::DarkGray)),
        Span::styled(sign, style),
    ]
}

#[test]
fn context_row_has_no_bar() {
    let drawn = draw(
        &with_content(ctx(4, 12), "text"),
        row(DocSign::Context, false),
        4,
    );
    let mut spans = head("  12 ", "  ", fg(Color::White));
    spans.push(Span::styled("text", fg(Color::White)));
    assert_eq!(drawn, Line::from(spans));
}

#[test]
fn marked_context_row_shows_hidden_deletion() {
    let drawn = draw(&with_content(ctx(1, 1), "x"), row(DocSign::Context, true), 1);
    let mut spans = head("1 ", "▔ ", fg(Color::Red));
    spans.push(Span::styled("x", fg(Color::White)));
    assert_eq!(drawn, Line::from(spans));
}

#[test]
fn added_row_has_the_add_colour() {
    let drawn = draw(&with_content(added(105), "x"), row(DocSign::Add, true), 2);
    let mut spans = head("105 ", "▌ ", fg(Color::Green));
    spans.push(Span::styled("x", fg(Color::White)));
    assert_eq!(drawn, Line::from(spans));
}

#[test]
fn changed_row_is_amber() {
    let drawn = draw(
        &with_content(added(10), "x"),
        row(DocSign::Change, false),
        3,
    );
    let mut spans = head(" 10 ", "▌ ", fg(Color::Rgb(220, 180, 60)));
    spans.push(Span::styled("x", fg(Color::White)));
    assert_eq!(drawn, Line::from(spans));
}

#[test]
fn deleted_row_shows_the_old_number_and_ends_in_its_style() {
    let both = with_content(line(LineOrigin::Deletion, Some(9), Some(3)), "gone");
    let drawn = draw(&both, row(DocSign::Delete, false), 2);
    let del_style = fg(Color::LightRed).add_modifier(Modifier::DIM);
    let mut spans = head(" 9 ", "▌ ", fg(Color::Red));
    spans.push(Span::styled("gone", del_style));
    spans.push(Span::styled("", del_style));
    assert_eq!(drawn, Line::from(spans));
}

#[test]
fn highlighted_deletion_ends_on_the_deletion_background() {
    let mut gone = with_content(del(9), "let x");
    gone.highlighted_spans = Some(vec![
        (styled(Color::Blue, Modifier::ITALIC), "let".to_string()),
        (styled(Color::Cyan, Modifier::empty()), " x".to_string()),
    ]);
    let drawn = draw(&gone, row(DocSign::Delete, false), 2);
    let mut spans = head(" 9 ", "▌ ", fg(Color::Red));
    spans.push(Span::styled(
        "let",
        fg(Color::Blue).add_modifier(Modifier::ITALIC),
    ));
    spans.push(Span::styled(" x", fg(Color::Cyan)));
    spans.push(Span::styled(
        "",
        fg(Color::LightRed)
            .add_modifier(Modifier::DIM)
            .bg(Color::Indexed(52)),
    ));
    assert_eq!(drawn, Line::from(spans));
}

#[test]
fn highlighted_context_keeps_its_pieces_only() {
    let mut shown = with_content(ctx(1, 2), "ignored");
    shown.highlighted_spans = Some(vec![(
        styled(Color::Blue, Modifier::empty()),
        "piece".to_string(),
    )]);
    let drawn = draw(&shown, row(DocSign::Context, false), 1);
    let mut spans = head("2 ", "  ", fg(Color::White));
    spans.push(Span::styled("piece", fg(Color::Blue)));
    assert_eq!(drawn, Line::from(spans));
}

#[test]
fn missing_new_number_falls_back_to_the_old_one() {
    let odd = line(LineOrigin::Context, Some(31), None);
    let drawn = draw(&odd, row(DocSign::Context, false), 2);
    assert_eq!(drawn.spans[1].content, "31 ");
}

#[test]
fn missing_numbers_leave_the_column_blank() {
    let odd = line(LineOrigin::Context, None, None);
    let drawn = draw(&odd, row(DocSign::Context, false), 3);
    assert_eq!(drawn.spans[1].content, "    ");
    let largest = line(LineOrigin::Addition, None, Some(u32::MAX));
    let drawn = draw(&largest, row(DocSign::Add, false), 3);
    assert_eq!(drawn.spans[1].content, "4294967295 ");
}

#[test]
fn rows_outside_the_viewport_are_blank() {
    let shown = with_content(ctx(1, 1), "text");
    for (line_idx, visible) in [(2, false), (3, true), (4, true), (5, false)] {
        let mut lines: Vec<Line<'static>> = Vec::new();
        let mut at: usize = line_idx;
        render_document_line(
            &mut lines,
            &mut at,
            " ",
            &shown,
            row(DocSign::Context, false),
            &theme(),
            2,
            3,
            5,
        );
        assert_eq!(at, line_idx + 1);
        assert_eq!(lines.len(), 1);
        assert_eq!(lines[0] == Line::default(), !visible);
        assert_eq!(lines[0].spans.is_empty(), !visible);
    }
}

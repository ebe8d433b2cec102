//! Plain text: lines, numbers and padding.

use vstd::prelude::*;

verus! {

/// Appends a character to a string with std's `String::push`. Trusted: the
/// character goes behind those already there.
pub assume_specification[ String::push ](string: &mut String, ch: char)
    ensures
        final(string)@ == old(string)@.push(ch),
;

/// Where the first line of a text ends: at its first line feed, or at its end.
pub open spec fn line_end(text: Seq<char>) -> int
    decreases text.len(),
{
    if text.len() == 0 || text[0] == '\n' {
        0
    } else {
        1 + line_end(text.drop_first())
    }
}

/// A line without the carriage return that belongs to its line ending.
pub open spec fn without_cr(line: Seq<char>) -> Seq<char> {
    if line.len() > 0 && line.last() == '\r' {
        line.drop_last()
    } else {
        line
    }
}

/// The lines of a text, without their endings. A line ends with a line feed, or
/// with a carriage return and a line feed; the last one needs no ending.
pub open spec fn text_lines(text: Seq<char>) -> Seq<Seq<char>>
    decreases text.len(),
    via text_lines_decreases
{
    if text.len() == 0 {
        Seq::empty()
    } else if line_end(text) == text.len() {
        seq![text]
    } else {
        seq![without_cr(text.take(line_end(text)))] + text_lines(text.skip(line_end(text) + 1))
    }
}

#[via_fn]
proof fn text_lines_decreases(text: Seq<char>) {
    lemma_line_end_bounds(text);
}

/// The first line ends within the text, at a line feed or at the end, and holds
/// no line feed.
pub proof fn lemma_line_end_bounds(text: Seq<char>)
    ensures
        0 <= line_end(text) <= text.len(),
        line_end(text) < text.len() ==> text[line_end(text)] == '\n',
        forall|i: int| 0 <= i < line_end(text) ==> text[i] != '\n',
    decreases text.len(),
{
    if text.len() > 0 && text[0] != '\n' {
        let rest = text.drop_first();
        lemma_line_end_bounds(rest);
        assert forall|i: int| 0 <= i < line_end(text) implies text[i] != '\n' by {
            if i > 0 {
                assert(rest[i - 1] == text[i]);
            }
        }
    }
}

/// A stretch without line feeds, up to a line feed or the end, is the first line.
proof fn lemma_line_end_is(text: Seq<char>, end: int)
    requires
        0 <= end <= text.len(),
        end < text.len() ==> text[end] == '\n',
        forall|i: int| 0 <= i < end ==> text[i] != '\n',
    ensures
        line_end(text) == end,
{
    lemma_line_end_bounds(text);
}

/// The texts of strings.
pub open spec fn texts(strings: Seq<String>) -> Seq<Seq<char>> {
    strings.map_values(|string: String| string@)
}

/// Splits a text into its lines.
pub fn split_lines(text: &str) -> (lines: Vec<String>)
    ensures
        texts(lines@) == text_lines(text@),
{
    let mut lines: Vec<String> = Vec::new();
    let mut line = String::new();
    // A carriage return that belongs to the line unless a line feed follows.
    let mut held_cr: bool = false;
    let ghost mut raw: Seq<char> = Seq::empty();
    proof {
        assert(raw + text@.skip(0) =~= text@);
        assert(texts(lines@) + text_lines(raw + text@.skip(0)) =~= text_lines(text@));
    }
    for c in it: text.chars()
        invariant
            it.seq() == text@,
            raw == if held_cr {
                line@.push('\r')
            } else {
                line@
            },
            !held_cr && line@.len() > 0 ==> line@.last() != '\r',
            forall|i: int| 0 <= i < raw.len() ==> raw[i] != '\n',
            texts(lines@) + text_lines(raw + text@.skip(it.index() as int)) == text_lines(text@),
    {
        let ghost at = it.index() as int;
        let ghost before = raw + text@.skip(at);
        if c == '\n' {
            proof {
                lemma_line_end_is(before, raw.len() as int);
                assert(before.take(raw.len() as int) =~= raw);
                assert(before.skip(raw.len() as int + 1) =~= Seq::<char>::empty() + text@.skip(at + 1));
                assert(without_cr(raw) =~= line@);
                assert(texts(lines@.push(line)) =~= texts(lines@).push(line@));
                assert(texts(lines@) + (seq![line@] + text_lines(text@.skip(at + 1)))
                    =~= texts(lines@).push(line@) + text_lines(text@.skip(at + 1)));
                assert(Seq::<char>::empty() + text@.skip(at + 1) =~= text@.skip(at + 1));
                raw = Seq::empty();
            }
            lines.push(line);
            line = String::new();
            held_cr = false;
        } else {
            proof {
                assert(before =~= raw.push(c) + text@.skip(at + 1));
                raw = raw.push(c);
            }
            if held_cr {
                line.push('\r');
            }
            if c == '\r' {
                held_cr = true;
            } else {
                held_cr = false;
                line.push(c);
            }
        }
    }
    proof {
        assert(raw + text@.skip(text@.len() as int) =~= raw);
        lemma_line_end_is(raw, raw.len() as int);
    }
    if held_cr {
        line.push('\r');
    }
    if !line.as_str().is_empty() {
        proof {
            assert(texts(lines@.push(line)) =~= texts(lines@) + seq![line@]);
        }
        lines.push(line);
    }
    lines
}

/// The character of a decimal digit.
pub open spec fn digit(value: nat) -> char {
    ('0' as nat + value) as char
}

/// A number in decimal digits, without leading zeros.
pub open spec fn decimal(value: nat) -> Seq<char>
    decreases value,
{
    if value < 10 {
        seq![digit(value)]
    } else {
        decimal(value / 10).push(digit(value % 10))
    }
}

/// That many spaces.
pub open spec fn spaces(count: nat) -> Seq<char> {
    Seq::new(count, |i: int| ' ')
}

/// A text with spaces in front, up to the given width.
pub open spec fn right_aligned(text: Seq<char>, width: nat) -> Seq<char> {
    spaces(if text.len() < width {
        (width - text.len()) as nat
    } else {
        0
    }) + text
}

/// Appends a number in decimal digits.
pub fn push_decimal(out: &mut String, value: u32)
    ensures
        final(out)@ == old(out)@ + decimal(value as nat),
    decreases value,
{
    if value >= 10 {
        push_decimal(out, value / 10);
    }
    let last: u8 = (value % 10) as u8;
    out.push((48u8 + last) as char);
}

/// Appends spaces.
pub fn push_spaces(out: &mut String, count: usize)
    ensures
        final(out)@ == old(out)@ + spaces(count as nat),
{
    let mut done: usize = 0;
    while done < count
        invariant
            done <= count,
            out@ == old(out)@ + spaces(done as nat),
        decreases count - done,
    {
        out.push(' ');
        done += 1;
        assert(out@ =~= old(out)@ + spaces(done as nat));
    }
}

/// No line holds a line feed.
pub proof fn lines_hold_no_line_feed(text: Seq<char>, i: int, j: int)
    requires
        0 <= i < text_lines(text).len(),
        0 <= j < text_lines(text)[i].len(),
    ensures
        text_lines(text)[i][j] != '\n',
    decreases text.len(),
{
    lemma_line_end_bounds(text);
    let end = line_end(text);
    if end < text.len() && i > 0 {
        let rest = text.skip(end + 1);
        assert(text_lines(text)[i] == text_lines(rest)[i - 1]);
        lines_hold_no_line_feed(rest, i - 1, j);
    }
}

/// Lines with a line feed behind each.
pub open spec fn joined_lines(lines: Seq<Seq<char>>) -> Seq<char>
    decreases lines.len(),
{
    if lines.len() == 0 {
        Seq::empty()
    } else {
        lines[0].push('\n') + joined_lines(lines.drop_first())
    }
}

/// A text whose last line is ended too.
pub open spec fn ended(text: Seq<char>) -> Seq<char> {
    if text.len() == 0 || text.last() == '\n' {
        text
    } else {
        text.push('\n')
    }
}

/// Without carriage returns, the lines of a text make up the text again, but
/// for the line feed that its last line may lack.
pub proof fn lines_make_up_text(text: Seq<char>)
    requires
        !text.contains('\r'),
    ensures
        joined_lines(text_lines(text)) == ended(text),
    decreases text.len(),
{
    lemma_line_end_bounds(text);
    let end = line_end(text);
    let lines = text_lines(text);
    if text.len() == 0 {
    } else if end == text.len() {
        assert(joined_lines(lines.drop_first()) == Seq::<char>::empty());
        assert(text[text.len() - 1] != '\n');
        assert(joined_lines(lines) =~= ended(text));
    } else {
        let rest = text.skip(end + 1);
        let first = text.take(end);
        assert(!rest.contains('\r')) by {
            if rest.contains('\r') {
                let i = choose|i: int| 0 <= i < rest.len() && rest[i] == '\r';
                assert(text[end + 1 + i] == '\r');
            }
        }
        lines_make_up_text(rest);
        assert(without_cr(first) == first) by {
            if end > 0 {
                assert(first.last() == text[end - 1]);
            }
        }
        assert(lines.drop_first() =~= text_lines(rest));
        assert(lines[0] == first);
        assert(text =~= first.push('\n') + rest);
        if rest.len() > 0 {
            assert(rest.last() == text.last());
        } else {
            assert(text.last() == text[end]);
        }
        assert(joined_lines(lines) == first.push('\n') + ended(rest));
        assert(joined_lines(lines) =~= ended(text));
    }
}

/// Nothing has no lines.
pub proof fn empty_text_has_no_lines()
    ensures
        text_lines(Seq::empty()) == Seq::<Seq<char>>::empty(),
{
}

/// A text without a line feed is one line, as it is. A carriage return at its end
/// is part of it.
pub proof fn unended_text_is_one_line(text: Seq<char>)
    requires
        text.len() > 0,
        !text.contains('\n'),
    ensures
        text_lines(text) == seq![text],
{
    assert forall|i: int| 0 <= i < text.len() implies text[i] != '\n' by {
        if text[i] == '\n' {
            assert(text.contains('\n'));
        }
    }
    lemma_line_end_is(text, text.len() as int);
}

/// What ends with a line feed at the start of a text is its first line, even if
/// it is empty, and the other lines are those of the rest.
pub proof fn line_feed_ends_line(line: Seq<char>, rest: Seq<char>)
    requires
        !line.contains('\n'),
        line.len() > 0 ==> line.last() != '\r',
    ensures
        text_lines(line + seq!['\n'] + rest) == seq![line] + text_lines(rest),
{
    let text = line + seq!['\n'] + rest;
    assert forall|i: int| 0 <= i < line.len() implies text[i] != '\n' by {
        if text[i] == '\n' {
            assert(line[i] == '\n');
        }
    }
    lemma_line_end_is(text, line.len() as int);
    assert(text.take(line.len() as int) =~= line);
    assert(text.skip(line.len() as int + 1) =~= rest);
}

/// One carriage return right before a line feed belongs to the ending, and no
/// other does.
pub proof fn carriage_return_belongs_to_ending(line: Seq<char>, rest: Seq<char>)
    requires
        !line.contains('\n'),
    ensures
        text_lines(line + seq!['\r', '\n'] + rest) == seq![line] + text_lines(rest),
{
    let raw = line.push('\r');
    let text = line + seq!['\r', '\n'] + rest;
    assert forall|i: int| 0 <= i < raw.len() implies text[i] != '\n' by {
        if text[i] == '\n' {
            assert(line[i] == '\n');
        }
    }
    lemma_line_end_is(text, raw.len() as int);
    assert(text.take(raw.len() as int) =~= raw);
    assert(without_cr(raw) =~= line);
    assert(text.skip(raw.len() as int + 1) =~= rest);
}

/// A number in decimal is made of digits, does not start with a zero that could
/// be left out, and reads as the number.
pub proof fn decimal_reads_back(value: nat)
    ensures
        decimal(value).len() > 0,
        forall|i: int| 0 <= i < decimal(value).len() ==> '0' <= #[trigger] decimal(value)[i] <= '9',
        decimal(value).len() > 1 ==> decimal(value)[0] != '0',
        decimal(value).fold_left(
            0int,
            |read: int, c: char| 10 * read + (c as int - '0' as int),
        ) == value,
    decreases value,
{
    let read = |read: int, c: char| 10 * read + (c as int - '0' as int);
    let text = decimal(value);
    if value < 10 {
        assert(text.drop_last() =~= Seq::<char>::empty());
        reveal_with_fuel(Seq::fold_left, 2);
    } else {
        decimal_reads_back(value / 10);
        let front = decimal(value / 10);
        assert(text.drop_last() =~= front);
        if front.len() == 1 {
            assert(front.drop_last() =~= Seq::<char>::empty());
            reveal_with_fuel(Seq::fold_left, 3);
            assert(front.fold_left(0int, read) == front[0] as int - '0' as int);
        }
    }
}

/// Spaces are as many as asked for, and nothing else.
pub proof fn spaces_are_blank(count: nat)
    ensures
        spaces(count).len() == count,
        forall|i: int| 0 <= i < count ==> spaces(count)[i] == ' ',
{
}

proof fn lemma_joined_is_flat(lines: Seq<Seq<char>>)
    ensures
        joined_lines(lines) == lines.map_values(|line: Seq<char>| line.push('\n')).flatten(),
    decreases lines.len(),
{
    let ended_lines = lines.map_values(|line: Seq<char>| line.push('\n'));
    if lines.len() > 0 {
        lemma_joined_is_flat(lines.drop_first());
        assert(ended_lines.drop_first() =~= lines.drop_first().map_values(
            |line: Seq<char>| line.push('\n'),
        ));
    }
}

/// Without carriage returns, the lines of a text, each with a line feed behind it
/// and put one behind the other, are the text, but for the line feed that its last
/// line may lack.
pub proof fn ended_lines_are_the_text(text: Seq<char>)
    requires
        !text.contains('\r'),
    ensures
        text_lines(text).map_values(|line: Seq<char>| line.push('\n')).flatten() == if text.len()
            > 0 && text.last() != '\n' {
            text.push('\n')
        } else {
            text
        },
{
    lines_make_up_text(text);
    lemma_joined_is_flat(text_lines(text));
}

proof fn lemma_no_line_feeds(text: Seq<char>)
    requires
        forall|i: int| 0 <= i < text.len() ==> text[i] != '\n',
    ensures
        text.filter(|c: char| c == '\n').len() == 0,
    decreases text.len(),
{
    reveal(Seq::filter);
    if text.len() > 0 {
        lemma_no_line_feeds(text.drop_last());
    }
}

/// A text has a line for each line feed, and one more if it does not end with one
/// but holds something. No line is lost, not even an empty one.
pub proof fn each_line_feed_ends_a_line(text: Seq<char>)
    ensures
        text_lines(text).len() == text.filter(|c: char| c == '\n').len() + if text.len() > 0
            && text.last() != '\n' {
            1int
        } else {
            0
        },
    decreases text.len(),
{
    let feed = |c: char| c == '\n';
    lemma_line_end_bounds(text);
    let end = line_end(text);
    let first = text.take(end);
    lemma_no_line_feeds(first);
    if text.len() == 0 || end == text.len() {
        assert(first =~= text);
    } else {
        let rest = text.skip(end + 1);
        each_line_feed_ends_a_line(rest);
        let ending = seq!['\n'];
        assert(text =~= first + (ending + rest));
        Seq::filter_distributes_over_add(first, ending + rest, feed);
        Seq::filter_distributes_over_add(ending, rest, feed);
        assert(ending.filter(feed).len() == 1) by {
            reveal(Seq::filter);
            reveal_with_fuel(Seq::filter, 2);
            assert(ending.drop_last() =~= Seq::<char>::empty());
        }
        if rest.len() > 0 {
            assert(rest.last() == text.last());
        } else {
            assert(text.last() == text[end]);
        }
    }
}

/// Splitting a text loses no line: there is one for each line feed, and one more
/// where the text ends without. Without carriage returns the lines, each with a
/// line feed, are the text again.
pub proof fn splitting_loses_nothing(text: &str, lines: Vec<String>)
    requires
        call_ensures(split_lines, (text,), lines),
    ensures
        lines@.len() == text@.filter(|c: char| c == '\n').len() + if text@.len() > 0
            && text@.last() != '\n' {
            1int
        } else {
            0
        },
        !text@.contains('\r') ==> lines@.map_values(|line: String| line@.push('\n')).flatten()
            == if text@.len() > 0 && text@.last() != '\n' {
            text@.push('\n')
        } else {
            text@
        },
{
    each_line_feed_ends_a_line(text@);
    assert(texts(lines@).len() == lines@.len());
    if !text@.contains('\r') {
        ended_lines_are_the_text(text@);
        assert(lines@.map_values(|line: String| line@.push('\n')) =~= text_lines(text@).map_values(
            |line: Seq<char>| line.push('\n'),
        )) by {
            assert forall|i: int| 0 <= i < lines@.len() implies (#[trigger] lines@[i])@
                == text_lines(text@)[i] by {
                assert(texts(lines@)[i] == lines@[i]@);
            }
        }
    }
}

} // verus!

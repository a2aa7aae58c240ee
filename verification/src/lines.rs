//! Small text files, read line by line.

use crate::text::{chars_of, code_of, decimal, digit_char};
use vstd::prelude::*;

verus! {

/// A white-space character.
pub open spec fn is_space(c: char) -> bool {
    let code = c as int;
    (9 <= code && code <= 13) || code == 0x20 || code == 0x85 || code == 0xA0 || code == 0x1680 || (
    0x2000 <= code && code <= 0x200A) || code == 0x2028 || code == 0x2029 || code == 0x202F || code
        == 0x205F || code == 0x3000
}

/// Whether a character is white space.
pub fn space(c: char) -> (result: bool)
    ensures
        result == is_space(c),
{
    let code: u32 = code_of(c);
    (9 <= code && code <= 13) || code == 0x20 || code == 0x85 || code == 0xA0 || code == 0x1680 || (
    0x2000 <= code && code <= 0x200A) || code == 0x2028 || code == 0x2029 || code == 0x202F || code
        == 0x205F || code == 0x3000
}

/// A text without the white space in front.
pub open spec fn start_trimmed(text: Seq<char>) -> Seq<char>
    decreases text.len(),
{
    if text.len() > 0 && is_space(text[0]) {
        start_trimmed(text.drop_first())
    } else {
        text
    }
}

/// A text without the white space at its end.
pub open spec fn end_trimmed(text: Seq<char>) -> Seq<char>
    decreases text.len(),
{
    if text.len() > 0 && is_space(text.last()) {
        end_trimmed(text.drop_last())
    } else {
        text
    }
}

/// A text without the white space around it.
pub open spec fn trimmed(text: Seq<char>) -> Seq<char> {
    end_trimmed(start_trimmed(text))
}

/// Part of a list of characters.
pub fn part(chars: &Vec<char>, from: usize, to: usize) -> (result: Vec<char>)
    requires
        from <= to <= chars@.len(),
    ensures
        result@ == chars@.subrange(from as int, to as int),
{
    let mut result: Vec<char> = Vec::new();
    let mut i: usize = from;
    while i < to
        invariant
            from <= i <= to <= chars@.len(),
            result@ == chars@.subrange(from as int, i as int),
        decreases to - i,
    {
        result.push(chars[i]);
        assert(chars@.subrange(from as int, i + 1) =~= chars@.subrange(from as int, i as int).push(
            chars@[i as int],
        ));
        i = i + 1;
    }
    result
}

/// A list of characters as a text.
pub fn text_of(chars: &Vec<char>) -> (text: String)
    ensures
        text@ == chars@,
{
    let mut text = String::from_str("");
    proof {
        reveal_strlit("");
    }
    let mut i: usize = 0;
    assert(text@ =~= chars@.take(0));
    while i < chars.len()
        invariant
            i <= chars@.len(),
            text@ == chars@.take(i as int),
        decreases chars@.len() - i,
    {
        text.push(chars[i]);
        assert(chars@.take(i + 1) =~= chars@.take(i as int).push(chars@[i as int]));
        i = i + 1;
    }
    assert(chars@.take(i as int) =~= chars@);
    text
}

/// Takes the white space in front away.
pub fn trim_start(chars: &Vec<char>) -> (result: Vec<char>)
    ensures
        result@ == start_trimmed(chars@),
{
    let mut from: usize = 0;
    assert(chars@.skip(0) =~= chars@);
    while from < chars.len() && space(chars[from])
        invariant
            from <= chars@.len(),
            start_trimmed(chars@) == start_trimmed(chars@.skip(from as int)),
        decreases chars@.len() - from,
    {
        assert(chars@.skip(from as int).drop_first() =~= chars@.skip(from + 1));
        from = from + 1;
    }
    assert(chars@.skip(from as int) =~= chars@.subrange(from as int, chars@.len() as int));
    part(chars, from, chars.len())
}

/// Takes the white space around away.
pub fn trim(chars: &Vec<char>) -> (result: Vec<char>)
    ensures
        result@ == trimmed(chars@),
{
    let rest = trim_start(chars);
    let mut to: usize = rest.len();
    assert(rest@.take(to as int) =~= rest@);
    while to > 0 && space(rest[to - 1])
        invariant
            to <= rest@.len(),
            end_trimmed(rest@) == end_trimmed(rest@.take(to as int)),
        decreases to,
    {
        assert(rest@.take(to as int).drop_last() =~= rest@.take(to - 1));
        to = to - 1;
    }
    assert(rest@.take(to as int) =~= rest@.subrange(0, to as int));
    part(&rest, 0, to)
}

/// The place of the first such character, or the length without one.
pub open spec fn first_place(text: Seq<char>, c: char) -> int
    decreases text.len(),
{
    if text.len() == 0 || text[0] == c {
        0
    } else {
        1 + first_place(text.drop_first(), c)
    }
}

pub proof fn lemma_first_place(text: Seq<char>, c: char, at: int)
    requires
        0 <= at <= text.len(),
        forall|i: int| 0 <= i < at ==> #[trigger] text[i] != c,
        at < text.len() ==> text[at] == c,
    ensures
        first_place(text, c) == at,
    decreases text.len(),
{
    if at > 0 {
        assert(text[0] != c);
        let rest = text.drop_first();
        assert forall|i: int| 0 <= i < at - 1 implies #[trigger] rest[i] != c by {
            assert(rest[i] == text[i + 1]);
        }
        lemma_first_place(rest, c, at - 1);
    }
}

/// Finds the first such character from a place on.
pub fn find_from(chars: &Vec<char>, from: usize, c: char) -> (at: usize)
    requires
        from <= chars@.len(),
    ensures
        from <= at <= chars@.len(),
        at - from == first_place(chars@.skip(from as int), c),
        at < chars@.len() ==> chars@[at as int] == c,
{
    let mut at: usize = from;
    while at < chars.len() && chars[at] != c
        invariant
            from <= at <= chars@.len(),
            forall|i: int| from <= i < at ==> #[trigger] chars@[i] != c,
        decreases chars@.len() - at,
    {
        at = at + 1;
    }
    proof {
        let rest = chars@.skip(from as int);
        assert forall|i: int| 0 <= i < at - from implies #[trigger] rest[i] != c by {
            assert(rest[i] == chars@[from + i]);
        }
        if at < chars@.len() {
            assert(rest[at - from] == chars@[at as int]);
        }
        lemma_first_place(rest, c, at - from);
    }
    at
}

/// A line without the carriage return before its end.
pub open spec fn without_return(line: Seq<char>) -> Seq<char> {
    if line.len() > 0 && line.last() == '\r' {
        line.drop_last()
    } else {
        line
    }
}

/// The lines of a text. What follows the last line end is a line if there is
/// anything.
pub open spec fn lines_of(text: Seq<char>) -> Seq<Seq<char>>
    decreases text.len(),
    via lines_shrink
{
    if text.len() == 0 {
        Seq::empty()
    } else {
        let end = first_place(text, '\n');
        if end >= text.len() {
            seq![text]
        } else {
            seq![without_return(text.take(end))] + lines_of(text.skip(end + 1))
        }
    }
}

#[via_fn]
proof fn lines_shrink(text: Seq<char>) {
    lemma_place_bounds(text, '\n');
}

proof fn lemma_place_bounds(text: Seq<char>, c: char)
    ensures
        0 <= first_place(text, c) <= text.len(),
    decreases text.len(),
{
    if text.len() > 0 && text[0] != c {
        lemma_place_bounds(text.drop_first(), c);
    }
}

/// The contents of some lines.
pub open spec fn line_views(lines: Seq<Vec<char>>) -> Seq<Seq<char>> {
    Seq::new(lines.len(), |i: int| lines[i]@)
}

/// Splits a text into its lines.
pub fn split_lines(text: &str) -> (lines: Vec<Vec<char>>)
    ensures
        line_views(lines@) == lines_of(text@),
{
    let chars = chars_of(text);
    let mut lines: Vec<Vec<char>> = Vec::new();
    let mut at: usize = 0;
    assert(chars@.skip(0) =~= chars@);
    assert(line_views(lines@) + lines_of(chars@.skip(0)) =~= lines_of(text@));
    while at < chars.len()
        invariant
            chars@ == text@,
            at <= chars@.len(),
            line_views(lines@) + lines_of(chars@.skip(at as int)) == lines_of(text@),
        decreases chars@.len() - at,
    {
        let end: usize = find_from(&chars, at, '\n');
        let ghost rest = chars@.skip(at as int);
        let ghost before = line_views(lines@);
        if end < chars.len() {
            let mut stop: usize = end;
            if stop > at && chars[stop - 1] == '\r' {
                stop = stop - 1;
            }
            let line = part(&chars, at, stop);
            proof {
                let whole = rest.take(end - at);
                assert(whole =~= chars@.subrange(at as int, end as int));
                assert(line@ =~= without_return(whole));
                assert(rest.skip(end - at + 1) =~= chars@.skip(end + 1));
            }
            let ghost shown = line@;
            lines.push(line);
            proof {
                assert(line_views(lines@) =~= before.push(shown));
                assert(before + (seq![shown] + lines_of(chars@.skip(end + 1))) =~= before.push(
                    shown,
                ) + lines_of(chars@.skip(end + 1)));
            }
            at = end + 1;
        } else {
            let line = part(&chars, at, end);
            let ghost shown = line@;
            lines.push(line);
            proof {
                assert(shown =~= rest);
                assert(line_views(lines@) =~= before.push(shown));
                assert(before + seq![rest] =~= before.push(rest));
                assert(chars@.skip(end as int) =~= Seq::<char>::empty());
                assert(line_views(lines@) + lines_of(chars@.skip(end as int)) =~= before.push(
                    rest,
                ));
            }
            at = end;
        }
    }
    proof {
        assert(chars@.skip(at as int) =~= Seq::<char>::empty());
        assert(line_views(lines@) + Seq::<Seq<char>>::empty() =~= line_views(lines@));
    }
    lines
}

/// A text begins with another.
pub open spec fn begins_with(text: Seq<char>, start: Seq<char>) -> bool {
    start.len() <= text.len() && text.take(start.len() as int) == start
}

/// Whether a text begins with another.
pub fn starts_with(chars: &Vec<char>, start: &str) -> (result: bool)
    ensures
        result == begins_with(chars@, start@),
{
    let wanted = chars_of(start);
    if wanted.len() > chars.len() {
        return false;
    }
    let mut i: usize = 0;
    while i < wanted.len()
        invariant
            wanted@ == start@,
            i <= wanted@.len() <= chars@.len(),
            forall|j: int| 0 <= j < i ==> #[trigger] wanted@[j] == chars@[j],
        decreases wanted@.len() - i,
    {
        if wanted[i] != chars[i] {
            assert(chars@.take(wanted@.len() as int)[i as int] != start@[i as int]);
            return false;
        }
        i = i + 1;
    }
    assert(chars@.take(wanted@.len() as int) =~= start@);
    true
}

/// A decimal digit.
pub open spec fn is_digit(c: char) -> bool {
    48 <= c as int && c as int <= 57
}

/// The number that decimal digits stand for.
pub open spec fn number_of(digits: Seq<char>) -> nat
    decreases digits.len(),
{
    if digits.len() == 0 {
        0
    } else {
        number_of(digits.drop_last()) * 10 + (digits.last() as int - 48) as nat
    }
}

/// Every character is a decimal digit.
pub open spec fn all_digits(text: Seq<char>) -> bool {
    forall|i: int| 0 <= i < text.len() ==> is_digit(#[trigger] text[i])
}

/// The numeral without a plus sign in front.
pub open spec fn unsigned_part(text: Seq<char>) -> Seq<char> {
    if text.len() > 0 && text[0] == '+' {
        text.drop_first()
    } else {
        text
    }
}

/// The 32-bit number that a text stands for: decimal digits, with a plus sign
/// in front at most.
pub open spec fn parsed_u32(text: Seq<char>) -> Option<u32> {
    let digits = unsigned_part(text);
    if digits.len() > 0 && all_digits(digits) && number_of(digits) <= u32::MAX {
        Some(number_of(digits) as u32)
    } else {
        None
    }
}

proof fn lemma_number_grows(digits: Seq<char>, count: int)
    requires
        0 <= count <= digits.len(),
        all_digits(digits),
    ensures
        number_of(digits.take(count)) <= number_of(digits),
    decreases digits.len() - count,
{
    if count < digits.len() {
        lemma_number_grows(digits, count + 1);
        assert(digits.take(count + 1).drop_last() =~= digits.take(count));
        assert(is_digit(digits[count]));
    } else {
        assert(digits.take(count) =~= digits);
    }
}

/// Reads a 32-bit number.
pub fn parse_u32(chars: &Vec<char>) -> (number: Option<u32>)
    ensures
        number == parsed_u32(chars@),
{
    let mut from: usize = 0;
    if chars.len() > 0 && chars[0] == '+' {
        from = 1;
    }
    let digits = part(chars, from, chars.len());
    assert(digits@ =~= unsigned_part(chars@));
    if digits.len() == 0 {
        return None;
    }
    let mut value: u64 = 0;
    let mut i: usize = 0;
    assert(digits@.take(0) =~= Seq::<char>::empty());
    while i < digits.len()
        invariant
            i <= digits@.len(),
            digits@ == unsigned_part(chars@),
            digits@.len() > 0,
            forall|j: int| 0 <= j < i ==> is_digit(#[trigger] digits@[j]),
            value == number_of(digits@.take(i as int)),
            value <= u32::MAX,
        decreases digits@.len() - i,
    {
        let code: u32 = code_of(digits[i]);
        if code < 48 || code > 57 {
            assert(!is_digit(digits@[i as int]));
            return None;
        }
        assert(digits@.take(i + 1).drop_last() =~= digits@.take(i as int));
        value = value * 10 + (code - 48) as u64;
        if value > 0xFFFF_FFFF {
            proof {
                if all_digits(digits@) {
                    lemma_number_grows(digits@, i + 1);
                }
            }
            return None;
        }
        i = i + 1;
    }
    assert(digits@.take(i as int) =~= digits@);
    Some(value as u32)
}

/// Lines as a text, each with a line end behind it.
pub open spec fn joined_lines(lines: Seq<Seq<char>>) -> Seq<char>
    decreases lines.len(),
{
    if lines.len() == 0 {
        Seq::empty()
    } else {
        joined_lines(lines.drop_last()) + lines.last().push('\n')
    }
}

proof fn lemma_first_line(line: Seq<char>, rest: Seq<char>)
    requires
        !line.contains('\n'),
    ensures
        lines_of(line.push('\n') + rest) == seq![without_return(line)] + lines_of(rest),
{
    let text = line.push('\n') + rest;
    assert forall|i: int| 0 <= i < line.len() implies #[trigger] text[i] != '\n' by {
        assert(text[i] == line[i]);
        assert(line.contains(line[i]));
    }
    assert(text[line.len() as int] == '\n');
    lemma_first_place(text, '\n', line.len() as int);
    assert(text.take(line.len() as int) =~= line);
    assert(text.skip(line.len() as int + 1) =~= rest);
}

/// A line end parts a text: what stands before it is the first line, without a
/// carriage return right before the end, and the other lines are those of the
/// rest.
pub proof fn law_line_end_parts_a_text(line: Seq<char>, rest: Seq<char>)
    requires
        !line.contains('\n'),
    ensures
        line.len() == 0 || line.last() != '\r' ==> lines_of(line.push('\n') + rest) == seq![line]
            + lines_of(rest),
        lines_of(line.push('\r').push('\n') + rest) == seq![line] + lines_of(rest),
        line.len() > 0 ==> lines_of(line) == seq![line],
        lines_of(Seq::empty()) == Seq::<Seq<char>>::empty(),
{
    lemma_first_line(line, rest);
    let returned = line.push('\r');
    assert(!returned.contains('\n')) by {
        if returned.contains('\n') {
            let i = choose|i: int| 0 <= i < returned.len() && returned[i] == '\n';
            assert(line[i] == '\n');
        }
    }
    lemma_first_line(returned, rest);
    assert(returned.drop_last() =~= line);
    if line.len() > 0 {
        assert forall|i: int| 0 <= i < line.len() implies #[trigger] line[i] != '\n' by {
            assert(line.contains(line[i]));
        }
        lemma_first_place(line, '\n', line.len() as int);
    }
}

/// A line that holds no line end and does not end in a carriage return.
pub open spec fn is_plain_line(line: Seq<char>) -> bool {
    !line.contains('\n') && (line.len() > 0 ==> line.last() != '\r')
}

proof fn lemma_joined_front(lines: Seq<Seq<char>>)
    requires
        lines.len() > 0,
    ensures
        joined_lines(lines) == lines[0].push('\n') + joined_lines(lines.drop_first()),
    decreases lines.len(),
{
    if lines.len() == 1 {
        assert(lines.drop_last() =~= Seq::<Seq<char>>::empty());
        assert(lines.drop_first() =~= Seq::<Seq<char>>::empty());
        reveal_with_fuel(joined_lines, 2);
        assert(joined_lines(lines) =~= lines[0].push('\n'));
        assert(lines[0].push('\n') + Seq::<char>::empty() =~= lines[0].push('\n'));
    } else {
        let front = lines.drop_last();
        lemma_joined_front(front);
        assert(front.drop_first() =~= lines.drop_first().drop_last());
        assert(lines.drop_first().last() == lines.last());
        assert(joined_lines(lines) =~= lines[0].push('\n') + (joined_lines(front.drop_first())
            + lines.last().push('\n')));
    }
}

/// Lines that were written one after the other are read back as they were, and
/// so is a last one without a line end.
pub proof fn law_lines_are_read_back(lines: Seq<Seq<char>>, end: Seq<char>)
    requires
        forall|i: int| 0 <= i < lines.len() ==> is_plain_line(#[trigger] lines[i]),
        !end.contains('\n'),
    ensures
        lines_of(joined_lines(lines) + end) == if end.len() == 0 {
            lines
        } else {
            lines.push(end)
        },
    decreases lines.len(),
{
    if lines.len() == 0 {
        assert(joined_lines(lines) + end =~= end);
        law_line_end_parts_a_text(end, Seq::empty());
        if end.len() > 0 {
            assert(lines.push(end) =~= seq![end]);
        } else {
            assert(end =~= Seq::<char>::empty());
            assert(lines =~= Seq::<Seq<char>>::empty());
        }
    } else {
        let first = lines[0];
        let rest = lines.drop_first();
        assert(is_plain_line(lines[0]));
        lemma_joined_front(lines);
        assert forall|i: int| 0 <= i < rest.len() implies is_plain_line(#[trigger] rest[i]) by {
            assert(rest[i] == lines[i + 1]);
        }
        law_lines_are_read_back(rest, end);
        assert(joined_lines(lines) + end =~= first.push('\n') + (joined_lines(rest) + end));
        law_line_end_parts_a_text(first, joined_lines(rest) + end);
        if end.len() == 0 {
            assert(seq![first] + rest =~= lines);
        } else {
            assert(seq![first] + rest.push(end) =~= lines.push(end));
        }
    }
}

proof fn lemma_start_trimmed(text: Seq<char>, k: int)
    requires
        0 <= k <= text.len(),
        forall|i: int| 0 <= i < k ==> is_space(#[trigger] text[i]),
        k < text.len() ==> !is_space(text[k]),
    ensures
        start_trimmed(text) == text.skip(k),
    decreases k,
{
    if k > 0 {
        assert(is_space(text[0]));
        let rest = text.drop_first();
        assert forall|i: int| 0 <= i < k - 1 implies is_space(#[trigger] rest[i]) by {
            assert(rest[i] == text[i + 1]);
        }
        lemma_start_trimmed(rest, k - 1);
        assert(rest.skip(k - 1) =~= text.skip(k));
    } else {
        assert(text.skip(0) =~= text);
    }
}

proof fn lemma_end_trimmed(text: Seq<char>, k: int)
    requires
        0 <= k <= text.len(),
        forall|i: int| k <= i < text.len() ==> is_space(#[trigger] text[i]),
        k > 0 ==> !is_space(text[k - 1]),
    ensures
        end_trimmed(text) == text.take(k),
    decreases text.len() - k,
{
    if k < text.len() {
        assert(is_space(text[text.len() - 1]));
        let rest = text.drop_last();
        assert forall|i: int| k <= i < rest.len() implies is_space(#[trigger] rest[i]) by {
            assert(rest[i] == text[i]);
        }
        lemma_end_trimmed(rest, k);
        assert(rest.take(k) =~= text.take(k));
    } else {
        assert(text.take(k) =~= text);
    }
}

/// White space around a text does not count: what is left is the text itself,
/// if it neither begins nor ends with white space.
pub proof fn law_space_around_a_text_is_taken_away(
    before: Seq<char>,
    text: Seq<char>,
    after: Seq<char>,
)
    requires
        forall|i: int| 0 <= i < before.len() ==> is_space(#[trigger] before[i]),
        forall|i: int| 0 <= i < after.len() ==> is_space(#[trigger] after[i]),
        text.len() > 0 ==> !is_space(text[0]) && !is_space(text.last()),
    ensures
        trimmed(before + text + after) == text,
        text.len() > 0 ==> start_trimmed(before + text + after) == text + after,
{
    let whole = before + text + after;
    if text.len() > 0 {
        assert forall|i: int| 0 <= i < before.len() implies is_space(#[trigger] whole[i]) by {
            assert(whole[i] == before[i]);
        }
        assert(whole[before.len() as int] == text[0]);
        lemma_start_trimmed(whole, before.len() as int);
        let rest = text + after;
        assert(whole.skip(before.len() as int) =~= rest);
        assert forall|i: int| text.len() <= i < rest.len() implies is_space(#[trigger] rest[i]) by {
            assert(rest[i] == after[i - text.len()]);
        }
        assert(rest[text.len() - 1] == text.last());
        lemma_end_trimmed(rest, text.len() as int);
        assert(rest.take(text.len() as int) =~= text);
    } else {
        assert forall|i: int| 0 <= i < whole.len() implies is_space(#[trigger] whole[i]) by {
            if i < before.len() {
                assert(whole[i] == before[i]);
            } else {
                assert(whole[i] == after[i - before.len()]);
            }
        }
        lemma_start_trimmed(whole, whole.len() as int);
        assert(whole.skip(whole.len() as int) =~= text);
    }
}

proof fn lemma_decimal_digits(n: nat)
    ensures
        all_digits(decimal(n)),
        decimal(n).len() > 0,
        number_of(decimal(n)) == n,
        n > 0 ==> decimal(n)[0] != '0',
        n < 10 ==> decimal(n).len() == 1,
        10 <= n < 100 ==> decimal(n).len() == 2,
    decreases n,
{
    if n < 10 {
        assert(decimal(n).drop_last() =~= Seq::<char>::empty());
        reveal_with_fuel(number_of, 2);
    } else {
        lemma_decimal_digits(n / 10);
        assert(decimal(n).drop_last() =~= decimal(n / 10));
        assert(decimal(n)[0] == decimal(n / 10)[0]);
        assert(decimal(n).last() == digit_char((n % 10) as int));
        assert forall|i: int| 0 <= i < decimal(n).len() implies is_digit(
            #[trigger] decimal(n)[i],
        ) by {
            if i < decimal(n / 10).len() {
                assert(decimal(n)[i] == decimal(n / 10)[i]);
            }
        }
    }
}

/// A numeral is read back as the number that it was written for, and only that
/// of zero begins with a zero.
pub proof fn law_numerals_are_read_back(n: nat)
    ensures
        all_digits(decimal(n)),
        number_of(decimal(n)) == n,
        decimal(n).len() > 0,
        n > 0 ==> decimal(n)[0] != '0',
        n <= u32::MAX ==> parsed_u32(decimal(n)) == Some(n as u32),
        n <= u32::MAX ==> parsed_u32(seq!['+'] + decimal(n)) == Some(n as u32),
{
    lemma_decimal_digits(n);
    assert(is_digit(decimal(n)[0]));
    assert((seq!['+'] + decimal(n)).drop_first() =~= decimal(n));
}

/// Digits stand for a number by their places: the front part counts ten times
/// for every digit behind it.
pub proof fn law_digits_count_by_place(front: Seq<char>, digit: int)
    requires
        all_digits(front),
        0 <= digit <= 9,
    ensures
        number_of(front.push((48 + digit) as char)) == 10 * number_of(front) + digit,
        number_of(Seq::empty()) == 0,
{
    assert(front.push((48 + digit) as char).drop_last() =~= front);
}

/// What is no numeral of a 32-bit number is not read as one.
pub proof fn law_other_texts_are_no_numbers(text: Seq<char>)
    requires
        text.len() == 0 || (exists|i: int|
            1 <= i < text.len() && !(48 <= #[trigger] text[i] as int <= 57)) || (text[0] != '+'
            && !(48 <= text[0] as int <= 57)) || text =~= seq!['+'],
    ensures
        parsed_u32(text) is None,
{
    if text.len() > 0 {
        let digits = unsigned_part(text);
        if exists|i: int| 1 <= i < text.len() && !(48 <= #[trigger] text[i] as int <= 57) {
            let i = choose|i: int| 1 <= i < text.len() && !(48 <= #[trigger] text[i] as int <= 57);
            if text[0] == '+' {
                assert(digits[i - 1] == text[i]);
                assert(!is_digit(digits[i - 1]));
            } else {
                assert(!is_digit(digits[i]));
            }
        } else if text[0] != '+' {
            if !(48 <= text[0] as int <= 57) {
                assert(!is_digit(digits[0]));
            }
        }
    }
}

/// White space is the tab and the line ends, the space, and the wider and
/// narrower spaces of Unicode; nothing else is.
pub proof fn law_white_space_is_what_unicode_says(c: char)
    ensures
        ({
            let n = c as int;
            is_space(c) <==> {
                ||| 9 <= n <= 13
                ||| n == 32
                ||| n == 133
                ||| n == 160
                ||| n == 5760
                ||| 8192 <= n <= 8202
                ||| n == 8232
                ||| n == 8233
                ||| n == 8239
                ||| n == 8287
                ||| n == 12288
            }
        }),
{
}

} // verus!

//! What a build says: payload lists and failure reports.

use crate::lines::{
    begins_with, is_space, law_space_around_a_text_is_taken_away, line_views, lines_of,
    split_lines, starts_with, text_of, trim, trimmed,
};
use crate::text::texts;
use vstd::prelude::*;

verus! {

/// Length of the part of a build log that is shown.
pub const STATUS_LENGTH: usize = 200;

/// A text cut to a length, with an ellipsis for what is cut.
pub open spec fn cut_text(text: Seq<char>, max: int) -> Seq<char> {
    if text.len() <= max {
        text
    } else {
        text.take(max).push('…')
    }
}

/// Cuts a text to a length.
pub fn truncate_for_status(text: &Vec<char>, max: usize) -> (cut: String)
    ensures
        cut@ == cut_text(text@, max as int),
{
    if text.len() <= max {
        return text_of(text);
    }
    let mut cut = String::from_str("");
    proof {
        reveal_strlit("");
    }
    let mut i: usize = 0;
    assert(cut@ =~= text@.take(0));
    while i < max
        invariant
            i <= max < text@.len(),
            cut@ == text@.take(i as int),
        decreases max - i,
    {
        cut.push(text[i]);
        assert(text@.take(i + 1) =~= text@.take(i as int).push(text@[i as int]));
        i = i + 1;
    }
    cut.push('…');
    cut
}

/// A line of a compiler that says what is wrong.
pub open spec fn is_error_line(line: Seq<char>) -> bool {
    begins_with(trimmed(line), "error["@) || begins_with(trimmed(line), "error:"@)
}

/// A line with anything on it.
pub open spec fn is_said(line: Seq<char>) -> bool {
    trimmed(line).len() > 0
}

/// The line of a log that tells most: the first error, else the last line with
/// anything on it.
pub open spec fn is_summary(lines: Seq<Seq<char>>, at: int) -> bool {
    &&& 0 <= at < lines.len()
    &&& if exists|i: int| 0 <= i < lines.len() && is_error_line(#[trigger] lines[i]) {
        is_error_line(lines[at]) && forall|i: int|
            0 <= i < at ==> !is_error_line(#[trigger] lines[i])
    } else {
        is_said(lines[at]) && forall|i: int|
            at < i < lines.len() ==> !is_said(#[trigger] lines[i])
    }
}

/// One line on why a build failed, from its log if that could be read.
pub fn build_log_failure_detail(log: Option<&str>, path: &str) -> (detail: String)
    ensures
        ({
            let at_path = "Full log: "@ + path@;
            match log {
                None => detail@ == at_path,
                Some(log) => {
                    let lines = lines_of(log@);
                    ||| exists|at: int|
                        #![trigger lines[at]]
                        is_summary(lines, at) && detail@ == cut_text(trimmed(lines[at]), 200)
                            + ". "@ + at_path
                    ||| (forall|at: int| !#[trigger] is_summary(lines, at)) && detail@ == at_path
                },
            }
        }),
{
    let mut at_path = String::from_str("Full log: ");
    at_path.append(path);
    let text = match log {
        Some(text) => text,
        None => {
            return at_path;
        },
    };
    let lines = split_lines(text);
    let ghost views = line_views(lines@);
    let mut last: Option<usize> = None;
    let mut i: usize = 0;
    while i < lines.len()
        invariant
            i <= lines@.len(),
            views == line_views(lines@),
            log == Some(text),
            views == lines_of(text@),
            at_path@ == "Full log: "@ + path@,
            forall|j: int| 0 <= j < i ==> !is_error_line(#[trigger] views[j]),
            match last {
                Some(at) => at < i && is_said(views[at as int]) && forall|j: int|
                    at < j < i ==> !is_said(#[trigger] views[j]),
                None => forall|j: int| 0 <= j < i ==> !is_said(#[trigger] views[j]),
            },
        decreases lines@.len() - i,
    {
        assert(views[i as int] == lines@[i as int]@);
        let line = trim(&lines[i]);
        if starts_with(&line, "error[") || starts_with(&line, "error:") {
            assert(is_error_line(views[i as int]));
            assert(is_summary(views, i as int));
            let mut detail = truncate_for_status(&line, STATUS_LENGTH);
            detail.append(". ");
            detail.append(at_path.as_str());
            assert(detail@ =~= cut_text(trimmed(views[i as int]), 200) + ". "@ + at_path@);
            return detail;
        }
        if line.len() > 0 {
            last = Some(i);
        }
        i = i + 1;
    }
    match last {
        Some(at) => {
            assert(views[at as int] == lines@[at as int]@);
            assert(is_summary(views, at as int));
            let line = trim(&lines[at]);
            let mut detail = truncate_for_status(&line, STATUS_LENGTH);
            detail.append(". ");
            detail.append(at_path.as_str());
            assert(detail@ =~= cut_text(trimmed(views[at as int]), 200) + ". "@ + at_path@);
            detail
        },
        None => {
            assert forall|k: int| !#[trigger] is_summary(views, k) by {
                if 0 <= k < views.len() {
                    assert(!is_said(views[k]));
                    assert(!is_error_line(views[k]));
                }
            }
            at_path
        },
    }
}

/// A line of a payload list names a file: it is not empty and no comment.
pub open spec fn is_payload(line: Seq<char>) -> bool {
    trimmed(line).len() > 0 && trimmed(line)[0] != '#'
}

/// The files that the first lines of a payload list name.
pub open spec fn payload_names(lines: Seq<Seq<char>>, count: int) -> Seq<Seq<char>>
    decreases count,
{
    if count <= 0 {
        Seq::empty()
    } else {
        let so_far = payload_names(lines, count - 1);
        if is_payload(lines[count - 1]) {
            so_far.push(trimmed(lines[count - 1]))
        } else {
            so_far
        }
    }
}

/// Reads a payload list.
pub fn embedded_cdda_track_payloads(text: &str) -> (names: Vec<String>)
    ensures
        texts(names@) == payload_names(lines_of(text@), lines_of(text@).len() as int),
{
    let lines = split_lines(text);
    let ghost views = line_views(lines@);
    let mut names: Vec<String> = Vec::new();
    let mut i: usize = 0;
    assert(texts(names@) =~= payload_names(views, 0));
    while i < lines.len()
        invariant
            i <= lines@.len(),
            views == line_views(lines@),
            texts(names@) == payload_names(views, i as int),
        decreases lines@.len() - i,
    {
        assert(views[i as int] == lines@[i as int]@);
        let line = trim(&lines[i]);
        if line.len() > 0 && line[0] != '#' {
            let ghost before = names@;
            names.push(text_of(&line));
            assert(texts(names@) =~= texts(before).push(line@));
        }
        i = i + 1;
    }
    names
}

/// A text that is short enough is shown as it is; of a longer one the beginning,
/// and one ellipsis behind it.
pub proof fn law_long_texts_show_their_beginning(text: Seq<char>, max: int)
    requires
        0 <= max,
    ensures
        text.len() <= max ==> cut_text(text, max) == text,
        text.len() > max ==> cut_text(text, max).len() == max + 1 && cut_text(text, max).last() == '…',
        forall|i: int| 0 <= i < max && i < text.len() ==> #[trigger] cut_text(text, max)[i] == text[i],
{
}

/// A payload list names the text of every line that is neither empty nor a
/// comment, without the white space around it, in order.
pub proof fn law_payload_lines_name_files(
    lines: Seq<Seq<char>>,
    name: Seq<char>,
    before: Seq<char>,
    after: Seq<char>,
)
    requires
        forall|i: int| 0 <= i < before.len() ==> is_space(#[trigger] before[i]),
        forall|i: int| 0 <= i < after.len() ==> is_space(#[trigger] after[i]),
        name.len() > 0 ==> !is_space(name[0]) && !is_space(name.last()),
    ensures
        ({
            let all = lines.push(before + name + after);
            payload_names(all, all.len() as int) == if name.len() > 0 && name[0] != '#' {
                payload_names(lines, lines.len() as int).push(name)
            } else {
                payload_names(lines, lines.len() as int)
            }
        }),
{
    let all = lines.push(before + name + after);
    law_space_around_a_text_is_taken_away(before, name, after);
    lemma_payloads_before(lines, before + name + after, lines.len() as int);
}

proof fn lemma_payloads_before(lines: Seq<Seq<char>>, line: Seq<char>, count: int)
    requires
        0 <= count <= lines.len(),
    ensures
        payload_names(lines.push(line), count) == payload_names(lines, count),
    decreases count,
{
    if count > 0 {
        lemma_payloads_before(lines, line, count - 1);
    }
}

/// A log has one summary at most: the first line with an error, or else the last
/// one with anything on it.
pub proof fn law_logs_have_one_summary(lines: Seq<Seq<char>>, a: int, b: int)
    requires
        is_summary(lines, a),
    ensures
        0 <= a < lines.len(),
        is_summary(lines, b) ==> a == b,
        is_error_line(lines[a]) || is_said(lines[a]),
        0 <= b < a && is_error_line(lines[a]) ==> !is_error_line(lines[b]),
        0 <= b < lines.len() && is_error_line(lines[b]) ==> is_error_line(lines[a]) && a <= b,
        a < b < lines.len() && !is_error_line(lines[a]) ==> !is_said(lines[b]),
{
    if is_summary(lines, b) && a != b {
        assert(0 <= b < lines.len());
        let first = lines[a];
        let other = lines[b];
    }
}

/// White space around a line does not count: the line is an error if it begins as
/// a compiler's error does, and says something unless nothing else is on it.
pub proof fn law_lines_are_read_without_their_space(
    before: Seq<char>,
    said: Seq<char>,
    after: Seq<char>,
)
    requires
        forall|i: int| 0 <= i < before.len() ==> is_space(#[trigger] before[i]),
        forall|i: int| 0 <= i < after.len() ==> is_space(#[trigger] after[i]),
        said.len() > 0 ==> !is_space(said[0]) && !is_space(said.last()),
    ensures
        is_said(before + said + after) <==> said.len() > 0,
        is_error_line(before + said + after) <==> begins_with(said, "error["@) || begins_with(
            said,
            "error:"@,
        ),
{
    law_space_around_a_text_is_taken_away(before, said, after);
}

} // verus!

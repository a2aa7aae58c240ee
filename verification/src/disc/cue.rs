//! Cue sheets: the text file that lists the tracks of an image.

use crate::disc::image::CddaCueTrack;
use crate::lines::{
    all_digits, is_digit, is_plain_line, is_space, joined_lines, law_lines_are_read_back,
    law_numerals_are_read_back, line_views, lines_of, number_of, split_lines, start_trimmed,
    trim_start,
};
use crate::text::{chars_of, decimal, fold_char, folded, push_decimal, same_folded};
use vstd::prelude::*;

verus! {

/// A number with two digits at least.
pub open spec fn two_digits(n: nat) -> Seq<char> {
    if n < 10 {
        seq!['0'] + decimal(n)
    } else {
        decimal(n)
    }
}

fn push_two_digits(out: &mut String, n: u64)
    ensures
        final(out)@ == old(out)@ + two_digits(n as nat),
{
    let ghost before = out@;
    if n < 10 {
        out.push('0');
        push_decimal(out, n);
        assert(out@ =~= before + (seq!['0'] + decimal(n as nat)));
    } else {
        push_decimal(out, n);
    }
}

/// A sector as minutes, seconds and frames.
pub open spec fn msf_text(frames: u32) -> Seq<char> {
    two_digits((frames / 4500) as nat) + seq![':'] + two_digits(((frames / 75) % 60) as nat)
        + seq![':'] + two_digits((frames % 75) as nat)
}

fn push_msf(out: &mut String, frames: u32)
    ensures
        final(out)@ == old(out)@ + msf_text(frames),
{
    let ghost before = out@;
    push_two_digits(out, (frames / 4500) as u64);
    out.push(':');
    push_two_digits(out, ((frames / 75) % 60) as u64);
    out.push(':');
    push_two_digits(out, (frames % 75) as u64);
    assert(out@ =~= before + msf_text(frames));
}

/// A sector as minutes, seconds and frames.
pub fn cue_msf(frames: u32) -> (text: String)
    ensures
        text@ == msf_text(frames),
{
    let mut text = String::from_str("");
    proof {
        reveal_strlit("");
    }
    push_msf(&mut text, frames);
    assert(text@ =~= msf_text(frames));
    text
}

/// Minutes, seconds and frames give the sector back.
pub proof fn law_msf_is_exact(frames: u32)
    ensures
        (frames / 4500) * 4500 + ((frames / 75) % 60) * 75 + frames % 75 == frames,
        (frames / 75) % 60 < 60,
        frames % 75 < 75,
{
    assert((frames / 75) / 60 == frames / 4500);
}

/// A name without double quotes.
pub open spec fn quotes_replaced(name: Seq<char>) -> Seq<char> {
    Seq::new(
        name.len(),
        |i: int|
            if name[i] == '"' {
                '\''
            } else {
                name[i]
            },
    )
}

fn push_unquoted(out: &mut String, name: &str)
    ensures
        final(out)@ == old(out)@ + quotes_replaced(name@),
{
    let ghost before = out@;
    let chars = chars_of(name);
    let mut i: usize = 0;
    assert(before + quotes_replaced(name@).take(0) =~= before);
    while i < chars.len()
        invariant
            chars@ == name@,
            i <= chars@.len(),
            out@ == before + quotes_replaced(name@).take(i as int),
        decreases chars@.len() - i,
    {
        if chars[i] == '"' {
            out.push('\'');
        } else {
            out.push(chars[i]);
        }
        assert(before + quotes_replaced(name@).take(i + 1) =~= (before + quotes_replaced(
            name@,
        ).take(i as int)).push(quotes_replaced(name@)[i as int]));
        i = i + 1;
    }
    assert(quotes_replaced(name@).take(i as int) =~= quotes_replaced(name@));
}

/// The line that names the image.
pub open spec fn file_line(name: Seq<char>) -> Seq<char> {
    "FILE \""@ + quotes_replaced(name) + "\" BINARY\n"@
}

fn push_file_line(out: &mut String, name: &str)
    ensures
        final(out)@ == old(out)@ + file_line(name@),
{
    let ghost before = out@;
    out.append("FILE \"");
    push_unquoted(out, name);
    out.append("\" BINARY\n");
    assert(out@ =~= before + file_line(name@));
}

/// The lines of an audio track.
pub open spec fn track_lines(track: CddaCueTrack) -> Seq<char> {
    "  TRACK "@ + two_digits(track.number as nat) + " AUDIO\n    INDEX 00 "@ + msf_text(
        track.index0_sector,
    ) + "\n    INDEX 01 "@ + msf_text(track.index1_sector) + "\n"@
}

fn push_track(out: &mut String, track: CddaCueTrack)
    ensures
        final(out)@ == old(out)@ + track_lines(track),
{
    let ghost before = out@;
    out.append("  TRACK ");
    push_two_digits(out, track.number as u64);
    out.append(" AUDIO\n    INDEX 00 ");
    push_msf(out, track.index0_sector);
    out.append("\n    INDEX 01 ");
    push_msf(out, track.index1_sector);
    out.append("\n");
    assert(out@ =~= before + track_lines(track));
}

/// The sheet with the first audio tracks.
pub open spec fn sheet_text(name: Seq<char>, tracks: Seq<CddaCueTrack>, count: int) -> Seq<char>
    decreases count,
{
    if count <= 0 {
        file_line(name) + "  TRACK 01 MODE2/2352\n    INDEX 01 00:00:00\n"@
    } else {
        sheet_text(name, tracks, count - 1) + track_lines(tracks[count - 1])
    }
}

/// The sheet of an image: its data track, then its audio tracks.
pub fn cue_sheet(bin_name: &str, tracks: &Vec<CddaCueTrack>) -> (sheet: String)
    ensures
        sheet@ == sheet_text(bin_name@, tracks@, tracks@.len() as int),
{
    let mut sheet = String::from_str("");
    proof {
        reveal_strlit("");
    }
    push_file_line(&mut sheet, bin_name);
    assert(sheet@ =~= file_line(bin_name@));
    sheet.append("  TRACK 01 MODE2/2352\n    INDEX 01 00:00:00\n");
    let mut i: usize = 0;
    while i < tracks.len()
        invariant
            i <= tracks@.len(),
            sheet@ == sheet_text(bin_name@, tracks@, i as int),
        decreases tracks@.len() - i,
    {
        push_track(&mut sheet, tracks[i]);
        i = i + 1;
    }
    sheet
}

/// A line names an image, whatever the capitals and the white space in front.
pub open spec fn names_file(line: Seq<char>) -> bool {
    let text = start_trimmed(line);
    text.len() >= 5 && folded(text[0]) == 'f' as int && folded(text[1]) == 'i' as int && folded(
        text[2],
    ) == 'l' as int && folded(text[3]) == 'e' as int && text[4] == ' '
}

fn line_names_file(line: &Vec<char>) -> (result: bool)
    ensures
        result == names_file(line@),
{
    let text = trim_start(line);
    text.len() >= 5 && fold_char(text[0]) == 102 && fold_char(text[1]) == 105 && fold_char(text[2])
        == 108 && fold_char(text[3]) == 101 && text[4] == ' '
}

/// One of the first lines names an image.
pub open spec fn any_names_file(lines: Seq<Seq<char>>, count: int) -> bool {
    exists|i: int| 0 <= i < count && names_file(#[trigger] lines[i])
}

/// The first lines, with the first one that names an image replaced.
pub open spec fn renamed_lines(lines: Seq<Seq<char>>, name: Seq<char>, count: int) -> Seq<char>
    decreases count,
{
    if count <= 0 {
        Seq::empty()
    } else {
        let line = lines[count - 1];
        renamed_lines(lines, name, count - 1) + if names_file(line) && !any_names_file(
            lines,
            count - 1,
        ) {
            file_line(name)
        } else {
            line + seq!['\n']
        }
    }
}

/// The sheet of an image that was copied under another name. A sheet that
/// names no image becomes one with the data track alone.
pub fn rewrite_cue_for_copied_bin(source: &str, bin_name: &str) -> (sheet: String)
    ensures
        ({
            let lines = lines_of(source@);
            sheet@ == if any_names_file(lines, lines.len() as int) {
                renamed_lines(lines, bin_name@, lines.len() as int)
            } else {
                sheet_text(bin_name@, Seq::<CddaCueTrack>::empty(), 0)
            }
        }),
{
    let lines = split_lines(source);
    let ghost views = line_views(lines@);
    let mut sheet = String::from_str("");
    let mut replaced = false;
    proof {
        reveal_strlit("");
        assert(sheet@ =~= renamed_lines(views, bin_name@, 0));
    }
    let mut i: usize = 0;
    while i < lines.len()
        invariant
            i <= lines@.len(),
            views == line_views(lines@),
            replaced == any_names_file(views, i as int),
            sheet@ == renamed_lines(views, bin_name@, i as int),
        decreases lines@.len() - i,
    {
        let ghost before = sheet@;
        assert(views[i as int] == lines@[i as int]@);
        if !replaced && line_names_file(&lines[i]) {
            assert(names_file(views[i as int]));
            push_file_line(&mut sheet, bin_name);
            replaced = true;
        } else {
            let mut k: usize = 0;
            assert(before + lines@[i as int]@.take(0) =~= before);
            while k < lines[i].len()
                invariant
                    i < lines@.len(),
                    k <= lines@[i as int]@.len(),
                    sheet@ == before + lines@[i as int]@.take(k as int),
                decreases lines@[i as int]@.len() - k,
            {
                sheet.push(lines[i][k]);
                assert(before + lines@[i as int]@.take(k + 1) =~= (before + lines@[i as int]@.take(
                    k as int,
                )).push(lines@[i as int]@[k as int]));
                k = k + 1;
            }
            sheet.push('\n');
            assert(lines@[i as int]@.take(k as int) =~= lines@[i as int]@);
            assert(sheet@ =~= before + (views[i as int] + seq!['\n']));
        }
        i = i + 1;
    }
    if !replaced {
        let none: Vec<CddaCueTrack> = Vec::new();
        assert(none@ =~= Seq::<CddaCueTrack>::empty());
        return cue_sheet(bin_name, &none);
    }
    sheet
}

/// A number with two digits at least is read back, and a zero is put in front
/// only to make it two.
pub proof fn law_two_digits_are_read_back(n: nat)
    ensures
        all_digits(two_digits(n)),
        number_of(two_digits(n)) == n,
        two_digits(n).len() >= 2,
        n < 100 ==> two_digits(n).len() == 2,
        n >= 10 ==> two_digits(n)[0] != '0',
{
    law_numerals_are_read_back(n);
    lemma_decimal_length(n);
    if n < 10 {
        let text = two_digits(n);
        assert(text =~= seq!['0', decimal(n)[0]]);
        assert(text.drop_last() =~= seq!['0']);
        assert(seq!['0'].drop_last() =~= Seq::<char>::empty());
        assert(decimal(n).drop_last() =~= Seq::<char>::empty());
        reveal_with_fuel(number_of, 3);
        assert(is_digit(decimal(n)[0]));
        assert(all_digits(text));
    }
}

proof fn lemma_decimal_length(n: nat)
    ensures
        n < 10 ==> decimal(n).len() == 1,
        n >= 10 ==> decimal(n).len() >= 2,
        10 <= n < 100 ==> decimal(n).len() == 2,
    decreases n,
{
    if n >= 10 {
        lemma_decimal_length(n / 10);
    }
}

/// A time is read back as the sector that it was written for: minutes, seconds
/// and frames stand between colons, a minute has 60 seconds and a second 75
/// frames.
pub proof fn law_time_is_read_back(frames: u32)
    ensures
        ({
            let text = msf_text(frames);
            let m = text.len() - 6;
            let minutes = text.take(m);
            let seconds = text.subrange(m + 1, m + 3);
            let rest = text.subrange(m + 4, m + 6);
            &&& m >= 2
            &&& all_digits(minutes) && all_digits(seconds) && all_digits(rest)
            &&& text[m] == ':' && text[m + 3] == ':'
            &&& (number_of(minutes) * 60 + number_of(seconds)) * 75 + number_of(rest) == frames
            &&& number_of(seconds) < 60
            &&& number_of(rest) < 75
        }),
{
    let minutes = two_digits((frames / 4500) as nat);
    let seconds = two_digits(((frames / 75) % 60) as nat);
    let rest = two_digits((frames % 75) as nat);
    law_two_digits_are_read_back((frames / 4500) as nat);
    law_two_digits_are_read_back(((frames / 75) % 60) as nat);
    law_two_digits_are_read_back((frames % 75) as nat);
    law_msf_is_exact(frames);
    let text = msf_text(frames);
    let m = text.len() - 6;
    assert(text.take(m) =~= minutes);
    assert(text.subrange(m + 1, m + 3) =~= seconds);
    assert(text.subrange(m + 4, m + 6) =~= rest);
}

/// A line names an image exactly if the word `file` in any capitals and a blank
/// follow the white space in front.
pub proof fn law_image_lines_begin_with_file(line: Seq<char>)
    ensures
        names_file(line) <==> exists|k: int|
            0 <= k && k + 5 <= line.len() && (forall|i: int|
                0 <= i < k ==> is_space(#[trigger] line[i])) && same_folded(
                #[trigger] line.subrange(k, k + 5),
                "file "@,
            ),
{
    reveal_strlit("file ");
    let word = "file "@;
    if names_file(line) {
        lemma_start(line);
        let text = start_trimmed(line);
        let k = line.len() - text.len();
        assert(text == line.skip(k));
        let part = line.subrange(k, k + 5);
        assert(part[0] == text[0] && part[1] == text[1] && part[2] == text[2] && part[3] == text[3]
            && part[4] == text[4]);
        assert(same_folded(part, word));
    }
    if exists|k: int|
        0 <= k && k + 5 <= line.len() && (forall|i: int|
            0 <= i < k ==> is_space(#[trigger] line[i])) && same_folded(
            #[trigger] line.subrange(k, k + 5),
            word,
        ) {
        let k = choose|k: int|
            0 <= k && k + 5 <= line.len() && (forall|i: int|
                0 <= i < k ==> is_space(#[trigger] line[i])) && same_folded(
                #[trigger] line.subrange(k, k + 5),
                word,
            );
        let part = line.subrange(k, k + 5);
        assert(folded(part[0]) == folded(word[0]));
        assert(folded(part[1]) == folded(word[1]));
        assert(folded(part[2]) == folded(word[2]));
        assert(folded(part[3]) == folded(word[3]));
        assert(folded(part[4]) == folded(word[4]));
        assert(part[0] == line[k] && part[1] == line[k + 1] && part[2] == line[k + 2] && part[3]
            == line[k + 3] && part[4] == line[k + 4]);
        lemma_skipped(line, k);
        assert(start_trimmed(line) == line.skip(k));
    }
}

proof fn lemma_start(line: Seq<char>)
    ensures
        start_trimmed(line).len() <= line.len(),
        start_trimmed(line) == line.skip(line.len() - start_trimmed(line).len()),
        forall|i: int|
            0 <= i < line.len() - start_trimmed(line).len() ==> is_space(#[trigger] line[i]),
    decreases line.len(),
{
    if line.len() > 0 && is_space(line[0]) {
        let rest = line.drop_first();
        lemma_start(rest);
        let k = rest.len() - start_trimmed(rest).len();
        assert(rest.skip(k) =~= line.skip(k + 1));
        assert forall|i: int| 0 <= i < k + 1 implies is_space(#[trigger] line[i]) by {
            if i > 0 {
                assert(rest[i - 1] == line[i]);
            }
        }
    } else {
        assert(line.skip(0) =~= line);
    }
}

proof fn lemma_skipped(line: Seq<char>, k: int)
    requires
        0 <= k < line.len(),
        forall|i: int| 0 <= i < k ==> is_space(#[trigger] line[i]),
        !is_space(line[k]),
    ensures
        start_trimmed(line) == line.skip(k),
{
    lemma_start(line);
    let j = line.len() - start_trimmed(line).len();
    if j > k {
        assert(is_space(line[k]));
    } else if j < k {
        assert(start_trimmed(line)[0] == line[j]);
        assert(is_space(line[j]));
        lemma_not_space(line);
    }
}

proof fn lemma_not_space(line: Seq<char>)
    ensures
        start_trimmed(line).len() > 0 ==> !is_space(start_trimmed(line)[0]),
    decreases line.len(),
{
    if line.len() > 0 && is_space(line[0]) {
        lemma_not_space(line.drop_first());
    }
}

/// The line that names an image holds the name between its only two double
/// quotes, as it is but for double quotes of its own, and names an image when it
/// is read.
pub proof fn law_image_line_holds_the_name(name: Seq<char>)
    ensures
        ({
            let line = file_line(name);
            &&& line.len() == name.len() + 15
            &&& line.take(6) == "FILE \""@
            &&& line.skip(6 + name.len() as int) == "\" BINARY\n"@
            &&& forall|i: int|
                0 <= i < name.len() ==> (#[trigger] line[6 + i] == name[i] || (name[i] == '"'
                    && line[6 + i] == '\'')) && line[6 + i] != '"'
            &&& names_file(line)
            &&& names_file(line.drop_last())
        }),
{
    reveal_strlit("FILE \"");
    reveal_strlit("\" BINARY\n");
    let line = file_line(name);
    assert(line.take(6) =~= "FILE \""@);
    assert(line.skip(6 + name.len() as int) =~= "\" BINARY\n"@);
    assert forall|i: int| 0 <= i < name.len() implies (#[trigger] line[6 + i] == name[i] || (
    name[i] == '"' && line[6 + i] == '\'')) && line[6 + i] != '"' by {
        assert(line[6 + i] == quotes_replaced(name)[i]);
    }
    assert(line[0] == 'F' && line[1] == 'I' && line[2] == 'L' && line[3] == 'E' && line[4] == ' ');
}

proof fn lemma_renamed(lines: Seq<Seq<char>>, name: Seq<char>, k: int, count: int)
    requires
        0 <= k < lines.len(),
        0 <= count <= lines.len(),
        names_file(lines[k]),
        forall|i: int| 0 <= i < k ==> !names_file(#[trigger] lines[i]),
    ensures
        renamed_lines(lines, name, count) == joined_lines(
            lines.update(k, file_line(name).drop_last()).take(count),
        ),
    decreases count,
{
    let changed = lines.update(k, file_line(name).drop_last());
    if count > 0 {
        lemma_renamed(lines, name, k, count - 1);
        assert(changed.take(count).drop_last() =~= changed.take(count - 1));
        assert(changed.take(count).last() == changed[count - 1]);
        if count - 1 == k {
            law_image_line_holds_the_name(name);
            reveal_strlit("\" BINARY\n");
            let line = file_line(name);
            assert(line.last() == line.skip(6 + name.len() as int).last());
            assert(line.drop_last().push('\n') =~= line);
            assert(!any_names_file(lines, k));
        } else if count - 1 > k {
            assert(any_names_file(lines, count - 1));
            assert(lines[count - 1].push('\n') =~= lines[count - 1] + seq!['\n']);
        } else {
            assert(!names_file(lines[count - 1]));
            assert(lines[count - 1].push('\n') =~= lines[count - 1] + seq!['\n']);
        }
    }
}

/// A rewritten sheet has the lines of the source, each at its place, but for the
/// first that names an image, which names the copied one.
pub proof fn law_rewriting_changes_one_line(lines: Seq<Seq<char>>, name: Seq<char>, k: int)
    requires
        0 <= k < lines.len(),
        names_file(lines[k]),
        forall|i: int| 0 <= i < k ==> !names_file(#[trigger] lines[i]),
    ensures
        any_names_file(lines, lines.len() as int),
        renamed_lines(lines, name, lines.len() as int) == joined_lines(
            lines.update(k, file_line(name).drop_last()),
        ),
        !name.contains('\n') && (forall|i: int|
            0 <= i < lines.len() ==> is_plain_line(#[trigger] lines[i])) ==> lines_of(
            renamed_lines(lines, name, lines.len() as int),
        ) == lines.update(k, file_line(name).drop_last()),
{
    lemma_renamed(lines, name, k, lines.len() as int);
    let changed = lines.update(k, file_line(name).drop_last());
    assert(changed.take(lines.len() as int) =~= changed);
    if !name.contains('\n') && (forall|i: int|
        0 <= i < lines.len() ==> is_plain_line(#[trigger] lines[i])) {
        lemma_file_text_is_plain(name);
        assert forall|i: int| 0 <= i < changed.len() implies is_plain_line(
            #[trigger] changed[i],
        ) by {
            if i != k {
                assert(is_plain_line(lines[i]));
            }
        }
        law_lines_are_read_back(changed, Seq::empty());
        assert(joined_lines(changed) + Seq::<char>::empty() =~= joined_lines(changed));
    }
}

proof fn lemma_file_text_is_plain(name: Seq<char>)
    requires
        !name.contains('\n'),
    ensures
        is_plain_line(file_line(name).drop_last()),
{
    law_image_line_holds_the_name(name);
    reveal_strlit("FILE \"");
    reveal_strlit("\" BINARY\n");
    let line = file_line(name);
    let text = line.drop_last();
    assert forall|i: int| 0 <= i < text.len() implies text[i] != '\n' by {
        if i < 6 {
            assert(text[i] == line.take(6)[i]);
        } else if i < 6 + name.len() {
            assert(name.contains(name[i - 6]));
            assert(line[6 + (i - 6)] == text[i]);
        } else {
            assert(text[i] == line.skip(6 + name.len() as int)[i - 6 - name.len()]);
        }
    }
    assert(text.last() == line.skip(6 + name.len() as int)[7]);
}

/// The lines of an audio track, without their ends.
pub open spec fn track_texts(track: CddaCueTrack) -> Seq<Seq<char>> {
    seq![
        "  TRACK "@ + two_digits(track.number as nat) + " AUDIO"@,
        "    INDEX 00 "@ + msf_text(track.index0_sector),
        "    INDEX 01 "@ + msf_text(track.index1_sector),
    ]
}

/// The lines of a sheet.
pub open spec fn sheet_lines(name: Seq<char>, tracks: Seq<CddaCueTrack>, count: int) -> Seq<
    Seq<char>,
>
    decreases count,
{
    if count <= 0 {
        seq![file_line(name).drop_last(), "  TRACK 01 MODE2/2352"@, "    INDEX 01 00:00:00"@]
    } else {
        sheet_lines(name, tracks, count - 1) + track_texts(tracks[count - 1])
    }
}

proof fn lemma_digits_are_plain(text: Seq<char>)
    requires
        forall|i: int| 0 <= i < text.len() ==> is_digit(#[trigger] text[i]) || text[i] == ':',
    ensures
        is_plain_line(text),
{
    if text.contains('\n') {
        let i = choose|i: int| 0 <= i < text.len() && text[i] == '\n';
        assert(is_digit(text[i]) || text[i] == ':');
    }
    if text.len() > 0 {
        assert(is_digit(text[text.len() - 1]) || text[text.len() - 1] == ':');
    }
}

proof fn lemma_plain_sum(a: Seq<char>, b: Seq<char>)
    requires
        is_plain_line(a),
        is_plain_line(b),
    ensures
        is_plain_line(a + b),
{
    let text = a + b;
    if text.contains('\n') {
        let i = choose|i: int| 0 <= i < text.len() && text[i] == '\n';
        if i < a.len() {
            assert(a[i] == '\n');
        } else {
            assert(b[i - a.len()] == '\n');
        }
    }
    if b.len() > 0 {
        assert(text.last() == b.last());
    } else if a.len() > 0 {
        assert(text.last() == a.last());
    }
}

proof fn lemma_time_is_plain(frames: u32)
    ensures
        is_plain_line(msf_text(frames)),
{
    law_time_is_read_back(frames);
    let text = msf_text(frames);
    let m = text.len() - 6;
    assert forall|i: int| 0 <= i < text.len() implies is_digit(#[trigger] text[i]) || text[i]
        == ':' by {
        if i < m {
            assert(is_digit(text.take(m)[i]));
        } else if m < i < m + 3 {
            assert(is_digit(text.subrange(m + 1, m + 3)[i - m - 1]));
        } else if m + 3 < i {
            assert(is_digit(text.subrange(m + 4, m + 6)[i - m - 4]));
        }
    }
    lemma_digits_are_plain(text);
}

proof fn lemma_words_are_plain()
    ensures
        is_plain_line("  TRACK 01 MODE2/2352"@),
        is_plain_line("    INDEX 01 00:00:00"@),
        is_plain_line("  TRACK "@),
        is_plain_line(" AUDIO"@),
        is_plain_line("    INDEX 00 "@),
        is_plain_line("    INDEX 01 "@),
{
    reveal_strlit("  TRACK 01 MODE2/2352");
    reveal_strlit("    INDEX 01 00:00:00");
    reveal_strlit("  TRACK ");
    reveal_strlit(" AUDIO");
    reveal_strlit("    INDEX 00 ");
    reveal_strlit("    INDEX 01 ");
}

proof fn lemma_joined_push(lines: Seq<Seq<char>>, line: Seq<char>)
    ensures
        joined_lines(lines.push(line)) == joined_lines(lines) + line.push('\n'),
{
    assert(lines.push(line).drop_last() =~= lines);
}

proof fn lemma_sheet_start(name: Seq<char>)
    ensures
        joined_lines(sheet_lines(name, Seq::empty(), 0)) == file_line(name)
            + "  TRACK 01 MODE2/2352\n    INDEX 01 00:00:00\n"@,
{
    let line = file_line(name);
    let text = line.drop_last();
    let a = "  TRACK 01 MODE2/2352"@;
    let b = "    INDEX 01 00:00:00"@;
    assert("  TRACK 01 MODE2/2352\n    INDEX 01 00:00:00\n"@ == a.push('\n') + b.push('\n')) by {
        reveal_strlit("  TRACK 01 MODE2/2352\n    INDEX 01 00:00:00\n");
        reveal_strlit("  TRACK 01 MODE2/2352");
        reveal_strlit("    INDEX 01 00:00:00");
        assert("  TRACK 01 MODE2/2352\n    INDEX 01 00:00:00\n"@ =~= a.push('\n') + b.push('\n'));
    }
    assert(text.push('\n') == line) by {
        law_image_line_holds_the_name(name);
        reveal_strlit("\" BINARY\n");
        assert(line.last() == line.skip(6 + name.len() as int).last());
        assert(text.push('\n') =~= line);
    }
    let none = Seq::<Seq<char>>::empty();
    lemma_joined_push(none, text);
    lemma_joined_push(none.push(text), a);
    lemma_joined_push(none.push(text).push(a), b);
    assert(none.push(text).push(a).push(b) =~= sheet_lines(name, Seq::empty(), 0));
    assert(joined_lines(none) + line =~= line);
    assert((line + a.push('\n')) + b.push('\n') =~= line + (a.push('\n') + b.push('\n')));
}

proof fn lemma_track_text(before: Seq<Seq<char>>, track: CddaCueTrack)
    ensures
        joined_lines(before + track_texts(track)) == joined_lines(before) + track_lines(track),
{
    let number = two_digits(track.number as nat);
    let first = msf_text(track.index0_sector);
    let second = msf_text(track.index1_sector);
    let a = "  TRACK "@ + number + " AUDIO"@;
    let b = "    INDEX 00 "@ + first;
    let c = "    INDEX 01 "@ + second;
    lemma_joined_push(before, a);
    lemma_joined_push(before.push(a), b);
    lemma_joined_push(before.push(a).push(b), c);
    assert(before.push(a).push(b).push(c) =~= before + track_texts(track));
    assert(" AUDIO\n    INDEX 00 "@ == " AUDIO"@.push('\n') + "    INDEX 00 "@) by {
        reveal_strlit(" AUDIO\n    INDEX 00 ");
        reveal_strlit(" AUDIO");
        reveal_strlit("    INDEX 00 ");
        assert(" AUDIO\n    INDEX 00 "@ =~= " AUDIO"@.push('\n') + "    INDEX 00 "@);
    }
    assert("\n    INDEX 01 "@ == seq!['\n'] + "    INDEX 01 "@) by {
        reveal_strlit("\n    INDEX 01 ");
        reveal_strlit("    INDEX 01 ");
        assert("\n    INDEX 01 "@ =~= seq!['\n'] + "    INDEX 01 "@);
    }
    assert("\n"@ == seq!['\n']) by {
        reveal_strlit("\n");
        assert("\n"@ =~= seq!['\n']);
    }
    assert(joined_lines(before) + a.push('\n') + b.push('\n') + c.push('\n') =~= joined_lines(
        before,
    ) + track_lines(track));
}

proof fn lemma_track_texts_are_plain(track: CddaCueTrack)
    ensures
        is_plain_line(track_texts(track)[0]),
        is_plain_line(track_texts(track)[1]),
        is_plain_line(track_texts(track)[2]),
{
    let number = two_digits(track.number as nat);
    lemma_words_are_plain();
    law_two_digits_are_read_back(track.number as nat);
    lemma_digits_are_plain(number);
    lemma_plain_sum("  TRACK "@, number);
    lemma_plain_sum("  TRACK "@ + number, " AUDIO"@);
    lemma_time_is_plain(track.index0_sector);
    lemma_time_is_plain(track.index1_sector);
    lemma_plain_sum("    INDEX 00 "@, msf_text(track.index0_sector));
    lemma_plain_sum("    INDEX 01 "@, msf_text(track.index1_sector));
}

proof fn lemma_sheet_lines(name: Seq<char>, tracks: Seq<CddaCueTrack>, count: int)
    requires
        0 <= count <= tracks.len(),
        !name.contains('\n'),
    ensures
        sheet_lines(name, tracks, count).len() == 3 + 3 * count,
        sheet_lines(name, tracks, count)[0] == file_line(name).drop_last(),
        forall|i: int|
            0 <= i < sheet_lines(name, tracks, count).len() ==> is_plain_line(
                #[trigger] sheet_lines(name, tracks, count)[i],
            ),
        sheet_text(name, tracks, count) == joined_lines(sheet_lines(name, tracks, count)),
    decreases count,
{
    let lines = sheet_lines(name, tracks, count);
    if count <= 0 {
        lemma_words_are_plain();
        lemma_file_text_is_plain(name);
        lemma_sheet_start(name);
        assert(lines == sheet_lines(name, Seq::empty(), 0));
    } else {
        lemma_sheet_lines(name, tracks, count - 1);
        let before = sheet_lines(name, tracks, count - 1);
        let track = tracks[count - 1];
        lemma_track_text(before, track);
        lemma_track_texts_are_plain(track);
        assert forall|i: int| 0 <= i < lines.len() implies is_plain_line(#[trigger] lines[i]) by {
            if i < before.len() {
                assert(lines[i] == before[i]);
            } else {
                assert(lines[i] == track_texts(track)[i - before.len()]);
            }
        }
        assert(lines[0] == before[0]);
    }
}

/// The sheet of an image, read line by line: the image, the data track, and for
/// every audio track its number and its two places, in order.
pub proof fn law_sheet_lists_every_track(name: Seq<char>, tracks: Seq<CddaCueTrack>)
    requires
        !name.contains('\n'),
    ensures
        ({
            let lines = lines_of(sheet_text(name, tracks, tracks.len() as int));
            &&& lines.len() == 3 + 3 * tracks.len()
            &&& lines[0] == file_line(name).drop_last()
            &&& lines[1] == "  TRACK 01 MODE2/2352"@
            &&& lines[2] == "    INDEX 01 00:00:00"@
            &&& forall|i: int|
                0 <= i < tracks.len() ==> lines[3 + 3 * i] == "  TRACK "@ + two_digits(
                    (#[trigger] tracks[i]).number as nat,
                ) + " AUDIO"@ && lines[4 + 3 * i] == "    INDEX 00 "@ + msf_text(
                    tracks[i].index0_sector,
                ) && lines[5 + 3 * i] == "    INDEX 01 "@ + msf_text(tracks[i].index1_sector)
        }),
{
    let n = tracks.len() as int;
    lemma_sheet_lines(name, tracks, n);
    let lines = sheet_lines(name, tracks, n);
    law_lines_are_read_back(lines, Seq::empty());
    assert(joined_lines(lines) + Seq::<char>::empty() =~= joined_lines(lines));
    lemma_sheet_places(name, tracks, n);
}

proof fn lemma_sheet_places(name: Seq<char>, tracks: Seq<CddaCueTrack>, count: int)
    requires
        0 <= count <= tracks.len(),
    ensures
        ({
            let lines = sheet_lines(name, tracks, count);
            &&& lines.len() == 3 + 3 * count
            &&& lines[1] == "  TRACK 01 MODE2/2352"@
            &&& lines[2] == "    INDEX 01 00:00:00"@
            &&& forall|i: int|
                0 <= i < count ==> lines[3 + 3 * i] == "  TRACK "@ + two_digits(
                    (#[trigger] tracks[i]).number as nat,
                ) + " AUDIO"@ && lines[4 + 3 * i] == "    INDEX 00 "@ + msf_text(
                    tracks[i].index0_sector,
                ) && lines[5 + 3 * i] == "    INDEX 01 "@ + msf_text(tracks[i].index1_sector)
        }),
    decreases count,
{
    if count > 0 {
        lemma_sheet_places(name, tracks, count - 1);
    }
}

/// Rewriting the sheet of an image for a copy gives the sheet that is written
/// for the copy's name with the same tracks.
pub proof fn law_rewritten_sheet_is_the_copys_sheet(
    name: Seq<char>,
    copy: Seq<char>,
    tracks: Seq<CddaCueTrack>,
)
    requires
        !name.contains('\n'),
        !copy.contains('\n'),
    ensures
        ({
            let lines = lines_of(sheet_text(name, tracks, tracks.len() as int));
            &&& any_names_file(lines, lines.len() as int)
            &&& renamed_lines(lines, copy, lines.len() as int) == sheet_text(
                copy,
                tracks,
                tracks.len() as int,
            )
        }),
{
    let n = tracks.len() as int;
    lemma_sheet_lines(name, tracks, n);
    lemma_sheet_lines(copy, tracks, n);
    let lines = sheet_lines(name, tracks, n);
    law_lines_are_read_back(lines, Seq::empty());
    assert(joined_lines(lines) + Seq::<char>::empty() =~= joined_lines(lines));
    law_image_line_holds_the_name(name);
    law_rewriting_changes_one_line(lines, copy, 0);
    lemma_same_rest(name, copy, tracks, n);
    assert(lines.update(0, file_line(copy).drop_last()) =~= sheet_lines(copy, tracks, n));
}

proof fn lemma_same_rest(name: Seq<char>, copy: Seq<char>, tracks: Seq<CddaCueTrack>, count: int)
    requires
        0 <= count <= tracks.len(),
    ensures
        sheet_lines(name, tracks, count).len() == sheet_lines(copy, tracks, count).len(),
        forall|i: int|
            1 <= i < sheet_lines(name, tracks, count).len() ==> #[trigger] sheet_lines(
                name,
                tracks,
                count,
            )[i] == sheet_lines(copy, tracks, count)[i],
    decreases count,
{
    if count > 0 {
        lemma_same_rest(name, copy, tracks, count - 1);
    }
}

} // verus!

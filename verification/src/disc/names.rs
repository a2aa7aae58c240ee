//! Names of what a project builds.

use crate::text::{
    capital, capital_char, chars_of, equal_ignoring_case, fold_char, folded,
    law_capitals_do_not_count, same_folded, same_text, small, small_char,
};
use vstd::prelude::*;

verus! {

/// Characters of a volume name.
pub const ISO_VOLUME_ID_BYTES: usize = 32;

/// Volume name of a disc that has no project.
pub const DEFAULT_EMBEDDED_PLAYTEST_VOLUME_ID: &'static str = "PSOXIDE";

/// An ASCII letter or digit.
pub open spec fn is_plain(c: char) -> bool {
    let code = folded(c);
    (97 <= code && code <= 122) || (48 <= code && code <= 57)
}

/// The letters and digits of a name in small letters, with one underscore for
/// whatever stands between them.
pub open spec fn name_words(name: Seq<char>) -> Seq<char>
    decreases name.len(),
{
    if name.len() == 0 {
        Seq::empty()
    } else {
        let so_far = name_words(name.drop_last());
        if !is_plain(name.last()) {
            so_far
        } else if so_far.len() > 0 && name.len() >= 2 && !is_plain(name[name.len() - 2]) {
            so_far.push('_').push(small(name.last()))
        } else {
            so_far.push(small(name.last()))
        }
    }
}

/// The file name of a project without its extension.
pub open spec fn stem_of(name: Seq<char>) -> Seq<char> {
    if name_words(name).len() == 0 {
        "project"@
    } else {
        name_words(name)
    }
}

fn plain(c: char) -> (result: bool)
    ensures
        result == is_plain(c),
{
    let code: u32 = fold_char(c);
    (97 <= code && code <= 122) || (48 <= code && code <= 57)
}

/// The file name of a project without its extension: small letters and digits,
/// words joined by underscores.
///
/// The editor names the files of a project by a rule of its own. The two are
/// known to agree on names of ASCII letters and digits, blanks, colons, periods
/// and exclamation marks; what the editor makes of any other character is not
/// known here. Where the editor's name is at hand, `stem_volume_id` takes it.
pub fn safe_project_build_stem(name: &str) -> (stem: String)
    ensures
        stem@ == stem_of(name@),
{
    let chars = chars_of(name);
    let mut stem = String::from_str("");
    let mut started = false;
    proof {
        reveal_strlit("");
    }
    let mut i: usize = 0;
    assert(stem@ =~= name_words(name@.take(0)));
    while i < chars.len()
        invariant
            chars@ == name@,
            i <= chars@.len(),
            stem@ == name_words(name@.take(i as int)),
            started == (stem@.len() > 0),
        decreases chars@.len() - i,
    {
        let ghost next = name@.take(i + 1);
        proof {
            assert(next.drop_last() =~= name@.take(i as int));
            assert(next.last() == name@[i as int]);
            if i > 0 {
                assert(next[next.len() - 2] == name@[i - 1]);
            }
        }
        if plain(chars[i]) {
            if started && i > 0 && !plain(chars[i - 1]) {
                stem.push('_');
            }
            stem.push(small_char(chars[i]));
            started = true;
        }
        i = i + 1;
    }
    assert(name@.take(i as int) =~= name@);
    if started {
        stem
    } else {
        String::from_str("project")
    }
}

/// A text in capitals, cut to a length.
pub open spec fn capitals_cut(text: Seq<char>, max: int) -> Seq<char> {
    let kept = if text.len() <= max {
        text
    } else {
        text.take(max)
    };
    Seq::new(kept.len(), |i: int| capital(kept[i]))
}

/// The volume name of a project's disc: its file name in capitals, as far as a
/// volume name goes.
pub fn project_disc_volume_id(project_name: &str) -> (volume: String)
    ensures
        volume@ == capitals_cut(stem_of(project_name@), 32),
        1 <= volume@.len() <= 32,
{
    let stem = safe_project_build_stem(project_name);
    proof {
        reveal_strlit("project");
    }
    stem_volume_id(stem.as_str())
}

/// The volume name of a disc by the file name of its project, without the
/// extension.
pub fn stem_volume_id(stem: &str) -> (volume: String)
    ensures
        volume@ == capitals_cut(stem@, 32),
{
    let chars = chars_of(stem);
    let mut end: usize = chars.len();
    if end > ISO_VOLUME_ID_BYTES {
        end = ISO_VOLUME_ID_BYTES;
    }
    let ghost whole = capitals_cut(stem@, 32);
    let mut volume = String::from_str("");
    proof {
        reveal_strlit("");
        assert(volume@ =~= whole.take(0));
    }
    let mut i: usize = 0;
    while i < end
        invariant
            chars@ == stem@,
            end == if chars@.len() <= 32 {
                chars@.len() as int
            } else {
                32
            },
            whole == capitals_cut(stem@, 32),
            i <= end,
            volume@ == whole.take(i as int),
        decreases end - i,
    {
        volume.push(capital_char(chars[i]));
        assert(whole.take(i + 1) =~= whole.take(i as int).push(whole[i as int]));
        i = i + 1;
    }
    assert(whole.take(i as int) =~= whole);
    volume
}

/// A small letter, a digit or an underscore.
pub open spec fn is_stem_char(c: char) -> bool {
    (97 <= c as int && c as int <= 122) || (48 <= c as int && c as int <= 57) || c == '_'
}

proof fn lemma_words(name: Seq<char>)
    ensures
        forall|i: int|
            0 <= i < name_words(name).len() ==> is_stem_char(#[trigger] name_words(name)[i]),
        name_words(name).len() > 0 ==> name_words(name)[0] != '_' && name_words(name).last() != '_',
    decreases name.len(),
{
    if name.len() > 0 {
        lemma_words(name.drop_last());
    }
}

/// A file name of a project is safe on any file system: it is not empty, holds
/// small letters, digits and underscores only, and starts and ends with a
/// letter or digit.
pub proof fn law_build_stem_is_safe(name: Seq<char>)
    ensures
        stem_of(name).len() > 0,
        forall|i: int| 0 <= i < stem_of(name).len() ==> is_stem_char(#[trigger] stem_of(name)[i]),
        stem_of(name)[0] != '_',
        stem_of(name).last() != '_',
{
    reveal_strlit("project");
    lemma_words(name);
}

/// The name of a project's cue sheet.
pub fn baked_disc_name(project_name: &str) -> (name: String)
    ensures
        name@ == stem_of(project_name@) + ".cue"@,
{
    let mut name = safe_project_build_stem(project_name);
    name.append(".cue");
    name
}

/// A file is something that a build made.
pub open spec fn is_build_extension(extension: Seq<char>) -> bool {
    same_folded(extension, "bin"@) || same_folded(extension, "cue"@) || same_folded(
        extension,
        "exe"@,
    ) || same_folded(extension, "iso"@)
}

/// A file name in parts.
#[derive(Debug, Clone, Copy)]
pub struct FileName<'a> {
    pub name: &'a str,
    pub stem: &'a str,
    pub extension: Option<&'a str>,
}

/// Whether a file is left over from an earlier build: something that a build
/// made, under another name than the present one.
pub fn is_stale_build(file: FileName<'_>, dest_name: &str, dest_stem: &str) -> (stale: bool)
    ensures
        stale == ((file.extension matches Some(extension) && is_build_extension(extension@))
            && file.name@ != dest_name@ && file.stem@ != dest_stem@),
{
    let made = match file.extension {
        Some(extension) => equal_ignoring_case(extension, "bin") || equal_ignoring_case(extension, "cue")
            || equal_ignoring_case(extension, "exe") || equal_ignoring_case(extension, "iso"),
        None => false,
    };
    made && !same_text(file.name, dest_name) && !same_text(file.stem, dest_stem)
}

/// How a build is listed.
#[derive(Debug, PartialEq, Eq)]
pub struct ProjectBuildMenuMetadata {
    pub title: String,
    pub subtitle: String,
    /// The build has the present name of the project.
    pub current: bool,
}

/// How a build is listed: under the project's name, with its place below the
/// projects' directory, or else its whole path.
pub fn project_build_menu_metadata(
    project_name: &str,
    build_stem: &str,
    relative: Option<&str>,
    path: &str,
) -> (metadata: ProjectBuildMenuMetadata)
    ensures
        metadata.title@ == project_name@,
        metadata.subtitle@ == match relative {
            Some(relative) => relative@,
            None => path@,
        },
        metadata.current == (build_stem@ == stem_of(project_name@)),
{
    let expected = safe_project_build_stem(project_name);
    let subtitle = match relative {
        Some(relative) => String::from_str(relative),
        None => String::from_str(path),
    };
    ProjectBuildMenuMetadata {
        title: String::from_str(project_name),
        subtitle,
        current: same_text(build_stem, expected.as_str()),
    }
}

/// Exactly the letters and digits of ASCII are kept in a file name.
pub proof fn law_letters_and_digits_are_plain(c: char)
    ensures
        is_plain(c) <==> ('a' <= c <= 'z') || ('A' <= c <= 'Z') || ('0' <= c <= '9'),
{
}

proof fn lemma_plain_words(word: Seq<char>)
    requires
        forall|i: int| 0 <= i < word.len() ==> is_plain(#[trigger] word[i]),
    ensures
        name_words(word) == word.map_values(|c: char| small(c)),
    decreases word.len(),
{
    let mapped = word.map_values(|c: char| small(c));
    if word.len() > 0 {
        let rest = word.drop_last();
        assert forall|i: int| 0 <= i < rest.len() implies is_plain(#[trigger] rest[i]) by {
            assert(rest[i] == word[i]);
        }
        lemma_plain_words(rest);
        assert(is_plain(word[word.len() - 1]));
        if word.len() >= 2 {
            assert(is_plain(word[word.len() - 2]));
        }
        assert(mapped =~= rest.map_values(|c: char| small(c)).push(small(word.last())));
    } else {
        assert(mapped =~= Seq::<char>::empty());
    }
}

/// A word of letters and digits is kept in small letters.
pub proof fn law_words_are_kept_in_small_letters(word: Seq<char>)
    requires
        forall|i: int| 0 <= i < word.len() ==> is_plain(#[trigger] word[i]),
    ensures
        name_words(word) == word.map_values(|c: char| small(c)),
        word.len() > 0 ==> stem_of(word) == word.map_values(|c: char| small(c)),
        stem_of(Seq::empty()) == "project"@,
{
    lemma_plain_words(word);
}

/// Whatever stands between two names joins what they leave with one underscore,
/// and what stands in front of all words or behind them leaves nothing.
pub proof fn law_names_are_joined_by_one_underscore(a: Seq<char>, between: char, b: Seq<char>)
    requires
        !is_plain(between),
    ensures
        name_words(a.push(between) + b) == if name_words(a).len() == 0 {
            name_words(b)
        } else if name_words(b).len() == 0 {
            name_words(a)
        } else {
            name_words(a).push('_') + name_words(b)
        },
    decreases b.len(),
{
    let whole = a.push(between) + b;
    if b.len() == 0 {
        assert(whole =~= a.push(between));
        assert(whole.drop_last() =~= a);
    } else {
        let rest = b.drop_last();
        law_names_are_joined_by_one_underscore(a, between, rest);
        assert(whole.drop_last() =~= a.push(between) + rest);
        assert(whole.last() == b.last());
        let before = whole[whole.len() - 2];
        if b.len() >= 2 {
            assert(before == b[b.len() - 2]);
        } else {
            assert(before == between);
            assert(rest =~= Seq::<char>::empty());
        }
        if is_plain(b.last()) {
            lemma_word_begun(rest);
            let x = name_words(a).push('_');
            assert(name_words(whole) =~= if name_words(a).len() == 0 {
                name_words(b)
            } else {
                x + name_words(b)
            });
        }
    }
}

/// A name that ends in a letter or digit leaves something.
proof fn lemma_word_begun(name: Seq<char>)
    ensures
        name.len() > 0 && is_plain(name.last()) ==> name_words(name).len() > 0,
{
}

/// A volume name is the text in capitals, letter by letter, as far as it goes.
pub proof fn law_volume_names_are_capitals(text: Seq<char>, max: int, i: int)
    requires
        0 <= max,
        0 <= i < capitals_cut(text, max).len(),
    ensures
        capitals_cut(text, max).len() <= max,
        text.len() <= max ==> capitals_cut(text, max).len() == text.len(),
        text.len() > max ==> capitals_cut(text, max).len() == max,
        capitals_cut(text, max)[i] == capital(text[i]),
{
}

/// What a build made is told by its extension, in whatever capitals: an image, a
/// sheet, a program, or an image of data.
pub proof fn law_builds_are_told_by_extension(extension: Seq<char>)
    ensures
        is_build_extension(extension) <==> {
            let spelt = extension.map_values(|c: char| small(c));
            spelt == "bin"@ || spelt == "cue"@ || spelt == "exe"@ || spelt == "iso"@
        },
{
    reveal_strlit("bin");
    reveal_strlit("cue");
    reveal_strlit("exe");
    reveal_strlit("iso");
    law_capitals_do_not_count(extension, "bin"@);
    law_capitals_do_not_count(extension, "cue"@);
    law_capitals_do_not_count(extension, "exe"@);
    law_capitals_do_not_count(extension, "iso"@);
}

} // verus!

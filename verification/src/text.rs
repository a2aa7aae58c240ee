//! Text building and matching.

use vstd::prelude::*;

verus! {

/// `String::push` of the standard library: appends one character.
pub assume_specification[ String::push ](string: &mut String, c: char)
    ensures
        final(string)@ == old(string)@.push(c),
;

/// The lower-case hexadecimal or decimal digit of a value below sixteen.
pub open spec fn digit_char(d: int) -> char {
    if d < 10 {
        (48 + d) as char
    } else {
        (87 + d) as char
    }
}

pub fn digit(d: u8) -> (result: char)
    requires
        d < 16,
    ensures
        result == digit_char(d as int),
{
    if d < 10 {
        (48 + d) as char
    } else {
        (87 + d) as char
    }
}

/// The decimal numeral of a natural number.
pub open spec fn decimal(n: nat) -> Seq<char>
    decreases n,
{
    if n < 10 {
        seq![digit_char(n as int)]
    } else {
        decimal(n / 10).push(digit_char((n % 10) as int))
    }
}

/// Append the decimal numeral of `n`.
pub fn push_decimal(out: &mut String, n: u64)
    ensures
        final(out)@ == old(out)@ + decimal(n as nat),
    decreases n,
{
    if n < 10 {
        out.push(digit(n as u8));
    } else {
        push_decimal(out, n / 10);
        out.push(digit((n % 10) as u8));
    }
    assert(out@ =~= old(out)@ + decimal(n as nat));
}

/// The characters of a text.
pub fn chars_of(text: &str) -> (result: Vec<char>)
    ensures
        result@ == text@,
{
    let mut out: Vec<char> = Vec::new();
    for c in it: text.chars()
        invariant
            it.seq() == text@,
            out@ == text@.take(it.index() as int),
    {
        out.push(c);
    }
    assert(text@.take(text@.len() as int) == text@);
    out
}

/// Code point of a character.
pub fn code_of(c: char) -> (result: u32)
    ensures
        result == c as int,
{
    c as u32
}

/// Code point of a character, ASCII capitals folded to small letters.
pub open spec fn folded(c: char) -> int {
    if 65 <= c as int && c as int <= 90 {
        c as int + 32
    } else {
        c as int
    }
}

pub fn fold_char(c: char) -> (result: u32)
    ensures
        result == folded(c),
{
    let code: u32 = c as u32;
    if code >= 65 && code <= 90 {
        code + 32
    } else {
        code
    }
}

/// `needle`, a small-letter text, stands at position `at` of `hay`, whatever the
/// capitals there.
pub open spec fn folded_match(hay: Seq<char>, needle: Seq<char>, at: int) -> bool {
    &&& 0 <= at
    &&& at + needle.len() <= hay.len()
    &&& forall|j: int| 0 <= j < needle.len() ==> folded(hay[at + j]) == #[trigger] needle[j] as int
}

/// `hay` holds `needle`, a small-letter text, whatever the capitals.
pub open spec fn contains_folded(hay: Seq<char>, needle: Seq<char>) -> bool {
    exists|at: int| #[trigger] folded_match(hay, needle, at)
}

fn matches_at(hay: &Vec<char>, needle: &Vec<char>, at: usize) -> (result: bool)
    requires
        at + needle@.len() <= hay@.len(),
    ensures
        result == folded_match(hay@, needle@, at as int),
{
    let length: usize = hay.len();
    for j in 0..needle.len()
        invariant
            length == hay@.len(),
            at + needle@.len() <= length,
            forall|k: int| 0 <= k < j ==> folded(hay@[at + k]) == #[trigger] needle@[k] as int,
    {
        let found: u32 = fold_char(hay[at + j]);
        if found != code_of(needle[j]) {
            assert(folded(hay@[at + j]) != needle@[j as int] as int);
            return false;
        }
    }
    true
}

/// `hay` holds `needle`, a small-letter text, whatever the capitals.
pub fn contains_ignoring_case(hay: &Vec<char>, needle: &str) -> (result: bool)
    ensures
        result == contains_folded(hay@, needle@),
{
    let wanted = chars_of(needle);
    if wanted.len() > hay.len() {
        assert forall|k: int| !folded_match(hay@, needle@, k) by {}
        return false;
    }
    let last: usize = hay.len() - wanted.len();
    let mut at: usize = 0;
    loop
        invariant
            wanted@ == needle@,
            at <= last,
            last + wanted@.len() == hay@.len(),
            forall|k: int| 0 <= k < at ==> !folded_match(hay@, needle@, k),
        decreases last - at,
    {
        if matches_at(hay, &wanted, at) {
            return true;
        }
        if at == last {
            assert forall|k: int| !folded_match(hay@, needle@, k) by {}
            return false;
        }
        at = at + 1;
    }
}

/// `a` comes before `b` in the dictionary order of code points.
pub open spec fn comes_before(a: Seq<char>, b: Seq<char>) -> bool
    decreases a.len(),
{
    if b.len() == 0 {
        false
    } else if a.len() == 0 {
        true
    } else if a[0] != b[0] {
        (a[0] as int) < (b[0] as int)
    } else {
        comes_before(a.drop_first(), b.drop_first())
    }
}

/// The dictionary order is a strict total order.
pub proof fn lemma_order_total(a: Seq<char>, b: Seq<char>)
    ensures
        !comes_before(a, a),
        comes_before(a, b) ==> !comes_before(b, a),
        a != b ==> comes_before(a, b) || comes_before(b, a),
    decreases a.len(),
{
    if a.len() == 0 {
        if b.len() == 0 {
            assert(a =~= b);
        }
    } else if b.len() == 0 {
        lemma_order_total(a.drop_first(), a.drop_first());
    } else {
        lemma_order_total(a.drop_first(), b.drop_first());
        if a[0] == b[0] && a.drop_first() == b.drop_first() {
            assert(a =~= seq![a[0]] + a.drop_first());
            assert(b =~= seq![b[0]] + b.drop_first());
        }
        assert(a[0] != b[0] ==> a[0] as int != b[0] as int);
    }
}

pub proof fn lemma_order_transitive(a: Seq<char>, b: Seq<char>, c: Seq<char>)
    requires
        comes_before(a, b),
        comes_before(b, c),
    ensures
        comes_before(a, c),
    decreases a.len(),
{
    if a.len() > 0 && a[0] == b[0] && b[0] == c[0] {
        lemma_order_transitive(a.drop_first(), b.drop_first(), c.drop_first());
    }
}

/// `a` comes before `b` in the dictionary order of code points.
pub fn is_before(a: &str, b: &str) -> (result: bool)
    ensures
        result == comes_before(a@, b@),
{
    let x = chars_of(a);
    let y = chars_of(b);
    let mut i: usize = 0;
    assert(x@.skip(0) =~= x@);
    assert(y@.skip(0) =~= y@);
    while i < x.len() && i < y.len()
        invariant
            x@ == a@,
            y@ == b@,
            i <= x@.len(),
            i <= y@.len(),
            comes_before(a@, b@) == comes_before(x@.skip(i as int), y@.skip(i as int)),
        decreases x@.len() - i,
    {
        assert(x@.skip(i as int).drop_first() =~= x@.skip(i + 1));
        assert(y@.skip(i as int).drop_first() =~= y@.skip(i + 1));
        assert(x@.skip(i as int)[0] == x@[i as int]);
        assert(y@.skip(i as int)[0] == y@[i as int]);
        let left: u32 = code_of(x[i]);
        let right: u32 = code_of(y[i]);
        if left != right {
            return left < right;
        }
        i = i + 1;
    }
    i < y.len()
}

/// Two texts are the same.
pub fn same_text(a: &str, b: &str) -> (result: bool)
    ensures
        result == (a@ == b@),
{
    let x = String::from_str(a);
    let y = String::from_str(b);
    x == y
}

/// The contents of a list of texts.
pub open spec fn texts(list: Seq<String>) -> Seq<Seq<char>> {
    Seq::new(list.len(), |i: int| list[i]@)
}

/// Texts one after the other, with a separator between them.
pub open spec fn joined(list: Seq<Seq<char>>, separator: Seq<char>) -> Seq<char>
    decreases list.len(),
{
    if list.len() == 0 {
        Seq::empty()
    } else if list.len() == 1 {
        list[0]
    } else {
        joined(list.drop_last(), separator) + separator + list.last()
    }
}

/// Texts in dictionary order.
pub open spec fn in_order(list: Seq<Seq<char>>) -> bool {
    forall|i: int, j: int|
        0 <= i < j < list.len() ==> !comes_before(#[trigger] list[j], #[trigger] list[i])
}

/// Joins texts with a separator.
pub fn join_texts(list: &Vec<String>, separator: &str) -> (result: String)
    ensures
        result@ == joined(texts(list@), separator@),
{
    let mut result = String::from_str("");
    proof {
        reveal_strlit("");
        assert(result@ =~= Seq::<char>::empty());
        assert(texts(list@).take(0) =~= Seq::<Seq<char>>::empty());
    }
    let mut i: usize = 0;
    while i < list.len()
        invariant
            i <= list@.len(),
            result@ == joined(texts(list@).take(i as int), separator@),
        decreases list@.len() - i,
    {
        if i > 0 {
            result.append(separator);
        }
        result.append(list[i].as_str());
        proof {
            let next = texts(list@).take(i + 1);
            assert(next.drop_last() =~= texts(list@).take(i as int));
            assert(next.last() == list@[i as int]@);
            if i == 0 {
                assert(result@ =~= next[0]);
            }
        }
        i = i + 1;
    }
    proof {
        assert(texts(list@).take(i as int) =~= texts(list@));
    }
    result
}

/// Adds a text to texts in order, behind those that do not come after it.
fn insert_in_order(list: &mut Vec<String>, text: String)
    requires
        in_order(texts(old(list)@)),
    ensures
        in_order(texts(final(list)@)),
        texts(final(list)@).to_multiset() == texts(old(list)@).to_multiset().insert(text@),
        final(list)@.len() == old(list)@.len() + 1,
{
    let ghost before = texts(list@);
    let ghost added = text@;
    let mut at: usize = list.len();
    while at > 0 && is_before(text.as_str(), list[at - 1].as_str())
        invariant
            at <= list@.len(),
            list@ == old(list)@,
            before == texts(list@),
            added == text@,
            forall|j: int| at <= j < before.len() ==> comes_before(added, #[trigger] before[j]),
        decreases at,
    {
        at = at - 1;
    }
    list.insert(at, text);
    proof {
        let after = texts(list@);
        assert(after =~= before.insert(at as int, added));
        before.to_multiset_ensures();
        assert(after.to_multiset() =~= before.to_multiset().insert(added)) by {
            vstd::seq_lib::to_multiset_insert(before, at as int, added);
        }
        assert forall|i: int, j: int| 0 <= i < j < after.len() implies !comes_before(
            #[trigger] after[j],
            #[trigger] after[i],
        ) by {
            let x = if i < at { i } else { i - 1 };
            let y = if j < at { j } else { j - 1 };
            if i != at {
                assert(after[i] == before[x]);
            }
            if j != at {
                assert(after[j] == before[y]);
            }
            if i == at {
                lemma_order_total(added, after[j]);
            } else if j == at {
                let last = before[at - 1];
                assert(!comes_before(added, last));
                if comes_before(added, before[x]) {
                    lemma_order_total(before[x], last);
                    if x < at - 1 {
                        assert(!comes_before(last, before[x]));
                        if before[x] != last {
                            lemma_order_transitive(added, before[x], last);
                        }
                    }
                }
            } else {
                assert(!comes_before(before[y], before[x]));
            }
        }
    }
}

/// Puts texts into dictionary order.
pub fn sort_texts(list: &Vec<String>) -> (sorted: Vec<String>)
    ensures
        in_order(texts(sorted@)),
        texts(sorted@).to_multiset() == texts(list@).to_multiset(),
{
    let mut sorted: Vec<String> = Vec::new();
    let mut i: usize = 0;
    assert(texts(list@).take(0) =~= Seq::<Seq<char>>::empty());
    assert(texts(sorted@) =~= Seq::<Seq<char>>::empty());
    while i < list.len()
        invariant
            i <= list@.len(),
            in_order(texts(sorted@)),
            texts(sorted@).to_multiset() == texts(list@).take(i as int).to_multiset(),
        decreases list@.len() - i,
    {
        insert_in_order(&mut sorted, list[i].clone());
        proof {
            let next = texts(list@).take(i + 1);
            assert(next =~= texts(list@).take(i as int).push(list@[i as int]@));
            texts(list@).take(i as int).to_multiset_ensures();
        }
        i = i + 1;
    }
    assert(texts(list@).take(i as int) =~= texts(list@));
    sorted
}

/// Two texts are the same but for ASCII capitals.
pub open spec fn same_folded(a: Seq<char>, b: Seq<char>) -> bool {
    &&& a.len() == b.len()
    &&& forall|i: int| 0 <= i < a.len() ==> folded(#[trigger] a[i]) == folded(b[i])
}

/// Whether two texts are the same but for ASCII capitals.
pub fn equal_ignoring_case(a: &str, b: &str) -> (result: bool)
    ensures
        result == same_folded(a@, b@),
{
    let x = chars_of(a);
    let y = chars_of(b);
    if x.len() != y.len() {
        return false;
    }
    let mut i: usize = 0;
    while i < x.len()
        invariant
            x@ == a@,
            y@ == b@,
            x@.len() == y@.len(),
            i <= x@.len(),
            forall|j: int| 0 <= j < i ==> folded(#[trigger] a@[j]) == folded(b@[j]),
        decreases x@.len() - i,
    {
        if fold_char(x[i]) != fold_char(y[i]) {
            assert(folded(a@[i as int]) != folded(b@[i as int]));
            return false;
        }
        i = i + 1;
    }
    true
}

/// The small letter of an ASCII capital; any other character as it is.
pub open spec fn small(c: char) -> char {
    if 65 <= c as int && c as int <= 90 {
        (c as int + 32) as char
    } else {
        c
    }
}

/// The capital of an ASCII small letter; any other character as it is.
pub open spec fn capital(c: char) -> char {
    if 97 <= c as int && c as int <= 122 {
        (c as int - 32) as char
    } else {
        c
    }
}

/// The small letter of an ASCII capital; any other character as it is.
pub fn small_char(c: char) -> (result: char)
    ensures
        result == small(c),
{
    let code: u32 = code_of(c);
    if 65 <= code && code <= 90 {
        (code as u8 + 32) as char
    } else {
        c
    }
}

/// The capital of an ASCII small letter; any other character as it is.
pub fn capital_char(c: char) -> (result: char)
    ensures
        result == capital(c),
{
    let code: u32 = code_of(c);
    if 97 <= code && code <= 122 {
        (code as u8 - 32) as char
    } else {
        c
    }
}

/// Small letters and capitals belong together in pairs: changing a letter there
/// and back gives it again, and every other character stays.
pub proof fn law_letters_pair_up(c: char)
    ensures
        'A' <= c <= 'Z' ==> small(c) as int == c as int - 'A' as int + 'a' as int && capital(small(c))
            == c,
        'a' <= c <= 'z' ==> capital(c) as int == c as int - 'a' as int + 'A' as int && small(
            capital(c),
        ) == c,
        !('A' <= c <= 'Z') ==> small(c) == c,
        !('a' <= c <= 'z') ==> capital(c) == c,
        folded(c) == small(c) as int,
{
}

/// A text holds a word wherever the word stands in it, in any capitals.
pub proof fn law_words_are_found_in_any_capitals(
    before: Seq<char>,
    word: Seq<char>,
    after: Seq<char>,
    needle: Seq<char>,
)
    requires
        word.len() == needle.len(),
        forall|i: int| 0 <= i < word.len() ==> small(#[trigger] word[i]) == needle[i],
    ensures
        contains_folded(before + word + after, needle),
{
    let hay = before + word + after;
    let at = before.len() as int;
    assert forall|j: int| 0 <= j < needle.len() implies folded(hay[at + j])
        == #[trigger] needle[j] as int by {
        assert(hay[at + j] == word[j]);
        law_letters_pair_up(word[j]);
    }
    assert(folded_match(hay, needle, at));
}

/// The texts of a list stand in the joined text one after the other, with the
/// separator between any two.
pub proof fn law_joining_puts_separators_between(
    list: Seq<Seq<char>>,
    next: Seq<char>,
    separator: Seq<char>,
)
    ensures
        joined(Seq::empty(), separator) == Seq::<char>::empty(),
        joined(seq![next], separator) == next,
        list.len() > 0 ==> joined(list.push(next), separator) == joined(list, separator) + separator
            + next,
{
    assert(list.push(next).drop_last() =~= list);
    assert(seq![next].drop_last() =~= Seq::<Seq<char>>::empty());
    reveal_with_fuel(joined, 2);
}

/// A text is the same as one in small letters but for capitals exactly where its
/// own small letters spell that one.
pub proof fn law_capitals_do_not_count(text: Seq<char>, name: Seq<char>)
    requires
        forall|i: int| 0 <= i < name.len() ==> 'a' <= #[trigger] name[i] <= 'z',
    ensures
        same_folded(text, name) <==> text.map_values(|c: char| small(c)) == name,
{
    let spelt = text.map_values(|c: char| small(c));
    if same_folded(text, name) {
        assert forall|i: int| 0 <= i < name.len() implies spelt[i] == name[i] by {
            assert(folded(text[i]) == folded(name[i]));
            law_letters_pair_up(text[i]);
            law_letters_pair_up(name[i]);
        }
        assert(spelt =~= name);
    }
    if spelt == name {
        assert forall|i: int| 0 <= i < text.len() implies folded(#[trigger] text[i]) == folded(
            name[i],
        ) by {
            assert(spelt[i] == name[i]);
            law_letters_pair_up(text[i]);
            law_letters_pair_up(name[i]);
        }
    }
}

} // verus!

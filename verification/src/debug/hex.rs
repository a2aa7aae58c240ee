//! Bytes as hexadecimal text.

use crate::lines::{is_space, space};
use crate::text::{chars_of, code_of, digit, digit_char, fold_char, folded, same_folded};
use vstd::prelude::*;

verus! {

/// A byte as two digits.
pub open spec fn byte_text(byte: u8) -> Seq<char> {
    seq![digit_char(byte as int / 16), digit_char(byte as int % 16)]
}

/// Bytes as pairs of digits.
pub open spec fn hex_text(bytes: Seq<u8>) -> Seq<char>
    decreases bytes.len(),
{
    if bytes.len() == 0 {
        Seq::empty()
    } else {
        hex_text(bytes.drop_last()) + byte_text(bytes.last())
    }
}

/// Bytes as pairs of digits.
pub fn hex(bytes: &Vec<u8>) -> (text: String)
    ensures
        text@ == hex_text(bytes@),
{
    let mut text = String::from_str("");
    proof {
        reveal_strlit("");
    }
    let mut i: usize = 0;
    assert(bytes@.take(0) =~= Seq::<u8>::empty());
    assert(text@ =~= hex_text(bytes@.take(0)));
    while i < bytes.len()
        invariant
            i <= bytes@.len(),
            text@ == hex_text(bytes@.take(i as int)),
        decreases bytes@.len() - i,
    {
        let ghost before = text@;
        text.push(digit(bytes[i] / 16));
        text.push(digit(bytes[i] % 16));
        proof {
            let next = bytes@.take(i + 1);
            assert(next.drop_last() =~= bytes@.take(i as int));
            assert(text@ =~= before + byte_text(bytes@[i as int]));
        }
        i = i + 1;
    }
    assert(bytes@.take(i as int) =~= bytes@);
    text
}

/// A number with a count of digits at least.
pub open spec fn hex_digits(value: nat, count: nat) -> Seq<char>
    decreases count,
{
    if count == 0 {
        Seq::empty()
    } else {
        hex_digits(value / 16, (count - 1) as nat).push(digit_char((value % 16) as int))
    }
}

/// Appends the lowest digits of a number.
pub fn push_hex_digits(out: &mut String, value: u64, count: usize)
    ensures
        final(out)@ == old(out)@ + hex_digits(value as nat, count as nat),
    decreases count,
{
    let ghost before = out@;
    if count > 0 {
        push_hex_digits(out, value / 16, count - 1);
        out.push(digit((value % 16) as u8));
    }
    assert(out@ =~= before + hex_digits(value as nat, count as nat));
}

/// The text without white space.
pub open spec fn without_spaces(text: Seq<char>) -> Seq<char>
    decreases text.len(),
{
    if text.len() == 0 {
        Seq::empty()
    } else {
        let rest = without_spaces(text.drop_last());
        if is_space(text.last()) {
            rest
        } else {
            rest.push(text.last())
        }
    }
}

/// Bytes of a character in UTF-8.
pub open spec fn utf8_bytes(c: char) -> nat {
    if (c as int) < 0x80 {
        1
    } else if (c as int) < 0x800 {
        2
    } else if (c as int) < 0x1_0000 {
        3
    } else {
        4
    }
}

/// Bytes of a text in UTF-8.
pub open spec fn utf8_length(text: Seq<char>) -> nat
    decreases text.len(),
{
    if text.len() == 0 {
        0
    } else {
        utf8_length(text.drop_last()) + utf8_bytes(text.last())
    }
}

/// The value of a hexadecimal digit.
pub open spec fn digit_value(c: char) -> Option<int> {
    let code = folded(c);
    if 48 <= code <= 57 {
        Some(code - 48)
    } else if 97 <= code <= 102 {
        Some(code - 87)
    } else {
        None
    }
}

/// The byte of two characters: two digits, or a plus sign and one digit.
pub open spec fn pair_value(a: char, b: char) -> Option<u8> {
    match (digit_value(a), digit_value(b)) {
        (Some(high), Some(low)) => Some((high * 16 + low) as u8),
        (None, Some(low)) => if a == '+' {
            Some(low as u8)
        } else {
            None
        },
        _ => None,
    }
}

/// Characters can be read pair by pair up to the first pair that is no byte: no
/// character outside ASCII stands across two pairs before that.
pub open spec fn pairs_align(text: Seq<char>) -> bool
    decreases text.len(),
{
    if text.len() == 0 {
        true
    } else if utf8_bytes(text[0]) == 2 {
        true
    } else {
        &&& utf8_bytes(text[0]) == 1
        &&& text.len() >= 2
        &&& utf8_bytes(text[1]) == 1
        &&& pair_value(text[0], text[1]) is Some ==> pairs_align(text.skip(2))
    }
}

/// Every pair is a byte.
pub open spec fn all_pairs(text: Seq<char>) -> bool
    decreases text.len(),
{
    if text.len() == 0 {
        true
    } else {
        &&& text.len() >= 2
        &&& pair_value(text[0], text[1]) is Some
        &&& all_pairs(text.skip(2))
    }
}

/// The bytes of the pairs.
pub open spec fn pair_bytes(text: Seq<char>) -> Seq<u8>
    decreases text.len(),
{
    if text.len() < 2 {
        Seq::empty()
    } else {
        match pair_value(text[0], text[1]) {
            Some(byte) => seq![byte] + pair_bytes(text.skip(2)),
            None => Seq::empty(),
        }
    }
}

/// Why a text is no list of bytes.
#[derive(Debug, Clone, Copy, PartialEq, Eq, Structural)]
pub enum HexError {
    OddLength,
    InvalidDigit,
}

impl HexError {
    /// What is said of the text.
    pub fn message(self) -> (text: &'static str)
        ensures
            text@ == match self {
                HexError::OddLength => "hex string must have an even number of digits"@,
                HexError::InvalidDigit => "invalid digit found in string"@,
            },
    {
        match self {
            HexError::OddLength => "hex string must have an even number of digits",
            HexError::InvalidDigit => "invalid digit found in string",
        }
    }
}

fn value_of(c: char) -> (value: Option<u8>)
    ensures
        match value {
            Some(value) => digit_value(c) == Some(value as int) && value < 16,
            None => digit_value(c) is None,
        },
{
    let code: u32 = fold_char(c);
    if code >= 48 && code <= 57 {
        Some((code - 48) as u8)
    } else if code >= 97 && code <= 102 {
        Some((code - 87) as u8)
    } else {
        None
    }
}

fn read_pair(a: char, b: char) -> (byte: Option<u8>)
    ensures
        byte == pair_value(a, b),
{
    match (value_of(a), value_of(b)) {
        (Some(high), Some(low)) => Some(high * 16 + low),
        (None, Some(low)) => if a == '+' {
            Some(low)
        } else {
            None
        },
        _ => None,
    }
}

fn bytes_of(c: char) -> (bytes: usize)
    ensures
        bytes == utf8_bytes(c),
        1 <= bytes <= 4,
{
    let code: u32 = code_of(c);
    if code < 0x80 {
        1
    } else if code < 0x800 {
        2
    } else if code < 0x1_0000 {
        3
    } else {
        4
    }
}

fn strip_spaces(text: &str) -> (kept: Vec<char>)
    ensures
        kept@ == without_spaces(text@),
{
    let chars = chars_of(text);
    let mut kept: Vec<char> = Vec::new();
    let mut i: usize = 0;
    assert(chars@.take(0) =~= Seq::<char>::empty());
    while i < chars.len()
        invariant
            chars@ == text@,
            i <= chars@.len(),
            kept@ == without_spaces(chars@.take(i as int)),
        decreases chars@.len() - i,
    {
        assert(chars@.take(i + 1).drop_last() =~= chars@.take(i as int));
        if !space(chars[i]) {
            kept.push(chars[i]);
        }
        i = i + 1;
    }
    assert(chars@.take(i as int) =~= chars@);
    kept
}

/// The bytes of the text without white space have an even number.
pub open spec fn has_even_length(text: Seq<char>) -> bool {
    utf8_length(without_spaces(text)) % 2 == 0
}

fn length_is_even(chars: &Vec<char>) -> (even: bool)
    ensures
        even == (utf8_length(chars@) % 2 == 0),
{
    let mut even = true;
    let mut i: usize = 0;
    assert(chars@.take(0) =~= Seq::<char>::empty());
    while i < chars.len()
        invariant
            i <= chars@.len(),
            even == (utf8_length(chars@.take(i as int)) % 2 == 0),
        decreases chars@.len() - i,
    {
        assert(chars@.take(i + 1).drop_last() =~= chars@.take(i as int));
        if bytes_of(chars[i]) % 2 == 1 {
            even = !even;
        }
        i = i + 1;
    }
    assert(chars@.take(i as int) =~= chars@);
    even
}

/// Whether a text can be read pair by pair.
pub fn hex_pairs_align(text: &str) -> (aligned: bool)
    ensures
        aligned == (has_even_length(text@) ==> pairs_align(without_spaces(text@))),
{
    let chars = strip_spaces(text);
    if !length_is_even(&chars) {
        return true;
    }
    let mut i: usize = 0;
    assert(chars@.skip(0) =~= chars@);
    while i < chars.len()
        invariant
            chars@ == without_spaces(text@),
            has_even_length(text@),
            i <= chars@.len(),
            pairs_align(chars@) == pairs_align(chars@.skip(i as int)),
        decreases chars@.len() - i,
    {
        let ghost rest = chars@.skip(i as int);
        assert(rest[0] == chars@[i as int]);
        if bytes_of(chars[i]) == 2 {
            return true;
        }
        if bytes_of(chars[i]) != 1 || chars.len() - i < 2 {
            return false;
        }
        assert(rest[1] == chars@[i + 1]);
        if bytes_of(chars[i + 1]) != 1 {
            return false;
        }
        if read_pair(chars[i], chars[i + 1]).is_none() {
            return true;
        }
        assert(rest.skip(2) =~= chars@.skip(i + 2));
        i = i + 2;
    }
    true
}

/// Reads bytes written as pairs of digits, white space ignored; a plus sign may
/// stand for a first digit of zero. The text has to
/// split into pairs: see [`hex_pairs_align`].
pub fn parse_hex(text: &str) -> (bytes: Result<Vec<u8>, HexError>)
    requires
        has_even_length(text@) ==> pairs_align(without_spaces(text@)),
    ensures
        match bytes {
            Ok(bytes) => has_even_length(text@) && all_pairs(without_spaces(text@)) && bytes@
                == pair_bytes(without_spaces(text@)),
            Err(HexError::OddLength) => !has_even_length(text@),
            Err(HexError::InvalidDigit) => has_even_length(text@) && !all_pairs(
                without_spaces(text@),
            ),
        },
{
    let chars = strip_spaces(text);
    if !length_is_even(&chars) {
        return Err(HexError::OddLength);
    }
    let mut bytes: Vec<u8> = Vec::new();
    let mut i: usize = 0;
    assert(chars@.skip(0) =~= chars@);
    assert(bytes@ + pair_bytes(chars@) =~= pair_bytes(chars@));
    while i < chars.len()
        invariant
            chars@ == without_spaces(text@),
            has_even_length(text@),
            i <= chars@.len(),
            pairs_align(chars@.skip(i as int)),
            all_pairs(chars@) == all_pairs(chars@.skip(i as int)),
            bytes@ + pair_bytes(chars@.skip(i as int)) == pair_bytes(chars@),
        decreases chars@.len() - i,
    {
        let ghost rest = chars@.skip(i as int);
        assert(rest[0] == chars@[i as int]);
        if bytes_of(chars[i]) == 2 {
            assert(pair_value(rest[0], rest[1]) is None);
            return Err(HexError::InvalidDigit);
        }
        assert(rest[1] == chars@[i + 1]);
        match read_pair(chars[i], chars[i + 1]) {
            None => {
                return Err(HexError::InvalidDigit);
            },
            Some(byte) => {
                let ghost before = bytes@;
                bytes.push(byte);
                assert(rest.skip(2) =~= chars@.skip(i + 2));
                assert(before + (seq![byte] + pair_bytes(rest.skip(2))) =~= bytes@ + pair_bytes(
                    rest.skip(2),
                ));
            },
        }
        i = i + 2;
    }
    assert(chars@.skip(i as int) =~= Seq::<char>::empty());
    assert(bytes@ + pair_bytes(Seq::<char>::empty()) =~= bytes@);
    Ok(bytes)
}

proof fn lemma_pairs_of_hex(bytes: Seq<u8>)
    ensures
        hex_text(bytes).len() == 2 * bytes.len(),
        forall|i: int|
            0 <= i < bytes.len() ==> hex_text(bytes)[2 * i] == digit_char(
                (#[trigger] bytes[i]) as int / 16,
            ) && hex_text(bytes)[2 * i + 1] == digit_char(bytes[i] as int % 16),
    decreases bytes.len(),
{
    if bytes.len() > 0 {
        let rest = bytes.drop_last();
        lemma_pairs_of_hex(rest);
        assert forall|i: int| 0 <= i < bytes.len() implies hex_text(bytes)[2 * i] == digit_char(
            (#[trigger] bytes[i]) as int / 16,
        ) && hex_text(bytes)[2 * i + 1] == digit_char(bytes[i] as int % 16) by {
            if i < rest.len() {
                assert(rest[i] == bytes[i]);
            }
        }
    }
}

proof fn lemma_no_spaces(text: Seq<char>)
    requires
        forall|i: int| 0 <= i < text.len() ==> !is_space(#[trigger] text[i]),
    ensures
        without_spaces(text) == text,
    decreases text.len(),
{
    if text.len() > 0 {
        let rest = text.drop_last();
        assert forall|i: int| 0 <= i < rest.len() implies !is_space(#[trigger] rest[i]) by {
            assert(rest[i] == text[i]);
        }
        lemma_no_spaces(rest);
        assert(!is_space(text[text.len() - 1]));
        assert(rest.push(text.last()) =~= text);
    } else {
        assert(without_spaces(text) =~= text);
    }
}

proof fn lemma_ascii_length(text: Seq<char>)
    requires
        forall|i: int| 0 <= i < text.len() ==> utf8_bytes(#[trigger] text[i]) == 1,
    ensures
        utf8_length(text) == text.len(),
    decreases text.len(),
{
    if text.len() > 0 {
        let rest = text.drop_last();
        assert forall|i: int| 0 <= i < rest.len() implies utf8_bytes(#[trigger] rest[i]) == 1 by {
            assert(rest[i] == text[i]);
        }
        lemma_ascii_length(rest);
        assert(utf8_bytes(text[text.len() - 1]) == 1);
    }
}

proof fn lemma_digit(c: char, d: int)
    requires
        0 <= d < 16,
        folded(c) == folded(digit_char(d)),
    ensures
        digit_value(c) == Some(d),
        !is_space(c),
        utf8_bytes(c) == 1,
{
}

/// Pair by pair, the digits of a text are those of the bytes; capitals do not
/// count.
pub open spec fn digits_match(text: Seq<char>, bytes: Seq<u8>) -> bool {
    &&& text.len() == 2 * bytes.len()
    &&& forall|i: int|
        0 <= i < bytes.len() ==> folded(text[2 * i]) == folded(
            digit_char((#[trigger] bytes[i]) as int / 16),
        ) && folded(text[2 * i + 1]) == folded(digit_char(bytes[i] as int % 16))
}

proof fn lemma_read_back(text: Seq<char>, bytes: Seq<u8>)
    requires
        digits_match(text, bytes),
    ensures
        all_pairs(text),
        pairs_align(text),
        pair_bytes(text) == bytes,
        forall|i: int| 0 <= i < text.len() ==> !is_space(#[trigger] text[i]) && utf8_bytes(text[i])
            == 1,
    decreases bytes.len(),
{
    if bytes.len() == 0 {
        assert(pair_bytes(text) =~= bytes);
    } else {
        let first = bytes[0];
        assert(folded(text[2 * 0int]) == folded(digit_char(first as int / 16)));
        lemma_digit(text[0], first as int / 16);
        lemma_digit(text[1], first as int % 16);
        let rest = bytes.drop_first();
        let after = text.skip(2);
        assert forall|i: int| 0 <= i < rest.len() implies folded(after[2 * i]) == folded(
            digit_char((#[trigger] rest[i]) as int / 16),
        ) && folded(after[2 * i + 1]) == folded(digit_char(rest[i] as int % 16)) by {
            assert(rest[i] == bytes[i + 1]);
            assert(after[2 * i] == text[2 * (i + 1)]);
            assert(after[2 * i + 1] == text[2 * (i + 1) + 1]);
        }
        lemma_read_back(after, rest);
        assert(pair_value(text[0], text[1]) == Some(first));
        assert(seq![first] + rest =~= bytes);
        assert forall|i: int| 0 <= i < text.len() implies !is_space(#[trigger] text[i])
            && utf8_bytes(text[i]) == 1 by {
            if i >= 2 {
                assert(after[i - 2] == text[i]);
            }
        }
    }
}

/// What was written as hexadecimal text is read back as it was, wherever white
/// space is put into it and whichever letters are made capitals.
pub proof fn law_hex_is_read_back(bytes: Seq<u8>, text: Seq<char>)
    requires
        same_folded(without_spaces(text), hex_text(bytes)),
    ensures
        has_even_length(text),
        pairs_align(without_spaces(text)),
        all_pairs(without_spaces(text)),
        pair_bytes(without_spaces(text)) == bytes,
{
    let kept = without_spaces(text);
    lemma_pairs_of_hex(bytes);
    assert forall|i: int| 0 <= i < bytes.len() implies folded(kept[2 * i]) == folded(
        digit_char((#[trigger] bytes[i]) as int / 16),
    ) && folded(kept[2 * i + 1]) == folded(digit_char(bytes[i] as int % 16)) by {
        assert(folded(kept[2 * i]) == folded(hex_text(bytes)[2 * i]));
        assert(folded(kept[2 * i + 1]) == folded(hex_text(bytes)[2 * i + 1]));
    }
    lemma_read_back(kept, bytes);
    lemma_ascii_length(kept);
}

/// Bytes written as hexadecimal text hold no white space: the text as it was
/// written is one of those that are read back.
pub proof fn law_hex_text_is_plain(bytes: Seq<u8>)
    ensures
        without_spaces(hex_text(bytes)) == hex_text(bytes),
        same_folded(without_spaces(hex_text(bytes)), hex_text(bytes)),
{
    lemma_pairs_of_hex(bytes);
    lemma_read_back(hex_text(bytes), bytes);
    lemma_no_spaces(hex_text(bytes));
}

/// A number has as many digits as asked for, its lowest ones, and each can be
/// read back.
pub proof fn law_hex_digits_are_read_back(value: nat, count: nat)
    ensures
        hex_digits(value, count).len() == count,
        count > 0 ==> digit_value(hex_digits(value, count).last()) == Some((value % 16) as int),
        count > 0 ==> hex_digits(value, count).drop_last() == hex_digits(
            value / 16,
            (count - 1) as nat,
        ),
    decreases count,
{
    if count > 0 {
        law_hex_digits_are_read_back(value / 16, (count - 1) as nat);
        assert(hex_digits(value, count).drop_last() =~= hex_digits(
            value / 16,
            (count - 1) as nat,
        ));
        lemma_digit(digit_char((value % 16) as int), (value % 16) as int);
    }
}

/// White space does not count, and everything else does, in order.
pub proof fn law_spaces_do_not_count(a: Seq<char>, b: Seq<char>, c: char)
    ensures
        without_spaces(a + b) == without_spaces(a) + without_spaces(b),
        without_spaces(seq![c]) == if is_space(c) {
            Seq::<char>::empty()
        } else {
            seq![c]
        },
    decreases b.len(),
{
    assert(seq![c].drop_last() =~= Seq::<char>::empty());
    reveal_with_fuel(without_spaces, 2);
    if b.len() == 0 {
        assert(a + b =~= a);
    } else {
        law_spaces_do_not_count(a, b.drop_last(), c);
        assert((a + b).drop_last() =~= a + b.drop_last());
        assert((a + b).last() == b.last());
    }
    assert(without_spaces(a + b) =~= without_spaces(a) + without_spaces(b));
}

} // verus!

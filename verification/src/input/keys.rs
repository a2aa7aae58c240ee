//! Keys of the keyboard by position, and how a binding names them.

use crate::text::{equal_ignoring_case, fold_char, folded, same_folded};
use vstd::prelude::*;

verus! {

/// A key by its position, whatever the layout prints on it.
#[derive(Clone, Copy, Debug, PartialEq, Eq, Structural)]
pub enum KeyCode {
    KeyA,
    KeyB,
    KeyC,
    KeyD,
    KeyE,
    KeyF,
    KeyG,
    KeyH,
    KeyI,
    KeyJ,
    KeyK,
    KeyL,
    KeyM,
    KeyN,
    KeyO,
    KeyP,
    KeyQ,
    KeyR,
    KeyS,
    KeyT,
    KeyU,
    KeyV,
    KeyW,
    KeyX,
    KeyY,
    KeyZ,
    Digit0,
    Digit1,
    Digit2,
    Digit3,
    Digit4,
    Digit5,
    Digit6,
    Digit7,
    Digit8,
    Digit9,
    ArrowUp,
    ArrowDown,
    ArrowLeft,
    ArrowRight,
    Enter,
    Backspace,
    Space,
    Tab,
    Escape,
    F1,
    F2,
    F3,
    F4,
    F5,
    F6,
    F7,
    F8,
    F9,
    F10,
    F11,
    F12,
    Numpad0,
    Numpad1,
    Numpad2,
    Numpad3,
    Numpad4,
    Numpad5,
    Numpad6,
    Numpad7,
    Numpad8,
    Numpad9,
    NumpadAdd,
    NumpadSubtract,
    NumpadMultiply,
    NumpadDivide,
    NumpadDecimal,
    NumpadEnter,
    ControlLeft,
    ControlRight,
    AltLeft,
    AltRight,
    Semicolon,
    Comma,
    Period,
    Slash,
    Quote,
    BracketLeft,
    BracketRight,
    Backslash,
    Minus,
    Equal,
    Backquote,
    IntlRo,
    IntlBackslash,
    ShiftLeft,
    ShiftRight,
    /// Any key that no binding can name.
    Other,
}

/// A key as the host reports it.
#[derive(Clone, Copy, Debug, PartialEq, Eq, Structural)]
pub enum PhysicalKey {
    Code(KeyCode),
    Unidentified,
}

/// How a control names its key.
#[derive(Debug, PartialEq, Eq)]
pub enum InputBinding {
    Unbound,
    /// The key that prints this character on a US layout.
    Character(char),
    /// The key with this label, capitals ignored.
    Named(String),
}

/// The character of a letter or digit key.
pub open spec fn key_char(code: KeyCode) -> Option<char> {
    match code {
        KeyCode::KeyA => Some('a'),
        KeyCode::KeyB => Some('b'),
        KeyCode::KeyC => Some('c'),
        KeyCode::KeyD => Some('d'),
        KeyCode::KeyE => Some('e'),
        KeyCode::KeyF => Some('f'),
        KeyCode::KeyG => Some('g'),
        KeyCode::KeyH => Some('h'),
        KeyCode::KeyI => Some('i'),
        KeyCode::KeyJ => Some('j'),
        KeyCode::KeyK => Some('k'),
        KeyCode::KeyL => Some('l'),
        KeyCode::KeyM => Some('m'),
        KeyCode::KeyN => Some('n'),
        KeyCode::KeyO => Some('o'),
        KeyCode::KeyP => Some('p'),
        KeyCode::KeyQ => Some('q'),
        KeyCode::KeyR => Some('r'),
        KeyCode::KeyS => Some('s'),
        KeyCode::KeyT => Some('t'),
        KeyCode::KeyU => Some('u'),
        KeyCode::KeyV => Some('v'),
        KeyCode::KeyW => Some('w'),
        KeyCode::KeyX => Some('x'),
        KeyCode::KeyY => Some('y'),
        KeyCode::KeyZ => Some('z'),
        KeyCode::Digit0 => Some('0'),
        KeyCode::Digit1 => Some('1'),
        KeyCode::Digit2 => Some('2'),
        KeyCode::Digit3 => Some('3'),
        KeyCode::Digit4 => Some('4'),
        KeyCode::Digit5 => Some('5'),
        KeyCode::Digit6 => Some('6'),
        KeyCode::Digit7 => Some('7'),
        KeyCode::Digit8 => Some('8'),
        KeyCode::Digit9 => Some('9'),
        _ => None,
    }
}

/// The label of any other key. Both shift keys have the same one.
pub open spec fn key_label(code: KeyCode) -> Option<Seq<char>> {
    match code {
        KeyCode::ArrowUp => Some("ArrowUp"@),
        KeyCode::ArrowDown => Some("ArrowDown"@),
        KeyCode::ArrowLeft => Some("ArrowLeft"@),
        KeyCode::ArrowRight => Some("ArrowRight"@),
        KeyCode::Enter => Some("Enter"@),
        KeyCode::Backspace => Some("Backspace"@),
        KeyCode::Space => Some("Space"@),
        KeyCode::Tab => Some("Tab"@),
        KeyCode::Escape => Some("Escape"@),
        KeyCode::F1 => Some("F1"@),
        KeyCode::F2 => Some("F2"@),
        KeyCode::F3 => Some("F3"@),
        KeyCode::F4 => Some("F4"@),
        KeyCode::F5 => Some("F5"@),
        KeyCode::F6 => Some("F6"@),
        KeyCode::F7 => Some("F7"@),
        KeyCode::F8 => Some("F8"@),
        KeyCode::F9 => Some("F9"@),
        KeyCode::F10 => Some("F10"@),
        KeyCode::F11 => Some("F11"@),
        KeyCode::F12 => Some("F12"@),
        KeyCode::Numpad0 => Some("Numpad0"@),
        KeyCode::Numpad1 => Some("Numpad1"@),
        KeyCode::Numpad2 => Some("Numpad2"@),
        KeyCode::Numpad3 => Some("Numpad3"@),
        KeyCode::Numpad4 => Some("Numpad4"@),
        KeyCode::Numpad5 => Some("Numpad5"@),
        KeyCode::Numpad6 => Some("Numpad6"@),
        KeyCode::Numpad7 => Some("Numpad7"@),
        KeyCode::Numpad8 => Some("Numpad8"@),
        KeyCode::Numpad9 => Some("Numpad9"@),
        KeyCode::NumpadAdd => Some("NumpadAdd"@),
        KeyCode::NumpadSubtract => Some("NumpadSubtract"@),
        KeyCode::NumpadMultiply => Some("NumpadMultiply"@),
        KeyCode::NumpadDivide => Some("NumpadDivide"@),
        KeyCode::NumpadDecimal => Some("NumpadDecimal"@),
        KeyCode::NumpadEnter => Some("NumpadEnter"@),
        KeyCode::ControlLeft => Some("ControlLeft"@),
        KeyCode::ControlRight => Some("ControlRight"@),
        KeyCode::AltLeft => Some("AltLeft"@),
        KeyCode::AltRight => Some("AltRight"@),
        KeyCode::Semicolon => Some("Semicolon"@),
        KeyCode::Comma => Some("Comma"@),
        KeyCode::Period => Some("Period"@),
        KeyCode::Slash => Some("Slash"@),
        KeyCode::Quote => Some("Quote"@),
        KeyCode::BracketLeft => Some("BracketLeft"@),
        KeyCode::BracketRight => Some("BracketRight"@),
        KeyCode::Backslash => Some("Backslash"@),
        KeyCode::Minus => Some("Minus"@),
        KeyCode::Equal => Some("Equal"@),
        KeyCode::Backquote => Some("Backquote"@),
        KeyCode::IntlRo => Some("IntlRo"@),
        KeyCode::IntlBackslash => Some("IntlBackslash"@),
        KeyCode::ShiftLeft => Some("Shift"@),
        KeyCode::ShiftRight => Some("Shift"@),
        _ => None,
    }
}

/// The host keeps the key for a command of its own.
pub open spec fn is_reserved(code: KeyCode) -> bool {
    code == KeyCode::Escape || code == KeyCode::F5 || code == KeyCode::F7 || code == KeyCode::F8
        || code == KeyCode::F12
}

/// The label of a key.
fn label_of(code: KeyCode) -> (label: Option<&'static str>)
    ensures
        match label {
            Some(text) => key_label(code) == Some(text@),
            None => key_label(code) is None,
        },
{
    match code {
        KeyCode::ArrowUp => Some("ArrowUp"),
        KeyCode::ArrowDown => Some("ArrowDown"),
        KeyCode::ArrowLeft => Some("ArrowLeft"),
        KeyCode::ArrowRight => Some("ArrowRight"),
        KeyCode::Enter => Some("Enter"),
        KeyCode::Backspace => Some("Backspace"),
        KeyCode::Space => Some("Space"),
        KeyCode::Tab => Some("Tab"),
        KeyCode::Escape => Some("Escape"),
        KeyCode::F1 => Some("F1"),
        KeyCode::F2 => Some("F2"),
        KeyCode::F3 => Some("F3"),
        KeyCode::F4 => Some("F4"),
        KeyCode::F5 => Some("F5"),
        KeyCode::F6 => Some("F6"),
        KeyCode::F7 => Some("F7"),
        KeyCode::F8 => Some("F8"),
        KeyCode::F9 => Some("F9"),
        KeyCode::F10 => Some("F10"),
        KeyCode::F11 => Some("F11"),
        KeyCode::F12 => Some("F12"),
        KeyCode::Numpad0 => Some("Numpad0"),
        KeyCode::Numpad1 => Some("Numpad1"),
        KeyCode::Numpad2 => Some("Numpad2"),
        KeyCode::Numpad3 => Some("Numpad3"),
        KeyCode::Numpad4 => Some("Numpad4"),
        KeyCode::Numpad5 => Some("Numpad5"),
        KeyCode::Numpad6 => Some("Numpad6"),
        KeyCode::Numpad7 => Some("Numpad7"),
        KeyCode::Numpad8 => Some("Numpad8"),
        KeyCode::Numpad9 => Some("Numpad9"),
        KeyCode::NumpadAdd => Some("NumpadAdd"),
        KeyCode::NumpadSubtract => Some("NumpadSubtract"),
        KeyCode::NumpadMultiply => Some("NumpadMultiply"),
        KeyCode::NumpadDivide => Some("NumpadDivide"),
        KeyCode::NumpadDecimal => Some("NumpadDecimal"),
        KeyCode::NumpadEnter => Some("NumpadEnter"),
        KeyCode::ControlLeft => Some("ControlLeft"),
        KeyCode::ControlRight => Some("ControlRight"),
        KeyCode::AltLeft => Some("AltLeft"),
        KeyCode::AltRight => Some("AltRight"),
        KeyCode::Semicolon => Some("Semicolon"),
        KeyCode::Comma => Some("Comma"),
        KeyCode::Period => Some("Period"),
        KeyCode::Slash => Some("Slash"),
        KeyCode::Quote => Some("Quote"),
        KeyCode::BracketLeft => Some("BracketLeft"),
        KeyCode::BracketRight => Some("BracketRight"),
        KeyCode::Backslash => Some("Backslash"),
        KeyCode::Minus => Some("Minus"),
        KeyCode::Equal => Some("Equal"),
        KeyCode::Backquote => Some("Backquote"),
        KeyCode::IntlRo => Some("IntlRo"),
        KeyCode::IntlBackslash => Some("IntlBackslash"),
        KeyCode::ShiftLeft => Some("Shift"),
        KeyCode::ShiftRight => Some("Shift"),
        _ => None,
    }
}

/// The letter or digit key of a character; capitals are ignored.
pub fn char_to_keycode(c: char) -> (code: Option<KeyCode>)
    ensures
        match code {
            Some(code) => key_char(code) matches Some(own) && own as int == folded(c),
            None => forall|code: KeyCode| #[trigger]
                key_char(code) matches Some(own) ==> own as int != folded(c),
        },
{
    let small: u32 = fold_char(c);
    if small == 97 {
        Some(KeyCode::KeyA)
    } else if small == 98 {
        Some(KeyCode::KeyB)
    } else if small == 99 {
        Some(KeyCode::KeyC)
    } else if small == 100 {
        Some(KeyCode::KeyD)
    } else if small == 101 {
        Some(KeyCode::KeyE)
    } else if small == 102 {
        Some(KeyCode::KeyF)
    } else if small == 103 {
        Some(KeyCode::KeyG)
    } else if small == 104 {
        Some(KeyCode::KeyH)
    } else if small == 105 {
        Some(KeyCode::KeyI)
    } else if small == 106 {
        Some(KeyCode::KeyJ)
    } else if small == 107 {
        Some(KeyCode::KeyK)
    } else if small == 108 {
        Some(KeyCode::KeyL)
    } else if small == 109 {
        Some(KeyCode::KeyM)
    } else if small == 110 {
        Some(KeyCode::KeyN)
    } else if small == 111 {
        Some(KeyCode::KeyO)
    } else if small == 112 {
        Some(KeyCode::KeyP)
    } else if small == 113 {
        Some(KeyCode::KeyQ)
    } else if small == 114 {
        Some(KeyCode::KeyR)
    } else if small == 115 {
        Some(KeyCode::KeyS)
    } else if small == 116 {
        Some(KeyCode::KeyT)
    } else if small == 117 {
        Some(KeyCode::KeyU)
    } else if small == 118 {
        Some(KeyCode::KeyV)
    } else if small == 119 {
        Some(KeyCode::KeyW)
    } else if small == 120 {
        Some(KeyCode::KeyX)
    } else if small == 121 {
        Some(KeyCode::KeyY)
    } else if small == 122 {
        Some(KeyCode::KeyZ)
    } else if small == 48 {
        Some(KeyCode::Digit0)
    } else if small == 49 {
        Some(KeyCode::Digit1)
    } else if small == 50 {
        Some(KeyCode::Digit2)
    } else if small == 51 {
        Some(KeyCode::Digit3)
    } else if small == 52 {
        Some(KeyCode::Digit4)
    } else if small == 53 {
        Some(KeyCode::Digit5)
    } else if small == 54 {
        Some(KeyCode::Digit6)
    } else if small == 55 {
        Some(KeyCode::Digit7)
    } else if small == 56 {
        Some(KeyCode::Digit8)
    } else if small == 57 {
        Some(KeyCode::Digit9)
    } else {
        None
    }
}

/// A binding names a key.
pub open spec fn binds(binding: InputBinding, key: PhysicalKey) -> bool {
    match (binding, key) {
        (InputBinding::Character(c), PhysicalKey::Code(code)) => key_char(code) matches Some(own)
            && own as int == folded(c),
        (InputBinding::Named(name), PhysicalKey::Code(code)) => key_label(code) matches Some(label)
            && same_folded(label, name@),
        _ => false,
    }
}

/// Whether a label names a key.
fn named_key_matches(name: &str, code: KeyCode) -> (result: bool)
    ensures
        result == (key_label(code) matches Some(label) && same_folded(label, name@)),
{
    match label_of(code) {
        Some(label) => equal_ignoring_case(label, name),
        None => false,
    }
}

/// Whether a binding names a key.
pub fn binding_matches_key(binding: &InputBinding, physical: PhysicalKey) -> (result: bool)
    ensures
        result == binds(*binding, physical),
{
    match physical {
        PhysicalKey::Unidentified => false,
        PhysicalKey::Code(code) => match binding {
            InputBinding::Unbound => false,
            InputBinding::Character(expected) => match char_to_keycode(*expected) {
                Some(found) => {
                    proof {
                        if key_char(found) == key_char(code) {
                            lemma_characters_differ(found, code);
                        }
                    }
                    found == code
                },
                None => false,
            },
            InputBinding::Named(expected) => named_key_matches(expected.as_str(), code),
        },
    }
}

/// No two keys print the same character.
pub proof fn lemma_characters_differ(a: KeyCode, b: KeyCode)
    requires
        key_char(a) is Some,
        key_char(a) == key_char(b),
    ensures
        a == b,
{
}

/// The binding of a key: its character, else its label, and nothing for a key
/// that the host keeps or that has neither.
pub open spec fn binding_of(code: KeyCode) -> Option<KeyName> {
    if is_reserved(code) {
        None
    } else {
        match (key_char(code), key_label(code)) {
            (Some(c), _) => Some(KeyName::Character(c)),
            (None, Some(label)) => Some(KeyName::Label(label)),
            (None, None) => None,
        }
    }
}

/// What a binding holds.
pub enum KeyName {
    Character(char),
    Label(Seq<char>),
}

/// What a binding holds, if it is bound.
pub open spec fn name_of(binding: InputBinding) -> Option<KeyName> {
    match binding {
        InputBinding::Unbound => None,
        InputBinding::Character(c) => Some(KeyName::Character(c)),
        InputBinding::Named(name) => Some(KeyName::Label(name@)),
    }
}

/// The binding that a captured key becomes.
pub fn keycode_to_binding(code: KeyCode) -> (binding: Option<InputBinding>)
    ensures
        match binding {
            Some(binding) => name_of(binding) == binding_of(code) && binding_of(code) is Some,
            None => binding_of(code) is None,
        },
{
    match code {
        KeyCode::Escape | KeyCode::F5 | KeyCode::F7 | KeyCode::F8 | KeyCode::F12 => None,
        KeyCode::KeyA => Some(InputBinding::Character('a')),
        KeyCode::KeyB => Some(InputBinding::Character('b')),
        KeyCode::KeyC => Some(InputBinding::Character('c')),
        KeyCode::KeyD => Some(InputBinding::Character('d')),
        KeyCode::KeyE => Some(InputBinding::Character('e')),
        KeyCode::KeyF => Some(InputBinding::Character('f')),
        KeyCode::KeyG => Some(InputBinding::Character('g')),
        KeyCode::KeyH => Some(InputBinding::Character('h')),
        KeyCode::KeyI => Some(InputBinding::Character('i')),
        KeyCode::KeyJ => Some(InputBinding::Character('j')),
        KeyCode::KeyK => Some(InputBinding::Character('k')),
        KeyCode::KeyL => Some(InputBinding::Character('l')),
        KeyCode::KeyM => Some(InputBinding::Character('m')),
        KeyCode::KeyN => Some(InputBinding::Character('n')),
        KeyCode::KeyO => Some(InputBinding::Character('o')),
        KeyCode::KeyP => Some(InputBinding::Character('p')),
        KeyCode::KeyQ => Some(InputBinding::Character('q')),
        KeyCode::KeyR => Some(InputBinding::Character('r')),
        KeyCode::KeyS => Some(InputBinding::Character('s')),
        KeyCode::KeyT => Some(InputBinding::Character('t')),
        KeyCode::KeyU => Some(InputBinding::Character('u')),
        KeyCode::KeyV => Some(InputBinding::Character('v')),
        KeyCode::KeyW => Some(InputBinding::Character('w')),
        KeyCode::KeyX => Some(InputBinding::Character('x')),
        KeyCode::KeyY => Some(InputBinding::Character('y')),
        KeyCode::KeyZ => Some(InputBinding::Character('z')),
        KeyCode::Digit0 => Some(InputBinding::Character('0')),
        KeyCode::Digit1 => Some(InputBinding::Character('1')),
        KeyCode::Digit2 => Some(InputBinding::Character('2')),
        KeyCode::Digit3 => Some(InputBinding::Character('3')),
        KeyCode::Digit4 => Some(InputBinding::Character('4')),
        KeyCode::Digit5 => Some(InputBinding::Character('5')),
        KeyCode::Digit6 => Some(InputBinding::Character('6')),
        KeyCode::Digit7 => Some(InputBinding::Character('7')),
        KeyCode::Digit8 => Some(InputBinding::Character('8')),
        KeyCode::Digit9 => Some(InputBinding::Character('9')),
        _ => match label_of(code) {
            Some(label) => Some(InputBinding::Named(String::from_str(label))),
            None => None,
        },
    }
}

/// A captured key is the one that its binding names afterwards.
pub proof fn law_captured_key_matches(code: KeyCode, binding: InputBinding)
    requires
        binding_of(code) is Some,
        name_of(binding) == binding_of(code),
    ensures
        binds(binding, PhysicalKey::Code(code)),
{
}

/// A character names one key at most.
pub proof fn law_character_binding_names_one_key(c: char, a: KeyCode, b: KeyCode)
    requires
        binds(InputBinding::Character(c), PhysicalKey::Code(a)),
        binds(InputBinding::Character(c), PhysicalKey::Code(b)),
    ensures
        a == b,
{
    lemma_characters_differ(a, b);
}

/// Length, last character and middle character of a label, which tell labels
/// apart whatever their capitals.
spec fn label_mark(label: Seq<char>) -> int {
    (folded(label[label.len() as int / 2]) * 128 + folded(label.last())) * 32 + label.len()
}

/// The mark of each labelled key.
spec fn key_mark(code: KeyCode) -> int {
    match code {
        KeyCode::ArrowUp => 458247,
        KeyCode::ArrowDown => 490953,
        KeyCode::ArrowLeft => 491145,
        KeyCode::ArrowRight => 470666,
        KeyCode::Enter => 478789,
        KeyCode::Backspace => 474281,
        KeyCode::Space => 400549,
        KeyCode::Tab => 400451,
        KeyCode::Escape => 400550,
        KeyCode::F1 => 202274,
        KeyCode::F2 => 206402,
        KeyCode::F3 => 210530,
        KeyCode::F4 => 214658,
        KeyCode::F5 => 218786,
        KeyCode::F6 => 222914,
        KeyCode::F7 => 227042,
        KeyCode::F8 => 231170,
        KeyCode::F9 => 235298,
        KeyCode::F10 => 202243,
        KeyCode::F11 => 202275,
        KeyCode::F12 => 202307,
        KeyCode::Numpad0 => 460295,
        KeyCode::Numpad1 => 460327,
        KeyCode::Numpad2 => 460359,
        KeyCode::Numpad3 => 460391,
        KeyCode::Numpad4 => 460423,
        KeyCode::Numpad5 => 460455,
        KeyCode::Numpad6 => 460487,
        KeyCode::Numpad7 => 460519,
        KeyCode::Numpad8 => 460551,
        KeyCode::Numpad9 => 460583,
        KeyCode::NumpadAdd => 400521,
        KeyCode::NumpadSubtract => 482958,
        KeyCode::NumpadMultiply => 483118,
        KeyCode::NumpadDivide => 412844,
        KeyCode::NumpadDecimal => 413069,
        KeyCode::NumpadEnter => 413259,
        KeyCode::ControlLeft => 458379,
        KeyCode::ControlRight => 446092,
        KeyCode::AltLeft => 446087,
        KeyCode::AltRight => 433800,
        KeyCode::Semicolon => 409033,
        KeyCode::Comma => 449573,
        KeyCode::Period => 433286,
        KeyCode::Slash => 400645,
        KeyCode::Quote => 457893,
        KeyCode::BracketLeft => 417419,
        KeyCode::BracketRight => 478860,
        KeyCode::Backslash => 474377,
        KeyCode::Minus => 454245,
        KeyCode::Equal => 482693,
        KeyCode::Backquote => 466089,
        KeyCode::IntlRo => 445926,
        KeyCode::IntlBackslash => 408845,
        KeyCode::ShiftLeft => 433797,
        KeyCode::ShiftRight => 433797,
        _ => 0,
    }
}

proof fn lemma_mark_of_key(code: KeyCode)
    ensures
        key_label(code) matches Some(label) ==> label.len() > 0 && label_mark(label) == key_mark(
            code,
        ),
{
    match code {
        KeyCode::ArrowUp => { reveal_strlit("ArrowUp"); },
        KeyCode::ArrowDown => { reveal_strlit("ArrowDown"); },
        KeyCode::ArrowLeft => { reveal_strlit("ArrowLeft"); },
        KeyCode::ArrowRight => { reveal_strlit("ArrowRight"); },
        KeyCode::Enter => { reveal_strlit("Enter"); },
        KeyCode::Backspace => { reveal_strlit("Backspace"); },
        KeyCode::Space => { reveal_strlit("Space"); },
        KeyCode::Tab => { reveal_strlit("Tab"); },
        KeyCode::Escape => { reveal_strlit("Escape"); },
        KeyCode::F1 => { reveal_strlit("F1"); },
        KeyCode::F2 => { reveal_strlit("F2"); },
        KeyCode::F3 => { reveal_strlit("F3"); },
        KeyCode::F4 => { reveal_strlit("F4"); },
        KeyCode::F5 => { reveal_strlit("F5"); },
        KeyCode::F6 => { reveal_strlit("F6"); },
        KeyCode::F7 => { reveal_strlit("F7"); },
        KeyCode::F8 => { reveal_strlit("F8"); },
        KeyCode::F9 => { reveal_strlit("F9"); },
        KeyCode::F10 => { reveal_strlit("F10"); },
        KeyCode::F11 => { reveal_strlit("F11"); },
        KeyCode::F12 => { reveal_strlit("F12"); },
        KeyCode::Numpad0 => { reveal_strlit("Numpad0"); },
        KeyCode::Numpad1 => { reveal_strlit("Numpad1"); },
        KeyCode::Numpad2 => { reveal_strlit("Numpad2"); },
        KeyCode::Numpad3 => { reveal_strlit("Numpad3"); },
        KeyCode::Numpad4 => { reveal_strlit("Numpad4"); },
        KeyCode::Numpad5 => { reveal_strlit("Numpad5"); },
        KeyCode::Numpad6 => { reveal_strlit("Numpad6"); },
        KeyCode::Numpad7 => { reveal_strlit("Numpad7"); },
        KeyCode::Numpad8 => { reveal_strlit("Numpad8"); },
        KeyCode::Numpad9 => { reveal_strlit("Numpad9"); },
        KeyCode::NumpadAdd => { reveal_strlit("NumpadAdd"); },
        KeyCode::NumpadSubtract => { reveal_strlit("NumpadSubtract"); },
        KeyCode::NumpadMultiply => { reveal_strlit("NumpadMultiply"); },
        KeyCode::NumpadDivide => { reveal_strlit("NumpadDivide"); },
        KeyCode::NumpadDecimal => { reveal_strlit("NumpadDecimal"); },
        KeyCode::NumpadEnter => { reveal_strlit("NumpadEnter"); },
        KeyCode::ControlLeft => { reveal_strlit("ControlLeft"); },
        KeyCode::ControlRight => { reveal_strlit("ControlRight"); },
        KeyCode::AltLeft => { reveal_strlit("AltLeft"); },
        KeyCode::AltRight => { reveal_strlit("AltRight"); },
        KeyCode::Semicolon => { reveal_strlit("Semicolon"); },
        KeyCode::Comma => { reveal_strlit("Comma"); },
        KeyCode::Period => { reveal_strlit("Period"); },
        KeyCode::Slash => { reveal_strlit("Slash"); },
        KeyCode::Quote => { reveal_strlit("Quote"); },
        KeyCode::BracketLeft => { reveal_strlit("BracketLeft"); },
        KeyCode::BracketRight => { reveal_strlit("BracketRight"); },
        KeyCode::Backslash => { reveal_strlit("Backslash"); },
        KeyCode::Minus => { reveal_strlit("Minus"); },
        KeyCode::Equal => { reveal_strlit("Equal"); },
        KeyCode::Backquote => { reveal_strlit("Backquote"); },
        KeyCode::IntlRo => { reveal_strlit("IntlRo"); },
        KeyCode::IntlBackslash => { reveal_strlit("IntlBackslash"); },
        KeyCode::ShiftLeft => { reveal_strlit("Shift"); },
        KeyCode::ShiftRight => { reveal_strlit("Shift"); },
        _ => {},
    }
}

/// A label names one key at most, but for the two shift keys, which share theirs.
pub proof fn law_label_binding_names_one_key(name: String, a: KeyCode, b: KeyCode)
    requires
        binds(InputBinding::Named(name), PhysicalKey::Code(a)),
        binds(InputBinding::Named(name), PhysicalKey::Code(b)),
    ensures
        a == b || (key_label(a) == Some("Shift"@) && key_label(b) == Some("Shift"@)),
{
    lemma_mark_of_key(a);
    lemma_mark_of_key(b);
    let first = key_label(a).unwrap();
    let second = key_label(b).unwrap();
    assert(folded(first[first.len() as int / 2]) == folded(name@[first.len() as int / 2]));
    assert(folded(second[first.len() as int / 2]) == folded(name@[first.len() as int / 2]));
    assert(folded(first.last()) == folded(name@[first.len() - 1]));
    assert(folded(second.last()) == folded(name@[first.len() - 1]));
    assert(key_mark(a) == key_mark(b));
}

} // verus!

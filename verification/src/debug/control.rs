//! Commands of the debug server that steer the emulator.

use crate::debug::hex::{hex_digits, push_hex_digits};
use crate::lines::{parse_u32, parsed_u32};
use crate::text::{
    chars_of, decimal, equal_ignoring_case, folded, law_letters_pair_up, push_decimal, same_folded,
    small, small_char,
};
use vstd::prelude::*;

verus! {

/// Port that the server listens on unless another is given.
pub const DEFAULT_PORT: u16 = 7355;

/// The port in a setting, or the usual one if it holds none.
pub fn server_port(setting: Option<&str>) -> (port: u16)
    ensures
        port == match setting {
            Some(text) => match parsed_u32(text@) {
                Some(number) => if number <= u16::MAX {
                    number as u16
                } else {
                    DEFAULT_PORT
                },
                None => DEFAULT_PORT,
            },
            None => DEFAULT_PORT,
        },
{
    match setting {
        Some(text) => {
            let chars = chars_of(text);
            match parse_u32(&chars) {
                Some(number) => if number <= 0xFFFF {
                    number as u16
                } else {
                    DEFAULT_PORT
                },
                None => DEFAULT_PORT,
            }
        },
        None => DEFAULT_PORT,
    }
}

/// What the server can steer.
#[derive(Debug, Clone, Copy, PartialEq, Eq, Structural)]
pub struct ControlState {
    pub running: bool,
    pub has_machine: bool,
    pub wireframe: bool,
}

/// A command.
#[derive(Debug, Clone, Copy, PartialEq, Eq)]
pub enum ControlCmd {
    Pause,
    Resume,
    /// Set the wireframe view, or switch it.
    ToggleWireframe { on: Option<bool> },
}

/// What stands after a command.
pub open spec fn after_control(state: ControlState, cmd: ControlCmd) -> ControlState {
    match cmd {
        ControlCmd::Pause => ControlState { running: false, ..state },
        ControlCmd::Resume => ControlState {
            running: state.running || state.has_machine,
            ..state
        },
        ControlCmd::ToggleWireframe { on } => if state.has_machine {
            ControlState {
                wireframe: match on {
                    Some(on) => on,
                    None => !state.wireframe,
                },
                ..state
            }
        } else {
            state
        },
    }
}

/// What is answered to a command.
pub open spec fn control_reply(state: ControlState, cmd: ControlCmd) -> Result<
    Seq<char>,
    Seq<char>,
> {
    match cmd {
        ControlCmd::Pause => Ok("paused"@),
        ControlCmd::Resume => if state.has_machine {
            Ok("running"@)
        } else {
            Ok("no game loaded"@)
        },
        ControlCmd::ToggleWireframe { on } => if state.has_machine {
            if after_control(state, cmd).wireframe {
                Ok("wireframe = true"@)
            } else {
                Ok("wireframe = false"@)
            }
        } else {
            Err("no game loaded"@)
        },
    }
}

/// Obeys a command.
pub fn control(state: &mut ControlState, cmd: ControlCmd) -> (reply: Result<
    &'static str,
    &'static str,
>)
    ensures
        *final(state) == after_control(*old(state), cmd),
        match (reply, control_reply(*old(state), cmd)) {
            (Ok(text), Ok(expected)) => text@ == expected,
            (Err(text), Err(expected)) => text@ == expected,
            _ => false,
        },
{
    match cmd {
        ControlCmd::Pause => {
            state.running = false;
            Ok("paused")
        },
        ControlCmd::Resume => {
            if state.has_machine {
                state.running = true;
                Ok("running")
            } else {
                Ok("no game loaded")
            }
        },
        ControlCmd::ToggleWireframe { on } => {
            if !state.has_machine {
                return Err("no game loaded");
            }
            state.wireframe = match on {
                Some(on) => on,
                None => !state.wireframe,
            };
            if state.wireframe {
                Ok("wireframe = true")
            } else {
                Ok("wireframe = false")
            }
        },
    }
}

/// What is answered to a reset: the game that is started anew, if there is one.
pub fn reset_reply(title: Option<&str>) -> (reply: Result<String, &'static str>)
    ensures
        match (title, reply) {
            (Some(title), Ok(text)) => text@ == "reset "@ + title@,
            (None, Err(text)) => text@ == "no current game to reset"@,
            _ => false,
        },
{
    match title {
        Some(title) => {
            let mut text = String::from_str("reset ");
            text.append(title);
            Ok(text)
        },
        None => Err("no current game to reset"),
    }
}

/// What a file to be loaded is.
#[derive(Debug, Clone, Copy, PartialEq, Eq, Structural)]
pub enum GameKind {
    Exe,
    DiscCue,
    DiscCcd,
    DiscIso,
    DiscBin,
}

/// What a file with an extension is; capitals do not count.
pub open spec fn kind_of(extension: Seq<char>) -> Option<GameKind> {
    if same_folded(extension, "exe"@) {
        Some(GameKind::Exe)
    } else if same_folded(extension, "cue"@) {
        Some(GameKind::DiscCue)
    } else if same_folded(extension, "ccd"@) {
        Some(GameKind::DiscCcd)
    } else if same_folded(extension, "iso"@) {
        Some(GameKind::DiscIso)
    } else if same_folded(extension, "bin"@) || same_folded(extension, "img"@) {
        Some(GameKind::DiscBin)
    } else {
        None
    }
}

/// A text in small letters.
pub open spec fn small_text(text: Seq<char>) -> Seq<char> {
    Seq::new(text.len(), |i: int| small(text[i]))
}

/// Tells what a file is by its extension, or says that it cannot be loaded.
pub fn game_kind(extension: &str) -> (kind: Result<GameKind, String>)
    ensures
        match kind {
            Ok(kind) => kind_of(extension@) == Some(kind),
            Err(text) => kind_of(extension@) is None && text@ == "unsupported extension: ."@
                + small_text(extension@),
        },
{
    if equal_ignoring_case(extension, "exe") {
        return Ok(GameKind::Exe);
    }
    if equal_ignoring_case(extension, "cue") {
        return Ok(GameKind::DiscCue);
    }
    if equal_ignoring_case(extension, "ccd") {
        return Ok(GameKind::DiscCcd);
    }
    if equal_ignoring_case(extension, "iso") {
        return Ok(GameKind::DiscIso);
    }
    if equal_ignoring_case(extension, "bin") || equal_ignoring_case(extension, "img") {
        return Ok(GameKind::DiscBin);
    }
    let chars = chars_of(extension);
    let mut text = String::from_str("unsupported extension: .");
    let ghost start = text@;
    let ghost whole = small_text(extension@);
    let mut i: usize = 0;
    assert(start + whole.take(0) =~= start);
    while i < chars.len()
        invariant
            chars@ == extension@,
            whole == small_text(extension@),
            i <= chars@.len(),
            text@ == start + whole.take(i as int),
        decreases chars@.len() - i,
    {
        text.push(small_char(chars[i]));
        assert(start + whole.take(i + 1) =~= (start + whole.take(i as int)).push(whole[i as int]));
        i = i + 1;
    }
    assert(whole.take(i as int) =~= whole);
    Err(text)
}

/// The hash of bytes (64-bit FNV-1a): each byte is mixed into the lowest bits,
/// then the whole is multiplied.
pub open spec fn fnv1a(bytes: Seq<u8>) -> u64
    decreases bytes.len(),
{
    if bytes.len() == 0 {
        0xcbf2_9ce4_8422_2325
    } else {
        (((fnv1a(bytes.drop_last()) ^ bytes.last() as u64) * 0x0000_0100_0000_01b3)
            % 0x1_0000_0000_0000_0000) as u64
    }
}

/// The hash of bytes.
pub fn fnv1a_64(bytes: &Vec<u8>) -> (hash: u64)
    ensures
        hash == fnv1a(bytes@),
{
    let mut hash: u64 = 0xcbf2_9ce4_8422_2325;
    let mut i: usize = 0;
    assert(bytes@.take(0) =~= Seq::<u8>::empty());
    while i < bytes.len()
        invariant
            i <= bytes@.len(),
            hash == fnv1a(bytes@.take(i as int)),
        decreases bytes@.len() - i,
    {
        assert(bytes@.take(i + 1).drop_last() =~= bytes@.take(i as int));
        let mixed: u64 = hash ^ bytes[i] as u64;
        hash = mixed.wrapping_mul(0x0000_0100_0000_01b3);
        i = i + 1;
    }
    assert(bytes@.take(i as int) =~= bytes@);
    hash
}

/// The identity of a game that was loaded by its path.
pub fn game_id(path: &Vec<u8>) -> (id: String)
    ensures
        id@ == "mcp-"@ + hex_digits(fnv1a(path@) as nat, 16),
{
    let mut id = String::from_str("mcp-");
    push_hex_digits(&mut id, fnv1a_64(path), 16);
    id
}

/// The title of a game that was loaded by its path, and what is answered.
pub fn loaded_reply(stem: Option<&str>) -> (reply: (String, String))
    ensures
        ({
            let title = match stem {
                Some(stem) => stem@,
                None => "mcp-game"@,
            };
            reply.0@ == title && reply.1@ == "loaded "@ + title
        }),
{
    let title = match stem {
        Some(stem) => String::from_str(stem),
        None => String::from_str("mcp-game"),
    };
    let mut text = String::from_str("loaded ");
    text.append(title.as_str());
    (title, text)
}

/// What the emulator is doing.
#[derive(Debug, Clone, Copy, PartialEq, Eq, Structural)]
pub struct MachineStatus {
    pub running: bool,
    pub pc: u32,
    pub cycles: u64,
    pub wireframe: bool,
    pub width: u32,
    pub height: u32,
}

/// A truth value as it is sent.
pub open spec fn truth_text(value: bool) -> Seq<char> {
    if value {
        "true"@
    } else {
        "false"@
    }
}

fn push_truth(out: &mut String, value: bool)
    ensures
        final(out)@ == old(out)@ + truth_text(value),
{
    if value {
        out.append("true");
    } else {
        out.append("false");
    }
}

/// What the emulator is doing, as it is sent. The game's title comes ready to
/// be sent.
pub fn status(machine: Option<MachineStatus>, game: &str) -> (text: String)
    ensures
        text@ == match machine {
            Some(machine) => "{\"running\":"@ + truth_text(machine.running) + ",\"pc\":\"0x"@
                + hex_digits(machine.pc as nat, 8) + "\",\"cycles\":"@ + decimal(
                machine.cycles as nat,
            ) + ",\"wireframe\":"@ + truth_text(machine.wireframe) + ",\"display\":\""@ + decimal(
                machine.width as nat,
            ) + "x"@ + decimal(machine.height as nat) + "\",\"game\":"@ + game@ + "}"@,
            None => "{\"running\":false,\"game\":null}"@,
        },
{
    match machine {
        Some(machine) => {
            let mut text = String::from_str("{\"running\":");
            push_truth(&mut text, machine.running);
            text.append(",\"pc\":\"0x");
            push_hex_digits(&mut text, machine.pc as u64, 8);
            text.append("\",\"cycles\":");
            push_decimal(&mut text, machine.cycles);
            text.append(",\"wireframe\":");
            push_truth(&mut text, machine.wireframe);
            text.append(",\"display\":\"");
            push_decimal(&mut text, machine.width as u64);
            text.append("x");
            push_decimal(&mut text, machine.height as u64);
            text.append("\",\"game\":");
            text.append(game);
            text.append("}");
            text
        },
        None => String::from_str("{\"running\":false,\"game\":null}"),
    }
}

/// Pausing stops the machine and resuming starts it, if there is one; drawing in
/// lines is set as asked, or turned round. Each changes nothing else.
pub proof fn law_commands_change_one_thing(state: ControlState, on: bool)
    ensures
        ({
            let paused = after_control(state, ControlCmd::Pause);
            let resumed = after_control(paused, ControlCmd::Resume);
            &&& !paused.running
            &&& resumed.running <==> state.has_machine
            &&& paused.wireframe == state.wireframe && resumed.wireframe == state.wireframe
            &&& paused.has_machine == state.has_machine && resumed.has_machine == state.has_machine
        }),
        ({
            let set = after_control(state, ControlCmd::ToggleWireframe { on: Some(on) });
            let turned = after_control(state, ControlCmd::ToggleWireframe { on: None });
            &&& state.has_machine ==> set.wireframe == on && turned.wireframe != state.wireframe
            &&& !state.has_machine ==> set == state && turned == state
            &&& set.running == state.running && turned.running == state.running
            &&& set.has_machine == state.has_machine && turned.has_machine == state.has_machine
        }),
        control_reply(state, ControlCmd::ToggleWireframe { on: Some(on) }) is Ok
            <==> state.has_machine,
{
}

proof fn lemma_small_name(extension: Seq<char>, name: Seq<char>)
    requires
        forall|i: int| 0 <= i < name.len() ==> 'a' <= #[trigger] name[i] <= 'z',
    ensures
        same_folded(extension, name) <==> small_text(extension) == name,
{
    if same_folded(extension, name) {
        assert forall|i: int| 0 <= i < name.len() implies small_text(extension)[i] == name[i] by {
            assert(folded(extension[i]) == folded(name[i]));
            law_letters_pair_up(extension[i]);
            law_letters_pair_up(name[i]);
        }
        assert(small_text(extension) =~= name);
    }
    if small_text(extension) == name {
        assert forall|i: int| 0 <= i < extension.len() implies folded(#[trigger] extension[i])
            == folded(name[i]) by {
            assert(small_text(extension)[i] == name[i]);
            law_letters_pair_up(extension[i]);
            law_letters_pair_up(name[i]);
        }
    }
}

/// What a game is goes by its extension in small letters: a program, a sheet, a
/// clone's sheet, an image of data, or a raw image under either name.
pub proof fn law_games_go_by_their_extension(extension: Seq<char>)
    ensures
        kind_of(extension) == Some(GameKind::Exe) <==> small_text(extension) == "exe"@,
        kind_of(extension) == Some(GameKind::DiscCue) <==> small_text(extension) == "cue"@,
        kind_of(extension) == Some(GameKind::DiscCcd) <==> small_text(extension) == "ccd"@,
        kind_of(extension) == Some(GameKind::DiscIso) <==> small_text(extension) == "iso"@,
        kind_of(extension) == Some(GameKind::DiscBin) <==> small_text(extension) == "bin"@
            || small_text(extension) == "img"@,
{
    reveal_strlit("exe");
    reveal_strlit("cue");
    reveal_strlit("ccd");
    reveal_strlit("iso");
    reveal_strlit("bin");
    reveal_strlit("img");
    lemma_small_name(extension, "exe"@);
    lemma_small_name(extension, "cue"@);
    lemma_small_name(extension, "ccd"@);
    lemma_small_name(extension, "iso"@);
    lemma_small_name(extension, "bin"@);
    lemma_small_name(extension, "img"@);
    assert("exe"@[0] == 'e' && "cue"@[1] == 'u' && "ccd"@[1] == 'c' && "iso"@[0] == 'i' && "bin"@[0]
        == 'b' && "img"@[0] == 'i' && "cue"@[0] == 'c' && "ccd"@[0] == 'c' && "iso"@[1] == 's'
        && "img"@[1] == 'm');
}

/// The mark of a path takes its bytes one by one, each mixed into the lower bits
/// and then spread by the same factor.
pub proof fn law_marks_take_bytes_one_by_one(bytes: Seq<u8>, byte: u8)
    ensures
        fnv1a(Seq::empty()) == 14_695_981_039_346_656_037u64,
        fnv1a(bytes.push(byte)) as int == ((fnv1a(bytes) ^ (byte as u64)) * 1_099_511_628_211)
            % 0x1_0000_0000_0000_0000,
{
    assert(bytes.push(byte).drop_last() =~= bytes);
}

} // verus!

//! Window events: keys, focus, the menu button.

use crate::input::frame::{notice_text, InputFrame, InputNotice};
use crate::input::keyboard::{key_is_analog_button, HostKeyboardInput, PortBindings};
use crate::input::keys::{
    binding_of, binds, keycode_to_binding, name_of, InputBinding, PhysicalKey,
};
use crate::input::router::{InputRouter, RouterState};
use crate::input::routing::{analog_toggled, bumped, KEYBOARD_DEVICE_ID};
use crate::text::joined;
use vstd::prelude::*;

verus! {

/// What the menu reads of one frame.
#[derive(Clone, Copy, Debug, PartialEq, Eq, Structural)]
pub struct MenuInput {
    pub up: bool,
    pub down: bool,
    pub left: bool,
    pub right: bool,
    pub confirm: bool,
    pub back: bool,
    pub toggle_open: bool,
}

impl MenuInput {
    /// Nothing pressed.
    pub open spec fn spec_none() -> Self {
        MenuInput {
            up: false,
            down: false,
            left: false,
            right: false,
            confirm: false,
            back: false,
            toggle_open: false,
        }
    }
}

impl Default for MenuInput {
    fn default() -> (input: Self)
        ensures
            input == MenuInput::spec_none(),
    {
        MenuInput {
            up: false,
            down: false,
            left: false,
            right: false,
            confirm: false,
            back: false,
            toggle_open: false,
        }
    }
}

/// A key by what the layout prints on it, as far as the window cares.
#[derive(Clone, Copy, Debug, PartialEq, Eq, Structural)]
pub enum LogicalKey {
    ArrowUp,
    ArrowDown,
    ArrowLeft,
    ArrowRight,
    Enter,
    Space,
    Escape,
    F5,
    F7,
    F8,
    F12,
    Other,
}

/// The menu's input with one more key.
pub open spec fn with_key(input: MenuInput, key: LogicalKey) -> MenuInput {
    match key {
        LogicalKey::ArrowUp => MenuInput { up: true, ..input },
        LogicalKey::ArrowDown => MenuInput { down: true, ..input },
        LogicalKey::ArrowLeft => MenuInput { left: true, ..input },
        LogicalKey::ArrowRight => MenuInput { right: true, ..input },
        LogicalKey::Enter => MenuInput { confirm: true, ..input },
        LogicalKey::Space => MenuInput { confirm: true, ..input },
        LogicalKey::Escape => MenuInput { toggle_open: true, back: true, ..input },
        _ => input,
    }
}

/// Adds a key to the menu's input.
pub fn merge_key(input: MenuInput, key: LogicalKey) -> (merged: MenuInput)
    ensures
        merged == with_key(input, key),
{
    let mut merged = input;
    match key {
        LogicalKey::ArrowUp => {
            merged.up = true;
        },
        LogicalKey::ArrowDown => {
            merged.down = true;
        },
        LogicalKey::ArrowLeft => {
            merged.left = true;
        },
        LogicalKey::ArrowRight => {
            merged.right = true;
        },
        LogicalKey::Enter | LogicalKey::Space => {
            merged.confirm = true;
        },
        LogicalKey::Escape => {
            merged.toggle_open = true;
            merged.back = true;
        },
        _ => {},
    }
    merged
}

/// The menu's input with what the controllers press.
pub open spec fn with_pads(input: MenuInput, frame: InputFrame) -> MenuInput {
    MenuInput {
        up: input.up || frame.menu_up,
        down: input.down || frame.menu_down,
        left: input.left || frame.menu_left,
        right: input.right || frame.menu_right,
        confirm: input.confirm || frame.menu_confirm,
        back: input.back || frame.menu_back,
        toggle_open: input.toggle_open || frame.toggle_menu,
    }
}

/// Adds what the controllers press to the menu's input.
pub fn merge_pads(input: MenuInput, frame: &InputFrame) -> (merged: MenuInput)
    ensures
        merged == with_pads(input, *frame),
{
    MenuInput {
        up: input.up || frame.menu_up,
        down: input.down || frame.menu_down,
        left: input.left || frame.menu_left,
        right: input.right || frame.menu_right,
        confirm: input.confirm || frame.menu_confirm,
        back: input.back || frame.menu_back,
        toggle_open: input.toggle_open || frame.toggle_menu,
    }
}

/// The texts of some notices.
pub open spec fn notice_texts(notices: Seq<InputNotice>) -> Seq<Seq<char>> {
    Seq::new(notices.len(), |i: int| notice_text(notices[i]))
}

/// One line about the controllers that came and went, if any did.
pub fn notices_status(notices: &Vec<InputNotice>) -> (status: Option<String>)
    ensures
        match status {
            Some(text) => notices@.len() > 0 && text@ == joined(notice_texts(notices@), " · "@),
            None => notices@.len() == 0,
        },
{
    if notices.len() == 0 {
        return None;
    }
    let mut line = notices[0].message();
    let mut i: usize = 1;
    proof {
        let first = notice_texts(notices@).take(1);
        assert(first[0] == line@);
        assert(joined(first, " · "@) == line@);
    }
    while i < notices.len()
        invariant
            1 <= i <= notices@.len(),
            line@ == joined(notice_texts(notices@).take(i as int), " · "@),
        decreases notices@.len() - i,
    {
        line.append(" · ");
        let message = notices[i].message();
        line.append(message.as_str());
        proof {
            let next = notice_texts(notices@).take(i + 1);
            assert(next.drop_last() =~= notice_texts(notices@).take(i as int));
            assert(next.last() == message@);
        }
        i = i + 1;
    }
    assert(notice_texts(notices@).take(i as int) =~= notice_texts(notices@));
    Some(line)
}

/// A key that went down or up.
#[derive(Clone, Copy, Debug, PartialEq, Eq, Structural)]
pub struct KeyPress {
    pub logical: LogicalKey,
    pub physical: PhysicalKey,
    pub pressed: bool,
    /// The key is held and the host repeats it.
    pub repeat: bool,
}

/// A command of the host that a key gives.
#[derive(Clone, Copy, Debug, PartialEq, Eq, Structural)]
pub enum HostCommand {
    Nothing,
    SaveState,
    LoadState,
    ToggleRecording,
}

/// What a key leads to.
#[derive(Debug)]
pub enum KeyOutcome {
    /// A control waits for its key and keeps waiting.
    Waiting,
    /// A control no longer waits for its key.
    Cancelled,
    /// The key becomes the control's.
    Bound(InputBinding),
    /// The key cannot become a control's.
    Refused,
    /// The key was taken in; the window is drawn again.
    Taken {
        /// The keyboard's controller was swapped, to an analog one or not.
        analog: Option<bool>,
        command: HostCommand,
    },
}

/// What the window keeps of the keys.
#[derive(Clone, Copy, Debug, PartialEq, Eq, Structural)]
pub struct KeyState {
    pub host: HostKeyboardInput,
    /// Input for the menu in the next frame.
    pub pending: MenuInput,
    /// The picture of the second renderer is shown.
    pub display_gpu_compute: bool,
}

/// The command of a key.
pub open spec fn command_of(key: KeyPress) -> HostCommand {
    if !key.pressed || key.repeat {
        HostCommand::Nothing
    } else {
        match key.logical {
            LogicalKey::F5 => HostCommand::SaveState,
            LogicalKey::F7 => HostCommand::LoadState,
            LogicalKey::F8 => HostCommand::ToggleRecording,
            _ => HostCommand::Nothing,
        }
    }
}

/// A key swaps the keyboard's controller.
pub open spec fn swaps_controller(key: KeyPress, to_game: bool, bindings: PortBindings) -> bool {
    !key.repeat && to_game && key.pressed && binds(bindings.analog, key.physical)
}

/// What the window keeps after a key that no control waits for.
pub open spec fn after_key(
    state: KeyState,
    key: KeyPress,
    to_game: bool,
    bindings: PortBindings,
) -> KeyState {
    KeyState {
        host: if !key.repeat && to_game {
            state.host.after_key(key.physical, key.pressed, bindings)
        } else {
            state.host
        },
        pending: if key.pressed {
            with_key(state.pending, key.logical)
        } else {
            state.pending
        },
        display_gpu_compute: if key.pressed && !key.repeat && key.logical == LogicalKey::F12 {
            !state.display_gpu_compute
        } else {
            state.display_gpu_compute
        },
    }
}

/// Takes in a key. While a control waits for its key nothing else sees one;
/// else it goes to the game if that has the keyboard, to the menu, and to the
/// host's own commands.
pub fn on_key(
    state: &mut KeyState,
    router: &mut InputRouter,
    bindings: &PortBindings,
    key: KeyPress,
    capturing: bool,
    to_game: bool,
) -> (outcome: KeyOutcome)
    requires
        old(router).wf(),
    ensures
        final(router).wf(),
        *final(state) == if capturing {
            KeyState { host: HostKeyboardInput::spec_idle(), ..*old(state) }
        } else {
            after_key(*old(state), key, to_game, *bindings)
        },
        final(router)@ == if !capturing && swaps_controller(key, to_game, *bindings) {
            RouterState {
                routes: analog_toggled(old(router)@.routes, KEYBOARD_DEVICE_ID@),
                changes: bumped(old(router)@.changes),
                ..old(router)@
            }
        } else {
            old(router)@
        },
        capturing ==> (if !key.pressed || key.repeat {
            outcome is Waiting
        } else if key.logical == LogicalKey::Escape {
            outcome is Cancelled
        } else {
            match key.physical {
                PhysicalKey::Unidentified => outcome is Waiting,
                PhysicalKey::Code(code) => match binding_of(code) {
                    Some(name) => outcome matches KeyOutcome::Bound(binding) && name_of(binding)
                        == Some(name),
                    None => outcome is Refused,
                },
            }
        }),
        !capturing ==> (outcome matches KeyOutcome::Taken { analog, command } && command
            == command_of(key) && analog == if swaps_controller(key, to_game, *bindings) {
            Some(!old(router)@.routes[KEYBOARD_DEVICE_ID@].analog)
        } else {
            None
        }),
{
    if capturing {
        state.host.clear();
        if !key.pressed || key.repeat {
            return KeyOutcome::Waiting;
        }
        if key.logical == LogicalKey::Escape {
            return KeyOutcome::Cancelled;
        }
        return match key.physical {
            PhysicalKey::Unidentified => KeyOutcome::Waiting,
            PhysicalKey::Code(code) => match keycode_to_binding(code) {
                Some(binding) => KeyOutcome::Bound(binding),
                None => KeyOutcome::Refused,
            },
        };
    }
    let mut analog: Option<bool> = None;
    if !key.repeat && to_game {
        state.host.apply_key_event(key.physical, key.pressed, bindings);
        if key.pressed && key_is_analog_button(key.physical, bindings) {
            analog = Some(router.toggle_keyboard_analog());
        }
    }
    if key.pressed {
        state.pending = merge_key(state.pending, key.logical);
    }
    if key.pressed && !key.repeat && key.logical == LogicalKey::F12 {
        state.display_gpu_compute = !state.display_gpu_compute;
    }
    let mut command = HostCommand::Nothing;
    if key.pressed && !key.repeat {
        match key.logical {
            LogicalKey::F5 => {
                command = HostCommand::SaveState;
            },
            LogicalKey::F7 => {
                command = HostCommand::LoadState;
            },
            LogicalKey::F8 => {
                command = HostCommand::ToggleRecording;
            },
            _ => {},
        }
    }
    KeyOutcome::Taken { analog, command }
}

/// What is said when the keyboard's controller is swapped.
pub fn controller_mode_text(analog: bool) -> (text: &'static str)
    ensures
        text@ == if analog {
            "Keyboard controller mode: Analog"@
        } else {
            "Keyboard controller mode: Digital"@
        },
{
    if analog {
        "Keyboard controller mode: Analog"
    } else {
        "Keyboard controller mode: Digital"
    }
}

/// The game has the keyboard: outside the editor always, inside it while a
/// playtest holds the input.
pub fn route_keyboard_to_game(in_editor: bool, captured: bool) -> (result: bool)
    ensures
        result == (!in_editor || captured),
{
    !in_editor || captured
}

/// What the menu button finds.
#[derive(Clone, Copy, Debug, PartialEq, Eq, Structural)]
pub struct MenuButtonState {
    pub controls_panel_open: bool,
    pub in_editor: bool,
    pub playtest_running: bool,
    /// A playtest holds the input.
    pub input_captured: bool,
    /// The machine runs.
    pub running: bool,
    pub menu_open: bool,
    pub has_machine: bool,
    pub has_game: bool,
}

/// What the menu button does.
#[derive(Clone, Copy, Debug, PartialEq, Eq, Structural)]
pub enum MenuButtonAction {
    CloseControls,
    ReleaseInput,
    /// Stop the machine and open the menu.
    Pause,
    /// Close the menu and let the machine run.
    Resume,
    CloseMenu,
    OpenMenu,
}

/// What the menu button does: it puts away the nearest thing on screen.
pub open spec fn menu_button_action(state: MenuButtonState) -> MenuButtonAction {
    if state.controls_panel_open {
        MenuButtonAction::CloseControls
    } else if state.in_editor && state.playtest_running && state.input_captured {
        MenuButtonAction::ReleaseInput
    } else if state.running {
        MenuButtonAction::Pause
    } else if state.menu_open {
        if state.has_machine && (state.has_game || state.input_captured) {
            MenuButtonAction::Resume
        } else {
            MenuButtonAction::CloseMenu
        }
    } else {
        MenuButtonAction::OpenMenu
    }
}

/// What stands after the menu button.
pub open spec fn after_menu_button(state: MenuButtonState) -> MenuButtonState {
    match menu_button_action(state) {
        MenuButtonAction::CloseControls => MenuButtonState { controls_panel_open: false, ..state },
        MenuButtonAction::ReleaseInput => MenuButtonState { input_captured: false, ..state },
        MenuButtonAction::Pause => MenuButtonState { running: false, menu_open: true, ..state },
        MenuButtonAction::Resume => MenuButtonState { running: true, menu_open: false, ..state },
        MenuButtonAction::CloseMenu => MenuButtonState { menu_open: false, ..state },
        MenuButtonAction::OpenMenu => MenuButtonState { menu_open: true, ..state },
    }
}

/// Presses the menu button. The press is used up: the menu sees neither it nor
/// the step back that came with it.
pub fn press_menu_button(input: &mut MenuInput, state: &mut MenuButtonState) -> (action: Option<
    MenuButtonAction,
>)
    ensures
        old(input).toggle_open ==> action == Some(menu_button_action(*old(state)))
            && *final(state) == after_menu_button(*old(state)) && *final(input) == (MenuInput {
            toggle_open: false,
            back: false,
            ..*old(input)
        }),
        !old(input).toggle_open ==> action is None && *final(state) == *old(state) && *final(input)
            == *old(input),
{
    if !input.toggle_open {
        return None;
    }
    input.toggle_open = false;
    input.back = false;
    if state.controls_panel_open {
        state.controls_panel_open = false;
        Some(MenuButtonAction::CloseControls)
    } else if state.in_editor && state.playtest_running && state.input_captured {
        state.input_captured = false;
        Some(MenuButtonAction::ReleaseInput)
    } else if state.running {
        state.running = false;
        state.menu_open = true;
        Some(MenuButtonAction::Pause)
    } else if state.menu_open {
        state.menu_open = false;
        if state.has_machine && (state.has_game || state.input_captured) {
            state.running = true;
            Some(MenuButtonAction::Resume)
        } else {
            Some(MenuButtonAction::CloseMenu)
        }
    } else {
        state.menu_open = true;
        Some(MenuButtonAction::OpenMenu)
    }
}

/// The menu button pauses a game, and the same button again resumes it.
pub proof fn law_menu_button_pauses_and_resumes(state: MenuButtonState)
    requires
        state.running,
        !state.menu_open,
        state.has_machine,
        state.has_game,
        !state.controls_panel_open,
        !(state.in_editor && state.playtest_running && state.input_captured),
    ensures
        menu_button_action(state) == MenuButtonAction::Pause,
        menu_button_action(after_menu_button(state)) == MenuButtonAction::Resume,
        after_menu_button(after_menu_button(state)) == state,
{
}

/// An event of the window.
#[derive(Clone, Copy, Debug, PartialEq, Eq, Structural)]
pub enum ShellEvent {
    CloseRequested,
    Resized,
    FocusLost,
    FocusGained,
    Keyboard,
    RedrawRequested,
    /// Anything else; the panels may have used it up.
    Other { consumed: bool },
}

/// What an event asks for.
#[derive(Clone, Copy, Debug, PartialEq, Eq, Structural)]
pub enum ShellStep {
    /// Save everything and leave.
    Quit,
    /// Follow the new size and draw.
    Resize,
    /// Let go of every key.
    ReleaseKeys,
    Nothing,
    TakeKey,
    Draw,
    RequestRedraw,
}

/// What an event asks for. The host does not report the release of a key once
/// the window has lost the focus, so every key counts as released then.
pub fn shell_step(event: ShellEvent) -> (step: ShellStep)
    ensures
        step == match event {
            ShellEvent::CloseRequested => ShellStep::Quit,
            ShellEvent::Resized => ShellStep::Resize,
            ShellEvent::FocusLost => ShellStep::ReleaseKeys,
            ShellEvent::FocusGained => ShellStep::Nothing,
            ShellEvent::Keyboard => ShellStep::TakeKey,
            ShellEvent::RedrawRequested => ShellStep::Draw,
            ShellEvent::Other { consumed } => if consumed {
                ShellStep::Nothing
            } else {
                ShellStep::RequestRedraw
            },
        },
{
    match event {
        ShellEvent::CloseRequested => ShellStep::Quit,
        ShellEvent::Resized => ShellStep::Resize,
        ShellEvent::FocusLost => ShellStep::ReleaseKeys,
        ShellEvent::FocusGained => ShellStep::Nothing,
        ShellEvent::Keyboard => ShellStep::TakeKey,
        ShellEvent::RedrawRequested => ShellStep::Draw,
        ShellEvent::Other { consumed } => if consumed {
            ShellStep::Nothing
        } else {
            ShellStep::RequestRedraw
        },
    }
}

/// Every key sets its own part of the menu input and clears none: the arrows a
/// direction, Enter and Space the choice, Escape both the menu itself and the way
/// back.
pub proof fn law_keys_steer_the_menu(input: MenuInput, key: LogicalKey)
    ensures
        ({
            let after = with_key(input, key);
            &&& after.up <==> input.up || key == LogicalKey::ArrowUp
            &&& after.down <==> input.down || key == LogicalKey::ArrowDown
            &&& after.left <==> input.left || key == LogicalKey::ArrowLeft
            &&& after.right <==> input.right || key == LogicalKey::ArrowRight
            &&& after.confirm <==> input.confirm || key == LogicalKey::Enter || key
                == LogicalKey::Space
            &&& after.back <==> input.back || key == LogicalKey::Escape
            &&& after.toggle_open <==> input.toggle_open || key == LogicalKey::Escape
        }),
{
}

/// Controllers and keys steer the menu alike, and in whatever order they come.
pub proof fn law_controllers_steer_the_menu_too(input: MenuInput, frame: InputFrame, key: LogicalKey)
    ensures
        with_pads(with_key(input, key), frame) == with_key(with_pads(input, frame), key),
        with_pads(with_pads(input, frame), frame) == with_pads(input, frame),
        ({
            let alone = with_pads(MenuInput::spec_none(), frame);
            &&& alone.up == frame.menu_up && alone.down == frame.menu_down
            &&& alone.left == frame.menu_left && alone.right == frame.menu_right
            &&& alone.confirm == frame.menu_confirm && alone.back == frame.menu_back
            &&& alone.toggle_open == frame.toggle_menu
        }),
{
}

/// A command is given by its key going down, once however long it is held.
pub proof fn law_commands_are_given_once(key: KeyPress)
    ensures
        command_of(KeyPress { repeat: true, ..key }) == HostCommand::Nothing,
        command_of(KeyPress { pressed: false, ..key }) == HostCommand::Nothing,
        key.pressed && !key.repeat ==> {
            &&& command_of(key) == HostCommand::SaveState <==> key.logical == LogicalKey::F5
            &&& command_of(key) == HostCommand::LoadState <==> key.logical == LogicalKey::F7
            &&& command_of(key) == HostCommand::ToggleRecording <==> key.logical == LogicalKey::F8
        },
{
}

/// Held keys that repeat reach the menu and neither the guest nor the display;
/// keys that come up reach the guest alone; and keys reach the guest only while
/// it has the keyboard.
pub proof fn law_keys_go_where_they_belong(
    state: KeyState,
    key: KeyPress,
    to_game: bool,
    bindings: PortBindings,
)
    ensures
        ({
            let after = after_key(state, key, to_game, bindings);
            &&& key.repeat ==> after.host == state.host && after.display_gpu_compute
                == state.display_gpu_compute
            &&& !key.pressed ==> after.pending == state.pending && after.display_gpu_compute
                == state.display_gpu_compute
            &&& !to_game ==> after.host == state.host
            &&& !key.repeat && to_game ==> after.host == state.host.after_key(
                key.physical,
                key.pressed,
                bindings,
            )
            &&& key.pressed ==> after.pending == with_key(state.pending, key.logical)
            &&& key.logical != LogicalKey::F12 ==> after.display_gpu_compute
                == state.display_gpu_compute
            &&& key.logical == LogicalKey::F12 && key.pressed && !key.repeat
                ==> after.display_gpu_compute != state.display_gpu_compute
        }),
        swaps_controller(key, to_game, bindings) ==> to_game && key.pressed && !key.repeat,
{
}

/// The menu button never leaves the machine running under an open menu. It first
/// closes the panel of the controls, then hands the input back, and touches
/// nothing else while it does.
pub proof fn law_menu_button_does_one_thing_at_a_time(state: MenuButtonState)
    requires
        !(state.running && state.menu_open),
    ensures
        ({
            let after = after_menu_button(state);
            let captured = state.in_editor && state.playtest_running && state.input_captured;
            &&& !(after.running && after.menu_open)
            &&& after.in_editor == state.in_editor && after.playtest_running
                == state.playtest_running
            &&& after.has_machine == state.has_machine && after.has_game == state.has_game
            &&& state.controls_panel_open ==> !after.controls_panel_open && after.running
                == state.running && after.menu_open == state.menu_open && after.input_captured
                == state.input_captured
            &&& !state.controls_panel_open && captured ==> !after.input_captured && after.running
                == state.running && after.menu_open == state.menu_open
            &&& !state.controls_panel_open && !captured ==> {
                &&& after.menu_open != state.menu_open
                &&& after.input_captured == state.input_captured
                &&& after.running <==> state.menu_open && state.has_machine && (state.has_game
                    || state.input_captured)
            }
        }),
{
}

} // verus!

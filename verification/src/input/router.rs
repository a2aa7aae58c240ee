//! The controllers that are connected, and what they say frame by frame.

use crate::input::frame::{
    chord_held, finish_frame, finished, InputFrame, InputNotice, PadSample, RoutedPadInput,
};
use crate::input::routing::{
    analog_toggled, bumped, connected, disconnected, moved, occupied, ordered, port_of, route_map,
    InputDeviceInfo, PsxPort, Route, RoutingTable, KEYBOARD_DEVICE_ID,
};
use crate::text::{decimal, in_order, join_texts, joined, push_decimal, sort_texts, texts};
use vstd::prelude::*;

verus! {

/// A connected controller.
#[derive(Debug)]
pub struct TrackedPad {
    pub key: u32,
    pub name: String,
    /// Identity in the routing table.
    pub route_id: String,
    pub previous_mode_button: bool,
}

/// What is known of a connected controller.
pub struct PadState {
    pub key: u32,
    pub name: Seq<char>,
    pub route_id: Seq<char>,
    pub mode_button: bool,
}

impl TrackedPad {
    pub open spec fn state(self) -> PadState {
        PadState {
            key: self.key,
            name: self.name@,
            route_id: self.route_id@,
            mode_button: self.previous_mode_button,
        }
    }
}

/// What is known of the connected controllers.
pub open spec fn pad_states(pads: Seq<TrackedPad>) -> Seq<PadState> {
    Seq::new(pads.len(), |i: int| pads[i].state())
}

/// The controllers by rising number.
pub open spec fn rising(pads: Seq<PadState>) -> bool {
    forall|i: int, j: int|
        0 <= i < j < pads.len() ==> (#[trigger] pads[i]).key < (#[trigger] pads[j]).key
}

/// The place of a controller among the connected ones, or where it would go.
pub open spec fn place_of(pads: Seq<PadState>, key: u32) -> int
    decreases pads.len(),
{
    if pads.len() == 0 || pads[0].key >= key {
        0
    } else {
        1 + place_of(pads.drop_first(), key)
    }
}

/// The controller is connected.
pub open spec fn is_tracked(pads: Seq<PadState>, key: u32) -> bool {
    exists|i: int| 0 <= i < pads.len() && (#[trigger] pads[i]).key == key
}

proof fn lemma_place(pads: Seq<PadState>, key: u32, at: int)
    requires
        0 <= at <= pads.len(),
        forall|i: int| 0 <= i < at ==> (#[trigger] pads[i]).key < key,
        at < pads.len() ==> pads[at].key >= key,
    ensures
        place_of(pads, key) == at,
    decreases pads.len(),
{
    if at > 0 {
        assert(pads[0].key < key);
        let rest = pads.drop_first();
        assert forall|i: int| 0 <= i < at - 1 implies (#[trigger] rest[i]).key < key by {
            assert(rest[i] == pads[i + 1]);
        }
        lemma_place(rest, key, at - 1);
    }
}

/// The connected controllers with one more; it replaces one with its number.
pub open spec fn with_pad(pads: Seq<PadState>, pad: PadState) -> Seq<PadState> {
    let at = place_of(pads, pad.key);
    if is_tracked(pads, pad.key) {
        pads.update(at, pad)
    } else {
        pads.insert(at, pad)
    }
}

/// A notice as plain text parts.
pub enum NoticeText {
    Connected { name: Seq<char>, mapping: Seq<char> },
    Disconnected { name: Seq<char> },
}

/// The parts of a notice.
pub open spec fn notice_parts(notice: InputNotice) -> NoticeText {
    match notice {
        InputNotice::Connected { name, mapping } => NoticeText::Connected {
            name: name@,
            mapping: mapping@,
        },
        InputNotice::Disconnected { name } => NoticeText::Disconnected { name: name@ },
    }
}

/// The parts of some notices.
pub open spec fn notice_list(notices: Seq<InputNotice>) -> Seq<NoticeText> {
    Seq::new(notices.len(), |i: int| notice_parts(notices[i]))
}

/// The router between two frames.
#[verifier::ext_equal]
pub struct RouterState {
    pub pads: Seq<PadState>,
    pub routes: Map<Seq<char>, Route>,
    /// Counter of the changes to the routes.
    pub changes: u64,
    /// Notices for the next frame.
    pub notices: Seq<NoticeText>,
    pub previous_mask: u16,
    pub previous_chord: bool,
}

/// The router once a controller has been connected.
pub open spec fn pad_added(
    state: RouterState,
    key: u32,
    route_id: Seq<char>,
    name: Seq<char>,
    mapping: Seq<char>,
) -> RouterState {
    RouterState {
        pads: with_pad(state.pads, PadState { key, name, route_id, mode_button: false }),
        routes: connected(state.routes, route_id, name),
        changes: if state.routes.contains_key(route_id) {
            state.changes
        } else {
            bumped(state.changes)
        },
        notices: state.notices.push(NoticeText::Connected { name, mapping }),
        ..state
    }
}

/// The router once a controller has been disconnected.
pub open spec fn pad_dropped(state: RouterState, key: u32) -> RouterState {
    if is_tracked(state.pads, key) {
        let at = place_of(state.pads, key);
        let pad = state.pads[at];
        RouterState {
            pads: state.pads.remove(at),
            routes: disconnected(state.routes, pad.route_id),
            changes: if pad.route_id != KEYBOARD_DEVICE_ID@ && state.routes.contains_key(
                pad.route_id,
            ) {
                bumped(state.changes)
            } else {
                state.changes
            },
            notices: state.notices.push(NoticeText::Disconnected { name: pad.name }),
            ..state
        }
    } else {
        state
    }
}

/// What the samples of one frame come to.
#[verifier::ext_equal]
pub struct Sampling {
    pub mask: u16,
    /// The first controller that was sampled.
    pub first: Option<usize>,
    pub port1: RoutedPadInput,
    pub port2: RoutedPadInput,
    pub analog_button: bool,
    pub pads: Seq<PadState>,
    pub routes: Map<Seq<char>, Route>,
    pub changes: u64,
}

/// What the first samples come to. A sample of an unknown controller is
/// skipped; a mode button that goes down swaps the controller of its device.
pub open spec fn sampled(state: RouterState, samples: Seq<PadSample>, count: int) -> Sampling
    decreases count,
{
    if count <= 0 {
        Sampling {
            mask: 0,
            first: None,
            port1: RoutedPadInput::spec_idle(),
            port2: RoutedPadInput::spec_idle(),
            analog_button: false,
            pads: state.pads,
            routes: state.routes,
            changes: state.changes,
        }
    } else {
        let so_far = sampled(state, samples, count - 1);
        one_more(so_far, samples[count - 1], (count - 1) as usize)
    }
}

/// What one more sample adds.
pub open spec fn one_more(so_far: Sampling, sample: PadSample, number: usize) -> Sampling {
    if !is_tracked(so_far.pads, sample.key) {
        so_far
    } else {
        let at = place_of(so_far.pads, sample.key);
        let pad = so_far.pads[at];
        let port = port_of(so_far.routes, pad.route_id);
        let mode_edge = sample.mode_down && !pad.mode_button;
        Sampling {
            mask: so_far.mask | sample.mask,
            first: if so_far.first is None {
                Some(number)
            } else {
                so_far.first
            },
            port1: if port == PsxPort::One {
                so_far.port1.merged(number, sample)
            } else {
                so_far.port1
            },
            port2: if port == PsxPort::Two {
                so_far.port2.merged(number, sample)
            } else {
                so_far.port2
            },
            analog_button: so_far.analog_button || mode_edge,
            pads: so_far.pads.update(at, PadState { mode_button: sample.mode_down, ..pad }),
            routes: if mode_edge {
                analog_toggled(so_far.routes, pad.route_id)
            } else {
                so_far.routes
            },
            changes: if mode_edge && so_far.routes.contains_key(pad.route_id) {
                bumped(so_far.changes)
            } else {
                so_far.changes
            },
        }
    }
}

/// The router after a frame.
pub open spec fn polled(state: RouterState, samples: Seq<PadSample>) -> RouterState {
    let all = sampled(state, samples, samples.len() as int);
    RouterState {
        pads: all.pads,
        routes: all.routes,
        changes: all.changes,
        notices: Seq::empty(),
        previous_mask: all.mask,
        previous_chord: chord_held(all.mask),
    }
}

/// The frame that some samples come to.
pub open spec fn frame_of(
    state: RouterState,
    samples: Seq<PadSample>,
    notices: Vec<InputNotice>,
) -> InputFrame {
    let all = sampled(state, samples, samples.len() as int);
    finished(
        InputFrame {
            notices,
            pad1_mask: 0,
            port1: all.port1,
            port2: all.port2,
            pressed_mask: 0,
            toggle_menu: false,
            analog_button: all.analog_button,
            menu_up: false,
            menu_down: false,
            menu_left: false,
            menu_right: false,
            menu_confirm: false,
            menu_back: false,
            sticks_from: all.first,
        },
        state.previous_mask,
        state.previous_chord,
        all.mask,
    )
}

/// What becomes of a guest port.
#[derive(Clone, Copy, Debug, PartialEq, Eq, Structural)]
pub enum PortSetup {
    /// Nothing changes.
    Keep,
    Detach,
    OriginalDigital,
    Analog,
}

/// The controller that a port gets.
pub open spec fn port_setup(port: PsxPort, analog: Option<bool>) -> PortSetup {
    match (port, analog) {
        (PsxPort::Off, _) => PortSetup::Keep,
        (_, None) => PortSetup::Detach,
        (_, Some(false)) => PortSetup::OriginalDigital,
        (_, Some(true)) => PortSetup::Analog,
    }
}

/// The controller that a port gets.
pub fn configure_port(port: PsxPort, analog: Option<bool>) -> (setup: PortSetup)
    ensures
        setup == port_setup(port, analog),
{
    match (port, analog) {
        (PsxPort::Off, _) => PortSetup::Keep,
        (_, None) => PortSetup::Detach,
        (_, Some(false)) => PortSetup::OriginalDigital,
        (_, Some(true)) => PortSetup::Analog,
    }
}

/// The connected controllers and their routes.
#[derive(Debug)]
pub struct InputRouter {
    pads: Vec<TrackedPad>,
    routing: RoutingTable,
    previous_mask: u16,
    previous_chord: bool,
    pending_notices: Vec<InputNotice>,
}

impl InputRouter {
    /// The router between two frames.
    pub closed spec fn view(&self) -> RouterState {
        RouterState {
            pads: pad_states(self.pads@),
            routes: self.routing@,
            changes: self.routing.changes(),
            notices: notice_list(self.pending_notices@),
            previous_mask: self.previous_mask,
            previous_chord: self.previous_chord,
        }
    }

    /// The routes as a table.
    pub closed spec fn table(&self) -> RoutingTable {
        self.routing
    }

    /// Controllers are listed once, by rising number, and the routes are
    /// sound.
    pub closed spec fn wf(&self) -> bool {
        &&& self.routing.wf()
        &&& rising(pad_states(self.pads@))
    }

    /// What the invariant says of the router.
    pub proof fn lemma_wf(&self)
        requires
            self.wf(),
        ensures
            self.table().wf(),
            self.table()@ == self@.routes,
            self.table().changes() == self@.changes,
            rising(self@.pads),
    {
    }

    /// A router without controllers.
    pub fn new() -> (router: Self)
        ensures
            router.wf(),
            router@.pads == Seq::<PadState>::empty(),
            router@.routes == map![
                KEYBOARD_DEVICE_ID@ => (Route {
                    name: "Keyboard"@,
                    port: PsxPort::One,
                    analog: false,
                })
            ],
            router@.changes == 1,
            router@.notices == Seq::<NoticeText>::empty(),
            router@.previous_mask == 0,
            !router@.previous_chord,
    {
        InputRouter {
            pads: Vec::new(),
            routing: RoutingTable::new(),
            previous_mask: 0,
            previous_chord: false,
            pending_notices: Vec::new(),
        }
    }

    fn find(&self, key: u32) -> (result: (usize, bool))
        requires
            rising(pad_states(self.pads@)),
        ensures
            result.0 == place_of(self@.pads, key),
            result.0 <= self.pads@.len(),
            result.1 == is_tracked(self@.pads, key),
            result.1 ==> result.0 < self.pads@.len() && self.pads@[result.0 as int].key == key,
            forall|i: int| 0 <= i < result.0 ==> (#[trigger] self@.pads[i]).key < key,
            forall|i: int|
                result.0 <= i < self@.pads.len() && !result.1 ==> (#[trigger] self@.pads[i]).key
                    > key,
    {
        let ghost pads = self@.pads;
        let mut at: usize = 0;
        while at < self.pads.len() && self.pads[at].key < key
            invariant
                at <= self.pads@.len(),
                pads == pad_states(self.pads@),
                forall|i: int| 0 <= i < at ==> (#[trigger] pads[i]).key < key,
            decreases self.pads@.len() - at,
        {
            assert(pads[at as int].key < key);
            at = at + 1;
        }
        proof {
            if at < self.pads@.len() {
                assert(pads[at as int].key >= key);
            }
            lemma_place(pads, key, at as int);
        }
        let found = at < self.pads.len() && self.pads[at].key == key;
        proof {
            if found {
                assert(pads[at as int].key == key);
            } else {
                assert forall|i: int| at <= i < pads.len() implies (#[trigger] pads[i]).key
                    > key by {
                    assert(pads[at as int].key > key);
                    if i > at {
                        assert(pads[at as int].key < pads[i].key);
                    }
                }
            }
        }
        (at, found)
    }

    /// Takes note of a controller that has been connected.
    pub fn pad_connected(&mut self, key: u32, route_id: String, name: String, mapping: String)
        requires
            old(self).wf(),
        ensures
            final(self).wf(),
            final(self)@ == pad_added(old(self)@, key, route_id@, name@, mapping@),
    {
        let (at, found) = self.find(key);
        let ghost before = self@.pads;
        let pad = TrackedPad {
            key,
            name: name.clone(),
            route_id: route_id.clone(),
            previous_mode_button: false,
        };
        let ghost added = PadState { key, name: name@, route_id: route_id@, mode_button: false };
        let ghost notices = self@.notices;
        self.routing.connect(route_id, name.clone());
        if found {
            self.pads.set(at, pad);
        } else {
            self.pads.insert(at, pad);
        }
        self.pending_notices.push(InputNotice::Connected { name, mapping });
        proof {
            let after = pad_states(self.pads@);
            assert(after =~= with_pad(before, added));
            assert forall|i: int, j: int| 0 <= i < j < after.len() implies (#[trigger] after[i]).key
                < (#[trigger] after[j]).key by {
                if found {
                    assert(before[i].key == after[i].key);
                    assert(before[j].key == after[j].key);
                } else {
                    if i < at {
                        assert(after[i] == before[i]);
                    } else if i > at {
                        assert(after[i] == before[i - 1]);
                    }
                    if j < at {
                        assert(after[j] == before[j]);
                    } else if j > at {
                        assert(after[j] == before[j - 1]);
                    }
                }
            }
            assert(self@.notices =~= notices.push(
                NoticeText::Connected { name: name@, mapping: mapping@ },
            ));
        }
    }

    /// Takes note of a controller that has been disconnected.
    pub fn pad_disconnected(&mut self, key: u32)
        requires
            old(self).wf(),
        ensures
            final(self).wf(),
            final(self)@ == pad_dropped(old(self)@, key),
    {
        let (at, found) = self.find(key);
        let ghost before = self@.pads;
        let ghost notices = self@.notices;
        if found {
            let pad = self.pads.remove(at);
            assert(before[at as int] == pad.state());
            self.routing.disconnect(pad.route_id.as_str());
            let name = pad.name;
            self.pending_notices.push(InputNotice::Disconnected { name });
            proof {
                let after = pad_states(self.pads@);
                assert(after =~= before.remove(at as int));
                assert forall|i: int, j: int| 0 <= i < j < after.len() implies (
                #[trigger] after[i]).key < (#[trigger] after[j]).key by {
                    let x = if i < at { i } else { i + 1 };
                    let y = if j < at { j } else { j + 1 };
                    assert(after[i] == before[x]);
                    assert(after[j] == before[y]);
                }
                assert(self@.notices =~= notices.push(NoticeText::Disconnected { name: name@ }));
            }
        }
    }

    /// Reads the samples of one frame, and hands out the notices that came in
    /// since the last one.
    pub fn poll(&mut self, samples: &Vec<PadSample>) -> (frame: InputFrame)
        requires
            old(self).wf(),
        ensures
            final(self).wf(),
            final(self)@ == polled(old(self)@, samples@),
            notice_list(frame.notices@) == old(self)@.notices,
            frame == frame_of(old(self)@, samples@, frame.notices),
    {
        let ghost state = self@;
        let mut notices: Vec<InputNotice> = Vec::new();
        std::mem::swap(&mut notices, &mut self.pending_notices);
        let mut frame = InputFrame::new(notices);
        let ghost kept = frame.notices;
        let ghost idle = frame;
        assert(notice_list(self.pending_notices@) =~= Seq::<NoticeText>::empty());
        let mut merged: u16 = 0;
        let mut number: usize = 0;
        while number < samples.len()
            invariant
                number <= samples@.len(),
                self.wf(),
                self.previous_mask == state.previous_mask,
                self.previous_chord == state.previous_chord,
                notice_list(self.pending_notices@) == Seq::<NoticeText>::empty(),
                ({
                    let now = sampled(state, samples@, number as int);
                    &&& merged == now.mask
                    &&& self@.pads == now.pads
                    &&& self@.routes == now.routes
                    &&& self@.changes == now.changes
                    &&& frame == (InputFrame {
                        port1: now.port1,
                        port2: now.port2,
                        analog_button: now.analog_button,
                        sticks_from: now.first,
                        ..idle
                    })
                }),
            decreases samples@.len() - number,
        {
            let sample = samples[number];
            let (at, found) = self.find(sample.key);
            let ghost so_far = sampled(state, samples@, number as int);
            let ghost before = self@.pads;
            if found {
                assert(before[at as int] == self.pads@[at as int].state());
                merged = merged | sample.mask;
                if frame.sticks_from.is_none() {
                    frame.sticks_from = Some(number);
                }
                match self.routing.port_for(self.pads[at].route_id.as_str()) {
                    PsxPort::One => {
                        frame.port1.merge(number, sample);
                    },
                    PsxPort::Two => {
                        frame.port2.merge(number, sample);
                    },
                    PsxPort::Off => {},
                }
                if sample.mode_down && !self.pads[at].previous_mode_button {
                    let ignored = self.routing.toggle_analog(self.pads[at].route_id.as_str());
                    frame.analog_button = true;
                }
                self.pads[at].previous_mode_button = sample.mode_down;
                proof {
                    let after = self@.pads;
                    let pad = before[at as int];
                    assert(after =~= before.update(
                        at as int,
                        PadState { mode_button: sample.mode_down, ..pad },
                    ));
                    assert forall|i: int, j: int| 0 <= i < j < after.len() implies (
                    #[trigger] after[i]).key < (#[trigger] after[j]).key by {
                        assert(before[i].key == after[i].key);
                        assert(before[j].key == after[j].key);
                    }
                }
            }
            assert(sampled(state, samples@, number + 1) == one_more(so_far, sample, number));
            number = number + 1;
        }
        finish_frame(&mut frame, &mut self.previous_mask, &mut self.previous_chord, merged);
        frame
    }

    /// Follows the controllers that a browser lists now: those gone are
    /// disconnected, then those new are connected.
    pub fn sync_web(&mut self, listed: &Vec<WebPad>)
        requires
            old(self).wf(),
        ensures
            final(self).wf(),
            final(self)@ == web_synced(old(self)@, listed@),
    {
        let ghost state = self@;
        let mut keys: Vec<u32> = Vec::new();
        let mut i: usize = 0;
        while i < self.pads.len()
            invariant
                *self == *old(self),
                i <= self.pads@.len(),
                keys@ == pad_keys(self@.pads).take(i as int),
            decreases self.pads@.len() - i,
        {
            keys.push(self.pads[i].key);
            assert(pad_keys(self@.pads).take(i + 1) =~= pad_keys(self@.pads).take(i as int).push(
                self.pads@[i as int].key,
            ));
            i = i + 1;
        }
        assert(keys@ =~= pad_keys(state.pads));
        let mut k: usize = 0;
        while k < keys.len()
            invariant
                self.wf(),
                k <= keys@.len(),
                keys@ == pad_keys(state.pads),
                self@ == stale_dropped(state, keys@, listed@, k as int),
            decreases keys@.len() - k,
        {
            if !lists_pad(listed, keys[k]) {
                self.pad_disconnected(keys[k]);
            }
            k = k + 1;
        }
        let ghost dropped = self@;
        let mut n: usize = 0;
        while n < listed.len()
            invariant
                self.wf(),
                n <= listed@.len(),
                self@ == fresh_added(dropped, listed@, n as int),
            decreases listed@.len() - n,
        {
            let (_, found) = self.find(listed[n].index);
            if !found {
                let mut route_id = String::from_str("web:");
                push_decimal(&mut route_id, listed[n].index as u64);
                self.pad_connected(
                    listed[n].index,
                    route_id,
                    listed[n].name.clone(),
                    String::from_str("web standard mapping"),
                );
            }
            n = n + 1;
        }
    }

    /// Whether a controller is connected.
    pub fn is_connected(&self) -> (result: bool)
        ensures
            result == (self@.pads.len() > 0),
    {
        self.pads.len() > 0
    }

    /// The names of the controllers in dictionary order, separated by commas.
    pub fn connected_names(&self) -> (names: String)
        ensures
            exists|sorted: Seq<Seq<char>>| #[trigger]
                in_order(sorted) && sorted.to_multiset() == pad_names(self@.pads).to_multiset()
                    && names@ == joined(sorted, ", "@),
    {
        let mut names: Vec<String> = Vec::new();
        let mut i: usize = 0;
        while i < self.pads.len()
            invariant
                i <= self.pads@.len(),
                texts(names@) == pad_names(self@.pads).take(i as int),
            decreases self.pads@.len() - i,
        {
            let ghost before = names@;
            names.push(self.pads[i].name.clone());
            assert(texts(names@) =~= texts(before).push(self.pads@[i as int].name@));
            assert(pad_names(self@.pads).take(i + 1) =~= pad_names(self@.pads).take(i as int).push(
                self.pads@[i as int].name@,
            ));
            i = i + 1;
        }
        assert(pad_names(self@.pads).take(i as int) =~= pad_names(self@.pads));
        let sorted = sort_texts(&names);
        assert(in_order(texts(sorted@)));
        join_texts(&sorted, ", ")
    }

    /// Every device with its port.
    pub fn devices(&self) -> (devices: Vec<InputDeviceInfo>)
        requires
            self.wf(),
        ensures
            ordered(devices@),
            route_map(devices@) == self@.routes,
    {
        self.routing.devices()
    }

    /// Moves a device to a port. Tells whether anything changed.
    pub fn set_device_port(&mut self, id: &str, port: PsxPort) -> (changed: bool)
        requires
            old(self).wf(),
        ensures
            final(self).wf(),
            changed == (old(self)@.routes.contains_key(id@) && old(self)@.routes[id@].port
                != port),
            final(self)@ == if changed {
                RouterState {
                    routes: moved(old(self)@.routes, id@, port),
                    changes: bumped(old(self)@.changes),
                    ..old(self)@
                }
            } else {
                old(self)@
            },
    {
        self.routing.set_port(id, port)
    }

    /// Chooses the digital or the analog controller for a device. Tells
    /// whether anything changed.
    pub fn set_device_analog(&mut self, id: &str, analog: bool) -> (changed: bool)
        requires
            old(self).wf(),
        ensures
            final(self).wf(),
            changed == (old(self)@.routes.contains_key(id@) && old(self)@.routes[id@].analog
                != analog),
            final(self)@ == if changed {
                RouterState {
                    routes: old(self)@.routes.insert(
                        id@,
                        Route { analog, ..old(self)@.routes[id@] },
                    ),
                    changes: bumped(old(self)@.changes),
                    ..old(self)@
                }
            } else {
                old(self)@
            },
    {
        self.routing.set_analog(id, analog)
    }

    /// Swaps the digital and the analog controller of the keyboard, and gives
    /// the new choice.
    pub fn toggle_keyboard_analog(&mut self) -> (analog: bool)
        requires
            old(self).wf(),
        ensures
            final(self).wf(),
            analog == !old(self)@.routes[KEYBOARD_DEVICE_ID@].analog,
            final(self)@ == (RouterState {
                routes: analog_toggled(old(self)@.routes, KEYBOARD_DEVICE_ID@),
                changes: bumped(old(self)@.changes),
                ..old(self)@
            }),
    {
        proof {
            self.routing.lemma_wf();
        }
        self.routing.toggle_analog(KEYBOARD_DEVICE_ID)
    }

    /// Where the keyboard plays.
    pub fn keyboard_port(&self) -> (port: PsxPort)
        requires
            self.wf(),
        ensures
            port == self@.routes[KEYBOARD_DEVICE_ID@].port,
    {
        self.routing.keyboard_port()
    }

    /// Counter of the changes to the routes.
    pub fn routing_generation(&self) -> (generation: u64)
        ensures
            generation == self@.changes,
    {
        self.routing.generation()
    }

    /// What becomes of both guest ports.
    pub fn apply_layout(&self) -> (setups: (PortSetup, PortSetup))
        requires
            self.wf(),
        ensures
            port_holds(self@.routes, PsxPort::One, setups.0),
            port_holds(self@.routes, PsxPort::Two, setups.1),
    {
        let one = self.routing.profile_for(PsxPort::One);
        let two = self.routing.profile_for(PsxPort::Two);
        (configure_port(PsxPort::One, one), configure_port(PsxPort::Two, two))
    }
}

/// A guest port gets the controller of the device that plays there, and none
/// if nobody does.
pub open spec fn port_holds(
    routes: Map<Seq<char>, Route>,
    port: PsxPort,
    setup: PortSetup,
) -> bool {
    &&& !occupied(routes, port) ==> setup == PortSetup::Detach
    &&& forall|k: Seq<char>| #[trigger]
        routes.contains_key(k) && routes[k].port == port ==> setup == port_setup(
            port,
            Some(routes[k].analog),
        )
}

/// A controller that a browser lists.
#[derive(Debug)]
pub struct WebPad {
    pub index: u32,
    pub name: String,
}

/// A browser lists the controller.
pub open spec fn is_listed(listed: Seq<WebPad>, key: u32) -> bool {
    exists|i: int| 0 <= i < listed.len() && (#[trigger] listed[i]).index == key
}

fn lists_pad(listed: &Vec<WebPad>, key: u32) -> (result: bool)
    ensures
        result == is_listed(listed@, key),
{
    let mut i: usize = 0;
    while i < listed.len()
        invariant
            i <= listed@.len(),
            forall|j: int| 0 <= j < i ==> (#[trigger] listed@[j]).index != key,
        decreases listed@.len() - i,
    {
        if listed[i].index == key {
            return true;
        }
        i = i + 1;
    }
    false
}

/// The numbers of some controllers.
pub open spec fn pad_keys(pads: Seq<PadState>) -> Seq<u32> {
    Seq::new(pads.len(), |i: int| pads[i].key)
}

/// The names of some controllers.
pub open spec fn pad_names(pads: Seq<PadState>) -> Seq<Seq<char>> {
    Seq::new(pads.len(), |i: int| pads[i].name)
}

/// The router once those of the first controllers are dropped that a browser
/// no longer lists.
pub open spec fn stale_dropped(
    state: RouterState,
    keys: Seq<u32>,
    listed: Seq<WebPad>,
    count: int,
) -> RouterState
    decreases count,
{
    if count <= 0 {
        state
    } else {
        let so_far = stale_dropped(state, keys, listed, count - 1);
        if is_listed(listed, keys[count - 1]) {
            so_far
        } else {
            pad_dropped(so_far, keys[count - 1])
        }
    }
}

/// The router once those of the first listed controllers are added that it
/// does not know.
pub open spec fn fresh_added(state: RouterState, listed: Seq<WebPad>, count: int) -> RouterState
    decreases count,
{
    if count <= 0 {
        state
    } else {
        let so_far = fresh_added(state, listed, count - 1);
        let pad = listed[count - 1];
        if is_tracked(so_far.pads, pad.index) {
            so_far
        } else {
            pad_added(
                so_far,
                pad.index,
                "web:"@ + decimal(pad.index as nat),
                pad.name@,
                "web standard mapping"@,
            )
        }
    }
}

/// The router once it follows what a browser lists.
pub open spec fn web_synced(state: RouterState, listed: Seq<WebPad>) -> RouterState {
    let keys = pad_keys(state.pads);
    fresh_added(
        stale_dropped(state, keys, listed, keys.len() as int),
        listed,
        listed.len() as int,
    )
}

/// A sampled controller that plays on no port reaches neither guest port.
pub proof fn law_unrouted_pad_is_not_heard(so_far: Sampling, sample: PadSample, number: usize)
    requires
        is_tracked(so_far.pads, sample.key),
        port_of(so_far.routes, so_far.pads[place_of(so_far.pads, sample.key)].route_id)
            == PsxPort::Off,
    ensures
        one_more(so_far, sample, number).port1 == so_far.port1,
        one_more(so_far, sample, number).port2 == so_far.port2,
        one_more(so_far, sample, number).mask == so_far.mask | sample.mask,
{
}

/// Sampling moves no device to another port.
pub proof fn law_sampling_keeps_ports(
    state: RouterState,
    samples: Seq<PadSample>,
    count: int,
    id: Seq<char>,
)
    ensures
        port_of(sampled(state, samples, count).routes, id) == port_of(state.routes, id),
    decreases count,
{
    if count > 0 {
        law_sampling_keeps_ports(state, samples, count - 1, id);
    }
}

proof fn lemma_found(pads: Seq<PadState>, i: int)
    requires
        rising(pads),
        0 <= i < pads.len(),
    ensures
        place_of(pads, pads[i].key) == i,
        is_tracked(pads, pads[i].key),
{
    lemma_place(pads, pads[i].key, i);
}

/// The place where a controller goes lies behind those of lower numbers.
proof fn lemma_gap(pads: Seq<PadState>, key: u32)
    requires
        rising(pads),
    ensures
        0 <= place_of(pads, key) <= pads.len(),
        forall|i: int| 0 <= i < place_of(pads, key) ==> (#[trigger] pads[i]).key < key,
        forall|i: int| place_of(pads, key) <= i < pads.len() ==> (#[trigger] pads[i]).key >= key,
    decreases pads.len(),
{
    if pads.len() == 0 || pads[0].key >= key {
        assert forall|i: int| 0 <= i < pads.len() implies (#[trigger] pads[i]).key >= key by {
            if i > 0 {
                assert(pads[0].key < pads[i].key);
            }
        }
    } else {
        let rest = pads.drop_first();
        assert(rising(rest)) by {
            assert forall|i: int, j: int| 0 <= i < j < rest.len() implies (#[trigger] rest[i]).key
                < (#[trigger] rest[j]).key by {
                assert(rest[i] == pads[i + 1] && rest[j] == pads[j + 1]);
            }
        }
        lemma_gap(rest, key);
        assert forall|i: int| 0 <= i < place_of(pads, key) implies (#[trigger] pads[i]).key
            < key by {
            if i > 0 {
                assert(rest[i - 1] == pads[i]);
            }
        }
        assert forall|i: int| place_of(pads, key) <= i < pads.len() implies (
        #[trigger] pads[i]).key >= key by {
            assert(rest[i - 1] == pads[i]);
        }
    }
}

/// A controller that is added is connected, under its own name and with no mode
/// button held; everybody else stays, and the order by number is kept.
pub proof fn law_added_controllers_are_connected(pads: Seq<PadState>, pad: PadState, key: u32)
    requires
        rising(pads),
    ensures
        ({
            let after = with_pad(pads, pad);
            &&& rising(after)
            &&& after[place_of(after, pad.key)] == pad
            &&& is_tracked(after, key) <==> is_tracked(pads, key) || key == pad.key
            &&& is_tracked(pads, key) && key != pad.key ==> after[place_of(after, key)]
                == pads[place_of(pads, key)]
        }),
{
    let at = place_of(pads, pad.key);
    let after = with_pad(pads, pad);
    lemma_gap(pads, pad.key);
    if is_tracked(pads, pad.key) {
        let i = choose|i: int| 0 <= i < pads.len() && (#[trigger] pads[i]).key == pad.key;
        lemma_found(pads, i);
        assert forall|i: int| 0 <= i < after.len() implies (#[trigger] after[i]).key
            == pads[i].key by {}
        assert(rising(after));
        lemma_found(after, at);
        if is_tracked(pads, key) {
            let k = choose|k: int| 0 <= k < pads.len() && (#[trigger] pads[k]).key == key;
            lemma_found(pads, k);
            assert(after[k].key == key);
            lemma_found(after, k);
        }
        if is_tracked(after, key) {
            let k = choose|k: int| 0 <= k < after.len() && (#[trigger] after[k]).key == key;
            assert(pads[k].key == key);
        }
    } else {
        assert forall|i: int| at <= i < pads.len() implies (#[trigger] pads[i]).key > pad.key by {
            assert(pads[i].key != pad.key);
        }
        assert(rising(after)) by {
            assert forall|i: int, j: int| 0 <= i < j < after.len() implies (#[trigger] after[i]).key
                < (#[trigger] after[j]).key by {
                if i < at {
                    assert(after[i] == pads[i]);
                } else if i > at {
                    assert(after[i] == pads[i - 1]);
                }
                if j < at {
                    assert(after[j] == pads[j]);
                } else if j > at {
                    assert(after[j] == pads[j - 1]);
                }
            }
        }
        assert(after[at] == pad);
        lemma_found(after, at);
        if is_tracked(pads, key) {
            let k = choose|k: int| 0 <= k < pads.len() && (#[trigger] pads[k]).key == key;
            lemma_found(pads, k);
            let now = if k < at { k } else { k + 1 };
            assert(after[now] == pads[k]);
            lemma_found(after, now);
        }
        if is_tracked(after, key) && key != pad.key {
            let k = choose|k: int| 0 <= k < after.len() && (#[trigger] after[k]).key == key;
            let then = if k < at { k } else { k - 1 };
            assert(pads[then] == after[k]);
        }
    }
}

/// A controller that is disconnected is gone, the device that it played as is
/// disconnected too, and a notice names it; everybody else stays.
pub proof fn law_dropped_controllers_are_gone(state: RouterState, key: u32, other: u32)
    requires
        rising(state.pads),
    ensures
        ({
            let after = pad_dropped(state, key);
            &&& rising(after.pads)
            &&& !is_tracked(after.pads, key)
            &&& other != key ==> (is_tracked(after.pads, other) <==> is_tracked(state.pads, other))
            &&& is_tracked(state.pads, key) ==> {
                let pad = state.pads[place_of(state.pads, key)];
                &&& pad.key == key
                &&& after.routes == disconnected(state.routes, pad.route_id)
                &&& after.notices == state.notices.push(NoticeText::Disconnected { name: pad.name })
            }
            &&& !is_tracked(state.pads, key) ==> after == state
        }),
{
    let pads = state.pads;
    let after = pad_dropped(state, key).pads;
    if is_tracked(pads, key) {
        let at = choose|i: int| 0 <= i < pads.len() && (#[trigger] pads[i]).key == key;
        lemma_found(pads, at);
        assert forall|i: int, j: int| 0 <= i < j < after.len() implies (#[trigger] after[i]).key < (
        #[trigger] after[j]).key by {
            let x = if i < at { i } else { i + 1 };
            let y = if j < at { j } else { j + 1 };
            assert(after[i] == pads[x] && after[j] == pads[y]);
        }
        if is_tracked(after, key) {
            let k = choose|k: int| 0 <= k < after.len() && (#[trigger] after[k]).key == key;
            let then = if k < at { k } else { k + 1 };
            assert(pads[then] == after[k]);
            assert(then < at ==> pads[then].key < pads[at].key);
            assert(then > at ==> pads[at].key < pads[then].key);
        }
        if is_tracked(pads, other) && other != key {
            let k = choose|k: int| 0 <= k < pads.len() && (#[trigger] pads[k]).key == other;
            let now = if k < at { k } else { k - 1 };
            assert(after[now] == pads[k]);
        }
        if is_tracked(after, other) {
            let k = choose|k: int| 0 <= k < after.len() && (#[trigger] after[k]).key == other;
            let then = if k < at { k } else { k + 1 };
            assert(pads[then] == after[k]);
        }
    }
}

proof fn lemma_stale(state: RouterState, keys: Seq<u32>, listed: Seq<WebPad>, count: int, key: u32)
    requires
        rising(state.pads),
        0 <= count <= keys.len(),
    ensures
        rising(stale_dropped(state, keys, listed, count).pads),
        is_tracked(stale_dropped(state, keys, listed, count).pads, key) <==> is_tracked(
            state.pads,
            key,
        ) && (is_listed(listed, key) || !keys.take(count).contains(key)),
    decreases count,
{
    if count > 0 {
        lemma_stale(state, keys, listed, count - 1, key);
        let so_far = stale_dropped(state, keys, listed, count - 1);
        law_dropped_controllers_are_gone(so_far, keys[count - 1], key);
        assert(keys.take(count) =~= keys.take(count - 1).push(keys[count - 1]));
        assert(keys.take(count).contains(key) <==> keys.take(count - 1).contains(key) || key
            == keys[count - 1]) by {
            if keys.take(count - 1).contains(key) {
                let k = choose|k: int| 0 <= k < count - 1 && #[trigger] keys.take(count - 1)[k] == key;
                assert(keys.take(count)[k] == key);
            }
            if key == keys[count - 1] {
                assert(keys.take(count)[count - 1] == key);
            }
        }
    }
}

proof fn lemma_fresh(state: RouterState, listed: Seq<WebPad>, count: int, key: u32)
    requires
        rising(state.pads),
        0 <= count <= listed.len(),
    ensures
        rising(fresh_added(state, listed, count).pads),
        is_tracked(fresh_added(state, listed, count).pads, key) <==> is_tracked(state.pads, key)
            || is_listed(listed.take(count), key),
    decreases count,
{
    if count > 0 {
        lemma_fresh(state, listed, count - 1, key);
        let so_far = fresh_added(state, listed, count - 1);
        let pad = listed[count - 1];
        let added = PadState {
            key: pad.index,
            name: pad.name@,
            route_id: "web:"@ + decimal(pad.index as nat),
            mode_button: false,
        };
        law_added_controllers_are_connected(so_far.pads, added, key);
        let upto = listed.take(count);
        let before = listed.take(count - 1);
        if is_listed(before, key) {
            let k = choose|k: int| 0 <= k < before.len() && (#[trigger] before[k]).index == key;
            assert(upto[k].index == key);
        }
        if key == pad.index {
            assert(upto[count - 1].index == key);
        }
        if is_listed(upto, key) && key != pad.index {
            let k = choose|k: int| 0 <= k < upto.len() && (#[trigger] upto[k]).index == key;
            assert(before[k].index == key);
        }
    }
}

/// Once the router follows a browser, the connected controllers are exactly
/// those that the browser lists.
pub proof fn law_browser_lists_the_connected_controllers(
    state: RouterState,
    listed: Seq<WebPad>,
    key: u32,
)
    requires
        rising(state.pads),
    ensures
        is_tracked(web_synced(state, listed).pads, key) <==> is_listed(listed, key),
        rising(web_synced(state, listed).pads),
{
    let keys = pad_keys(state.pads);
    lemma_stale(state, keys, listed, keys.len() as int, key);
    let left = stale_dropped(state, keys, listed, keys.len() as int);
    lemma_fresh(left, listed, listed.len() as int, key);
    assert(listed.take(listed.len() as int) =~= listed);
    assert(keys.take(keys.len() as int) =~= keys);
    if is_tracked(state.pads, key) {
        let k = choose|k: int| 0 <= k < state.pads.len() && (#[trigger] state.pads[k]).key == key;
        assert(keys[k] == key);
    }
}

/// Nothing of who is connected, and as what, changes while sampling.
proof fn lemma_sampled_pads(state: RouterState, samples: Seq<PadSample>, count: int, key: u32)
    requires
        rising(state.pads),
        0 <= count <= samples.len(),
    ensures
        ({
            let pads = sampled(state, samples, count).pads;
            &&& rising(pads)
            &&& is_tracked(pads, key) <==> is_tracked(state.pads, key)
            &&& is_tracked(state.pads, key) ==> pads[place_of(pads, key)].route_id
                == state.pads[place_of(state.pads, key)].route_id
        }),
    decreases count,
{
    if count > 0 {
        lemma_sampled_pads(state, samples, count - 1, key);
        let so_far = sampled(state, samples, count - 1);
        let pads = so_far.pads;
        let sample = samples[count - 1];
        if is_tracked(pads, sample.key) {
            let at = choose|i: int| 0 <= i < pads.len() && (#[trigger] pads[i]).key == sample.key;
            lemma_found(pads, at);
            let noted = PadState { mode_button: sample.mode_down, ..pads[at] };
            assert(with_pad(pads, noted) == sampled(state, samples, count).pads);
            law_added_controllers_are_connected(pads, noted, key);
        }
    }
}

/// Every sample of a connected controller is heard: its buttons are in the mask
/// of the frame and in that of the port where its device plays.
pub proof fn law_samples_reach_their_port(
    state: RouterState,
    samples: Seq<PadSample>,
    count: int,
    i: int,
)
    requires
        rising(state.pads),
        0 <= i < count <= samples.len(),
        is_tracked(state.pads, samples[i].key),
    ensures
        ({
            let all = sampled(state, samples, count);
            let held = samples[i].mask;
            let pad = state.pads[place_of(state.pads, samples[i].key)];
            &&& all.mask & held == held
            &&& all.first is Some
            &&& port_of(state.routes, pad.route_id) == PsxPort::One ==> all.port1.mask & held == held
            &&& port_of(state.routes, pad.route_id) == PsxPort::Two ==> all.port2.mask & held == held
        }),
    decreases count,
{
    let so_far = sampled(state, samples, count - 1);
    let held = samples[i].mask;
    let more = samples[count - 1].mask;
    if i < count - 1 {
        law_samples_reach_their_port(state, samples, count - 1, i);
    } else {
        lemma_sampled_pads(state, samples, count - 1, samples[i].key);
        let pad = state.pads[place_of(state.pads, samples[i].key)];
        law_sampling_keeps_ports(state, samples, count - 1, pad.route_id);
    }
    lemma_held_stays(so_far.mask, more, held);
    lemma_held_stays(so_far.port1.mask, more, held);
    lemma_held_stays(so_far.port2.mask, more, held);
}

proof fn lemma_held_stays(mask: u16, more: u16, held: u16)
    ensures
        mask & held == held || more == held ==> (mask | more) & held == held,
{
    assert((mask & held == held || more == held) ==> (mask | more) & held == held) by (bit_vector);
}

/// A mode button swaps the controller of its device when it goes down, not while
/// it is held or when it comes up.
pub proof fn law_mode_button_swaps_once(so_far: Sampling, sample: PadSample, number: usize)
    requires
        rising(so_far.pads),
        is_tracked(so_far.pads, sample.key),
    ensures
        ({
            let pad = so_far.pads[place_of(so_far.pads, sample.key)];
            let after = one_more(so_far, sample, number);
            let again = one_more(after, sample, number);
            &&& sample.mode_down && !pad.mode_button ==> after.routes == analog_toggled(
                so_far.routes,
                pad.route_id,
            ) && after.analog_button
            &&& !sample.mode_down ==> after.routes == so_far.routes && after.changes
                == so_far.changes
            &&& again.routes == after.routes && again.changes == after.changes
        }),
{
    let at = choose|i: int|
        0 <= i < so_far.pads.len() && (#[trigger] so_far.pads[i]).key == sample.key;
    lemma_found(so_far.pads, at);
    let noted = PadState { mode_button: sample.mode_down, ..so_far.pads[at] };
    assert(with_pad(so_far.pads, noted) == one_more(so_far, sample, number).pads);
    law_added_controllers_are_connected(so_far.pads, noted, sample.key);
}

/// A frame hands the notices over, and the next one begins with what is held
/// now.
pub proof fn law_frames_follow_each_other(
    state: RouterState,
    samples: Seq<PadSample>,
    notices: Vec<InputNotice>,
    next: Vec<InputNotice>,
)
    ensures
        ({
            let frame = frame_of(state, samples, notices);
            let after = polled(state, samples);
            &&& frame.notices == notices
            &&& after.notices.len() == 0
            &&& after.previous_mask == sampled(state, samples, samples.len() as int).mask
            &&& frame.toggle_menu ==> after.previous_chord
            &&& after.previous_chord ==> frame.toggle_menu || state.previous_chord
        }),
{
}

/// Nothing is heard that no sample holds: a button that no controller holds is
/// held on no port, and without samples nothing is.
pub proof fn law_nothing_is_heard_that_is_not_held(
    state: RouterState,
    samples: Seq<PadSample>,
    count: int,
    bits: u16,
)
    requires
        0 <= count <= samples.len(),
        forall|i: int| 0 <= i < count ==> (#[trigger] samples[i]).mask & bits == 0,
    ensures
        ({
            let all = sampled(state, samples, count);
            &&& all.mask & bits == 0 && all.port1.mask & bits == 0 && all.port2.mask & bits == 0
            &&& count == 0 ==> all.first is None && !all.analog_button
        }),
        sampled(state, samples, 0).mask == 0,
        sampled(state, samples, 0).port1 == RoutedPadInput::spec_idle(),
        sampled(state, samples, 0).port2 == RoutedPadInput::spec_idle(),
        RoutedPadInput::spec_idle().mask == 0,
    decreases count,
{
    assert(0u16 & bits == 0) by (bit_vector);
    if count > 0 {
        law_nothing_is_heard_that_is_not_held(state, samples, count - 1, bits);
        let so_far = sampled(state, samples, count - 1);
        let more = samples[count - 1].mask;
        lemma_none_of(so_far.mask, more, bits);
        lemma_none_of(so_far.port1.mask, more, bits);
        lemma_none_of(so_far.port2.mask, more, bits);
    }
}

proof fn lemma_none_of(a: u16, b: u16, bits: u16)
    requires
        a & bits == 0,
        b & bits == 0,
    ensures
        (a | b) & bits == 0,
{
    assert((a | b) & bits == 0) by (bit_vector)
        requires
            a & bits == 0,
            b & bits == 0,
    ;
}

} // verus!

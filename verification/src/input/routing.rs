//! Which host device plays on which controller port.
//!
//! The keyboard is always listed, and no two devices share a guest port.

use crate::text::{
    comes_before, is_before, lemma_order_total, lemma_order_transitive, same_text,
};
use vstd::prelude::*;

verus! {

/// Identity of the keyboard.
pub const KEYBOARD_DEVICE_ID: &'static str = "keyboard";

/// Where a host device plays.
#[derive(Clone, Copy, Debug, PartialEq, Eq, Structural)]
pub enum PsxPort {
    /// The guest does not see the device.
    Off,
    One,
    Two,
}

impl PsxPort {
    /// Short name of the port.
    pub fn label(self) -> (result: &'static str)
        ensures
            result@ == match self {
                PsxPort::Off => "Off"@,
                PsxPort::One => "Port 1"@,
                PsxPort::Two => "Port 2"@,
            },
    {
        match self {
            PsxPort::Off => "Off",
            PsxPort::One => "Port 1",
            PsxPort::Two => "Port 2",
        }
    }
}

/// One listed device.
#[derive(Debug)]
pub struct InputDeviceInfo {
    pub id: String,
    pub name: String,
    pub port: PsxPort,
    /// The guest sees an analog controller instead of a digital one.
    pub analog: bool,
}

/// What is known of a device.
pub struct Route {
    pub name: Seq<char>,
    pub port: PsxPort,
    pub analog: bool,
}

impl InputDeviceInfo {
    /// What is known of the device.
    pub open spec fn route(self) -> Route {
        Route { name: self.name@, port: self.port, analog: self.analog }
    }
}

/// Every host device with its port, ordered by identity.
#[derive(Debug)]
pub struct RoutingTable {
    entries: Vec<InputDeviceInfo>,
    generation: u64,
}

/// Devices in the order of their identities, none listed twice.
pub open spec fn ordered(entries: Seq<InputDeviceInfo>) -> bool {
    forall|i: int, j: int|
        0 <= i < j < entries.len() ==> comes_before(
            (#[trigger] entries[i]).id@,
            (#[trigger] entries[j]).id@,
        )
}

/// The devices by identity.
pub open spec fn route_map(entries: Seq<InputDeviceInfo>) -> Map<Seq<char>, Route>
    decreases entries.len(),
{
    if entries.len() == 0 {
        Map::empty()
    } else {
        route_map(entries.drop_last()).insert(entries.last().id@, entries.last().route())
    }
}

proof fn lemma_route_map(entries: Seq<InputDeviceInfo>)
    requires
        ordered(entries),
    ensures
        forall|i: int|
            0 <= i < entries.len() ==> route_map(entries).contains_key((#[trigger] entries[i]).id@)
                && route_map(entries)[entries[i].id@] == entries[i].route(),
        forall|k: Seq<char>| #[trigger]
            route_map(entries).contains_key(k) ==> exists|i: int|
                0 <= i < entries.len() && (#[trigger] entries[i]).id@ == k,
    decreases entries.len(),
{
    if entries.len() > 0 {
        let rest = entries.drop_last();
        assert(ordered(rest)) by {
            assert forall|i: int, j: int| 0 <= i < j < rest.len() implies comes_before(
                (#[trigger] rest[i]).id@,
                (#[trigger] rest[j]).id@,
            ) by {
                assert(rest[i] == entries[i] && rest[j] == entries[j]);
            }
        }
        lemma_route_map(rest);
        let last = entries.len() - 1;
        assert forall|i: int| 0 <= i < entries.len() implies route_map(entries).contains_key(
            (#[trigger] entries[i]).id@,
        ) && route_map(entries)[entries[i].id@] == entries[i].route() by {
            if i < last {
                assert(rest[i] == entries[i]);
                assert(comes_before(entries[i].id@, entries[last].id@));
                lemma_order_total(entries[i].id@, entries[i].id@);
            }
        }
        assert forall|k: Seq<char>| #[trigger] route_map(entries).contains_key(k) implies exists|
            i: int,
        |
            0 <= i < entries.len() && (#[trigger] entries[i]).id@ == k by {
            if k == entries[last].id@ {
            } else {
                assert(route_map(rest).contains_key(k));
                let i = choose|i: int| 0 <= i < rest.len() && (#[trigger] rest[i]).id@ == k;
                assert(entries[i].id@ == k);
            }
        }
    }
}

/// Devices that fit a map are that map.
proof fn lemma_same_map(entries: Seq<InputDeviceInfo>, routes: Map<Seq<char>, Route>)
    requires
        ordered(entries),
        forall|i: int|
            0 <= i < entries.len() ==> routes.contains_key((#[trigger] entries[i]).id@)
                && routes[entries[i].id@] == entries[i].route(),
        forall|k: Seq<char>| #[trigger]
            routes.contains_key(k) ==> exists|i: int|
                0 <= i < entries.len() && (#[trigger] entries[i]).id@ == k,
    ensures
        route_map(entries) == routes,
{
    lemma_route_map(entries);
    assert(route_map(entries) =~= routes) by {
        assert forall|k: Seq<char>| #[trigger] route_map(entries).contains_key(
            k,
        ) == routes.contains_key(k) by {
            if routes.contains_key(k) {
                let i = choose|i: int| 0 <= i < entries.len() && (#[trigger] entries[i]).id@ == k;
                assert(route_map(entries).contains_key(entries[i].id@));
            }
        }
        assert forall|k: Seq<char>| #[trigger] routes.contains_key(k) implies route_map(
            entries,
        )[k] == routes[k] by {
            let i = choose|i: int| 0 <= i < entries.len() && (#[trigger] entries[i]).id@ == k;
            assert(routes[entries[i].id@] == entries[i].route());
        }
    }
}

/// A device plays on a port.
pub open spec fn occupied(routes: Map<Seq<char>, Route>, port: PsxPort) -> bool {
    exists|k: Seq<char>| #[trigger] routes.contains_key(k) && routes[k].port == port
}

/// No two devices play on the same guest port.
pub open spec fn ports_unique(routes: Map<Seq<char>, Route>) -> bool {
    forall|a: Seq<char>, b: Seq<char>|
        #[trigger] routes.contains_key(a) && #[trigger] routes.contains_key(b) && a != b
            && routes[a].port == routes[b].port ==> routes[a].port == PsxPort::Off
}

/// The devices with everyone but one taken off a guest port.
pub open spec fn port_cleared(
    routes: Map<Seq<char>, Route>,
    port: PsxPort,
    except: Seq<char>,
) -> Map<Seq<char>, Route> {
    Map::new(
        |k: Seq<char>| routes.contains_key(k),
        |k: Seq<char>|
            if k != except && routes[k].port == port && port != PsxPort::Off {
                Route { port: PsxPort::Off, ..routes[k] }
            } else {
                routes[k]
            },
    )
}

/// The port of a device that is connected now: the first controller plays on
/// port one, the next on port two if that is free.
pub open spec fn arrival_port(routes: Map<Seq<char>, Route>) -> PsxPort {
    if forall|k: Seq<char>| #[trigger] routes.contains_key(k) ==> k == KEYBOARD_DEVICE_ID@ {
        PsxPort::One
    } else if !occupied(routes, PsxPort::Two) {
        PsxPort::Two
    } else {
        PsxPort::Off
    }
}

/// The devices once a device has been connected. A known device only gets its
/// new name.
pub open spec fn connected(routes: Map<Seq<char>, Route>, id: Seq<char>, name: Seq<char>) -> Map<
    Seq<char>,
    Route,
> {
    if routes.contains_key(id) {
        routes.insert(id, Route { name, ..routes[id] })
    } else {
        let port = arrival_port(routes);
        port_cleared(routes, port, id).insert(id, Route { name, port, analog: true })
    }
}

/// The devices once a device has been disconnected. The keyboard stays, and it
/// takes port one if nobody else plays there.
pub open spec fn disconnected(routes: Map<Seq<char>, Route>, id: Seq<char>) -> Map<Seq<char>, Route> {
    if id == KEYBOARD_DEVICE_ID@ || !routes.contains_key(id) {
        routes
    } else {
        let left = routes.remove(id);
        if occupied(left, PsxPort::One) {
            left
        } else {
            left.insert(
                KEYBOARD_DEVICE_ID@,
                Route { port: PsxPort::One, ..left[KEYBOARD_DEVICE_ID@] },
            )
        }
    }
}

/// The devices once a device has been moved to a port.
pub open spec fn moved(routes: Map<Seq<char>, Route>, id: Seq<char>, port: PsxPort) -> Map<
    Seq<char>,
    Route,
> {
    if !routes.contains_key(id) {
        routes
    } else {
        port_cleared(routes, port, id).insert(id, Route { port, ..routes[id] })
    }
}

/// Connecting keeps every guest port to one device.
pub proof fn law_connecting_keeps_ports_unique(
    routes: Map<Seq<char>, Route>,
    id: Seq<char>,
    name: Seq<char>,
)
    requires
        ports_unique(routes),
    ensures
        ports_unique(connected(routes, id, name)),
        connected(routes, id, name).contains_key(id),
{
}

/// Disconnecting keeps every guest port to one device, and leaves port one to
/// somebody as long as the keyboard is listed.
pub proof fn law_disconnecting_keeps_ports_unique(routes: Map<Seq<char>, Route>, id: Seq<char>)
    requires
        ports_unique(routes),
        routes.contains_key(KEYBOARD_DEVICE_ID@),
    ensures
        ports_unique(disconnected(routes, id)),
        disconnected(routes, id).contains_key(KEYBOARD_DEVICE_ID@),
        id != KEYBOARD_DEVICE_ID@ && routes.contains_key(id) ==> occupied(
            disconnected(routes, id),
            PsxPort::One,
        ),
{
    let after = disconnected(routes, id);
    if id != KEYBOARD_DEVICE_ID@ && routes.contains_key(id) {
        let left = routes.remove(id);
        if occupied(left, PsxPort::One) {
        } else {
            assert(after.contains_key(KEYBOARD_DEVICE_ID@));
            assert forall|a: Seq<char>, b: Seq<char>|
                #[trigger] after.contains_key(a) && #[trigger] after.contains_key(b) && a != b
                    && after[a].port == after[b].port implies after[a].port == PsxPort::Off by {
                assert(left.contains_key(a) && left.contains_key(b));
                assert(routes.contains_key(a) && routes.contains_key(b));
            }
        }
    }
}

/// Moving a device keeps every guest port to one device.
pub proof fn law_moving_keeps_ports_unique(
    routes: Map<Seq<char>, Route>,
    id: Seq<char>,
    port: PsxPort,
)
    requires
        ports_unique(routes),
    ensures
        ports_unique(moved(routes, id, port)),
        routes.contains_key(id) ==> moved(routes, id, port)[id].port == port,
{
}

impl RoutingTable {
    /// The devices by identity.
    pub closed spec fn view(&self) -> Map<Seq<char>, Route> {
        route_map(self.entries@)
    }

    /// The devices in the order of their identities.
    pub closed spec fn listed(&self) -> Seq<InputDeviceInfo> {
        self.entries@
    }

    /// Counter of the changes so far; it wraps.
    pub closed spec fn changes(&self) -> u64 {
        self.generation
    }

    /// Devices are listed once and in order, the keyboard is among them, and
    /// no two of them share a guest port.
    pub closed spec fn wf(&self) -> bool {
        &&& ordered(self.entries@)
        &&& route_map(self.entries@).contains_key(KEYBOARD_DEVICE_ID@)
        &&& ports_unique(route_map(self.entries@))
    }

    /// What the invariant says of the devices.
    pub proof fn lemma_wf(&self)
        requires
            self.wf(),
        ensures
            self@.contains_key(KEYBOARD_DEVICE_ID@),
            ports_unique(self@),
            ordered(self.listed()),
            forall|i: int|
                0 <= i < self.listed().len() ==> self@.contains_key(
                    (#[trigger] self.listed()[i]).id@,
                ) && self@[self.listed()[i].id@] == self.listed()[i].route(),
            forall|k: Seq<char>| #[trigger]
                self@.contains_key(k) ==> exists|i: int|
                    0 <= i < self.listed().len() && (#[trigger] self.listed()[i]).id@ == k,
    {
        lemma_route_map(self.entries@);
    }

    /// A table with the keyboard alone, on port one.
    pub fn new() -> (table: Self)
        ensures
            table.wf(),
            table@ == map![
                KEYBOARD_DEVICE_ID@ => (Route {
                    name: "Keyboard"@,
                    port: PsxPort::One,
                    analog: false,
                })
            ],
            table.changes() == 1,
    {
        let keyboard = InputDeviceInfo {
            id: String::from_str(KEYBOARD_DEVICE_ID),
            name: String::from_str("Keyboard"),
            port: PsxPort::One,
            analog: false,
        };
        let entries = vec![keyboard];
        proof {
            assert(entries@.drop_last() =~= Seq::<InputDeviceInfo>::empty());
            lemma_route_map(entries@);
            assert(route_map(entries@) =~= map![keyboard.id@ => keyboard.route()]);
        }
        RoutingTable { entries, generation: 1 }
    }

    /// Where a device is listed, or else where it would go.
    fn place_of(&self, id: &str) -> (result: (usize, bool))
        requires
            self.wf(),
        ensures
            result.0 <= self.entries@.len(),
            result.1 == self@.contains_key(id@),
            result.1 ==> result.0 < self.entries@.len() && self.entries@[result.0 as int].id@
                == id@,
            forall|i: int|
                0 <= i < result.0 ==> comes_before((#[trigger] self.entries@[i]).id@, id@),
            forall|i: int|
                result.0 <= i < self.entries@.len() && !result.1 ==> comes_before(
                    id@,
                    (#[trigger] self.entries@[i]).id@,
                ),
    {
        let mut i: usize = 0;
        while i < self.entries.len() && is_before(self.entries[i].id.as_str(), id)
            invariant
                i <= self.entries@.len(),
                forall|j: int|
                    0 <= j < i ==> comes_before((#[trigger] self.entries@[j]).id@, id@),
            decreases self.entries@.len() - i,
        {
            i = i + 1;
        }
        proof {
            lemma_route_map(self.entries@);
        }
        if i < self.entries.len() && same_text(self.entries[i].id.as_str(), id) {
            (i, true)
        } else {
            proof {
                assert forall|j: int| i <= j < self.entries@.len() implies comes_before(
                    id@,
                    (#[trigger] self.entries@[j]).id@,
                ) by {
                    lemma_order_total(self.entries@[i as int].id@, id@);
                    if i < j {
                        lemma_order_transitive(
                            id@,
                            self.entries@[i as int].id@,
                            self.entries@[j].id@,
                        );
                    }
                }
                assert forall|j: int| 0 <= j < self.entries@.len() implies (
                #[trigger] self.entries@[j]).id@ != id@ by {
                    lemma_order_total(id@, id@);
                }
            }
            (i, false)
        }
    }

    fn bump(&mut self)
        ensures
            final(self).entries@ == old(self).entries@,
            final(self).changes() == bumped(old(self).changes()),
    {
        self.generation = self.generation.wrapping_add(1);
    }

    /// Replaces what is known of a listed device.
    fn update(&mut self, at: usize, name: String, port: PsxPort, analog: bool)
        requires
            ordered(old(self).entries@),
            at < old(self).entries@.len(),
        ensures
            ordered(final(self).entries@),
            final(self).entries@.len() == old(self).entries@.len(),
            forall|i: int|
                0 <= i < old(self).entries@.len() ==> (#[trigger] final(self).entries@[i]).id@
                    == old(self).entries@[i].id@,
            final(self)@ == old(self)@.insert(
                old(self).entries@[at as int].id@,
                Route { name: name@, port, analog },
            ),
            final(self).changes() == old(self).changes(),
    {
        let ghost before = self.entries@;
        let ghost route = Route { name: name@, port, analog };
        self.entries[at].name = name;
        self.entries[at].port = port;
        self.entries[at].analog = analog;
        proof {
            let after = self.entries@;
            assert(after[at as int].route() == route);
            assert forall|i: int| 0 <= i < before.len() implies (#[trigger] after[i]).id@
                == before[i].id@ by {}
            assert(ordered(after)) by {
                assert forall|i: int, j: int| 0 <= i < j < after.len() implies comes_before(
                    (#[trigger] after[i]).id@,
                    (#[trigger] after[j]).id@,
                ) by {
                    assert(comes_before(before[i].id@, before[j].id@));
                }
            }
            lemma_route_map(before);
            let key = before[at as int].id@;
            let expected = route_map(before).insert(key, route);
            assert forall|i: int| 0 <= i < after.len() implies expected.contains_key(
                (#[trigger] after[i]).id@,
            ) && expected[after[i].id@] == after[i].route() by {
                assert(route_map(before).contains_key(before[i].id@));
                if i != at {
                    lemma_order_total(key, key);
                    assert(before[i].id@ != key) by {
                        if i < at {
                            assert(comes_before(before[i].id@, before[at as int].id@));
                        } else {
                            assert(comes_before(before[at as int].id@, before[i].id@));
                        }
                    }
                    assert(after[i] == before[i]);
                }
            }
            assert forall|k: Seq<char>| #[trigger] expected.contains_key(k) implies exists|i: int|
                0 <= i < after.len() && (#[trigger] after[i]).id@ == k by {
                assert(route_map(before).contains_key(k));
                let i = choose|i: int| 0 <= i < before.len() && (#[trigger] before[i]).id@ == k;
                assert(after[i].id@ == k);
            }
            lemma_same_map(after, expected);
        }
    }

    /// Takes every device but one off a guest port.
    fn clear_port(&mut self, port: PsxPort, except_id: &str)
        requires
            ordered(old(self).entries@),
            port != PsxPort::Off,
        ensures
            ordered(final(self).entries@),
            final(self).entries@.len() == old(self).entries@.len(),
            forall|i: int|
                0 <= i < old(self).entries@.len() ==> (#[trigger] final(self).entries@[i]).id@
                    == old(self).entries@[i].id@,
            final(self)@ == port_cleared(old(self)@, port, except_id@),
            final(self).changes() == old(self).changes(),
    {
        let ghost before = self.entries@;
        let mut i: usize = 0;
        while i < self.entries.len()
            invariant
                before == old(self).entries@,
                self.generation == old(self).generation,
                self.entries@.len() == before.len(),
                i <= before.len(),
                port != PsxPort::Off,
                forall|j: int|
                    0 <= j < before.len() ==> (#[trigger] self.entries@[j]).id@ == before[j].id@,
                forall|j: int|
                    i <= j < before.len() ==> #[trigger] self.entries@[j] == before[j],
                forall|j: int|
                    0 <= j < i ==> (#[trigger] self.entries@[j]).route() == (if before[j].id@
                        != except_id@ && before[j].port == port {
                        Route { port: PsxPort::Off, ..before[j].route() }
                    } else {
                        before[j].route()
                    }),
            decreases before.len() - i,
        {
            if self.entries[i].port == port && !same_text(self.entries[i].id.as_str(), except_id) {
                self.entries[i].port = PsxPort::Off;
            }
            i = i + 1;
        }
        proof {
            let after = self.entries@;
            assert(ordered(after)) by {
                assert forall|i: int, j: int| 0 <= i < j < after.len() implies comes_before(
                    (#[trigger] after[i]).id@,
                    (#[trigger] after[j]).id@,
                ) by {
                    assert(comes_before(before[i].id@, before[j].id@));
                }
            }
            lemma_route_map(before);
            let expected = port_cleared(route_map(before), port, except_id@);
            assert forall|i: int| 0 <= i < after.len() implies expected.contains_key(
                (#[trigger] after[i]).id@,
            ) && expected[after[i].id@] == after[i].route() by {
                assert(route_map(before).contains_key(before[i].id@));
                assert(route_map(before)[before[i].id@] == before[i].route());
            }
            assert forall|k: Seq<char>| #[trigger] expected.contains_key(k) implies exists|i: int|
                0 <= i < after.len() && (#[trigger] after[i]).id@ == k by {
                assert(route_map(before).contains_key(k));
                let i = choose|i: int| 0 <= i < before.len() && (#[trigger] before[i]).id@ == k;
                assert(after[i].id@ == k);
            }
            lemma_same_map(after, expected);
        }
    }

    /// Whether a device plays on a port.
    pub fn port_occupied(&self, port: PsxPort) -> (result: bool)
        requires
            self.wf(),
        ensures
            result == occupied(self@, port),
    {
        proof {
            self.lemma_wf();
        }
        let mut i: usize = 0;
        while i < self.entries.len()
            invariant
                self.wf(),
                i <= self.entries@.len(),
                forall|j: int| 0 <= j < i ==> (#[trigger] self.entries@[j]).port != port,
            decreases self.entries@.len() - i,
        {
            if self.entries[i].port == port {
                proof {
                    self.lemma_wf();
                    assert(self@.contains_key(self.listed()[i as int].id@));
                }
                return true;
            }
            i = i + 1;
        }
        proof {
            self.lemma_wf();
            assert(!occupied(self@, port)) by {
                if occupied(self@, port) {
                    let k = choose|k: Seq<char>| #[trigger] self@.contains_key(k)
                        && self@[k].port == port;
                    let j = choose|j: int|
                        0 <= j < self.listed().len() && (#[trigger] self.listed()[j]).id@ == k;
                    assert(self@[self.listed()[j].id@] == self.listed()[j].route());
                    assert(self.entries@[j].port != port);
                }
            }
        }
        false
    }

    /// No controller is listed.
    fn only_keyboard(&self) -> (result: bool)
        requires
            self.wf(),
        ensures
            result == (forall|k: Seq<char>| #[trigger]
                self@.contains_key(k) ==> k == KEYBOARD_DEVICE_ID@),
    {
        proof {
            self.lemma_wf();
        }
        let mut i: usize = 0;
        while i < self.entries.len()
            invariant
                self.wf(),
                i <= self.entries@.len(),
                forall|j: int|
                    0 <= j < i ==> (#[trigger] self.entries@[j]).id@ == KEYBOARD_DEVICE_ID@,
            decreases self.entries@.len() - i,
        {
            if !same_text(self.entries[i].id.as_str(), KEYBOARD_DEVICE_ID) {
                proof {
                    self.lemma_wf();
                    assert(self@.contains_key(self.listed()[i as int].id@));
                }
                return false;
            }
            i = i + 1;
        }
        proof {
            self.lemma_wf();
        }
        true
    }

    /// Lists a controller that has been connected.
    pub fn connect(&mut self, id: String, name: String)
        requires
            old(self).wf(),
        ensures
            final(self).wf(),
            final(self)@ == connected(old(self)@, id@, name@),
            final(self).changes() == if old(self)@.contains_key(id@) {
                old(self).changes()
            } else {
                bumped(old(self).changes())
            },
    {
        proof {
            self.lemma_wf();
            law_connecting_keeps_ports_unique(self@, id@, name@);
        }
        let ghost start = self@;
        let (at, known) = self.place_of(id.as_str());
        if known {
            let port = self.entries[at].port;
            let analog = self.entries[at].analog;
            proof {
                assert(self.listed()[at as int].route() == start[id@]);
            }
            self.update(at, name, port, analog);
            return;
        }
        let port = if self.only_keyboard() {
            PsxPort::One
        } else if !self.port_occupied(PsxPort::Two) {
            PsxPort::Two
        } else {
            PsxPort::Off
        };
        if port != PsxPort::Off {
            self.clear_port(port, id.as_str());
        } else {
            assert(port_cleared(start, port, id@) =~= start);
        }
        let ghost before = self.entries@;
        let entry = InputDeviceInfo { id, name, port, analog: true };
        self.entries.insert(at, entry);
        proof {
            let after = self.entries@;
            assert(after == before.insert(at as int, entry));
            lemma_route_map(before);
            lemma_order_total(entry.id@, entry.id@);
            assert forall|i: int, j: int| 0 <= i < j < after.len() implies comes_before(
                (#[trigger] after[i]).id@,
                (#[trigger] after[j]).id@,
            ) by {
                let x = if i < at { i } else { i - 1 };
                let y = if j < at { j } else { j - 1 };
                if i != at {
                    assert(after[i] == before[x]);
                }
                if j != at {
                    assert(after[j] == before[y]);
                }
                if i != at && j != at {
                    assert(comes_before(before[x].id@, before[y].id@));
                }
            }
            let expected = route_map(before).insert(entry.id@, entry.route());
            assert forall|i: int| 0 <= i < after.len() implies expected.contains_key(
                (#[trigger] after[i]).id@,
            ) && expected[after[i].id@] == after[i].route() by {
                if i != at {
                    let x = if i < at { i } else { i - 1 };
                    assert(after[i] == before[x]);
                    assert(route_map(before).contains_key(before[x].id@));
                    assert(before[x].id@ != entry.id@);
                }
            }
            assert forall|k: Seq<char>| #[trigger] expected.contains_key(k) implies exists|i: int|
                0 <= i < after.len() && (#[trigger] after[i]).id@ == k by {
                if k == entry.id@ {
                    assert(after[at as int].id@ == k);
                } else {
                    assert(route_map(before).contains_key(k));
                    let x = choose|i: int| 0 <= i < before.len() && (#[trigger] before[i]).id@ == k;
                    let i = if x < at { x } else { x + 1 };
                    assert(after[i].id@ == k);
                }
            }
            lemma_same_map(after, expected);
        }
        self.bump();
    }

    /// Drops a controller that has been disconnected.
    pub fn disconnect(&mut self, id: &str)
        requires
            old(self).wf(),
        ensures
            final(self).wf(),
            final(self)@ == disconnected(old(self)@, id@),
            final(self).changes() == if id@ != KEYBOARD_DEVICE_ID@ && old(self)@.contains_key(
                id@,
            ) {
                bumped(old(self).changes())
            } else {
                old(self).changes()
            },
    {
        proof {
            self.lemma_wf();
            law_disconnecting_keeps_ports_unique(self@, id@);
        }
        let ghost start = self@;
        if same_text(id, KEYBOARD_DEVICE_ID) {
            return;
        }
        let (at, known) = self.place_of(id);
        if !known {
            return;
        }
        let ghost before = self.entries@;
        let removed = self.entries.remove(at);
        proof {
            let after = self.entries@;
            assert(after == before.remove(at as int));
            lemma_route_map(before);
            lemma_order_total(id@, id@);
            assert forall|i: int, j: int| 0 <= i < j < after.len() implies comes_before(
                (#[trigger] after[i]).id@,
                (#[trigger] after[j]).id@,
            ) by {
                let x = if i < at { i } else { i + 1 };
                let y = if j < at { j } else { j + 1 };
                assert(after[i] == before[x]);
                assert(after[j] == before[y]);
                assert(comes_before(before[x].id@, before[y].id@));
            }
            let expected = route_map(before).remove(id@);
            assert forall|i: int| 0 <= i < after.len() implies expected.contains_key(
                (#[trigger] after[i]).id@,
            ) && expected[after[i].id@] == after[i].route() by {
                let x = if i < at { i } else { i + 1 };
                assert(after[i] == before[x]);
                assert(before[x].id@ != id@) by {
                    if x < at {
                        assert(comes_before(before[x].id@, before[at as int].id@));
                    } else {
                        assert(comes_before(before[at as int].id@, before[x].id@));
                    }
                }
            }
            assert forall|k: Seq<char>| #[trigger] expected.contains_key(k) implies exists|i: int|
                0 <= i < after.len() && (#[trigger] after[i]).id@ == k by {
                assert(route_map(before).contains_key(k));
                let x = choose|i: int| 0 <= i < before.len() && (#[trigger] before[i]).id@ == k;
                let i = if x < at { x } else { x - 1 };
                assert(after[i].id@ == k);
            }
            lemma_same_map(after, expected);
            assert(self.wf());
        }
        if !self.port_occupied(PsxPort::One) {
            let (keyboard, _) = self.place_of(KEYBOARD_DEVICE_ID);
            proof {
                self.lemma_wf();
                assert(self.listed()[keyboard as int].route() == self@[KEYBOARD_DEVICE_ID@]);
            }
            let name = self.entries[keyboard].name.clone();
            let analog = self.entries[keyboard].analog;
            self.update(keyboard, name, PsxPort::One, analog);
        }
        self.bump();
    }

    /// Moves a device to a port; whoever played there is taken off. Tells
    /// whether anything changed.
    pub fn set_port(&mut self, id: &str, port: PsxPort) -> (changed: bool)
        requires
            old(self).wf(),
        ensures
            final(self).wf(),
            changed == (old(self)@.contains_key(id@) && old(self)@[id@].port != port),
            final(self)@ == if changed {
                moved(old(self)@, id@, port)
            } else {
                old(self)@
            },
            final(self).changes() == if changed {
                bumped(old(self).changes())
            } else {
                old(self).changes()
            },
    {
        proof {
            self.lemma_wf();
            law_moving_keeps_ports_unique(self@, id@, port);
        }
        let ghost start = self@;
        let (at, known) = self.place_of(id);
        if !known {
            return false;
        }
        proof {
            assert(self.listed()[at as int].route() == start[id@]);
        }
        if self.entries[at].port == port {
            return false;
        }
        if port != PsxPort::Off {
            self.clear_port(port, id);
        } else {
            assert(port_cleared(start, port, id@) =~= start);
        }
        proof {
            lemma_route_map(self.entries@);
            assert(self.entries@[at as int].route() == self@[id@]);
            assert(self@[id@] == start[id@]);
        }
        let name = self.entries[at].name.clone();
        let analog = self.entries[at].analog;
        self.update(at, name, port, analog);
        self.bump();
        true
    }

    /// Chooses the digital or the analog controller for a device. Tells
    /// whether anything changed.
    pub fn set_analog(&mut self, id: &str, analog: bool) -> (changed: bool)
        requires
            old(self).wf(),
        ensures
            final(self).wf(),
            changed == (old(self)@.contains_key(id@) && old(self)@[id@].analog != analog),
            final(self)@ == if changed {
                old(self)@.insert(id@, Route { analog, ..old(self)@[id@] })
            } else {
                old(self)@
            },
            final(self).changes() == if changed {
                bumped(old(self).changes())
            } else {
                old(self).changes()
            },
    {
        proof {
            self.lemma_wf();
        }
        let (at, known) = self.place_of(id);
        if !known {
            return false;
        }
        proof {
            assert(self.listed()[at as int].route() == self@[id@]);
        }
        if self.entries[at].analog == analog {
            return false;
        }
        let name = self.entries[at].name.clone();
        let port = self.entries[at].port;
        self.update(at, name, port, analog);
        self.bump();
        true
    }

    /// Swaps the digital and the analog controller of a device. Gives the
    /// choice that then holds; `false` for an unknown device.
    pub fn toggle_analog(&mut self, id: &str) -> (analog: bool)
        requires
            old(self).wf(),
        ensures
            final(self).wf(),
            analog == (old(self)@.contains_key(id@) && !old(self)@[id@].analog),
            final(self)@ == analog_toggled(old(self)@, id@),
            final(self).changes() == if old(self)@.contains_key(id@) {
                bumped(old(self).changes())
            } else {
                old(self).changes()
            },
    {
        proof {
            self.lemma_wf();
        }
        let (at, known) = self.place_of(id);
        if !known {
            return false;
        }
        proof {
            assert(self.listed()[at as int].route() == self@[id@]);
        }
        let name = self.entries[at].name.clone();
        let port = self.entries[at].port;
        let analog = !self.entries[at].analog;
        self.update(at, name, port, analog);
        self.bump();
        analog
    }

    /// Where a device plays; an unknown one nowhere.
    pub fn port_for(&self, id: &str) -> (port: PsxPort)
        requires
            self.wf(),
        ensures
            port == port_of(self@, id@),
    {
        proof {
            self.lemma_wf();
        }
        let (at, known) = self.place_of(id);
        if known {
            proof {
                assert(self.listed()[at as int].route() == self@[id@]);
            }
            self.entries[at].port
        } else {
            PsxPort::Off
        }
    }

    /// Where the keyboard plays.
    pub fn keyboard_port(&self) -> (port: PsxPort)
        requires
            self.wf(),
        ensures
            port == self@[KEYBOARD_DEVICE_ID@].port,
    {
        proof {
            self.lemma_wf();
        }
        self.port_for(KEYBOARD_DEVICE_ID)
    }

    /// A device on a guest port is alone there.
    proof fn lemma_alone(&self, i: int, port: PsxPort)
        requires
            self.wf(),
            0 <= i < self.entries@.len(),
            self.entries@[i].port == port,
        ensures
            occupied(self@, port),
            port != PsxPort::Off ==> forall|k: Seq<char>| #[trigger]
                self@.contains_key(k) && self@[k].port == port ==> self@[k].analog
                    == self.entries@[i].analog,
    {
        lemma_route_map(self.entries@);
        assert(self@.contains_key(self.entries@[i].id@));
    }

    /// Whether a port holds an analog controller; nothing if it is empty. Of
    /// several devices that are off the first listed one counts.
    pub fn profile_for(&self, port: PsxPort) -> (profile: Option<bool>)
        requires
            self.wf(),
        ensures
            profile is Some <==> occupied(self@, port),
            profile matches Some(analog) ==> exists|i: int|
                0 <= i < self.listed().len() && (#[trigger] self.listed()[i]).port == port
                    && self.listed()[i].analog == analog && forall|j: int|
                    0 <= j < i ==> (#[trigger] self.listed()[j]).port != port,
            port != PsxPort::Off ==> forall|k: Seq<char>| #[trigger]
                self@.contains_key(k) && self@[k].port == port ==> profile == Some(self@[k].analog),
    {
        proof {
            self.lemma_wf();
        }
        let mut i: usize = 0;
        while i < self.entries.len()
            invariant
                self.wf(),
                i <= self.entries@.len(),
                forall|j: int| 0 <= j < i ==> (#[trigger] self.entries@[j]).port != port,
            decreases self.entries@.len() - i,
        {
            if self.entries[i].port == port {
                proof {
                    self.lemma_alone(i as int, port);
                    assert(self.listed()[i as int].port == port);
                }
                return Some(self.entries[i].analog);
            }
            i = i + 1;
        }
        proof {
            self.lemma_wf();
            assert forall|k: Seq<char>| #[trigger] self@.contains_key(k) implies self@[k].port
                != port by {
                let j = choose|j: int|
                    0 <= j < self.listed().len() && (#[trigger] self.listed()[j]).id@ == k;
                assert(self@[self.listed()[j].id@] == self.listed()[j].route());
                assert(self.entries@[j].port != port);
            }
        }
        None
    }

    /// Every device in the order of the identities.
    pub fn devices(&self) -> (devices: Vec<InputDeviceInfo>)
        requires
            self.wf(),
        ensures
            devices@.len() == self.listed().len(),
            forall|i: int|
                0 <= i < devices@.len() ==> (#[trigger] devices@[i]).id@ == self.listed()[i].id@
                    && devices@[i].route() == self.listed()[i].route(),
            ordered(devices@),
            route_map(devices@) == self@,
    {
        let mut devices: Vec<InputDeviceInfo> = Vec::new();
        let mut i: usize = 0;
        while i < self.entries.len()
            invariant
                i <= self.entries@.len(),
                devices@.len() == i,
                forall|j: int|
                    0 <= j < i ==> (#[trigger] devices@[j]).id@ == self.entries@[j].id@
                        && devices@[j].route() == self.entries@[j].route(),
            decreases self.entries@.len() - i,
        {
            devices.push(
                InputDeviceInfo {
                    id: self.entries[i].id.clone(),
                    name: self.entries[i].name.clone(),
                    port: self.entries[i].port,
                    analog: self.entries[i].analog,
                },
            );
            i = i + 1;
        }
        proof {
            assert forall|i: int, j: int| 0 <= i < j < devices@.len() implies comes_before(
                (#[trigger] devices@[i]).id@,
                (#[trigger] devices@[j]).id@,
            ) by {
                assert(comes_before(self.entries@[i].id@, self.entries@[j].id@));
            }
            self.lemma_wf();
            assert forall|i: int| 0 <= i < devices@.len() implies self@.contains_key(
                (#[trigger] devices@[i]).id@,
            ) && self@[devices@[i].id@] == devices@[i].route() by {
                assert(self@.contains_key(self.listed()[i].id@));
            }
            assert forall|k: Seq<char>| #[trigger] self@.contains_key(k) implies exists|i: int|
                0 <= i < devices@.len() && (#[trigger] devices@[i]).id@ == k by {
                let j = choose|j: int|
                    0 <= j < self.listed().len() && (#[trigger] self.listed()[j]).id@ == k;
                assert(devices@[j].id@ == k);
            }
            lemma_same_map(devices@, self@);
        }
        devices
    }

    /// Counter of the changes so far.
    pub fn generation(&self) -> (generation: u64)
        ensures
            generation == self.changes(),
    {
        self.generation
    }
}

impl Default for RoutingTable {
    fn default() -> (table: Self)
        ensures
            table.wf(),
            table@ == map![
                KEYBOARD_DEVICE_ID@ => (Route {
                    name: "Keyboard"@,
                    port: PsxPort::One,
                    analog: false,
                })
            ],
            table.changes() == 1,
    {
        RoutingTable::new()
    }
}

/// Where a device plays; an unknown one nowhere.
pub open spec fn port_of(routes: Map<Seq<char>, Route>, id: Seq<char>) -> PsxPort {
    if routes.contains_key(id) {
        routes[id].port
    } else {
        PsxPort::Off
    }
}

/// The devices with the controller of one of them swapped.
pub open spec fn analog_toggled(routes: Map<Seq<char>, Route>, id: Seq<char>) -> Map<
    Seq<char>,
    Route,
> {
    if routes.contains_key(id) {
        routes.insert(id, Route { analog: !routes[id].analog, ..routes[id] })
    } else {
        routes
    }
}

/// The counter after one more change.
pub open spec fn bumped(generation: u64) -> u64 {
    if generation == u64::MAX {
        0
    } else {
        (generation + 1) as u64
    }
}

/// The first controller takes port one from the keyboard; the next one takes
/// port two if that is free, and any other plays nowhere. Nobody but the
/// keyboard has to move, and no device loses its name or controller.
pub proof fn law_controllers_take_the_free_ports(
    routes: Map<Seq<char>, Route>,
    id: Seq<char>,
    name: Seq<char>,
    other: Seq<char>,
)
    requires
        !routes.contains_key(id),
        routes.contains_key(other),
    ensures
        ({
            let after = connected(routes, id, name);
            let first = forall|k: Seq<char>| #[trigger]
                routes.contains_key(k) ==> k == KEYBOARD_DEVICE_ID@;
            let two_taken = exists|k: Seq<char>| #[trigger]
                routes.contains_key(k) && routes[k].port == PsxPort::Two;
            &&& after.dom() == routes.dom().insert(id)
            &&& after[id].name == name && after[id].analog
            &&& first ==> after[id].port == PsxPort::One
            &&& !first && !two_taken ==> after[id].port == PsxPort::Two
            &&& !first && two_taken ==> after[id].port == PsxPort::Off
            &&& after[other].name == routes[other].name && after[other].analog
                == routes[other].analog
            &&& first && routes[other].port == PsxPort::One ==> after[other].port == PsxPort::Off
            &&& !first || routes[other].port != PsxPort::One ==> after[other] == routes[other]
        }),
{
    let after = connected(routes, id, name);
    assert(after.dom() =~= routes.dom().insert(id));
    if routes[other].port == PsxPort::Two {
        assert(occupied(routes, PsxPort::Two));
    }
}

/// A device that is known keeps its port and its controller when it connects
/// again, and so does everybody else.
pub proof fn law_known_devices_keep_their_ports(
    routes: Map<Seq<char>, Route>,
    id: Seq<char>,
    name: Seq<char>,
    other: Seq<char>,
)
    requires
        routes.contains_key(id),
    ensures
        ({
            let after = connected(routes, id, name);
            &&& after.dom() == routes.dom()
            &&& port_of(after, other) == port_of(routes, other)
            &&& after[other].analog == routes[other].analog
            &&& other != id ==> after[other] == routes[other]
            &&& after[id].name == name
        }),
{
    assert(connected(routes, id, name).dom() =~= routes.dom());
}

/// A device that is gone is not listed. Everybody else stays as they were, but
/// for the keyboard, which takes port one where nobody else plays there.
pub proof fn law_the_keyboard_takes_over(routes: Map<Seq<char>, Route>, id: Seq<char>, other: Seq<char>)
    requires
        routes.contains_key(id),
        routes.contains_key(KEYBOARD_DEVICE_ID@),
        id != KEYBOARD_DEVICE_ID@,
        other != id,
    ensures
        ({
            let after = disconnected(routes, id);
            let keyboard = KEYBOARD_DEVICE_ID@;
            let one_taken = exists|k: Seq<char>| #[trigger]
                routes.contains_key(k) && k != id && routes[k].port == PsxPort::One;
            &&& after.dom() == routes.dom().remove(id)
            &&& other != keyboard ==> after[other] == routes[other]
            &&& one_taken ==> after[keyboard] == routes[keyboard]
            &&& !one_taken ==> after[keyboard].port == PsxPort::One
            &&& after[keyboard].name == routes[keyboard].name && after[keyboard].analog
                == routes[keyboard].analog
            &&& disconnected(routes, keyboard) == routes
        }),
{
    let left = routes.remove(id);
    assert(disconnected(routes, id).dom() =~= routes.dom().remove(id));
    if exists|k: Seq<char>| #[trigger]
        routes.contains_key(k) && k != id && routes[k].port == PsxPort::One {
        let k = choose|k: Seq<char>| #[trigger]
            routes.contains_key(k) && k != id && routes[k].port == PsxPort::One;
        assert(left.contains_key(k));
        assert(occupied(left, PsxPort::One));
    } else if occupied(left, PsxPort::One) {
        let k = choose|k: Seq<char>| #[trigger] left.contains_key(k) && left[k].port == PsxPort::One;
        assert(routes.contains_key(k));
    }
}

/// Moving a device changes where devices play and nothing else: who played on
/// its new port plays nowhere, and everybody else stays.
pub proof fn law_moving_takes_the_port_over(
    routes: Map<Seq<char>, Route>,
    id: Seq<char>,
    port: PsxPort,
    other: Seq<char>,
)
    requires
        routes.contains_key(id),
        routes.contains_key(other),
        other != id,
    ensures
        ({
            let after = moved(routes, id, port);
            &&& after.dom() == routes.dom()
            &&& after[id].name == routes[id].name && after[id].analog == routes[id].analog
            &&& after[other].name == routes[other].name && after[other].analog
                == routes[other].analog
            &&& routes[other].port != port ==> after[other].port == routes[other].port
            &&& routes[other].port == port ==> after[other].port == PsxPort::Off
        }),
{
    assert(moved(routes, id, port).dom() =~= routes.dom());
}

/// Swapping a controller twice gives it back, and swaps nobody else's.
pub proof fn law_swapping_twice_changes_nothing(
    routes: Map<Seq<char>, Route>,
    id: Seq<char>,
    other: Seq<char>,
)
    requires
        routes.contains_key(id),
        other != id,
    ensures
        analog_toggled(routes, id)[id].analog != routes[id].analog,
        analog_toggled(routes, id)[id].port == routes[id].port,
        analog_toggled(routes, id)[other] == routes[other],
        analog_toggled(analog_toggled(routes, id), id) == routes,
{
    let twice = analog_toggled(analog_toggled(routes, id), id);
    assert(twice =~= routes) by {
        assert(twice[id] == routes[id]);
    }
}

} // verus!

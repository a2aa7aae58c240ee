//! Which rooms the viewport draws: the active room and its portal neighbourhood.

use crate::preview::scene::{
    is_shown_room, lemma_node_index, node_of, room_above, room_ancestor,
    selected_room_ancestor, shown_room, shown_room_above, NodeId, Scene, SceneNode, SceneNodeKind,
};
use vstd::prelude::*;

verus! {

/// Portals crossed from a starting room before the walk stops.
pub const EDITOR_PREVIEW_PORTAL_DEPTH: usize = 3;

/// One floor of one room to draw.
#[derive(Clone, Copy, Debug, PartialEq, Eq, Structural)]
pub struct PreviewFloor {
    pub room: NodeId,
    pub floor_index: usize,
    pub y_offset: i32,
    pub active: bool,
}

/// A floor of the active room, with the height at which it is drawn.
#[derive(Clone, Copy, Debug, PartialEq, Eq, Structural)]
pub struct ResolvedFloor {
    pub floor_index: usize,
    pub y_offset: i32,
    pub active: bool,
}

/// The identities of the rooms among the first `n` nodes that are not hidden.
pub open spec fn shown_rooms(nodes: Seq<SceneNode>, n: nat) -> Seq<NodeId>
    decreases n,
{
    if n == 0 {
        Seq::empty()
    } else {
        let before = shown_rooms(nodes, (n - 1) as nat);
        let node = nodes[n - 1];
        if node.kind is Section && !node.hidden {
            before.push(node.id)
        } else {
            before
        }
    }
}

/// The rooms that are not hidden, in the order of the scene.
pub fn visible_room_grids(scene: &Scene) -> (result: Vec<NodeId>)
    ensures
        result@ == shown_rooms(scene.nodes@, scene.nodes@.len()),
{
    let mut rooms: Vec<NodeId> = Vec::new();
    for i in 0..scene.nodes.len()
        invariant
            rooms@ == shown_rooms(scene.nodes@, i as nat),
    {
        let node = scene.nodes[i];
        if matches!(node.kind, SceneNodeKind::Section { .. }) && !node.hidden {
            rooms.push(node.id);
        }
    }
    rooms
}

/// `ids` holds `id`.
fn contains_id(ids: &Vec<NodeId>, id: NodeId) -> (result: bool)
    ensures
        result == ids@.contains(id),
{
    for i in 0..ids.len()
        invariant
            forall|j: int| 0 <= j < i ==> ids@[j] != id,
    {
        if ids[i] == id {
            return true;
        }
    }
    false
}

/// The room on the other side of a portal node, seen from `room`.
pub open spec fn portal_neighbour(nodes: Seq<SceneNode>, room: NodeId, node: SceneNode) -> Option<
    NodeId,
> {
    match node.kind {
        SceneNodeKind::Portal { target_room: Some(target) } => {
            let home = room_above(nodes, node.id, nodes.len());
            if home == Some(room) {
                if target != room {
                    Some(target)
                } else {
                    None
                }
            } else if target == room {
                home
            } else {
                None
            }
        },
        _ => None,
    }
}

/// The rooms joined to `room` by the portals among the first `n` nodes, in
/// order and without repetition.
pub open spec fn joined_rooms(nodes: Seq<SceneNode>, room: NodeId, n: nat) -> Seq<NodeId>
    decreases n,
{
    if n == 0 {
        Seq::empty()
    } else {
        let before = joined_rooms(nodes, room, (n - 1) as nat);
        match portal_neighbour(nodes, room, nodes[n - 1]) {
            Some(other) if !before.contains(other) => before.push(other),
            _ => before,
        }
    }
}

/// Every room joined to `room` by a portal of either.
pub open spec fn neighbours(nodes: Seq<SceneNode>, room: NodeId) -> Seq<NodeId> {
    joined_rooms(nodes, room, nodes.len())
}

/// The rooms that a portal joins to `room`, whichever room owns the portal.
pub fn connected_portal_rooms(scene: &Scene, room: NodeId) -> (result: Vec<NodeId>)
    ensures
        result@ == neighbours(scene.nodes@, room),
{
    let mut out: Vec<NodeId> = Vec::new();
    for i in 0..scene.nodes.len()
        invariant
            out@ == joined_rooms(scene.nodes@, room, i as nat),
    {
        let node = scene.nodes[i];
        if let SceneNodeKind::Portal { target_room: Some(target) } = node.kind {
            let home = room_ancestor(scene, node.id);
            let owned = match home {
                Some(owner) => owner == room,
                None => false,
            };
            if owned {
                if target != room && !contains_id(&out, target) {
                    out.push(target);
                }
            } else if target == room {
                if let Some(source) = home {
                    if !contains_id(&out, source) {
                        out.push(source);
                    }
                }
            }
        }
    }
    out
}

proof fn lemma_joined_rooms(nodes: Seq<SceneNode>, room: NodeId, n: nat, other: NodeId)
    requires
        n <= nodes.len(),
    ensures
        joined_rooms(nodes, room, n).contains(other) <==> exists|i: int|
            0 <= i < n && portal_neighbour(nodes, room, #[trigger] nodes[i]) == Some(other),
    decreases n,
{
    if n > 0 {
        lemma_joined_rooms(nodes, room, (n - 1) as nat, other);
        let before = joined_rooms(nodes, room, (n - 1) as nat);
        let now = joined_rooms(nodes, room, n);
        match portal_neighbour(nodes, room, nodes[n - 1]) {
            Some(next) if !before.contains(next) => {
                assert(now == before.push(next));
                assert(now[now.len() - 1] == next);
                if before.contains(other) {
                    let k = choose|k: int| 0 <= k < before.len() && before[k] == other;
                    assert(now[k] == other);
                }
                if now.contains(other) && other != next {
                    let k = choose|k: int| 0 <= k < now.len() && now[k] == other;
                    assert(before[k] == other);
                }
            },
            _ => {},
        }
    }
}

/// Portals join rooms in both directions.
pub proof fn law_portals_join_both_ways(nodes: Seq<SceneNode>, a: NodeId, b: NodeId)
    ensures
        neighbours(nodes, a).contains(b) <==> neighbours(nodes, b).contains(a),
{
    lemma_joined_rooms(nodes, a, nodes.len(), b);
    lemma_joined_rooms(nodes, b, nodes.len(), a);
    if neighbours(nodes, a).contains(b) {
        let i = choose|i: int|
            0 <= i < nodes.len() && portal_neighbour(nodes, a, #[trigger] nodes[i]) == Some(b);
        assert(portal_neighbour(nodes, b, nodes[i]) == Some(a));
    }
    if neighbours(nodes, b).contains(a) {
        let i = choose|i: int|
            0 <= i < nodes.len() && portal_neighbour(nodes, b, #[trigger] nodes[i]) == Some(a);
        assert(portal_neighbour(nodes, a, nodes[i]) == Some(b));
    }
}

/// No room is its own neighbour, and none is listed twice.
pub proof fn law_neighbours_are_distinct(nodes: Seq<SceneNode>, room: NodeId)
    ensures
        neighbours(nodes, room).no_duplicates(),
        !neighbours(nodes, room).contains(room),
{
    lemma_joined_rooms(nodes, room, nodes.len(), room);
    lemma_joined_distinct(nodes, room, nodes.len());
}

proof fn lemma_joined_distinct(nodes: Seq<SceneNode>, room: NodeId, n: nat)
    ensures
        joined_rooms(nodes, room, n).no_duplicates(),
    decreases n,
{
    if n > 0 {
        lemma_joined_distinct(nodes, room, (n - 1) as nat);
    }
}

/// The starting rooms with one more, if it is a room, not hidden, and new.
pub open spec fn with_seed(nodes: Seq<SceneNode>, seeds: Seq<NodeId>, room: Option<NodeId>) -> Seq<
    NodeId,
> {
    match room {
        Some(id) if !seeds.contains(id) && shown_room(nodes, id) => seeds.push(id),
        _ => seeds,
    }
}

/// The starting rooms with those of the first `n` of `rooms`.
pub open spec fn with_seeds(
    nodes: Seq<SceneNode>,
    seeds: Seq<NodeId>,
    rooms: Seq<NodeId>,
    n: nat,
) -> Seq<NodeId>
    decreases n,
{
    if n == 0 {
        seeds
    } else {
        with_seed(nodes, with_seeds(nodes, seeds, rooms, (n - 1) as nat), Some(rooms[n - 1]))
    }
}

pub fn push_preview_room_seed(scene: &Scene, room: Option<NodeId>, seeds: &mut Vec<NodeId>)
    ensures
        final(seeds)@ == with_seed(scene.nodes@, old(seeds)@, room),
{
    let Some(id) = room else {
        return;
    };
    if contains_id(seeds, id) {
        return;
    }
    if is_shown_room(scene, id) {
        seeds.push(id);
    }
}

fn push_preview_room_seeds(scene: &Scene, rooms: &Vec<NodeId>, seeds: &mut Vec<NodeId>)
    ensures
        final(seeds)@ == with_seeds(scene.nodes@, old(seeds)@, rooms@, rooms@.len()),
{
    for i in 0..rooms.len()
        invariant
            seeds@ == with_seeds(scene.nodes@, old(seeds)@, rooms@, i as nat),
    {
        push_preview_room_seed(scene, Some(rooms[i]), seeds);
    }
}

/// What the editor points at, each primitive named by its room.
#[derive(Debug)]
pub struct RoomFocus {
    pub active_room: Option<NodeId>,
    /// The floors of the active room that are drawn, with their heights.
    pub active_floors: Vec<ResolvedFloor>,
    pub selected: NodeId,
    pub selected_primitive: Option<NodeId>,
    pub selected_primitives: Vec<NodeId>,
    pub validation_issue_primitives: Vec<NodeId>,
}

/// The rooms at which the walk starts: the active room, the rooms of the
/// selection, and the rooms with validation issues; the first room of the scene
/// that is not hidden if there are none.
pub open spec fn start_rooms(nodes: Seq<SceneNode>, focus: RoomFocus) -> Seq<NodeId> {
    let s0 = with_seed(nodes, Seq::empty(), focus.active_room);
    let s1 = with_seed(nodes, s0, focus.selected_primitive);
    let s2 = with_seeds(
        nodes,
        s1,
        focus.selected_primitives@,
        focus.selected_primitives@.len(),
    );
    let s3 = with_seed(nodes, s2, shown_room_above(nodes, focus.selected, nodes.len()));
    let s4 = with_seeds(
        nodes,
        s3,
        focus.validation_issue_primitives@,
        focus.validation_issue_primitives@.len(),
    );
    let shown = shown_rooms(nodes, nodes.len());
    if s4.len() == 0 && shown.len() > 0 {
        seq![shown[0]]
    } else {
        s4
    }
}

fn preview_room_seeds(scene: &Scene, focus: &RoomFocus) -> (result: Vec<NodeId>)
    ensures
        result@ == start_rooms(scene.nodes@, *focus),
{
    let mut seeds: Vec<NodeId> = Vec::new();
    push_preview_room_seed(scene, focus.active_room, &mut seeds);
    push_preview_room_seed(scene, focus.selected_primitive, &mut seeds);
    push_preview_room_seeds(scene, &focus.selected_primitives, &mut seeds);
    push_preview_room_seed(scene, selected_room_ancestor(scene, focus.selected), &mut seeds);
    push_preview_room_seeds(scene, &focus.validation_issue_primitives, &mut seeds);
    if seeds.len() == 0 {
        let shown = visible_room_grids(scene);
        if shown.len() > 0 {
            seeds.push(shown[0]);
        }
    }
    seeds
}

/// The floors drawn of the active room: those that exist among the resolved.
pub open spec fn active_room_floors(
    room: NodeId,
    floor_count: usize,
    resolved: Seq<ResolvedFloor>,
    n: nat,
) -> Seq<PreviewFloor>
    decreases n,
{
    if n == 0 {
        Seq::empty()
    } else {
        let before = active_room_floors(room, floor_count, resolved, (n - 1) as nat);
        let floor = resolved[n - 1];
        if floor.floor_index < floor_count {
            before.push(
                PreviewFloor {
                    room,
                    floor_index: floor.floor_index,
                    y_offset: floor.y_offset,
                    active: floor.active,
                },
            )
        } else {
            before
        }
    }
}

/// The floors drawn of a room: the resolved ones of the active room, the base
/// floor of any other.
pub open spec fn room_floors(room: NodeId, floor_count: usize, focus: RoomFocus) -> Seq<
    PreviewFloor,
> {
    if focus.active_room == Some(room) {
        active_room_floors(room, floor_count, focus.active_floors@, focus.active_floors@.len())
    } else {
        seq![PreviewFloor { room, floor_index: 0, y_offset: 0, active: false }]
    }
}

/// Rooms still to be looked at, each with the portals crossed to get there.
pub open spec fn queued(rooms: Seq<NodeId>, depth: int) -> Seq<(NodeId, int)> {
    rooms.map_values(|room: NodeId| (room, depth))
}

/// The neighbours of `room` that were not looked at yet.
pub open spec fn new_neighbours(nodes: Seq<SceneNode>, room: NodeId, seen: Seq<NodeId>) -> Seq<
    NodeId,
> {
    neighbours(nodes, room).filter(|other: NodeId| !seen.contains(other))
}

/// Number of nodes whose identity is not among `seen`.
pub open spec fn unseen_nodes(nodes: Seq<SceneNode>, seen: Seq<NodeId>) -> nat
    decreases nodes.len(),
{
    if nodes.len() == 0 {
        0
    } else {
        unseen_nodes(nodes.drop_last(), seen) + if seen.contains(nodes.last().id) {
            0nat
        } else {
            1
        }
    }
}

proof fn lemma_unseen_push(nodes: Seq<SceneNode>, seen: Seq<NodeId>, id: NodeId)
    ensures
        unseen_nodes(nodes, seen.push(id)) <= unseen_nodes(nodes, seen),
        !seen.contains(id) && (exists|i: int| 0 <= i < nodes.len() && (#[trigger] nodes[i]).id == id)
            ==> unseen_nodes(nodes, seen.push(id)) < unseen_nodes(nodes, seen),
    decreases nodes.len(),
{
    assert forall|x: NodeId| seen.push(id).contains(x) <==> seen.contains(x) || x == id by {
        if seen.contains(x) {
            let k = choose|k: int| 0 <= k < seen.len() && seen[k] == x;
            assert(seen.push(id)[k] == x);
        }
        assert(seen.push(id)[seen.len() as int] == id);
    }
    if nodes.len() > 0 {
        lemma_unseen_push(nodes.drop_last(), seen, id);
        if !seen.contains(id) && (exists|i: int|
            0 <= i < nodes.len() && (#[trigger] nodes[i]).id == id) {
            let i = choose|i: int| 0 <= i < nodes.len() && (#[trigger] nodes[i]).id == id;
            if i < nodes.len() - 1 {
                assert(nodes.drop_last()[i].id == id);
            }
        }
    }
}

/// The floors that a breadth-first walk over portals adds to `out`. A room
/// counts once; a hidden room is neither drawn nor walked through; from a room
/// `EDITOR_PREVIEW_PORTAL_DEPTH` portals away, or once `max_rooms` floors are
/// listed, the walk does not go on to the neighbours.
pub open spec fn walked(
    nodes: Seq<SceneNode>,
    focus: RoomFocus,
    max_rooms: int,
    queue: Seq<(NodeId, int)>,
    seen: Seq<NodeId>,
    out: Seq<PreviewFloor>,
) -> Seq<PreviewFloor>
    decreases unseen_nodes(nodes, seen), queue.len(),
    via walked_decreases
{
    if queue.len() == 0 {
        out
    } else {
        let (room, depth) = queue[0];
        let rest = queue.drop_first();
        if seen.contains(room) {
            walked(nodes, focus, max_rooms, rest, seen, out)
        } else {
            let now_seen = seen.push(room);
            match node_of(nodes, room) {
                Some(SceneNode { kind: SceneNodeKind::Section { floor_count }, hidden: false, .. }) => {
                    let now_out = out + room_floors(room, floor_count, focus);
                    let further = if now_out.len() >= max_rooms || depth
                        >= EDITOR_PREVIEW_PORTAL_DEPTH {
                        Seq::empty()
                    } else {
                        queued(new_neighbours(nodes, room, now_seen), depth + 1)
                    };
                    walked(nodes, focus, max_rooms, rest + further, now_seen, now_out)
                },
                _ => walked(nodes, focus, max_rooms, rest, now_seen, out),
            }
        }
    }
}

#[via_fn]
proof fn walked_decreases(
    nodes: Seq<SceneNode>,
    focus: RoomFocus,
    max_rooms: int,
    queue: Seq<(NodeId, int)>,
    seen: Seq<NodeId>,
    out: Seq<PreviewFloor>,
) {
    if queue.len() > 0 {
        let room = queue[0].0;
        lemma_unseen_push(nodes, seen, room);
        lemma_node_index(nodes, room, 0);
    }
}

/// The floors that the viewport draws.
pub open spec fn preview_floors(nodes: Seq<SceneNode>, focus: RoomFocus, max_rooms: int) -> Seq<
    PreviewFloor,
> {
    walked(
        nodes,
        focus,
        max_rooms,
        queued(start_rooms(nodes, focus), 0),
        Seq::empty(),
        Seq::empty(),
    )
}

/// The queue without the entries that were taken from it already.
spec fn remaining(queue: Seq<(NodeId, usize)>, head: int) -> Seq<(NodeId, int)> {
    queue.skip(head).map_values(|entry: (NodeId, usize)| (entry.0, entry.1 as int))
}

/// Queue the neighbours of `room` that were not looked at yet.
fn queue_neighbours(
    scene: &Scene,
    room: NodeId,
    depth: usize,
    seen: &Vec<NodeId>,
    queue: &mut Vec<(NodeId, usize)>,
    head: usize,
)
    requires
        head <= old(queue)@.len(),
    ensures
        final(queue)@.len() >= old(queue)@.len(),
        remaining(final(queue)@, head as int) == remaining(old(queue)@, head as int) + queued(
            new_neighbours(scene.nodes@, room, seen@),
            depth as int,
        ),
{
    let connected = connected_portal_rooms(scene, room);
    let ghost unseen = |other: NodeId| !seen@.contains(other);
    for i in 0..connected.len()
        invariant
            connected@ == neighbours(scene.nodes@, room),
            head <= old(queue)@.len() <= queue@.len(),
            unseen == (|other: NodeId| !seen@.contains(other)),
            remaining(queue@, head as int) == remaining(old(queue)@, head as int) + queued(
                connected@.take(i as int).filter(unseen),
                depth as int,
            ),
    {
        let ghost before = queue@;
        proof {
            assert(connected@.take(i + 1) == connected@.take(i as int).push(connected@[i as int]));
            reveal(Seq::filter);
            assert(connected@.take(i + 1).drop_last() == connected@.take(i as int));
        }
        if !contains_id(seen, connected[i]) {
            queue.push((connected[i], depth));
            proof {
                assert(queue@.skip(head as int) == before.skip(head as int).push(
                    (connected@[i as int], depth),
                ));
                assert(remaining(queue@, head as int) =~= remaining(before, head as int).push(
                    (connected@[i as int], depth as int),
                ));
                let kept = connected@.take(i as int).filter(unseen);
                assert(connected@.take(i + 1).filter(unseen) == kept.push(connected@[i as int]));
                assert(queued(kept.push(connected@[i as int]), depth as int) =~= queued(
                    kept,
                    depth as int,
                ).push((connected@[i as int], depth as int)));
            }
        }
    }
    proof {
        assert(connected@.take(connected@.len() as int) == connected@);
    }
}

/// Add the floors drawn of one room.
fn push_room_floors(
    room: NodeId,
    floor_count: usize,
    focus: &RoomFocus,
    out: &mut Vec<PreviewFloor>,
)
    ensures
        final(out)@ == old(out)@ + room_floors(room, floor_count, *focus),
{
    let is_active = match focus.active_room {
        Some(active) => active == room,
        None => false,
    };
    if is_active {
        for i in 0..focus.active_floors.len()
            invariant
                out@ == old(out)@ + active_room_floors(
                    room,
                    floor_count,
                    focus.active_floors@,
                    i as nat,
                ),
        {
            let floor = focus.active_floors[i];
            if floor.floor_index < floor_count {
                out.push(
                    PreviewFloor {
                        room,
                        floor_index: floor.floor_index,
                        y_offset: floor.y_offset,
                        active: floor.active,
                    },
                );
            }
        }
    } else {
        out.push(PreviewFloor { room, floor_index: 0, y_offset: 0, active: false });
    }
}

/// The floors that the viewport draws: the active room and the rooms around it,
/// as far as `EDITOR_PREVIEW_PORTAL_DEPTH` portals away, nearest first. The walk
/// stops spreading once `max_rooms` floors are listed.
pub fn preview_room_grids(scene: &Scene, focus: &RoomFocus, max_rooms: usize) -> (result: Vec<
    PreviewFloor,
>)
    ensures
        result@ == preview_floors(scene.nodes@, *focus, max_rooms as int),
{
    let seeds = preview_room_seeds(scene, focus);
    let mut result: Vec<PreviewFloor> = Vec::new();
    let mut seen: Vec<NodeId> = Vec::new();
    let mut queue: Vec<(NodeId, usize)> = Vec::new();
    for i in 0..seeds.len()
        invariant
            queue@.len() == i,
            forall|j: int| 0 <= j < i ==> queue@[j] == (#[trigger] seeds@[j], 0usize),
    {
        queue.push((seeds[i], 0));
    }
    let mut head: usize = 0;
    proof {
        assert(remaining(queue@, 0) =~= queued(seeds@, 0));
    }
    while head < queue.len()
        invariant
            head <= queue@.len(),
            preview_floors(scene.nodes@, *focus, max_rooms as int) == walked(
                scene.nodes@,
                *focus,
                max_rooms as int,
                remaining(queue@, head as int),
                seen@,
                result@,
            ),
        decreases unseen_nodes(scene.nodes@, seen@), queue@.len() - head,
    {
        let (room, depth) = queue[head];
        let ghost before = remaining(queue@, head as int);
        head = head + 1;
        proof {
            assert(before[0] == (room, depth as int));
            assert(before.drop_first() =~= remaining(queue@, head as int));
            lemma_unseen_push(scene.nodes@, seen@, room);
            lemma_node_index(scene.nodes@, room, 0);
        }
        if contains_id(&seen, room) {
            continue;
        }
        seen.push(room);
        let Some(node) = scene.node(room) else {
            continue;
        };
        if node.hidden {
            continue;
        }
        let SceneNodeKind::Section { floor_count } = node.kind else {
            continue;
        };
        push_room_floors(room, floor_count, focus, &mut result);
        if result.len() >= max_rooms || depth >= EDITOR_PREVIEW_PORTAL_DEPTH {
            assert(remaining(queue@, head as int) + Seq::<(NodeId, int)>::empty() == remaining(
                queue@,
                head as int,
            ));
            continue;
        }
        queue_neighbours(scene, room, depth + 1, &seen, &mut queue, head);
    }
    assert(remaining(queue@, head as int).len() == 0);
    result
}

/// `room` can be reached from one of `starts` by crossing at most `k` portals.
pub open spec fn within_portals(
    nodes: Seq<SceneNode>,
    starts: Seq<NodeId>,
    room: NodeId,
    k: nat,
) -> bool
    decreases k,
{
    starts.contains(room) || (k > 0 && exists|via: NodeId|
        within_portals(nodes, starts, via, (k - 1) as nat) && #[trigger] neighbours(
            nodes,
            via,
        ).contains(room))
}

/// What holds of every stage of the walk.
spec fn walk_invariant(
    nodes: Seq<SceneNode>,
    focus: RoomFocus,
    starts: Seq<NodeId>,
    queue: Seq<(NodeId, int)>,
    seen: Seq<NodeId>,
    out: Seq<PreviewFloor>,
) -> bool {
    &&& forall|i: int|
        0 <= i < queue.len() ==> 0 <= (#[trigger] queue[i]).1 <= EDITOR_PREVIEW_PORTAL_DEPTH
            && within_portals(nodes, starts, queue[i].0, queue[i].1 as nat)
    &&& floors_listed(nodes, focus, starts, out)
    &&& forall|i: int| 0 <= i < out.len() ==> seen.contains((#[trigger] out[i]).room)
}

/// Every listed floor belongs to a room that is not hidden and lies within the
/// portal depth, and only the active room is listed more than once.
pub open spec fn floors_listed(
    nodes: Seq<SceneNode>,
    focus: RoomFocus,
    starts: Seq<NodeId>,
    out: Seq<PreviewFloor>,
) -> bool {
    &&& forall|i: int|
        0 <= i < out.len() ==> shown_room(nodes, (#[trigger] out[i]).room) && within_portals(
            nodes,
            starts,
            out[i].room,
            EDITOR_PREVIEW_PORTAL_DEPTH as nat,
        )
    &&& forall|i: int, j: int|
        0 <= i < j < out.len() && (#[trigger] out[i]).room == (#[trigger] out[j]).room
            ==> focus.active_room == Some(out[i].room)
}

proof fn lemma_within_more(nodes: Seq<SceneNode>, starts: Seq<NodeId>, room: NodeId, k: nat, m: nat)
    requires
        k <= m,
        within_portals(nodes, starts, room, k),
    ensures
        within_portals(nodes, starts, room, m),
    decreases k,
{
    if !starts.contains(room) {
        let via = choose|via: NodeId|
            within_portals(nodes, starts, via, (k - 1) as nat) && #[trigger] neighbours(
                nodes,
                via,
            ).contains(room);
        lemma_within_more(nodes, starts, via, (k - 1) as nat, (m - 1) as nat);
    }
}

proof fn lemma_room_floors(room: NodeId, floor_count: usize, resolved: Seq<ResolvedFloor>, n: nat)
    ensures
        forall|i: int|
            0 <= i < active_room_floors(room, floor_count, resolved, n).len()
                ==> (#[trigger] active_room_floors(room, floor_count, resolved, n)[i]).room == room,
    decreases n,
{
    if n > 0 {
        lemma_room_floors(room, floor_count, resolved, (n - 1) as nat);
        let before = active_room_floors(room, floor_count, resolved, (n - 1) as nat);
        let now = active_room_floors(room, floor_count, resolved, n);
        assert forall|i: int| 0 <= i < now.len() implies (#[trigger] now[i]).room == room by {
            if i < before.len() {
                assert(now[i] == before[i]);
            }
        }
    }
}

proof fn lemma_walk_keeps_invariant(
    nodes: Seq<SceneNode>,
    focus: RoomFocus,
    max_rooms: int,
    starts: Seq<NodeId>,
    queue: Seq<(NodeId, int)>,
    seen: Seq<NodeId>,
    out: Seq<PreviewFloor>,
)
    requires
        walk_invariant(nodes, focus, starts, queue, seen, out),
    ensures
        floors_listed(nodes, focus, starts, walked(nodes, focus, max_rooms, queue, seen, out)),
    decreases unseen_nodes(nodes, seen), queue.len(),
{
    if queue.len() > 0 {
        let (room, depth) = queue[0];
        let rest = queue.drop_first();
        let now_seen = seen.push(room);
        lemma_unseen_push(nodes, seen, room);
        lemma_node_index(nodes, room, 0);
        assert forall|x: NodeId| seen.contains(x) || x == room implies now_seen.contains(x) by {
            if seen.contains(x) {
                let k = choose|k: int| 0 <= k < seen.len() && seen[k] == x;
                assert(now_seen[k] == x);
            } else {
                assert(now_seen[seen.len() as int] == x);
            }
        }
        if seen.contains(room) {
            lemma_walk_keeps_invariant(nodes, focus, max_rooms, starts, rest, seen, out);
        } else {
            match node_of(nodes, room) {
                Some(SceneNode { kind: SceneNodeKind::Section { floor_count }, hidden: false, .. }) => {
                    let floors = room_floors(room, floor_count, focus);
                    let now_out = out + floors;
                    lemma_room_floors(
                        room,
                        floor_count,
                        focus.active_floors@,
                        focus.active_floors@.len(),
                    );
                    lemma_within_more(
                        nodes,
                        starts,
                        room,
                        depth as nat,
                        EDITOR_PREVIEW_PORTAL_DEPTH as nat,
                    );
                    assert forall|i: int| 0 <= i < now_out.len() implies now_seen.contains(
                        (#[trigger] now_out[i]).room,
                    ) && shown_room(nodes, now_out[i].room) && within_portals(
                        nodes,
                        starts,
                        now_out[i].room,
                        EDITOR_PREVIEW_PORTAL_DEPTH as nat,
                    ) by {
                        if i < out.len() {
                            assert(now_out[i] == out[i]);
                        } else {
                            assert(now_out[i] == floors[i - out.len()]);
                        }
                    }
                    assert forall|i: int, j: int|
                        0 <= i < j < now_out.len() && (#[trigger] now_out[i]).room == (
                        #[trigger] now_out[j]).room implies focus.active_room == Some(
                        now_out[i].room,
                    ) by {
                        if j < out.len() {
                            assert(now_out[i] == out[i] && now_out[j] == out[j]);
                        } else {
                            assert(now_out[j] == floors[j - out.len()]);
                            if i < out.len() {
                                assert(now_out[i] == out[i]);
                                assert(seen.contains(out[i].room));
                            } else {
                                assert(now_out[i] == floors[i - out.len()]);
                            }
                        }
                    }
                    let fresh = new_neighbours(nodes, room, now_seen);
                    let further = if now_out.len() >= max_rooms || depth
                        >= EDITOR_PREVIEW_PORTAL_DEPTH {
                        Seq::empty()
                    } else {
                        queued(fresh, depth + 1)
                    };
                    let next = rest + further;
                    assert forall|i: int| 0 <= i < next.len() implies 0 <= (#[trigger] next[i]).1
                        <= EDITOR_PREVIEW_PORTAL_DEPTH && within_portals(
                        nodes,
                        starts,
                        next[i].0,
                        next[i].1 as nat,
                    ) by {
                        if i < rest.len() {
                            assert(next[i] == queue[i + 1]);
                        } else {
                            let k = i - rest.len();
                            assert(next[i] == further[k]);
                            assert(further[k] == (fresh[k], depth + 1));
                            assert(fresh.contains(fresh[k]));
                            neighbours(nodes, room).lemma_filter_contains_rev(
                                |other: NodeId| !now_seen.contains(other),
                                fresh[k],
                            );
                            assert(within_portals(nodes, starts, room, depth as nat));
                        }
                    }
                    lemma_walk_keeps_invariant(
                        nodes,
                        focus,
                        max_rooms,
                        starts,
                        next,
                        now_seen,
                        now_out,
                    );
                },
                _ => {
                    lemma_walk_keeps_invariant(
                        nodes,
                        focus,
                        max_rooms,
                        starts,
                        rest,
                        now_seen,
                        out,
                    );
                },
            }
        }
    }
}

/// The viewport draws only rooms that are not hidden and that lie at most
/// `EDITOR_PREVIEW_PORTAL_DEPTH` portals from a starting room, and it draws no
/// room twice but for the floors of the active one.
pub proof fn law_preview_is_a_bounded_neighbourhood(
    nodes: Seq<SceneNode>,
    focus: RoomFocus,
    max_rooms: int,
)
    ensures
        floors_listed(
            nodes,
            focus,
            start_rooms(nodes, focus),
            preview_floors(nodes, focus, max_rooms),
        ),
{
    let starts = start_rooms(nodes, focus);
    let queue = queued(starts, 0);
    assert forall|i: int| 0 <= i < queue.len() implies 0 <= (#[trigger] queue[i]).1
        <= EDITOR_PREVIEW_PORTAL_DEPTH && within_portals(
        nodes,
        starts,
        queue[i].0,
        queue[i].1 as nat,
    ) by {
        assert(queue[i].0 == starts[i]);
    }
    lemma_walk_keeps_invariant(
        nodes,
        focus,
        max_rooms,
        starts,
        queue,
        Seq::empty(),
        Seq::empty(),
    );
}

/// A portal node that one of two rooms owns leads to the other.
pub open spec fn portal_joins(nodes: Seq<SceneNode>, a: NodeId, b: NodeId) -> bool {
    a != b && exists|i: int|
        0 <= i < nodes.len() && ((#[trigger] nodes[i]).kind matches SceneNodeKind::Portal {
            target_room: Some(target),
        } && ((target == b && room_above(nodes, nodes[i].id, nodes.len()) == Some(a)) || (target
            == a && room_above(nodes, nodes[i].id, nodes.len()) == Some(b))))
}

/// Two rooms are neighbours exactly if a portal of either leads to the other.
pub proof fn law_neighbours_are_joined_by_a_portal(nodes: Seq<SceneNode>, a: NodeId, b: NodeId)
    ensures
        neighbours(nodes, a).contains(b) <==> portal_joins(nodes, a, b),
{
    lemma_joined_rooms(nodes, a, nodes.len(), b);
    if portal_joins(nodes, a, b) {
        let i = choose|i: int|
            0 <= i < nodes.len() && ((#[trigger] nodes[i]).kind matches SceneNodeKind::Portal {
                target_room: Some(target),
            } && ((target == b && room_above(nodes, nodes[i].id, nodes.len()) == Some(a)) || (target
                == a && room_above(nodes, nodes[i].id, nodes.len()) == Some(b))));
        assert(portal_neighbour(nodes, a, nodes[i]) == Some(b));
    }
    if neighbours(nodes, a).contains(b) {
        let i = choose|i: int|
            0 <= i < nodes.len() && portal_neighbour(nodes, a, #[trigger] nodes[i]) == Some(b);
        assert(nodes[i].kind is Portal);
    }
}

/// `room` can be reached from one of `starts` by crossing at most `k` portals, in
/// either direction, on a way through rooms that are not hidden.
pub open spec fn reachable(nodes: Seq<SceneNode>, starts: Seq<NodeId>, room: NodeId, k: nat) -> bool
    decreases k,
{
    starts.contains(room) || (k > 0 && exists|via: NodeId|
        shown_room(nodes, via) && reachable(nodes, starts, via, (k - 1) as nat)
            && #[trigger] portal_joins(nodes, via, room))
}

/// The floors of a room are listed: the resolved ones of the active room that it
/// has, the base floor of any other.
pub open spec fn lists_room(
    nodes: Seq<SceneNode>,
    focus: RoomFocus,
    out: Seq<PreviewFloor>,
    room: NodeId,
) -> bool {
    if focus.active_room == Some(room) {
        forall|i: int|
            0 <= i < focus.active_floors@.len() ==> {
                let floor = #[trigger] focus.active_floors@[i];
                (node_of(nodes, room) matches Some(node) && node.kind matches SceneNodeKind::Section {
                    floor_count,
                } && floor.floor_index < floor_count) ==> out.contains(
                    PreviewFloor {
                        room,
                        floor_index: floor.floor_index,
                        y_offset: floor.y_offset,
                        active: floor.active,
                    },
                )
            }
    } else {
        out.contains(PreviewFloor { room, floor_index: 0, y_offset: 0, active: false })
    }
}

/// A room was looked at after at most `k` portals.
spec fn seen_within(seen: Seq<NodeId>, marks: Seq<int>, room: NodeId, k: int) -> bool {
    exists|i: int| 0 <= i < seen.len() && (#[trigger] seen[i]) == room && marks[i] <= k
}

/// A room waits to be looked at after at most `k` portals.
spec fn waits_within(queue: Seq<(NodeId, int)>, room: NodeId, k: int) -> bool {
    exists|i: int| 0 <= i < queue.len() && (#[trigger] queue[i]).0 == room && queue[i].1 <= k
}

/// What holds of every stage of the walk while there is room for more; `marks`
/// tells after how many portals each room was looked at.
spec fn covers(
    nodes: Seq<SceneNode>,
    focus: RoomFocus,
    starts: Seq<NodeId>,
    queue: Seq<(NodeId, int)>,
    seen: Seq<NodeId>,
    marks: Seq<int>,
    out: Seq<PreviewFloor>,
) -> bool {
    &&& marks.len() == seen.len()
    &&& forall|i: int, j: int|
        0 <= i <= j < queue.len() ==> (#[trigger] queue[i]).1 <= (#[trigger] queue[j]).1
            <= queue[0].1 + 1
    &&& forall|i: int, j: int|
        0 <= i < seen.len() && 0 <= j < queue.len() ==> #[trigger] marks[i] <= (
        #[trigger] queue[j]).1
    &&& forall|s: NodeId|
        #[trigger] starts.contains(s) ==> seen_within(seen, marks, s, 0) || waits_within(queue, s, 0)
    &&& forall|i: int, room: NodeId|
        0 <= i < seen.len() && shown_room(nodes, seen[i]) && marks[i] < EDITOR_PREVIEW_PORTAL_DEPTH
            && #[trigger] portal_joins(nodes, seen[i], room) ==> seen_within(
            seen,
            marks,
            room,
            marks[i] + 1,
        ) || waits_within(queue, room, marks[i] + 1)
    &&& forall|i: int|
        0 <= i < seen.len() && shown_room(nodes, #[trigger] seen[i]) ==> lists_room(
            nodes,
            focus,
            out,
            seen[i],
        )
}

proof fn lemma_walk_extends(
    nodes: Seq<SceneNode>,
    focus: RoomFocus,
    max_rooms: int,
    queue: Seq<(NodeId, int)>,
    seen: Seq<NodeId>,
    out: Seq<PreviewFloor>,
)
    ensures
        out.len() <= walked(nodes, focus, max_rooms, queue, seen, out).len(),
    decreases unseen_nodes(nodes, seen), queue.len(),
{
    if queue.len() > 0 {
        let (room, depth) = queue[0];
        let rest = queue.drop_first();
        let now_seen = seen.push(room);
        lemma_unseen_push(nodes, seen, room);
        lemma_node_index(nodes, room, 0);
        if seen.contains(room) {
            lemma_walk_extends(nodes, focus, max_rooms, rest, seen, out);
        } else {
            match node_of(nodes, room) {
                Some(SceneNode { kind: SceneNodeKind::Section { floor_count }, hidden: false, .. }) => {
                    let now_out = out + room_floors(room, floor_count, focus);
                    let further = if now_out.len() >= max_rooms || depth
                        >= EDITOR_PREVIEW_PORTAL_DEPTH {
                        Seq::empty()
                    } else {
                        queued(new_neighbours(nodes, room, now_seen), depth + 1)
                    };
                    lemma_walk_extends(nodes, focus, max_rooms, rest + further, now_seen, now_out);
                },
                _ => lemma_walk_extends(nodes, focus, max_rooms, rest, now_seen, out),
            }
        }
    }
}

proof fn lemma_floors_of_active(room: NodeId, floor_count: usize, resolved: Seq<ResolvedFloor>, n: nat, k: int)
    requires
        0 <= k < n <= resolved.len(),
        resolved[k].floor_index < floor_count,
    ensures
        active_room_floors(room, floor_count, resolved, n).contains(
            PreviewFloor {
                room,
                floor_index: resolved[k].floor_index,
                y_offset: resolved[k].y_offset,
                active: resolved[k].active,
            },
        ),
    decreases n,
{
    let before = active_room_floors(room, floor_count, resolved, (n - 1) as nat);
    let now = active_room_floors(room, floor_count, resolved, n);
    let floor = PreviewFloor {
        room,
        floor_index: resolved[k].floor_index,
        y_offset: resolved[k].y_offset,
        active: resolved[k].active,
    };
    if k == n - 1 {
        assert(now[now.len() - 1] == floor);
    } else {
        lemma_floors_of_active(room, floor_count, resolved, (n - 1) as nat, k);
        let i = choose|i: int| 0 <= i < before.len() && before[i] == floor;
        assert(now[i] == floor);
    }
}

proof fn lemma_lists_more(
    nodes: Seq<SceneNode>,
    focus: RoomFocus,
    out: Seq<PreviewFloor>,
    floors: Seq<PreviewFloor>,
    room: NodeId,
)
    requires
        lists_room(nodes, focus, out, room) || lists_room(nodes, focus, floors, room),
    ensures
        lists_room(nodes, focus, out + floors, room),
{
    let all = out + floors;
    assert forall|floor: PreviewFloor| out.contains(floor) || floors.contains(floor) implies all.contains(
        floor,
    ) by {
        if out.contains(floor) {
            let i = choose|i: int| 0 <= i < out.len() && out[i] == floor;
            assert(all[i] == floor);
        } else {
            let i = choose|i: int| 0 <= i < floors.len() && floors[i] == floor;
            assert(all[out.len() + i] == floor);
        }
    }
}

proof fn lemma_room_is_listed(
    nodes: Seq<SceneNode>,
    focus: RoomFocus,
    room: NodeId,
    floor_count: usize,
)
    requires
        node_of(nodes, room) matches Some(node) && node.kind == (SceneNodeKind::Section {
            floor_count,
        }),
    ensures
        lists_room(nodes, focus, room_floors(room, floor_count, focus), room),
{
    let floors = room_floors(room, floor_count, focus);
    if focus.active_room == Some(room) {
        assert forall|i: int| 0 <= i < focus.active_floors@.len() implies ({
            let floor = #[trigger] focus.active_floors@[i];
            floor.floor_index < floor_count ==> floors.contains(
                PreviewFloor {
                    room,
                    floor_index: floor.floor_index,
                    y_offset: floor.y_offset,
                    active: floor.active,
                },
            )
        }) by {
            if focus.active_floors@[i].floor_index < floor_count {
                lemma_floors_of_active(
                    room,
                    floor_count,
                    focus.active_floors@,
                    focus.active_floors@.len(),
                    i,
                );
            }
        }
    } else {
        assert(floors[0] == (PreviewFloor { room, floor_index: 0, y_offset: 0, active: false }));
    }
}

/// Taking the first room from the queue keeps what was promised of every other.
proof fn lemma_taken(
    queue: Seq<(NodeId, int)>,
    next: Seq<(NodeId, int)>,
    seen: Seq<NodeId>,
    marks: Seq<int>,
    now_seen: Seq<NodeId>,
    now_marks: Seq<int>,
    room: NodeId,
    k: int,
)
    requires
        queue.len() > 0,
        marks.len() == seen.len(),
        now_seen == seen && now_marks == marks || now_seen == seen.push(queue[0].0) && now_marks
            == marks.push(queue[0].1),
        now_seen == seen ==> seen_within(seen, marks, queue[0].0, queue[0].1),
        forall|i: int| 1 <= i < queue.len() ==> next.contains(#[trigger] queue[i]),
        seen_within(seen, marks, room, k) || waits_within(queue, room, k),
    ensures
        seen_within(now_seen, now_marks, room, k) || waits_within(next, room, k),
{
    if seen_within(seen, marks, room, k) {
        let i = choose|i: int| 0 <= i < seen.len() && (#[trigger] seen[i]) == room && marks[i] <= k;
        assert(now_seen[i] == room && now_marks[i] == marks[i]);
    } else {
        let i = choose|i: int|
            0 <= i < queue.len() && (#[trigger] queue[i]).0 == room && queue[i].1 <= k;
        if i == 0 {
            if now_seen == seen {
                let j = choose|j: int|
                    0 <= j < seen.len() && (#[trigger] seen[j]) == room && marks[j] <= queue[0].1;
                assert(now_seen[j] == room);
            } else {
                assert(now_seen[seen.len() as int] == room);
            }
        } else {
            assert(next.contains(queue[i]));
            let j = choose|j: int| 0 <= j < next.len() && next[j] == queue[i];
            assert(next[j].0 == room);
        }
    }
}

proof fn lemma_walk_covers(
    nodes: Seq<SceneNode>,
    focus: RoomFocus,
    max_rooms: int,
    starts: Seq<NodeId>,
    queue: Seq<(NodeId, int)>,
    seen: Seq<NodeId>,
    marks: Seq<int>,
    out: Seq<PreviewFloor>,
    room: NodeId,
)
    requires
        covers(nodes, focus, starts, queue, seen, marks, out),
        walked(nodes, focus, max_rooms, queue, seen, out).len() < max_rooms,
        shown_room(nodes, room),
        reachable(nodes, starts, room, EDITOR_PREVIEW_PORTAL_DEPTH as nat),
    ensures
        lists_room(nodes, focus, walked(nodes, focus, max_rooms, queue, seen, out), room),
    decreases unseen_nodes(nodes, seen), queue.len(),
{
    if queue.len() == 0 {
        lemma_reachable_is_seen(
            nodes,
            focus,
            starts,
            seen,
            marks,
            out,
            room,
            EDITOR_PREVIEW_PORTAL_DEPTH as nat,
        );
        let i = choose|i: int|
            0 <= i < seen.len() && (#[trigger] seen[i]) == room && marks[i]
                <= EDITOR_PREVIEW_PORTAL_DEPTH;
        assert(shown_room(nodes, seen[i]));
    } else {
        let (head, depth) = queue[0];
        let rest = queue.drop_first();
        let now_seen = seen.push(head);
        let now_marks = marks.push(depth);
        lemma_unseen_push(nodes, seen, head);
        lemma_node_index(nodes, head, 0);
        if seen.contains(head) {
            let j = choose|j: int| 0 <= j < seen.len() && seen[j] == head;
            assert(marks[j] <= queue[0].1);
            assert(seen_within(seen, marks, head, depth));
            lemma_step(nodes, focus, starts, queue, rest, seen, marks, seen, marks, out, out, false);
            lemma_walk_covers(
                nodes,
                focus,
                max_rooms,
                starts,
                rest,
                seen,
                marks,
                out,
                room,
            );
        } else {
            match node_of(nodes, head) {
                Some(SceneNode { kind: SceneNodeKind::Section { floor_count }, hidden: false, .. }) => {
                    let floors = room_floors(head, floor_count, focus);
                    let now_out = out + floors;
                    let further = if now_out.len() >= max_rooms || depth
                        >= EDITOR_PREVIEW_PORTAL_DEPTH {
                        Seq::empty()
                    } else {
                        queued(new_neighbours(nodes, head, now_seen), depth + 1)
                    };
                    let next = rest + further;
                    lemma_walk_extends(nodes, focus, max_rooms, next, now_seen, now_out);
                    lemma_room_is_listed(nodes, focus, head, floor_count);
                    assert forall|id: NodeId| #[trigger]
                        lists_room(nodes, focus, out, id) || id == head implies lists_room(
                        nodes,
                        focus,
                        now_out,
                        id,
                    ) by {
                        lemma_lists_more(nodes, focus, out, floors, id);
                    }
                    assert(lists_room(nodes, focus, now_out, head)) by {
                        lemma_lists_more(nodes, focus, out, floors, head);
                    }
                    if depth < EDITOR_PREVIEW_PORTAL_DEPTH {
                        assert forall|other: NodeId| #[trigger]
                            portal_joins(nodes, head, other) implies seen_within(
                            now_seen,
                            now_marks,
                            other,
                            depth + 1,
                        ) || waits_within(next, other, depth + 1) by {
                            lemma_joined_is_met(
                                nodes,
                                queue,
                                rest,
                                seen,
                                marks,
                                head,
                                depth,
                                other,
                            );
                        }
                    }
                    lemma_step(
                        nodes,
                        focus,
                        starts,
                        queue,
                        next,
                        seen,
                        marks,
                        now_seen,
                        now_marks,
                        out,
                        now_out,
                        true,
                    );
                    lemma_walk_covers(
                        nodes,
                        focus,
                        max_rooms,
                        starts,
                        next,
                        now_seen,
                        now_marks,
                        now_out,
                        room,
                    );
                },
                _ => {
                    assert(!shown_room(nodes, head));
                    lemma_step(
                        nodes,
                        focus,
                        starts,
                        queue,
                        rest,
                        seen,
                        marks,
                        now_seen,
                        now_marks,
                        out,
                        out,
                        false,
                    );
                    lemma_walk_covers(
                        nodes,
                        focus,
                        max_rooms,
                        starts,
                        rest,
                        now_seen,
                        now_marks,
                        out,
                        room,
                    );
                },
            }
        }
    }
}

/// A neighbour of the room that is looked at was seen before or waits now.
proof fn lemma_joined_is_met(
    nodes: Seq<SceneNode>,
    queue: Seq<(NodeId, int)>,
    rest: Seq<(NodeId, int)>,
    seen: Seq<NodeId>,
    marks: Seq<int>,
    head: NodeId,
    depth: int,
    other: NodeId,
)
    requires
        queue.len() > 0,
        queue[0] == (head, depth),
        marks.len() == seen.len(),
        forall|i: int, j: int|
            0 <= i < seen.len() && 0 <= j < queue.len() ==> #[trigger] marks[i] <= (
            #[trigger] queue[j]).1,
        portal_joins(nodes, head, other),
    ensures
        ({
            let now_seen = seen.push(head);
            let next = rest + queued(new_neighbours(nodes, head, now_seen), depth + 1);
            seen_within(now_seen, marks.push(depth), other, depth + 1) || waits_within(
                next,
                other,
                depth + 1,
            )
        }),
{
    let now_seen = seen.push(head);
    let now_marks = marks.push(depth);
    let fresh = new_neighbours(nodes, head, now_seen);
    let further = queued(fresh, depth + 1);
    let next = rest + further;
    law_neighbours_are_joined_by_a_portal(nodes, head, other);
    if now_seen.contains(other) {
        let j = choose|j: int| 0 <= j < now_seen.len() && now_seen[j] == other;
        if j < seen.len() {
            assert(marks[j] <= queue[0].1);
            assert(now_marks[j] == marks[j]);
        } else {
            assert(now_marks[j] == depth);
        }
        assert(now_seen[j] == other && now_marks[j] <= depth + 1);
    } else {
        let unseen = |id: NodeId| !now_seen.contains(id);
        let at = choose|at: int|
            0 <= at < neighbours(nodes, head).len() && neighbours(nodes, head)[at] == other;
        neighbours(nodes, head).lemma_filter_contains(unseen, at);
        assert(fresh.contains(other));
        let j = choose|j: int| 0 <= j < fresh.len() && fresh[j] == other;
        assert(further[j] == (other, depth + 1));
        assert(next[rest.len() + j] == further[j]);
    }
}

proof fn lemma_step(
    nodes: Seq<SceneNode>,
    focus: RoomFocus,
    starts: Seq<NodeId>,
    queue: Seq<(NodeId, int)>,
    next: Seq<(NodeId, int)>,
    seen: Seq<NodeId>,
    marks: Seq<int>,
    now_seen: Seq<NodeId>,
    now_marks: Seq<int>,
    out: Seq<PreviewFloor>,
    now_out: Seq<PreviewFloor>,
    drawn: bool,
)
    requires
        queue.len() > 0,
        covers(nodes, focus, starts, queue, seen, marks, out),
        now_seen == seen && now_marks == marks || now_seen == seen.push(queue[0].0) && now_marks
            == marks.push(queue[0].1),
        now_seen == seen ==> seen_within(seen, marks, queue[0].0, queue[0].1),
        queue.len() - 1 <= next.len(),
        forall|i: int| 0 <= i < queue.len() - 1 ==> #[trigger] next[i] == queue[i + 1],
        forall|i: int|
            queue.len() - 1 <= i < next.len() ==> (#[trigger] next[i]).1 == queue[0].1 + 1,
        forall|id: NodeId| #[trigger]
            lists_room(nodes, focus, out, id) ==> lists_room(nodes, focus, now_out, id),
        drawn ==> lists_room(nodes, focus, now_out, queue[0].0),
        now_seen != seen && !drawn ==> !shown_room(nodes, queue[0].0),
        drawn && queue[0].1 < EDITOR_PREVIEW_PORTAL_DEPTH ==> forall|other: NodeId| #[trigger]
            portal_joins(nodes, queue[0].0, other) ==> seen_within(
                now_seen,
                now_marks,
                other,
                queue[0].1 + 1,
            ) || waits_within(next, other, queue[0].1 + 1),
    ensures
        covers(nodes, focus, starts, next, now_seen, now_marks, now_out),
{
    let depth = queue[0].1;
    assert forall|i: int| 1 <= i < queue.len() implies next.contains(#[trigger] queue[i]) by {
        assert(next[i - 1] == queue[(i - 1) + 1]);
    }
    assert forall|i: int| 0 <= i < next.len() implies depth <= (#[trigger] next[i]).1 <= depth
        + 1 by {
        if i < queue.len() - 1 {
            assert(next[i] == queue[i + 1]);
            assert(queue[0].1 <= queue[i + 1].1);
        }
    }
    assert forall|i: int, j: int| 0 <= i <= j < next.len() implies (#[trigger] next[i]).1 <= (
    #[trigger] next[j]).1 <= next[0].1 + 1 by {
        if j < queue.len() - 1 {
            assert(next[i] == queue[i + 1] && next[j] == queue[j + 1]);
            assert(queue[i + 1].1 <= queue[j + 1].1);
        }
    }
    assert forall|i: int, j: int| 0 <= i < now_seen.len() && 0 <= j < next.len() implies #[trigger]
    now_marks[i] <= (#[trigger] next[j]).1 by {
        if i < seen.len() {
            assert(now_marks[i] == marks[i]);
            assert(marks[i] <= queue[0].1);
        }
    }
    assert forall|s: NodeId| #[trigger] starts.contains(s) implies seen_within(
        now_seen,
        now_marks,
        s,
        0,
    ) || waits_within(next, s, 0) by {
        lemma_taken(queue, next, seen, marks, now_seen, now_marks, s, 0);
    }
    assert forall|i: int, other: NodeId|
        0 <= i < now_seen.len() && shown_room(nodes, now_seen[i]) && now_marks[i]
            < EDITOR_PREVIEW_PORTAL_DEPTH && #[trigger] portal_joins(
            nodes,
            now_seen[i],
            other,
        ) implies seen_within(now_seen, now_marks, other, now_marks[i] + 1) || waits_within(
        next,
        other,
        now_marks[i] + 1,
    ) by {
        if i < seen.len() {
            assert(now_seen[i] == seen[i] && now_marks[i] == marks[i]);
            assert(portal_joins(nodes, seen[i], other));
            lemma_taken(
                queue,
                next,
                seen,
                marks,
                now_seen,
                now_marks,
                other,
                marks[i] + 1,
            );
        }
    }
    assert forall|i: int| 0 <= i < now_seen.len() && shown_room(
        nodes,
        #[trigger] now_seen[i],
    ) implies lists_room(nodes, focus, now_out, now_seen[i]) by {
        if i < seen.len() {
            assert(now_seen[i] == seen[i]);
            assert(lists_room(nodes, focus, out, seen[i]));
        }
    }
}

proof fn lemma_reachable_is_seen(
    nodes: Seq<SceneNode>,
    focus: RoomFocus,
    starts: Seq<NodeId>,
    seen: Seq<NodeId>,
    marks: Seq<int>,
    out: Seq<PreviewFloor>,
    room: NodeId,
    k: nat,
)
    requires
        covers(nodes, focus, starts, Seq::empty(), seen, marks, out),
        reachable(nodes, starts, room, k),
        k <= EDITOR_PREVIEW_PORTAL_DEPTH,
    ensures
        seen_within(seen, marks, room, k as int),
    decreases k,
{
    let none = Seq::<(NodeId, int)>::empty();
    if starts.contains(room) {
        assert(seen_within(seen, marks, room, 0) || waits_within(none, room, 0));
        let i = choose|i: int| 0 <= i < seen.len() && (#[trigger] seen[i]) == room && marks[i] <= 0;
        assert(seen[i] == room && marks[i] <= k);
    } else {
        let via = choose|via: NodeId|
            shown_room(nodes, via) && reachable(nodes, starts, via, (k - 1) as nat)
                && #[trigger] portal_joins(nodes, via, room);
        lemma_reachable_is_seen(nodes, focus, starts, seen, marks, out, via, (k - 1) as nat);
        let i = choose|i: int|
            0 <= i < seen.len() && (#[trigger] seen[i]) == via && marks[i] <= k - 1;
        assert(portal_joins(nodes, seen[i], room));
        assert(seen_within(seen, marks, room, marks[i] + 1) || waits_within(
            none,
            room,
            marks[i] + 1,
        ));
        let j = choose|j: int|
            0 <= j < seen.len() && (#[trigger] seen[j]) == room && marks[j] <= marks[i] + 1;
        assert(seen[j] == room && marks[j] <= k);
    }
}

/// While fewer than `max_rooms` floors are listed, every room that is not hidden
/// and can be reached from a starting room through shown rooms by crossing at
/// most `EDITOR_PREVIEW_PORTAL_DEPTH` portals, in either direction, is drawn: the
/// active one with its resolved floors, any other with its base floor.
pub proof fn law_preview_covers_the_neighbourhood(
    nodes: Seq<SceneNode>,
    focus: RoomFocus,
    max_rooms: int,
    room: NodeId,
)
    requires
        preview_floors(nodes, focus, max_rooms).len() < max_rooms,
        shown_room(nodes, room),
        reachable(
            nodes,
            start_rooms(nodes, focus),
            room,
            EDITOR_PREVIEW_PORTAL_DEPTH as nat,
        ),
    ensures
        lists_room(nodes, focus, preview_floors(nodes, focus, max_rooms), room),
{
    let starts = start_rooms(nodes, focus);
    let queue = queued(starts, 0);
    let none = Seq::<NodeId>::empty();
    let marks = Seq::<int>::empty();
    assert forall|s: NodeId| #[trigger] starts.contains(s) implies waits_within(queue, s, 0) by {
        let i = choose|i: int| 0 <= i < starts.len() && starts[i] == s;
        assert(queue[i].0 == s && queue[i].1 == 0);
    }
    lemma_walk_covers(
        nodes,
        focus,
        max_rooms,
        starts,
        queue,
        none,
        marks,
        Seq::empty(),
        room,
    );
}

proof fn lemma_with_seed(
    nodes: Seq<SceneNode>,
    seeds: Seq<NodeId>,
    room: Option<NodeId>,
    id: NodeId,
)
    ensures
        with_seed(nodes, seeds, room).contains(id) <==> seeds.contains(id) || (room == Some(id)
            && shown_room(nodes, id)),
{
    let now = with_seed(nodes, seeds, room);
    if now != seeds {
        assert(now[seeds.len() as int] == room->0);
        if seeds.contains(id) {
            let k = choose|k: int| 0 <= k < seeds.len() && seeds[k] == id;
            assert(now[k] == id);
        }
        if now.contains(id) && !seeds.contains(id) {
            let k = choose|k: int| 0 <= k < now.len() && now[k] == id;
            if k < seeds.len() {
                assert(seeds[k] == id);
            }
        }
    }
}

proof fn lemma_with_seeds(
    nodes: Seq<SceneNode>,
    seeds: Seq<NodeId>,
    rooms: Seq<NodeId>,
    n: nat,
    id: NodeId,
)
    requires
        n <= rooms.len(),
    ensures
        with_seeds(nodes, seeds, rooms, n).contains(id) <==> seeds.contains(id) || (rooms.take(
            n as int,
        ).contains(id) && shown_room(nodes, id)),
    decreases n,
{
    if n > 0 {
        lemma_with_seeds(nodes, seeds, rooms, (n - 1) as nat, id);
        lemma_with_seed(
            nodes,
            with_seeds(nodes, seeds, rooms, (n - 1) as nat),
            Some(rooms[n - 1]),
            id,
        );
        let now = rooms.take(n as int);
        let before = rooms.take(n - 1);
        assert(now[n - 1] == rooms[n - 1]);
        if before.contains(id) {
            let k = choose|k: int| 0 <= k < before.len() && before[k] == id;
            assert(now[k] == id);
        }
        if now.contains(id) && rooms[n - 1] != id {
            let k = choose|k: int| 0 <= k < now.len() && now[k] == id;
            assert(before[k] == id);
        }
    }
}

/// The editor points at a room: it is the active one, that of the selection or of
/// a selected primitive, or one with a validation issue.
pub open spec fn points_at(nodes: Seq<SceneNode>, focus: RoomFocus, id: NodeId) -> bool {
    ||| focus.active_room == Some(id)
    ||| focus.selected_primitive == Some(id)
    ||| focus.selected_primitives@.contains(id)
    ||| shown_room_above(nodes, focus.selected, nodes.len()) == Some(id)
    ||| focus.validation_issue_primitives@.contains(id)
}

/// The walk starts at every room that the editor points at and that is not
/// hidden, and at no other; if there is none, at the first room of the scene that
/// is not hidden.
pub proof fn law_walk_starts_where_the_editor_points(
    nodes: Seq<SceneNode>,
    focus: RoomFocus,
    id: NodeId,
)
    ensures
        shown_room(nodes, id) && points_at(nodes, focus, id) ==> start_rooms(nodes, focus).contains(
            id,
        ),
        start_rooms(nodes, focus).contains(id) ==> (shown_room(nodes, id) && points_at(
            nodes,
            focus,
            id,
        )) || (start_rooms(nodes, focus) == seq![id] && shown_rooms(nodes, nodes.len()).len() > 0
            && id == shown_rooms(nodes, nodes.len())[0] && (forall|other: NodeId|
            shown_room(nodes, other) ==> !#[trigger] points_at(nodes, focus, other))),
        start_rooms(nodes, focus).len() == 0 ==> shown_rooms(nodes, nodes.len()).len() == 0,
{
    lemma_starts(nodes, focus, id);
    let s4 = pointed_rooms(nodes, focus);
    if s4.len() == 0 {
        assert forall|other: NodeId| shown_room(nodes, other) implies !#[trigger] points_at(
            nodes,
            focus,
            other,
        ) by {
            lemma_starts(nodes, focus, other);
        }
    }
}

/// The starting rooms before the first of the scene stands in for none.
spec fn pointed_rooms(nodes: Seq<SceneNode>, focus: RoomFocus) -> Seq<NodeId> {
    let s0 = with_seed(nodes, Seq::empty(), focus.active_room);
    let s1 = with_seed(nodes, s0, focus.selected_primitive);
    let s2 = with_seeds(
        nodes,
        s1,
        focus.selected_primitives@,
        focus.selected_primitives@.len(),
    );
    let s3 = with_seed(nodes, s2, shown_room_above(nodes, focus.selected, nodes.len()));
    with_seeds(
        nodes,
        s3,
        focus.validation_issue_primitives@,
        focus.validation_issue_primitives@.len(),
    )
}

proof fn lemma_starts(nodes: Seq<SceneNode>, focus: RoomFocus, id: NodeId)
    ensures
        pointed_rooms(nodes, focus).contains(id) <==> shown_room(nodes, id) && points_at(
            nodes,
            focus,
            id,
        ),
{
    let none = Seq::<NodeId>::empty();
    let s0 = with_seed(nodes, none, focus.active_room);
    let s1 = with_seed(nodes, s0, focus.selected_primitive);
    let a = focus.selected_primitives@;
    let s2 = with_seeds(nodes, s1, a, a.len());
    let above = shown_room_above(nodes, focus.selected, nodes.len());
    let s3 = with_seed(nodes, s2, above);
    let b = focus.validation_issue_primitives@;
    lemma_with_seed(nodes, none, focus.active_room, id);
    lemma_with_seed(nodes, s0, focus.selected_primitive, id);
    lemma_with_seeds(nodes, s1, a, a.len(), id);
    lemma_with_seed(nodes, s2, above, id);
    lemma_with_seeds(nodes, s3, b, b.len(), id);
    assert(a.take(a.len() as int) =~= a);
    assert(b.take(b.len() as int) =~= b);
}

/// The rooms that are not hidden are listed, and nothing else: every room node
/// that is shown, in the order of the scene.
pub proof fn law_every_shown_room_is_listed(nodes: Seq<SceneNode>, n: nat, k: int)
    requires
        n <= nodes.len(),
        0 <= k < n,
    ensures
        nodes[k].kind is Section && !nodes[k].hidden ==> shown_rooms(nodes, n).contains(
            nodes[k].id,
        ) && shown_rooms(nodes, n)[shown_rooms(nodes, k as nat).len() as int] == nodes[k].id,
        shown_rooms(nodes, n).len() <= n,
        forall|id: NodeId| #[trigger]
            shown_rooms(nodes, n).contains(id) ==> exists|i: int|
                0 <= i < n && (#[trigger] nodes[i]).id == id && nodes[i].kind is Section
                    && !nodes[i].hidden,
    decreases n,
{
    let before = shown_rooms(nodes, (n - 1) as nat);
    let now = shown_rooms(nodes, n);
    if n == 1 {
        assert(before =~= Seq::<NodeId>::empty());
    } else {
        law_every_shown_room_is_listed(
            nodes,
            (n - 1) as nat,
            if k < n - 1 {
                k
            } else {
                0
            },
        );
    }
    if nodes[k].kind is Section && !nodes[k].hidden {
        if k == n - 1 {
            assert(now[before.len() as int] == nodes[k].id);
        } else {
            let j = shown_rooms(nodes, k as nat).len() as int;
            lemma_shown_grows(nodes, k as nat + 1, (n - 1) as nat);
            assert(shown_rooms(nodes, k as nat + 1).len() == j + 1);
            assert(before[j] == nodes[k].id);
            assert(now[j] == before[j]);
        }
    }
    assert forall|id: NodeId| #[trigger] now.contains(id) implies exists|i: int|
        0 <= i < n && (#[trigger] nodes[i]).id == id && nodes[i].kind is Section
            && !nodes[i].hidden by {
        let j = choose|j: int| 0 <= j < now.len() && now[j] == id;
        if j < before.len() {
            assert(before[j] == id);
            assert(before.contains(id));
        } else {
            assert(nodes[n - 1].id == id);
        }
    }
}

proof fn lemma_shown_grows(nodes: Seq<SceneNode>, k: nat, n: nat)
    requires
        k <= n,
    ensures
        shown_rooms(nodes, k).len() <= shown_rooms(nodes, n).len(),
    decreases n,
{
    if k < n {
        lemma_shown_grows(nodes, k, (n - 1) as nat);
    }
}

} // verus!

//! The scene tree as the viewport reads it.

use vstd::prelude::*;

verus! {

/// Identity of a scene node.
#[derive(Clone, Copy, Debug, PartialEq, Eq, Structural)]
pub struct NodeId(pub u64);

/// What a scene node is.
#[derive(Clone, Copy, Debug, PartialEq, Eq)]
pub enum SceneNodeKind {
    /// A room with a number of stacked floors.
    Section { floor_count: usize },
    /// A doorway to another room.
    Portal { target_room: Option<NodeId> },
    /// A flat picture that stands in the room.
    ImageProp,
    BoxProp,
    CylinderProp,
    /// A light, an entity, a component, a group, ...
    Other,
}

/// One node of the scene tree. `hidden` tells whether the editor hides the node
/// or one of the nodes above it.
#[derive(Clone, Copy, Debug, PartialEq, Eq)]
pub struct SceneNode {
    pub id: NodeId,
    pub parent: Option<NodeId>,
    pub hidden: bool,
    pub kind: SceneNodeKind,
}

/// The nodes of a scene, in their stored order.
#[derive(Debug)]
pub struct Scene {
    pub nodes: Vec<SceneNode>,
}

/// Position of the first node with an identity, from position `from` on.
pub open spec fn node_index(nodes: Seq<SceneNode>, id: NodeId, from: int) -> Option<int>
    decreases nodes.len() - from,
{
    if from >= nodes.len() {
        None
    } else if nodes[from].id == id {
        Some(from)
    } else {
        node_index(nodes, id, from + 1)
    }
}

/// The node with an identity.
pub open spec fn node_of(nodes: Seq<SceneNode>, id: NodeId) -> Option<SceneNode> {
    match node_index(nodes, id, 0) {
        Some(i) => Some(nodes[i]),
        None => None,
    }
}

/// The room found first on the way up from a node, itself included, within a
/// number of steps.
pub open spec fn room_above(nodes: Seq<SceneNode>, id: NodeId, steps: nat) -> Option<NodeId>
    decreases steps,
{
    if steps == 0 {
        None
    } else {
        match node_of(nodes, id) {
            None => None,
            Some(node) => if node.kind is Section {
                Some(id)
            } else {
                match node.parent {
                    None => None,
                    Some(parent) => room_above(nodes, parent, (steps - 1) as nat),
                }
            },
        }
    }
}

/// The same, giving up at the first hidden node.
pub open spec fn shown_room_above(nodes: Seq<SceneNode>, id: NodeId, steps: nat) -> Option<NodeId>
    decreases steps,
{
    if steps == 0 {
        None
    } else {
        match node_of(nodes, id) {
            None => None,
            Some(node) => if node.hidden {
                None
            } else if node.kind is Section {
                Some(id)
            } else {
                match node.parent {
                    None => None,
                    Some(parent) => shown_room_above(nodes, parent, (steps - 1) as nat),
                }
            },
        }
    }
}

/// A room that is not hidden.
pub open spec fn shown_room(nodes: Seq<SceneNode>, id: NodeId) -> bool {
    match node_of(nodes, id) {
        Some(node) => node.kind is Section && !node.hidden,
        None => false,
    }
}

pub proof fn lemma_node_index(nodes: Seq<SceneNode>, id: NodeId, from: int)
    requires
        0 <= from,
    ensures
        match node_index(nodes, id, from) {
            Some(i) => from <= i < nodes.len() && nodes[i].id == id && forall|j: int|
                from <= j < i ==> (#[trigger] nodes[j]).id != id,
            None => forall|j: int| from <= j < nodes.len() ==> (#[trigger] nodes[j]).id != id,
        },
    decreases nodes.len() - from,
{
    if from < nodes.len() && nodes[from].id != id {
        lemma_node_index(nodes, id, from + 1);
    }
}

impl Scene {
    /// The node with an identity.
    pub fn node(&self, id: NodeId) -> (result: Option<SceneNode>)
        ensures
            result == node_of(self.nodes@, id),
    {
        proof {
            lemma_node_index(self.nodes@, id, 0);
        }
        for i in 0..self.nodes.len()
            invariant
                forall|j: int| 0 <= j < i ==> (#[trigger] self.nodes@[j]).id != id,
                match node_index(self.nodes@, id, 0) {
                    Some(k) => 0 <= k < self.nodes@.len() && self.nodes@[k].id == id && forall|
                        j: int,
                    |
                        0 <= j < k ==> (#[trigger] self.nodes@[j]).id != id,
                    None => forall|j: int|
                        0 <= j < self.nodes@.len() ==> (#[trigger] self.nodes@[j]).id != id,
                },
        {
            if self.nodes[i].id == id {
                return Some(self.nodes[i]);
            }
        }
        None
    }
}

/// The room that a node belongs to.
pub fn room_ancestor(scene: &Scene, node_id: NodeId) -> (result: Option<NodeId>)
    ensures
        result == room_above(scene.nodes@, node_id, scene.nodes@.len()),
{
    let mut current: NodeId = node_id;
    let mut steps: usize = scene.nodes.len();
    while steps > 0
        invariant
            room_above(scene.nodes@, node_id, scene.nodes@.len()) == room_above(
                scene.nodes@,
                current,
                steps as nat,
            ),
        decreases steps,
    {
        let Some(node) = scene.node(current) else {
            return None;
        };
        if matches!(node.kind, SceneNodeKind::Section { .. }) {
            return Some(current);
        }
        let Some(parent) = node.parent else {
            return None;
        };
        current = parent;
        steps = steps - 1;
    }
    None
}

/// The room that a selected node belongs to, if nothing on the way is hidden.
pub fn selected_room_ancestor(scene: &Scene, selected: NodeId) -> (result: Option<NodeId>)
    ensures
        result == shown_room_above(scene.nodes@, selected, scene.nodes@.len()),
{
    let mut current: NodeId = selected;
    let mut steps: usize = scene.nodes.len();
    while steps > 0
        invariant
            shown_room_above(scene.nodes@, selected, scene.nodes@.len()) == shown_room_above(
                scene.nodes@,
                current,
                steps as nat,
            ),
        decreases steps,
    {
        let Some(node) = scene.node(current) else {
            return None;
        };
        if node.hidden {
            return None;
        }
        if matches!(node.kind, SceneNodeKind::Section { .. }) {
            return Some(current);
        }
        let Some(parent) = node.parent else {
            return None;
        };
        current = parent;
        steps = steps - 1;
    }
    None
}

/// `id` names a room that is not hidden.
pub fn is_shown_room(scene: &Scene, id: NodeId) -> (result: bool)
    ensures
        result == shown_room(scene.nodes@, id),
{
    match scene.node(id) {
        Some(node) => matches!(node.kind, SceneNodeKind::Section { .. }) && !node.hidden,
        None => false,
    }
}

/// A longer search finds what a shorter one found.
proof fn lemma_longer_search(nodes: Seq<SceneNode>, id: NodeId, short: nat, long: nat)
    requires
        short <= long,
        room_above(nodes, id, short) is Some,
    ensures
        room_above(nodes, id, long) == room_above(nodes, id, short),
    decreases short,
{
    let node = node_of(nodes, id)->0;
    if !(node.kind is Section) {
        lemma_longer_search(nodes, node.parent->0, (short - 1) as nat, (long - 1) as nat);
    }
}

/// A node from which a room is found in exactly `steps` steps.
spec fn found_at(nodes: Seq<SceneNode>, i: int, steps: int) -> bool {
    &&& 0 <= i < nodes.len()
    &&& steps >= 1
    &&& room_above(nodes, nodes[i].id, steps as nat) is Some
    &&& room_above(nodes, nodes[i].id, (steps - 1) as nat) is None
}

/// The positions of the nodes on the way up to a room.
proof fn lemma_path(nodes: Seq<SceneNode>, id: NodeId, steps: nat) -> (path: Seq<int>)
    requires
        steps >= 1,
        room_above(nodes, id, steps) is Some,
        room_above(nodes, id, (steps - 1) as nat) is None,
    ensures
        path.len() == steps,
        forall|i: int| 0 <= i < steps ==> found_at(nodes, #[trigger] path[i], steps - i),
    decreases steps,
{
    lemma_node_index(nodes, id, 0);
    let k = node_index(nodes, id, 0)->0;
    let node = nodes[k];
    if steps == 1 {
        seq![k]
    } else {
        let rest = lemma_path(nodes, node.parent->0, (steps - 1) as nat);
        let path = seq![k] + rest;
        assert forall|i: int| 0 <= i < steps implies found_at(
            nodes,
            #[trigger] path[i],
            steps - i,
        ) by {
            if i > 0 {
                assert(path[i] == rest[i - 1]);
            }
        }
        path
    }
}

/// The search for the room of a node never ends too early: as many steps as the
/// scene has nodes find every room that any number of steps would find.
pub proof fn law_room_search_is_complete(nodes: Seq<SceneNode>, id: NodeId, steps: nat)
    requires
        room_above(nodes, id, steps) is Some,
    ensures
        room_above(nodes, id, nodes.len()) == room_above(nodes, id, steps),
    decreases steps,
{
    if room_above(nodes, id, (steps - 1) as nat) is Some {
        lemma_longer_search(nodes, id, (steps - 1) as nat, steps);
        law_room_search_is_complete(nodes, id, (steps - 1) as nat);
    } else {
        let path = lemma_path(nodes, id, steps);
        assert forall|i: int, j: int| 0 <= i < j < path.len() implies path[i] != path[j] by {
            assert(found_at(nodes, path[i], steps - i));
            assert(found_at(nodes, path[j], steps - j));
            if path[i] == path[j] {
                lemma_longer_search(
                    nodes,
                    nodes[path[i]].id,
                    (steps - j) as nat,
                    (steps - i - 1) as nat,
                );
            }
        }
        assert(path.no_duplicates());
        path.unique_seq_to_set();
        let positions = vstd::set_lib::set_int_range(0, nodes.len() as int);
        vstd::set_lib::lemma_int_range(0, nodes.len() as int);
        assert forall|x: int| path.to_set().contains(x) implies positions.contains(x) by {
            let i = choose|i: int| 0 <= i < path.len() && path[i] == x;
            assert(found_at(nodes, path[i], steps - i));
        }
        vstd::set_lib::lemma_len_subset(path.to_set(), positions);
        lemma_longer_search(nodes, id, steps, nodes.len());
    }
}

/// A node belongs to the room that it is, else to the room of its parent; one
/// without a parent belongs to none.
pub proof fn law_nodes_belong_to_the_room_of_their_parent(nodes: Seq<SceneNode>, id: NodeId)
    requires
        node_of(nodes, id) is Some,
    ensures
        ({
            let node = node_of(nodes, id)->0;
            let room = room_above(nodes, id, nodes.len());
            &&& node.kind is Section ==> room == Some(id)
            &&& !(node.kind is Section) && node.parent is None ==> room is None
            &&& (!(node.kind is Section) && (node.parent matches Some(parent))) ==> room
                == room_above(nodes, node.parent->0, nodes.len())
        }),
{
    lemma_node_index(nodes, id, 0);
    let node = node_of(nodes, id)->0;
    let n = nodes.len();
    assert(n > 0);
    if !(node.kind is Section) {
        if let Some(parent) = node.parent {
            if room_above(nodes, parent, n) is Some {
                assert(room_above(nodes, id, n + 1) == room_above(nodes, parent, n));
                law_room_search_is_complete(nodes, id, n + 1);
            }
            if room_above(nodes, id, n) is Some {
                lemma_longer_search(nodes, parent, (n - 1) as nat, n);
            }
        }
    }
}

/// What is found as a room is one; and where nothing between a node and its room
/// is hidden, it is the room that is shown.
pub proof fn law_found_rooms_are_rooms(nodes: Seq<SceneNode>, id: NodeId, steps: nat)
    ensures
        room_above(nodes, id, steps) matches Some(room) ==> (node_of(nodes, room) matches Some(node)
            && node.kind is Section),
        shown_room_above(nodes, id, steps) matches Some(room) ==> shown_room(nodes, room)
            && room_above(nodes, id, steps) == Some(room),
        shown_room_above(nodes, id, steps) is Some ==> (node_of(nodes, id) matches Some(node)
            && !node.hidden),
        (forall|i: int| 0 <= i < nodes.len() ==> !(#[trigger] nodes[i]).hidden)
            ==> shown_room_above(nodes, id, steps) == room_above(nodes, id, steps),
    decreases steps,
{
    if steps > 0 {
        lemma_node_index(nodes, id, 0);
        if let Some(node) = node_of(nodes, id) {
            if let Some(parent) = node.parent {
                law_found_rooms_are_rooms(nodes, parent, (steps - 1) as nat);
            }
        }
    }
}

/// A node is found by its identity wherever it stands.
pub proof fn law_nodes_are_found_by_identity(nodes: Seq<SceneNode>, i: int)
    requires
        0 <= i < nodes.len(),
        forall|j: int| 0 <= j < i ==> (#[trigger] nodes[j]).id != nodes[i].id,
    ensures
        node_of(nodes, nodes[i].id) == Some(nodes[i]),
{
    lemma_node_index(nodes, nodes[i].id, 0);
}

} // verus!

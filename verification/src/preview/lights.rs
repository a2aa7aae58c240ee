//! Point lights of a scene as the viewport uses them.

use crate::preview::scene::NodeId;
use vstd::prelude::*;

verus! {

/// A point light in engine units. Its intensity is in 256ths.
#[derive(Clone, Copy, Debug, PartialEq, Eq)]
pub struct LightSample {
    pub position: [i32; 3],
    pub radius: i32,
    pub color: [u8; 3],
    pub intensity_q8: u32,
}

/// A scene node that may carry a light. `sample` is missing where the node is no
/// light, or one whose radius or intensity gives no light.
#[derive(Clone, Copy, Debug, PartialEq, Eq)]
pub struct LightNode {
    pub id: NodeId,
    pub hidden: bool,
    /// The node stands somewhere below the room that is drawn.
    pub in_room: bool,
    pub sample: Option<LightSample>,
}

/// A light that was found, with the node that carries it.
#[derive(Clone, Copy, Debug, PartialEq, Eq)]
pub struct PreviewLight {
    pub host_id: NodeId,
    pub sample: LightSample,
}

/// A node lights what is drawn: all of the scene, or one room.
pub open spec fn lights(node: LightNode, room_only: bool) -> bool {
    !node.hidden && (!room_only || node.in_room) && node.sample is Some
}

/// The lights among the first nodes.
pub open spec fn lights_of(nodes: Seq<LightNode>, room_only: bool, count: int) -> Seq<PreviewLight>
    decreases count,
{
    if count <= 0 {
        Seq::empty()
    } else {
        let so_far = lights_of(nodes, room_only, count - 1);
        if lights(nodes[count - 1], room_only) {
            so_far.push(
                PreviewLight { host_id: nodes[count - 1].id, sample: nodes[count - 1].sample->0 },
            )
        } else {
            so_far
        }
    }
}

/// The lights of a scene that are not hidden, in the order of their nodes. Those
/// of other rooms are left out where one room is drawn.
pub fn collect_preview_lights(nodes: &Vec<LightNode>, room_only: bool) -> (found: Vec<
    PreviewLight,
>)
    ensures
        found@ == lights_of(nodes@, room_only, nodes@.len() as int),
{
    let mut found: Vec<PreviewLight> = Vec::new();
    for i in 0..nodes.len()
        invariant
            found@ == lights_of(nodes@, room_only, i as int),
    {
        let node = nodes[i];
        if !node.hidden && (!room_only || node.in_room) {
            if let Some(sample) = node.sample {
                found.push(PreviewLight { host_id: node.id, sample });
            }
        }
    }
    found
}

/// A found light is that of a node.
pub open spec fn is_light_of(found: PreviewLight, node: LightNode) -> bool {
    found.host_id == node.id && node.sample == Some(found.sample)
}

proof fn lemma_light_of(nodes: Seq<LightNode>, count: int, k: int)
    requires
        count <= nodes.len(),
        0 <= k < lights_of(nodes, true, count).len(),
    ensures
        exists|i: int|
            0 <= i < count && !(#[trigger] nodes[i]).hidden && nodes[i].in_room && is_light_of(
                lights_of(nodes, true, count)[k],
                nodes[i],
            ),
    decreases count,
{
    let before = lights_of(nodes, true, count - 1);
    if k < before.len() {
        lemma_light_of(nodes, count - 1, k);
        assert(lights_of(nodes, true, count)[k] == before[k]);
    } else {
        assert(is_light_of(lights_of(nodes, true, count)[k], nodes[count - 1]));
    }
}

/// A light of another room, or a hidden one, lights nothing in a room.
pub proof fn law_lights_stay_in_their_room(nodes: Seq<LightNode>, k: int)
    requires
        0 <= k < lights_of(nodes, true, nodes.len() as int).len(),
    ensures
        exists|i: int|
            0 <= i < nodes.len() && !(#[trigger] nodes[i]).hidden && nodes[i].in_room
                && is_light_of(lights_of(nodes, true, nodes.len() as int)[k], nodes[i]),
{
    lemma_light_of(nodes, nodes.len() as int, k);
}

/// Every light that is not hidden and stands in the room, or anywhere where the
/// whole scene is drawn, is found, in the order of the nodes; nothing else is.
pub proof fn law_every_shown_light_is_found(
    nodes: Seq<LightNode>,
    room_only: bool,
    count: int,
    i: int,
)
    requires
        0 <= i < count <= nodes.len(),
    ensures
        ({
            let found = lights_of(nodes, room_only, count);
            let at = lights_of(nodes, room_only, i).len() as int;
            let lit = !nodes[i].hidden && (room_only ==> nodes[i].in_room) && nodes[i].sample
                is Some;
            &&& found.len() <= count
            &&& lit ==> at < found.len() && found[at].host_id == nodes[i].id && nodes[i].sample
                == Some(found[at].sample)
            &&& !lit ==> lights_of(nodes, room_only, i + 1).len() == at
        }),
    decreases count,
{
    let before = lights_of(nodes, room_only, count - 1);
    let found = lights_of(nodes, room_only, count);
    if i < count - 1 {
        law_every_shown_light_is_found(nodes, room_only, count - 1, i);
        let at = lights_of(nodes, room_only, i).len() as int;
        if at < before.len() {
            assert(found[at] == before[at]);
        }
    } else if count > 1 {
        law_every_shown_light_is_found(nodes, room_only, count - 1, 0);
    } else {
        assert(before.len() == 0);
    }
}

} // verus!

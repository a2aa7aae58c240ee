//! Portal seams: runs of connected cell edges and their outlines.

use crate::math::{max_int, min_int, saturate_i32, saturating_add_i32};
use crate::preview::grid::{
    direction_at, grid_direction, Corner, GridDirection, GridHorizontalFace, GridSector,
    GridVerticalFace, WallCorner, WorldGrid, DIRECTION_COUNT,
};
use crate::preview::overlays::{FaceOutlineStyle, StrokeWeight, PORTAL_SEAM_RGB};
use crate::preview::room_geometry::{corner_point, wall_ends};
use crate::preview::scene::NodeId;
use vstd::prelude::*;

verus! {

/// Height by which the lower edge of a seam is lifted off the floor.
pub const PORTAL_BOTTOM_LIFT: i32 = 24;

/// An edge of the cell at array position `(x, z)`.
#[derive(Clone, Copy, Debug, PartialEq, Eq, Structural)]
pub struct PortalEdge {
    pub x: u16,
    pub z: u16,
    pub direction: GridDirection,
}

/// A row of adjacent edges, starting at the one with the lowest coordinate.
#[derive(Clone, Copy, Debug, PartialEq, Eq, Structural)]
pub struct PortalSeamRun {
    pub start: PortalEdge,
    pub len: u16,
}

/// Only northern and eastern edges carry seams; the other two sides of a cell
/// are edges of its neighbours.
pub open spec fn carries_seam(edge: PortalEdge) -> bool {
    edge.direction == GridDirection::North || edge.direction == GridDirection::East
}

/// The order of edges: northern ones row by row, then eastern ones column by column.
pub open spec fn edge_key(edge: PortalEdge) -> int {
    if edge.direction == GridDirection::North {
        edge.z * 65536 + edge.x
    } else {
        0x1_0000_0000 + edge.x * 65536 + edge.z
    }
}

fn portal_edge_key(edge: PortalEdge) -> (result: u64)
    ensures
        result == edge_key(edge),
{
    if edge.direction == GridDirection::North {
        edge.z as u64 * 65536 + edge.x as u64
    } else {
        0x1_0000_0000 + edge.x as u64 * 65536 + edge.z as u64
    }
}

/// Number of leading edges that come no later than `edge`.
pub open spec fn place(sorted: Seq<PortalEdge>, edge: PortalEdge) -> int
    decreases sorted.len(),
{
    if sorted.len() == 0 || edge_key(sorted.first()) > edge_key(edge) {
        0
    } else {
        1 + place(sorted.drop_first(), edge)
    }
}

/// The seam-carrying edges among the first `n`, in order.
pub open spec fn sorted_edges(edges: Seq<PortalEdge>, n: nat) -> Seq<PortalEdge>
    decreases n,
{
    if n == 0 {
        Seq::empty()
    } else {
        let before = sorted_edges(edges, (n - 1) as nat);
        let edge = edges[n - 1];
        if carries_seam(edge) {
            before.insert(place(before, edge), edge)
        } else {
            before
        }
    }
}

/// `edge` is the next edge of a run.
pub open spec fn continues_run(run: PortalSeamRun, edge: PortalEdge) -> bool {
    &&& edge.direction == run.start.direction
    &&& match edge.direction {
        GridDirection::North => edge.z == run.start.z && run.start.x + run.len == edge.x,
        GridDirection::East => edge.x == run.start.x && run.start.z + run.len == edge.z,
        _ => false,
    }
}

pub fn portal_edge_continues_run(run: &PortalSeamRun, edge: PortalEdge) -> (result: bool)
    ensures
        result == continues_run(*run, edge),
{
    if edge.direction != run.start.direction {
        return false;
    }
    match edge.direction {
        GridDirection::North => edge.z == run.start.z && run.start.x as u32 + run.len as u32
            == edge.x as u32,
        GridDirection::East => edge.x == run.start.x && run.start.z as u32 + run.len as u32
            == edge.z as u32,
        _ => false,
    }
}

/// The runs that the first `n` edges form, each edge joining the last run that
/// it continues.
pub open spec fn runs_of(edges: Seq<PortalEdge>, n: nat) -> Seq<PortalSeamRun>
    decreases n,
{
    if n == 0 {
        Seq::empty()
    } else {
        let before = runs_of(edges, (n - 1) as nat);
        let edge = edges[n - 1];
        if before.len() > 0 && continues_run(before.last(), edge) {
            let run = before.last();
            before.update(
                before.len() - 1,
                PortalSeamRun { start: run.start, len: min_int(run.len + 1, u16::MAX as int) as u16 },
            )
        } else {
            before.push(PortalSeamRun { start: edge, len: 1 })
        }
    }
}

/// The runs formed by a set of edges.
pub open spec fn seam_runs(edges: Seq<PortalEdge>) -> Seq<PortalSeamRun> {
    let sorted = sorted_edges(edges, edges.len());
    runs_of(sorted, sorted.len())
}

proof fn lemma_place_range(sorted: Seq<PortalEdge>, edge: PortalEdge)
    ensures
        0 <= place(sorted, edge) <= sorted.len(),
    decreases sorted.len(),
{
    if sorted.len() > 0 {
        lemma_place_range(sorted.drop_first(), edge);
    }
}

proof fn lemma_place_found(sorted: Seq<PortalEdge>, edge: PortalEdge, i: int)
    requires
        0 <= i <= sorted.len(),
        forall|j: int| 0 <= j < i ==> edge_key(#[trigger] sorted[j]) <= edge_key(edge),
        i < sorted.len() ==> edge_key(sorted[i]) > edge_key(edge),
    ensures
        place(sorted, edge) == i,
    decreases sorted.len(),
{
    if i > 0 {
        assert(sorted.first() == sorted[0]);
        let rest = sorted.drop_first();
        assert forall|j: int| 0 <= j < i - 1 implies edge_key(#[trigger] rest[j]) <= edge_key(
            edge,
        ) by {
            assert(rest[j] == sorted[j + 1]);
        }
        lemma_place_found(rest, edge, i - 1);
    }
}

/// Group edges into rows of adjacent ones. Edges that carry no seam are left out.
pub fn portal_seam_runs(edges: Vec<PortalEdge>) -> (result: Vec<PortalSeamRun>)
    ensures
        result@ == seam_runs(edges@),
{
    let mut sorted: Vec<PortalEdge> = Vec::new();
    for i in 0..edges.len()
        invariant
            sorted@ == sorted_edges(edges@, i as nat),
    {
        let edge = edges[i];
        if matches!(edge.direction, GridDirection::North | GridDirection::East) {
            let key: u64 = portal_edge_key(edge);
            let mut at: usize = 0;
            while at < sorted.len() && portal_edge_key(sorted[at]) <= key
                invariant
                    key == edge_key(edge),
                    at <= sorted@.len(),
                    forall|j: int| 0 <= j < at ==> edge_key(#[trigger] sorted@[j]) <= edge_key(edge),
                decreases sorted@.len() - at,
            {
                at = at + 1;
            }
            proof {
                lemma_place_found(sorted@, edge, at as int);
            }
            sorted.insert(at, edge);
        }
    }
    let mut runs: Vec<PortalSeamRun> = Vec::new();
    for i in 0..sorted.len()
        invariant
            runs@ == runs_of(sorted@, i as nat),
    {
        let edge = sorted[i];
        let last: usize = runs.len();
        if last > 0 && portal_edge_continues_run(&runs[last - 1], edge) {
            let run = runs[last - 1];
            let len: u16 = run.len.saturating_add(1);
            runs.set(last - 1, PortalSeamRun { start: run.start, len });
        } else {
            runs.push(PortalSeamRun { start: edge, len: 1 });
        }
    }
    runs
}

/// The edge `offset` places along a run.
pub open spec fn run_edge(run: PortalSeamRun, offset: int) -> PortalEdge {
    if run.start.direction == GridDirection::North {
        PortalEdge { x: (run.start.x + offset) as u16, ..run.start }
    } else {
        PortalEdge { z: (run.start.z + offset) as u16, ..run.start }
    }
}

/// The edges of a run, in order.
pub open spec fn run_edges(run: PortalSeamRun) -> Seq<PortalEdge> {
    Seq::new(run.len as nat, |offset: int| run_edge(run, offset))
}

/// The edges of all runs, one run after the other.
pub open spec fn all_run_edges(runs: Seq<PortalSeamRun>) -> Seq<PortalEdge>
    decreases runs.len(),
{
    if runs.len() == 0 {
        Seq::empty()
    } else {
        all_run_edges(runs.drop_last()) + run_edges(runs.last())
    }
}

proof fn lemma_runs_cover(edges: Seq<PortalEdge>, n: nat)
    requires
        n <= edges.len(),
        edges.len() <= u16::MAX,
        forall|i: int| 0 <= i < edges.len() ==> carries_seam(#[trigger] edges[i]),
    ensures
        all_run_edges(runs_of(edges, n)) == edges.take(n as int),
        forall|i: int|
            0 <= i < runs_of(edges, n).len() ==> carries_seam((#[trigger] runs_of(edges, n)[i]).start),
    decreases n,
{
    if n > 0 {
        lemma_runs_cover(edges, (n - 1) as nat);
        let before = runs_of(edges, (n - 1) as nat);
        let now = runs_of(edges, n);
        let edge = edges[n - 1];
        assert(edges.take(n as int) == edges.take(n - 1).push(edge));
        if before.len() > 0 && continues_run(before.last(), edge) {
            let run = before.last();
            assert(carries_seam(run.start));
            let longer = now.last();
            assert(run_edges(run).len() <= all_run_edges(before).len());
            assert(longer.len == run.len + 1);
            assert(now.drop_last() == before.drop_last());
            assert(run_edge(run, run.len as int) == edge);
            assert(run_edges(longer) =~= run_edges(run).push(edge));
            assert(all_run_edges(now) =~= all_run_edges(before).push(edge));
            assert forall|i: int| 0 <= i < now.len() implies carries_seam((#[trigger] now[i]).start) by {
                assert(carries_seam(before[i].start));
            }
        } else {
            assert(now.drop_last() == before);
            assert(run_edges(now.last()) =~= seq![edge]);
            assert(all_run_edges(now) =~= all_run_edges(before).push(edge));
            assert forall|i: int| 0 <= i < now.len() implies carries_seam((#[trigger] now[i]).start) by {
                if i < before.len() {
                    assert(carries_seam(before[i].start));
                }
            }
        }
    }
}

proof fn lemma_sorted_edges(edges: Seq<PortalEdge>, n: nat)
    requires
        n <= edges.len(),
    ensures
        forall|i: int|
            0 <= i < sorted_edges(edges, n).len() ==> carries_seam(#[trigger] sorted_edges(edges, n)[i])
                && edges.take(n as int).contains(sorted_edges(edges, n)[i]),
        sorted_edges(edges, n).to_multiset() == edges.take(n as int).filter(
            |e: PortalEdge| carries_seam(e),
        ).to_multiset(),
        forall|i: int, j: int|
            0 <= i < j < sorted_edges(edges, n).len() ==> edge_key(#[trigger] sorted_edges(edges, n)[i])
                <= edge_key(#[trigger] sorted_edges(edges, n)[j]),
    decreases n,
{
    broadcast use vstd::seq_lib::group_to_multiset_ensures;

    let pred = |e: PortalEdge| carries_seam(e);
    reveal(Seq::filter);
    if n > 0 {
        lemma_sorted_edges(edges, (n - 1) as nat);
        let before = sorted_edges(edges, (n - 1) as nat);
        let now = sorted_edges(edges, n);
        let edge = edges[n - 1];
        let prefix = edges.take(n - 1);
        assert(edges.take(n as int) == prefix.push(edge));
        assert(edges.take(n as int).drop_last() == prefix);
        assert(edges.take(n as int)[n - 1] == edge);
        assert forall|e: PortalEdge| prefix.contains(e) implies edges.take(n as int).contains(e) by {
            let k = choose|k: int| 0 <= k < prefix.len() && prefix[k] == e;
            assert(edges.take(n as int)[k] == e);
        }
        if carries_seam(edge) {
            let at = place(before, edge);
            lemma_place_range(before, edge);
            lemma_place_splits(before, edge);
            assert(now.to_multiset() == before.to_multiset().insert(edge));
            assert forall|i: int| 0 <= i < now.len() implies carries_seam(#[trigger] now[i]) && edges.take(
                n as int,
            ).contains(now[i]) by {
                if i < at {
                    assert(now[i] == before[i]);
                } else if i > at {
                    assert(now[i] == before[i - 1]);
                }
            }
            assert forall|i: int, j: int| 0 <= i < j < now.len() implies edge_key(#[trigger] now[i])
                <= edge_key(#[trigger] now[j]) by {
                if i < at {
                    assert(now[i] == before[i]);
                } else if i > at {
                    assert(now[i] == before[i - 1]);
                }
                if j < at {
                    assert(now[j] == before[j]);
                } else if j > at {
                    assert(now[j] == before[j - 1]);
                }
            }
        }
    }
}

proof fn lemma_place_splits(sorted: Seq<PortalEdge>, edge: PortalEdge)
    requires
        forall|i: int, j: int|
            0 <= i < j < sorted.len() ==> edge_key(#[trigger] sorted[i]) <= edge_key(
                #[trigger] sorted[j],
            ),
    ensures
        forall|i: int| 0 <= i < place(sorted, edge) ==> edge_key(#[trigger] sorted[i]) <= edge_key(edge),
        forall|i: int|
            place(sorted, edge) <= i < sorted.len() ==> edge_key(#[trigger] sorted[i]) > edge_key(edge),
    decreases sorted.len(),
{
    if sorted.len() > 0 {
        let rest = sorted.drop_first();
        if edge_key(sorted.first()) <= edge_key(edge) {
            assert forall|i: int, j: int| 0 <= i < j < rest.len() implies edge_key(#[trigger] rest[i])
                <= edge_key(#[trigger] rest[j]) by {
                assert(rest[i] == sorted[i + 1] && rest[j] == sorted[j + 1]);
            }
            lemma_place_splits(rest, edge);
            assert forall|i: int| 0 <= i < place(sorted, edge) implies edge_key(#[trigger] sorted[i])
                <= edge_key(edge) by {
                lemma_place_range(rest, edge);
                if i > 0 {
                    assert(sorted[i] == rest[i - 1]);
                }
            }
            assert forall|i: int| place(sorted, edge) <= i < sorted.len() implies edge_key(
                #[trigger] sorted[i],
            ) > edge_key(edge) by {
                lemma_place_range(rest, edge);
                assert(sorted[i] == rest[i - 1]);
            }
        } else {
            assert(sorted[0] == sorted.first());
        }
    }
}

/// The key of the last edge of a run.
pub open spec fn run_end_key(run: PortalSeamRun) -> int {
    edge_key(run.start) + run.len - 1
}

proof fn lemma_runs_are_maximal(edges: Seq<PortalEdge>, n: nat)
    requires
        n <= edges.len() <= u16::MAX,
        forall|i: int| 0 <= i < edges.len() ==> carries_seam(#[trigger] edges[i]),
        forall|i: int, j: int|
            0 <= i < j < edges.len() ==> edge_key(#[trigger] edges[i]) < edge_key(
                #[trigger] edges[j],
            ),
    ensures
        forall|i: int|
            0 <= i < runs_of(edges, n).len() ==> carries_seam(
                (#[trigger] runs_of(edges, n)[i]).start,
            ) && runs_of(edges, n)[i].len >= 1,
        forall|i: int, j: int|
            0 <= i < j < runs_of(edges, n).len() ==> !continues_run(
                #[trigger] runs_of(edges, n)[i],
                (#[trigger] runs_of(edges, n)[j]).start,
            ) && run_end_key(runs_of(edges, n)[i]) < edge_key(runs_of(edges, n)[j].start),
        n > 0 ==> runs_of(edges, n).len() > 0 && run_end_key(runs_of(edges, n).last()) == edge_key(
            edges[n - 1],
        ),
    decreases n,
{
    if n > 0 {
        lemma_runs_are_maximal(edges, (n - 1) as nat);
        lemma_runs_cover(edges, (n - 1) as nat);
        let before = runs_of(edges, (n - 1) as nat);
        let now = runs_of(edges, n);
        let edge = edges[n - 1];
        if before.len() > 0 && continues_run(before.last(), edge) {
            let run = before.last();
            assert(run_edges(run).len() <= all_run_edges(before).len());
            assert(now.last() == (PortalSeamRun { start: run.start, len: (run.len + 1) as u16 }));
            assert forall|i: int, j: int| 0 <= i < j < now.len() implies !continues_run(
                #[trigger] now[i],
                (#[trigger] now[j]).start,
            ) && run_end_key(now[i]) < edge_key(now[j].start) by {
                assert(now[i] == before[i]);
                assert(now[j].start == before[j].start);
            }
            assert forall|i: int| 0 <= i < now.len() implies carries_seam((#[trigger] now[i]).start)
                && now[i].len >= 1 by {
                assert(carries_seam(before[i].start) && before[i].len >= 1);
            }
        } else {
            assert forall|i: int, j: int| 0 <= i < j < now.len() implies !continues_run(
                #[trigger] now[i],
                (#[trigger] now[j]).start,
            ) && run_end_key(now[i]) < edge_key(now[j].start) by {
                assert(now[i] == before[i]);
                assert(carries_seam(before[i].start));
                if j < before.len() {
                    assert(now[j] == before[j]);
                } else {
                    assert(now[j].start == edge);
                    let last = before.last();
                    assert(before[before.len() - 1].len >= 1);
                    assert(edge_key(edges[n - 2]) < edge_key(edges[n - 1]));
                    if i < before.len() - 1 {
                        assert(run_end_key(before[i]) < edge_key(before[before.len() - 1].start));
                    }
                }
            }
            assert forall|i: int| 0 <= i < now.len() implies carries_seam((#[trigger] now[i]).start)
                && now[i].len >= 1 by {
                if i < before.len() {
                    assert(carries_seam(before[i].start) && before[i].len >= 1);
                }
            }
        }
    }
}

proof fn lemma_sorted_distinct(edges: Seq<PortalEdge>, n: nat)
    requires
        n <= edges.len(),
        edges.no_duplicates(),
    ensures
        sorted_edges(edges, n).no_duplicates(),
        sorted_edges(edges, n).len() <= n,
    decreases n,
{
    if n > 0 {
        lemma_sorted_distinct(edges, (n - 1) as nat);
        lemma_sorted_edges(edges, (n - 1) as nat);
        let before = sorted_edges(edges, (n - 1) as nat);
        let now = sorted_edges(edges, n);
        let edge = edges[n - 1];
        if carries_seam(edge) {
            let at = place(before, edge);
            lemma_place_range(before, edge);
            assert forall|k: int| 0 <= k < before.len() implies #[trigger] before[k] != edge by {
                let prefix = edges.take(n - 1);
                assert(prefix.contains(before[k]));
                let m = choose|m: int| 0 <= m < prefix.len() && prefix[m] == before[k];
                assert(edges[m] == before[k]);
            }
            assert forall|i: int, j: int| 0 <= i < now.len() && 0 <= j < now.len() && i
                != j implies now[i] != now[j] by {
                let i0 = if i < at {
                    i
                } else {
                    i - 1
                };
                let j0 = if j < at {
                    j
                } else {
                    j - 1
                };
                if i != at {
                    assert(now[i] == before[i0]);
                }
                if j != at {
                    assert(now[j] == before[j0]);
                }
            }
        }
    }
}

proof fn lemma_sorted_length(edges: Seq<PortalEdge>, n: nat)
    ensures
        sorted_edges(edges, n).len() <= n,
    decreases n,
{
    if n > 0 {
        lemma_sorted_length(edges, (n - 1) as nat);
        let before = sorted_edges(edges, (n - 1) as nat);
        lemma_place_range(before, edges[n - 1]);
    }
}

/// Grouping loses no edge and adds none: the runs, written out, hold every
/// seam-carrying edge as often as it was given, in order. Of more edges than
/// `u16::MAX` a run could become too long to be counted.
pub proof fn law_runs_cover_the_seam_edges(edges: Seq<PortalEdge>)
    requires
        edges.len() <= u16::MAX,
    ensures
        all_run_edges(seam_runs(edges)).to_multiset() == edges.filter(
            |e: PortalEdge| carries_seam(e),
        ).to_multiset(),
        forall|i: int, j: int|
            0 <= i < j < all_run_edges(seam_runs(edges)).len() ==> edge_key(
                #[trigger] all_run_edges(seam_runs(edges))[i],
            ) <= edge_key(#[trigger] all_run_edges(seam_runs(edges))[j]),
{
    let sorted = sorted_edges(edges, edges.len());
    lemma_sorted_edges(edges, edges.len());
    lemma_sorted_length(edges, edges.len());
    assert(edges.take(edges.len() as int) == edges);
    lemma_runs_cover(sorted, sorted.len());
    assert(sorted.take(sorted.len() as int) == sorted);
}

/// The runs of distinct edges are as long as they can be: none of them starts
/// where another one ends.
pub proof fn law_runs_are_maximal(edges: Seq<PortalEdge>, i: int, j: int)
    requires
        edges.len() <= u16::MAX,
        edges.no_duplicates(),
        0 <= i < seam_runs(edges).len(),
        0 <= j < seam_runs(edges).len(),
    ensures
        !continues_run(seam_runs(edges)[i], seam_runs(edges)[j].start),
{
    let sorted = sorted_edges(edges, edges.len());
    let runs = seam_runs(edges);
    lemma_sorted_edges(edges, edges.len());
    lemma_sorted_distinct(edges, edges.len());
    assert forall|a: int, b: int| 0 <= a < b < sorted.len() implies edge_key(#[trigger] sorted[a])
        < edge_key(#[trigger] sorted[b]) by {
        assert(sorted[a] != sorted[b]);
    }
    lemma_runs_are_maximal(sorted, sorted.len());
    assert(carries_seam(runs[i].start) && runs[i].len >= 1);
    assert(carries_seam(runs[j].start) && runs[j].len >= 1);
    if j < i {
        assert(run_end_key(runs[j]) < edge_key(runs[i].start));
    }
}

/// The cell on the other side of an edge, with the edge's name there.
pub open spec fn neighbour_cell(wcx: i32, wcz: i32, dir: GridDirection) -> Option<
    (i32, i32, GridDirection),
> {
    match dir {
        GridDirection::North => if wcz < i32::MAX {
            Some((wcx, (wcz + 1) as i32, GridDirection::South))
        } else {
            None
        },
        GridDirection::East => if wcx < i32::MAX {
            Some(((wcx + 1) as i32, wcz, GridDirection::West))
        } else {
            None
        },
        GridDirection::South => if wcz > i32::MIN {
            Some((wcx, (wcz - 1) as i32, GridDirection::North))
        } else {
            None
        },
        GridDirection::West => if wcx > i32::MIN {
            Some(((wcx - 1) as i32, wcz, GridDirection::East))
        } else {
            None
        },
        _ => None,
    }
}

pub fn portal_neighbour_world_cell(wcx: i32, wcz: i32, dir: GridDirection) -> (result: Option<
    (i32, i32, GridDirection),
>)
    ensures
        result == neighbour_cell(wcx, wcz, dir),
{
    let Some(opposite) = dir.opposite_cardinal() else {
        return None;
    };
    match dir {
        GridDirection::North => match wcz.checked_add(1) {
            Some(z) => Some((wcx, z, opposite)),
            None => None,
        },
        GridDirection::East => match wcx.checked_add(1) {
            Some(x) => Some((x, wcz, opposite)),
            None => None,
        },
        GridDirection::South => match wcz.checked_sub(1) {
            Some(z) => Some((wcx, z, opposite)),
            None => None,
        },
        GridDirection::West => match wcx.checked_sub(1) {
            Some(x) => Some((x, wcz, opposite)),
            None => None,
        },
        _ => None,
    }
}

/// Crossing an edge and crossing back leads to the same edge of the same cell.
pub proof fn law_neighbour_of_neighbour(wcx: i32, wcz: i32, dir: GridDirection)
    requires
        neighbour_cell(wcx, wcz, dir) is Some,
    ensures
        ({
            let (x, z, back) = neighbour_cell(wcx, wcz, dir)->0;
            neighbour_cell(x, z, back) == Some((wcx, wcz, dir))
        }),
{
}

/// The northern or eastern name of an edge; the southern and western edges of
/// the first row and column have none.
pub open spec fn canonical_edge(sx: u16, sz: u16, dir: GridDirection) -> Option<PortalEdge> {
    match dir {
        GridDirection::North => Some(PortalEdge { x: sx, z: sz, direction: GridDirection::North }),
        GridDirection::East => Some(PortalEdge { x: sx, z: sz, direction: GridDirection::East }),
        GridDirection::South => if sz > 0 {
            Some(PortalEdge { x: sx, z: (sz - 1) as u16, direction: GridDirection::North })
        } else {
            None
        },
        GridDirection::West => if sx > 0 {
            Some(PortalEdge { x: (sx - 1) as u16, z: sz, direction: GridDirection::East })
        } else {
            None
        },
        _ => None,
    }
}

pub fn canonical_portal_edge_for_array_cell(sx: u16, sz: u16, dir: GridDirection) -> (result: Option<
    PortalEdge,
>)
    ensures
        result == canonical_edge(sx, sz, dir),
{
    match dir {
        GridDirection::North => Some(PortalEdge { x: sx, z: sz, direction: GridDirection::North }),
        GridDirection::East => Some(PortalEdge { x: sx, z: sz, direction: GridDirection::East }),
        GridDirection::South => match sz.checked_sub(1) {
            Some(z) => Some(PortalEdge { x: sx, z, direction: GridDirection::North }),
            None => None,
        },
        GridDirection::West => match sx.checked_sub(1) {
            Some(x) => Some(PortalEdge { x, z: sz, direction: GridDirection::East }),
            None => None,
        },
        _ => None,
    }
}

/// The lowest of `start`, if there is one, and of `heights`.
pub open spec fn lowest(start: Option<i32>, heights: Seq<i32>) -> Option<i32>
    decreases heights.len(),
{
    if heights.len() == 0 {
        start
    } else {
        let h = heights.last();
        match lowest(start, heights.drop_last()) {
            None => Some(h),
            Some(low) => Some(min_int(low as int, h as int) as i32),
        }
    }
}

/// The highest of `start`, if there is one, and of `heights`.
pub open spec fn highest(start: Option<i32>, heights: Seq<i32>) -> Option<i32>
    decreases heights.len(),
{
    if heights.len() == 0 {
        start
    } else {
        let h = heights.last();
        match highest(start, heights.drop_last()) {
            None => Some(h),
            Some(high) => Some(max_int(high as int, h as int) as i32),
        }
    }
}

pub fn include_min_value(target: Option<i32>, value: i32) -> (result: Option<i32>)
    ensures
        result == lowest(target, seq![value]),
{
    proof {
        assert(seq![value].drop_last() == Seq::<i32>::empty());
        reveal_with_fuel(lowest, 2);
    }
    match target {
        None => Some(value),
        Some(low) => Some(
            if low <= value {
                low
            } else {
                value
            },
        ),
    }
}

pub fn include_max_value(target: Option<i32>, value: i32) -> (result: Option<i32>)
    ensures
        result == highest(target, seq![value]),
{
    proof {
        assert(seq![value].drop_last() == Seq::<i32>::empty());
        reveal_with_fuel(highest, 2);
    }
    match target {
        None => Some(value),
        Some(high) => Some(
            if high >= value {
                high
            } else {
                value
            },
        ),
    }
}

proof fn lemma_lowest_concat(start: Option<i32>, a: Seq<i32>, b: Seq<i32>)
    ensures
        lowest(start, a + b) == lowest(lowest(start, a), b),
        highest(start, a + b) == highest(highest(start, a), b),
    decreases b.len(),
{
    if b.len() == 0 {
        assert(a + b == a);
    } else {
        assert((a + b).drop_last() == a + b.drop_last());
        lemma_lowest_concat(start, a, b.drop_last());
    }
}

/// Nothing is lower than the lowest, and nothing higher than the highest.
proof fn lemma_extremes(start: Option<i32>, heights: Seq<i32>)
    ensures
        forall|h: i32| #[trigger]
            heights.contains(h) ==> (lowest(start, heights) matches Some(low) && low <= h) && (highest(
                start,
                heights,
            ) matches Some(high) && high >= h),
        start is Some ==> (lowest(start, heights) matches Some(low) && low <= start->0) && (highest(
            start,
            heights,
        ) matches Some(high) && high >= start->0),
        lowest(start, heights) matches Some(low) ==> start == Some(low) || heights.contains(low),
        highest(start, heights) matches Some(high) ==> start == Some(high) || heights.contains(high),
    decreases heights.len(),
{
    if heights.len() > 0 {
        let rest = heights.drop_last();
        lemma_extremes(start, rest);
        assert(heights[heights.len() - 1] == heights.last());
        assert forall|h: i32| rest.contains(h) implies heights.contains(h) by {
            let k = choose|k: int| 0 <= k < rest.len() && rest[k] == h;
            assert(heights[k] == h);
        }
        assert forall|h: i32| heights.contains(h) implies h == heights.last() || rest.contains(h) by {
            let k = choose|k: int| 0 <= k < heights.len() && heights[k] == h;
            if k < rest.len() {
                assert(rest[k] == h);
            }
        }
    }
}

/// Corner heights of a floor or ceiling, if there is one.
pub open spec fn face_heights(face: Option<GridHorizontalFace>) -> Seq<i32> {
    match face {
        Some(f) => f.heights@,
        None => Seq::empty(),
    }
}

/// Corner heights of the first `n` of some walls.
pub open spec fn stack_heights(walls: Seq<GridVerticalFace>, n: nat) -> Seq<i32>
    decreases n,
{
    if n == 0 {
        Seq::empty()
    } else {
        stack_heights(walls, (n - 1) as nat) + walls[n - 1].heights@
    }
}

/// Corner heights of a cell's walls in the first `n` directions.
pub open spec fn wall_heights(sector: GridSector, n: nat) -> Seq<i32>
    decreases n,
{
    if n == 0 {
        Seq::empty()
    } else {
        let walls = sector.spec_walls(direction_at(n - 1))@;
        wall_heights(sector, (n - 1) as nat) + stack_heights(walls, walls.len())
    }
}

/// What bounds a cell from below: its floor and its walls.
pub open spec fn lower_heights(sector: GridSector) -> Seq<i32> {
    face_heights(sector.floor) + wall_heights(sector, DIRECTION_COUNT as nat)
}

/// What bounds a cell from above: its ceiling and its walls.
pub open spec fn upper_heights(sector: GridSector) -> Seq<i32> {
    face_heights(sector.ceiling) + wall_heights(sector, DIRECTION_COUNT as nat)
}

fn include_min_heights(target: Option<i32>, heights: [i32; 4]) -> (result: Option<i32>)
    ensures
        result == lowest(target, heights@),
{
    let mut out = target;
    for i in 0..4
        invariant
            out == lowest(target, heights@.take(i as int)),
    {
        proof {
            lemma_lowest_concat(target, heights@.take(i as int), seq![heights@[i as int]]);
            assert(heights@.take(i + 1) == heights@.take(i as int) + seq![heights@[i as int]]);
        }
        out = include_min_value(out, heights[i]);
    }
    assert(heights@.take(4) == heights@);
    out
}

fn include_max_heights(target: Option<i32>, heights: [i32; 4]) -> (result: Option<i32>)
    ensures
        result == highest(target, heights@),
{
    let mut out = target;
    for i in 0..4
        invariant
            out == highest(target, heights@.take(i as int)),
    {
        proof {
            lemma_lowest_concat(target, heights@.take(i as int), seq![heights@[i as int]]);
            assert(heights@.take(i + 1) == heights@.take(i as int) + seq![heights@[i as int]]);
        }
        out = include_max_value(out, heights[i]);
    }
    assert(heights@.take(4) == heights@);
    out
}

/// Extend a vertical range by the faces of a cell.
pub fn sample_sector_vertical_bounds(
    sector: &GridSector,
    bottom: Option<i32>,
    top: Option<i32>,
) -> (result: (Option<i32>, Option<i32>))
    ensures
        result.0 == lowest(bottom, lower_heights(*sector)),
        result.1 == highest(top, upper_heights(*sector)),
{
    let mut low = bottom;
    let mut high = top;
    if let Some(floor) = &sector.floor {
        low = include_min_heights(low, floor.heights);
    }
    if let Some(ceiling) = &sector.ceiling {
        high = include_max_heights(high, ceiling.heights);
    }
    let ghost floor = face_heights(sector.floor);
    let ghost ceiling = face_heights(sector.ceiling);
    proof {
        assert(floor + wall_heights(*sector, 0) == floor);
        assert(ceiling + wall_heights(*sector, 0) == ceiling);
    }
    for d in 0..DIRECTION_COUNT
        invariant
            floor == face_heights(sector.floor),
            ceiling == face_heights(sector.ceiling),
            low == lowest(bottom, floor + wall_heights(*sector, d as nat)),
            high == highest(top, ceiling + wall_heights(*sector, d as nat)),
    {
        let walls = sector.walls(grid_direction(d));
        let ghost low_before = low;
        let ghost high_before = high;
        for i in 0..walls.len()
            invariant
                low == lowest(low_before, stack_heights(walls@, i as nat)),
                high == highest(high_before, stack_heights(walls@, i as nat)),
        {
            proof {
                lemma_lowest_concat(
                    low_before,
                    stack_heights(walls@, i as nat),
                    walls@[i as int].heights@,
                );
                lemma_lowest_concat(
                    high_before,
                    stack_heights(walls@, i as nat),
                    walls@[i as int].heights@,
                );
            }
            low = include_min_heights(low, walls[i].heights);
            high = include_max_heights(high, walls[i].heights);
        }
        proof {
            let before = wall_heights(*sector, d as nat);
            let added = stack_heights(walls@, walls@.len());
            lemma_lowest_concat(bottom, floor + before, added);
            lemma_lowest_concat(top, ceiling + before, added);
            assert((floor + before) + added == floor + (before + added));
            assert((ceiling + before) + added == ceiling + (before + added));
        }
    }
    (low, high)
}

/// Heights at the two ends of an edge of a floor or ceiling, left end first
/// when seen from inside the cell.
pub open spec fn edge_heights(heights: [i32; 4], dir: GridDirection) -> Option<(i32, i32)> {
    match dir {
        GridDirection::North => Some((heights[0], heights[1])),
        GridDirection::East => Some((heights[1], heights[2])),
        GridDirection::South => Some((heights[2], heights[3])),
        GridDirection::West => Some((heights[3], heights[0])),
        _ => None,
    }
}

pub fn horizontal_edge_heights_for_portal(heights: [i32; 4], dir: GridDirection) -> (result: Option<
    (i32, i32),
>)
    ensures
        result == edge_heights(heights, dir),
{
    match dir {
        GridDirection::North => Some((heights[Corner::NW.idx()], heights[Corner::NE.idx()])),
        GridDirection::East => Some((heights[Corner::NE.idx()], heights[Corner::SE.idx()])),
        GridDirection::South => Some((heights[Corner::SE.idx()], heights[Corner::SW.idx()])),
        GridDirection::West => Some((heights[Corner::SW.idx()], heights[Corner::NW.idx()])),
        _ => None,
    }
}

pub fn maybe_reverse_edge(edge: (i32, i32), reverse: bool) -> (result: (i32, i32))
    ensures
        result == if reverse {
            (edge.1, edge.0)
        } else {
            edge
        },
{
    if reverse {
        (edge.1, edge.0)
    } else {
        edge
    }
}

/// Heights that a cell has along one end of an edge from below: its floor, then
/// its walls.
pub open spec fn lower_edge(sector: GridSector, dir: GridDirection, left: bool) -> Seq<i32> {
    let floor = match sector.floor {
        Some(face) => edge_end(edge_heights(face.heights, dir), left),
        None => Seq::empty(),
    };
    let walls = sector.spec_walls(dir)@;
    floor + stack_end(
        walls,
        walls.len(),
        if left {
            WallCorner::BL
        } else {
            WallCorner::BR
        },
    )
}

/// Heights that a cell has along one end of an edge from above: its ceiling,
/// then its walls.
pub open spec fn upper_edge(sector: GridSector, dir: GridDirection, left: bool) -> Seq<i32> {
    let ceiling = match sector.ceiling {
        Some(face) => edge_end(edge_heights(face.heights, dir), left),
        None => Seq::empty(),
    };
    let walls = sector.spec_walls(dir)@;
    ceiling + stack_end(
        walls,
        walls.len(),
        if left {
            WallCorner::TL
        } else {
            WallCorner::TR
        },
    )
}

/// The height at one end of an edge, if there is one.
pub open spec fn edge_end(edge: Option<(i32, i32)>, left: bool) -> Seq<i32> {
    match edge {
        Some((l, r)) => seq![
            if left {
                l
            } else {
                r
            },
        ],
        None => Seq::empty(),
    }
}

/// The height of one corner of each of the first `n` of some walls.
pub open spec fn stack_end(walls: Seq<GridVerticalFace>, n: nat, corner: WallCorner) -> Seq<i32> {
    Seq::new(n, |i: int| walls[i].heights@[corner.spec_idx()])
}

/// Extend the range below and above the two ends of an edge by what a cell has
/// on that edge. `reverse` exchanges the ends, for the cell on the other side.
pub fn sample_sector_edge_span(
    sector: &GridSector,
    dir: GridDirection,
    reverse: bool,
    bottom: (Option<i32>, Option<i32>),
    top: (Option<i32>, Option<i32>),
) -> (result: ((Option<i32>, Option<i32>), (Option<i32>, Option<i32>)))
    ensures
        result.0.0 == lowest(bottom.0, lower_edge(*sector, dir, !reverse)),
        result.0.1 == lowest(bottom.1, lower_edge(*sector, dir, reverse)),
        result.1.0 == highest(top.0, upper_edge(*sector, dir, !reverse)),
        result.1.1 == highest(top.1, upper_edge(*sector, dir, reverse)),
{
    let mut low = bottom;
    let mut high = top;
    let walls = sector.walls(dir);
    let ghost bl = if reverse {
        (WallCorner::BR, WallCorner::BL)
    } else {
        (WallCorner::BL, WallCorner::BR)
    };
    let ghost tl = if reverse {
        (WallCorner::TR, WallCorner::TL)
    } else {
        (WallCorner::TL, WallCorner::TR)
    };
    if let Some(floor) = &sector.floor {
        if let Some(edge) = horizontal_edge_heights_for_portal(floor.heights, dir) {
            let edge = maybe_reverse_edge(edge, reverse);
            low = (include_min_value(low.0, edge.0), include_min_value(low.1, edge.1));
        }
    }
    if let Some(ceiling) = &sector.ceiling {
        if let Some(edge) = horizontal_edge_heights_for_portal(ceiling.heights, dir) {
            let edge = maybe_reverse_edge(edge, reverse);
            high = (include_max_value(high.0, edge.0), include_max_value(high.1, edge.1));
        }
    }
    let ghost start_low = low;
    let ghost start_high = high;
    for i in 0..walls.len()
        invariant
            walls@ == sector.spec_walls(dir)@,
            bl == if reverse {
                (WallCorner::BR, WallCorner::BL)
            } else {
                (WallCorner::BL, WallCorner::BR)
            },
            tl == if reverse {
                (WallCorner::TR, WallCorner::TL)
            } else {
                (WallCorner::TL, WallCorner::TR)
            },
            low.0 == lowest(start_low.0, stack_end(walls@, i as nat, bl.0)),
            low.1 == lowest(start_low.1, stack_end(walls@, i as nat, bl.1)),
            high.0 == highest(start_high.0, stack_end(walls@, i as nat, tl.0)),
            high.1 == highest(start_high.1, stack_end(walls@, i as nat, tl.1)),
    {
        let wall = walls[i];
        let wall_bottom = maybe_reverse_edge(
            (wall.heights[WallCorner::BL.idx()], wall.heights[WallCorner::BR.idx()]),
            reverse,
        );
        let wall_top = maybe_reverse_edge(
            (wall.heights[WallCorner::TL.idx()], wall.heights[WallCorner::TR.idx()]),
            reverse,
        );
        low = (include_min_value(low.0, wall_bottom.0), include_min_value(low.1, wall_bottom.1));
        high = (include_max_value(high.0, wall_top.0), include_max_value(high.1, wall_top.1));
        proof {
            lemma_stack_end_step(start_low.0, walls@, i as nat, bl.0);
            lemma_stack_end_step(start_low.1, walls@, i as nat, bl.1);
            lemma_stack_end_step(start_high.0, walls@, i as nat, tl.0);
            lemma_stack_end_step(start_high.1, walls@, i as nat, tl.1);
        }
    }
    proof {
        let f0 = match sector.floor {
            Some(face) => edge_end(edge_heights(face.heights, dir), !reverse),
            None => Seq::empty(),
        };
        let f1 = match sector.floor {
            Some(face) => edge_end(edge_heights(face.heights, dir), reverse),
            None => Seq::empty(),
        };
        let c0 = match sector.ceiling {
            Some(face) => edge_end(edge_heights(face.heights, dir), !reverse),
            None => Seq::empty(),
        };
        let c1 = match sector.ceiling {
            Some(face) => edge_end(edge_heights(face.heights, dir), reverse),
            None => Seq::empty(),
        };
        lemma_lowest_concat(bottom.0, f0, stack_end(walls@, walls@.len(), bl.0));
        lemma_lowest_concat(bottom.1, f1, stack_end(walls@, walls@.len(), bl.1));
        lemma_lowest_concat(top.0, c0, stack_end(walls@, walls@.len(), tl.0));
        lemma_lowest_concat(top.1, c1, stack_end(walls@, walls@.len(), tl.1));
    }
    (low, high)
}

proof fn lemma_stack_end_step(
    start: Option<i32>,
    walls: Seq<GridVerticalFace>,
    n: nat,
    corner: WallCorner,
)
    requires
        n < walls.len(),
    ensures
        lowest(start, stack_end(walls, n + 1, corner)) == lowest(
            lowest(start, stack_end(walls, n, corner)),
            seq![walls[n as int].heights@[corner.spec_idx()]],
        ),
        highest(start, stack_end(walls, n + 1, corner)) == highest(
            highest(start, stack_end(walls, n, corner)),
            seq![walls[n as int].heights@[corner.spec_idx()]],
        ),
{
    let h = walls[n as int].heights@[corner.spec_idx()];
    assert(stack_end(walls, n + 1, corner) =~= stack_end(walls, n, corner) + seq![h]);
    lemma_lowest_concat(start, stack_end(walls, n, corner), seq![h]);
}

/// What a cell has on an edge lies within what bounds the cell.
proof fn lemma_edge_within_bounds(sector: GridSector, dir: GridDirection, left: bool)
    ensures
        forall|h: i32| #[trigger]
            lower_edge(sector, dir, left).contains(h) ==> lower_heights(sector).contains(h),
        forall|h: i32| #[trigger]
            upper_edge(sector, dir, left).contains(h) ==> upper_heights(sector).contains(h),
{
    lemma_edge_heights_sampled(sector, dir);
    let walls = sector.spec_walls(dir)@;
    assert forall|h: i32| #[trigger] lower_edge(sector, dir, left).contains(h) implies lower_heights(
        sector,
    ).contains(h) by {
        let all = lower_edge(sector, dir, left);
        let at = choose|at: int| 0 <= at < all.len() && all[at] == h;
        let edge = match sector.floor {
            Some(face) => edge_end(edge_heights(face.heights, dir), left),
            None => Seq::empty(),
        };
        if at < edge.len() {
            let f = sector.floor->0;
            assert(h == f.heights@[0] || h == f.heights@[1] || h == f.heights@[2] || h
                == f.heights@[3]);
        } else {
            lemma_wall_heights_sampled(sector, dir, at - edge.len());
        }
    }
    assert forall|h: i32| #[trigger] upper_edge(sector, dir, left).contains(h) implies upper_heights(
        sector,
    ).contains(h) by {
        let all = upper_edge(sector, dir, left);
        let at = choose|at: int| 0 <= at < all.len() && all[at] == h;
        let edge = match sector.ceiling {
            Some(face) => edge_end(edge_heights(face.heights, dir), left),
            None => Seq::empty(),
        };
        if at < edge.len() {
            let f = sector.ceiling->0;
            assert(h == f.heights@[0] || h == f.heights@[1] || h == f.heights@[2] || h
                == f.heights@[3]);
        } else {
            lemma_wall_heights_sampled(sector, dir, at - edge.len());
        }
    }
}

proof fn lemma_edge_heights_sampled(sector: GridSector, dir: GridDirection)
    ensures
        sector.floor matches Some(f) ==> forall|i: int|
            0 <= i < 4 ==> lower_heights(sector).contains(#[trigger] f.heights@[i]),
        sector.ceiling matches Some(c) ==> forall|i: int|
            0 <= i < 4 ==> upper_heights(sector).contains(#[trigger] c.heights@[i]),
{
    if let Some(f) = sector.floor {
        assert forall|i: int| 0 <= i < 4 implies lower_heights(sector).contains(
            #[trigger] f.heights@[i],
        ) by {
            assert(lower_heights(sector)[i] == f.heights@[i]);
        }
    }
    if let Some(c) = sector.ceiling {
        assert forall|i: int| 0 <= i < 4 implies upper_heights(sector).contains(
            #[trigger] c.heights@[i],
        ) by {
            assert(upper_heights(sector)[i] == c.heights@[i]);
        }
    }
}

proof fn lemma_wall_heights_sampled(sector: GridSector, dir: GridDirection, i: int)
    requires
        0 <= i < sector.spec_walls(dir)@.len(),
    ensures
        forall|k: int|
            0 <= k < 4 ==> lower_heights(sector).contains(
                #[trigger] sector.spec_walls(dir)@[i].heights@[k],
            ) && upper_heights(sector).contains(sector.spec_walls(dir)@[i].heights@[k]),
{
    let d = direction_number(dir);
    let walls = sector.spec_walls(dir)@;
    let all = wall_heights(sector, DIRECTION_COUNT as nat);
    assert forall|k: int| 0 <= k < 4 implies lower_heights(sector).contains(
        #[trigger] walls[i].heights@[k],
    ) && upper_heights(sector).contains(walls[i].heights@[k]) by {
        let h = walls[i].heights@[k];
        lemma_stack_contains(walls, walls.len(), i, k);
        lemma_walls_contain(sector, DIRECTION_COUNT as nat, d, h);
        let at = choose|at: int| 0 <= at < all.len() && all[at] == h;
        assert(lower_heights(sector)[face_heights(sector.floor).len() + at] == h);
        assert(upper_heights(sector)[face_heights(sector.ceiling).len() + at] == h);
    }
}

spec fn direction_number(dir: GridDirection) -> int {
    match dir {
        GridDirection::North => 0,
        GridDirection::East => 1,
        GridDirection::South => 2,
        GridDirection::West => 3,
        GridDirection::NorthWestSouthEast => 4,
        GridDirection::NorthEastSouthWest => 5,
    }
}

proof fn lemma_stack_contains(walls: Seq<GridVerticalFace>, n: nat, i: int, k: int)
    requires
        0 <= i < n <= walls.len(),
        0 <= k < 4,
    ensures
        stack_heights(walls, n).contains(walls[i].heights@[k]),
    decreases n,
{
    let h = walls[i].heights@[k];
    let before = stack_heights(walls, (n - 1) as nat);
    let now = stack_heights(walls, n);
    if i == n - 1 {
        assert(now[before.len() + k] == h);
    } else {
        lemma_stack_contains(walls, (n - 1) as nat, i, k);
        let at = choose|at: int| 0 <= at < before.len() && before[at] == h;
        assert(now[at] == h);
    }
}

proof fn lemma_walls_contain(sector: GridSector, n: nat, d: int, h: i32)
    requires
        0 <= d < n,
        ({
            let walls = sector.spec_walls(direction_at(d))@;
            stack_heights(walls, walls.len()).contains(h)
        }),
    ensures
        wall_heights(sector, n).contains(h),
    decreases n,
{
    let before = wall_heights(sector, (n - 1) as nat);
    let now = wall_heights(sector, n);
    let walls = sector.spec_walls(direction_at(n - 1))@;
    let added = stack_heights(walls, walls.len());
    if d == n - 1 {
        let at = choose|at: int| 0 <= at < added.len() && added[at] == h;
        assert(now[before.len() + at] == h);
    } else {
        lemma_walls_contain(sector, (n - 1) as nat, d, h);
        let at = choose|at: int| 0 <= at < before.len() && before[at] == h;
        assert(now[at] == h);
    }
}

/// The cell at a position of the world's cell grid.
pub open spec fn world_sector(grid: WorldGrid, wcx: int, wcz: int) -> Option<GridSector> {
    grid.sector_at(wcx - grid.origin_x, wcz - grid.origin_z)
}

pub fn sector_for_world_cell(grid: &WorldGrid, wcx: i32, wcz: i32) -> (result: Option<&GridSector>)
    requires
        grid.wf(),
    ensures
        match result {
            Some(sector) => world_sector(*grid, wcx as int, wcz as int) == Some(*sector),
            None => world_sector(*grid, wcx as int, wcz as int) is None,
        },
{
    let x: i64 = wcx as i64 - grid.origin_x as i64;
    let z: i64 = wcz as i64 - grid.origin_z as i64;
    if x < 0 || x >= grid.width as i64 || z < 0 || z >= grid.depth as i64 {
        return None;
    }
    match grid.sector(x as u16, z as u16) {
        Some(sector) => Some(sector),
        None => None,
    }
}

/// What bounds a cell, if there is one, from below.
pub open spec fn lower_heights_of(sector: Option<GridSector>) -> Seq<i32> {
    match sector {
        Some(s) => lower_heights(s),
        None => Seq::empty(),
    }
}

/// What bounds a cell, if there is one, from above.
pub open spec fn upper_heights_of(sector: Option<GridSector>) -> Seq<i32> {
    match sector {
        Some(s) => upper_heights(s),
        None => Seq::empty(),
    }
}

/// The cell on the other side of an edge, if there is one.
pub open spec fn facing_sector(grid: WorldGrid, wcx: i32, wcz: i32, dir: GridDirection) -> Option<
    GridSector,
> {
    match neighbour_cell(wcx, wcz, dir) {
        Some((x, z, _)) => world_sector(grid, x as int, z as int),
        None => None,
    }
}

/// The lowest floor or wall corner of the two cells that share an edge; zero if
/// there is none.
pub open spec fn portal_low(grid: WorldGrid, wcx: i32, wcz: i32, dir: GridDirection) -> int {
    let here = world_sector(grid, wcx as int, wcz as int);
    let there = facing_sector(grid, wcx, wcz, dir);
    match lowest(None, lower_heights_of(here) + lower_heights_of(there)) {
        Some(low) => low as int,
        None => 0,
    }
}

/// The highest ceiling or wall corner of the two cells that share an edge; one
/// cell size above the lowest where that is not higher or does not exist.
pub open spec fn portal_high(grid: WorldGrid, wcx: i32, wcz: i32, dir: GridDirection) -> int {
    let here = world_sector(grid, wcx as int, wcz as int);
    let there = facing_sector(grid, wcx, wcz, dir);
    let low = portal_low(grid, wcx, wcz, dir);
    let above = saturate_i32(low + max_int(grid.sector_size as int, 1));
    match highest(None, upper_heights_of(here) + upper_heights_of(there)) {
        Some(high) => if high > low {
            high as int
        } else {
            above
        },
        None => above,
    }
}

/// Heights sampled along an edge, on its left and its right, and the extremes of
/// the cells that share it.
#[derive(Clone, Copy)]
struct EdgeSamples {
    bottom: (Option<i32>, Option<i32>),
    top: (Option<i32>, Option<i32>),
    lowest: Option<i32>,
    highest: Option<i32>,
}

/// The sampled heights are heights of the two cells.
spec fn sampled_from(
    samples: EdgeSamples,
    here: Option<GridSector>,
    there: Option<GridSector>,
) -> bool {
    let lows = lower_heights_of(here) + lower_heights_of(there);
    let highs = upper_heights_of(here) + upper_heights_of(there);
    &&& from_heights(samples.bottom.0, lows)
    &&& from_heights(samples.bottom.1, lows)
    &&& from_heights(samples.top.0, highs)
    &&& from_heights(samples.top.1, highs)
}

fn sample_cell(
    samples: EdgeSamples,
    sector: &GridSector,
    dir: GridDirection,
    reverse: bool,
    Ghost(here): Ghost<Option<GridSector>>,
    Ghost(there): Ghost<Option<GridSector>>,
) -> (result: EdgeSamples)
    requires
        sampled_from(samples, here, there),
        here == Some(*sector) || there == Some(*sector),
    ensures
        sampled_from(result, here, there),
        result.lowest == lowest(samples.lowest, lower_heights(*sector)),
        result.highest == highest(samples.highest, upper_heights(*sector)),
{
    let span = sample_sector_edge_span(sector, dir, reverse, samples.bottom, samples.top);
    proof {
        lemma_edge_of_cells(*sector, dir, here, there, samples.bottom.0, samples.top.0);
        lemma_edge_of_cells(*sector, dir, here, there, samples.bottom.1, samples.top.1);
    }
    let bounds = sample_sector_vertical_bounds(sector, samples.lowest, samples.highest);
    EdgeSamples { bottom: span.0, top: span.1, lowest: bounds.0, highest: bounds.1 }
}

fn sample_portal_cells(grid: &WorldGrid, wcx: i32, wcz: i32, dir: GridDirection) -> (result:
    EdgeSamples)
    requires
        grid.wf(),
    ensures
        ({
            let here = world_sector(*grid, wcx as int, wcz as int);
            let there = facing_sector(*grid, wcx, wcz, dir);
            &&& sampled_from(result, here, there)
            &&& result.lowest == lowest(None, lower_heights_of(here) + lower_heights_of(there))
            &&& result.highest == highest(None, upper_heights_of(here) + upper_heights_of(there))
        }),
{
    let ghost here = world_sector(*grid, wcx as int, wcz as int);
    let ghost there = facing_sector(*grid, wcx, wcz, dir);
    proof {
        lemma_lowest_concat(None, lower_heights_of(here), lower_heights_of(there));
        lemma_lowest_concat(None, upper_heights_of(here), upper_heights_of(there));
    }
    let mut samples = EdgeSamples {
        bottom: (None, None),
        top: (None, None),
        lowest: None,
        highest: None,
    };
    if let Some(sector) = sector_for_world_cell(grid, wcx, wcz) {
        samples = sample_cell(samples, sector, dir, false, Ghost(here), Ghost(there));
    }
    if let Some((nwcx, nwcz, opposite)) = portal_neighbour_world_cell(wcx, wcz, dir) {
        if let Some(sector) = sector_for_world_cell(grid, nwcx, nwcz) {
            samples = sample_cell(samples, sector, opposite, true, Ghost(here), Ghost(there));
        }
    }
    samples
}

/// Heights of a seam's bottom left, bottom right, top right and top left corner.
/// A seam is level: it spans everything that the two cells have.
pub fn portal_edge_height_span_for_world_cell(
    grid: &WorldGrid,
    wcx: i32,
    wcz: i32,
    dir: GridDirection,
) -> (result: [i32; 4])
    requires
        grid.wf(),
    ensures
        result[0] == portal_low(*grid, wcx, wcz, dir),
        result[1] == portal_low(*grid, wcx, wcz, dir),
        result[2] == portal_high(*grid, wcx, wcz, dir),
        result[3] == portal_high(*grid, wcx, wcz, dir),
{
    let samples = sample_portal_cells(grid, wcx, wcz, dir);
    proof {
        let here = world_sector(*grid, wcx as int, wcz as int);
        let there = facing_sector(*grid, wcx, wcz, dir);
        lemma_extremes(None, lower_heights_of(here) + lower_heights_of(there));
        lemma_extremes(None, upper_heights_of(here) + upper_heights_of(there));
    }
    let low: i32 = samples.lowest.unwrap_or(0);
    let bottom_left: i32 = min_i32(samples.bottom.0.unwrap_or(low), low);
    let bottom_right: i32 = min_i32(samples.bottom.1.unwrap_or(low), low);
    let size: i32 = max_i32(grid.sector_size, 1);
    let high: i32 = match samples.highest {
        Some(high) => high,
        None => saturating_add_i32(max_i32(bottom_left, bottom_right), size),
    };
    let mut top_left: i32 = max_i32(samples.top.0.unwrap_or(high), high);
    let mut top_right: i32 = max_i32(samples.top.1.unwrap_or(high), high);
    if top_left <= bottom_left {
        top_left = saturating_add_i32(bottom_left, size);
    }
    if top_right <= bottom_right {
        top_right = saturating_add_i32(bottom_right, size);
    }
    [bottom_left, bottom_right, top_right, top_left]
}

fn min_i32(a: i32, b: i32) -> (result: i32)
    ensures
        result == min_int(a as int, b as int),
{
    if a <= b {
        a
    } else {
        b
    }
}

fn max_i32(a: i32, b: i32) -> (result: i32)
    ensures
        result == max_int(a as int, b as int),
{
    if a >= b {
        a
    } else {
        b
    }
}

/// A sampled value is one of some heights.
spec fn from_heights(value: Option<i32>, heights: Seq<i32>) -> bool {
    value matches Some(h) ==> heights.contains(h)
}

proof fn lemma_in_concat(a: Seq<i32>, b: Seq<i32>, h: i32)
    ensures
        a.contains(h) || b.contains(h) ==> (a + b).contains(h),
{
    if a.contains(h) {
        let k = choose|k: int| 0 <= k < a.len() && a[k] == h;
        assert((a + b)[k] == h);
    } else if b.contains(h) {
        let k = choose|k: int| 0 <= k < b.len() && b[k] == h;
        assert((a + b)[a.len() + k] == h);
    }
}

proof fn lemma_edge_sampled(sector: GridSector, dir: GridDirection, start: Option<i32>, lows: Seq<i32>)
    requires
        from_heights(start, lows),
        forall|h: i32| #[trigger] lower_heights(sector).contains(h) ==> lows.contains(h),
    ensures
        from_heights(lowest(start, lower_edge(sector, dir, true)), lows),
        from_heights(lowest(start, lower_edge(sector, dir, false)), lows),
{
    lemma_edge_within_bounds(sector, dir, true);
    lemma_edge_within_bounds(sector, dir, false);
    lemma_extremes(start, lower_edge(sector, dir, true));
    lemma_extremes(start, lower_edge(sector, dir, false));
}

proof fn lemma_edge_sampled_above(
    sector: GridSector,
    dir: GridDirection,
    start: Option<i32>,
    highs: Seq<i32>,
)
    requires
        from_heights(start, highs),
        forall|h: i32| #[trigger] upper_heights(sector).contains(h) ==> highs.contains(h),
    ensures
        from_heights(highest(start, upper_edge(sector, dir, true)), highs),
        from_heights(highest(start, upper_edge(sector, dir, false)), highs),
{
    lemma_edge_within_bounds(sector, dir, true);
    lemma_edge_within_bounds(sector, dir, false);
    lemma_extremes(start, upper_edge(sector, dir, true));
    lemma_extremes(start, upper_edge(sector, dir, false));
}

/// What is sampled along an edge of one of two cells is one of their heights.
proof fn lemma_edge_of_cells(
    sector: GridSector,
    dir: GridDirection,
    here: Option<GridSector>,
    there: Option<GridSector>,
    low: Option<i32>,
    high: Option<i32>,
)
    requires
        here == Some(sector) || there == Some(sector),
        from_heights(low, lower_heights_of(here) + lower_heights_of(there)),
        from_heights(high, upper_heights_of(here) + upper_heights_of(there)),
    ensures
        ({
            let lows = lower_heights_of(here) + lower_heights_of(there);
            let highs = upper_heights_of(here) + upper_heights_of(there);
            &&& from_heights(lowest(low, lower_edge(sector, dir, true)), lows)
            &&& from_heights(lowest(low, lower_edge(sector, dir, false)), lows)
            &&& from_heights(highest(high, upper_edge(sector, dir, true)), highs)
            &&& from_heights(highest(high, upper_edge(sector, dir, false)), highs)
        }),
{
    let lows = lower_heights_of(here) + lower_heights_of(there);
    let highs = upper_heights_of(here) + upper_heights_of(there);
    assert forall|h: i32| lower_heights(sector).contains(h) implies lows.contains(h) by {
        lemma_in_concat(lower_heights_of(here), lower_heights_of(there), h);
    }
    assert forall|h: i32| upper_heights(sector).contains(h) implies highs.contains(h) by {
        lemma_in_concat(upper_heights_of(here), upper_heights_of(there), h);
    }
    lemma_edge_sampled(sector, dir, low, lows);
    lemma_edge_sampled_above(sector, dir, high, highs);
}

/// A point in world units.
pub type RoomPoint = (i32, i32, i32);

/// A seam's corners with the two lower ones lifted off the floor.
pub open spec fn lifted_corners(corners: [RoomPoint; 4]) -> [RoomPoint; 4] {
    [
        (corners[0].0, saturate_i32(corners[0].1 + PORTAL_BOTTOM_LIFT) as i32, corners[0].2),
        (corners[1].0, saturate_i32(corners[1].1 + PORTAL_BOTTOM_LIFT) as i32, corners[1].2),
        corners[2],
        corners[3],
    ]
}

/// Lift the lower edge of a seam, given its outline corners: bottom left, bottom
/// right, top right, top left.
pub fn portal_edge_wall_corners_for_world_cell(corners: Option<[RoomPoint; 4]>) -> (result: Option<
    [RoomPoint; 4],
>)
    ensures
        result == match corners {
            Some(c) => Some(lifted_corners(c)),
            None => None,
        },
{
    match corners {
        None => None,
        Some(c) => Some(
            [
                (c[0].0, saturating_add_i32(c[0].1, PORTAL_BOTTOM_LIFT), c[0].2),
                (c[1].0, saturating_add_i32(c[1].1, PORTAL_BOTTOM_LIFT), c[1].2),
                c[2],
                c[3],
            ],
        ),
    }
}

/// The four sides of one seam outline.
pub fn push_portal_edge_wall_outline(corners: Option<[RoomPoint; 4]>) -> (result: Vec<
    (RoomPoint, RoomPoint),
>)
    ensures
        result@ == match corners {
            None => Seq::empty(),
            Some(c) => seq![(c[0], c[1]), (c[1], c[2]), (c[2], c[3]), (c[3], c[0])],
        },
{
    let mut out: Vec<(RoomPoint, RoomPoint)> = Vec::new();
    if let Some(c) = corners {
        out.push((c[0], c[1]));
        out.push((c[1], c[2]));
        out.push((c[2], c[3]));
        out.push((c[3], c[0]));
    }
    out
}

/// The lower and upper lines of the first `n` edges of a run that have corners.
pub open spec fn rail_segments(corners: Seq<Option<[RoomPoint; 4]>>, n: nat) -> Seq<
    (RoomPoint, RoomPoint),
>
    decreases n,
{
    if n == 0 {
        Seq::empty()
    } else {
        let before = rail_segments(corners, (n - 1) as nat);
        match corners[n - 1] {
            None => before,
            Some(c) => before + seq![(c[0], c[1]), (c[3], c[2])],
        }
    }
}

/// The first edge among the first `n` that has corners.
pub open spec fn first_corners(corners: Seq<Option<[RoomPoint; 4]>>, n: nat) -> Option<
    [RoomPoint; 4],
>
    decreases n,
{
    if n == 0 {
        None
    } else {
        match first_corners(corners, (n - 1) as nat) {
            Some(c) => Some(c),
            None => corners[n - 1],
        }
    }
}

/// The last edge among the first `n` that has corners.
pub open spec fn last_corners(corners: Seq<Option<[RoomPoint; 4]>>, n: nat) -> Option<
    [RoomPoint; 4],
>
    decreases n,
{
    if n == 0 {
        None
    } else {
        match corners[n - 1] {
            Some(c) => Some(c),
            None => last_corners(corners, (n - 1) as nat),
        }
    }
}

/// The upright lines at both ends of a run.
pub open spec fn end_posts(
    direction: GridDirection,
    first: Option<[RoomPoint; 4]>,
    last: Option<[RoomPoint; 4]>,
) -> Seq<(RoomPoint, RoomPoint)> {
    match (first, last) {
        (Some(f), Some(l)) => if direction == GridDirection::North {
            seq![(f[0], f[3]), (l[1], l[2])]
        } else if direction == GridDirection::East {
            seq![(f[1], f[2]), (l[0], l[3])]
        } else {
            Seq::empty()
        },
        _ => Seq::empty(),
    }
}

/// How many edges of a run lie within the coordinate range.
pub open spec fn edges_in_range(run: PortalSeamRun) -> int {
    let first = if run.start.direction == GridDirection::North {
        run.start.x
    } else {
        run.start.z
    };
    min_int(run.len as int, 65536 - first)
}

/// The lines that outline a run of edges as one frame: a lower and an upper line
/// for every edge, and an upright line at each end. `corners` holds the lifted
/// corners of every edge of the run; an edge without any is skipped. A run that
/// leaves the coordinate range ends there without an upright line, and a run of
/// edges that carry no seam has no lines.
pub fn push_portal_seam_run(run: PortalSeamRun, corners: &Vec<Option<[RoomPoint; 4]>>) -> (result:
    Vec<(RoomPoint, RoomPoint)>)
    requires
        corners@.len() == run.len,
    ensures
        result@ == if !carries_seam(run.start) {
            Seq::empty()
        } else if edges_in_range(run) < run.len {
            rail_segments(corners@, edges_in_range(run) as nat)
        } else {
            rail_segments(corners@, corners@.len()) + end_posts(
                run.start.direction,
                first_corners(corners@, corners@.len()),
                last_corners(corners@, corners@.len()),
            )
        },
{
    let mut out: Vec<(RoomPoint, RoomPoint)> = Vec::new();
    let mut first: Option<[RoomPoint; 4]> = None;
    let mut last: Option<[RoomPoint; 4]> = None;
    let start: u16 = match run.start.direction {
        GridDirection::North => run.start.x,
        GridDirection::East => run.start.z,
        _ => return out,
    };
    for offset in 0..corners.len()
        invariant
            carries_seam(run.start),
            corners@.len() == run.len,
            start == if run.start.direction == GridDirection::North {
                run.start.x
            } else {
                run.start.z
            },
            offset <= edges_in_range(run),
            out@ == rail_segments(corners@, offset as nat),
            first == first_corners(corners@, offset as nat),
            last == last_corners(corners@, offset as nat),
    {
        if start.checked_add(offset as u16).is_none() {
            return out;
        }
        if let Some(c) = corners[offset] {
            out.push((c[0], c[1]));
            out.push((c[3], c[2]));
            assert(out@ == rail_segments(corners@, offset as nat) + seq![
                (c[0], c[1]),
                (c[3], c[2]),
            ]);
            if first.is_none() {
                first = Some(c);
            }
            last = Some(c);
        }
    }
    let ghost rails = out@;
    let Some(f) = first else {
        assert(rails + Seq::<(RoomPoint, RoomPoint)>::empty() == rails);
        return out;
    };
    let Some(l) = last else {
        assert(rails + Seq::<(RoomPoint, RoomPoint)>::empty() == rails);
        return out;
    };
    if run.start.direction == GridDirection::North {
        out.push((f[0], f[3]));
        out.push((l[1], l[2]));
        assert(out@ == rails + seq![(f[0], f[3]), (l[1], l[2])]);
    } else {
        out.push((f[1], f[2]));
        out.push((l[0], l[3]));
        assert(out@ == rails + seq![(f[1], f[2]), (l[0], l[3])]);
    }
    out
}

/// A scene node as the walk over seams reads it.
#[derive(Clone, Copy, Debug, PartialEq, Eq)]
pub struct SeamNode {
    pub id: NodeId,
    pub is_portal: bool,
    pub hidden: bool,
    /// The node stands somewhere below the room that is drawn.
    pub in_room: bool,
}

/// A portal whose seam is drawn, and the line that it is drawn with.
#[derive(Clone, Copy, Debug, PartialEq, Eq)]
pub struct SeamStyle {
    pub id: NodeId,
    pub line: FaceOutlineStyle,
}

/// The seams of the first nodes.
pub open spec fn seams_of(
    nodes: Seq<SeamNode>,
    selected: NodeId,
    hovered: Option<NodeId>,
    count: int,
) -> Seq<SeamStyle>
    decreases count,
{
    if count <= 0 {
        Seq::empty()
    } else {
        let node = nodes[count - 1];
        let so_far = seams_of(nodes, selected, hovered, count - 1);
        if node.is_portal && !node.hidden && node.in_room {
            so_far.push(
                SeamStyle {
                    id: node.id,
                    line: FaceOutlineStyle {
                        rgb: PORTAL_SEAM_RGB,
                        weight: if node.id == selected || hovered == Some(node.id) {
                            StrokeWeight::StrongSeam
                        } else {
                            StrokeWeight::Seam
                        },
                    },
                },
            )
        } else {
            so_far
        }
    }
}

/// The portals of a room whose seams are drawn: those that are not hidden, with
/// a heavier line when selected or pointed at.
pub fn walk_portal_seams(
    nodes: &Vec<SeamNode>,
    selected: NodeId,
    hovered: Option<NodeId>,
) -> (seams: Vec<SeamStyle>)
    ensures
        seams@ == seams_of(nodes@, selected, hovered, nodes@.len() as int),
{
    let mut seams: Vec<SeamStyle> = Vec::new();
    for i in 0..nodes.len()
        invariant
            seams@ == seams_of(nodes@, selected, hovered, i as int),
    {
        let node = nodes[i];
        if node.is_portal && !node.hidden && node.in_room {
            let pointed_at = match hovered {
                Some(id) => id == node.id,
                None => false,
            };
            let weight = if node.id == selected || pointed_at {
                StrokeWeight::StrongSeam
            } else {
                StrokeWeight::Seam
            };
            seams.push(
                SeamStyle {
                    id: node.id,
                    line: FaceOutlineStyle { rgb: PORTAL_SEAM_RGB, weight },
                },
            );
        }
    }
    seams
}

/// The edge of a cell that leads to a neighbour is the neighbour's edge that
/// leads back, seen from the other side: both stand on the same line, and
/// crossing it changes the side of it that the cell lies on.
pub proof fn law_neighbours_share_the_edge_between_them(
    wcx: i32,
    wcz: i32,
    dir: GridDirection,
    size: i32,
)
    requires
        neighbour_cell(wcx, wcz, dir) is Some,
        size > 0,
        -1000 <= wcx <= 1000,
        -1000 <= wcz <= 1000,
        size <= 65536,
    ensures
        ({
            let (x, z, back) = neighbour_cell(wcx, wcz, dir)->0;
            let here = wall_ends(cell_box(wcx as int, wcz as int, size as int), dir);
            let there = wall_ends(cell_box(x as int, z as int, size as int), back);
            &&& there == (here.1, here.0)
            &&& here.0 != here.1
            &&& (x, z) != (wcx, wcz)
        }),
{
    let s = size as int;
    lemma_cell_side(wcx as int, s);
    lemma_cell_side(wcz as int, s);
    lemma_cell_side(wcx + 1, s);
    lemma_cell_side(wcz + 1, s);
    lemma_cell_side(wcx - 1, s);
    lemma_cell_side(wcz - 1, s);
}

/// The extent of a cell of the world's grid.
pub open spec fn cell_box(x: int, z: int, size: int) -> [i32; 4] {
    [(x * size) as i32, ((x + 1) * size) as i32, (z * size) as i32, ((z + 1) * size) as i32]
}

proof fn lemma_cell_side(x: int, size: int)
    requires
        -1001 <= x <= 1001,
        0 < size <= 65536,
    ensures
        (x + 1) * size == x * size + size,
        i32::MIN <= x * size <= i32::MAX,
        i32::MIN <= (x + 1) * size <= i32::MAX,
{
    assert((x + 1) * size == x * size + size) by (nonlinear_arith);
    assert(-70_000_000 <= x * size <= 70_000_000) by (nonlinear_arith)
        requires
            -1001 <= x <= 1001,
            0 < size <= 65536,
    ;
}

/// An edge has one name, whichever of the two cells at it is asked; northern and
/// eastern edges keep the cell that they are asked of.
pub proof fn law_edges_have_one_name(sx: u16, sz: u16)
    ensures
        canonical_edge(sx, sz, GridDirection::North) == Some(
            PortalEdge { x: sx, z: sz, direction: GridDirection::North },
        ),
        canonical_edge(sx, sz, GridDirection::East) == Some(
            PortalEdge { x: sx, z: sz, direction: GridDirection::East },
        ),
        sz < u16::MAX ==> canonical_edge(sx, (sz + 1) as u16, GridDirection::South)
            == canonical_edge(sx, sz, GridDirection::North),
        sx < u16::MAX ==> canonical_edge((sx + 1) as u16, sz, GridDirection::West)
            == canonical_edge(sx, sz, GridDirection::East),
        canonical_edge(sx, 0, GridDirection::South) is None,
        canonical_edge(0, sz, GridDirection::West) is None,
        canonical_edge(sx, sz, GridDirection::NorthWestSouthEast) is None,
        canonical_edge(sx, sz, GridDirection::NorthEastSouthWest) is None,
{
}

/// The lowest of some heights is one of them and none is lower; the highest is
/// one of them and none is higher. There is none only without heights.
pub proof fn law_extremes_bound_the_heights(heights: Seq<i32>, k: int)
    requires
        0 <= k < heights.len(),
    ensures
        lowest(None, heights) matches Some(low) && heights.contains(low) && low <= heights[k],
        highest(None, heights) matches Some(high) && heights.contains(high) && high >= heights[k],
        lowest(None, Seq::empty()) is None,
        highest(None, Seq::empty()) is None,
    decreases heights.len(),
{
    let rest = heights.drop_last();
    assert(heights[heights.len() - 1] == heights.last());
    if rest.len() == 0 {
        assert(rest =~= Seq::<i32>::empty());
    } else {
        law_extremes_bound_the_heights(
            rest,
            if k < rest.len() {
                k
            } else {
                0
            },
        );
        assert forall|h: i32| rest.contains(h) implies heights.contains(h) by {
            let i = choose|i: int| 0 <= i < rest.len() && rest[i] == h;
            assert(heights[i] == h);
        }
        if k < rest.len() {
            assert(heights[k] == rest[k]);
        }
    }
}

proof fn lemma_stack_holds(walls: Seq<GridVerticalFace>, n: nat, i: int, c: int)
    requires
        0 <= i < n <= walls.len(),
        0 <= c < 4,
    ensures
        stack_heights(walls, n).contains(walls[i].heights@[c]),
    decreases n,
{
    let h = walls[i].heights@[c];
    let before = stack_heights(walls, (n - 1) as nat);
    let all = stack_heights(walls, n);
    if i == n - 1 {
        assert(all[before.len() + c] == h);
    } else {
        lemma_stack_holds(walls, (n - 1) as nat, i, c);
        let k = choose|k: int| 0 <= k < before.len() && before[k] == h;
        assert(all[k] == h);
    }
}

proof fn lemma_walls_hold(sector: GridSector, n: nat, d: int, i: int, c: int)
    requires
        0 <= d < n <= DIRECTION_COUNT,
        0 <= i < sector.spec_walls(direction_at(d))@.len(),
        0 <= c < 4,
    ensures
        wall_heights(sector, n).contains(sector.spec_walls(direction_at(d))@[i].heights@[c]),
    decreases n,
{
    let h = sector.spec_walls(direction_at(d))@[i].heights@[c];
    let before = wall_heights(sector, (n - 1) as nat);
    let walls = sector.spec_walls(direction_at(n - 1))@;
    let added = stack_heights(walls, walls.len());
    if d == n - 1 {
        lemma_stack_holds(walls, walls.len(), i, c);
        lemma_in_concat(before, added, h);
    } else {
        lemma_walls_hold(sector, (n - 1) as nat, d, i, c);
        lemma_in_concat(before, added, h);
    }
}

/// A cell is bounded from below by every corner of its floor and its walls, in
/// every direction, and from above by every corner of its ceiling and its walls.
pub proof fn law_every_corner_bounds_the_cell(sector: GridSector, dir: GridDirection, i: int, c: int)
    requires
        0 <= c < 4,
    ensures
        sector.floor matches Some(face) ==> lower_heights(sector).contains(face.heights@[c]),
        sector.ceiling matches Some(face) ==> upper_heights(sector).contains(face.heights@[c]),
        0 <= i < sector.spec_walls(dir)@.len() ==> lower_heights(sector).contains(
            sector.spec_walls(dir)@[i].heights@[c],
        ) && upper_heights(sector).contains(sector.spec_walls(dir)@[i].heights@[c]),
{
    let walls = wall_heights(sector, DIRECTION_COUNT as nat);
    if let Some(face) = sector.floor {
        assert(face_heights(sector.floor)[c] == face.heights@[c]);
        lemma_in_concat(face_heights(sector.floor), walls, face.heights@[c]);
    }
    if let Some(face) = sector.ceiling {
        assert(face_heights(sector.ceiling)[c] == face.heights@[c]);
        lemma_in_concat(face_heights(sector.ceiling), walls, face.heights@[c]);
    }
    if 0 <= i < sector.spec_walls(dir)@.len() {
        let d = match dir {
            GridDirection::North => 0int,
            GridDirection::East => 1,
            GridDirection::South => 2,
            GridDirection::West => 3,
            GridDirection::NorthWestSouthEast => 4,
            GridDirection::NorthEastSouthWest => 5,
        };
        assert(direction_at(d) == dir);
        lemma_walls_hold(sector, DIRECTION_COUNT as nat, d, i, c);
        let h = sector.spec_walls(dir)@[i].heights@[c];
        lemma_in_concat(face_heights(sector.floor), walls, h);
        lemma_in_concat(face_heights(sector.ceiling), walls, h);
    }
}

/// A seam reaches from the lowest floor or wall corner of the two cells at it to
/// their highest ceiling or wall corner: no corner lies below its foot, none above
/// its top, and its top is above its foot.
pub proof fn law_seams_span_both_cells(
    grid: WorldGrid,
    wcx: i32,
    wcz: i32,
    dir: GridDirection,
    h: i32,
)
    requires
        grid.sector_size > 0,
    ensures
        ({
            let here = world_sector(grid, wcx as int, wcz as int);
            let there = facing_sector(grid, wcx, wcz, dir);
            let low = portal_low(grid, wcx, wcz, dir);
            let high = portal_high(grid, wcx, wcz, dir);
            &&& (here matches Some(s) && lower_heights(s).contains(h)) || (there matches Some(s)
                && lower_heights(s).contains(h)) ==> low <= h
            &&& (here matches Some(s) && upper_heights(s).contains(h)) || (there matches Some(s)
                && upper_heights(s).contains(h)) ==> h <= high
            &&& low < high || low == i32::MAX
            &&& here is None && there is None ==> low == 0 && high == grid.sector_size
        }),
{
    let here = world_sector(grid, wcx as int, wcz as int);
    let there = facing_sector(grid, wcx, wcz, dir);
    let lows = lower_heights_of(here) + lower_heights_of(there);
    let highs = upper_heights_of(here) + upper_heights_of(there);
    lemma_in_concat(lower_heights_of(here), lower_heights_of(there), h);
    lemma_in_concat(upper_heights_of(here), upper_heights_of(there), h);
    if lows.contains(h) {
        let k = choose|k: int| 0 <= k < lows.len() && lows[k] == h;
        law_extremes_bound_the_heights(lows, k);
    }
    if highs.contains(h) {
        let k = choose|k: int| 0 <= k < highs.len() && highs[k] == h;
        law_extremes_bound_the_heights(highs, k);
    }
    if here is None && there is None {
        assert(lows =~= Seq::<i32>::empty());
        assert(highs =~= Seq::<i32>::empty());
    }
}

/// The heights along an edge of a floor are those of the two corners that the
/// wall on that edge would stand between, left end first.
pub proof fn law_edge_heights_are_those_of_its_corners(
    bounds: [i32; 4],
    heights: [i32; 4],
    dir: GridDirection,
    corner: Corner,
)
    requires
        edge_heights(heights, dir) is Some,
        bounds[0] != bounds[1],
        bounds[2] != bounds[3],
    ensures
        ({
            let (left, right) = wall_ends(bounds, dir);
            let point = corner_point(bounds, corner, heights[corner.spec_idx()]);
            let (low, high) = edge_heights(heights, dir)->0;
            &&& (point.0, point.2) == left ==> low == point.1
            &&& (point.0, point.2) == right ==> high == point.1
        }),
{
}

/// A seam's outline is lifted off the floor and nothing else about it changes.
pub proof fn law_only_the_foot_of_a_seam_is_lifted(corners: [RoomPoint; 4], i: int)
    requires
        0 <= i < 4,
    ensures
        ({
            let lifted = lifted_corners(corners);
            &&& lifted[i].0 == corners[i].0
            &&& lifted[i].2 == corners[i].2
            &&& i >= 2 ==> lifted[i].1 == corners[i].1
            &&& i < 2 && corners[i].1 <= i32::MAX - PORTAL_BOTTOM_LIFT ==> lifted[i].1
                == corners[i].1 + PORTAL_BOTTOM_LIFT
            &&& lifted[i].1 >= corners[i].1
        }),
{
}

/// Every edge of a run that has corners has its lower and its upper line in the
/// frame, and the frame has no other lines but these and the posts.
pub proof fn law_every_edge_of_a_run_is_railed(corners: Seq<Option<[RoomPoint; 4]>>, n: nat, k: int)
    requires
        0 <= k < n <= corners.len(),
    ensures
        corners[k] matches Some(c) ==> rail_segments(corners, n).contains((c[0], c[1]))
            && rail_segments(corners, n).contains((c[3], c[2])),
        rail_segments(corners, n).len() <= 2 * n,
        (forall|i: int| 0 <= i < n ==> #[trigger] corners[i] is Some) ==> rail_segments(
            corners,
            n,
        ).len() == 2 * n && first_corners(corners, n) == corners[0] && last_corners(corners, n)
            == corners[n - 1],
    decreases n,
{
    let before = rail_segments(corners, (n - 1) as nat);
    let all = rail_segments(corners, n);
    if n > 1 {
        law_every_edge_of_a_run_is_railed(
            corners,
            (n - 1) as nat,
            if k < n - 1 {
                k
            } else {
                0
            },
        );
    } else {
        reveal_with_fuel(first_corners, 2);
        reveal_with_fuel(rail_segments, 2);
    }
    if let Some(c) = corners[k] {
        if k == n - 1 {
            assert(all[before.len() as int] == (c[0], c[1]));
            assert(all[before.len() as int + 1] == (c[3], c[2]));
        } else {
            let i = choose|i: int| 0 <= i < before.len() && before[i] == (c[0], c[1]);
            let j = choose|j: int| 0 <= j < before.len() && before[j] == (c[3], c[2]);
            assert(all[i] == (c[0], c[1]));
            assert(all[j] == (c[3], c[2]));
        }
    }
}

/// The posts of a run stand at its two ends: each joins the lower and the upper
/// corner of the same end of an edge, and they are at opposite ends.
pub proof fn law_posts_stand_at_the_ends_of_a_run(
    direction: GridDirection,
    first: [RoomPoint; 4],
    last: [RoomPoint; 4],
)
    requires
        direction == GridDirection::North || direction == GridDirection::East,
    ensures
        ({
            let posts = end_posts(direction, Some(first), Some(last));
            let left_of_first = (first[0], first[3]);
            let right_of_first = (first[1], first[2]);
            let left_of_last = (last[0], last[3]);
            let right_of_last = (last[1], last[2]);
            &&& posts.len() == 2
            &&& direction == GridDirection::North ==> posts[0] == left_of_first && posts[1]
                == right_of_last
            &&& direction == GridDirection::East ==> posts[0] == right_of_first && posts[1]
                == left_of_last
        }),
{
}

/// Exactly the portals of the room that are not hidden have a seam, heavier if
/// selected or pointed at.
pub proof fn law_seams_are_those_of_shown_portals(
    nodes: Seq<SeamNode>,
    selected: NodeId,
    hovered: Option<NodeId>,
    count: int,
    k: int,
)
    requires
        0 <= k < count <= nodes.len(),
    ensures
        ({
            let seams = seams_of(nodes, selected, hovered, count);
            let drawn = nodes[k].is_portal && !nodes[k].hidden && nodes[k].in_room;
            let at = seams_of(nodes, selected, hovered, k).len() as int;
            &&& seams.len() <= count
            &&& drawn ==> at < seams.len() && seams[at].id == nodes[k].id
            &&& drawn ==> (seams[at].line.weight == StrokeWeight::StrongSeam <==> (nodes[k].id
                == selected || hovered == Some(nodes[k].id)))
            &&& drawn ==> (seams[at].line.weight == StrokeWeight::Seam <==> !(nodes[k].id
                == selected || hovered == Some(nodes[k].id)))
            &&& !drawn ==> seams_of(nodes, selected, hovered, k + 1).len() == at
        }),
    decreases count,
{
    let before = seams_of(nodes, selected, hovered, count - 1);
    let seams = seams_of(nodes, selected, hovered, count);
    if k < count - 1 {
        law_seams_are_those_of_shown_portals(nodes, selected, hovered, count - 1, k);
        let at = seams_of(nodes, selected, hovered, k).len() as int;
        if nodes[k].is_portal && !nodes[k].hidden && nodes[k].in_room {
            assert(seams[at] == before[at]);
        }
    } else if count > 1 {
        law_seams_are_those_of_shown_portals(nodes, selected, hovered, count - 1, 0);
    } else {
        assert(before.len() == 0);
    }
}

} // verus!

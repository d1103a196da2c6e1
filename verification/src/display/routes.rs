//! What a route over the map is, which ones trains can take, and which is the shortest.

use vstd::prelude::*;

use crate::config;
use crate::config::LocPixNode;
use crate::display::path_find::{LocPixEdgeDirected, PathFindError};
use crate::display::ways;

verus! {

/// Cost of going between two locations: their Manhattan distance in degrees times 10^7.
pub open spec fn step_cost(a: LocPixNode, b: LocPixNode) -> int {
    vstd::math::abs(a.lat_e7 - b.lat_e7) as int + vstd::math::abs(a.lng_e7 - b.lng_e7) as int
}

/// The set of four track directions that a direction belongs to.
pub open spec fn track_set(dir: u16) -> int {
    vstd::std_specs::bits::u16_trailing_zeros(dir) as int / 4
}

/// Whether a train that came in by the track direction `dir` can leave by `edge_dir`: it neither
/// turns around nor switches tracks.
pub open spec fn may_leave(dir: u16, edge_dir: u16) -> bool {
    dir & edge_dir == 0 && track_set(dir) == track_set(edge_dir)
}

/// Whether edge number `e` leads from location `a` to location `b`.
pub open spec fn edge_leads(nodes: Seq<LocPixNode>, a: u16, e: int, b: u16) -> bool {
    0 <= e < nodes[a as int].edges@.len() && nodes[a as int].edges@[e].to_loc == b
}

/// Whether the map joins two locations, there and back.
pub open spec fn are_joined(nodes: Seq<LocPixNode>, a: u16, b: u16) -> bool {
    &&& exists|e: int| edge_leads(nodes, a, e, b)
    &&& exists|r: int| edge_leads(nodes, b, r, a)
}

/// Whether a train that comes to `b` from the location to which edge number `r` of `b` leads back
/// can leave by edge number `e` of `b`.
pub open spec fn turn_at(nodes: Seq<LocPixNode>, b: u16, r: int, e: int) -> bool {
    may_leave(nodes[b as int].edges@[r].dir, nodes[b as int].edges@[e].dir)
}

/// Whether a train can go from `a` by `b` to `c`: there is an edge back to `a` and one on to `c`
/// that a train can take after the other.
pub open spec fn may_turn(nodes: Seq<LocPixNode>, a: u16, b: u16, c: u16) -> bool {
    exists|r: int, e: int|
        edge_leads(nodes, b, r, a) && edge_leads(nodes, b, e, c) && #[trigger] turn_at(nodes, b, r, e)
}

/// Whether a train can take the turn at location number `i`.
pub open spec fn turn_allowed(nodes: Seq<LocPixNode>, locs: Seq<u16>, i: int) -> bool {
    may_turn(nodes, locs[i - 1], locs[i], locs[i + 1])
}

/// Whether a train can take every turn between three locations in a row.
pub open spec fn turns_allowed(nodes: Seq<LocPixNode>, locs: Seq<u16>) -> bool {
    forall|i: int| 0 < i < locs.len() - 1 ==> #[trigger] turn_allowed(nodes, locs, i)
}

/// Whether the map joins location number `i` and the next one.
pub open spec fn next_joined(nodes: Seq<LocPixNode>, locs: Seq<u16>, i: int) -> bool {
    are_joined(nodes, locs[i], locs[i + 1])
}

/// Whether all locations have the transit modes `mode`, at least one.
pub open spec fn share_mode(nodes: Seq<LocPixNode>, locs: Seq<u16>, mode: u8) -> bool {
    &&& mode != 0
    &&& forall|i: int| 0 <= i < locs.len() ==> nodes[(#[trigger] locs[i]) as int].modes & mode == mode
}

/// Whether locations follow each other on the map, and a train can take every turn between them.
pub open spec fn is_course(nodes: Seq<LocPixNode>, start: u16, locs: Seq<u16>) -> bool {
    &&& locs.len() > 0
    &&& locs[0] == start
    &&& forall|i: int| 0 <= i < locs.len() ==> (#[trigger] locs[i]) < nodes.len()
    &&& forall|i: int| 0 <= i < locs.len() - 1 ==> #[trigger] next_joined(nodes, locs, i)
    &&& turns_allowed(nodes, locs)
}

/// Whether a train can take the route by `locs` from `start` to `goal`, another location: the map
/// joins each location to the next one, no turn is forbidden, and all locations have a transit mode
/// in common.
pub open spec fn is_allowed_route(
    nodes: Seq<LocPixNode>,
    start: u16,
    goal: u16,
    locs: Seq<u16>,
) -> bool {
    &&& start != goal
    &&& is_course(nodes, start, locs)
    &&& locs.last() == goal
    &&& exists|mode: u8| share_mode(nodes, locs, mode)
}

/// The cost of a route, step by step.
pub open spec fn route_cost(nodes: Seq<LocPixNode>, locs: Seq<u16>) -> int
    decreases locs.len(),
{
    if locs.len() <= 1 {
        0
    } else {
        route_cost(nodes, locs.drop_last()) + step_cost(
            nodes[locs[locs.len() - 2] as int],
            nodes[locs.last() as int],
        )
    }
}

/// The locations of a path.
pub open spec fn path_locs(path: Seq<LocPixEdgeDirected>) -> Seq<u16> {
    path.map_values(|p: LocPixEdgeDirected| p.from_loc)
}

/// Whether edge number `e` of location number `i` of a path leads on to the next one: it begins at
/// the pixel that is shown, and after the step before a train can take it.
pub open spec fn edge_leads_on(
    nodes: Seq<LocPixNode>,
    path: Seq<LocPixEdgeDirected>,
    i: int,
    e: int,
) -> bool {
    &&& edge_leads(nodes, path[i].from_loc, e, path[i + 1].from_loc)
    &&& nodes[path[i].from_loc as int].edges@[e].from_pix == path[i].from_pix
    &&& i > 0 ==> exists|r: int|
        edge_leads(nodes, path[i].from_loc, r, path[i - 1].from_loc) && #[trigger] turn_at(
            nodes,
            path[i].from_loc,
            r,
            e,
        )
}

/// Whether location number `i` of a path is shown by the pixel at which an edge to the next one
/// begins and, if that is the last one, the next one by the pixel at which that edge ends.
pub open spec fn step_shown(nodes: Seq<LocPixNode>, path: Seq<LocPixEdgeDirected>, i: int) -> bool {
    exists|e: int|
        {
            &&& #[trigger] edge_leads_on(nodes, path, i, e)
            &&& i == path.len() - 2 ==> nodes[path[i].from_loc as int].edges@[e].to_pix
                == path.last().from_pix
        }
}

/// Whether a path shows, for each of its locations, the pixel at which an edge to the next one
/// begins, and for the last one the pixel at which that edge ends.
pub open spec fn is_path(nodes: Seq<LocPixNode>, path: Seq<LocPixEdgeDirected>) -> bool {
    forall|i: int| 0 <= i < path.len() - 1 ==> #[trigger] step_shown(nodes, path, i)
}

/// Whether no route that a train can take from `start` to `goal` costs less than `cost`.
pub open spec fn none_cheaper(nodes: Seq<LocPixNode>, start: u16, goal: u16, cost: int) -> bool {
    forall|q: Seq<u16>| #[trigger]
        is_allowed_route(nodes, start, goal, q) ==> cost <= route_cost(nodes, q)
}

/// Whether `path` is a shortest path from `start` to `goal` that a train can take.
pub open spec fn is_shortest_path(
    nodes: Seq<LocPixNode>,
    start: u16,
    goal: u16,
    path: Seq<LocPixEdgeDirected>,
) -> bool {
    &&& is_allowed_route(nodes, start, goal, path_locs(path))
    &&& is_path(nodes, path)
    &&& none_cheaper(nodes, start, goal, route_cost(nodes, path_locs(path)))
}

/// Whether a train cannot get from `start` to `goal` at all.
pub open spec fn no_route(nodes: Seq<LocPixNode>, start: u16, goal: u16) -> bool {
    forall|q: Seq<u16>| !(#[trigger] is_allowed_route(nodes, start, goal, q))
}

/// The locations of a shortest path are on the map, and so are its pixels.
pub proof fn lemma_path_on_map(
    nodes: Seq<LocPixNode>,
    start: u16,
    goal: u16,
    path: Seq<LocPixEdgeDirected>,
)
    requires
        is_shortest_path(nodes, start, goal, path),
    ensures
        path.len() > 1,
        forall|i: int| 0 <= i < path.len() ==> (#[trigger] path[i]).from_loc < nodes.len(),
        forall|n: nat|
            #[trigger] config::valid_pixels(nodes, n) ==> forall|i: int|
                0 <= i < path.len() ==> (#[trigger] path[i]).from_pix < n,
{
    let locs = path_locs(path);
    assert(locs.len() > 1);
    assert forall|i: int| 0 <= i < path.len() implies (#[trigger] path[i]).from_loc < nodes.len() by {
        assert(locs[i] < nodes.len());
    }
    assert forall|n: nat| #[trigger] config::valid_pixels(nodes, n) implies forall|i: int|
        0 <= i < path.len() ==> (#[trigger] path[i]).from_pix < n by {
        assert forall|i: int| 0 <= i < path.len() implies (#[trigger] path[i]).from_pix < n by {
            let j = if i < path.len() - 1 {
                i
            } else {
                i - 1
            };
            assert(step_shown(nodes, path, j));
            let e = choose|e: int|
                {
                    &&& #[trigger] edge_leads_on(nodes, path, j, e)
                    &&& j == path.len() - 2 ==> nodes[path[j].from_loc as int].edges@[e].to_pix
                        == path.last().from_pix
                };
            assert(path[j].from_loc < nodes.len());
            assert(edge_leads_on(nodes, path, j, e));
            assert(nodes[path[j].from_loc as int].edges@[e].from_pix < n);
        }
    }
}

/// No step costs less than nothing, and a step to a location in between is no shortcut.
pub proof fn lemma_step_cost(a: LocPixNode, b: LocPixNode, c: LocPixNode)
    ensures
        0 <= step_cost(a, b) <= 2 * 0xFFFF_FFFF,
        step_cost(a, a) == 0,
        step_cost(a, c) <= step_cost(a, b) + step_cost(b, c),
{
}

/// The rest of a route costs at least the distance between its ends: no route is cheaper than the
/// way to one of its locations and the distance from there to its end.
pub proof fn lemma_distance_is_least(nodes: Seq<LocPixNode>, locs: Seq<u16>, j: int)
    requires
        0 <= j < locs.len(),
    ensures
        route_cost(nodes, locs.take(j + 1)) + step_cost(
            nodes[locs[j] as int],
            nodes[locs.last() as int],
        ) <= route_cost(nodes, locs),
    decreases locs.len() - j,
{
    if j == locs.len() - 1 {
        assert(locs.take(j + 1) =~= locs);
        lemma_step_cost(nodes[locs[j] as int], nodes[locs[j] as int], nodes[locs[j] as int]);
    } else {
        lemma_distance_is_least(nodes, locs, j + 1);
        let t = locs.take(j + 2);
        assert(t.drop_last() =~= locs.take(j + 1));
        assert(t[t.len() - 2] == locs[j]);
        assert(t.last() == locs[j + 1]);
        lemma_step_cost(
            nodes[locs[j] as int],
            nodes[locs[j + 1] as int],
            nodes[locs.last() as int],
        );
    }
}

// ---------------------------------------------------------------------------------------------
// Distances and routes on the map itself
// ---------------------------------------------------------------------------------------------

/// The cost of a step is the distance along the meridian and along the parallel: nothing only at the
/// same place, due north or south the difference of the latitudes, due east or west that of the
/// longitudes, and otherwise the way by the corner.
pub proof fn lemma_step_cost_is_distance(a: LocPixNode, b: LocPixNode, corner: LocPixNode)
    requires
        corner.lat_e7 == a.lat_e7,
        corner.lng_e7 == b.lng_e7,
    ensures
        step_cost(a, b) == 0 <==> a.lat_e7 == b.lat_e7 && a.lng_e7 == b.lng_e7,
        a.lng_e7 == b.lng_e7 && a.lat_e7 <= b.lat_e7 ==> step_cost(a, b) == b.lat_e7 - a.lat_e7,
        a.lng_e7 == b.lng_e7 && a.lat_e7 >= b.lat_e7 ==> step_cost(a, b) == a.lat_e7 - b.lat_e7,
        a.lat_e7 == b.lat_e7 && a.lng_e7 <= b.lng_e7 ==> step_cost(a, b) == b.lng_e7 - a.lng_e7,
        a.lat_e7 == b.lat_e7 && a.lng_e7 >= b.lng_e7 ==> step_cost(a, b) == a.lng_e7 - b.lng_e7,
        step_cost(a, b) == step_cost(a, corner) + step_cost(corner, b),
        step_cost(a, b) == step_cost(b, a),
{
}

/// How far a train goes in degrees times 10^7 to get to location number `k` of `locs`: the differences
/// of latitude and longitude of all steps.
pub open spec fn degrees_e7(nodes: Seq<LocPixNode>, locs: Seq<u16>, k: int) -> int
    decreases k,
{
    if k <= 0 {
        0
    } else {
        let (a, b) = (nodes[locs[k - 1] as int], nodes[locs[k] as int]);
        let north = if a.lat_e7 < b.lat_e7 {
            b.lat_e7 - a.lat_e7
        } else {
            a.lat_e7 - b.lat_e7
        };
        let east = if a.lng_e7 < b.lng_e7 {
            b.lng_e7 - a.lng_e7
        } else {
            a.lng_e7 - b.lng_e7
        };
        degrees_e7(nodes, locs, k - 1) + north + east
    }
}

/// Whether, at location number `i` of `locs`, edge number `e` leads to the next one, edge number `r`
/// of the next one leads back, and `t` is an edge back to the one before, if there is one, with
/// another track direction of the same four than edge number `e`.
pub open spec fn can_drive_by(
    nodes: Seq<LocPixNode>,
    locs: Seq<u16>,
    i: int,
    t: int,
    e: int,
    r: int,
) -> bool {
    let here = nodes[locs[i] as int].edges@;
    let next = nodes[locs[i + 1] as int].edges@;
    &&& 0 <= e < here.len() && here[e].to_loc == locs[i + 1]
    &&& 0 <= r < next.len() && next[r].to_loc == locs[i]
    &&& i > 0 ==> {
        &&& 0 <= t < here.len() && here[t].to_loc == locs[i - 1]
        &&& here[t].dir & here[e].dir == 0
        &&& vstd::std_specs::bits::u16_trailing_zeros(here[t].dir) as int / 4
            == vstd::std_specs::bits::u16_trailing_zeros(here[e].dir) as int / 4
    }
}

/// Whether a train can go on from location number `i` of `locs` to the next one.
pub open spec fn can_drive(nodes: Seq<LocPixNode>, locs: Seq<u16>, i: int) -> bool {
    exists|t: int, e: int, r: int| can_drive_by(nodes, locs, i, t, e, r)
}

/// Whether a train of the transit modes `mode` can go from `start` to `goal` by `locs`.
pub open spec fn can_drive_all(
    nodes: Seq<LocPixNode>,
    start: u16,
    goal: u16,
    locs: Seq<u16>,
    mode: u8,
) -> bool {
    &&& locs.len() >= 2 && locs[0] == start && locs[locs.len() - 1] == goal && start != goal
    &&& mode != 0
    &&& forall|i: int|
        0 <= i < locs.len() ==> (#[trigger] locs[i]) < nodes.len() && nodes[locs[i] as int].modes
            & mode == mode
    &&& forall|i: int| 0 <= i < locs.len() - 1 ==> #[trigger] can_drive(nodes, locs, i)
}

proof fn lemma_degrees(nodes: Seq<LocPixNode>, locs: Seq<u16>, k: int)
    requires
        0 <= k < locs.len(),
    ensures
        degrees_e7(nodes, locs, k) == route_cost(nodes, locs.take(k + 1)),
    decreases k,
{
    if k > 0 {
        lemma_degrees(nodes, locs, k - 1);
        let t = locs.take(k + 1);
        assert(t.drop_last() =~= locs.take(k));
        assert(t[t.len() - 2] == locs[k - 1] && t.last() == locs[k]);
    }
}

proof fn lemma_drivable_is_allowed(
    nodes: Seq<LocPixNode>,
    start: u16,
    goal: u16,
    locs: Seq<u16>,
    mode: u8,
)
    requires
        can_drive_all(nodes, start, goal, locs, mode),
    ensures
        is_allowed_route(nodes, start, goal, locs),
{
    assert forall|i: int| 0 <= i < locs.len() - 1 implies #[trigger] next_joined(nodes, locs, i) by {
        assert(can_drive(nodes, locs, i));
        let (t, e, r) = choose|t: int, e: int, r: int| can_drive_by(nodes, locs, i, t, e, r);
        assert(edge_leads(nodes, locs[i], e, locs[i + 1]));
        assert(edge_leads(nodes, locs[i + 1], r, locs[i]));
    }
    assert forall|i: int| 0 < i < locs.len() - 1 implies #[trigger] turn_allowed(nodes, locs, i) by {
        assert(can_drive(nodes, locs, i));
        let (t, e, r) = choose|t: int, e: int, r: int| can_drive_by(nodes, locs, i, t, e, r);
        assert(edge_leads(nodes, locs[i], t, locs[i - 1]));
        assert(edge_leads(nodes, locs[i], e, locs[i + 1]));
        assert(turn_at(nodes, locs[i], t, e));
    }
    assert(share_mode(nodes, locs, mode));
}

proof fn lemma_allowed_is_drivable(nodes: Seq<LocPixNode>, start: u16, goal: u16, locs: Seq<u16>)
    requires
        is_allowed_route(nodes, start, goal, locs),
    ensures
        exists|mode: u8| can_drive_all(nodes, start, goal, locs, mode),
{
    let mode = choose|mode: u8| share_mode(nodes, locs, mode);
    assert forall|i: int| 0 <= i < locs.len() - 1 implies #[trigger] can_drive(nodes, locs, i) by {
        assert(next_joined(nodes, locs, i));
        let (a, b) = (locs[i], locs[i + 1]);
        let r = choose|r: int| edge_leads(nodes, b, r, a);
        if i == 0 {
            let e = choose|e: int| edge_leads(nodes, a, e, b);
            assert(can_drive_by(nodes, locs, i, 0, e, r));
        } else {
            assert(turn_allowed(nodes, locs, i));
            let z = locs[i - 1];
            let (t, e) = choose|t: int, e: int|
                edge_leads(nodes, a, t, z) && edge_leads(nodes, a, e, b) && #[trigger] turn_at(
                    nodes,
                    a,
                    t,
                    e,
                );
            assert(can_drive_by(nodes, locs, i, t, e, r));
        }
    }
    assert(can_drive_all(nodes, start, goal, locs, mode));
}

/// Whether location number `i` of a path shows the pixel at which an edge to the next one begins and,
/// if that is the last one, the next one the pixel at which that edge ends.
pub open spec fn shows_edge(
    nodes: Seq<LocPixNode>,
    path: Seq<LocPixEdgeDirected>,
    i: int,
    e: int,
) -> bool {
    let edges = nodes[path[i].from_loc as int].edges@;
    &&& 0 <= e < edges.len()
    &&& edges[e].to_loc == path[i + 1].from_loc
    &&& edges[e].from_pix == path[i].from_pix
    &&& i == path.len() - 2 ==> edges[e].to_pix == path[i + 1].from_pix
}

/// What a search finds leads from the start to the goal as a train can drive, shows the pixels of the
/// edges on the way, and no way that a train of any mode can drive is shorter in degrees.
pub proof fn lemma_shortest_on_the_map(
    nodes: Seq<LocPixNode>,
    start: u16,
    goal: u16,
    cap: nat,
    path_cap: nat,
    path: Seq<LocPixEdgeDirected>,
)
    requires
        ways::is_outcome(nodes, start, goal, cap, path_cap, Ok(path)),
    ensures
        ({
            let locs = Seq::new(path.len(), |i: int| path[i].from_loc);
            &&& path.len() <= path_cap
            &&& exists|mode: u8| can_drive_all(nodes, start, goal, locs, mode)
            &&& forall|i: int|
                #![trigger path[i]]
                0 <= i < path.len() - 1 ==> exists|e: int| shows_edge(nodes, path, i, e)
            &&& forall|q: Seq<u16>, mode: u8| #[trigger]
                can_drive_all(nodes, start, goal, q, mode) ==> degrees_e7(
                    nodes,
                    locs,
                    path.len() - 1,
                ) <= degrees_e7(nodes, q, q.len() - 1)
        }),
{
    let locs = Seq::new(path.len(), |i: int| path[i].from_loc);
    assert(locs =~= path_locs(path));
    lemma_allowed_is_drivable(nodes, start, goal, locs);
    lemma_degrees(nodes, locs, path.len() - 1);
    assert(locs.take(path.len() as int) =~= locs);
    assert forall|i: int| #![trigger path[i]] 0 <= i < path.len() - 1 implies exists|e: int|
        shows_edge(nodes, path, i, e) by {
        assert(step_shown(nodes, path, i));
        let e = choose|e: int|
            {
                &&& #[trigger] edge_leads_on(nodes, path, i, e)
                &&& i == path.len() - 2 ==> nodes[path[i].from_loc as int].edges@[e].to_pix
                    == path.last().from_pix
            };
        assert(shows_edge(nodes, path, i, e));
    }
    assert forall|q: Seq<u16>, mode: u8| #[trigger]
        can_drive_all(nodes, start, goal, q, mode) implies degrees_e7(nodes, locs, path.len() - 1)
        <= degrees_e7(nodes, q, q.len() - 1) by {
        lemma_drivable_is_allowed(nodes, start, goal, q, mode);
        lemma_degrees(nodes, q, q.len() - 1);
        assert(q.take(q.len() as int) =~= q);
    }
}

/// A search says that there is no path only where no train of any mode can drive.
pub proof fn lemma_no_path_on_the_map(
    nodes: Seq<LocPixNode>,
    start: u16,
    goal: u16,
    cap: nat,
    path_cap: nat,
    q: Seq<u16>,
    mode: u8,
)
    requires
        ways::is_outcome(nodes, start, goal, cap, path_cap, Err(PathFindError::NoPathFound)),
    ensures
        !can_drive_all(nodes, start, goal, q, mode),
{
    if can_drive_all(nodes, start, goal, q, mode) {
        lemma_drivable_is_allowed(nodes, start, goal, q, mode);
    }
}

/// With room for as many open ways as a map can have, whose locations have no more than `m` edges, a
/// search between two locations runs out of room only if there is a way that the path buffer is too
/// short for, and no shorter one.
pub proof fn lemma_room_on_the_map(
    nodes: Seq<LocPixNode>,
    start: u16,
    goal: u16,
    cap: nat,
    path_cap: nat,
    m: nat,
)
    requires
        start != goal,
        forall|i: int| 0 <= i < nodes.len() ==> (#[trigger] nodes[i]).edges@.len() <= m,
        1 + m * m * (nodes.len() * (m + 1) * 256) <= cap,
        1 + m * m * (nodes.len() * (m + 1) * 256) <= 0x1000_0000,
        ways::is_outcome(nodes, start, goal, cap, path_cap, Err(PathFindError::OutOfMemory)),
    ensures
        exists|locs: Seq<u16>, mode: u8|
            {
                &&& #[trigger] can_drive_all(nodes, start, goal, locs, mode)
                &&& path_cap < locs.len()
                &&& forall|q: Seq<u16>, other: u8| #[trigger]
                    can_drive_all(nodes, start, goal, q, other) ==> degrees_e7(
                        nodes,
                        locs,
                        locs.len() - 1,
                    ) <= degrees_e7(nodes, q, q.len() - 1)
            },
{
    ways::lemma_most_ways(nodes, m);
    let path = choose|path: Seq<LocPixEdgeDirected>| #[trigger]
        is_shortest_path(nodes, start, goal, path) && path_cap < path.len();
    let locs = Seq::new(path.len(), |i: int| path[i].from_loc);
    assert(ways::is_outcome(nodes, start, goal, 1, path.len(), Ok(path)));
    lemma_shortest_on_the_map(nodes, start, goal, 1, path.len(), path);
    let mode = choose|mode: u8| can_drive_all(nodes, start, goal, locs, mode);
    assert(can_drive_all(nodes, start, goal, locs, mode));
}

} // verus!

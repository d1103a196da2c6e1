//! Transit data as the server sent it, with what is derived from it.

use vstd::prelude::*;

use crate::config::{LocGeoKdNode, LocPixNode, ProductConfig};
use crate::display::renderer;
use crate::display::renderer::{
    RenderedDisruption, RenderedVehicle, RendererOutput, RendererState,
};
use crate::effects::{Effect, Effects};
use crate::net::ws_client;
use crate::net::ws_client::WsClientNotify;
use crate::proto::{
    AvailableDisruptedLine, AvailableVehicleLine, Disruption, Line, LineConfig, Stop, TransitData,
    VehicleMovement,
};
use crate::store::app_settings::persist;
use crate::store::app_settings::persist::PersistSettings;
use crate::trace::Report;
use crate::util;
use crate::util::NonMax;

verus! {

// ---------------------------------------------------------------------------------------------
// The nearest location
// ---------------------------------------------------------------------------------------------

/// Squared distance between a coordinate and a location, in degrees times 10^7.
pub open spec fn dist_sq(latitude_e7: int, longitude_e7: int, loc: LocPixNode) -> int {
    (latitude_e7 - loc.lat_e7) * (latitude_e7 - loc.lat_e7) + (longitude_e7 - loc.lng_e7) * (
    longitude_e7 - loc.lng_e7)
}

/// Whether node `idx` of the tree and all nodes below it, `levels` levels at most, refer to nodes
/// of the tree and to locations of the map.
pub open spec fn valid_kd(tree: Seq<LocGeoKdNode>, locs: nat, idx: int, levels: nat) -> bool
    decreases levels,
{
    &&& levels > 0
    &&& 0 <= idx < tree.len()
    &&& tree[idx].loc < locs
    &&& tree[idx].left matches Some(child) ==> valid_kd(
        tree,
        locs,
        child as int,
        (levels - 1) as nat,
    )
    &&& tree[idx].right matches Some(child) ==> valid_kd(
        tree,
        locs,
        child as int,
        (levels - 1) as nat,
    )
}

/// The closest location so far and its squared distance.
pub type Nearest = Option<(int, u16)>;

/// The closer one of what is known and the location of `node`.
pub open spec fn closer(
    nodes: Seq<LocPixNode>,
    lat: int,
    lng: int,
    node: LocGeoKdNode,
    best: Nearest,
) -> (int, u16) {
    let d = dist_sq(lat, lng, nodes[node.loc as int]);
    match best {
        Some((b, loc)) => if d < b {
            (d, node.loc)
        } else {
            (b, loc)
        },
        None => (d, node.loc),
    }
}

/// How far, along the axis by which a node at `depth` splits, the coordinate lies beyond it.
pub open spec fn axis_diff(lat: int, lng: int, loc: LocPixNode, depth: nat) -> int {
    if depth % 2 == 0 {
        lat - loc.lat_e7
    } else {
        lng - loc.lng_e7
    }
}

/// The closest location after a visit to node `idx`, which lies at `depth`: the node itself, then
/// the side that the coordinate is not on, if it can hold a closer location, then the side it is on.
pub open spec fn kd_search(
    tree: Seq<LocGeoKdNode>,
    nodes: Seq<LocPixNode>,
    lat: int,
    lng: int,
    idx: int,
    depth: nat,
    levels: nat,
    best: Nearest,
) -> Nearest
    decreases levels,
{
    if levels == 0 {
        best
    } else {
        let node = tree[idx];
        let here = closer(nodes, lat, lng, node, best);
        let diff = axis_diff(lat, lng, nodes[node.loc as int], depth);
        let (near, far) = if diff < 0 {
            (node.left, node.right)
        } else {
            (node.right, node.left)
        };
        let (d, _) = here;
        let after_far = match far {
            Some(child) if diff * diff < d => kd_search(
                tree,
                nodes,
                lat,
                lng,
                child as int,
                depth + 1,
                (levels - 1) as nat,
                Some(here),
            ),
            _ => Some(here),
        };
        match near {
            Some(child) => kd_search(
                tree,
                nodes,
                lat,
                lng,
                child as int,
                depth + 1,
                (levels - 1) as nat,
                after_far,
            ),
            None => after_far,
        }
    }
}

/// The most levels that the tree can have.
pub const KD_MAX_LEVELS: usize = 32;

/// The location that a search of the whole tree ends with.
pub open spec fn nearest_location(
    tree: Seq<LocGeoKdNode>,
    nodes: Seq<LocPixNode>,
    lat: int,
    lng: int,
) -> Option<u16> {
    match kd_search(tree, nodes, lat, lng, 0, 0, KD_MAX_LEVELS as nat, None) {
        Some((_, loc)) => Some(loc),
        None => None,
    }
}

/// Number of nodes in the subtree at `idx`.
spec fn kd_size(tree: Seq<LocGeoKdNode>, idx: int, levels: nat) -> nat
    decreases levels,
{
    if levels == 0 {
        0
    } else {
        1 + (match tree[idx].left {
            Some(child) => kd_size(tree, child as int, (levels - 1) as nat),
            None => 0,
        }) + (match tree[idx].right {
            Some(child) => kd_size(tree, child as int, (levels - 1) as nat),
            None => 0,
        })
    }
}

/// The closest location after visits to the nodes on the stack, last one first.
spec fn kd_drain(
    tree: Seq<LocGeoKdNode>,
    nodes: Seq<LocPixNode>,
    lat: int,
    lng: int,
    stack: Seq<(usize, usize)>,
    best: Nearest,
) -> Nearest
    decreases stack.len(),
{
    if stack.len() == 0 {
        best
    } else {
        let (idx, depth) = stack.last();
        kd_drain(
            tree,
            nodes,
            lat,
            lng,
            stack.drop_last(),
            kd_search(
                tree,
                nodes,
                lat,
                lng,
                idx as int,
                depth as nat,
                (KD_MAX_LEVELS - depth) as nat,
                best,
            ),
        )
    }
}

/// Number of nodes that are still to be visited, if all are.
spec fn kd_todo(tree: Seq<LocGeoKdNode>, stack: Seq<(usize, usize)>) -> nat
    decreases stack.len(),
{
    if stack.len() == 0 {
        0
    } else {
        let (idx, depth) = stack.last();
        kd_todo(tree, stack.drop_last()) + kd_size(
            tree,
            idx as int,
            (KD_MAX_LEVELS - depth) as nat,
        )
    }
}

spec fn kd_stack_ok(tree: Seq<LocGeoKdNode>, locs: nat, stack: Seq<(usize, usize)>) -> bool {
    forall|i: int|
        0 <= i < stack.len() ==> {
            let (idx, depth) = #[trigger] stack[i];
            depth < KD_MAX_LEVELS && valid_kd(
                tree,
                locs,
                idx as int,
                (KD_MAX_LEVELS - depth) as nat,
            )
        }
}

fn squared(d: i128) -> (s: i128)
    requires
        -0x1_0000_0000 <= d <= 0x1_0000_0000,
    ensures
        s == d * d,
        0 <= s <= 0x1_0000_0000_0000_0000,
{
    assert(0 <= d * d <= 0x1_0000_0000_0000_0000) by (nonlinear_arith)
        requires
            -0x1_0000_0000 <= d <= 0x1_0000_0000,
    ;
    d * d
}

fn squared_distance(latitude_e7: i32, longitude_e7: i32, loc: &LocPixNode) -> (d: i128)
    ensures
        d == dist_sq(latitude_e7 as int, longitude_e7 as int, *loc),
        0 <= d <= 0x2_0000_0000_0000_0000,
{
    let dlat: i128 = latitude_e7 as i128 - loc.lat_e7 as i128;
    let dlng: i128 = longitude_e7 as i128 - loc.lng_e7 as i128;
    squared(dlat) + squared(dlng)
}

/// Looks up the location that is nearest to a coordinate, by the K-D tree of the map.
pub fn lookup_nearest_pixel_location_id_to_coord(
    kd_tree: &[LocGeoKdNode],
    loc_nodes: &[LocPixNode],
    latitude_e7: i32,
    longitude_e7: i32,
) -> (r: Option<u16>)
    requires
        valid_kd(kd_tree@, loc_nodes@.len(), 0, KD_MAX_LEVELS as nat),
    ensures
        r == nearest_location(kd_tree@, loc_nodes@, latitude_e7 as int, longitude_e7 as int),
{
    let ghost tree = kd_tree@;
    let ghost nodes = loc_nodes@;
    let ghost lat = latitude_e7 as int;
    let ghost lng = longitude_e7 as int;
    let ghost goal = kd_search(tree, nodes, lat, lng, 0, 0, KD_MAX_LEVELS as nat, None);
    let mut best: Option<(i128, u16)> = None;
    let ghost mut known: Nearest = None;
    let mut stack: Vec<(usize, usize)> = Vec::new();
    stack.push((0, 0));
    proof {
        reveal_with_fuel(kd_drain, 2);
        assert(stack@.drop_last() =~= Seq::empty());
    }
    while stack.len() > 0
        invariant
            tree == kd_tree@,
            nodes == loc_nodes@,
            lat == latitude_e7,
            lng == longitude_e7,
            kd_stack_ok(tree, nodes.len(), stack@),
            kd_drain(tree, nodes, lat, lng, stack@, known) == goal,
            match best {
                Some((d, loc)) => known == Some((d as int, loc)) && 0 <= d
                    <= 0x2_0000_0000_0000_0000,
                None => known is None,
            },
        decreases kd_todo(tree, stack@),
    {
        let ghost before = stack@;
        let (node_idx, depth) = stack[stack.len() - 1];
        assert(before[before.len() - 1] == (node_idx, depth));
        let _ = stack.pop();
        assert(stack@ =~= before.drop_last());
        let kd_node = &kd_tree[node_idx];
        let loc_node = &loc_nodes[kd_node.loc as usize];
        let d: i128 = squared_distance(latitude_e7, longitude_e7, loc_node);
        let ghost was = known;
        let best_dist: i128 = match best {
            Some((b, _)) if d >= b => b,
            _ => {
                best = Some((d, kd_node.loc));
                d
            },
        };
        proof {
            known = Some(closer(nodes, lat, lng, *kd_node, was));
        }
        let diff: i128 = if depth % 2 == 0 {
            latitude_e7 as i128 - loc_node.lat_e7 as i128
        } else {
            longitude_e7 as i128 - loc_node.lng_e7 as i128
        };
        let (near, far) = if diff < 0 {
            (kd_node.left, kd_node.right)
        } else {
            (kd_node.right, kd_node.left)
        };
        let ghost rest = stack@;
        if let Some(idx) = near {
            stack.push((idx as usize, depth + 1));
            assert(stack@.drop_last() =~= rest);
        }
        let ghost with_near = stack@;
        if squared(diff) < best_dist {
            if let Some(idx) = far {
                stack.push((idx as usize, depth + 1));
                assert(stack@.drop_last() =~= with_near);
            }
        }
        proof {
            reveal_with_fuel(kd_drain, 3);
            reveal_with_fuel(kd_todo, 3);
            reveal_with_fuel(valid_kd, 2);
            let left = (KD_MAX_LEVELS - depth) as nat;
            assert(valid_kd(tree, nodes.len(), node_idx as int, left));
            assert((left - 1) as nat == (KD_MAX_LEVELS - (depth + 1)) as nat);
            assert forall|i: int| 0 <= i < stack@.len() implies ({
                let (idx, depth) = #[trigger] stack@[i];
                depth < KD_MAX_LEVELS && valid_kd(
                    tree,
                    nodes.len(),
                    idx as int,
                    (KD_MAX_LEVELS - depth) as nat,
                )
            }) by {
                if i < rest.len() {
                    assert(stack@[i] == before[i]);
                }
            }
        }
    }
    match best {
        Some((_, loc)) => Some(loc),
        None => None,
    }
}

/// Whether `loc` is the location of node `idx` or of a node below it.
pub open spec fn kd_holds(tree: Seq<LocGeoKdNode>, idx: int, levels: nat, loc: u16) -> bool
    decreases levels,
{
    &&& levels > 0
    &&& {
        ||| tree[idx].loc == loc
        ||| tree[idx].left matches Some(child) && kd_holds(
            tree,
            child as int,
            (levels - 1) as nat,
            loc,
        )
        ||| tree[idx].right matches Some(child) && kd_holds(
            tree,
            child as int,
            (levels - 1) as nat,
            loc,
        )
    }
}

/// Where location `a` lies beyond location `b`, along the axis by which a node at `depth` splits.
pub open spec fn axis_order(a: LocPixNode, b: LocPixNode, depth: nat) -> int {
    axis_diff(a.lat_e7 as int, a.lng_e7 as int, b, depth)
}

/// Whether the tree is ordered at node `idx` and below: along the axis of its depth, no location
/// on the left of a node lies beyond that node, and none on the right lies before it.
pub open spec fn kd_ordered(
    tree: Seq<LocGeoKdNode>,
    nodes: Seq<LocPixNode>,
    idx: int,
    depth: nat,
    levels: nat,
) -> bool
    decreases levels,
{
    levels > 0 ==> {
        let node = tree[idx];
        let here = nodes[node.loc as int];
        &&& node.left matches Some(child) ==> {
            &&& kd_ordered(tree, nodes, child as int, depth + 1, (levels - 1) as nat)
            &&& forall|loc: u16| #[trigger]
                kd_holds(tree, child as int, (levels - 1) as nat, loc) ==> axis_order(
                    nodes[loc as int],
                    here,
                    depth,
                ) <= 0
        }
        &&& node.right matches Some(child) ==> {
            &&& kd_ordered(tree, nodes, child as int, depth + 1, (levels - 1) as nat)
            &&& forall|loc: u16| #[trigger]
                kd_holds(tree, child as int, (levels - 1) as nat, loc) ==> axis_order(
                    nodes[loc as int],
                    here,
                    depth,
                ) >= 0
        }
    }
}

/// A location on the far side of a node is no closer than the split itself.
proof fn lemma_far_side(lat: int, lng: int, here: LocPixNode, there: LocPixNode, depth: nat)
    requires
        ({
            let diff = axis_diff(lat, lng, here, depth);
            let order = axis_order(there, here, depth);
            (diff < 0 && order >= 0) || (diff >= 0 && order <= 0)
        }),
    ensures
        ({
            let diff = axis_diff(lat, lng, here, depth);
            diff * diff <= dist_sq(lat, lng, there)
        }),
{
    let diff = axis_diff(lat, lng, here, depth);
    let a = lat - there.lat_e7;
    let b = lng - there.lng_e7;
    let along = if depth % 2 == 0 {
        a
    } else {
        b
    };
    let across = if depth % 2 == 0 {
        b
    } else {
        a
    };
    assert(diff * diff <= along * along) by (nonlinear_arith)
        requires
            (diff < 0 && along <= diff) || (diff >= 0 && along >= diff),
    ;
    assert(across * across >= 0) by (nonlinear_arith);
}

proof fn lemma_kd_search_nearest(
    tree: Seq<LocGeoKdNode>,
    nodes: Seq<LocPixNode>,
    lat: int,
    lng: int,
    idx: int,
    depth: nat,
    levels: nat,
    best: Nearest,
)
    requires
        kd_ordered(tree, nodes, idx, depth, levels),
        valid_kd(tree, nodes.len(), idx, levels),
    ensures
        kd_search(tree, nodes, lat, lng, idx, depth, levels, best) matches Some((d, found)) && {
            &&& best matches Some((b, _)) ==> d <= b
            &&& best == Some((d, found)) || (kd_holds(tree, idx, levels, found) && d == dist_sq(
                lat,
                lng,
                nodes[found as int],
            ))
            &&& forall|loc: u16| #[trigger]
                kd_holds(tree, idx, levels, loc) ==> d <= dist_sq(lat, lng, nodes[loc as int])
        },
    decreases levels,
{
    let below = (levels - 1) as nat;
    let node = tree[idx];
    let spot = nodes[node.loc as int];
    let here = closer(nodes, lat, lng, node, best);
    let (d, _) = here;
    let diff = axis_diff(lat, lng, spot, depth);
    let (near, far) = if diff < 0 {
        (node.left, node.right)
    } else {
        (node.right, node.left)
    };
    let mut after_far: Nearest = Some(here);
    if let Some(child) = far {
        if diff * diff < d {
            lemma_kd_search_nearest(
                tree,
                nodes,
                lat,
                lng,
                child as int,
                depth + 1,
                below,
                Some(here),
            );
            after_far = kd_search(tree, nodes, lat, lng, child as int, depth + 1, below, Some(here));
        } else {
            assert forall|loc: u16| #[trigger] kd_holds(tree, child as int, below, loc) implies d
                <= dist_sq(lat, lng, nodes[loc as int]) by {
                lemma_far_side(lat, lng, spot, nodes[loc as int], depth);
            }
        }
    }
    if let Some(child) = near {
        lemma_kd_search_nearest(
            tree,
            nodes,
            lat,
            lng,
            child as int,
            depth + 1,
            below,
            after_far,
        );
    }
    let found = kd_search(tree, nodes, lat, lng, idx, depth, levels, best);
    assert(found == match near {
        Some(child) => kd_search(tree, nodes, lat, lng, child as int, depth + 1, below, after_far),
        None => after_far,
    });
    let (e, at) = after_far->0;
    assert(e <= d);
    let (f, end) = found->0;
    assert(f <= e);
    assert forall|loc: u16| #[trigger] kd_holds(tree, idx, levels, loc) implies f <= dist_sq(
        lat,
        lng,
        nodes[loc as int],
    ) by {
        let on_far = far matches Some(child) && kd_holds(tree, child as int, below, loc);
        let on_near = near matches Some(child) && kd_holds(tree, child as int, below, loc);
        assert(node.loc == loc || on_far || on_near);
        if node.loc == loc {
            assert(d <= dist_sq(lat, lng, nodes[loc as int]));
        } else if on_far {
            assert(e <= dist_sq(lat, lng, nodes[loc as int]));
        } else {
            assert(f <= dist_sq(lat, lng, nodes[loc as int]));
        }
    }
}

/// On a tree that is ordered, the location found is one of the tree's, and none of the tree's is
/// closer.
pub proof fn lemma_found_is_nearest(
    tree: Seq<LocGeoKdNode>,
    nodes: Seq<LocPixNode>,
    lat: int,
    lng: int,
)
    requires
        valid_kd(tree, nodes.len(), 0, KD_MAX_LEVELS as nat),
        kd_ordered(tree, nodes, 0, 0, KD_MAX_LEVELS as nat),
    ensures
        nearest_location(tree, nodes, lat, lng) matches Some(found) && {
            &&& kd_holds(tree, 0, KD_MAX_LEVELS as nat, found)
            &&& forall|loc: u16| #[trigger]
                kd_holds(tree, 0, KD_MAX_LEVELS as nat, loc) ==> dist_sq(
                    lat,
                    lng,
                    nodes[found as int],
                ) <= dist_sq(lat, lng, nodes[loc as int])
        },
{
    lemma_kd_search_nearest(tree, nodes, lat, lng, 0, 0, KD_MAX_LEVELS as nat, None);
}

/// What the search finds is a location of the map.
pub proof fn lemma_found_is_on_map(
    tree: Seq<LocGeoKdNode>,
    nodes: Seq<LocPixNode>,
    lat: int,
    lng: int,
)
    requires
        valid_kd(tree, nodes.len(), 0, KD_MAX_LEVELS as nat),
    ensures
        nearest_location(tree, nodes, lat, lng) matches Some(found) && found < nodes.len(),
{
    lemma_kd_search_on_map(tree, nodes, lat, lng, 0, 0, KD_MAX_LEVELS as nat, None);
}

proof fn lemma_kd_search_on_map(
    tree: Seq<LocGeoKdNode>,
    nodes: Seq<LocPixNode>,
    lat: int,
    lng: int,
    idx: int,
    depth: nat,
    levels: nat,
    best: Nearest,
)
    requires
        valid_kd(tree, nodes.len(), idx, levels),
        best matches Some((_, loc)) ==> loc < nodes.len(),
    ensures
        kd_search(tree, nodes, lat, lng, idx, depth, levels, best) matches Some((_, loc)) && loc
            < nodes.len(),
    decreases levels,
{
    let below = (levels - 1) as nat;
    let node = tree[idx];
    let here = closer(nodes, lat, lng, node, best);
    let (d, _) = here;
    let diff = axis_diff(lat, lng, nodes[node.loc as int], depth);
    let (near, far) = if diff < 0 {
        (node.left, node.right)
    } else {
        (node.right, node.left)
    };
    let mut after_far: Nearest = Some(here);
    if let Some(child) = far {
        if diff * diff < d {
            lemma_kd_search_on_map(
                tree,
                nodes,
                lat,
                lng,
                child as int,
                depth + 1,
                below,
                Some(here),
            );
            after_far = kd_search(tree, nodes, lat, lng, child as int, depth + 1, below, Some(here));
        }
    }
    if let Some(child) = near {
        lemma_kd_search_on_map(tree, nodes, lat, lng, child as int, depth + 1, below, after_far);
    }
}

// ---------------------------------------------------------------------------------------------
// The store
// ---------------------------------------------------------------------------------------------

/// Transit data with what is derived from it.
#[derive(Debug)]
pub struct TransitDataStore {
    pub data: TransitData,
    pub state: TransitDataState,
    pub stats: TransitDataStats,
}

#[derive(Debug)]
pub struct TransitDataState {
    /// The location of each stop, if it has one.
    pub stop_id_to_loc_id_map: Vec<NonMax<u16>>,
    pub rendered_state: RendererState,
    pub renderer_out: RendererOutput,
}

#[derive(Debug)]
pub struct TransitDataStats {
    pub telemetry_pending: bool,
    /// When the data was received from the server.
    pub received_at_timestamp: u32,
    /// When the server got the data from its feed.
    pub sourced_at_timestamp: u32,
    pub simulated_until_timestamp: u32,
    pub transit_data_downlink_bytes_per_second: u32,
    pub num_vehicles_available: u32,
    pub num_vehicles_visible: u32,
    pub num_vehicles_visible_real_time: u32,
    pub num_disruptions_available: u32,
    pub num_disruptions_visible: u32,
    pub available_vehicle_lines: Vec<AvailableVehicleLine>,
    pub available_disrupted_lines: Vec<AvailableDisruptedLine>,
    pub num_pixels_on: u32,
    pub feed_source: String,
}

impl TransitDataStats {
    /// Whether nothing was counted yet.
    pub open spec fn is_zero(self) -> bool {
        &&& !self.telemetry_pending
        &&& self.received_at_timestamp == 0
        &&& self.sourced_at_timestamp == 0
        &&& self.simulated_until_timestamp == 0
        &&& self.transit_data_downlink_bytes_per_second == 0
        &&& self.num_vehicles_available == 0
        &&& self.num_vehicles_visible == 0
        &&& self.num_vehicles_visible_real_time == 0
        &&& self.num_disruptions_available == 0
        &&& self.num_disruptions_visible == 0
        &&& self.available_vehicle_lines@.len() == 0
        &&& self.available_disrupted_lines@.len() == 0
        &&& self.num_pixels_on == 0
        &&& self.feed_source@.len() == 0
    }

    /// Whether two statistics say the same.
    pub open spec fn same(self, other: Self) -> bool {
        &&& self.telemetry_pending == other.telemetry_pending
        &&& self.received_at_timestamp == other.received_at_timestamp
        &&& self.sourced_at_timestamp == other.sourced_at_timestamp
        &&& self.simulated_until_timestamp == other.simulated_until_timestamp
        &&& self.transit_data_downlink_bytes_per_second
            == other.transit_data_downlink_bytes_per_second
        &&& self.num_vehicles_available == other.num_vehicles_available
        &&& self.num_vehicles_visible == other.num_vehicles_visible
        &&& self.num_vehicles_visible_real_time == other.num_vehicles_visible_real_time
        &&& self.num_disruptions_available == other.num_disruptions_available
        &&& self.num_disruptions_visible == other.num_disruptions_visible
        &&& self.available_vehicle_lines@ == other.available_vehicle_lines@
        &&& self.available_disrupted_lines@ == other.available_disrupted_lines@
        &&& self.num_pixels_on == other.num_pixels_on
        &&& self.feed_source@ == other.feed_source@
    }
}

impl Default for TransitDataStats {
    fn default() -> (s: Self)
        ensures
            s.is_zero(),
    {
        TransitDataStats {
            telemetry_pending: false,
            received_at_timestamp: 0,
            sourced_at_timestamp: 0,
            simulated_until_timestamp: 0,
            transit_data_downlink_bytes_per_second: 0,
            num_vehicles_available: 0,
            num_vehicles_visible: 0,
            num_vehicles_visible_real_time: 0,
            num_disruptions_available: 0,
            num_disruptions_visible: 0,
            available_vehicle_lines: Vec::new(),
            available_disrupted_lines: Vec::new(),
            num_pixels_on: 0,
            feed_source: String::new(),
        }
    }
}

impl TransitDataStore {
    /// What holds of every store: there is room for all that is rendered, and stops are mapped to
    /// locations of the map.
    pub open spec fn wf(self, locs: nat) -> bool {
        &&& self.state.renderer_out.vehicles@.len() >= self.data.vehicle_movements@.len()
        &&& self.state.renderer_out.disruptions@.len() >= self.data.disruptions@.len()
        &&& forall|i: int|
            0 <= i < self.state.stop_id_to_loc_id_map@.len() ==> ((
            #[trigger] self.state.stop_id_to_loc_id_map@[i])@ matches Some(loc) ==> loc < locs)
    }
}

// ---------------------------------------------------------------------------------------------
// Stops and locations
// ---------------------------------------------------------------------------------------------

/// How far a station may be from its location: less than a kilometer.
pub const MAX_STOP_TO_LOC_DIST_DEG_SQ_E7: i128 = 4_000_000_000;

/// Whether a stop is a station.
pub open spec fn is_station(stop: Stop) -> bool {
    stop.is_station_x_latitude_e7 < 0
}

/// The latitude of a stop.
pub open spec fn latitude_of(stop: Stop) -> int {
    if stop.is_station_x_latitude_e7 < 0 {
        stop.is_station_x_latitude_e7 + 0x8000_0000
    } else {
        stop.is_station_x_latitude_e7 as int
    }
}

pub fn get_latitude(stop: &Stop) -> (lat: i32)
    ensures
        lat == latitude_of(*stop),
{
    let x: i32 = stop.is_station_x_latitude_e7;
    assert(x < 0 ==> x & 0x7FFF_FFFF == x + 0x8000_0000) by (bit_vector);
    assert(x >= 0 ==> x & 0x7FFF_FFFF == x) by (bit_vector);
    x & 0x7FFF_FFFF
}

/// The location of a stop: the nearest one of a station, if it is near enough.
pub open spec fn location_of(
    tree: Seq<LocGeoKdNode>,
    nodes: Seq<LocPixNode>,
    stop: Stop,
) -> Option<u16> {
    if !is_station(stop) {
        None
    } else {
        match nearest_location(tree, nodes, latitude_of(stop), stop.longitude_e7 as int) {
            Some(loc) => if dist_sq(
                latitude_of(stop),
                stop.longitude_e7 as int,
                nodes[loc as int],
            ) > MAX_STOP_TO_LOC_DIST_DEG_SQ_E7 || loc == u16::MAX {
                None
            } else {
                Some(loc)
            },
            None => None,
        }
    }
}

/// What is reported of a stop: a station without a location, and why.
pub open spec fn stop_report(
    tree: Seq<LocGeoKdNode>,
    nodes: Seq<LocPixNode>,
    stop: Stop,
    stop_idx: usize,
) -> Option<Report> {
    if !is_station(stop) {
        None
    } else {
        let latitude_e7 = latitude_of(stop) as i32;
        let longitude_e7 = stop.longitude_e7;
        match nearest_location(tree, nodes, latitude_of(stop), stop.longitude_e7 as int) {
            None => Some(Report::StopWithoutLocation { stop_idx, latitude_e7, longitude_e7 }),
            Some(loc_id) => if dist_sq(
                latitude_of(stop),
                stop.longitude_e7 as int,
                nodes[loc_id as int],
            ) > MAX_STOP_TO_LOC_DIST_DEG_SQ_E7 {
                Some(
                    Report::StopTooFarFromLocation {
                        stop_idx,
                        latitude_e7,
                        longitude_e7,
                        loc_id,
                        loc_latitude_e7: nodes[loc_id as int].lat_e7,
                        loc_longitude_e7: nodes[loc_id as int].lng_e7,
                    },
                )
            } else if loc_id == u16::MAX {
                Some(Report::LocationIdInvalid { loc_id, stop_idx, latitude_e7, longitude_e7 })
            } else {
                None
            },
        }
    }
}

/// What is reported of the first `k` stops, in their order.
pub open spec fn stop_reports(
    tree: Seq<LocGeoKdNode>,
    nodes: Seq<LocPixNode>,
    stops: Seq<Stop>,
    k: nat,
) -> Seq<Effect>
    decreases k,
{
    if k == 0 {
        Seq::empty()
    } else {
        let before = stop_reports(tree, nodes, stops, (k - 1) as nat);
        match stop_report(tree, nodes, stops[k - 1], (k - 1) as usize) {
            Some(report) => before.push(Effect::Report(report)),
            None => before,
        }
    }
}

/// Maps each stop to its location.
fn map_stops(
    kd_tree: &[LocGeoKdNode],
    loc_nodes: &[LocPixNode],
    stops: &Vec<Stop>,
    fx: &mut Effects,
) -> (map: Vec<NonMax<u16>>)
    requires
        valid_kd(kd_tree@, loc_nodes@.len(), 0, KD_MAX_LEVELS as nat),
    ensures
        map@.len() == stops@.len(),
        forall|i: int|
            0 <= i < stops@.len() ==> (#[trigger] map@[i])@ == location_of(
                kd_tree@,
                loc_nodes@,
                stops@[i],
            ),
        final(fx)@ == old(fx)@ + stop_reports(kd_tree@, loc_nodes@, stops@, stops@.len()),
{
    let mut map: Vec<NonMax<u16>> = Vec::new();
    let ghost start = fx@;
    assert(start + Seq::<Effect>::empty() =~= start);
    let mut i: usize = 0;
    while i < stops.len()
        invariant
            i <= stops@.len(),
            valid_kd(kd_tree@, loc_nodes@.len(), 0, KD_MAX_LEVELS as nat),
            map@.len() == i,
            forall|j: int|
                0 <= j < i ==> (#[trigger] map@[j])@ == location_of(
                    kd_tree@,
                    loc_nodes@,
                    stops@[j],
                ),
            fx@ == start + stop_reports(kd_tree@, loc_nodes@, stops@, i as nat),
        decreases stops@.len() - i,
    {
        let stop = &stops[i];
        let mut loc = NonMax::none();
        let ghost reported = fx@;
        if stop.is_station_x_latitude_e7 < 0 {
            let latitude_e7: i32 = get_latitude(stop);
            let longitude_e7: i32 = stop.longitude_e7;
            proof {
                lemma_found_is_on_map(
                    kd_tree@,
                    loc_nodes@,
                    latitude_e7 as int,
                    longitude_e7 as int,
                );
            }
            match lookup_nearest_pixel_location_id_to_coord(
                kd_tree,
                loc_nodes,
                latitude_e7,
                longitude_e7,
            ) {
                None => fx.push(
                    Effect::Report(
                        Report::StopWithoutLocation { stop_idx: i, latitude_e7, longitude_e7 },
                    ),
                ),
                Some(loc_id) => {
                    let node = &loc_nodes[loc_id as usize];
                    if squared_distance(latitude_e7, longitude_e7, node)
                        > MAX_STOP_TO_LOC_DIST_DEG_SQ_E7 {
                        fx.push(
                            Effect::Report(
                                Report::StopTooFarFromLocation {
                                    stop_idx: i,
                                    latitude_e7,
                                    longitude_e7,
                                    loc_id,
                                    loc_latitude_e7: node.lat_e7,
                                    loc_longitude_e7: node.lng_e7,
                                },
                            ),
                        );
                    } else {
                        match NonMax::new(loc_id) {
                            Some(id) => {
                                loc = id;
                            },
                            None => fx.push(
                                Effect::Report(
                                    Report::LocationIdInvalid {
                                        loc_id,
                                        stop_idx: i,
                                        latitude_e7,
                                        longitude_e7,
                                    },
                                ),
                            ),
                        }
                    }
                },
            }
        }
        map.push(loc);
        proof {
            let done = stop_reports(kd_tree@, loc_nodes@, stops@, i as nat);
            if let Some(report) = stop_report(kd_tree@, loc_nodes@, stops@[i as int], i) {
                assert(start + done.push(Effect::Report(report)) =~= reported.push(
                    Effect::Report(report),
                ));
            }
        }
        i = i + 1;
    }
    map
}

// ---------------------------------------------------------------------------------------------
// What stays on the map from one set of data to the next
// ---------------------------------------------------------------------------------------------

/// The first of the vehicles, from number `k` on, that runs on trip `trip_id`.
pub open spec fn vehicle_on_trip(
    vehicles: Seq<RenderedVehicle>,
    trip_id: u16,
    k: nat,
) -> Option<RenderedVehicle>
    decreases vehicles.len() - k,
{
    if k >= vehicles.len() {
        None
    } else if vehicles[k as int].trip_id@ == Some(trip_id) {
        Some(vehicles[k as int])
    } else {
        vehicle_on_trip(vehicles, trip_id, k + 1)
    }
}

/// A vehicle of new data: the one that was on the map, or one that is not on it yet.
pub open spec fn carried_vehicle(
    prev: Seq<RenderedVehicle>,
    movement: VehicleMovement,
) -> RenderedVehicle {
    let trip_id = util::low16(movement.line_id_x_trip_id) as u16;
    match vehicle_on_trip(prev, trip_id, 0) {
        Some(v) => v,
        None => RenderedVehicle::spec_new(trip_id),
    }
}

/// The first of the disruptions, from number `k` on, whose ID is `id`.
pub open spec fn disruption_with_id(
    disruptions: Seq<RenderedDisruption>,
    id: u16,
    k: nat,
) -> Option<renderer::RenderedDisruptionView>
    decreases disruptions.len() - k,
{
    if k >= disruptions.len() {
        None
    } else if disruptions[k as int].disruption_id@ == Some(id) {
        Some(disruptions[k as int]@)
    } else {
        disruption_with_id(disruptions, id, k + 1)
    }
}

/// A disruption of new data: the one that was on the map, or one that is not on it yet.
pub open spec fn carried_disruption(
    prev: Seq<RenderedDisruption>,
    disruption: Disruption,
) -> renderer::RenderedDisruptionView {
    let id = util::low16(disruption.line_id_x_disruption_id) as u16;
    match disruption_with_id(prev, id, 0) {
        Some(d) => d,
        None => RenderedDisruption::spec_new(id),
    }
}

fn carry_vehicles(prev: &Vec<RenderedVehicle>, movements: &Vec<VehicleMovement>) -> (r: Vec<
    RenderedVehicle,
>)
    ensures
        r@.len() == movements@.len(),
        forall|i: int|
            0 <= i < movements@.len() ==> #[trigger] r@[i] == carried_vehicle(
                prev@,
                movements@[i],
            ),
{
    let mut r: Vec<RenderedVehicle> = Vec::new();
    let mut i: usize = 0;
    while i < movements.len()
        invariant
            i <= movements@.len(),
            r@.len() == i,
            forall|j: int|
                0 <= j < i ==> #[trigger] r@[j] == carried_vehicle(prev@, movements@[j]),
        decreases movements@.len() - i,
    {
        let trip_id: u16 = util::get_low16(movements[i].line_id_x_trip_id) as u16;
        let mut found: Option<RenderedVehicle> = None;
        let mut k: usize = 0;
        while k < prev.len() && found.is_none()
            invariant
                k <= prev@.len(),
                match found {
                    None => vehicle_on_trip(prev@, trip_id, 0) == vehicle_on_trip(
                        prev@,
                        trip_id,
                        k as nat,
                    ),
                    Some(v) => vehicle_on_trip(prev@, trip_id, 0) == Some(v),
                },
            decreases prev@.len() - k,
        {
            if let Some(id) = prev[k].trip_id.as_option() {
                if id == trip_id {
                    found = Some(prev[k]);
                }
            }
            k = k + 1;
        }
        match found {
            Some(v) => r.push(v),
            None => r.push(RenderedVehicle::new(trip_id)),
        }
        i = i + 1;
    }
    r
}

fn carry_disruptions(prev: &Vec<RenderedDisruption>, disruptions: &Vec<Disruption>) -> (r: Vec<
    RenderedDisruption,
>)
    ensures
        r@.len() == disruptions@.len(),
        forall|i: int|
            0 <= i < disruptions@.len() ==> (#[trigger] r@[i])@ == carried_disruption(
                prev@,
                disruptions@[i],
            ),
{
    let mut r: Vec<RenderedDisruption> = Vec::new();
    let mut i: usize = 0;
    while i < disruptions.len()
        invariant
            i <= disruptions@.len(),
            r@.len() == i,
            forall|j: int|
                0 <= j < i ==> (#[trigger] r@[j])@ == carried_disruption(prev@, disruptions@[j]),
        decreases disruptions@.len() - i,
    {
        let id: u16 = util::get_low16(disruptions[i].line_id_x_disruption_id) as u16;
        let mut found: Option<RenderedDisruption> = None;
        let mut k: usize = 0;
        while k < prev.len() && found.is_none()
            invariant
                k <= prev@.len(),
                match found {
                    None => disruption_with_id(prev@, id, 0) == disruption_with_id(
                        prev@,
                        id,
                        k as nat,
                    ),
                    Some(d) => disruption_with_id(prev@, id, 0) == Some(d@),
                },
            decreases prev@.len() - k,
        {
            if let Some(known) = prev[k].disruption_id.as_option() {
                if known == id {
                    found = Some(prev[k].duplicate());
                }
            }
            k = k + 1;
        }
        match found {
            Some(d) => r.push(d),
            None => r.push(RenderedDisruption::new(id)),
        }
        i = i + 1;
    }
    r
}

// ---------------------------------------------------------------------------------------------
// Lines and their configurations
// ---------------------------------------------------------------------------------------------

/// Index of the first configuration, from number `k` on, of the line `name`.
pub open spec fn config_of_line(configs: Seq<LineConfig>, name: Seq<char>, k: nat) -> Option<nat>
    decreases configs.len() - k,
{
    if k >= configs.len() {
        None
    } else if configs[k as int].line_name@ == name {
        Some(k)
    } else {
        config_of_line(configs, name, k + 1)
    }
}

/// Finds the configuration of the line `name`, among the first `len`.
pub fn find_line_config(configs: &Vec<LineConfig>, len: usize, name: &String) -> (r: Option<usize>)
    requires
        len <= configs@.len(),
    ensures
        match r {
            Some(i) => i < len && config_of_line(configs@.take(len as int), name@, 0) == Some(
                i as nat,
            ) && configs@[i as int].line_name@ == name@,
            None => config_of_line(configs@.take(len as int), name@, 0) is None,
        },
{
    let ghost known = configs@.take(len as int);
    let mut i: usize = 0;
    while i < len
        invariant
            i <= len <= configs@.len(),
            known == configs@.take(len as int),
            config_of_line(known, name@, 0) == config_of_line(known, name@, i as nat),
        decreases len - i,
    {
        if configs[i].line_name == *name {
            return Some(i);
        }
        i = i + 1;
    }
    None
}

/// The configuration of a line that has none yet.
pub open spec fn new_line_config(line: Line) -> LineConfig {
    LineConfig {
        line_name: line.name,
        enabled: true,
        has_override: false,
        brightness_percent: 100,
        original_color_rgb8: line.color_rgb8,
        override_color_rgb8: line.color_rgb8,
    }
}

/// A configuration of a line whose color is now `color`.
pub open spec fn recolored(config: LineConfig, color: u32) -> LineConfig {
    LineConfig {
        original_color_rgb8: color,
        override_color_rgb8: if config.has_override {
            config.override_color_rgb8
        } else {
            color
        },
        ..config
    }
}

/// What lines make of configurations.
#[verifier::ext_equal]
pub struct LineUpdate {
    pub configs: Seq<LineConfig>,
    /// How many lines changed the configurations.
    pub stores: nat,
    /// Whether the configurations were out of date.
    pub changed: bool,
}

/// What the first `k` lines make of the configurations `known`.
pub open spec fn after_lines(known: Seq<LineConfig>, lines: Seq<Line>, k: nat) -> LineUpdate
    decreases k,
{
    if k == 0 {
        LineUpdate { configs: known, stores: 0, changed: false }
    } else {
        let before = after_lines(known, lines, (k - 1) as nat);
        let line = lines[k - 1];
        match config_of_line(known, line.name@, 0) {
            Some(i) => if known[i as int].original_color_rgb8 != line.color_rgb8 {
                let config = recolored(before.configs[i as int], line.color_rgb8);
                LineUpdate {
                    configs: before.configs.update(i as int, config),
                    stores: if config == before.configs[i as int] {
                        before.stores
                    } else {
                        before.stores + 1
                    },
                    changed: true,
                }
            } else {
                before
            },
            None => LineUpdate {
                configs: before.configs.push(new_line_config(line)),
                stores: before.stores + 1,
                changed: true,
            },
        }
    }
}

/// What an update of the configurations asks for: each change is stored, and the server learns
/// that there were changes.
pub open spec fn line_effects(update: LineUpdate) -> Seq<Effect> {
    let stores = Seq::new(update.stores, |i: int| Effect::StorePersistSettings);
    if update.changed {
        stores.push(Effect::Notify(WsClientNotify::Config))
    } else {
        stores
    }
}

/// Gives every line of the transit data a configuration, with the line's color.
pub fn update_line_configs(
    store: &Option<TransitDataStore>,
    settings: &mut PersistSettings,
    fx: &mut Effects,
)
    ensures
        match store {
            None => *final(settings) == *old(settings) && final(fx)@ == old(fx)@,
            Some(s) => {
                let update = after_lines(
                    old(settings).config.line_configs@,
                    s.data.lines@,
                    s.data.lines@.len(),
                );
                &&& final(settings).config.line_configs@ == update.configs
                &&& final(settings).config.without_lines(old(settings).config)
                &&& final(settings).without_config(*old(settings))
                &&& final(fx)@ == old(fx)@ + line_effects(update)
            },
        },
{
    if let Some(s) = store {
        let ghost known = settings.config.line_configs@;
        let ghost lines = s.data.lines@;
        let ghost start = fx@;
        let known_len: usize = settings.config.line_configs.len();
        let mut known_colors: Vec<u32> = Vec::new();
        let mut i: usize = 0;
        while i < known_len
            invariant
                i <= known_len == known.len(),
                *settings == *old(settings),
                known == settings.config.line_configs@,
                known_colors@.len() == i,
                forall|j: int|
                    0 <= j < i ==> #[trigger] known_colors@[j] == known[j].original_color_rgb8,
            decreases known_len - i,
        {
            known_colors.push(settings.config.line_configs[i].original_color_rgb8);
            i = i + 1;
        }
        let mut changed = false;
        let mut k: usize = 0;
        proof {
            assert(start + Seq::new(0, |i: int| Effect::StorePersistSettings) =~= start);
        }
        while k < s.data.lines.len()
            invariant
                k <= lines.len(),
                lines == s.data.lines@,
                known_len == known.len(),
                known == old(settings).config.line_configs@,
                known_colors@.len() == known_len,
                forall|j: int|
                    0 <= j < known_len ==> #[trigger] known_colors@[j]
                        == known[j].original_color_rgb8,
                settings.config.line_configs@.len() >= known_len,
                forall|j: int|
                    0 <= j < known_len ==> (#[trigger] settings.config.line_configs@[j]).line_name
                        == known[j].line_name,
                settings.config.line_configs@ == after_lines(known, lines, k as nat).configs,
                settings.config.without_lines(old(settings).config),
                settings.without_config(*old(settings)),
                changed == after_lines(known, lines, k as nat).changed,
                fx@ == start + Seq::new(
                    after_lines(known, lines, k as nat).stores,
                    |i: int| Effect::StorePersistSettings,
                ),
            decreases lines.len() - k,
        {
            let line = &s.data.lines[k];
            let ghost before = after_lines(known, lines, k as nat);
            let ghost stores = Seq::new(before.stores, |i: int| Effect::StorePersistSettings);
            proof {
                lemma_same_names(
                    settings.config.line_configs@.take(known_len as int),
                    known,
                    line.name@,
                    0,
                );
                assert(start + stores.push(Effect::StorePersistSettings) =~= (start + stores).push(
                    Effect::StorePersistSettings,
                ));
                assert(stores.push(Effect::StorePersistSettings) =~= Seq::new(
                    before.stores + 1,
                    |i: int| Effect::StorePersistSettings,
                ));
            }
            match find_line_config(&settings.config.line_configs, known_len, &line.name) {
                Some(i) => {
                    if known_colors[i] != line.color_rgb8 {
                        let lc = &settings.config.line_configs[i];
                        let ghost was = *lc;
                        let override_color_rgb8: u32 = if lc.has_override {
                            lc.override_color_rgb8
                        } else {
                            line.color_rgb8
                        };
                        let differs = lc.original_color_rgb8 != line.color_rgb8
                            || lc.override_color_rgb8 != override_color_rgb8;
                        let config = LineConfig {
                            line_name: lc.line_name.clone(),
                            enabled: lc.enabled,
                            has_override: lc.has_override,
                            brightness_percent: lc.brightness_percent,
                            original_color_rgb8: line.color_rgb8,
                            override_color_rgb8,
                        };
                        assert(config == recolored(was, line.color_rgb8));
                        settings.config.line_configs[i] = config;
                        let _ = persist::note_update(differs, fx);
                        changed = true;
                    }
                },
                None => {
                    settings.config.line_configs.push(
                        LineConfig {
                            line_name: line.name.clone(),
                            enabled: true,
                            has_override: false,
                            brightness_percent: 100,
                            original_color_rgb8: line.color_rgb8,
                            override_color_rgb8: line.color_rgb8,
                        },
                    );
                    let _ = persist::note_update(true, fx);
                    changed = true;
                },
            }
            k = k + 1;
        }
        let ghost update = after_lines(known, lines, lines.len());
        let ghost stores = Seq::new(update.stores, |i: int| Effect::StorePersistSettings);
        if changed {
            ws_client::send_config(fx);
            assert(fx@ =~= start + stores.push(Effect::Notify(WsClientNotify::Config)));
        }
        assert(fx@ =~= start + line_effects(update));
    }
}

proof fn lemma_same_names(a: Seq<LineConfig>, b: Seq<LineConfig>, name: Seq<char>, k: nat)
    requires
        a.len() == b.len(),
        forall|j: int| 0 <= j < b.len() ==> (#[trigger] a[j]).line_name == b[j].line_name,
    ensures
        config_of_line(a, name, k) == config_of_line(b, name, k),
    decreases a.len() - k,
{
    if k < a.len() {
        assert(a[k as int].line_name == b[k as int].line_name);
        lemma_same_names(a, b, name, k + 1);
    }
}

// ---------------------------------------------------------------------------------------------
// New data
// ---------------------------------------------------------------------------------------------

/// Bytes per second since data came last: nothing if none came before, or if no second passed.
pub open spec fn downlink_rate(size_bytes: usize, now: u32, previous: u32) -> u32 {
    if previous == 0 || now <= previous {
        0
    } else {
        size_bytes as u32 / ((now - previous) as u32)
    }
}

/// The vehicles that a store has on the map.
pub open spec fn vehicles_of(store: Option<TransitDataStore>) -> Seq<RenderedVehicle> {
    match store {
        Some(s) => s.state.renderer_out.vehicles@,
        None => Seq::empty(),
    }
}

/// The disruptions that a store has on the map.
pub open spec fn disruptions_of(store: Option<TransitDataStore>) -> Seq<RenderedDisruption> {
    match store {
        Some(s) => s.state.renderer_out.disruptions@,
        None => Seq::empty(),
    }
}

/// How far a store has been rendered.
pub open spec fn rendered_state_of(store: Option<TransitDataStore>) -> RendererState {
    match store {
        Some(s) => s.state.rendered_state,
        None => renderer::spec_renderer_state_default(),
    }
}

/// What `stats` are once `data` has come: the counts stay until the data is rendered.
pub open spec fn stats_on_data(
    stats: TransitDataStats,
    data: TransitData,
    size_bytes: usize,
    now: u32,
) -> TransitDataStats {
    TransitDataStats {
        telemetry_pending: true,
        received_at_timestamp: now,
        sourced_at_timestamp: data.sourced_at_unix_timestamp,
        simulated_until_timestamp: data.simulated_until_unix_timestamp,
        transit_data_downlink_bytes_per_second: downlink_rate(
            size_bytes,
            now,
            stats.received_at_timestamp,
        ),
        feed_source: data.feed_source,
        ..stats
    }
}

/// Whether `new` is the store `old` with `data` in place of its data.
pub open spec fn stored_on_data(
    new: TransitDataStore,
    old: Option<TransitDataStore>,
    data: TransitData,
    size_bytes: usize,
    now: u32,
    product: ProductConfig,
) -> bool {
    &&& new.data == data
    &&& new.state.stop_id_to_loc_id_map@.len() == data.stops@.len()
    &&& forall|i: int|
        0 <= i < data.stops@.len() ==> (#[trigger] new.state.stop_id_to_loc_id_map@[i])@
            == location_of(product.loc_geo_kd_tree@, product.loc_pix_nodes@, data.stops@[i])
    &&& new.state.renderer_out.vehicles@.len() == data.vehicle_movements@.len()
    &&& forall|i: int|
        0 <= i < data.vehicle_movements@.len() ==> #[trigger] new.state.renderer_out.vehicles@[i]
            == carried_vehicle(vehicles_of(old), data.vehicle_movements@[i])
    &&& new.state.renderer_out.disruptions@.len() == data.disruptions@.len()
    &&& forall|i: int|
        0 <= i < data.disruptions@.len() ==> (#[trigger] new.state.renderer_out.disruptions@[i])@
            == carried_disruption(disruptions_of(old), data.disruptions@[i])
    &&& new.state.rendered_state == (RendererState {
        rendered_data_first_at_instant_ms: None,
        disruptions_render_pending: true,
        ..rendered_state_of(old)
    })
    &&& match old {
        Some(o) => new.stats == stats_on_data(o.stats, data, size_bytes, now),
        None => exists|zero: TransitDataStats| #[trigger]
            zero.is_zero() && new.stats == stats_on_data(zero, data, size_bytes, now),
    }
}

/// Takes new transit data in place of what there was. What is on the map stays there, by trip and
/// by disruption, until the new data is rendered.
pub fn on_data(
    transit_data: TransitData,
    transit_data_proto_size_bytes: usize,
    now_timestamp: u32,
    product: &ProductConfig,
    store: &mut Option<TransitDataStore>,
    settings: &mut PersistSettings,
    fx: &mut Effects,
)
    requires
        valid_kd(
            product.loc_geo_kd_tree@,
            product.loc_pix_nodes@.len(),
            0,
            KD_MAX_LEVELS as nat,
        ),
    ensures
        *final(store) matches Some(s) && stored_on_data(
            s,
            *old(store),
            transit_data,
            transit_data_proto_size_bytes,
            now_timestamp,
            *product,
        ) && s.wf(product.loc_pix_nodes@.len()),
        ({
            let update = after_lines(
                old(settings).config.line_configs@,
                transit_data.lines@,
                transit_data.lines@.len(),
            );
            &&& final(settings).config.line_configs@ == update.configs
            &&& final(settings).config.without_lines(old(settings).config)
            &&& final(settings).without_config(*old(settings))
            &&& final(fx)@ == old(fx)@ + stop_reports(
                product.loc_geo_kd_tree@,
                product.loc_pix_nodes@,
                transit_data.stops@,
                transit_data.stops@.len(),
            ) + line_effects(update)
        }),
{
    let ghost data = transit_data;
    let ghost before = *store;
    let sourced_at_timestamp: u32 = transit_data.sourced_at_unix_timestamp;
    let simulated_until_timestamp: u32 = transit_data.simulated_until_unix_timestamp;
    let feed_source = transit_data.feed_source.clone();
    let previous: u32 = match store {
        Some(s) => s.stats.received_at_timestamp,
        None => 0,
    };
    let transit_data_downlink_bytes_per_second: u32 = if previous != 0 && now_timestamp > previous {
        (transit_data_proto_size_bytes as u32) / (now_timestamp - previous)
    } else {
        0
    };
    let stop_id_to_loc_id_map = map_stops(
        product.loc_geo_kd_tree,
        product.loc_pix_nodes,
        &transit_data.stops,
        fx,
    );
    let no_vehicles: Vec<RenderedVehicle> = Vec::new();
    let no_disruptions: Vec<RenderedDisruption> = Vec::new();
    let vehicles = match store {
        Some(s) => carry_vehicles(
            &s.state.renderer_out.vehicles,
            &transit_data.vehicle_movements,
        ),
        None => carry_vehicles(&no_vehicles, &transit_data.vehicle_movements),
    };
    let disruptions = match store {
        Some(s) => carry_disruptions(&s.state.renderer_out.disruptions, &transit_data.disruptions),
        None => carry_disruptions(&no_disruptions, &transit_data.disruptions),
    };
    let rendered = match store {
        Some(s) => s.state.rendered_state,
        None => RendererState::default(),
    };
    let stats = match store.take() {
        Some(s) => s.stats,
        None => TransitDataStats::default(),
    };
    assert(before is None ==> stats.is_zero());
    let new = TransitDataStore {
        data: transit_data,
        state: TransitDataState {
            stop_id_to_loc_id_map,
            renderer_out: RendererOutput { vehicles, disruptions },
            rendered_state: RendererState {
                rendered_data_first_at_instant_ms: None,
                disruptions_render_pending: true,
                ..rendered
            },
        },
        stats: TransitDataStats {
            telemetry_pending: true,
            received_at_timestamp: now_timestamp,
            sourced_at_timestamp,
            simulated_until_timestamp,
            transit_data_downlink_bytes_per_second,
            feed_source,
            ..stats
        },
    };
    proof {
        assert(new.stats == stats_on_data(
            stats,
            data,
            transit_data_proto_size_bytes,
            now_timestamp,
        ));
        assert forall|i: int| 0 <= i < new.state.stop_id_to_loc_id_map@.len() implies ((
        #[trigger] new.state.stop_id_to_loc_id_map@[i])@ matches Some(loc) ==> loc
            < product.loc_pix_nodes@.len()) by {
            let stop = data.stops@[i];
            lemma_found_is_on_map(
                product.loc_geo_kd_tree@,
                product.loc_pix_nodes@,
                latitude_of(stop),
                stop.longitude_e7 as int,
            );
        }
    }
    *store = Some(new);
    update_line_configs(store, settings, fx);
}

/// Drops the data and the locations of its stops, to make room for new data. What is on the map
/// stays.
pub fn clear(store: &mut Option<TransitDataStore>)
    ensures
        match *old(store) {
            None => *final(store) is None,
            Some(o) => *final(store) matches Some(s) && {
                &&& s.data.is_empty()
                &&& s.state.stop_id_to_loc_id_map@.len() == 0
                &&& s.state.renderer_out == o.state.renderer_out
                &&& s.state.rendered_state == (RendererState {
                    rendered_data_first_at_instant_ms: None,
                    ..o.state.rendered_state
                })
                &&& s.stats == o.stats
                &&& forall|locs: nat| o.wf(locs) ==> #[trigger] s.wf(locs)
            },
        },
{
    if let Some(s) = store.take() {
        let renderer_out = s.state.renderer_out;
        let rendered = s.state.rendered_state;
        *store = Some(
            TransitDataStore {
                data: TransitData::default(),
                state: TransitDataState {
                    stop_id_to_loc_id_map: Vec::new(),
                    renderer_out,
                    rendered_state: RendererState {
                        rendered_data_first_at_instant_ms: None,
                        ..rendered
                    },
                },
                stats: s.stats,
            },
        );
    }
}

/// Forgets everything.
pub fn reset(store: &mut Option<TransitDataStore>)
    ensures
        *final(store) is None,
{
    *store = None;
}

/// Whether data came since the last reset.
pub fn is_set(store: &Option<TransitDataStore>) -> (r: bool)
    ensures
        r == (*store is Some),
{
    store.is_some()
}

fn duplicate_vehicle_lines(lines: &Vec<AvailableVehicleLine>) -> (r: Vec<AvailableVehicleLine>)
    ensures
        r@ == lines@,
{
    let mut r: Vec<AvailableVehicleLine> = Vec::new();
    let mut i: usize = 0;
    while i < lines.len()
        invariant
            i <= lines@.len(),
            r@ == lines@.take(i as int),
        decreases lines@.len() - i,
    {
        let line = &lines[i];
        let copy = AvailableVehicleLine {
            line_name: line.line_name.clone(),
            vehicle_count: line.vehicle_count,
        };
        assert(copy == *line);
        r.push(copy);
        i = i + 1;
        assert(lines@.take(i as int) =~= lines@.take(i - 1).push(lines@[i - 1]));
    }
    assert(lines@.take(i as int) =~= lines@);
    r
}

fn duplicate_disrupted_lines(lines: &Vec<AvailableDisruptedLine>) -> (r: Vec<
    AvailableDisruptedLine,
>)
    ensures
        r@ == lines@,
{
    let mut r: Vec<AvailableDisruptedLine> = Vec::new();
    let mut i: usize = 0;
    while i < lines.len()
        invariant
            i <= lines@.len(),
            r@ == lines@.take(i as int),
        decreases lines@.len() - i,
    {
        let line = &lines[i];
        let copy = AvailableDisruptedLine {
            line_name: line.line_name.clone(),
            stop_count: line.stop_count,
            bidirectional: line.bidirectional,
            entire_line: line.entire_line,
            from_coord: line.from_coord,
            to_coord: line.to_coord,
            direction_hint_from_coord: line.direction_hint_from_coord,
            direction_hint_to_coord: line.direction_hint_to_coord,
            affects_all_lines: line.affects_all_lines,
        };
        assert(copy == *line);
        r.push(copy);
        i = i + 1;
        assert(lines@.take(i as int) =~= lines@.take(i - 1).push(lines@[i - 1]));
    }
    assert(lines@.take(i as int) =~= lines@);
    r
}

/// The statistics, all zero if no data came.
pub fn get_stats(store: &Option<TransitDataStore>) -> (stats: TransitDataStats)
    ensures
        match store {
            Some(s) => stats.same(s.stats),
            None => stats.is_zero(),
        },
{
    match store {
        None => TransitDataStats::default(),
        Some(store) => {
            let s = &store.stats;
            TransitDataStats {
                telemetry_pending: s.telemetry_pending,
                received_at_timestamp: s.received_at_timestamp,
                sourced_at_timestamp: s.sourced_at_timestamp,
                simulated_until_timestamp: s.simulated_until_timestamp,
                transit_data_downlink_bytes_per_second: s.transit_data_downlink_bytes_per_second,
                num_vehicles_available: s.num_vehicles_available,
                num_vehicles_visible: s.num_vehicles_visible,
                num_vehicles_visible_real_time: s.num_vehicles_visible_real_time,
                num_disruptions_available: s.num_disruptions_available,
                num_disruptions_visible: s.num_disruptions_visible,
                available_vehicle_lines: duplicate_vehicle_lines(&s.available_vehicle_lines),
                available_disrupted_lines: duplicate_disrupted_lines(&s.available_disrupted_lines),
                num_pixels_on: s.num_pixels_on,
                feed_source: s.feed_source.clone(),
            }
        },
    }
}

/// A store after the configuration changed: what it shows is out of date.
pub open spec fn outdated(store: TransitDataStore, now_instant_ms: u32) -> TransitDataStore {
    TransitDataStore {
        stats: TransitDataStats { telemetry_pending: true, ..store.stats },
        state: TransitDataState {
            rendered_state: RendererState {
                disruptions_render_pending: true,
                config_last_changed_at_instant_ms: now_instant_ms,
                ..store.state.rendered_state
            },
            ..store.state
        },
        ..store
    }
}

/// Has everything rendered and reported anew after the configuration changed.
pub fn on_config_updated(
    store: &mut Option<TransitDataStore>,
    now_instant_ms: u32,
    fx: &mut Effects,
)
    ensures
        *final(store) == (match *old(store) {
            Some(s) => Some(outdated(s, now_instant_ms)),
            None => None,
        }),
        final(fx)@ == old(fx)@.push(Effect::RenderNow),
{
    if let Some(s) = store.take() {
        let rendered = s.state.rendered_state;
        *store = Some(
            TransitDataStore {
                data: s.data,
                state: TransitDataState {
                    stop_id_to_loc_id_map: s.state.stop_id_to_loc_id_map,
                    renderer_out: s.state.renderer_out,
                    rendered_state: RendererState {
                        disruptions_render_pending: true,
                        config_last_changed_at_instant_ms: now_instant_ms,
                        ..rendered
                    },
                },
                stats: TransitDataStats { telemetry_pending: true, ..s.stats },
            },
        );
    }
    renderer::render_now(fx);
}

// ---------------------------------------------------------------------------------------------
// Laws
// ---------------------------------------------------------------------------------------------

/// A vehicle whose trip goes on in new data is on the map as it was.
pub proof fn lemma_trip_goes_on(
    prev: Seq<RenderedVehicle>,
    movement: VehicleMovement,
    i: int,
)
    requires
        0 <= i < prev.len(),
        prev[i].trip_id@ == Some(util::low16(movement.line_id_x_trip_id) as u16),
        forall|j: int| 0 <= j < i ==> (#[trigger] prev[j]).trip_id@ != prev[i].trip_id@,
    ensures
        carried_vehicle(prev, movement) == prev[i],
{
    lemma_first_on_trip(prev, util::low16(movement.line_id_x_trip_id) as u16, i, 0);
}

proof fn lemma_first_on_trip(prev: Seq<RenderedVehicle>, trip_id: u16, i: int, k: nat)
    requires
        k <= i < prev.len(),
        prev[i].trip_id@ == Some(trip_id),
        forall|j: int| 0 <= j < i ==> (#[trigger] prev[j]).trip_id@ != prev[i].trip_id@,
    ensures
        vehicle_on_trip(prev, trip_id, k) == Some(prev[i]),
    decreases i - k,
{
    if k < i {
        assert(prev[k as int].trip_id@ != prev[i].trip_id@);
        lemma_first_on_trip(prev, trip_id, i, k + 1);
    }
}

/// Whether a configuration has kept what was set in `known`: all but the colors, and the color of an
/// override.
pub open spec fn keeps_settings(config: LineConfig, known: LineConfig) -> bool {
    &&& config.line_name == known.line_name
    &&& config.enabled == known.enabled
    &&& config.has_override == known.has_override
    &&& config.brightness_percent == known.brightness_percent
    &&& known.has_override ==> config.override_color_rgb8 == known.override_color_rgb8
}

/// Whether a line without an override is shown in its own color.
pub open spec fn shows_own_color(config: LineConfig) -> bool {
    !config.has_override ==> config.override_color_rgb8 == config.original_color_rgb8
}

/// What lines make of configurations leaves what the user set: each configuration stays in its
/// place with its override, those of other lines stay as they are, and what comes behind them are
/// new configurations of lines. If lines without an override were shown in their own color, they
/// still are.
pub proof fn lemma_line_update_keeps_settings(known: Seq<LineConfig>, lines: Seq<Line>, k: nat)
    requires
        k <= lines.len(),
    ensures
        ({
            let configs = after_lines(known, lines, k).configs;
            &&& configs.len() >= known.len()
            &&& forall|i: int| 0 <= i < known.len() ==> keeps_settings(#[trigger] configs[i], known[i])
            &&& forall|i: int|
                0 <= i < known.len() && (forall|l: int|
                    0 <= l < lines.len() ==> (#[trigger] lines[l]).name@ != known[i].line_name@)
                    ==> #[trigger] configs[i] == known[i]
            &&& forall|i: int|
                known.len() <= i < configs.len() ==> exists|l: int|
                    0 <= l < k && #[trigger] configs[i] == new_line_config(#[trigger] lines[l])
            &&& (forall|i: int| 0 <= i < known.len() ==> shows_own_color(#[trigger] known[i])) ==> (
            forall|i: int| 0 <= i < configs.len() ==> shows_own_color(#[trigger] configs[i]))
        }),
    decreases k,
{
    if k > 0 {
        let m = (k - 1) as nat;
        lemma_line_update_keeps_settings(known, lines, m);
        let before = after_lines(known, lines, m).configs;
        let configs = after_lines(known, lines, k).configs;
        let line = lines[m as int];
        lemma_config_found(known, line.name@, 0);
        assert forall|i: int| known.len() <= i < configs.len() implies exists|l: int|
            0 <= l < k && #[trigger] configs[i] == new_line_config(#[trigger] lines[l]) by {
            if i < before.len() {
                assert(before[i] == configs[i]);
                let l = choose|l: int|
                    0 <= l < m && before[i] == new_line_config(#[trigger] lines[l]);
                assert(configs[i] == new_line_config(lines[l]));
            } else {
                assert(configs[i] == new_line_config(lines[m as int]));
            }
        }
        assert forall|i: int|
            0 <= i < known.len() && (forall|l: int|
                0 <= l < lines.len() ==> (#[trigger] lines[l]).name@
                    != known[i].line_name@) implies #[trigger] configs[i] == known[i] by {
            assert(lines[m as int].name@ != known[i].line_name@);
            assert(before[i] == known[i]);
        }
        assert forall|i: int| 0 <= i < known.len() implies keeps_settings(
            #[trigger] configs[i],
            known[i],
        ) by {
            assert(keeps_settings(before[i], known[i]));
        }
        if forall|i: int| 0 <= i < known.len() ==> shows_own_color(#[trigger] known[i]) {
            assert forall|i: int| 0 <= i < configs.len() implies shows_own_color(
                #[trigger] configs[i],
            ) by {
                if i < before.len() {
                    assert(shows_own_color(before[i]));
                }
            }
        }
    }
}

/// Whether no two configurations are of the same line.
pub open spec fn one_per_line(configs: Seq<LineConfig>) -> bool {
    forall|i: int, j: int|
        0 <= i < j < configs.len() ==> (#[trigger] configs[i]).line_name@ != (
        #[trigger] configs[j]).line_name@
}

/// Every line is given exactly one configuration of its name, which has its color, as long as no two
/// lines have the same name and no two configurations were of the same line.
pub proof fn lemma_each_line_has_one_config(known: Seq<LineConfig>, lines: Seq<Line>)
    requires
        one_per_line(known),
        forall|i: int, j: int|
            0 <= i < j < lines.len() ==> (#[trigger] lines[i]).name@ != (#[trigger] lines[j]).name@,
    ensures
        ({
            let configs = after_lines(known, lines, lines.len()).configs;
            &&& one_per_line(configs)
            &&& forall|l: int|
                0 <= l < lines.len() ==> exists|i: int|
                    0 <= i < configs.len() && (#[trigger] configs[i]).line_name@ == (
                    #[trigger] lines[l]).name@ && configs[i].original_color_rgb8
                        == lines[l].color_rgb8
        }),
{
    let configs = after_lines(known, lines, lines.len()).configs;
    lemma_lines_configured(known, lines, lines.len());
    lemma_names_stay_distinct(known, lines, lines.len());
    assert forall|l: int| 0 <= l < lines.len() implies exists|i: int|
        0 <= i < configs.len() && (#[trigger] configs[i]).line_name@ == (
        #[trigger] lines[l]).name@ && configs[i].original_color_rgb8 == lines[l].color_rgb8 by {
        assert(up_to_date(configs, lines[l]));
        lemma_config_found(configs, lines[l].name@, 0);
        let i = config_of_line(configs, lines[l].name@, 0)->0 as int;
        assert(configs[i].line_name@ == lines[l].name@);
    }
}

proof fn lemma_names_stay_distinct(known: Seq<LineConfig>, lines: Seq<Line>, k: nat)
    requires
        k <= lines.len(),
        one_per_line(known),
        forall|i: int, j: int|
            0 <= i < j < lines.len() ==> (#[trigger] lines[i]).name@ != (#[trigger] lines[j]).name@,
    ensures
        one_per_line(after_lines(known, lines, k).configs),
    decreases k,
{
    if k > 0 {
        let m = (k - 1) as nat;
        lemma_names_stay_distinct(known, lines, m);
        lemma_lines_configured(known, lines, m);
        let before = after_lines(known, lines, m).configs;
        let configs = after_lines(known, lines, k).configs;
        let line = lines[m as int];
        lemma_config_found(known, line.name@, 0);
        assert forall|i: int, j: int| 0 <= i < j < configs.len() implies (
        #[trigger] configs[i]).line_name@ != (#[trigger] configs[j]).line_name@ by {
            assert(configs[i].line_name@ == before[i].line_name@);
            if j < before.len() {
                assert(configs[j].line_name@ == before[j].line_name@);
            } else if i < known.len() {
                assert(known[i].line_name@ != line.name@);
            } else {
                let l = choose|l: int|
                    0 <= l < m && (#[trigger] lines[l]).name@ == before[i].line_name@;
                assert(lines[l].name@ != lines[m as int].name@);
            }
        }
    }
}

/// Once every line was given a configuration, giving them again changes nothing, as long as no
/// two lines have the same name.
pub proof fn lemma_line_update_settles(known: Seq<LineConfig>, lines: Seq<Line>)
    requires
        forall|i: int, j: int|
            0 <= i < j < lines.len() ==> (#[trigger] lines[i]).name@ != (#[trigger] lines[j]).name@,
    ensures
        ({
            let once = after_lines(known, lines, lines.len());
            let twice = after_lines(once.configs, lines, lines.len());
            twice == (LineUpdate { configs: once.configs, stores: 0, changed: false })
        }),
{
    lemma_lines_configured(known, lines, lines.len());
    let once = after_lines(known, lines, lines.len());
    lemma_nothing_to_update(once.configs, lines, lines.len());
}

/// Whether the configuration of `line` has its color.
spec fn up_to_date(configs: Seq<LineConfig>, line: Line) -> bool {
    config_of_line(configs, line.name@, 0) matches Some(i) && configs[i as int].original_color_rgb8
        == line.color_rgb8
}

proof fn lemma_nothing_to_update(configs: Seq<LineConfig>, lines: Seq<Line>, k: nat)
    requires
        k <= lines.len(),
        forall|i: int| 0 <= i < lines.len() ==> up_to_date(configs, #[trigger] lines[i]),
    ensures
        after_lines(configs, lines, k) == (LineUpdate { configs, stores: 0, changed: false }),
    decreases k,
{
    if k > 0 {
        lemma_nothing_to_update(configs, lines, (k - 1) as nat);
        assert(up_to_date(configs, lines[k - 1]));
    }
}

/// A configuration is found where it is first.
pub proof fn lemma_config_found(configs: Seq<LineConfig>, name: Seq<char>, k: nat)
    ensures
        match config_of_line(configs, name, k) {
            Some(i) => k <= i < configs.len() && configs[i as int].line_name@ == name && forall|
                j: int,
            |
                k <= j < i ==> (#[trigger] configs[j]).line_name@ != name,
            None => forall|j: int|
                k <= j < configs.len() ==> (#[trigger] configs[j]).line_name@ != name,
        },
    decreases configs.len() - k,
{
    if k < configs.len() && configs[k as int].line_name@ != name {
        lemma_config_found(configs, name, k + 1);
    }
}

/// A configuration that is first is found.
proof fn lemma_config_is_first(configs: Seq<LineConfig>, name: Seq<char>, i: nat)
    requires
        i < configs.len(),
        configs[i as int].line_name@ == name,
        forall|j: int| 0 <= j < i ==> (#[trigger] configs[j]).line_name@ != name,
    ensures
        config_of_line(configs, name, 0) == Some(i),
{
    lemma_config_found(configs, name, 0);
    if let Some(j) = config_of_line(configs, name, 0) {
        if j < i {
            assert(configs[j as int].line_name@ != name);
        }
        if i < j {
            assert(configs[i as int].line_name@ != name);
        }
    }
}

proof fn lemma_lines_configured(known: Seq<LineConfig>, lines: Seq<Line>, k: nat)
    requires
        k <= lines.len(),
        forall|i: int, j: int|
            0 <= i < j < lines.len() ==> (#[trigger] lines[i]).name@ != (#[trigger] lines[j]).name@,
    ensures
        ({
            let configs = after_lines(known, lines, k).configs;
            &&& configs.len() >= known.len()
            &&& forall|i: int|
                0 <= i < known.len() ==> (#[trigger] configs[i]).line_name@ == known[i].line_name@
            &&& forall|i: int|
                known.len() <= i < configs.len() ==> exists|l: int|
                    0 <= l < k && (#[trigger] lines[l]).name@ == (#[trigger] configs[i]).line_name@
            &&& forall|i: int| 0 <= i < k ==> up_to_date(configs, #[trigger] lines[i])
            &&& forall|i: int|
                0 <= i < known.len() ==> (#[trigger] configs[i]).original_color_rgb8
                    == known[i].original_color_rgb8 || exists|l: int|
                    0 <= l < k && (#[trigger] lines[l]).name@ == known[i].line_name@
        }),
    decreases k,
{
    if k > 0 {
        let m = (k - 1) as nat;
        lemma_lines_configured(known, lines, m);
        let before = after_lines(known, lines, m).configs;
        let configs = after_lines(known, lines, k).configs;
        let line = lines[m as int];
        lemma_config_found(known, line.name@, 0);
        lemma_config_found(before, line.name@, 0);
        match config_of_line(known, line.name@, 0) {
            Some(at) => {
                assert forall|j: int| 0 <= j < at implies (#[trigger] configs[j]).line_name@
                    != line.name@ by {
                    assert(known[j].line_name@ != line.name@);
                    assert(before[j].line_name@ == known[j].line_name@);
                }
                assert(before[at as int].line_name@ == known[at as int].line_name@);
                lemma_config_is_first(configs, line.name@, at);
                assert(configs[at as int].original_color_rgb8 == line.color_rgb8) by {
                    if known[at as int].original_color_rgb8 == line.color_rgb8 {
                        if before[at as int].original_color_rgb8
                            != known[at as int].original_color_rgb8 {
                            let l = choose|l: int|
                                0 <= l < m && (#[trigger] lines[l]).name@
                                    == known[at as int].line_name@;
                            assert(lines[l].name@ != lines[m as int].name@);
                        }
                    }
                }
                assert forall|i: int| 0 <= i < m implies up_to_date(configs, #[trigger] lines[i]) by {
                    assert(up_to_date(before, lines[i]));
                    lemma_config_found(before, lines[i].name@, 0);
                    let old_at = config_of_line(before, lines[i].name@, 0)->0;
                    assert(lines[i].name@ != lines[m as int].name@);
                    assert forall|j: int| 0 <= j < old_at implies (
                    #[trigger] configs[j]).line_name@ != lines[i].name@ by {
                        assert(before[j].line_name@ != lines[i].name@);
                    }
                    lemma_config_is_first(configs, lines[i].name@, old_at);
                }
                assert(lines[m as int].name@ == known[at as int].line_name@);
                assert forall|i: int| known.len() <= i < configs.len() implies exists|l: int|
                    0 <= l < k && (#[trigger] lines[l]).name@ == (
                    #[trigger] configs[i]).line_name@ by {
                    assert(before[i].line_name@ == configs[i].line_name@);
                }
            },
            None => {
                assert forall|j: int| 0 <= j < before.len() implies (
                #[trigger] before[j]).line_name@ != line.name@ by {
                    if j < known.len() {
                        assert(known[j].line_name@ != line.name@);
                    } else {
                        let l = choose|l: int|
                            0 <= l < m && (#[trigger] lines[l]).name@ == before[j].line_name@;
                        assert(lines[l].name@ != lines[m as int].name@);
                    }
                }
                assert forall|j: int| 0 <= j < before.len() implies (
                #[trigger] configs[j]).line_name@ != line.name@ by {
                    assert(before[j].line_name@ != line.name@);
                }
                lemma_config_is_first(configs, line.name@, before.len());
                assert forall|i: int| 0 <= i < m implies up_to_date(configs, #[trigger] lines[i]) by {
                    assert(up_to_date(before, lines[i]));
                    lemma_config_found(before, lines[i].name@, 0);
                    let old_at = config_of_line(before, lines[i].name@, 0)->0;
                    assert forall|j: int| 0 <= j < old_at implies (
                    #[trigger] configs[j]).line_name@ != lines[i].name@ by {
                        assert(before[j].line_name@ != lines[i].name@);
                    }
                    lemma_config_is_first(configs, lines[i].name@, old_at);
                }
                assert forall|i: int| known.len() <= i < configs.len() implies exists|l: int|
                    0 <= l < k && (#[trigger] lines[l]).name@ == (
                    #[trigger] configs[i]).line_name@ by {
                    if i < before.len() {
                        assert(before[i].line_name@ == configs[i].line_name@);
                    } else {
                        assert(lines[m as int].name@ == configs[i].line_name@);
                    }
                }
            },
        }
    }
}

proof fn lemma_carried_vehicle_within(
    prev: Seq<RenderedVehicle>,
    trip_id: u16,
    k: nat,
    n: nat,
)
    requires
        forall|i: int| 0 <= i < prev.len() ==> (#[trigger] prev[i]).within(n),
    ensures
        vehicle_on_trip(prev, trip_id, k) matches Some(v) ==> v.within(n),
    decreases prev.len() - k,
{
    if k < prev.len() {
        lemma_carried_vehicle_within(prev, trip_id, k + 1, n);
    }
}

proof fn lemma_carried_disruption_within(
    prev: Seq<RenderedDisruption>,
    id: u16,
    k: nat,
    n: nat,
)
    requires
        forall|i: int| 0 <= i < prev.len() ==> (#[trigger] prev[i])@.within(n),
    ensures
        disruption_with_id(prev, id, k) matches Some(d) ==> d.within(n),
    decreases prev.len() - k,
{
    if k < prev.len() {
        lemma_carried_disruption_within(prev, id, k + 1, n);
    }
}

/// New data brings nothing to pixels that the map does not have.
pub proof fn lemma_on_data_within(
    new: TransitDataStore,
    old: Option<TransitDataStore>,
    data: TransitData,
    size_bytes: usize,
    now: u32,
    product: ProductConfig,
    n: nat,
)
    requires
        stored_on_data(new, old, data, size_bytes, now, product),
        old matches Some(o) ==> o.state.renderer_out.within(n),
    ensures
        new.state.renderer_out.within(n),
{
    let vs = new.state.renderer_out.vehicles@;
    assert forall|i: int| 0 <= i < vs.len() implies (#[trigger] vs[i]).within(n) by {
        let trip_id = util::low16(data.vehicle_movements@[i].line_id_x_trip_id) as u16;
        lemma_carried_vehicle_within(vehicles_of(old), trip_id, 0, n);
        util::lemma_non_max_views::<u16>(0);
    }
    let ds = new.state.renderer_out.disruptions@;
    assert forall|i: int| 0 <= i < ds.len() implies (#[trigger] ds[i])@.within(n) by {
        let id = util::low16(data.disruptions@[i].line_id_x_disruption_id) as u16;
        lemma_carried_disruption_within(disruptions_of(old), id, 0, n);
    }
}

/// The tree splits by latitude at its root and at every second level below, and by longitude
/// between them.
pub proof fn lemma_split_axes(lat: int, lng: int, loc: LocPixNode, depth: nat)
    ensures
        depth % 2 == 0 ==> axis_diff(lat, lng, loc, depth) == lat - loc.lat_e7,
        depth % 2 == 1 ==> axis_diff(lat, lng, loc, depth) == lng - loc.lng_e7,
{
}

/// Of all locations of an ordered tree, the one found is nearest as the crow flies: the squares of
/// its distances in latitude and in longitude add up to no more than those of any other.
pub proof fn lemma_found_is_nearest_by_degrees(
    tree: Seq<LocGeoKdNode>,
    nodes: Seq<LocPixNode>,
    lat: int,
    lng: int,
    loc: u16,
)
    requires
        valid_kd(tree, nodes.len(), 0, KD_MAX_LEVELS as nat),
        kd_ordered(tree, nodes, 0, 0, KD_MAX_LEVELS as nat),
        kd_holds(tree, 0, KD_MAX_LEVELS as nat, loc),
    ensures
        nearest_location(tree, nodes, lat, lng) matches Some(found) && {
            let (a, b) = (nodes[found as int], nodes[loc as int]);
            &&& kd_holds(tree, 0, KD_MAX_LEVELS as nat, found)
            &&& (lat - a.lat_e7) * (lat - a.lat_e7) + (lng - a.lng_e7) * (lng - a.lng_e7) <= (lat
                - b.lat_e7) * (lat - b.lat_e7) + (lng - b.lng_e7) * (lng - b.lng_e7)
        },
{
    lemma_found_is_nearest(tree, nodes, lat, lng);
}

/// The highest bit of a stop's word is set for a station, and the rest is its latitude.
pub proof fn lemma_stop_word(stop: Stop)
    ensures
        0 <= latitude_of(stop) <= i32::MAX,
        latitude_of(stop) == stop.is_station_x_latitude_e7 + (if is_station(stop) {
            0x8000_0000int
        } else {
            0
        }),
{
}

/// A stop has a location exactly if it is a station and the location found for it is no more than
/// the square root of 4 billion ten-millionths of a degree away. A station without one is
/// reported, and nothing else is.
pub proof fn lemma_location_of_stop(
    tree: Seq<LocGeoKdNode>,
    nodes: Seq<LocPixNode>,
    stop: Stop,
    stop_idx: usize,
)
    requires
        valid_kd(tree, nodes.len(), 0, KD_MAX_LEVELS as nat),
        nodes.len() <= u16::MAX,
    ensures
        ({
            let (lat, lng) = (latitude_of(stop), stop.longitude_e7 as int);
            let found = nearest_location(tree, nodes, lat, lng)->0;
            let node = nodes[found as int];
            let near = (lat - node.lat_e7) * (lat - node.lat_e7) + (lng - node.lng_e7) * (lng
                - node.lng_e7) <= 4_000_000_000;
            &&& location_of(tree, nodes, stop) == (if stop.is_station_x_latitude_e7 < 0 && near {
                Some(found)
            } else {
                None
            })
            &&& stop_report(tree, nodes, stop, stop_idx) is Some <==> stop.is_station_x_latitude_e7
                < 0 && location_of(tree, nodes, stop) is None
            &&& stop_report(tree, nodes, stop, stop_idx) matches Some(report) ==> report == (
            Report::StopTooFarFromLocation {
                stop_idx,
                latitude_e7: lat as i32,
                longitude_e7: stop.longitude_e7,
                loc_id: found,
                loc_latitude_e7: node.lat_e7,
                loc_longitude_e7: node.lng_e7,
            })
        }),
{
    lemma_found_is_on_map(tree, nodes, latitude_of(stop), stop.longitude_e7 as int);
}

/// What is reported of a stop comes after what is reported of those before it.
pub proof fn lemma_stop_reports_in_order(
    tree: Seq<LocGeoKdNode>,
    nodes: Seq<LocPixNode>,
    stops: Seq<Stop>,
    k: nat,
)
    ensures
        stop_reports(tree, nodes, stops, 0).len() == 0,
        stop_reports(tree, nodes, stops, k + 1) == stop_reports(tree, nodes, stops, k) + (
        match stop_report(tree, nodes, stops[k as int], k as usize) {
            Some(report) => seq![Effect::Report(report)],
            None => Seq::empty(),
        }),
{
    let before = stop_reports(tree, nodes, stops, k);
    assert(before + Seq::<Effect>::empty() =~= before);
    if let Some(report) = stop_report(tree, nodes, stops[k as int], k as usize) {
        assert(before.push(Effect::Report(report)) =~= before + seq![Effect::Report(report)]);
    }
}

proof fn lemma_none_on_trip(prev: Seq<RenderedVehicle>, trip_id: u16, k: nat)
    requires
        forall|j: int| 0 <= j < prev.len() ==> (#[trigger] prev[j]).trip_id@ != Some(trip_id),
    ensures
        vehicle_on_trip(prev, trip_id, k) is None,
    decreases prev.len() - k,
{
    if k < prev.len() {
        assert(prev[k as int].trip_id@ != Some(trip_id));
        lemma_none_on_trip(prev, trip_id, k + 1);
    }
}

/// A vehicle on a trip that was not under way before is new: it is on no pixel, and was on none. Its
/// trip is the lower half of its movement's word.
pub proof fn lemma_trip_begins(prev: Seq<RenderedVehicle>, movement: VehicleMovement, trip_id: u16)
    requires
        trip_id == movement.line_id_x_trip_id as int % 0x10000,
        trip_id != u16::MAX,
        forall|j: int| 0 <= j < prev.len() ==> (#[trigger] prev[j]).trip_id@ != Some(trip_id),
    ensures
        ({
            let v = carried_vehicle(prev, movement);
            v.trip_id@ == Some(trip_id) && v.cur.idx@ is None && v.prev.idx@ is None
        }),
{
    lemma_none_on_trip(prev, trip_id, 0);
    util::lemma_non_max_views::<u16>(trip_id);
}

proof fn lemma_disruption_found(prev: Seq<RenderedDisruption>, id: u16, k: nat)
    ensures
        match disruption_with_id(prev, id, k) {
            Some(d) => exists|i: int|
                k <= i < prev.len() && (#[trigger] prev[i])@ == d && d.disruption_id@ == Some(id)
                    && forall|j: int|
                    k <= j < i ==> (#[trigger] prev[j]).disruption_id@ != Some(id),
            None => forall|j: int|
                k <= j < prev.len() ==> (#[trigger] prev[j]).disruption_id@ != Some(id),
        },
    decreases prev.len() - k,
{
    if k < prev.len() {
        if prev[k as int].disruption_id@ != Some(id) {
            lemma_disruption_found(prev, id, k + 1);
            if let Some(d) = disruption_with_id(prev, id, k + 1) {
                let i = choose|i: int|
                    k + 1 <= i < prev.len() && (#[trigger] prev[i])@ == d && d.disruption_id@
                        == Some(id) && forall|j: int|
                        k + 1 <= j < i ==> (#[trigger] prev[j]).disruption_id@ != Some(id);
                assert(prev[i]@ == d);
            }
        } else {
            assert(prev[k as int]@.disruption_id@ == Some(id));
        }
    }
}

/// A disruption that goes on in new data, by the lower half of its word, is on the map as it was.
/// One that was not there before is on no pixels yet.
pub proof fn lemma_disruption_goes_on(
    prev: Seq<RenderedDisruption>,
    disruption: Disruption,
    id: u16,
    i: int,
)
    requires
        id == disruption.line_id_x_disruption_id as int % 0x10000,
        id != u16::MAX,
    ensures
        0 <= i < prev.len() && prev[i].disruption_id@ == Some(id) && (forall|j: int|
            0 <= j < i ==> (#[trigger] prev[j]).disruption_id@ != Some(id)) ==> carried_disruption(
            prev,
            disruption,
        ) == prev[i]@,
        (forall|j: int| 0 <= j < prev.len() ==> (#[trigger] prev[j]).disruption_id@ != Some(id))
            ==> {
            let d = carried_disruption(prev, disruption);
            d.disruption_id@ == Some(id) && d.pixels.len() == 0
        },
{
    lemma_disruption_found(prev, id, 0);
    util::lemma_non_max_views::<u16>(id);
    if let Some(d) = disruption_with_id(prev, id, 0) {
        let f = choose|f: int|
            0 <= f < prev.len() && (#[trigger] prev[f])@ == d && d.disruption_id@ == Some(id)
                && forall|j: int| 0 <= j < f ==> (#[trigger] prev[j]).disruption_id@ != Some(id);
        assert(prev[f].disruption_id@ == Some(id));
        if 0 <= i < prev.len() && prev[i].disruption_id@ == Some(id) && (forall|j: int|
            0 <= j < i ==> (#[trigger] prev[j]).disruption_id@ != Some(id)) {
            assert(f < i ==> prev[f].disruption_id@ != Some(id));
            assert(i < f ==> prev[i].disruption_id@ != Some(id));
        }
    }
}

/// A line that has no configuration is given one that shows it, in its own color, at full
/// brightness and without an override. One that has an override keeps its color as that of a line
/// changes; one without goes along.
pub proof fn lemma_config_of_new_line(line: Line, config: LineConfig, color: u32)
    ensures
        ({
            let new = new_line_config(line);
            &&& new.line_name@ == line.name@
            &&& new.enabled && !new.has_override && new.brightness_percent == 100
            &&& new.original_color_rgb8 == line.color_rgb8
            &&& new.override_color_rgb8 == line.color_rgb8
        }),
        ({
            let after = recolored(config, color);
            &&& after.original_color_rgb8 == color
            &&& config.has_override ==> after.override_color_rgb8 == config.override_color_rgb8
            &&& !config.has_override ==> after.override_color_rgb8 == color
            &&& after == (LineConfig {
                original_color_rgb8: after.original_color_rgb8,
                override_color_rgb8: after.override_color_rgb8,
                ..config
            })
        }),
{
}

/// Configurations that lines change are stored, and the server is told once, at the end. Without a
/// change nothing is asked for.
pub proof fn lemma_line_changes_are_stored(known: Seq<LineConfig>, lines: Seq<Line>, k: nat)
    ensures
        ({
            let update = after_lines(known, lines, k);
            let fx = line_effects(update);
            &&& update.configs != known ==> fx.contains(Effect::StorePersistSettings)
                && fx.last() == Effect::Notify(WsClientNotify::Config)
            &&& forall|i: int|
                0 <= i < fx.len() - 1 ==> #[trigger] fx[i] == Effect::StorePersistSettings
            &&& fx.len() <= k + 1
            &&& fx.len() > 0 ==> update.changed
            &&& update.changed <==> fx.contains(Effect::Notify(WsClientNotify::Config))
        }),
{
    let update = after_lines(known, lines, k);
    let fx = line_effects(update);
    lemma_stores_count(known, lines, k);
    if update.configs != known {
        assert(fx[0] == Effect::StorePersistSettings);
    }
    if update.changed {
        assert(fx[fx.len() - 1] == Effect::Notify(WsClientNotify::Config));
    }
}

proof fn lemma_stores_count(known: Seq<LineConfig>, lines: Seq<Line>, k: nat)
    ensures
        ({
            let update = after_lines(known, lines, k);
            &&& update.stores <= k
            &&& update.stores > 0 ==> update.changed
            &&& update.configs != known ==> update.stores > 0
        }),
    decreases k,
{
    if k > 0 {
        lemma_stores_count(known, lines, (k - 1) as nat);
        let before = after_lines(known, lines, (k - 1) as nat);
        lemma_config_found(known, lines[k - 1].name@, 0);
        if let Some(i) = config_of_line(known, lines[k - 1].name@, 0) {
            let config = recolored(before.configs[i as int], lines[k - 1].color_rgb8);
            if before.configs == known && config == before.configs[i as int] {
                assert(before.configs.update(i as int, config) =~= known);
            }
        }
    }
}

/// The rate of the downlink is the bytes of the data, spread over the seconds since data came last,
/// rounded down. It is nothing for the first data, or within one second.
pub proof fn lemma_downlink_rate(size_bytes: usize, now: u32, previous: u32)
    requires
        size_bytes <= u32::MAX,
    ensures
        ({
            let rate = downlink_rate(size_bytes, now, previous);
            &&& previous == 0 || now <= previous ==> rate == 0
            &&& previous != 0 && now > previous ==> rate * (now - previous) <= size_bytes < (rate
                + 1) * (now - previous)
        }),
{
    if previous != 0 && now > previous {
        let (s, d) = (size_bytes as int, now - previous);
        let q = s / d;
        assert(q * d <= s < (q + 1) * d) by (nonlinear_arith)
            requires
                q == s / d,
                d > 0,
        ;
    }
}

/// New data is noted with the time that it came, its own times and its source, and has the server
/// told. The counts stay.
pub proof fn lemma_stats_on_data(
    stats: TransitDataStats,
    data: TransitData,
    size_bytes: usize,
    now: u32,
)
    ensures
        ({
            let after = stats_on_data(stats, data, size_bytes, now);
            &&& after.telemetry_pending
            &&& after.received_at_timestamp == now
            &&& after.sourced_at_timestamp == data.sourced_at_unix_timestamp
            &&& after.simulated_until_timestamp == data.simulated_until_unix_timestamp
            &&& after.feed_source == data.feed_source
            &&& after.transit_data_downlink_bytes_per_second == downlink_rate(
                size_bytes,
                now,
                stats.received_at_timestamp,
            )
            &&& after == (TransitDataStats {
                telemetry_pending: true,
                received_at_timestamp: now,
                sourced_at_timestamp: after.sourced_at_timestamp,
                simulated_until_timestamp: after.simulated_until_timestamp,
                transit_data_downlink_bytes_per_second:
                    after.transit_data_downlink_bytes_per_second,
                feed_source: after.feed_source,
                ..stats
            })
        }),
{
}

/// After a change of the configuration the disruptions are rendered anew, the time is noted, and the
/// server is told. The data and what is on the map stay.
pub proof fn lemma_outdated(store: TransitDataStore, now_instant_ms: u32)
    ensures
        ({
            let after = outdated(store, now_instant_ms);
            let (a, b) = (store.state.rendered_state, after.state.rendered_state);
            &&& b.disruptions_render_pending
            &&& b.config_last_changed_at_instant_ms == now_instant_ms
            &&& b.rendered_any_first_at_instant_ms == a.rendered_any_first_at_instant_ms
            &&& b.rendered_data_first_at_instant_ms == a.rendered_data_first_at_instant_ms
            &&& b.drawn_first_frame_at_instant_ms == a.drawn_first_frame_at_instant_ms
            &&& after.stats.telemetry_pending
            &&& after.stats == (TransitDataStats { telemetry_pending: true, ..store.stats })
            &&& after.data == store.data
            &&& after.state.renderer_out == store.state.renderer_out
            &&& after.state.stop_id_to_loc_id_map == store.state.stop_id_to_loc_id_map
        }),
{
}

/// Statistics say the same exactly if they differ in nothing but which copies of their lists and
/// their text they hold.
pub proof fn lemma_same_stats(a: TransitDataStats, b: TransitDataStats)
    ensures
        a.same(b) <==> {
            &&& a == (TransitDataStats {
                available_vehicle_lines: a.available_vehicle_lines,
                available_disrupted_lines: a.available_disrupted_lines,
                feed_source: a.feed_source,
                ..b
            })
            &&& a.available_vehicle_lines@ == b.available_vehicle_lines@
            &&& a.available_disrupted_lines@ == b.available_disrupted_lines@
            &&& a.feed_source@ == b.feed_source@
        },
{
}

/// Statistics are those of a start exactly if every number is zero, every list is empty and nothing
/// waits to be told.
pub proof fn lemma_zero_stats(s: TransitDataStats)
    ensures
        s.is_zero() <==> {
            &&& s == (TransitDataStats {
                telemetry_pending: false,
                received_at_timestamp: 0,
                sourced_at_timestamp: 0,
                simulated_until_timestamp: 0,
                transit_data_downlink_bytes_per_second: 0,
                num_vehicles_available: 0,
                num_vehicles_visible: 0,
                num_vehicles_visible_real_time: 0,
                num_disruptions_available: 0,
                num_disruptions_visible: 0,
                num_pixels_on: 0,
                ..s
            })
            &&& s.available_vehicle_lines@.len() == 0
            &&& s.available_disrupted_lines@.len() == 0
            &&& s.feed_source@.len() == 0
        },
{
}

} // verus!

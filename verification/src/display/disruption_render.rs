//! Which pixels show a disruption.

use vstd::prelude::*;

use crate::config;
use crate::config::{LocPixNode, ProductConfig};
use crate::display::path_find;
use crate::display::path_find::{LocPixEdgeDirected, PathFindError};
use crate::display::renderer::{RenderedDisruption, RenderedDisruptionView, RendererState};
use crate::display::routes;
use crate::display::vehicle_render;
use crate::display::ways;
use crate::effects::{Effect, Effects};
use crate::proto::{
    AvailableDisruptedLine, Coordinates, DeviceConfig, Disruption, DisruptionFilter,
};
use crate::store::transit_data;
use crate::store::transit_data::{TransitDataStats, TransitDataStore};
use crate::trace::{Report, Route};
use crate::util;
use crate::util::{NonMax, RGB8};

verus! {

/// The longest path that a disruption is shown on.
pub const MAX_PATH_LEN: usize = 64;

/// The most nodes on the open list of a search for such a path.
pub const MAX_OPEN_NODES: usize = 128;

// ---------------------------------------------------------------------------------------------
// The fields of a disruption
// ---------------------------------------------------------------------------------------------

/// Whether both directions are disrupted.
pub open spec fn is_bidirectional(d: Disruption) -> bool {
    d.bidirectional_x_entire_line_x_affects_all_lines_x_stop_count / 0x8000_0000 % 2 == 1
}

/// Whether the whole line is disrupted.
pub open spec fn is_entire_line(d: Disruption) -> bool {
    d.bidirectional_x_entire_line_x_affects_all_lines_x_stop_count / 0x4000_0000 % 2 == 1
}

/// Whether no other line serves the same route.
pub open spec fn affects_all_lines(d: Disruption) -> bool {
    d.bidirectional_x_entire_line_x_affects_all_lines_x_stop_count / 0x2000_0000 % 2 == 1
}

/// How many stops are disrupted.
pub open spec fn stop_count(d: Disruption) -> u32 {
    d.bidirectional_x_entire_line_x_affects_all_lines_x_stop_count % 0x2000_0000
}

/// The flags and the stop count of a disruption.
fn get_flags(d: &Disruption) -> (r: (bool, bool, bool, u32))
    ensures
        r == (is_bidirectional(*d), is_entire_line(*d), affects_all_lines(*d), stop_count(*d)),
{
    let word: u32 = d.bidirectional_x_entire_line_x_affects_all_lines_x_stop_count;
    assert(((word & 0x8000_0000 != 0) == (word / 0x8000_0000 % 2 == 1)) && ((word & 0x4000_0000
        != 0) == (word / 0x4000_0000 % 2 == 1)) && ((word & 0x2000_0000 != 0) == (word / 0x2000_0000
        % 2 == 1)) && (word & 0x1FFF_FFFF == word % 0x2000_0000)) by (bit_vector);
    (
        word & 0x8000_0000 != 0,
        word & 0x4000_0000 != 0,
        word & 0x2000_0000 != 0,
        word & 0x1FFF_FFFF,
    )
}

/// The stop in the upper half of a word.
pub open spec fn first_stop(word: u32) -> u16 {
    util::high16(word) as u16
}

/// The stop in the lower half of a word.
pub open spec fn second_stop(word: u32) -> u16 {
    util::low16(word) as u16
}

/// The number of a stop, unless it is the one that stands for none.
pub open spec fn some_stop(id: u16) -> Option<u16> {
    if id == u16::MAX {
        None
    } else {
        Some(id)
    }
}

fn get_some_stop(id: u16) -> (r: Option<u16>)
    ensures
        r == some_stop(id),
{
    NonMax::new_unchecked(id).as_option()
}

// ---------------------------------------------------------------------------------------------
// The pixels
// ---------------------------------------------------------------------------------------------

/// What is known of where a disruption is: its pixels, or what is wrong, or neither if it is not
/// to be shown.
pub type Placement = (Option<Report>, Option<Seq<u16>>);

/// The pixels of a path.
pub open spec fn path_pixels(path: Seq<LocPixEdgeDirected>) -> Seq<u16> {
    path.map_values(|edge: LocPixEdgeDirected| edge.from_pix)
}

/// `pixels`, and those of the first `k` of `more` that are not among them yet.
pub open spec fn with_pixels(pixels: Seq<u16>, more: Seq<u16>, k: nat) -> Seq<u16>
    decreases k,
{
    if k == 0 {
        pixels
    } else {
        let before = with_pixels(pixels, more, (k - 1) as nat);
        if before.contains(more[k - 1]) {
            before
        } else {
            before.push(more[k - 1])
        }
    }
}

/// Two locations with their coordinates.
pub open spec fn route_between(nodes: Seq<LocPixNode>, from_loc_id: u16, to_loc_id: u16) -> Route {
    Route {
        from_loc_id,
        from_latitude_e7: nodes[from_loc_id as int].lat_e7,
        from_longitude_e7: nodes[from_loc_id as int].lng_e7,
        to_loc_id,
        to_latitude_e7: nodes[to_loc_id as int].lat_e7,
        to_longitude_e7: nodes[to_loc_id as int].lng_e7,
    }
}

/// The path between two locations.
pub open spec fn path_between(nodes: Seq<LocPixNode>, from: u16, to: u16) -> Result<
    Seq<LocPixEdgeDirected>,
    PathFindError,
> {
    ways::search_result(nodes, from, to, MAX_OPEN_NODES as nat, MAX_PATH_LEN as nat)
}

/// A disruption between two locations: all pixels on the way, and on the way back if both
/// directions are disrupted.
pub open spec fn placed_between(
    nodes: Seq<LocPixNode>,
    disruption_idx: usize,
    from: u16,
    to: u16,
    both: bool,
) -> Placement {
    let route = route_between(nodes, from, to);
    match path_between(nodes, from, to) {
        Err(error) => (
            Some(Report::DisruptionWithoutPath { disruption_idx, route, error }),
            None,
        ),
        Ok(forward) => if !both {
            (None, Some(path_pixels(forward)))
        } else {
            match path_between(nodes, to, from) {
                Err(error) => (
                    Some(Report::DisruptionWithoutReversePath { disruption_idx, route, error }),
                    None,
                ),
                Ok(back) => (
                    None,
                    Some(with_pixels(path_pixels(forward), path_pixels(back), back.len())),
                ),
            }
        },
    }
}

/// Whether a search between two locations may fail with `error`.
pub open spec fn may_fail(nodes: Seq<LocPixNode>, from: u16, to: u16, error: PathFindError) -> bool {
    match error {
        PathFindError::NoPathFound => routes::no_route(nodes, from, to),
        PathFindError::OutOfMemory => ways::lacks_room(
            nodes,
            from,
            to,
            MAX_OPEN_NODES as nat,
            MAX_PATH_LEN as nat,
        ),
    }
}

/// A disruption between two locations is shown on shortest paths between them that a train can take,
/// there and, if both directions are disrupted, back. It is reported as one without a path only if
/// there is none, or not enough room to find it.
pub proof fn lemma_placed_on_shortest_paths(
    nodes: Seq<LocPixNode>,
    disruption_idx: usize,
    from: u16,
    to: u16,
    both: bool,
)
    requires
        config::valid_map(nodes),
        from < nodes.len(),
        to < nodes.len(),
    ensures
        ({
            let (report, pixels) = placed_between(nodes, disruption_idx, from, to, both);
            match path_between(nodes, from, to) {
                Ok(there) => {
                    &&& routes::is_shortest_path(nodes, from, to, there)
                    &&& match path_between(nodes, to, from) {
                        Ok(back) if both => {
                            &&& routes::is_shortest_path(nodes, to, from, back)
                            &&& pixels matches Some(all) && forall|pixel: u16| #[trigger]
                                all.contains(pixel) == (path_pixels(there).contains(pixel)
                                    || path_pixels(back).contains(pixel))
                        },
                        Err(error) if both => pixels is None && may_fail(nodes, to, from, error),
                        _ => pixels == Some(path_pixels(there)),
                    }
                },
                Err(error) => pixels is None && may_fail(nodes, from, to, error),
            }
        }),
{
    let (cap, path_cap) = (MAX_OPEN_NODES as nat, MAX_PATH_LEN as nat);
    ways::lemma_search_result(nodes, from, to, cap, path_cap);
    ways::lemma_search_result(nodes, to, from, cap, path_cap);
    if let (Ok(there), Ok(back)) = (path_between(nodes, from, to), path_between(nodes, to, from)) {
        let (a, b) = (path_pixels(there), path_pixels(back));
        let all = with_pixels(a, b, back.len());
        lemma_with_pixels(a, b, back.len());
        assert forall|pixel: u16| #[trigger] all.contains(pixel) == (a.contains(pixel)
            || b.contains(pixel)) by {
            if a.contains(pixel) {
                let i = a.index_of(pixel);
                assert(all.take(a.len() as int)[i] == all[i]);
                assert(all[i] == pixel);
            }
            if b.contains(pixel) {
                let i = b.index_of(pixel);
                assert(all.contains(b[i]));
            }
            if all.contains(pixel) {
                let i = all.index_of(pixel);
                assert(a.contains(all[i]) || b.contains(all[i]));
            }
        }
    }
}

/// A disruption at one location: the pixel from which trains leave in its direction, toward the
/// second stop of the direction or, without one, coming from the first.
pub open spec fn placed_at_stop(
    nodes: Seq<LocPixNode>,
    map: Seq<NonMax<u16>>,
    disruption_idx: usize,
    at: u16,
    hint_from: Option<u16>,
    hint_to: Option<u16>,
) -> Placement {
    match (hint_to, hint_from) {
        (None, None) => (Some(Report::DisruptionWithoutDirection { disruption_idx }), None),
        _ => {
            let stop_id = if hint_to is Some {
                hint_to->0
            } else {
                hint_from->0
            };
            match vehicle_render::mapped(map, stop_id as u32) {
                None => (
                    Some(Report::DisruptionDirectionStopInvalid { disruption_idx, stop: stop_id }),
                    None,
                ),
                Some(dir) => {
                    let (from, to) = if hint_to is Some {
                        (at, dir)
                    } else {
                        (dir, at)
                    };
                    match path_between(nodes, from, to) {
                        Err(error) => (
                            Some(
                                Report::DisruptionWithoutDirectedPath {
                                    disruption_idx,
                                    route: route_between(nodes, from, to),
                                    error,
                                },
                            ),
                            None,
                        ),
                        Ok(path) => (None, Some(seq![path[0].from_pix])),
                    }
                },
            }
        },
    }
}

/// Where disruption number `disruption_idx` is.
pub open spec fn disruption_placed(
    product: ProductConfig,
    store: TransitDataStore,
    config: DeviceConfig,
    disruption_idx: usize,
) -> Placement {
    let d = store.data.disruptions@[disruption_idx as int];
    let nodes = product.loc_pix_nodes@;
    let map = store.state.stop_id_to_loc_id_map@;
    let line_id = util::high16(d.line_id_x_disruption_id);
    if line_id >= store.data.lines@.len() {
        (Some(Report::DisruptionLineInvalid { disruption_idx, line_id }), None)
    } else {
        let line = store.data.lines@[line_id as int];
        match transit_data::config_of_line(config.line_configs@, line.name@, 0) {
            None => (Some(Report::DisruptionLineWithoutConfig { disruption_idx, line_id }), None),
            Some(c) => if !vehicle_render::line_enabled(config.line_configs@[c as int]) {
                (None, None)
            } else if config.disruption_filter == DisruptionFilter::Severe && !affects_all_lines(d) {
                (None, None)
            } else {
                let from_stop = first_stop(d.from_stop_id_x_to_stop_id);
                match vehicle_render::mapped(map, from_stop as u32) {
                    None => (
                        Some(
                            Report::DisruptionFromStopInvalid {
                                disruption_idx,
                                stop: from_stop,
                            },
                        ),
                        None,
                    ),
                    Some(from) => match some_stop(second_stop(d.from_stop_id_x_to_stop_id)) {
                        Some(to_stop) => match vehicle_render::mapped(map, to_stop as u32) {
                            None => (
                                Some(
                                    Report::DisruptionToStopInvalid {
                                        disruption_idx,
                                        stop: to_stop,
                                    },
                                ),
                                None,
                            ),
                            Some(to) => placed_between(
                                nodes,
                                disruption_idx,
                                from,
                                to,
                                is_bidirectional(d),
                            ),
                        },
                        None => placed_at_stop(
                            nodes,
                            map,
                            disruption_idx,
                            from,
                            some_stop(first_stop(d.direction_hint_from_stop_id_x_to_stop_id)),
                            some_stop(second_stop(d.direction_hint_from_stop_id_x_to_stop_id)),
                        ),
                    },
                }
            },
        }
    }
}

/// A placement as it is computed.
struct Placed {
    report: Option<Report>,
    pixels: Option<Vec<u16>>,
}

impl Placed {
    /// Whether the pixels are those of the map.
    spec fn within(self, nodes: Seq<LocPixNode>) -> bool {
        forall|n: nat| #[trigger]
            config::valid_pixels(nodes, n) ==> (self.pixels matches Some(p) ==> forall|i: int|
                0 <= i < p@.len() ==> (#[trigger] p@[i]) < n)
    }

    spec fn is(self, p: Placement) -> bool {
        let (report, pixels) = p;
        &&& self.report == report
        &&& match (self.pixels, pixels) {
            (Some(v), Some(s)) => v@ == s,
            (None, None) => true,
            _ => false,
        }
    }
}

fn contains(pixels: &Vec<u16>, pixel: u16) -> (r: bool)
    ensures
        r == pixels@.contains(pixel),
{
    let mut i: usize = 0;
    while i < pixels.len()
        invariant
            i <= pixels@.len(),
            forall|j: int| 0 <= j < i ==> pixels@[j] != pixel,
        decreases pixels@.len() - i,
    {
        if pixels[i] == pixel {
            assert(pixels@[i as int] == pixel);
            return true;
        }
        i = i + 1;
    }
    false
}

fn get_path_pixels(path: &Vec<LocPixEdgeDirected>) -> (r: Vec<u16>)
    ensures
        r@ == path_pixels(path@),
{
    let mut r: Vec<u16> = Vec::new();
    let mut i: usize = 0;
    while i < path.len()
        invariant
            i <= path@.len(),
            r@ == path_pixels(path@).take(i as int),
        decreases path@.len() - i,
    {
        r.push(path[i].from_pix);
        i = i + 1;
        assert(path_pixels(path@).take(i as int) =~= path_pixels(path@).take(i - 1).push(
            path_pixels(path@)[i - 1],
        ));
    }
    assert(path_pixels(path@).take(i as int) =~= path_pixels(path@));
    r
}

fn add_path_pixels(pixels: &mut Vec<u16>, path: &Vec<LocPixEdgeDirected>)
    ensures
        final(pixels)@ == with_pixels(old(pixels)@, path_pixels(path@), path@.len()),
{
    let mut i: usize = 0;
    while i < path.len()
        invariant
            i <= path@.len(),
            pixels@ == with_pixels(old(pixels)@, path_pixels(path@), i as nat),
        decreases path@.len() - i,
    {
        let pixel: u16 = path[i].from_pix;
        if !contains(pixels, pixel) {
            pixels.push(pixel);
        }
        i = i + 1;
    }
}

/// Joined pixels are as low as both parts are.
proof fn lemma_joined_within(pixels: Seq<u16>, more: Seq<u16>, k: nat)
    requires
        k <= more.len(),
    ensures
        forall|n: nat|
            #![trigger below(with_pixels(pixels, more, k), n)]
            below(pixels, n) && below(more, n) ==> below(with_pixels(pixels, more, k), n),
{
    lemma_with_pixels(pixels, more, k);
    let all = with_pixels(pixels, more, k);
    assert forall|n: nat| below(pixels, n) && below(more, n) implies #[trigger] below(all, n) by {
        assert forall|i: int| 0 <= i < all.len() implies (#[trigger] all[i]) < n by {
            if pixels.contains(all[i]) {
                let j = choose|j: int| 0 <= j < pixels.len() && pixels[j] == all[i];
                assert(pixels[j] < n);
            } else {
                let j = choose|j: int| 0 <= j < more.len() && more[j] == all[i];
                assert(more[j] < n);
            }
        }
    }
}

/// Whether all pixels are among the first `n`.
spec fn below(pixels: Seq<u16>, n: nat) -> bool {
    forall|i: int| 0 <= i < pixels.len() ==> (#[trigger] pixels[i]) < n
}

fn get_route(loc_nodes: &[LocPixNode], from_loc_id: u16, to_loc_id: u16) -> (r: Route)
    requires
        from_loc_id < loc_nodes@.len(),
        to_loc_id < loc_nodes@.len(),
    ensures
        r == route_between(loc_nodes@, from_loc_id, to_loc_id),
{
    let from = &loc_nodes[from_loc_id as usize];
    let to = &loc_nodes[to_loc_id as usize];
    Route {
        from_loc_id,
        from_latitude_e7: from.lat_e7,
        from_longitude_e7: from.lng_e7,
        to_loc_id,
        to_latitude_e7: to.lat_e7,
        to_longitude_e7: to.lng_e7,
    }
}

fn place_between(
    loc_nodes: &[LocPixNode],
    disruption_idx: usize,
    from: u16,
    to: u16,
    both: bool,
) -> (r: Placed)
    requires
        config::valid_map(loc_nodes@),
        from < loc_nodes@.len(),
        to < loc_nodes@.len(),
    ensures
        r.is(placed_between(loc_nodes@, disruption_idx, from, to, both)),
        r.within(loc_nodes@),
{
    let route = get_route(loc_nodes, from, to);
    match path_find::find_path(loc_nodes, from, to, MAX_OPEN_NODES, MAX_PATH_LEN) {
        Err(error) => Placed {
            report: Some(Report::DisruptionWithoutPath { disruption_idx, route, error }),
            pixels: None,
        },
        Ok(forward) => {
            let mut pixels = get_path_pixels(&forward);
            if both {
                match path_find::find_path(loc_nodes, to, from, MAX_OPEN_NODES, MAX_PATH_LEN) {
                    Err(error) => {
                        return Placed {
                            report: Some(
                                Report::DisruptionWithoutReversePath {
                                    disruption_idx,
                                    route,
                                    error,
                                },
                            ),
                            pixels: None,
                        };
                    },
                    Ok(back) => {
                        proof {
                            lemma_joined_within(
                                pixels@,
                                path_pixels(back@),
                                back@.len(),
                            );
                        }
                        add_path_pixels(&mut pixels, &back);
                        proof {
                            let rev = path_pixels(back@);
                            assert forall|n: nat| #[trigger]
                                config::valid_pixels(loc_nodes@, n) implies below(rev, n) by {
                                assert forall|i: int| 0 <= i < rev.len() implies (
                                #[trigger] rev[i]) < n by {
                                    assert(back@[i].from_pix < n);
                                }
                            }
                        }
                    },
                }
            }
            proof {
                let fw = path_pixels(forward@);
                assert forall|n: nat| #[trigger]
                    config::valid_pixels(loc_nodes@, n) implies forall|i: int|
                    0 <= i < pixels@.len() ==> (#[trigger] pixels@[i]) < n by {
                    assert forall|i: int| 0 <= i < fw.len() implies (#[trigger] fw[i]) < n by {
                        assert(forward@[i].from_pix < n);
                    }
                    assert(below(fw, n));
                    assert(below(pixels@, n));
                }
            }
            Placed { report: None, pixels: Some(pixels) }
        },
    }
}

fn place_at_stop(
    loc_nodes: &[LocPixNode],
    map: &Vec<NonMax<u16>>,
    disruption_idx: usize,
    at: u16,
    hint_from: Option<u16>,
    hint_to: Option<u16>,
) -> (r: Placed)
    requires
        config::valid_map(loc_nodes@),
        at < loc_nodes@.len(),
        forall|i: int|
            0 <= i < map@.len() ==> ((#[trigger] map@[i])@ matches Some(loc) ==> loc
                < loc_nodes@.len()),
    ensures
        r.is(placed_at_stop(loc_nodes@, map@, disruption_idx, at, hint_from, hint_to)),
        r.within(loc_nodes@),
{
    let stop_id: u16 = match (hint_to, hint_from) {
        (Some(id), _) => id,
        (None, Some(id)) => id,
        (None, None) => {
            return Placed {
                report: Some(Report::DisruptionWithoutDirection { disruption_idx }),
                pixels: None,
            };
        },
    };
    match vehicle_render::get_mapped(map, stop_id as u32) {
        None => Placed {
            report: Some(Report::DisruptionDirectionStopInvalid { disruption_idx, stop: stop_id }),
            pixels: None,
        },
        Some(dir) => {
            assert(map@[stop_id as int]@ == Some(dir));
            let (from, to) = if hint_to.is_some() {
                (at, dir)
            } else {
                (dir, at)
            };
            match path_find::find_path(loc_nodes, from, to, MAX_OPEN_NODES, MAX_PATH_LEN) {
                Err(error) => Placed {
                    report: Some(
                        Report::DisruptionWithoutDirectedPath {
                            disruption_idx,
                            route: get_route(loc_nodes, from, to),
                            error,
                        },
                    ),
                    pixels: None,
                },
                Ok(path) => {
                    let mut pixels: Vec<u16> = Vec::new();
                    pixels.push(path[0].from_pix);
                    assert(pixels@ =~= seq![path@[0].from_pix]);
                    Placed { report: None, pixels: Some(pixels) }
                },
            }
        },
    }
}

fn place_disruption(
    product: &ProductConfig,
    store: &TransitDataStore,
    config: &DeviceConfig,
    disruption_idx: usize,
) -> (r: Placed)
    requires
        config::valid_map(product.loc_pix_nodes@),
        store.wf(product.loc_pix_nodes@.len()),
        disruption_idx < store.data.disruptions@.len(),
    ensures
        r.is(disruption_placed(*product, *store, *config, disruption_idx)),
        r.within(product.loc_pix_nodes@),
{
    let d = &store.data.disruptions[disruption_idx];
    let map = &store.state.stop_id_to_loc_id_map;
    let line_id: u32 = util::get_high16(d.line_id_x_disruption_id);
    if line_id as usize >= store.data.lines.len() {
        return Placed {
            report: Some(Report::DisruptionLineInvalid { disruption_idx, line_id }),
            pixels: None,
        };
    }
    let line = &store.data.lines[line_id as usize];
    assert(config.line_configs@.take(config.line_configs@.len() as int) =~= config.line_configs@);
    let line_config = match transit_data::find_line_config(
        &config.line_configs,
        config.line_configs.len(),
        &line.name,
    ) {
        Some(c) => &config.line_configs[c],
        None => {
            return Placed {
                report: Some(Report::DisruptionLineWithoutConfig { disruption_idx, line_id }),
                pixels: None,
            };
        },
    };
    if line_config.has_override && !line_config.enabled {
        return Placed { report: None, pixels: None };
    }
    let (both, _, severe, _) = get_flags(d);
    if config.disruption_filter == DisruptionFilter::Severe && !severe {
        return Placed { report: None, pixels: None };
    }
    let from_stop: u16 = util::get_high16(d.from_stop_id_x_to_stop_id) as u16;
    let to_stop: u16 = util::get_low16(d.from_stop_id_x_to_stop_id) as u16;
    let from: u16 = match vehicle_render::get_mapped(map, from_stop as u32) {
        Some(loc) => loc,
        None => {
            return Placed {
                report: Some(
                    Report::DisruptionFromStopInvalid { disruption_idx, stop: from_stop },
                ),
                pixels: None,
            };
        },
    };
    assert(map@[from_stop as int]@ == Some(from));
    match get_some_stop(to_stop) {
        Some(to_stop) => match vehicle_render::get_mapped(map, to_stop as u32) {
            None => Placed {
                report: Some(Report::DisruptionToStopInvalid { disruption_idx, stop: to_stop }),
                pixels: None,
            },
            Some(to) => {
                assert(map@[to_stop as int]@ == Some(to));
                place_between(product.loc_pix_nodes, disruption_idx, from, to, both)
            },
        },
        None => {
            let hints: u32 = d.direction_hint_from_stop_id_x_to_stop_id;
            let hint_from = get_some_stop(util::get_high16(hints) as u16);
            let hint_to = get_some_stop(util::get_low16(hints) as u16);
            place_at_stop(product.loc_pix_nodes, map, disruption_idx, from, hint_from, hint_to)
        },
    }
}

// ---------------------------------------------------------------------------------------------
// All disruptions
// ---------------------------------------------------------------------------------------------

/// A disruption after it was rendered: if it is not shown, its pixels go dark; if it is, and its
/// pixels or its color changed, it goes over to the new ones; else it stays as it was.
pub open spec fn disruption_after(
    d: RenderedDisruptionView,
    pixels: Option<Seq<u16>>,
    color: RGB8,
    now_instant_ms: u32,
) -> RenderedDisruptionView {
    match pixels {
        None => RenderedDisruptionView {
            prev_rgb: d.cur_rgb,
            cur_rgb: util::spec_black(),
            last_updated_instant_ms: now_instant_ms,
            ..d
        },
        Some(p) => if p != d.pixels || color != d.cur_rgb {
            RenderedDisruptionView {
                pixels: p,
                prev_rgb: d.cur_rgb,
                cur_rgb: color,
                last_updated_instant_ms: now_instant_ms,
                ..d
            }
        } else {
            d
        },
    }
}

fn same_pixels(a: &Vec<u16>, b: &Vec<u16>) -> (r: bool)
    ensures
        r == (a@ == b@),
{
    if a.len() != b.len() {
        return false;
    }
    let mut i: usize = 0;
    while i < a.len()
        invariant
            i <= a@.len(),
            a@.len() == b@.len(),
            forall|j: int| 0 <= j < i ==> a@[j] == b@[j],
        decreases a@.len() - i,
    {
        if a[i] != b[i] {
            return false;
        }
        i = i + 1;
    }
    assert(a@ =~= b@);
    true
}

fn update_disruption(
    d: &RenderedDisruption,
    pixels: Option<Vec<u16>>,
    color: RGB8,
    now_instant_ms: u32,
) -> (r: RenderedDisruption)
    ensures
        r@ == disruption_after(
            d@,
            match pixels {
                Some(p) => Some(p@),
                None => None,
            },
            color,
            now_instant_ms,
        ),
{
    match pixels {
        None => {
            let same = d.duplicate();
            RenderedDisruption {
                pixels: same.pixels,
                prev_rgb: d.cur_rgb,
                cur_rgb: util::black(),
                last_updated_instant_ms: now_instant_ms,
                disruption_id: d.disruption_id,
            }
        },
        Some(p) => if !same_pixels(&p, &d.pixels) || color != d.cur_rgb {
            RenderedDisruption {
                pixels: p,
                prev_rgb: d.cur_rgb,
                cur_rgb: color,
                last_updated_instant_ms: now_instant_ms,
                disruption_id: d.disruption_id,
            }
        } else {
            d.duplicate()
        },
    }
}

/// The pixels of a placement.
pub open spec fn pixels_of(p: Placement) -> Option<Seq<u16>> {
    let (_, pixels) = p;
    pixels
}

/// The report of a placement.
pub open spec fn report_of(p: Placement) -> Option<Report> {
    let (report, _) = p;
    report
}

/// How many of the first `k` disruptions are shown.
pub open spec fn num_visible(
    product: ProductConfig,
    store: TransitDataStore,
    config: DeviceConfig,
    k: nat,
) -> nat
    decreases k,
{
    if k == 0 {
        0
    } else {
        let before = num_visible(product, store, config, (k - 1) as nat);
        if pixels_of(disruption_placed(product, store, config, (k - 1) as usize)) is Some {
            before + 1
        } else {
            before
        }
    }
}

/// What is reported of the first `k` disruptions, in their order.
pub open spec fn disruption_reports(
    product: ProductConfig,
    store: TransitDataStore,
    config: DeviceConfig,
    k: nat,
) -> Seq<Effect>
    decreases k,
{
    if k == 0 {
        Seq::empty()
    } else {
        let before = disruption_reports(product, store, config, (k - 1) as nat);
        match report_of(disruption_placed(product, store, config, (k - 1) as usize)) {
            Some(report) => before.push(Effect::Report(report)),
            None => before,
        }
    }
}

/// The coordinates of the location of a stop, if it has one.
pub open spec fn coord_of_stop(
    nodes: Seq<LocPixNode>,
    map: Seq<NonMax<u16>>,
    stop_id: u16,
) -> Option<Coordinates> {
    match vehicle_render::mapped(map, stop_id as u32) {
        Some(loc) if loc < nodes.len() => Some(
            Coordinates {
                latitude_e7: nodes[loc as int].lat_e7,
                longitude_e7: nodes[loc as int].lng_e7,
            },
        ),
        _ => None,
    }
}

/// The coordinates of the location of a stop, if there is a stop and it has one.
pub open spec fn coord_of_some_stop(
    nodes: Seq<LocPixNode>,
    map: Seq<NonMax<u16>>,
    stop_id: u16,
) -> Option<Coordinates> {
    if stop_id == u16::MAX {
        None
    } else {
        coord_of_stop(nodes, map, stop_id)
    }
}

/// What the server is told of a disruption: nothing without a line or a place.
pub open spec fn disrupted_line(
    nodes: Seq<LocPixNode>,
    store: TransitDataStore,
    d: Disruption,
) -> Option<AvailableDisruptedLine> {
    let line_id = util::high16(d.line_id_x_disruption_id);
    let map = store.state.stop_id_to_loc_id_map@;
    let stops = d.from_stop_id_x_to_stop_id;
    let hints = d.direction_hint_from_stop_id_x_to_stop_id;
    if line_id >= store.data.lines@.len() {
        None
    } else {
        match coord_of_stop(nodes, map, first_stop(stops)) {
            None => None,
            Some(from_coord) => Some(
                AvailableDisruptedLine {
                    line_name: store.data.lines@[line_id as int].name,
                    stop_count: stop_count(d),
                    bidirectional: is_bidirectional(d),
                    entire_line: is_entire_line(d),
                    from_coord,
                    to_coord: coord_of_some_stop(nodes, map, second_stop(stops)),
                    direction_hint_from_coord: coord_of_some_stop(nodes, map, first_stop(hints)),
                    direction_hint_to_coord: coord_of_some_stop(nodes, map, second_stop(hints)),
                    affects_all_lines: affects_all_lines(d),
                },
            ),
        }
    }
}

/// What the server is told of the first `k` disruptions, in their order.
pub open spec fn disrupted_lines(
    nodes: Seq<LocPixNode>,
    store: TransitDataStore,
    k: nat,
) -> Seq<AvailableDisruptedLine>
    decreases k,
{
    if k == 0 {
        Seq::empty()
    } else {
        let before = disrupted_lines(nodes, store, (k - 1) as nat);
        match disrupted_line(nodes, store, store.data.disruptions@[k - 1]) {
            Some(line) => before.push(line),
            None => before,
        }
    }
}

fn get_coord_from_stop_id(
    loc_nodes: &[LocPixNode],
    map: &Vec<NonMax<u16>>,
    stop_id: u16,
) -> (r: Option<Coordinates>)
    ensures
        r == coord_of_stop(loc_nodes@, map@, stop_id),
{
    match vehicle_render::get_mapped(map, stop_id as u32) {
        Some(loc) => if (loc as usize) < loc_nodes.len() {
            let node = &loc_nodes[loc as usize];
            Some(Coordinates { latitude_e7: node.lat_e7, longitude_e7: node.lng_e7 })
        } else {
            None
        },
        None => None,
    }
}

fn get_coord_from_some_stop_id(
    loc_nodes: &[LocPixNode],
    map: &Vec<NonMax<u16>>,
    stop_id: u16,
) -> (r: Option<Coordinates>)
    ensures
        r == coord_of_some_stop(loc_nodes@, map@, stop_id),
{
    match get_some_stop(stop_id) {
        Some(id) => get_coord_from_stop_id(loc_nodes, map, id),
        None => None,
    }
}

fn list_disrupted_lines(loc_nodes: &[LocPixNode], store: &TransitDataStore) -> (r: Vec<
    AvailableDisruptedLine,
>)
    ensures
        r@ == disrupted_lines(loc_nodes@, *store, store.data.disruptions@.len()),
{
    let map = &store.state.stop_id_to_loc_id_map;
    let mut r: Vec<AvailableDisruptedLine> = Vec::new();
    let mut i: usize = 0;
    while i < store.data.disruptions.len()
        invariant
            i <= store.data.disruptions@.len(),
            *map == store.state.stop_id_to_loc_id_map,
            r@ == disrupted_lines(loc_nodes@, *store, i as nat),
        decreases store.data.disruptions@.len() - i,
    {
        let d = &store.data.disruptions[i];
        let line_id: u32 = util::get_high16(d.line_id_x_disruption_id);
        if (line_id as usize) < store.data.lines.len() {
            let stops: u32 = d.from_stop_id_x_to_stop_id;
            let hints: u32 = d.direction_hint_from_stop_id_x_to_stop_id;
            let from_stop: u16 = util::get_high16(stops) as u16;
            if let Some(from_coord) = get_coord_from_stop_id(loc_nodes, map, from_stop) {
                let (bidirectional, entire_line, affects_all_lines, stop_count) = get_flags(d);
                let line = AvailableDisruptedLine {
                    line_name: store.data.lines[line_id as usize].name.clone(),
                    stop_count,
                    bidirectional,
                    entire_line,
                    from_coord,
                    to_coord: get_coord_from_some_stop_id(
                        loc_nodes,
                        map,
                        util::get_low16(stops) as u16,
                    ),
                    direction_hint_from_coord: get_coord_from_some_stop_id(
                        loc_nodes,
                        map,
                        util::get_high16(hints) as u16,
                    ),
                    direction_hint_to_coord: get_coord_from_some_stop_id(
                        loc_nodes,
                        map,
                        util::get_low16(hints) as u16,
                    ),
                    affects_all_lines,
                };
                assert(Some(line) == disrupted_line(
                    loc_nodes@,
                    *store,
                    store.data.disruptions@[i as int],
                ));
                r.push(line);
            }
        }
        i = i + 1;
    }
    r
}

/// Whether `after` is on the pixels of the map if `before` was.
spec fn within_if(
    before: RenderedDisruptionView,
    after: RenderedDisruptionView,
    nodes: Seq<LocPixNode>,
) -> bool {
    forall|n: nat|
        before.within(n) && #[trigger] config::valid_pixels(nodes, n) ==> after.within(n)
}

/// Puts the disruptions on the map, in the given color. Reports what was wrong, and counts.
pub fn render_disruptions(
    product: &ProductConfig,
    store: &mut TransitDataStore,
    config: &DeviceConfig,
    rgb_color: RGB8,
    now_instant_ms: u32,
    fx: &mut Effects,
)
    requires
        config::valid_map(product.loc_pix_nodes@),
        old(store).wf(product.loc_pix_nodes@.len()),
    ensures
        final(store).data == old(store).data,
        final(store).state.stop_id_to_loc_id_map == old(store).state.stop_id_to_loc_id_map,
        final(store).state.renderer_out.vehicles == old(store).state.renderer_out.vehicles,
        final(store).state.rendered_state == (RendererState {
            disruptions_render_pending: false,
            ..old(store).state.rendered_state
        }),
        final(store).state.renderer_out.disruptions@.len() == old(store).state.renderer_out.disruptions@.len(),
        forall|i: int|
            0 <= i < old(store).data.disruptions@.len() ==> (#[trigger] final(store).state.renderer_out.disruptions@[i])@ == disruption_after(
                old(store).state.renderer_out.disruptions@[i]@,
                pixels_of(disruption_placed(*product, *old(store), *config, i as usize)),
                rgb_color,
                now_instant_ms,
            ),
        forall|i: int|
            old(store).data.disruptions@.len() <= i < old(store).state.renderer_out.disruptions@.len() ==> (#[trigger] final(store).state.renderer_out.disruptions@[i]) == old(store).state.renderer_out.disruptions@[i],
        final(store).stats == (TransitDataStats {
            num_disruptions_available: old(store).data.disruptions@.len() as u32,
            num_disruptions_visible: num_visible(
                *product,
                *old(store),
                *config,
                old(store).data.disruptions@.len(),
            ) as u32,
            available_disrupted_lines: final(store).stats.available_disrupted_lines,
            ..old(store).stats
        }),
        final(store).stats.available_disrupted_lines@ == disrupted_lines(
            product.loc_pix_nodes@,
            *old(store),
            old(store).data.disruptions@.len(),
        ),
        final(fx)@ == old(fx)@ + disruption_reports(
            *product,
            *old(store),
            *config,
            old(store).data.disruptions@.len(),
        ),
        forall|n: nat|
            #![trigger final(store).state.renderer_out.within(n)]
            old(store).state.renderer_out.within(n) && config::valid_pixels(
                product.loc_pix_nodes@,
                n,
            ) ==> final(store).state.renderer_out.within(n),
{
    let ghost start = fx@;
    let ghost n = store.data.disruptions@.len();
    let ghost before = store.state.renderer_out.disruptions@;
    let mut updated: Vec<RenderedDisruption> = Vec::new();
    let mut visible: usize = 0;
    let mut i: usize = 0;
    assert(start + Seq::<Effect>::empty() =~= start);
    while i < store.data.disruptions.len()
        invariant
            i <= n,
            n == store.data.disruptions@.len(),
            *store == *old(store),
            before == store.state.renderer_out.disruptions@,
            config::valid_map(product.loc_pix_nodes@),
            store.wf(product.loc_pix_nodes@.len()),
            updated@.len() == i,
            forall|j: int|
                0 <= j < i ==> (#[trigger] updated@[j])@ == disruption_after(
                    before[j]@,
                    pixels_of(disruption_placed(*product, *store, *config, j as usize)),
                    rgb_color,
                    now_instant_ms,
                ),
            forall|j: int|
                0 <= j < i ==> within_if(before[j]@, (#[trigger] updated@[j])@, product.loc_pix_nodes@),
            visible <= i,
            visible == num_visible(*product, *store, *config, i as nat),
            fx@ == start + disruption_reports(*product, *store, *config, i as nat),
        decreases n - i,
    {
        let placed = place_disruption(product, store, config, i);
        proof {
            lemma_placed_as_it_should(placed, disruption_placed(*product, *store, *config, i));
        }
        if placed.pixels.is_some() {
            visible = visible + 1;
        }
        let ghost done = disruption_reports(*product, *store, *config, i as nat);
        if let Some(report) = placed.report {
            fx.push(Effect::Report(report));
            assert((start + done).push(Effect::Report(report)) =~= start + done.push(
                Effect::Report(report),
            ));
        }
        let ghost p = placed.pixels;
        let d = update_disruption(
            &store.state.renderer_out.disruptions[i],
            placed.pixels,
            rgb_color,
            now_instant_ms,
        );
        proof {
            assert forall|n: nat|
                before[i as int]@.within(n) && #[trigger] config::valid_pixels(
                    product.loc_pix_nodes@,
                    n,
                ) implies d@.within(n) by {
                assert(p matches Some(v) ==> forall|i: int|
                    0 <= i < v@.len() ==> (#[trigger] v@[i]) < n);
            }
        }
        updated.push(d);
        i = i + 1;
    }
    let lines = list_disrupted_lines(product.loc_pix_nodes, store);
    let available: usize = store.data.disruptions.len();
    let mut k: usize = updated.len();
    while k > 0
        invariant
            k == updated@.len(),
            k <= n <= before.len(),
            store.data == old(store).data,
            store.stats == old(store).stats,
            store.state.rendered_state == old(store).state.rendered_state,
            store.state.stop_id_to_loc_id_map == old(store).state.stop_id_to_loc_id_map,
            store.state.renderer_out.vehicles == old(store).state.renderer_out.vehicles,
            store.state.renderer_out.disruptions@.len() == before.len(),
            forall|j: int|
                0 <= j < k ==> (#[trigger] updated@[j])@ == disruption_after(
                    before[j]@,
                    pixels_of(disruption_placed(*product, *old(store), *config, j as usize)),
                    rgb_color,
                    now_instant_ms,
                ),
            forall|j: int|
                0 <= j < k ==> within_if(
                    before[j]@,
                    (#[trigger] updated@[j])@,
                    product.loc_pix_nodes@,
                ),
            forall|j: int|
                k <= j < n ==> within_if(
                    before[j]@,
                    (#[trigger] store.state.renderer_out.disruptions@[j])@,
                    product.loc_pix_nodes@,
                ),
            forall|j: int|
                k <= j < n ==> (#[trigger] store.state.renderer_out.disruptions@[j])@
                    == disruption_after(
                    before[j]@,
                    pixels_of(disruption_placed(*product, *old(store), *config, j as usize)),
                    rgb_color,
                    now_instant_ms,
                ),
            forall|j: int|
                n <= j < before.len() ==> (#[trigger] store.state.renderer_out.disruptions@[j])
                    == before[j],
        decreases k,
    {
        k = k - 1;
        if let Some(d) = updated.pop() {
            store.state.renderer_out.disruptions[k] = d;
        }
    }
    proof {
        assert forall|m: nat|
            old(store).state.renderer_out.within(m) && config::valid_pixels(
                product.loc_pix_nodes@,
                m,
            ) implies #[trigger] store.state.renderer_out.within(m) by {
            assert forall|j: int| 0 <= j < before.len() implies (
            #[trigger] store.state.renderer_out.disruptions@[j])@.within(m) by {
                assert(before[j]@.within(m));
            }
        }
    }
    store.stats.num_disruptions_available = available as u32;
    store.stats.num_disruptions_visible = visible as u32;
    store.state.rendered_state.disruptions_render_pending = false;
    store.stats.available_disrupted_lines = lines;
}

// ---------------------------------------------------------------------------------------------
// Laws
// ---------------------------------------------------------------------------------------------

/// Joining the pixels of a second path keeps those of the first, adds all of the second, and
/// repeats none of them.
pub proof fn lemma_with_pixels(pixels: Seq<u16>, more: Seq<u16>, k: nat)
    requires
        k <= more.len(),
    ensures
        ({
            let all = with_pixels(pixels, more, k);
            &&& all.len() >= pixels.len()
            &&& all.take(pixels.len() as int) == pixels
            &&& forall|i: int| 0 <= i < k ==> all.contains(#[trigger] more[i])
            &&& forall|i: int| 0 <= i < all.len() ==> pixels.contains(#[trigger] all[i])
                || more.contains(all[i])
            &&& pixels.no_duplicates() ==> all.no_duplicates()
        }),
    decreases k,
{
    if k == 0 {
        assert(pixels.take(pixels.len() as int) =~= pixels);
    } else {
        lemma_with_pixels(pixels, more, (k - 1) as nat);
        let before = with_pixels(pixels, more, (k - 1) as nat);
        let all = with_pixels(pixels, more, k);
        let new = more[k - 1];
        assert(all.take(pixels.len() as int) =~= before.take(pixels.len() as int));
        assert(more.contains(new));
        assert forall|i: int| 0 <= i < k implies all.contains(#[trigger] more[i]) by {
            if i < k - 1 {
                assert(before.contains(more[i]));
                let j = choose|j: int| 0 <= j < before.len() && before[j] == more[i];
                assert(all[j] == more[i]);
            } else if !before.contains(new) {
                assert(all[before.len() as int] == new);
            }
        }
        assert forall|i: int| 0 <= i < all.len() implies pixels.contains(#[trigger] all[i])
            || more.contains(all[i]) by {
            if i < before.len() {
                assert(all[i] == before[i]);
            }
        }
        if pixels.no_duplicates() && !before.contains(new) {
            assert forall|i: int, j: int|
                0 <= i < all.len() && 0 <= j < all.len() && i != j implies all[i] != all[j] by {
                if i < before.len() {
                    assert(before.contains(before[i]));
                }
                if j < before.len() {
                    assert(before.contains(before[j]));
                }
            }
        }
    }
}

/// Rendering a disruption again as it is leaves it as it is.
pub proof fn lemma_render_again(
    d: RenderedDisruptionView,
    pixels: Seq<u16>,
    color: RGB8,
    first_ms: u32,
    later_ms: u32,
)
    ensures
        ({
            let once = disruption_after(d, Some(pixels), color, first_ms);
            disruption_after(once, Some(pixels), color, later_ms) == once
        }),
{
}

/// The highest bit of a disruption's word is set if both directions are disrupted, the next one if
/// the whole line is, and the third if all lines on the route are. The rest counts the stops.
pub proof fn lemma_disruption_word(d: Disruption)
    ensures
        ({
            let bit = |set: bool|
                if set {
                    1int
                } else {
                    0
                };
            &&& bit(is_bidirectional(d)) * 0x8000_0000 + bit(is_entire_line(d)) * 0x4000_0000 + bit(
                affects_all_lines(d),
            ) * 0x2000_0000 + stop_count(d)
                == d.bidirectional_x_entire_line_x_affects_all_lines_x_stop_count
            &&& stop_count(d) < 0x2000_0000
        }),
{
    let word = d.bidirectional_x_entire_line_x_affects_all_lines_x_stop_count;
    assert(word / 0x8000_0000 < 2);
    assert(word / 0x4000_0000 == word / 0x8000_0000 * 2 + word / 0x4000_0000 % 2);
    assert(word / 0x2000_0000 == word / 0x4000_0000 * 2 + word / 0x2000_0000 % 2);
}

/// A disruption that affects all lines is placed the same with every filter. One that does not is
/// left out with the filter for severe ones, without a report once its line is known, and placed
/// the same with every other filter.
pub proof fn lemma_severe_filter(
    product: ProductConfig,
    store: TransitDataStore,
    config: DeviceConfig,
    other: DisruptionFilter,
    disruption_idx: usize,
)
    ensures
        ({
            let d = store.data.disruptions@[disruption_idx as int];
            let all_lines = d.bidirectional_x_entire_line_x_affects_all_lines_x_stop_count as int
                / 0x2000_0000 % 2 == 1;
            let placed_with = |filter: DisruptionFilter|
                disruption_placed(
                    product,
                    store,
                    DeviceConfig { disruption_filter: filter, ..config },
                    disruption_idx,
                );
            let (report, pixels) = placed_with(DisruptionFilter::Severe);
            let (any_report, any_pixels) = placed_with(DisruptionFilter::All);
            &&& all_lines ==> placed_with(DisruptionFilter::Severe) == placed_with(
                DisruptionFilter::All,
            )
            &&& other != DisruptionFilter::Severe ==> placed_with(other) == placed_with(
                DisruptionFilter::All,
            )
            &&& !all_lines ==> pixels is None
            &&& !all_lines && any_pixels is Some ==> report is None
            &&& any_pixels is Some && pixels is None ==> !all_lines
            &&& any_report is Some && report is None ==> !all_lines
        }),
{
}

/// Whether a pixel is one of a path.
pub open spec fn is_pixel_of(path: Seq<LocPixEdgeDirected>, pixel: u16) -> bool {
    exists|i: int| 0 <= i < path.len() && (#[trigger] path[i]).from_pix == pixel
}

/// Whether `pixels` are the pixels of `there`, and of `back` if there is such a path.
pub open spec fn are_pixels_of(
    pixels: Seq<u16>,
    there: Seq<LocPixEdgeDirected>,
    back: Option<Seq<LocPixEdgeDirected>>,
) -> bool {
    &&& forall|i: int| 0 <= i < there.len() ==> pixels.contains((#[trigger] there[i]).from_pix)
    &&& back matches Some(b) ==> forall|i: int|
        0 <= i < b.len() ==> pixels.contains((#[trigger] b[i]).from_pix)
    &&& forall|j: int|
        0 <= j < pixels.len() ==> is_pixel_of(there, #[trigger] pixels[j]) || (back matches Some(b)
            && is_pixel_of(b, pixels[j]))
}

/// Whether `pixels` are those of a shortest path from `from` to `to`, and of one back if `both`.
pub open spec fn are_pixels_between(
    nodes: Seq<LocPixNode>,
    pixels: Seq<u16>,
    from: u16,
    to: u16,
    both: bool,
) -> bool {
    exists|there: Seq<LocPixEdgeDirected>, back: Option<Seq<LocPixEdgeDirected>>|
        routes::is_shortest_path(nodes, from, to, there) && (back is Some <==> both) && (
        back matches Some(b) ==> routes::is_shortest_path(nodes, to, from, b))
            && #[trigger] are_pixels_of(pixels, there, back)
}

/// Whether `pixel` is where a shortest path from `from` to `to` begins.
pub open spec fn begins_path(nodes: Seq<LocPixNode>, pixel: u16, from: u16, to: u16) -> bool {
    exists|path: Seq<LocPixEdgeDirected>| #[trigger]
        routes::is_shortest_path(nodes, from, to, path) && path.len() > 0 && path[0].from_pix
            == pixel
}

/// A disruption is shown between the two stops of its words, on the pixels of a shortest path from
/// the first to the second, and of one back if its highest bit is set. Without a second stop it is
/// shown on the one pixel where trains leave the first: toward the second stop of its direction, or
/// without that one, on their way to it from the first stop of its direction.
pub proof fn lemma_disruption_between_its_stops(
    product: ProductConfig,
    store: TransitDataStore,
    config: DeviceConfig,
    disruption_idx: usize,
)
    requires
        config::valid_map(product.loc_pix_nodes@),
        store.wf(product.loc_pix_nodes@.len()),
        disruption_idx < store.data.disruptions@.len(),
    ensures
        ({
            let d = store.data.disruptions@[disruption_idx as int];
            let nodes = product.loc_pix_nodes@;
            let map = store.state.stop_id_to_loc_id_map@;
            let first = util::high16(d.from_stop_id_x_to_stop_id) as int;
            let second = util::low16(d.from_stop_id_x_to_stop_id) as int;
            let toward = util::low16(d.direction_hint_from_stop_id_x_to_stop_id) as int;
            let coming = util::high16(d.direction_hint_from_stop_id_x_to_stop_id) as int;
            let both = d.bidirectional_x_entire_line_x_affects_all_lines_x_stop_count
                >= 0x8000_0000;
            let (report, pixels) = disruption_placed(product, store, config, disruption_idx);
            pixels matches Some(p) ==> {
                &&& report is None
                &&& first < map.len() && map[first]@ is Some
                &&& second != 0xFFFF ==> {
                    &&& second < map.len() && map[second]@ is Some
                    &&& are_pixels_between(nodes, p, map[first]@->0, map[second]@->0, both)
                }
                &&& second == 0xFFFF && toward != 0xFFFF ==> {
                    &&& p.len() == 1
                    &&& toward < map.len() && map[toward]@ is Some
                    &&& begins_path(nodes, p[0], map[first]@->0, map[toward]@->0)
                }
                &&& second == 0xFFFF && toward == 0xFFFF ==> {
                    &&& p.len() == 1
                    &&& coming < map.len() && map[coming]@ is Some
                    &&& begins_path(nodes, p[0], map[coming]@->0, map[first]@->0)
                }
            }
        }),
{
    let d = store.data.disruptions@[disruption_idx as int];
    let nodes = product.loc_pix_nodes@;
    let map = store.state.stop_id_to_loc_id_map@;
    let (first, second) = (
        first_stop(d.from_stop_id_x_to_stop_id),
        second_stop(d.from_stop_id_x_to_stop_id),
    );
    let (coming, toward) = (
        first_stop(d.direction_hint_from_stop_id_x_to_stop_id),
        second_stop(d.direction_hint_from_stop_id_x_to_stop_id),
    );
    let word = d.bidirectional_x_entire_line_x_affects_all_lines_x_stop_count;
    assert((word / 0x8000_0000 % 2 == 1) == (word >= 0x8000_0000));
    let (cap, path_cap) = (MAX_OPEN_NODES as nat, MAX_PATH_LEN as nat);
    let (_, pixels) = disruption_placed(product, store, config, disruption_idx);
    if let Some(p) = pixels {
        let from = map[first as int]@->0;
        assert(map[first as int]@ == Some(from));
        if second != u16::MAX {
            let to = map[second as int]@->0;
            assert(map[second as int]@ == Some(to));
            let both = is_bidirectional(d);
            lemma_placed_on_shortest_paths(nodes, disruption_idx, from, to, both);
            let there = path_between(nodes, from, to)->Ok_0;
            let back = path_between(nodes, to, from)->Ok_0;
            let a = path_pixels(there);
            let b = path_pixels(back);
            let opt = if both {
                Some(back)
            } else {
                None
            };
            assert forall|i: int| 0 <= i < there.len() implies p.contains(
                (#[trigger] there[i]).from_pix,
            ) by {
                assert(a[i] == there[i].from_pix);
                assert(a.contains(a[i]));
            }
            if both {
                assert forall|i: int| 0 <= i < back.len() implies p.contains(
                    (#[trigger] back[i]).from_pix,
                ) by {
                    assert(b[i] == back[i].from_pix);
                    assert(b.contains(b[i]));
                }
            }
            assert forall|j: int| 0 <= j < p.len() implies is_pixel_of(there, #[trigger] p[j]) || (
            opt matches Some(q) && is_pixel_of(q, p[j])) by {
                assert(p.contains(p[j]));
                if a.contains(p[j]) {
                    let i = a.index_of(p[j]);
                    assert(a[i] == there[i].from_pix);
                } else {
                    let i = b.index_of(p[j]);
                    assert(b[i] == back[i].from_pix);
                }
            }
            assert(are_pixels_of(p, there, opt));
        } else if toward != u16::MAX {
            let to = map[toward as int]@->0;
            assert(map[toward as int]@ == Some(to));
            ways::lemma_search_result(nodes, from, to, cap, path_cap);
            let path = path_between(nodes, from, to)->Ok_0;
            assert(routes::is_shortest_path(nodes, from, to, path));
            assert(routes::path_locs(path).len() > 0);
        } else {
            let to = map[coming as int]@->0;
            assert(map[coming as int]@ == Some(to));
            ways::lemma_search_result(nodes, to, from, cap, path_cap);
            let path = path_between(nodes, to, from)->Ok_0;
            assert(routes::is_shortest_path(nodes, to, from, path));
            assert(routes::path_locs(path).len() > 0);
        }
    }
}

/// A disruption of a line that the user has turned off is left out without a report. No other is,
/// but for the filter for severe ones; what is reported of a disruption is so.
pub proof fn lemma_disruption_reports_are_true(
    product: ProductConfig,
    store: TransitDataStore,
    config: DeviceConfig,
    disruption_idx: usize,
)
    ensures
        ({
            let d = store.data.disruptions@[disruption_idx as int];
            let map = store.state.stop_id_to_loc_id_map@;
            let line = util::high16(d.line_id_x_disruption_id);
            let name = store.data.lines@[line as int].name@;
            let first = util::high16(d.from_stop_id_x_to_stop_id);
            let second = util::low16(d.from_stop_id_x_to_stop_id);
            let (report, pixels) = disruption_placed(product, store, config, disruption_idx);
            &&& pixels is Some ==> report is None && line < store.data.lines@.len()
            &&& forall|c: int|
                0 <= c < config.line_configs@.len() && line < store.data.lines@.len()
                    && config.line_configs@[c].line_name@ == name && (forall|j: int|
                    0 <= j < c ==> (#[trigger] config.line_configs@[j]).line_name@ != name)
                    && (#[trigger] config.line_configs@[c]).has_override
                    && !config.line_configs@[c].enabled ==> pixels is None && report is None
            &&& config.disruption_filter != DisruptionFilter::Severe && (forall|c: int|
                0 <= c < config.line_configs@.len() && (
                #[trigger] config.line_configs@[c]).has_override ==> config.line_configs@[c].enabled)
                ==> (pixels is Some <==> report is None)
            &&& match report {
                Some(Report::DisruptionLineInvalid { disruption_idx: i, line_id }) => i
                    == disruption_idx && line_id == line && line >= store.data.lines@.len(),
                Some(Report::DisruptionLineWithoutConfig { disruption_idx: i, line_id }) => {
                    &&& i == disruption_idx && line_id == line
                    &&& forall|c: int|
                        0 <= c < config.line_configs@.len() ==> (
                        #[trigger] config.line_configs@[c]).line_name@ != name
                },
                Some(Report::DisruptionFromStopInvalid { disruption_idx: i, stop }) => {
                    &&& i == disruption_idx && stop == first
                    &&& first >= map.len() || map[first as int]@ is None
                },
                Some(Report::DisruptionToStopInvalid { disruption_idx: i, stop }) => {
                    &&& i == disruption_idx && stop == second && second != 0xFFFF
                    &&& second >= map.len() || map[second as int]@ is None
                },
                Some(Report::DisruptionWithoutDirection { disruption_idx: i }) => {
                    &&& i == disruption_idx && second == 0xFFFF
                    &&& d.direction_hint_from_stop_id_x_to_stop_id == 0xFFFF_FFFF
                },
                Some(Report::DisruptionDirectionStopInvalid { disruption_idx: i, stop }) => {
                    &&& i == disruption_idx && second == 0xFFFF
                    &&& stop >= map.len() || map[stop as int]@ is None
                },
                Some(Report::DisruptionWithoutPath { disruption_idx: i, route, .. }) => {
                    &&& i == disruption_idx
                    &&& map[first as int]@ == Some(route.from_loc_id)
                    &&& map[second as int]@ == Some(route.to_loc_id)
                },
                Some(Report::DisruptionWithoutReversePath { disruption_idx: i, route, .. }) => {
                    &&& i == disruption_idx
                    &&& map[first as int]@ == Some(route.from_loc_id)
                    &&& map[second as int]@ == Some(route.to_loc_id)
                    &&& d.bidirectional_x_entire_line_x_affects_all_lines_x_stop_count
                        >= 0x8000_0000
                },
                Some(Report::DisruptionWithoutDirectedPath { disruption_idx: i, .. }) => i
                    == disruption_idx && second == 0xFFFF,
                Some(_) => false,
                None => true,
            }
        }),
{
    let d = store.data.disruptions@[disruption_idx as int];
    let line = util::high16(d.line_id_x_disruption_id);
    let name = store.data.lines@[line as int].name@;
    let word = d.bidirectional_x_entire_line_x_affects_all_lines_x_stop_count;
    assert((word / 0x8000_0000 % 2 == 1) == (word >= 0x8000_0000));
    transit_data::lemma_config_found(config.line_configs@, name, 0);
    assert forall|c: int|
        0 <= c < config.line_configs@.len() && config.line_configs@[c].line_name@ == name && (
        forall|j: int|
            0 <= j < c ==> (#[trigger] config.line_configs@[j]).line_name@ != name)
            && (#[trigger] config.line_configs@[c]).has_override implies
        transit_data::config_of_line(config.line_configs@, name, 0) == Some(c as nat) by {
        if let Some(i) = transit_data::config_of_line(config.line_configs@, name, 0) {
            assert(i < c ==> config.line_configs@[i as int].line_name@ != name);
            assert(c < i ==> config.line_configs@[c].line_name@ != name);
        }
    }
}

/// A disruption that is shown has its pixels and its color, and one that is not has no color. It is
/// left as it was exactly if it has them already; else it goes over from the color that it had. Its
/// number stays the same.
pub proof fn lemma_disruption_has_its_pixels(
    d: RenderedDisruptionView,
    pixels: Option<Seq<u16>>,
    color: RGB8,
    now_ms: u32,
)
    ensures
        ({
            let after = disruption_after(d, pixels, color, now_ms);
            &&& after.disruption_id == d.disruption_id
            &&& after == d || (after.prev_rgb == d.cur_rgb && after.last_updated_instant_ms
                == now_ms)
            &&& match pixels {
                Some(p) => {
                    &&& after.pixels == p && after.cur_rgb == color
                    &&& p == d.pixels && color == d.cur_rgb ==> after == d
                    &&& p != d.pixels || color != d.cur_rgb ==> after.prev_rgb == d.cur_rgb
                        && after.last_updated_instant_ms == now_ms
                },
                None => {
                    &&& after.pixels == d.pixels
                    &&& after.cur_rgb == (RGB8 { r: 0, g: 0, b: 0 })
                    &&& after.prev_rgb == d.cur_rgb && after.last_updated_instant_ms == now_ms
                },
            }
        }),
{
}

/// Each disruption that has pixels counts as shown once, and what is reported of it comes after what
/// is reported of those before it.
pub proof fn lemma_each_disruption_counts_once(
    product: ProductConfig,
    store: TransitDataStore,
    config: DeviceConfig,
    k: nat,
)
    requires
        k < usize::MAX,
    ensures
        num_visible(product, store, config, 0) == 0,
        disruption_reports(product, store, config, 0).len() == 0,
        ({
            let (report, pixels) = disruption_placed(product, store, config, k as usize);
            &&& num_visible(product, store, config, k + 1) - num_visible(product, store, config, k)
                == (if pixels is Some {
                1int
            } else {
                0
            })
            &&& disruption_reports(product, store, config, k + 1) == disruption_reports(
                product,
                store,
                config,
                k,
            ) + (match report {
                Some(report) => seq![Effect::Report(report)],
                None => Seq::empty(),
            })
        }),
{
    let before = disruption_reports(product, store, config, k);
    let (report, _) = disruption_placed(product, store, config, k as usize);
    if let Some(report) = report {
        assert(before.push(Effect::Report(report)) =~= before + seq![Effect::Report(report)]);
    } else {
        assert(before + Seq::<Effect>::empty() =~= before);
    }
}

/// What the server is told of a disruption: its line by name, its flags and its stop count as in
/// its word, and the places of its stops and of the stops of its direction, as far as they are on
/// the map. One whose line is not in the data, or whose first stop is not on the map, is left out.
pub proof fn lemma_disrupted_line(
    nodes: Seq<LocPixNode>,
    store: TransitDataStore,
    d: Disruption,
)
    ensures
        ({
            let line_id = util::high16(d.line_id_x_disruption_id) as int;
            let word = d.bidirectional_x_entire_line_x_affects_all_lines_x_stop_count as int;
            let stops = d.from_stop_id_x_to_stop_id;
            let hints = d.direction_hint_from_stop_id_x_to_stop_id;
            let map = store.state.stop_id_to_loc_id_map@;
            let is_on_map = |stop: u32|
                stop < map.len() && map[stop as int]@ is Some && map[stop as int]@->0 < nodes.len();
            let is_at = |c: Coordinates, stop: u32|
                c.latitude_e7 == nodes[map[stop as int]@->0 as int].lat_e7 && c.longitude_e7
                    == nodes[map[stop as int]@->0 as int].lng_e7;
            let is_place = |c: Option<Coordinates>, stop: u32|
                match c {
                    Some(c) => stop != 0xFFFF && is_on_map(stop) && is_at(c, stop),
                    None => stop == 0xFFFF || !is_on_map(stop),
                };
            match disrupted_line(nodes, store, d) {
                Some(line) => {
                    &&& line_id < store.data.lines@.len()
                    &&& line.line_name@ == store.data.lines@[line_id].name@
                    &&& line.bidirectional == (word >= 0x8000_0000)
                    &&& line.entire_line == (word % 0x8000_0000 >= 0x4000_0000)
                    &&& line.affects_all_lines == (word % 0x4000_0000 >= 0x2000_0000)
                    &&& line.stop_count == word % 0x2000_0000
                    &&& is_on_map(util::high16(stops)) && is_at(
                        line.from_coord,
                        util::high16(stops),
                    )
                    &&& is_place(line.to_coord, util::low16(stops))
                    &&& is_place(line.direction_hint_from_coord, util::high16(hints))
                    &&& is_place(line.direction_hint_to_coord, util::low16(hints))
                },
                None => line_id >= store.data.lines@.len() || !is_on_map(util::high16(stops)),
            }
        }),
{
    let word = d.bidirectional_x_entire_line_x_affects_all_lines_x_stop_count as int;
    assert((word / 0x8000_0000 % 2 == 1) == (word >= 0x8000_0000));
    assert((word / 0x4000_0000 % 2 == 1) == (word % 0x8000_0000 >= 0x4000_0000));
    assert((word / 0x2000_0000 % 2 == 1) == (word % 0x4000_0000 >= 0x2000_0000));
}

/// What the server is told of disruptions comes in their order, and leaves those out that it is told
/// nothing of.
pub proof fn lemma_disrupted_lines_in_order(
    nodes: Seq<LocPixNode>,
    store: TransitDataStore,
    k: nat,
)
    ensures
        disrupted_lines(nodes, store, 0).len() == 0,
        disrupted_lines(nodes, store, k + 1) == disrupted_lines(nodes, store, k) + (
        match disrupted_line(nodes, store, store.data.disruptions@[k as int]) {
            Some(line) => seq![line],
            None => Seq::empty(),
        }),
{
    let before = disrupted_lines(nodes, store, k);
    assert(before + Seq::<AvailableDisruptedLine>::empty() =~= before);
    if let Some(line) = disrupted_line(nodes, store, store.data.disruptions@[k as int]) {
        assert(before.push(line) =~= before + seq![line]);
    }
}

/// What is computed for a disruption is reported as it should be, and has pixels exactly if it
/// should, those.
proof fn lemma_placed_as_it_should(placed: Placed, placement: Placement)
    requires
        placed.is(placement),
    ensures
        placed.report == placement.0,
        placed.pixels is Some <==> placement.1 is Some,
        placed.pixels matches Some(pixels) ==> placement.1 == Some(pixels@),
{
}

} // verus!

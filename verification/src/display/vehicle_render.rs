//! Which pixel shows a vehicle, and in which color.

use vstd::prelude::*;

use crate::config;
use crate::config::{LocPixNode, ProductConfig};
use crate::display::colors;
use crate::display::colors::{ColorPlan, Hsv};
use crate::display::path_find;
use crate::display::path_find::{LocPixEdgeDirected, PathFindError};
use crate::display::renderer::{PixelState, RenderedVehicle};
use crate::display::routes;
use crate::display::vehicle_motion;
use crate::display::vehicle_motion::{VehicleFix, VehicleLocated};
use crate::display::ways;
use crate::effects::{Effect, Effects};
use crate::net::ws_client;
use crate::net::ws_client::WsClientNotify;
use crate::proto::{
    AvailableVehicleLine, ColorMode, DeviceConfig, Line, LineConfig, RealtimeFilter, Segment,
    VehicleFilter, VehicleMovement,
};
use crate::store::transit_data;
use crate::store::transit_data::{TransitDataStats, TransitDataStore};
use crate::trace::{Report, Route};
use crate::util;
use crate::util::{NonMax, RGB8};

verus! {

/// The longest path between two stops that vehicles are placed on.
pub const MAX_PATH_LEN: usize = 8;

/// The most nodes on the open list of a search for such a path.
pub const MAX_OPEN_NODES: usize = 32;

/// A vehicle that waits at the end of a segment without a known wait time is taken to do so for
/// this long.
pub const MIN_MISSING_WAIT_TIME_SECONDS: u32 = 30;

/// How a vehicle is shown.
#[derive(Debug, Copy, Clone, PartialEq, Eq, Structural)]
pub struct VehicleShown {
    pub pixel: u16,
    pub color: ColorPlan,
    pub brightness_percent: u32,
    /// Whether the delay of the vehicle is known.
    pub real_time: bool,
}

/// Whether a vehicle is shown, and what was wrong if something was.
#[derive(Debug, Copy, Clone, PartialEq, Eq, Structural)]
pub struct VehiclePlaced {
    pub report: Option<Report>,
    pub shown: Option<VehicleShown>,
}

impl VehiclePlaced {
    /// Whether the pixel, if there is one, is a pixel of the product, given that the pixels of its
    /// map are.
    pub open spec fn within(self, product: ProductConfig) -> bool {
        config::valid_pixels(product.loc_pix_nodes@, product.pixel_count as nat) ==> (
        self.shown matches Some(s) ==> s.pixel < product.pixel_count)
    }
}

// ---------------------------------------------------------------------------------------------
// What a vehicle's segment says
// ---------------------------------------------------------------------------------------------

/// Whether a vehicle counts as moving: it moves toward a known wait, or it has been in a segment
/// without one for less than all but the last seconds.
pub open spec fn counts_as_moving(segment: Segment, progress: int) -> bool {
    let move_secs = util::high16(segment.move_seconds_x_wait_seconds);
    let wait_secs = util::low16(segment.move_seconds_x_wait_seconds);
    if wait_secs > 0 {
        progress < move_secs
    } else {
        progress < move_secs - MIN_MISSING_WAIT_TIME_SECONDS
    }
}

/// The delay of a vehicle in seconds, if it is known.
pub open spec fn delay_of(segment: Segment) -> Option<i16> {
    let delay = segment.delayed_seconds_x_average_speed_kmph as int / 0x10000;
    if delay == i16::MAX {
        None
    } else {
        Some(delay as i16)
    }
}

/// The average speed of a vehicle.
pub open spec fn speed_of(segment: Segment) -> int {
    segment.delayed_seconds_x_average_speed_kmph as int % 0x10000
}

fn get_delay(segment: &Segment) -> (d: Option<i16>)
    ensures
        d == delay_of(*segment),
{
    let word: i32 = segment.delayed_seconds_x_average_speed_kmph;
    assert(word >> 16 == word / 0x10000) by (bit_vector);
    NonMax::new_unchecked((word >> 16) as i16).as_option()
}

fn get_speed(segment: &Segment) -> (s: i32)
    ensures
        s == speed_of(*segment),
        0 <= s <= 0xFFFF,
{
    let word: i32 = segment.delayed_seconds_x_average_speed_kmph;
    assert(word & 0xFFFF == word % 0x10000) by (bit_vector);
    word & 0xFFFF
}

// ---------------------------------------------------------------------------------------------
// What the configuration says
// ---------------------------------------------------------------------------------------------

/// Whether a line is shown.
pub open spec fn line_enabled(line_config: LineConfig) -> bool {
    line_config.has_override ==> line_config.enabled
}

/// The color of a line.
pub open spec fn line_color(line: Line, line_config: LineConfig) -> RGB8 {
    if line_config.has_override {
        util::unpacked_rgb8(line_config.override_color_rgb8)
    } else {
        util::unpacked_rgb8(line.color_rgb8)
    }
}

/// The brightness of a line.
pub open spec fn line_brightness(line_config: LineConfig) -> u32 {
    if line_config.has_override && line_config.brightness_percent < 100 {
        line_config.brightness_percent
    } else {
        100
    }
}

/// `x`, but no less than `low` and no more than `high`.
pub open spec fn clamped(x: int, low: int, high: int) -> int {
    if x < low {
        low
    } else if x > high {
        high
    } else {
        x
    }
}

/// The larger one of two numbers.
pub open spec fn larger(a: int, b: int) -> int {
    if a >= b {
        a
    } else {
        b
    }
}

/// The blend of the two configured colors at `x` between `low` and `high`.
pub open spec fn heat(config: DeviceConfig, x: int, low: int, high: int, reversed: bool) -> ColorPlan {
    ColorPlan::Blend {
        from: colors::hsv_of(util::unpacked_rgb8(config.primary_color_rgb8)),
        to: colors::hsv_of(util::unpacked_rgb8(config.secondary_color_rgb8)),
        part: (clamped(x, low, high) - low) as u64,
        whole: (high - low) as u64,
        reversed,
    }
}

/// How the color of a vehicle comes about.
pub open spec fn color_plan(
    config: DeviceConfig,
    lines: nat,
    line_id: u32,
    line_color: RGB8,
    segment: Segment,
) -> ColorPlan {
    match config.color_mode {
        ColorMode::Original => ColorPlan::Fixed(line_color),
        ColorMode::Monochrome => ColorPlan::Fixed(util::unpacked_rgb8(config.primary_color_rgb8)),
        ColorMode::RangeSpacedApart => heat(
            config,
            line_id as int,
            0,
            larger(lines as int, 1),
            false,
        ),
        ColorMode::DelayHeatmap => match delay_of(segment) {
            Some(delay) => {
                let low = larger(config.min_delay_minutes as i32 as int, 0) * 60;
                let high = larger(config.max_delay_minutes as i32 * 60, low + 1);
                heat(config, delay as int, low, high, false)
            },
            None => ColorPlan::Fixed(util::unpacked_rgb8(config.tertiary_color_rgb8)),
        },
        ColorMode::SpeedHeatmap => {
            let low = config.min_speed_kmph as i32 as int;
            let high = larger(config.max_speed_kmph as i32 as int, low + 1);
            heat(config, speed_of(segment), low, high, true)
        },
        ColorMode::Unknown(_) => ColorPlan::Fixed(line_color),
    }
}

fn clamp(x: i128, low: i128, high: i128) -> (r: i128)
    requires
        low <= high,
    ensures
        r == clamped(x as int, low as int, high as int),
{
    if x < low {
        low
    } else if x > high {
        high
    } else {
        x
    }
}

fn get_heat(config: &DeviceConfig, x: i128, low: i128, high: i128, reversed: bool) -> (p: ColorPlan)
    requires
        low < high,
        high - low <= u64::MAX,
    ensures
        p == heat(*config, x as int, low as int, high as int, reversed),
{
    let from: Hsv = colors::rgb2hsv(util::rgb8_from_packed(config.primary_color_rgb8));
    let to: Hsv = colors::rgb2hsv(util::rgb8_from_packed(config.secondary_color_rgb8));
    let part: i128 = clamp(x, low, high) - low;
    ColorPlan::Blend { from, to, part: part as u64, whole: (high - low) as u64, reversed }
}

fn plan_color(
    config: &DeviceConfig,
    lines: usize,
    line_id: u32,
    line_color: RGB8,
    segment: &Segment,
) -> (p: ColorPlan)
    ensures
        p == color_plan(*config, lines as nat, line_id, line_color, *segment),
{
    match config.color_mode {
        ColorMode::Original => ColorPlan::Fixed(line_color),
        ColorMode::Monochrome => ColorPlan::Fixed(util::rgb8_from_packed(config.primary_color_rgb8)),
        ColorMode::RangeSpacedApart => {
            let whole: i128 = if lines >= 1 {
                lines as i128
            } else {
                1
            };
            get_heat(config, line_id as i128, 0, whole, false)
        },
        ColorMode::DelayHeatmap => match get_delay(segment) {
            Some(delay) => {
                let min_minutes: i32 = config.min_delay_minutes as i32;
                let max_minutes: i32 = config.max_delay_minutes as i32;
                let low: i128 = if min_minutes >= 0 {
                    min_minutes as i128 * 60
                } else {
                    0
                };
                let max_secs: i128 = max_minutes as i128 * 60;
                let high: i128 = if max_secs >= low + 1 {
                    max_secs
                } else {
                    low + 1
                };
                get_heat(config, delay as i128, low, high, false)
            },
            None => ColorPlan::Fixed(util::rgb8_from_packed(config.tertiary_color_rgb8)),
        },
        ColorMode::SpeedHeatmap => {
            let low: i128 = config.min_speed_kmph as i32 as i128;
            let max: i128 = config.max_speed_kmph as i32 as i128;
            let high: i128 = if max >= low + 1 {
                max
            } else {
                low + 1
            };
            get_heat(config, get_speed(segment) as i128, low, high, true)
        },
        ColorMode::Unknown(_) => ColorPlan::Fixed(line_color),
    }
}

// ---------------------------------------------------------------------------------------------
// The pixel
// ---------------------------------------------------------------------------------------------

/// Squared distance in meters between a coordinate and a location. A degree times 10^-7 is about
/// 729 / 2^16 meters, shrunk from east to west by the cosine of the latitude, which is given times
/// 2^15.
pub open spec fn dist_sq_meters(lat: int, lng: int, loc: LocPixNode, cos_lat_q15: int) -> int {
    let dy = ((loc.lat_e7 - lat) * 729) / 0x1_0000;
    let dx = ((loc.lng_e7 - lng) * 729 * cos_lat_q15) / 0x8000_0000;
    dx * dx + dy * dy
}

pub fn approx_dist_sq_meters_e7(
    lat1_e7: i32,
    lng1_e7: i32,
    lat2_e7: i32,
    lng2_e7: i32,
    cos_lat_q15: i16,
) -> (d: i64)
    ensures
        forall|loc: LocPixNode|
            loc.lat_e7 == lat2_e7 && loc.lng_e7 == lng2_e7 ==> d == #[trigger] dist_sq_meters(
                lat1_e7 as int,
                lng1_e7 as int,
                loc,
                cos_lat_q15 as int,
            ),
        0 <= d,
{
    let dlat: i64 = lat2_e7 as i64 - lat1_e7 as i64;
    let dlng: i64 = lng2_e7 as i64 - lng1_e7 as i64;
    let cos: i64 = cos_lat_q15 as i64;
    let north: i64 = dlat * 729;
    let wide: i64 = dlng * 729;
    assert(-0x1_0000_0000 * 729 * 0x8000 <= wide * cos <= 0x1_0000_0000 * 729 * 0x8000)
        by (nonlinear_arith)
        requires
            -0x1_0000_0000 * 729 <= wide <= 0x1_0000_0000 * 729,
            -0x8000 <= cos <= 0x8000,
    ;
    let east: i64 = wide * cos;
    assert(north >> 16 == north / 0x1_0000) by (bit_vector);
    assert(east >> 31 == east / 0x8000_0000) by (bit_vector);
    let dy: i64 = north >> 16;
    let dx: i64 = east >> 31;
    assert(0 <= dx * dx <= 0x400_0000 * 0x400_0000) by (nonlinear_arith)
        requires
            -0x400_0000 <= dx <= 0x400_0000,
    ;
    assert(0 <= dy * dy <= 0x400_0000 * 0x400_0000) by (nonlinear_arith)
        requires
            -0x400_0000 <= dy <= 0x400_0000,
    ;
    dx * dx + dy * dy
}

/// Whether a location is near enough to be taken.
pub open spec fn near_enough(config: DeviceConfig, d: int) -> bool {
    config.vehicle_filter == VehicleFilter::WithinDistance ==> d
        <= config.vehicle_distance_threshold_meters * config.vehicle_distance_threshold_meters
}

/// The closest of the first `k` locations of a path that are near enough, and its pixel: of those
/// at the same distance, the one with the lowest pixel.
pub open spec fn closest_pixel(
    nodes: Seq<LocPixNode>,
    cos_lat_q15: int,
    config: DeviceConfig,
    coord: (i32, i32),
    path: Seq<LocPixEdgeDirected>,
    k: nat,
) -> Option<(int, u16)>
    decreases k,
{
    if k == 0 {
        None
    } else {
        let best = closest_pixel(nodes, cos_lat_q15, config, coord, path, (k - 1) as nat);
        let edge = path[k - 1];
        let (lat, lng) = coord;
        let d = dist_sq_meters(lat as int, lng as int, nodes[edge.from_loc as int], cos_lat_q15);
        if !near_enough(config, d) {
            best
        } else {
            match best {
                Some((b, pix)) if b < d || (b == d && pix <= edge.from_pix) => best,
                _ => Some((d, edge.from_pix)),
            }
        }
    }
}

/// The pixel taken belongs to a location of the path that is near enough, and no location of the
/// path is nearer. None is taken only if none is near enough.
pub proof fn lemma_closest_pixel(
    nodes: Seq<LocPixNode>,
    cos_lat_q15: int,
    config: DeviceConfig,
    coord: (i32, i32),
    path: Seq<LocPixEdgeDirected>,
    k: nat,
)
    requires
        k <= path.len(),
    ensures
        ({
            let (lat, lng) = coord;
            let at = |i: int|
                dist_sq_meters(
                    lat as int,
                    lng as int,
                    nodes[path[i].from_loc as int],
                    cos_lat_q15,
                );
            match closest_pixel(nodes, cos_lat_q15, config, coord, path, k) {
                Some((d, pix)) => {
                    &&& near_enough(config, d)
                    &&& exists|i: int|
                        0 <= i < k && #[trigger] path[i].from_pix == pix && at(i) == d
                    &&& forall|i: int| 0 <= i < k ==> d <= #[trigger] at(i)
                },
                None => forall|i: int| 0 <= i < k ==> !near_enough(config, #[trigger] at(i)),
            }
        }),
    decreases k,
{
    if k > 0 {
        lemma_closest_pixel(nodes, cos_lat_q15, config, coord, path, (k - 1) as nat);
        let (lat, lng) = coord;
        let at = |i: int|
            dist_sq_meters(lat as int, lng as int, nodes[path[i].from_loc as int], cos_lat_q15);
        assert(path[k - 1].from_pix == path[k - 1].from_pix);
        let d = at(k - 1);
        assert(d == dist_sq_meters(
            lat as int,
            lng as int,
            nodes[path[k - 1].from_loc as int],
            cos_lat_q15,
        ));
        let sq = config.vehicle_distance_threshold_meters
            * config.vehicle_distance_threshold_meters;
        match closest_pixel(nodes, cos_lat_q15, config, coord, path, (k - 1) as nat) {
            Some((b, pix)) => {
                let i = choose|i: int|
                    0 <= i < k - 1 && #[trigger] path[i].from_pix == pix && at(i) == b;
                assert(path[i].from_pix == pix);
            },
            None => {},
        }
    }
}

fn find_closest_pixel(
    loc_nodes: &[LocPixNode],
    cos_lat_q15: i16,
    config: &DeviceConfig,
    coord: (i32, i32),
    path: &Vec<LocPixEdgeDirected>,
) -> (r: Option<u16>)
    requires
        forall|i: int|
            0 <= i < path@.len() ==> (#[trigger] path@[i]).from_loc < loc_nodes@.len(),
    ensures
        r == (match closest_pixel(
            loc_nodes@,
            cos_lat_q15 as int,
            *config,
            coord,
            path@,
            path@.len(),
        ) {
            Some((_, pix)) => Some(pix),
            None => None,
        }),
        r matches Some(pix) ==> exists|i: int|
            0 <= i < path@.len() && #[trigger] path@[i].from_pix == pix,
{
    proof {
        lemma_closest_pixel(loc_nodes@, cos_lat_q15 as int, *config, coord, path@, path@.len());
    }
    let (lat, lng) = coord;
    let threshold: i128 = config.vehicle_distance_threshold_meters as i128;
    assert(0 <= threshold * threshold <= 0x1_0000_0000_0000_0000) by (nonlinear_arith)
        requires
            0 <= threshold <= 0x1_0000_0000,
    ;
    let threshold_sq: i128 = threshold * threshold;
    let within = config.vehicle_filter == VehicleFilter::WithinDistance;
    let mut best: Option<(i64, u16)> = None;
    let mut i: usize = 0;
    while i < path.len()
        invariant
            i <= path@.len(),
            (lat, lng) == coord,
            threshold_sq == config.vehicle_distance_threshold_meters
                * config.vehicle_distance_threshold_meters,
            within == (config.vehicle_filter == VehicleFilter::WithinDistance),
            forall|i: int|
                0 <= i < path@.len() ==> (#[trigger] path@[i]).from_loc < loc_nodes@.len(),
            closest_pixel(
                loc_nodes@,
                cos_lat_q15 as int,
                *config,
                coord,
                path@,
                i as nat,
            ) == (match best {
                Some((d, pix)) => Some((d as int, pix)),
                None => None,
            }),
        decreases path@.len() - i,
    {
        let edge = &path[i];
        let node = &loc_nodes[edge.from_loc as usize];
        let d: i64 = approx_dist_sq_meters_e7(lat, lng, node.lat_e7, node.lng_e7, cos_lat_q15);
        assert(d == dist_sq_meters(lat as int, lng as int, *node, cos_lat_q15 as int));
        if !within || d as i128 <= threshold_sq {
            let keep = match best {
                Some((b, pix)) => b < d || (b == d && pix <= edge.from_pix),
                None => false,
            };
            if !keep {
                best = Some((d, edge.from_pix));
            }
        }
        i = i + 1;
    }
    match best {
        Some((_, pix)) => Some(pix),
        None => None,
    }
}

// ---------------------------------------------------------------------------------------------
// One vehicle
// ---------------------------------------------------------------------------------------------

/// The location of a stop, if it has one.
pub open spec fn mapped(map: Seq<NonMax<u16>>, stop_id: u32) -> Option<u16> {
    if stop_id < map.len() {
        map[stop_id as int]@
    } else {
        None
    }
}

pub fn get_mapped(map: &Vec<NonMax<u16>>, stop_id: u32) -> (loc: Option<u16>)
    ensures
        loc == mapped(map@, stop_id),
{
    if (stop_id as usize) < map.len() {
        map[stop_id as usize].as_option()
    } else {
        None
    }
}

/// A vehicle that is not shown, without anything wrong.
pub open spec fn hidden() -> VehiclePlaced {
    VehiclePlaced { report: None, shown: None }
}

/// A vehicle that is not shown because something is wrong.
pub open spec fn faulty(report: Report) -> VehiclePlaced {
    VehiclePlaced { report: Some(report), shown: None }
}

/// Locations of the stops of a segment, with the coordinates of the stops.
pub open spec fn route_of(
    store: TransitDataStore,
    segment: Segment,
    from_loc_id: u16,
    to_loc_id: u16,
) -> Route {
    let stops = store.data.stops@;
    let (from_latitude_e7, from_longitude_e7) = vehicle_motion::stop_coord(
        stops,
        util::high16(segment.from_stop_id_x_to_stop_id),
    )->0;
    let (to_latitude_e7, to_longitude_e7) = vehicle_motion::stop_coord(
        stops,
        util::low16(segment.from_stop_id_x_to_stop_id),
    )->0;
    Route {
        from_loc_id,
        from_latitude_e7,
        from_longitude_e7,
        to_loc_id,
        to_latitude_e7,
        to_longitude_e7,
    }
}

/// A vehicle between two locations: shown on the path between them, where it is closest.
pub open spec fn placed_on_route(
    product: ProductConfig,
    store: TransitDataStore,
    config: DeviceConfig,
    vehicle_idx: usize,
    line_config: LineConfig,
    segment: Segment,
    coord: (i32, i32),
    from_loc_id: u16,
    to_loc_id: u16,
) -> VehiclePlaced {
    let nodes = product.loc_pix_nodes@;
    let line_id = util::high16(
        store.data.vehicle_movements@[vehicle_idx as int].line_id_x_trip_id,
    );
    let line = store.data.lines@[line_id as int];
    let route = route_of(store, segment, from_loc_id, to_loc_id);
    match ways::search_result(
        nodes,
        from_loc_id,
        to_loc_id,
        MAX_OPEN_NODES as nat,
        MAX_PATH_LEN as nat,
    ) {
        Err(error) => faulty(Report::VehicleWithoutPath { vehicle_idx, line_id, route, error }),
        Ok(path) => match closest_pixel(
            nodes,
            product.cos_lat_q15 as int,
            config,
            coord,
            path,
            path.len(),
        ) {
            None => hidden(),
            Some((_, pixel)) => if pixel == u16::MAX {
                faulty(Report::VehiclePixelInvalid { vehicle_idx, line_id, route })
            } else {
                VehiclePlaced {
                    report: None,
                    shown: Some(
                        VehicleShown {
                            pixel,
                            color: color_plan(
                                config,
                                store.data.lines@.len(),
                                line_id,
                                line_color(line, line_config),
                                segment,
                            ),
                            brightness_percent: line_brightness(line_config),
                            real_time: delay_of(segment) is Some,
                        },
                    ),
                }
            },
        },
    }
}

/// Whether a pixel shows a location on a shortest path between two locations.
pub open spec fn is_on_shortest_path(
    nodes: Seq<LocPixNode>,
    from_loc_id: u16,
    to_loc_id: u16,
    pixel: u16,
) -> bool {
    exists|path: Seq<LocPixEdgeDirected>, i: int|
        routes::is_shortest_path(nodes, from_loc_id, to_loc_id, path) && 0 <= i < path.len()
            && #[trigger] path[i].from_pix == pixel
}

/// A vehicle between two locations is shown on a shortest path between them that a train can take. It
/// is reported as one without a path only if there is none, or not enough room to find it.
pub proof fn lemma_shown_on_shortest_path(
    product: ProductConfig,
    store: TransitDataStore,
    config: DeviceConfig,
    vehicle_idx: usize,
    line_config: LineConfig,
    segment: Segment,
    coord: (i32, i32),
    from_loc_id: u16,
    to_loc_id: u16,
)
    requires
        config::valid_map(product.loc_pix_nodes@),
        from_loc_id < product.loc_pix_nodes@.len(),
        to_loc_id < product.loc_pix_nodes@.len(),
    ensures
        ({
            let nodes = product.loc_pix_nodes@;
            let r = placed_on_route(
                product,
                store,
                config,
                vehicle_idx,
                line_config,
                segment,
                coord,
                from_loc_id,
                to_loc_id,
            );
            &&& r.shown matches Some(shown) ==> is_on_shortest_path(
                nodes,
                from_loc_id,
                to_loc_id,
                shown.pixel,
            )
            &&& r.report matches Some(Report::VehicleWithoutPath { error, .. }) ==> (match error {
                PathFindError::NoPathFound => routes::no_route(nodes, from_loc_id, to_loc_id),
                PathFindError::OutOfMemory => ways::lacks_room(
                    nodes,
                    from_loc_id,
                    to_loc_id,
                    MAX_OPEN_NODES as nat,
                    MAX_PATH_LEN as nat,
                ),
            })
        }),
{
    let nodes = product.loc_pix_nodes@;
    let (cap, path_cap) = (MAX_OPEN_NODES as nat, MAX_PATH_LEN as nat);
    ways::lemma_search_result(nodes, from_loc_id, to_loc_id, cap, path_cap);
    if let Ok(path) = ways::search_result(nodes, from_loc_id, to_loc_id, cap, path_cap) {
        let cos_lat_q15 = product.cos_lat_q15 as int;
        lemma_closest_pixel(nodes, cos_lat_q15, config, coord, path, path.len());
        if let Some((_, pixel)) = closest_pixel(
            nodes,
            cos_lat_q15,
            config,
            coord,
            path,
            path.len(),
        ) {
            let i = choose|i: int| 0 <= i < path.len() && #[trigger] path[i].from_pix == pixel;
            assert(path[i].from_pix == pixel);
        }
    }
}

/// Whether and how vehicle number `vehicle_idx` is shown, which is doing `fix` at `coord`.
pub open spec fn placed(
    product: ProductConfig,
    store: TransitDataStore,
    config: DeviceConfig,
    vehicle_idx: usize,
    fix: VehicleFix,
    coord: (i32, i32),
) -> VehiclePlaced {
    let movement = store.data.vehicle_movements@[vehicle_idx as int];
    let segment = movement.segments@[fix.segment_idx as int];
    let line_id = util::high16(movement.line_id_x_trip_id);
    let map = store.state.stop_id_to_loc_id_map@;
    let from_id = util::high16(segment.from_stop_id_x_to_stop_id);
    let to_id = util::low16(segment.from_stop_id_x_to_stop_id);
    if config.vehicle_filter == VehicleFilter::StationaryOnly && counts_as_moving(
        segment,
        fix.progress_secs as int,
    ) {
        hidden()
    } else if line_id >= store.data.lines@.len() {
        faulty(Report::VehicleLineInvalid { vehicle_idx, line_id })
    } else {
        let line = store.data.lines@[line_id as int];
        match transit_data::config_of_line(config.line_configs@, line.name@, 0) {
            None => faulty(Report::VehicleLineWithoutConfig { vehicle_idx, line_id }),
            Some(c) => {
                let line_config = config.line_configs@[c as int];
                if !line_enabled(line_config) {
                    hidden()
                } else if config.realtime_filter == RealtimeFilter::RealtimeOnly && delay_of(
                    segment,
                ) is None {
                    hidden()
                } else {
                    match (mapped(map, from_id), mapped(map, to_id)) {
                        (None, _) => {
                            let route = route_of(store, segment, 0, 0);
                            faulty(
                                Report::VehicleFromStopUnmapped {
                                    vehicle_idx,
                                    line_id,
                                    stop_id: from_id,
                                    latitude_e7: route.from_latitude_e7,
                                    longitude_e7: route.from_longitude_e7,
                                },
                            )
                        },
                        (Some(_), None) => {
                            let route = route_of(store, segment, 0, 0);
                            faulty(
                                Report::VehicleToStopUnmapped {
                                    vehicle_idx,
                                    line_id,
                                    stop_id: to_id,
                                    latitude_e7: route.to_latitude_e7,
                                    longitude_e7: route.to_longitude_e7,
                                },
                            )
                        },
                        (Some(from_loc_id), Some(to_loc_id)) => placed_on_route(
                            product,
                            store,
                            config,
                            vehicle_idx,
                            line_config,
                            segment,
                            coord,
                            from_loc_id,
                            to_loc_id,
                        ),
                    }
                }
            },
        }
    }
}

/// Whether `fix` can be what vehicle number `vehicle_idx` is doing.
pub open spec fn valid_fix(store: TransitDataStore, vehicle_idx: usize, fix: VehicleFix) -> bool {
    &&& vehicle_idx < store.data.vehicle_movements@.len()
    &&& fix.segment_idx < store.data.vehicle_movements@[vehicle_idx as int].segments@.len()
    &&& ({
        let segment =
            store.data.vehicle_movements@[vehicle_idx as int].segments@[fix.segment_idx as int];
        let stops = store.data.stops@;
        &&& util::high16(segment.from_stop_id_x_to_stop_id) < stops.len()
        &&& util::low16(segment.from_stop_id_x_to_stop_id) < stops.len()
    })
}

/// What a vehicle was found to be doing, it can be doing.
pub proof fn lemma_located_is_valid(store: TransitDataStore, vehicle_idx: usize, now: u32)
    requires
        vehicle_idx < store.data.vehicle_movements@.len(),
    ensures
        ({
            let (_, fix) = vehicle_motion::located(store.data, vehicle_idx, now);
            fix matches Some(f) ==> valid_fix(store, vehicle_idx, f)
        }),
{
    vehicle_motion::lemma_in_segment_while_moving(
        store.data.vehicle_movements@[vehicle_idx as int],
        store.data.sourced_at_unix_timestamp,
        now,
    );
    vehicle_motion::lemma_segment_number(store.data.vehicle_movements@[vehicle_idx as int]);
}

fn place_on_route(
    product: &ProductConfig,
    store: &TransitDataStore,
    config: &DeviceConfig,
    vehicle_idx: usize,
    line_config: &LineConfig,
    segment: &Segment,
    coord: (i32, i32),
    from_loc_id: u16,
    to_loc_id: u16,
) -> (r: VehiclePlaced)
    requires
        config::valid_map(product.loc_pix_nodes@),
        from_loc_id < product.loc_pix_nodes@.len(),
        to_loc_id < product.loc_pix_nodes@.len(),
        vehicle_idx < store.data.vehicle_movements@.len(),
        util::high16(store.data.vehicle_movements@[vehicle_idx as int].line_id_x_trip_id)
            < store.data.lines@.len(),
        util::high16(segment.from_stop_id_x_to_stop_id) < store.data.stops@.len(),
        util::low16(segment.from_stop_id_x_to_stop_id) < store.data.stops@.len(),
    ensures
        r == placed_on_route(
            *product,
            *store,
            *config,
            vehicle_idx,
            *line_config,
            *segment,
            coord,
            from_loc_id,
            to_loc_id,
        ),
        r.within(*product),
{
    let line_id: u32 = util::get_high16(store.data.vehicle_movements[vehicle_idx].line_id_x_trip_id);
    let line = &store.data.lines[line_id as usize];
    let from_stop = &store.data.stops[util::get_high16(
        segment.from_stop_id_x_to_stop_id,
    ) as usize];
    let to_stop = &store.data.stops[util::get_low16(segment.from_stop_id_x_to_stop_id) as usize];
    let route = Route {
        from_loc_id,
        from_latitude_e7: transit_data::get_latitude(from_stop),
        from_longitude_e7: from_stop.longitude_e7,
        to_loc_id,
        to_latitude_e7: transit_data::get_latitude(to_stop),
        to_longitude_e7: to_stop.longitude_e7,
    };
    match path_find::find_path(
        product.loc_pix_nodes,
        from_loc_id,
        to_loc_id,
        MAX_OPEN_NODES,
        MAX_PATH_LEN,
    ) {
        Err(error) => VehiclePlaced {
            report: Some(Report::VehicleWithoutPath { vehicle_idx, line_id, route, error }),
            shown: None,
        },
        Ok(path) => {
            match find_closest_pixel(
                product.loc_pix_nodes,
                product.cos_lat_q15,
                config,
                coord,
                &path,
            ) {
                None => VehiclePlaced { report: None, shown: None },
                Some(pixel) => if pixel == u16::MAX {
                    VehiclePlaced {
                        report: Some(Report::VehiclePixelInvalid { vehicle_idx, line_id, route }),
                        shown: None,
                    }
                } else {
                    let color = if line_config.has_override {
                        util::rgb8_from_packed(line_config.override_color_rgb8)
                    } else {
                        util::rgb8_from_packed(line.color_rgb8)
                    };
                    let brightness_percent: u32 = if line_config.has_override
                        && line_config.brightness_percent < 100 {
                        line_config.brightness_percent
                    } else {
                        100
                    };
                    let lines: usize = store.data.lines.len();
                    VehiclePlaced {
                        report: None,
                        shown: Some(
                            VehicleShown {
                                pixel,
                                color: plan_color(config, lines, line_id, color, segment),
                                brightness_percent,
                                real_time: get_delay(segment).is_some(),
                            },
                        ),
                    }
                },
            }
        },
    }
}

/// Finds out whether and how vehicle number `vehicle_idx` is shown, which is doing `fix` at
/// `coord`.
pub fn place_vehicle(
    product: &ProductConfig,
    store: &TransitDataStore,
    config: &DeviceConfig,
    vehicle_idx: usize,
    fix: VehicleFix,
    coord: (i32, i32),
) -> (r: VehiclePlaced)
    requires
        config::valid_map(product.loc_pix_nodes@),
        store.wf(product.loc_pix_nodes@.len()),
        valid_fix(*store, vehicle_idx, fix),
    ensures
        r == placed(*product, *store, *config, vehicle_idx, fix, coord),
        r.within(*product),
{
    let movement = &store.data.vehicle_movements[vehicle_idx];
    let segment = &movement.segments[fix.segment_idx];
    if config.vehicle_filter == VehicleFilter::StationaryOnly {
        let move_secs: u32 = util::get_high16(segment.move_seconds_x_wait_seconds);
        let wait_secs: u32 = util::get_low16(segment.move_seconds_x_wait_seconds);
        let moving = if wait_secs > 0 {
            fix.progress_secs < move_secs
        } else {
            fix.progress_secs < move_secs.saturating_sub(MIN_MISSING_WAIT_TIME_SECONDS)
        };
        if moving {
            return VehiclePlaced { report: None, shown: None };
        }
    }
    let line_id: u32 = util::get_high16(movement.line_id_x_trip_id);
    if line_id as usize >= store.data.lines.len() {
        return VehiclePlaced {
            report: Some(Report::VehicleLineInvalid { vehicle_idx, line_id }),
            shown: None,
        };
    }
    let line = &store.data.lines[line_id as usize];
    assert(config.line_configs@.take(config.line_configs@.len() as int) =~= config.line_configs@);
    let line_config = match transit_data::find_line_config(
        &config.line_configs,
        config.line_configs.len(),
        &line.name,
    ) {
        Some(c) => &config.line_configs[c],
        None => {
            return VehiclePlaced {
                report: Some(Report::VehicleLineWithoutConfig { vehicle_idx, line_id }),
                shown: None,
            };
        },
    };
    if line_config.has_override && !line_config.enabled {
        return VehiclePlaced { report: None, shown: None };
    }
    if config.realtime_filter == RealtimeFilter::RealtimeOnly && get_delay(segment).is_none() {
        return VehiclePlaced { report: None, shown: None };
    }
    let from_id: u32 = util::get_high16(segment.from_stop_id_x_to_stop_id);
    let to_id: u32 = util::get_low16(segment.from_stop_id_x_to_stop_id);
    let from_loc_id: u16 = match get_mapped(&store.state.stop_id_to_loc_id_map, from_id) {
        Some(loc) => loc,
        None => {
            let stop = &store.data.stops[from_id as usize];
            return VehiclePlaced {
                report: Some(
                    Report::VehicleFromStopUnmapped {
                        vehicle_idx,
                        line_id,
                        stop_id: from_id,
                        latitude_e7: transit_data::get_latitude(stop),
                        longitude_e7: stop.longitude_e7,
                    },
                ),
                shown: None,
            };
        },
    };
    let to_loc_id: u16 = match get_mapped(&store.state.stop_id_to_loc_id_map, to_id) {
        Some(loc) => loc,
        None => {
            let stop = &store.data.stops[to_id as usize];
            return VehiclePlaced {
                report: Some(
                    Report::VehicleToStopUnmapped {
                        vehicle_idx,
                        line_id,
                        stop_id: to_id,
                        latitude_e7: transit_data::get_latitude(stop),
                        longitude_e7: stop.longitude_e7,
                    },
                ),
                shown: None,
            };
        },
    };
    assert(store.state.stop_id_to_loc_id_map@[from_id as int]@ == Some(from_loc_id));
    assert(store.state.stop_id_to_loc_id_map@[to_id as int]@ == Some(to_loc_id));
    place_on_route(
        product,
        store,
        config,
        vehicle_idx,
        line_config,
        segment,
        coord,
        from_loc_id,
        to_loc_id,
    )
}

/// Finds out whether and how all vehicles are shown, at the given coordinates.
pub fn place_vehicles(
    product: &ProductConfig,
    store: &TransitDataStore,
    config: &DeviceConfig,
    located: &Vec<VehicleLocated>,
    coords: &Vec<(i32, i32)>,
) -> (r: Vec<VehiclePlaced>)
    requires
        config::valid_map(product.loc_pix_nodes@),
        store.wf(product.loc_pix_nodes@.len()),
        located@.len() == store.data.vehicle_movements@.len(),
        coords@.len() == located@.len(),
        forall|i: int|
            0 <= i < located@.len() ==> ((#[trigger] located@[i]).fix matches Some(fix)
                ==> valid_fix(*store, i as usize, fix)),
    ensures
        r@.len() == located@.len(),
        forall|i: int|
            0 <= i < r@.len() ==> #[trigger] r@[i] == (match located@[i].fix {
                Some(fix) => placed(*product, *store, *config, i as usize, fix, coords@[i]),
                None => hidden(),
            }),
        forall|i: int| 0 <= i < r@.len() ==> (#[trigger] r@[i]).within(*product),
{
    let mut r: Vec<VehiclePlaced> = Vec::new();
    let mut i: usize = 0;
    while i < located.len()
        invariant
            i <= located@.len(),
            config::valid_map(product.loc_pix_nodes@),
            store.wf(product.loc_pix_nodes@.len()),
            located@.len() == store.data.vehicle_movements@.len(),
            coords@.len() == located@.len(),
            forall|i: int|
                0 <= i < located@.len() ==> ((#[trigger] located@[i]).fix matches Some(fix)
                    ==> valid_fix(*store, i as usize, fix)),
            r@.len() == i,
            forall|j: int|
                0 <= j < i ==> #[trigger] r@[j] == (match located@[j].fix {
                    Some(fix) => placed(*product, *store, *config, j as usize, fix, coords@[j]),
                    None => hidden(),
                }),
            forall|j: int| 0 <= j < i ==> (#[trigger] r@[j]).within(*product),
        decreases located@.len() - i,
    {
        assert(located@[i as int].fix matches Some(fix) ==> valid_fix(*store, i, fix));
        let p = match located[i].fix {
            Some(fix) => place_vehicle(product, store, config, i, fix, coords[i]),
            None => VehiclePlaced { report: None, shown: None },
        };
        r.push(p);
        i = i + 1;
    }
    r
}

// ---------------------------------------------------------------------------------------------
// All vehicles
// ---------------------------------------------------------------------------------------------

/// A vehicle after it was rendered: if it is not shown, its pixel goes dark; if it is, and its
/// pixel or color changed, it goes over to the new one; else it stays as it was.
pub open spec fn vehicle_after(
    vehicle: RenderedVehicle,
    shown: Option<VehicleShown>,
    color: RGB8,
    now_instant_ms: u32,
) -> RenderedVehicle {
    let cur = match shown {
        Some(s) => PixelState { rgb: color, idx: NonMax::spec_of(s.pixel) },
        None => PixelState::spec_none(),
    };
    if shown is Some && vehicle.cur == cur {
        vehicle
    } else {
        RenderedVehicle {
            prev: vehicle.cur,
            cur,
            last_updated_instant_ms: now_instant_ms,
            ..vehicle
        }
    }
}

fn update_vehicle(
    vehicle: RenderedVehicle,
    shown: Option<VehicleShown>,
    color: RGB8,
    now_instant_ms: u32,
) -> (v: RenderedVehicle)
    ensures
        v == vehicle_after(vehicle, shown, color, now_instant_ms),
{
    let cur = match shown {
        Some(s) => {
            let cur = PixelState { rgb: color, idx: NonMax::new_unchecked(s.pixel) };
            proof {
                util::lemma_non_max_view_injective(vehicle.cur.idx, cur.idx);
            }
            let same_idx = match (vehicle.cur.idx.as_option(), cur.idx.as_option()) {
                (Some(a), Some(b)) => a == b,
                (None, None) => true,
                _ => false,
            };
            if vehicle.cur.rgb == cur.rgb && same_idx {
                return vehicle;
            }
            cur
        },
        None => PixelState::none(),
    };
    RenderedVehicle { prev: vehicle.cur, cur, last_updated_instant_ms: now_instant_ms, ..vehicle }
}

/// How many of the first `k` vehicles are under way.
pub open spec fn num_available(located: Seq<VehicleLocated>, k: nat) -> nat
    decreases k,
{
    if k == 0 {
        0
    } else if located[k - 1].fix is Some {
        num_available(located, (k - 1) as nat) + 1
    } else {
        num_available(located, (k - 1) as nat)
    }
}

/// How many of the first `k` vehicles are shown.
pub open spec fn num_visible(placed: Seq<VehiclePlaced>, k: nat) -> nat
    decreases k,
{
    if k == 0 {
        0
    } else if placed[k - 1].shown is Some {
        num_visible(placed, (k - 1) as nat) + 1
    } else {
        num_visible(placed, (k - 1) as nat)
    }
}

/// How many of the first `k` vehicles are shown whose delay is known.
pub open spec fn num_real_time(placed: Seq<VehiclePlaced>, k: nat) -> nat
    decreases k,
{
    if k == 0 {
        0
    } else if placed[k - 1].shown matches Some(s) && s.real_time {
        num_real_time(placed, (k - 1) as nat) + 1
    } else {
        num_real_time(placed, (k - 1) as nat)
    }
}

/// What is reported of the first `k` vehicles, in their order.
pub open spec fn vehicle_reports(
    located: Seq<VehicleLocated>,
    placed: Seq<VehiclePlaced>,
    k: nat,
) -> Seq<Effect>
    decreases k,
{
    if k == 0 {
        Seq::empty()
    } else {
        let before = vehicle_reports(located, placed, (k - 1) as nat) + located[k
            - 1].reports@.map_values(|r: Report| Effect::Report(r));
        match placed[k - 1].report {
            Some(report) => before.push(Effect::Report(report)),
            None => before,
        }
    }
}

/// How many of the first `k` movements are on line number `line_idx`.
pub open spec fn vehicles_on_line(movements: Seq<VehicleMovement>, line_idx: int, k: nat) -> nat
    decreases k,
{
    if k == 0 {
        0
    } else if util::high16(movements[k - 1].line_id_x_trip_id) == line_idx {
        vehicles_on_line(movements, line_idx, (k - 1) as nat) + 1
    } else {
        vehicles_on_line(movements, line_idx, (k - 1) as nat)
    }
}

/// Whether `counts` names the lines in their order, each with the number of its vehicles.
pub open spec fn counts_vehicles(
    counts: Seq<AvailableVehicleLine>,
    lines: Seq<Line>,
    movements: Seq<VehicleMovement>,
) -> bool {
    &&& counts.len() == lines.len()
    &&& forall|i: int|
        0 <= i < lines.len() ==> (#[trigger] counts[i]).line_name@ == lines[i].name@
            && counts[i].vehicle_count == vehicles_on_line(movements, i, movements.len()) as u32
}

fn count_vehicles(lines: &Vec<Line>, movements: &Vec<VehicleMovement>) -> (r: Vec<
    AvailableVehicleLine,
>)
    ensures
        counts_vehicles(r@, lines@, movements@),
{
    let mut r: Vec<AvailableVehicleLine> = Vec::new();
    let mut i: usize = 0;
    while i < lines.len()
        invariant
            i <= lines@.len(),
            r@.len() == i,
            forall|j: int|
                0 <= j < i ==> (#[trigger] r@[j]).line_name@ == lines@[j].name@
                    && r@[j].vehicle_count == vehicles_on_line(
                    movements@,
                    j,
                    movements@.len(),
                ) as u32,
        decreases lines@.len() - i,
    {
        let mut n: usize = 0;
        let mut k: usize = 0;
        while k < movements.len()
            invariant
                k <= movements@.len(),
                n <= k,
                n == vehicles_on_line(movements@, i as int, k as nat),
            decreases movements@.len() - k,
        {
            if util::get_high16(movements[k].line_id_x_trip_id) as usize == i {
                n = n + 1;
            }
            k = k + 1;
        }
        r.push(AvailableVehicleLine { line_name: lines[i].name.clone(), vehicle_count: n as u32 });
        i = i + 1;
    }
    r
}

fn push_reports(reports: &Vec<Report>, fx: &mut Effects)
    ensures
        final(fx)@ == old(fx)@ + reports@.map_values(|r: Report| Effect::Report(r)),
{
    let ghost effects = reports@.map_values(|r: Report| Effect::Report(r));
    let ghost start = fx@;
    let mut i: usize = 0;
    assert(start + effects.take(0) =~= start);
    while i < reports.len()
        invariant
            i <= reports@.len(),
            effects == reports@.map_values(|r: Report| Effect::Report(r)),
            fx@ == start + effects.take(i as int),
        decreases reports@.len() - i,
    {
        fx.push(Effect::Report(reports[i]));
        i = i + 1;
        assert(start + effects.take(i as int) =~= (start + effects.take(i - 1)).push(
            effects[i - 1],
        ));
    }
    assert(effects.take(i as int) =~= effects);
}

/// The first of two instants, if there is one, or else the other.
pub open spec fn first_of(known: Option<u32>, now: u32) -> Option<u32> {
    match known {
        Some(t) => Some(t),
        None => Some(now),
    }
}

/// What the statistics are once vehicles were rendered.
pub open spec fn vehicle_stats(
    stats: TransitDataStats,
    located: Seq<VehicleLocated>,
    placed: Seq<VehiclePlaced>,
    lines: Vec<AvailableVehicleLine>,
) -> TransitDataStats {
    TransitDataStats {
        telemetry_pending: false,
        num_vehicles_available: num_available(located, located.len()) as u32,
        num_vehicles_visible: num_visible(placed, placed.len()) as u32,
        num_vehicles_visible_real_time: num_real_time(placed, placed.len()) as u32,
        available_vehicle_lines: lines,
        ..stats
    }
}

/// Puts the vehicles on the map, as they were placed, in the given colors. Reports what was wrong,
/// counts, and has the counts sent if they are waited for.
pub fn store_vehicles(
    store: &mut TransitDataStore,
    located: &Vec<VehicleLocated>,
    placed: &Vec<VehiclePlaced>,
    colors: &Vec<RGB8>,
    now_instant_ms: u32,
    fx: &mut Effects,
)
    requires
        located@.len() == old(store).data.vehicle_movements@.len(),
        placed@.len() == located@.len(),
        colors@.len() == located@.len(),
        old(store).state.renderer_out.vehicles@.len() >= located@.len(),
    ensures
        final(store).data == old(store).data,
        final(store).state.stop_id_to_loc_id_map == old(store).state.stop_id_to_loc_id_map,
        final(store).state.renderer_out.disruptions == old(store).state.renderer_out.disruptions,
        final(store).state.renderer_out.vehicles@.len() == old(store).state.renderer_out.vehicles@.len(),
        forall|i: int|
            0 <= i < final(store).state.renderer_out.vehicles@.len() ==> (
            #[trigger] final(store).state.renderer_out.vehicles@[i]) == (if i < placed@.len() {
                vehicle_after(
                    old(store).state.renderer_out.vehicles@[i],
                    placed@[i].shown,
                    colors@[i],
                    now_instant_ms,
                )
            } else {
                old(store).state.renderer_out.vehicles@[i]
            }),
        ({
            let before = old(store).state.rendered_state;
            let after = final(store).state.rendered_state;
            &&& after.rendered_any_first_at_instant_ms == first_of(
                before.rendered_any_first_at_instant_ms,
                now_instant_ms,
            )
            &&& after.rendered_data_first_at_instant_ms == first_of(
                before.rendered_data_first_at_instant_ms,
                now_instant_ms,
            )
            &&& after.drawn_first_frame_at_instant_ms == before.drawn_first_frame_at_instant_ms
            &&& after.config_last_changed_at_instant_ms == before.config_last_changed_at_instant_ms
            &&& after.disruptions_render_pending == before.disruptions_render_pending
        }),
        final(store).stats == vehicle_stats(
            old(store).stats,
            located@,
            placed@,
            final(store).stats.available_vehicle_lines,
        ),
        counts_vehicles(
            final(store).stats.available_vehicle_lines@,
            old(store).data.lines@,
            old(store).data.vehicle_movements@,
        ),
        final(fx)@ == ({
            let reported = old(fx)@ + vehicle_reports(located@, placed@, placed@.len());
            if old(store).stats.telemetry_pending {
                reported.push(Effect::Notify(WsClientNotify::Telemetry))
            } else {
                reported
            }
        }),
        forall|n: nat|
            #![trigger final(store).state.renderer_out.within(n)]
            old(store).state.renderer_out.within(n) && (forall|i: int|
                0 <= i < placed@.len() ==> ((#[trigger] placed@[i]).shown matches Some(s)
                    ==> s.pixel < n)) ==> final(store).state.renderer_out.within(n),
{
    let ghost start = fx@;
    let ghost vehicles = store.state.renderer_out.vehicles@;
    let mut available: usize = 0;
    let mut visible: usize = 0;
    let mut real_time: usize = 0;
    let mut i: usize = 0;
    assert(start + Seq::<Effect>::empty() =~= start);
    while i < placed.len()
        invariant
            i <= placed@.len(),
            placed@.len() == located@.len(),
            colors@.len() == located@.len(),
            vehicles == old(store).state.renderer_out.vehicles@,
            vehicles.len() >= located@.len(),
            store.data == old(store).data,
            store.stats == old(store).stats,
            store.state.rendered_state == old(store).state.rendered_state,
            store.state.stop_id_to_loc_id_map == old(store).state.stop_id_to_loc_id_map,
            store.state.renderer_out.disruptions == old(store).state.renderer_out.disruptions,
            store.state.renderer_out.vehicles@.len() == vehicles.len(),
            forall|j: int|
                0 <= j < vehicles.len() ==> (#[trigger] store.state.renderer_out.vehicles@[j]) == (
                if j < i {
                    vehicle_after(vehicles[j], placed@[j].shown, colors@[j], now_instant_ms)
                } else {
                    vehicles[j]
                }),
            available <= i,
            visible <= i,
            real_time <= i,
            available == num_available(located@, i as nat),
            visible == num_visible(placed@, i as nat),
            real_time == num_real_time(placed@, i as nat),
            fx@ == start + vehicle_reports(located@, placed@, i as nat),
        decreases placed@.len() - i,
    {
        let vehicle = store.state.renderer_out.vehicles[i];
        let updated = update_vehicle(vehicle, placed[i].shown, colors[i], now_instant_ms);
        store.state.renderer_out.vehicles[i] = updated;
        if located[i].fix.is_some() {
            available = available + 1;
        }
        if let Some(shown) = placed[i].shown {
            visible = visible + 1;
            if shown.real_time {
                real_time = real_time + 1;
            }
        }
        let ghost reported = fx@;
        push_reports(&located[i].reports, fx);
        if let Some(report) = placed[i].report {
            fx.push(Effect::Report(report));
        }
        proof {
            let done = vehicle_reports(located@, placed@, i as nat);
            let new = located@[i as int].reports@.map_values(|r: Report| Effect::Report(r));
            assert((start + done) + new =~= start + (done + new));
            if let Some(report) = placed@[i as int].report {
                assert((start + (done + new)).push(Effect::Report(report)) =~= start + (done
                    + new).push(Effect::Report(report)));
            }
        }
        i = i + 1;
    }
    proof {
        assert forall|n: nat|
            old(store).state.renderer_out.within(n) && (forall|i: int|
                0 <= i < placed@.len() ==> ((#[trigger] placed@[i]).shown matches Some(s)
                    ==> s.pixel < n)) implies #[trigger] store.state.renderer_out.within(n) by {
            assert forall|i: int| 0 <= i < vehicles.len() implies (
            #[trigger] store.state.renderer_out.vehicles@[i]).within(n) by {
                assert(vehicles[i].within(n));
                if i < placed@.len() {
                    assert(placed@[i].shown matches Some(s) ==> s.pixel < n);
                    lemma_vehicle_within(
                        vehicles[i],
                        placed@[i].shown,
                        colors@[i],
                        now_instant_ms,
                        n,
                    );
                }
            }
        }
    }
    let lines = count_vehicles(&store.data.lines, &store.data.vehicle_movements);
    if store.stats.telemetry_pending {
        store.stats.telemetry_pending = false;
        ws_client::send_telemetry(fx);
    }
    if store.state.rendered_state.rendered_any_first_at_instant_ms.is_none() {
        store.state.rendered_state.rendered_any_first_at_instant_ms = Some(now_instant_ms);
    }
    if store.state.rendered_state.rendered_data_first_at_instant_ms.is_none() {
        store.state.rendered_state.rendered_data_first_at_instant_ms = Some(now_instant_ms);
    }
    store.stats.num_vehicles_available = available as u32;
    store.stats.num_vehicles_visible = visible as u32;
    store.stats.num_vehicles_visible_real_time = real_time as u32;
    store.stats.available_vehicle_lines = lines;
}

// ---------------------------------------------------------------------------------------------
// Laws
// ---------------------------------------------------------------------------------------------

/// A vehicle that is shown as it was before does not change: rendering again what is on the map
/// leaves it there.
pub proof fn lemma_render_again(
    vehicle: RenderedVehicle,
    shown: VehicleShown,
    color: RGB8,
    first_ms: u32,
    later_ms: u32,
)
    ensures
        ({
            let once = vehicle_after(vehicle, Some(shown), color, first_ms);
            vehicle_after(once, Some(shown), color, later_ms) == once
        }),
{
}

/// What a vehicle showed last is where its next change begins, and its trip stays the same.
pub proof fn lemma_change_begins_where_vehicle_was(
    vehicle: RenderedVehicle,
    shown: Option<VehicleShown>,
    color: RGB8,
    now_ms: u32,
)
    ensures
        ({
            let after = vehicle_after(vehicle, shown, color, now_ms);
            &&& after.trip_id == vehicle.trip_id
            &&& after != vehicle ==> after.prev == vehicle.cur && after.last_updated_instant_ms
                == now_ms
        }),
{
}

/// No more vehicles are shown than there are, and no more of known delay than are shown.
pub proof fn lemma_counts_nest(placed: Seq<VehiclePlaced>, k: nat)
    requires
        k <= placed.len(),
    ensures
        num_real_time(placed, k) <= num_visible(placed, k) <= k,
    decreases k,
{
    if k > 0 {
        lemma_counts_nest(placed, (k - 1) as nat);
    }
}

/// No more vehicles are shown than are under way, as long as none is shown that is not.
pub proof fn lemma_visible_are_available(
    located: Seq<VehicleLocated>,
    placed: Seq<VehiclePlaced>,
    k: nat,
)
    requires
        k <= placed.len() == located.len(),
        forall|i: int|
            0 <= i < placed.len() ==> ((#[trigger] placed[i]).shown is Some
                ==> located[i].fix is Some),
    ensures
        num_visible(placed, k) <= num_available(located, k),
    decreases k,
{
    if k > 0 {
        lemma_visible_are_available(located, placed, (k - 1) as nat);
        assert(placed[k - 1].shown is Some ==> located[k - 1].fix is Some);
    }
}

/// A vehicle that is on the pixels of the map, and that is shown on one of them, stays on them.
pub proof fn lemma_vehicle_within(
    vehicle: RenderedVehicle,
    shown: Option<VehicleShown>,
    color: RGB8,
    now_instant_ms: u32,
    n: nat,
)
    requires
        vehicle.within(n),
        shown matches Some(s) ==> s.pixel < n,
    ensures
        vehicle_after(vehicle, shown, color, now_instant_ms).within(n),
{
    if let Some(s) = shown {
        util::lemma_non_max_views::<u16>(s.pixel);
    } else {
        util::lemma_non_max_views::<u16>(0);
    }
}

/// Which pixel is taken does not depend on the configuration but for the filter by distance.
proof fn lemma_same_closest_pixel(
    nodes: Seq<LocPixNode>,
    cos_lat_q15: int,
    a: DeviceConfig,
    b: DeviceConfig,
    coord: (i32, i32),
    path: Seq<LocPixEdgeDirected>,
    k: nat,
)
    requires
        (a.vehicle_filter == VehicleFilter::WithinDistance) == (b.vehicle_filter
            == VehicleFilter::WithinDistance),
        a.vehicle_distance_threshold_meters == b.vehicle_distance_threshold_meters,
    ensures
        closest_pixel(nodes, cos_lat_q15, a, coord, path, k) == closest_pixel(
            nodes,
            cos_lat_q15,
            b,
            coord,
            path,
            k,
        ),
    decreases k,
{
    if k > 0 {
        lemma_same_closest_pixel(nodes, cos_lat_q15, a, b, coord, path, (k - 1) as nat);
    }
}

proof fn lemma_same_closest_pixels(
    product: ProductConfig,
    a: DeviceConfig,
    b: DeviceConfig,
    coord: (i32, i32),
)
    requires
        (a.vehicle_filter == VehicleFilter::WithinDistance) == (b.vehicle_filter
            == VehicleFilter::WithinDistance),
        a.vehicle_distance_threshold_meters == b.vehicle_distance_threshold_meters,
    ensures
        forall|path: Seq<LocPixEdgeDirected>|
            #![trigger closest_pixel(
                product.loc_pix_nodes@,
                product.cos_lat_q15 as int,
                a,
                coord,
                path,
                path.len(),
            )]
            closest_pixel(
                product.loc_pix_nodes@,
                product.cos_lat_q15 as int,
                a,
                coord,
                path,
                path.len(),
            ) == closest_pixel(
                product.loc_pix_nodes@,
                product.cos_lat_q15 as int,
                b,
                coord,
                path,
                path.len(),
            ),
{
    let (nodes, cos_lat_q15) = (product.loc_pix_nodes@, product.cos_lat_q15 as int);
    assert forall|path: Seq<LocPixEdgeDirected>| #[trigger]
        closest_pixel(nodes, cos_lat_q15, a, coord, path, path.len()) == closest_pixel(
            nodes,
            cos_lat_q15,
            b,
            coord,
            path,
            path.len(),
        ) by {
        lemma_same_closest_pixel(nodes, cos_lat_q15, a, b, coord, path, path.len());
    }
}

/// The upper half of a segment's word for delay and speed is the delay, and the largest number
/// there stands for an unknown one. With the filter for known delays only vehicles whose delay is
/// known are shown, and those exactly as without it; the others are left out without a report.
pub proof fn lemma_realtime_filter(
    product: ProductConfig,
    store: TransitDataStore,
    config: DeviceConfig,
    other: RealtimeFilter,
    vehicle_idx: usize,
    fix: VehicleFix,
    coord: (i32, i32),
)
    requires
        other != RealtimeFilter::RealtimeOnly,
    ensures
        ({
            let segment =
                store.data.vehicle_movements@[vehicle_idx as int].segments@[fix.segment_idx as int];
            let known = segment.delayed_seconds_x_average_speed_kmph as int / 0x10000 != 0x7FFF;
            let only = DeviceConfig { realtime_filter: RealtimeFilter::RealtimeOnly, ..config };
            let any = DeviceConfig { realtime_filter: other, ..config };
            let with = placed(product, store, only, vehicle_idx, fix, coord);
            let without = placed(product, store, any, vehicle_idx, fix, coord);
            &&& with.shown matches Some(s) ==> s.real_time && known
            &&& without.shown matches Some(s) ==> s.real_time == known
            &&& known ==> with == without
            &&& !known ==> with.shown is None && (without.shown is Some ==> with.report is None)
        }),
{
    let only = DeviceConfig { realtime_filter: RealtimeFilter::RealtimeOnly, ..config };
    let any = DeviceConfig { realtime_filter: other, ..config };
    lemma_same_closest_pixels(product, only, any, coord);
}

/// With the filter for stationary vehicles only those are shown that have come to the end of their
/// way to the next stop, or, where no wait is known there, to the last half minute of it. Those are
/// shown exactly as without the filter; the others are left out without a report.
pub proof fn lemma_stationary_filter(
    product: ProductConfig,
    store: TransitDataStore,
    config: DeviceConfig,
    vehicle_idx: usize,
    fix: VehicleFix,
    coord: (i32, i32),
)
    ensures
        ({
            let segment =
                store.data.vehicle_movements@[vehicle_idx as int].segments@[fix.segment_idx as int];
            let move_secs = segment.move_seconds_x_wait_seconds as int / 0x10000;
            let wait_secs = segment.move_seconds_x_wait_seconds as int % 0x10000;
            let stationary = fix.progress_secs >= move_secs || (wait_secs == 0 && fix.progress_secs
                + 30 >= move_secs);
            let only = DeviceConfig { vehicle_filter: VehicleFilter::StationaryOnly, ..config };
            let all = DeviceConfig { vehicle_filter: VehicleFilter::All, ..config };
            let with = placed(product, store, only, vehicle_idx, fix, coord);
            let without = placed(product, store, all, vehicle_idx, fix, coord);
            &&& stationary ==> with == without
            &&& !stationary ==> with.shown is None && with.report is None
        }),
{
    let only = DeviceConfig { vehicle_filter: VehicleFilter::StationaryOnly, ..config };
    let all = DeviceConfig { vehicle_filter: VehicleFilter::All, ..config };
    lemma_same_closest_pixels(product, only, all, coord);
}

/// The filter by distance takes the pixel that is taken without it, if its location is no farther
/// from the vehicle than the threshold, and else none.
pub proof fn lemma_distance_filter(
    nodes: Seq<LocPixNode>,
    cos_lat_q15: int,
    config: DeviceConfig,
    coord: (i32, i32),
    path: Seq<LocPixEdgeDirected>,
    k: nat,
)
    ensures
        ({
            let near = DeviceConfig { vehicle_filter: VehicleFilter::WithinDistance, ..config };
            let all = DeviceConfig { vehicle_filter: VehicleFilter::All, ..config };
            let threshold = config.vehicle_distance_threshold_meters as int;
            closest_pixel(nodes, cos_lat_q15, near, coord, path, k) == (match closest_pixel(
                nodes,
                cos_lat_q15,
                all,
                coord,
                path,
                k,
            ) {
                Some((d, pix)) => if d <= threshold * threshold {
                    Some((d, pix))
                } else {
                    None
                },
                None => None,
            })
        }),
    decreases k,
{
    if k > 0 {
        lemma_distance_filter(nodes, cos_lat_q15, config, coord, path, (k - 1) as nat);
    }
}

/// Where several locations of a path are as near as any, the lowest pixel among theirs is taken.
pub proof fn lemma_lowest_of_closest_pixels(
    nodes: Seq<LocPixNode>,
    cos_lat_q15: int,
    config: DeviceConfig,
    coord: (i32, i32),
    path: Seq<LocPixEdgeDirected>,
    k: nat,
)
    requires
        k <= path.len(),
    ensures
        closest_pixel(nodes, cos_lat_q15, config, coord, path, k) matches Some((d, pix)) ==> {
            let (lat, lng) = coord;
            forall|i: int|
                0 <= i < k && dist_sq_meters(
                    lat as int,
                    lng as int,
                    nodes[path[i].from_loc as int],
                    cos_lat_q15,
                ) == d ==> pix <= (#[trigger] path[i]).from_pix
        },
    decreases k,
{
    if k > 0 {
        lemma_lowest_of_closest_pixels(nodes, cos_lat_q15, config, coord, path, (k - 1) as nat);
        lemma_closest_pixel(nodes, cos_lat_q15, config, coord, path, (k - 1) as nat);
        let (lat, lng) = coord;
        let at = |i: int|
            dist_sq_meters(lat as int, lng as int, nodes[path[i].from_loc as int], cos_lat_q15);
        assert forall|i: int| 0 <= i < k implies at(i) == dist_sq_meters(
            lat as int,
            lng as int,
            nodes[(#[trigger] path[i]).from_loc as int],
            cos_lat_q15,
        ) by {};
        let best = closest_pixel(nodes, cos_lat_q15, config, coord, path, (k - 1) as nat);
        if let Some((d, pix)) = closest_pixel(nodes, cos_lat_q15, config, coord, path, k) {
            assert forall|i: int| 0 <= i < k && at(i) == d implies pix <= (#[trigger]
            path[i]).from_pix by {
                if i < k - 1 {
                    assert(!near_enough(config, at(i)) || near_enough(config, d));
                    if let Some((b, _)) = best {
                        assert(b <= at(i));
                    }
                }
            }
        }
    }
}

/// The distance of two places is that of the whole meters between them to the north and to the
/// east: for 65536 ten-millionths of a degree 729 meters, and to the east as much less as the
/// cosine of the latitude is less than 32768.
pub proof fn lemma_dist_sq_meters(
    lat: int,
    lng: int,
    loc: LocPixNode,
    cos_lat_q15: int,
    north: int,
    east: int,
)
    requires
        north * 0x1_0000 <= (loc.lat_e7 - lat) * 729 < (north + 1) * 0x1_0000,
        east * 0x8000_0000 <= (loc.lng_e7 - lng) * 729 * cos_lat_q15 < (east + 1) * 0x8000_0000,
    ensures
        dist_sq_meters(lat, lng, loc, cos_lat_q15) == north * north + east * east,
{
    let (n, e) = ((loc.lat_e7 - lat) * 729, (loc.lng_e7 - lng) * 729 * cos_lat_q15);
    assert(n / 0x1_0000 == north);
    assert(e / 0x8000_0000 == east);
    let dy = ((loc.lat_e7 - lat) * 729) / 0x1_0000;
    let dx = ((loc.lng_e7 - lng) * 729 * cos_lat_q15) / 0x8000_0000;
    assert(dx * dx + dy * dy == north * north + east * east) by (nonlinear_arith)
        requires
            dx == east,
            dy == north,
    ;
}

/// A vehicle is shown only if its line is known and configured, and is not one that the user has
/// turned off; as bright as the user has set the line, but no brighter than in full; in the color
/// of the line, or that which the user has set for it, if colors go by lines. The configuration is
/// the first one with the name of the line.
pub proof fn lemma_line_settings(
    product: ProductConfig,
    store: TransitDataStore,
    config: DeviceConfig,
    vehicle_idx: usize,
    fix: VehicleFix,
    coord: (i32, i32),
    line_id: u32,
    c: int,
)
    requires
        line_id == util::high16(
            store.data.vehicle_movements@[vehicle_idx as int].line_id_x_trip_id,
        ),
        line_id < store.data.lines@.len(),
        0 <= c < config.line_configs@.len(),
        config.line_configs@[c].line_name@ == store.data.lines@[line_id as int].name@,
        forall|j: int|
            0 <= j < c ==> (#[trigger] config.line_configs@[j]).line_name@
                != store.data.lines@[line_id as int].name@,
    ensures
        ({
            let line = store.data.lines@[line_id as int];
            let line_config = config.line_configs@[c];
            let r = placed(product, store, config, vehicle_idx, fix, coord);
            &&& line_config.has_override && !line_config.enabled ==> r.shown is None && r.report
                is None
            &&& r.shown matches Some(s) ==> {
                &&& s.brightness_percent <= 100
                &&& !line_config.has_override ==> s.brightness_percent == 100
                &&& line_config.has_override && line_config.brightness_percent <= 100
                    ==> s.brightness_percent == line_config.brightness_percent
                &&& line_config.has_override && line_config.brightness_percent > 100
                    ==> s.brightness_percent == 100
                &&& config.color_mode == ColorMode::Original || config.color_mode is Unknown
                    ==> s.color == ColorPlan::Fixed(
                    util::unpacked_rgb8(
                        if line_config.has_override {
                            line_config.override_color_rgb8
                        } else {
                            line.color_rgb8
                        },
                    ),
                )
            }
        }),
{
    transit_data::lemma_config_found(
        config.line_configs@,
        store.data.lines@[line_id as int].name@,
        0,
    );
}

/// A vehicle is left out without a report only because of a filter: as one that moves, as one of a
/// line that is turned off, as one of unknown delay, or as one that is too far from the map.
pub proof fn lemma_left_out_by_a_filter(
    product: ProductConfig,
    store: TransitDataStore,
    config: DeviceConfig,
    vehicle_idx: usize,
    fix: VehicleFix,
    coord: (i32, i32),
)
    requires
        config::valid_map(product.loc_pix_nodes@),
        store.wf(product.loc_pix_nodes@.len()),
        valid_fix(store, vehicle_idx, fix),
        config.vehicle_filter != VehicleFilter::StationaryOnly,
        config.vehicle_filter != VehicleFilter::WithinDistance,
        config.realtime_filter != RealtimeFilter::RealtimeOnly,
        forall|c: int|
            0 <= c < config.line_configs@.len() && (#[trigger] config.line_configs@[c]).has_override
                ==> config.line_configs@[c].enabled,
    ensures
        ({
            let r = placed(product, store, config, vehicle_idx, fix, coord);
            r.shown is Some <==> r.report is None
        }),
{
    let nodes = product.loc_pix_nodes@;
    let segment =
        store.data.vehicle_movements@[vehicle_idx as int].segments@[fix.segment_idx as int];
    let from_id = util::high16(segment.from_stop_id_x_to_stop_id);
    let to_id = util::low16(segment.from_stop_id_x_to_stop_id);
    let map = store.state.stop_id_to_loc_id_map@;
    let (cap, path_cap) = (MAX_OPEN_NODES as nat, MAX_PATH_LEN as nat);
    let line_id = util::high16(
        store.data.vehicle_movements@[vehicle_idx as int].line_id_x_trip_id,
    );
    transit_data::lemma_config_found(
        config.line_configs@,
        store.data.lines@[line_id as int].name@,
        0,
    );
    if let (Some(from_loc_id), Some(to_loc_id)) = (mapped(map, from_id), mapped(map, to_id)) {
        assert(map[from_id as int]@ == Some(from_loc_id));
        assert(map[to_id as int]@ == Some(to_loc_id));
        ways::lemma_search_result(nodes, from_loc_id, to_loc_id, cap, path_cap);
        if let Ok(path) = ways::search_result(nodes, from_loc_id, to_loc_id, cap, path_cap) {
            let cos = product.cos_lat_q15 as int;
            lemma_closest_pixel(nodes, cos, config, coord, path, path.len());
            assert(routes::path_locs(path).len() > 0);
            let (lat, lng) = coord;
            let at = |i: int|
                dist_sq_meters(lat as int, lng as int, nodes[path[i].from_loc as int], cos);
            assert(near_enough(config, at(0)));
        }
    }
}

/// What is reported of a vehicle is so: the line is not in the data, or has no configuration; the
/// stop that the vehicle comes from, or goes to, has no location on the map.
pub proof fn lemma_vehicle_reports_are_true(
    product: ProductConfig,
    store: TransitDataStore,
    config: DeviceConfig,
    vehicle_idx: usize,
    fix: VehicleFix,
    coord: (i32, i32),
)
    requires
        valid_fix(store, vehicle_idx, fix),
    ensures
        ({
            let movement = store.data.vehicle_movements@[vehicle_idx as int];
            let segment = movement.segments@[fix.segment_idx as int];
            let line = util::high16(movement.line_id_x_trip_id);
            let (from_id, to_id) = (
                util::high16(segment.from_stop_id_x_to_stop_id),
                util::low16(segment.from_stop_id_x_to_stop_id),
            );
            let map = store.state.stop_id_to_loc_id_map@;
            let r = placed(product, store, config, vehicle_idx, fix, coord);
            &&& r.shown matches Some(s) ==> {
                &&& s.pixel != 0xFFFF
                &&& r.report is None
                &&& line < store.data.lines@.len()
                &&& from_id < map.len() && map[from_id as int]@ is Some
                &&& to_id < map.len() && map[to_id as int]@ is Some
            }
            &&& match r.report {
                Some(Report::VehicleLineInvalid { vehicle_idx: v, line_id }) => {
                    v == vehicle_idx && line_id == line && line >= store.data.lines@.len()
                },
                Some(Report::VehicleLineWithoutConfig { vehicle_idx: v, line_id }) => {
                    &&& v == vehicle_idx && line_id == line
                    &&& forall|c: int|
                        0 <= c < config.line_configs@.len() ==> (
                        #[trigger] config.line_configs@[c]).line_name@
                            != store.data.lines@[line as int].name@
                },
                Some(
                    Report::VehicleFromStopUnmapped {
                        vehicle_idx: v,
                        line_id,
                        stop_id,
                        longitude_e7,
                        ..
                    },
                ) => {
                    &&& v == vehicle_idx && line_id == line && stop_id == from_id
                    &&& from_id >= map.len() || map[from_id as int]@ is None
                    &&& longitude_e7 == store.data.stops@[from_id as int].longitude_e7
                },
                Some(
                    Report::VehicleToStopUnmapped {
                        vehicle_idx: v,
                        line_id,
                        stop_id,
                        longitude_e7,
                        ..
                    },
                ) => {
                    &&& v == vehicle_idx && line_id == line && stop_id == to_id
                    &&& from_id < map.len() && map[from_id as int]@ is Some
                    &&& to_id >= map.len() || map[to_id as int]@ is None
                    &&& longitude_e7 == store.data.stops@[to_id as int].longitude_e7
                },
                Some(Report::VehicleWithoutPath { vehicle_idx: v, line_id, route, .. }) => {
                    &&& v == vehicle_idx && line_id == line
                    &&& map[from_id as int]@ == Some(route.from_loc_id)
                    &&& map[to_id as int]@ == Some(route.to_loc_id)
                    &&& route.from_longitude_e7 == store.data.stops@[from_id as int].longitude_e7
                    &&& route.to_longitude_e7 == store.data.stops@[to_id as int].longitude_e7
                },
                Some(Report::VehiclePixelInvalid { vehicle_idx: v, line_id, route }) => {
                    &&& v == vehicle_idx && line_id == line
                    &&& map[from_id as int]@ == Some(route.from_loc_id)
                    &&& map[to_id as int]@ == Some(route.to_loc_id)
                },
                Some(_) => false,
                None => true,
            }
        }),
{
    let line = util::high16(store.data.vehicle_movements@[vehicle_idx as int].line_id_x_trip_id);
    transit_data::lemma_config_found(
        config.line_configs@,
        store.data.lines@[line as int].name@,
        0,
    );
}

/// The color of a vehicle for each way to color them. One color for all is the first of the
/// configured ones. Else colors go over from the first to the second: evenly over the lines, with
/// the delay from the least to the most minutes, or with the speed from the most to the least
/// kilometers an hour. Past either end it is the color of that end. An unknown delay has the third
/// color.
pub proof fn lemma_color_modes(
    config: DeviceConfig,
    lines: nat,
    line_id: u32,
    line_color: RGB8,
    segment: Segment,
)
    requires
        lines <= usize::MAX,
    ensures
        ({
            let plan = color_plan(config, lines, line_id, line_color, segment);
            let word = segment.delayed_seconds_x_average_speed_kmph as int;
            let (delay, speed) = (word / 0x10000, word % 0x10000);
            &&& plan matches ColorPlan::Blend { from, to, part, whole, .. } ==> {
                &&& from == colors::hsv_of(util::unpacked_rgb8(config.primary_color_rgb8))
                &&& to == colors::hsv_of(util::unpacked_rgb8(config.secondary_color_rgb8))
                &&& 0 <= part <= whole
                &&& 0 < whole
            }
            &&& match config.color_mode {
                ColorMode::Original | ColorMode::Unknown(_) => plan == ColorPlan::Fixed(line_color),
                ColorMode::Monochrome => plan == ColorPlan::Fixed(
                    util::unpacked_rgb8(config.primary_color_rgb8),
                ),
                ColorMode::RangeSpacedApart => plan matches ColorPlan::Blend {
                    part,
                    whole,
                    reversed,
                    ..
                } && {
                    &&& !reversed
                    &&& lines > 0 ==> whole == lines
                    &&& line_id < lines ==> part == line_id
                },
                ColorMode::DelayHeatmap => if delay == 0x7FFF {
                    plan == ColorPlan::Fixed(util::unpacked_rgb8(config.tertiary_color_rgb8))
                } else {
                    let (least, most) = (config.min_delay_minutes, config.max_delay_minutes);
                    plan matches ColorPlan::Blend { part, whole, reversed, .. } && {
                        &&& !reversed
                        &&& least < most <= i32::MAX ==> {
                            &&& whole == (most - least) * 60
                            &&& delay <= least * 60 ==> part == 0
                            &&& least * 60 <= delay <= most * 60 ==> part == delay - least * 60
                            &&& delay >= most * 60 ==> part == whole
                        }
                        &&& most <= least <= i32::MAX ==> {
                            &&& delay <= least * 60 ==> part == 0
                            &&& delay > least * 60 ==> part == whole
                        }
                    }
                },
                ColorMode::SpeedHeatmap => {
                    let (least, most) = (config.min_speed_kmph, config.max_speed_kmph);
                    plan matches ColorPlan::Blend { part, whole, reversed, .. } && {
                        &&& reversed
                        &&& least < most <= i32::MAX ==> {
                            &&& whole == most - least
                            &&& speed <= least ==> part == 0
                            &&& least <= speed <= most ==> part == speed - least
                            &&& speed >= most ==> part == whole
                        }
                        &&& most <= least <= i32::MAX ==> {
                            &&& speed <= least ==> part == 0
                            &&& speed > least ==> part == whole
                        }
                    }
                },
            }
        }),
{
}

/// A vehicle that is shown has the pixel and the color that it is to have, and one that is not has
/// none. It is left as it was exactly if it has that pixel and that color already.
pub proof fn lemma_vehicle_has_its_pixel(
    vehicle: RenderedVehicle,
    shown: Option<VehicleShown>,
    color: RGB8,
    now_ms: u32,
)
    requires
        shown matches Some(s) ==> s.pixel != u16::MAX,
    ensures
        ({
            let after = vehicle_after(vehicle, shown, color, now_ms);
            match shown {
                Some(s) => {
                    &&& after.cur.idx@ == Some(s.pixel)
                    &&& after.cur.rgb == color
                    &&& vehicle.cur.idx@ == Some(s.pixel) && vehicle.cur.rgb == color ==> after
                        == vehicle
                    &&& vehicle.cur.idx@ != Some(s.pixel) || vehicle.cur.rgb != color
                        ==> after.prev == vehicle.cur && after.last_updated_instant_ms == now_ms
                },
                None => {
                    &&& after.cur.idx@ is None
                    &&& after.prev == vehicle.cur
                    &&& after.last_updated_instant_ms == now_ms
                },
            }
        }),
{
    match shown {
        Some(s) => {
            util::lemma_non_max_views::<u16>(s.pixel);
            util::lemma_non_max_view_injective(vehicle.cur.idx, NonMax::spec_of(s.pixel));
        },
        None => {
            util::lemma_non_max_views::<u16>(0);
        },
    }
}

/// Each vehicle counts for one where it counts: as under way if it is located, as shown if it is
/// placed, as of known delay if it is shown and its delay is known, and for its line if its line
/// is that one. None counts for none.
pub proof fn lemma_each_vehicle_counts_once(
    located: Seq<VehicleLocated>,
    placed: Seq<VehiclePlaced>,
    movements: Seq<VehicleMovement>,
    line_idx: int,
    k: nat,
)
    ensures
        num_available(located, 0) == 0,
        num_visible(placed, 0) == 0,
        num_real_time(placed, 0) == 0,
        vehicles_on_line(movements, line_idx, 0) == 0,
        num_available(located, k + 1) - num_available(located, k) == (if located[k as int].fix
            is Some {
            1int
        } else {
            0
        }),
        num_visible(placed, k + 1) - num_visible(placed, k) == (if placed[k as int].shown is Some {
            1int
        } else {
            0
        }),
        num_real_time(placed, k + 1) - num_real_time(placed, k) == (match placed[k as int].shown {
            Some(s) => if s.real_time {
                1int
            } else {
                0
            },
            None => 0,
        }),
        vehicles_on_line(movements, line_idx, k + 1) - vehicles_on_line(movements, line_idx, k) == (
        if movements[k as int].line_id_x_trip_id as int / 0x10000 == line_idx {
            1int
        } else {
            0
        }),
{
}

/// The statistics hold those counts of all vehicles, and are no longer waited for. An instant that
/// is to be the first one stays once it is known.
pub proof fn lemma_vehicle_stats(
    stats: TransitDataStats,
    located: Seq<VehicleLocated>,
    placed: Seq<VehiclePlaced>,
    lines: Vec<AvailableVehicleLine>,
    known: Option<u32>,
    now: u32,
)
    requires
        located.len() <= u32::MAX,
        placed.len() == located.len(),
    ensures
        ({
            let after = vehicle_stats(stats, located, placed, lines);
            &&& !after.telemetry_pending
            &&& after.num_vehicles_available as u32 == num_available(located, located.len()) as u32
            &&& after.num_vehicles_visible as u32 == num_visible(placed, placed.len()) as u32
            &&& after.num_vehicles_visible_real_time as u32 == num_real_time(
                placed,
                placed.len(),
            ) as u32
            &&& after.available_vehicle_lines == lines
        }),
        first_of(known, now) == (if known is Some {
            known
        } else {
            Some(now)
        }),
{
}

/// What is reported of a vehicle comes after what is reported of those before it: first what was
/// wrong as it was located, then what was wrong as it was placed.
pub proof fn lemma_vehicle_reports_in_order(
    located: Seq<VehicleLocated>,
    placed: Seq<VehiclePlaced>,
    k: nat,
)
    ensures
        vehicle_reports(located, placed, 0).len() == 0,
        ({
            let before = vehicle_reports(located, placed, k);
            let after = vehicle_reports(located, placed, k + 1);
            let n = located[k as int].reports@.len();
            &&& after.len() == before.len() + n + (if placed[k as int].report is Some {
                1int
            } else {
                0
            })
            &&& after.take(before.len() as int) == before
            &&& forall|i: int|
                0 <= i < n ==> after[before.len() + i] == Effect::Report(
                    #[trigger] located[k as int].reports@[i],
                )
            &&& placed[k as int].report matches Some(report) ==> after.last() == Effect::Report(
                report,
            )
        }),
{
    assert(vehicle_reports(located, placed, k + 1).take(
        vehicle_reports(located, placed, k).len() as int,
    ) =~= vehicle_reports(located, placed, k));
}

/// The counts of vehicles name every line, in the order of the lines, and give for each how many
/// vehicles are on it.
pub proof fn lemma_counts_of_lines(
    counts: Seq<AvailableVehicleLine>,
    lines: Seq<Line>,
    movements: Seq<VehicleMovement>,
    i: int,
)
    requires
        counts_vehicles(counts, lines, movements),
        0 <= i < lines.len(),
        movements.len() <= u32::MAX,
    ensures
        counts.len() == lines.len(),
        counts[i].line_name@ == lines[i].name@,
        counts[i].vehicle_count == movements.filter(
            |m: VehicleMovement| m.line_id_x_trip_id as int / 0x10000 == i,
        ).len(),
{
    assert(counts[i].line_name@ == lines[i].name@);
    assert(movements.take(movements.len() as int) =~= movements);
    lemma_vehicles_on_line(movements, i, movements.len());
}

proof fn lemma_vehicles_on_line(movements: Seq<VehicleMovement>, i: int, k: nat)
    requires
        k <= movements.len(),
    ensures
        vehicles_on_line(movements, i, k) == movements.take(k as int).filter(
            |m: VehicleMovement| m.line_id_x_trip_id as int / 0x10000 == i,
        ).len(),
        vehicles_on_line(movements, i, k) <= k,
    decreases k,
{
    let f = |m: VehicleMovement| m.line_id_x_trip_id as int / 0x10000 == i;
    let part = movements.take(k as int);
    reveal(Seq::filter);
    if k > 0 {
        lemma_vehicles_on_line(movements, i, (k - 1) as nat);
        assert(part.drop_last() =~= movements.take(k - 1));
        assert(part.last() == movements[k - 1]);
    }
}

} // verus!

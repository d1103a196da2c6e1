//! The map, the transit data on it, and what the LEDs show.

use ledtransit::config::{LocGeoKdNode, LocPixEdge, LocPixNode, ProductConfig};
use ledtransit::display::animations::{
    self, LedStatusAnimationEvent, PixelsFrame, SnakeChance,
};
use ledtransit::display::colors::{self, ColorPlan, Hsv};
use ledtransit::display::disruption_render;
use ledtransit::display::led_driver::{self, LedDriver, PulseCode};
use ledtransit::display::leds::{self, LedColor, LedInterval, LedPixels, LedStatus};
use ledtransit::display::open_heap::{self, OpenLocNode};
use ledtransit::display::painter::{self, Base, DrawMode, DrawOp, DrawTimes, FrameStart, Light};
use ledtransit::display::path_find::{
    self, CameFromLocNode, ClosedLocNode, LocPixEdgeDirected, PathFindError,
};
use ledtransit::display::renderer::{self, PixelState, RenderedDisruption, RenderedVehicle};
use ledtransit::display::vehicle_motion::{self, VehiclePosition};
use ledtransit::display::vehicle_render;
use ledtransit::effects::{Effect, Effects};
use ledtransit::proto::{
    ColorMode, Disruption, DisruptionFilter, DisruptionMode, Line, LineConfig, RenderMode, Segment,
    Stop, TransitData, VehicleFilter, VehicleMovement, ViaStop,
};
use ledtransit::store::app_settings::persist::{self, PersistSettings};
use ledtransit::store::app_settings::session::SessionSettings;
use ledtransit::store::transit_data::{self, TransitDataStore};
use ledtransit::trace::Report;
use ledtransit::util::{self, NonMax, RGB8};

const STEP_E7: i32 = 100_000;

// A line of four locations from south to north, each with a pixel of its own.

const fn edge(to_loc: u16, from_pix: u16, to_pix: u16, dir: u16) -> LocPixEdge {
    LocPixEdge { to_loc, from_pix, to_pix, dir }
}

const EDGES_0: [LocPixEdge; 1] = [edge(1, 0, 1, 1)];
const EDGES_1: [LocPixEdge; 2] = [edge(2, 1, 2, 1), edge(0, 1, 0, 2)];
const EDGES_2: [LocPixEdge; 2] = [edge(3, 2, 3, 1), edge(1, 2, 1, 2)];
const EDGES_BACK: [LocPixEdge; 1] = [edge(1, 2, 1, 2)];
const EDGES_OTHER_TRACK: [LocPixEdge; 2] = [edge(2, 1, 2, 16), edge(0, 1, 0, 2)];
const EDGES_3: [LocPixEdge; 1] = [edge(2, 3, 2, 2)];

const fn node(i: i32, modes: u8, edges: &'static [LocPixEdge]) -> LocPixNode {
    LocPixNode { lat_e7: i * STEP_E7, lng_e7: 0, modes, edges }
}

const NODES: [LocPixNode; 4] =
    [node(0, 1, &EDGES_0), node(1, 3, &EDGES_1), node(2, 3, &EDGES_2), node(3, 1, &EDGES_3)];

const TREE: [LocGeoKdNode; 4] = [
    LocGeoKdNode { left: Some(1), right: Some(2), loc: 1 },
    LocGeoKdNode { left: None, right: None, loc: 0 },
    LocGeoKdNode { left: None, right: Some(3), loc: 2 },
    LocGeoKdNode { left: None, right: None, loc: 3 },
];

fn product() -> ProductConfig {
    ProductConfig {
        data_feed: "feed",
        pixel_count: 4,
        pixel_indices_special: &[0, 3],
        loc_geo_kd_tree: &TREE,
        loc_pix_nodes: &NODES,
        min_delay_minutes: 0,
        max_delay_minutes: 10,
        min_speed_kmph: 0,
        max_speed_kmph: 100,
        cos_lat_q15: 32767,
    }
}

fn settings() -> PersistSettings {
    persist::persist_settings_default(&product())
}

fn stop(i: i32) -> Stop {
    Stop { is_station_x_latitude_e7: (i * STEP_E7) | i32::MIN, longitude_e7: 0 }
}

fn pack(high: u32, low: u32) -> u32 {
    (high << 16) | low
}

fn segment(from: u32, to: u32, move_secs: u32, wait_secs: u32) -> Segment {
    Segment {
        from_stop_id_x_to_stop_id: pack(from, to),
        move_seconds_x_wait_seconds: pack(move_secs, wait_secs),
        canceled_x_start_offset_seconds_x_via_total_move_seconds: 0,
        delayed_seconds_x_average_speed_kmph: (60 << 16) | 40,
        via_stops: vec![],
    }
}

fn data() -> TransitData {
    TransitData {
        lines: vec![Line { name: "U1".to_string(), color_rgb8: 0x102030 }],
        stops: vec![stop(0), stop(1), stop(2), stop(3)],
        vehicle_movements: vec![VehicleMovement {
            line_id_x_trip_id: pack(0, 7),
            segments: vec![segment(0, 3, 90, 30)],
        }],
        disruptions: vec![Disruption {
            line_id_x_disruption_id: pack(0, 5),
            from_stop_id_x_to_stop_id: pack(1, 3),
            direction_hint_from_stop_id_x_to_stop_id: pack(0xFFFF, 0xFFFF),
            bidirectional_x_entire_line_x_affects_all_lines_x_stop_count: 0x8000_0003,
        }],
        sourced_at_unix_timestamp: 1000,
        simulated_until_unix_timestamp: 2000,
        feed_source: "source".to_string(),
    }
}

fn loaded(s: &mut PersistSettings) -> TransitDataStore {
    let mut store = None;
    let mut fx = Effects::new();
    transit_data::on_data(data(), 500, 1010, &product(), &mut store, s, &mut fx);
    store.unwrap()
}

// Paths

#[test]
fn heap_gives_the_smallest_first() {
    let mut heap = [OpenLocNode::default(); 4];
    let mut len = 0;
    for f in [5i64, 1, 4, 3] {
        let node = OpenLocNode { f, ..OpenLocNode::default() };
        assert!(open_heap::heap_push(&mut heap, &mut len, node));
    }
    assert!(!open_heap::heap_push(&mut heap, &mut len, OpenLocNode::default()));
    let mut popped = vec![];
    while len > 0 {
        popped.push(open_heap::heap_pop(&mut heap, &mut len).f);
    }
    assert_eq!(popped, vec![1, 3, 4, 5]);
}

#[test]
fn path_along_the_line() {
    let path = path_find::find_path(&NODES, 0, 3, 32, 8).unwrap();
    let locs: Vec<u16> = path.iter().map(|p| p.from_loc).collect();
    let pixels: Vec<u16> = path.iter().map(|p| p.from_pix).collect();
    assert_eq!(locs, vec![0, 1, 2, 3]);
    assert_eq!(pixels, vec![0, 1, 2, 3]);
    let back = path_find::find_path(&NODES, 3, 1, 32, 8).unwrap();
    let locs: Vec<u16> = back.iter().map(|p| p.from_loc).collect();
    assert_eq!(locs, vec![3, 2, 1]);
}

#[test]
fn paths_that_there_are_not() {
    assert_eq!(path_find::find_path(&NODES, 2, 2, 32, 8).err(), Some(PathFindError::NoPathFound));
    assert_eq!(path_find::find_path(&NODES, 0, 3, 32, 3).err(), Some(PathFindError::OutOfMemory));
    assert_eq!(path_find::find_path(&NODES, 0, 3, 0, 8).err(), Some(PathFindError::OutOfMemory));
    let apart = [node(0, 1, &EDGES_0), node(1, 2, &EDGES_1), node(2, 3, &EDGES_2)];
    let apart = [apart[0], apart[1], LocPixNode { edges: &EDGES_BACK, ..apart[2] }];
    assert_eq!(path_find::find_path(&apart, 0, 2, 32, 8).err(), Some(PathFindError::NoPathFound));
    assert_eq!(PathFindError::OutOfMemory.as_str(), "OutOfMemory");
    assert_eq!(PathFindError::NoPathFound.as_str(), "NoPathFound");
}

#[test]
fn trains_do_not_switch_tracks() {
    let nodes = [NODES[0], LocPixNode { edges: &EDGES_OTHER_TRACK, ..NODES[1] }, NODES[2], NODES[3]];
    assert_eq!(path_find::find_path(&nodes, 0, 3, 32, 8).err(), Some(PathFindError::NoPathFound));
}

// Four locations with two ways from the first to the last: straight by the third, or first by the
// second, from where trains come in to the third on another track.
const EDGES_S: [LocPixEdge; 2] = [edge(2, 0, 5, 1), edge(1, 1, 2, 2)];
const EDGES_B: [LocPixEdge; 2] = [edge(0, 2, 1, 1), edge(2, 3, 4, 2)];
const EDGES_X: [LocPixEdge; 3] = [edge(0, 5, 0, 1), edge(1, 4, 3, 0x10), edge(3, 6, 7, 2)];
const EDGES_X_ONE_TRACK: [LocPixEdge; 3] = [edge(0, 5, 0, 1), edge(1, 4, 3, 4), edge(3, 6, 7, 2)];
const EDGES_G: [LocPixEdge; 1] = [edge(2, 7, 6, 1)];

fn two_ways(edges_x: &'static [LocPixEdge]) -> [LocPixNode; 4] {
    let at = |lat_e7, lng_e7, edges| LocPixNode { lat_e7, lng_e7, modes: 1, edges };
    [at(0, 0, &EDGES_S), at(0, 3, &EDGES_B), at(1, 2, edges_x), at(0, 4, &EDGES_G)]
}

#[test]
fn shortest_of_two_ways() {
    for nodes in [two_ways(&EDGES_X), two_ways(&EDGES_X_ONE_TRACK)] {
        let path = path_find::find_path(&nodes, 0, 3, 8, 8).unwrap();
        let shown: Vec<(u16, u16)> = path.iter().map(|p| (p.from_loc, p.from_pix)).collect();
        assert_eq!(shown, vec![(0, 0), (2, 6), (3, 7)]);
    }
}

#[test]
fn room_for_the_open_ways() {
    let nodes = two_ways(&EDGES_X);
    assert_eq!(path_find::find_path(&nodes, 0, 3, 1, 8).err(), Some(PathFindError::OutOfMemory));
    let least = path_find::find_path(&nodes, 0, 3, 2, 3).unwrap();
    assert_eq!(path_find::find_path(&nodes, 0, 3, 500, 500).unwrap(), least);
    assert_eq!(path_find::find_path(&nodes, 0, 3, 2, 2).err(), Some(PathFindError::OutOfMemory));
    assert_eq!(path_find::find_path(&nodes, 1, 1, 2, 0).err(), Some(PathFindError::OutOfMemory));
}

#[test]
fn way_round_where_the_turn_is_forbidden() {
    // Straight on from the first location is forbidden at the third, so the way goes by the second.
    const EDGES: [LocPixEdge; 3] = [edge(0, 5, 0, 0x10), edge(1, 4, 3, 4), edge(3, 6, 7, 2)];
    let path = path_find::find_path(&two_ways(&EDGES), 0, 3, 8, 8).unwrap();
    let locs: Vec<u16> = path.iter().map(|p| p.from_loc).collect();
    assert_eq!(locs, vec![0, 1, 2, 3]);
    assert_eq!(
        path_find::find_path(&two_ways(&EDGES), 0, 3, 8, 3).err(),
        Some(PathFindError::OutOfMemory)
    );
    // If that turn is forbidden too, there is no way.
    const CLOSED: [LocPixEdge; 3] = [edge(0, 5, 0, 0x10), edge(1, 4, 3, 0x10), edge(3, 6, 7, 2)];
    assert_eq!(
        path_find::find_path(&two_ways(&CLOSED), 0, 3, 8, 8).err(),
        Some(PathFindError::NoPathFound)
    );
}

#[test]
fn location_passed_twice_on_the_way() {
    // Trains leave the second location to the last one only if they come from the third or fourth,
    // which lie on a loop.
    const A: [LocPixEdge; 1] = [edge(1, 0, 1, 1)];
    const B: [LocPixEdge; 4] =
        [edge(0, 1, 0, 0x10), edge(2, 2, 3, 0x20), edge(3, 4, 5, 1), edge(4, 6, 7, 2)];
    const C: [LocPixEdge; 2] = [edge(1, 3, 2, 1), edge(3, 3, 5, 2)];
    const D: [LocPixEdge; 2] = [edge(2, 5, 3, 1), edge(1, 5, 4, 2)];
    const E: [LocPixEdge; 1] = [edge(1, 7, 6, 1)];
    let at = |lat_e7, edges| LocPixNode { lat_e7, lng_e7: 0, modes: 1, edges };
    let nodes = [at(0, &A[..]), at(1, &B[..]), at(2, &C[..]), at(3, &D[..]), at(4, &E[..])];
    let path = path_find::find_path(&nodes, 0, 4, 8, 8).unwrap();
    let locs: Vec<u16> = path.iter().map(|p| p.from_loc).collect();
    assert_eq!(locs, vec![0, 1, 2, 3, 1, 4]);
    let pixels: Vec<u16> = path.iter().map(|p| p.from_pix).collect();
    assert_eq!(pixels, vec![0, 2, 3, 5, 6, 7]);
}

#[test]
fn modes_all_along_the_way() {
    // The short way has no mode for all of it, the long one has.
    const A: [LocPixEdge; 2] = [edge(1, 0, 1, 1), edge(2, 0, 2, 1)];
    const B: [LocPixEdge; 2] = [edge(0, 1, 0, 1), edge(3, 1, 3, 2)];
    const C: [LocPixEdge; 2] = [edge(0, 2, 0, 1), edge(3, 2, 3, 2)];
    const D: [LocPixEdge; 2] = [edge(1, 3, 1, 1), edge(2, 3, 2, 1)];
    let at = |lng_e7, modes, edges| LocPixNode { lat_e7: 0, lng_e7, modes, edges };
    let nodes = [at(0, 3, &A[..]), at(1, 1, &B[..]), at(9, 2, &C[..]), at(2, 2, &D[..])];
    let path = path_find::find_path(&nodes, 0, 3, 8, 8).unwrap();
    let locs: Vec<u16> = path.iter().map(|p| p.from_loc).collect();
    assert_eq!(locs, vec![0, 2, 3]);
}

#[test]
fn path_in_buffers_of_the_caller() {
    let mut open = [OpenLocNode::default(); 16];
    let mut g = [0i64; 4];
    let mut came = [CameFromLocNode::default(); 4];
    let mut closed = [ClosedLocNode::default(); 4];
    let mut buf = [LocPixEdgeDirected::default(); 8];
    let path = path_find::find_shortest_path_between_pixel_locations(
        &NODES,
        1,
        3,
        &mut open,
        &mut g,
        &mut came,
        &mut closed,
        &mut buf,
    )
    .unwrap();
    let pixels: Vec<u16> = path.iter().map(|p| p.from_pix).collect();
    assert_eq!(pixels, vec![1, 2, 3]);
}

#[test]
fn random_steps_stay_on_the_map() {
    let (mut loc, mut dir, mut modes) = (1u16, NonMax::<u16>::none(), 0xFFu8);
    let step = path_find::do_random_step_from_pixel_location(&NODES, &mut loc, &mut dir, &mut modes, 3);
    assert_eq!(step, Some((1, 0)));
    assert_eq!((loc, dir.as_option(), modes), (0, Some(1), 1));
    let step = path_find::do_random_step_from_pixel_location(&NODES, &mut loc, &mut dir, &mut modes, 0);
    assert_eq!(step, None);
    let (mut loc, mut dir, mut modes) = (1u16, NonMax::<u16>::new_unchecked(2), 1u8);
    let step = path_find::do_random_step_from_pixel_location(&NODES, &mut loc, &mut dir, &mut modes, 7);
    assert_eq!(step, Some((1, 2)));
    assert_eq!(loc, 2);
}

// Transit data

#[test]
fn nearest_location() {
    let find = |lat, lng| {
        transit_data::lookup_nearest_pixel_location_id_to_coord(&TREE, &NODES, lat, lng)
    };
    assert_eq!(find(10, 0), Some(0));
    assert_eq!(find(160_000, 5), Some(2));
    assert_eq!(find(140_000, -5), Some(1));
    assert_eq!(find(i32::MAX, i32::MIN), Some(3));
    for lat in (-50_000..400_000).step_by(3_333) {
        let expected = (0..4u16).min_by_key(|i| (*i as i32 * STEP_E7 - lat).abs()).unwrap();
        assert_eq!(find(lat, 77), Some(expected), "{}", lat);
    }
}

#[test]
fn stations_have_a_latitude_too() {
    let s = Stop { is_station_x_latitude_e7: 525_000_000 | i32::MIN, longitude_e7: 1 };
    assert_eq!(transit_data::get_latitude(&s), 525_000_000);
    assert_eq!(transit_data::get_latitude(&stop(2)), 200_000);
    let other = Stop { is_station_x_latitude_e7: 200_000, longitude_e7: 1 };
    assert_eq!(transit_data::get_latitude(&other), 200_000);
}

#[test]
fn new_data_is_stored() {
    let mut s = settings();
    let mut store = None;
    let mut fx = Effects::new();
    assert!(!transit_data::is_set(&store));
    transit_data::on_data(data(), 500, 1010, &product(), &mut store, &mut s, &mut fx);
    assert!(transit_data::is_set(&store));
    assert_eq!(s.config.line_configs.len(), 1);
    assert_eq!(s.config.line_configs[0].line_name, "U1");
    assert_eq!(s.config.line_configs[0].original_color_rgb8, 0x102030);
    assert!(fx.list.iter().any(|e| matches!(e, Effect::StorePersistSettings)));
    let st = store.as_ref().unwrap();
    let map: Vec<Option<u16>> =
        st.state.stop_id_to_loc_id_map.iter().map(|l| l.as_option()).collect();
    assert_eq!(map, vec![Some(0), Some(1), Some(2), Some(3)]);
    let stats = transit_data::get_stats(&store);
    assert_eq!(stats.received_at_timestamp, 1010);
    assert_eq!(stats.sourced_at_timestamp, 1000);
    assert_eq!(stats.simulated_until_timestamp, 2000);
    assert_eq!(stats.feed_source, "source");
    let mut fx = Effects::new();
    transit_data::on_data(data(), 1000, 1020, &product(), &mut store, &mut s, &mut fx);
    assert!(fx.list.is_empty());
    assert_eq!(transit_data::get_stats(&store).transit_data_downlink_bytes_per_second, 100);
    transit_data::reset(&mut store);
    assert!(!transit_data::is_set(&store));
}

#[test]
fn stop_far_from_the_map_is_reported() {
    let mut s = settings();
    let mut store = None;
    let mut fx = Effects::new();
    let far = TransitData { stops: vec![stop(0), stop(50)], ..data() };
    transit_data::on_data(far, 500, 1010, &product(), &mut store, &mut s, &mut fx);
    assert!(matches!(
        fx.list[0],
        Effect::Report(Report::StopTooFarFromLocation { stop_idx: 1, loc_id: 3, .. })
    ));
    assert!(store.unwrap().state.stop_id_to_loc_id_map[1].is_none());
}

#[test]
fn trips_go_on_with_new_data() {
    let mut s = settings();
    let mut store = Some(loaded(&mut s));
    let shown = PixelState { rgb: RGB8 { r: 1, g: 2, b: 3 }, idx: NonMax::new_unchecked(2) };
    store.as_mut().unwrap().state.renderer_out.vehicles[0].cur = shown;
    let mut fx = Effects::new();
    transit_data::on_data(data(), 500, 1020, &product(), &mut store, &mut s, &mut fx);
    let cur = store.unwrap().state.renderer_out.vehicles[0].cur;
    assert_eq!((cur.rgb, cur.idx.as_option()), (shown.rgb, Some(2)));
}

#[test]
fn lines_settle() {
    let mut s = settings();
    let mut store = Some(loaded(&mut s));
    let mut fx = Effects::new();
    transit_data::update_line_configs(&store, &mut s, &mut fx);
    assert!(fx.list.is_empty());
    store.as_mut().unwrap().data.lines[0].color_rgb8 = 0x405060;
    transit_data::update_line_configs(&store, &mut s, &mut fx);
    assert_eq!(s.config.line_configs[0].original_color_rgb8, 0x405060);
    assert!(!fx.list.is_empty());
    assert_eq!(
        transit_data::find_line_config(&s.config.line_configs, 1, &"U1".to_string()),
        Some(0)
    );
    assert_eq!(
        transit_data::find_line_config(&s.config.line_configs, 1, &"U2".to_string()),
        None
    );
}

#[test]
fn each_line_has_one_configuration() {
    let mut s = settings();
    let mut store = Some(loaded(&mut s));
    let lines = &mut store.as_mut().unwrap().data.lines;
    lines[0].color_rgb8 = 0x111111;
    lines.push(Line { name: "U9".to_string(), color_rgb8: 0x222222 });
    s.config.line_configs[0].has_override = true;
    s.config.line_configs[0].override_color_rgb8 = 0x0A0B0C;
    s.config.line_configs.push(LineConfig {
        line_name: "S1".to_string(),
        enabled: false,
        has_override: false,
        brightness_percent: 30,
        original_color_rgb8: 0x333333,
        override_color_rgb8: 0x333333,
    });
    let mut fx = Effects::new();
    transit_data::update_line_configs(&store, &mut s, &mut fx);
    let colors: Vec<(&str, u32, u32)> = s
        .config
        .line_configs
        .iter()
        .map(|c| (c.line_name.as_str(), c.original_color_rgb8, c.override_color_rgb8))
        .collect();
    assert_eq!(
        colors,
        vec![
            ("U1", 0x111111, 0x0A0B0C),
            ("S1", 0x333333, 0x333333),
            ("U9", 0x222222, 0x222222),
        ]
    );
    assert!(!s.config.line_configs[1].enabled);
}

#[test]
fn clearing_keeps_what_is_rendered() {
    let mut s = settings();
    let mut store = Some(loaded(&mut s));
    transit_data::clear(&mut store);
    let st = store.unwrap();
    assert!(st.data.lines.is_empty() && st.data.vehicle_movements.is_empty());
    assert!(st.state.stop_id_to_loc_id_map.is_empty());
    assert_eq!(st.state.renderer_out.vehicles.len(), 1);
}

#[test]
fn changed_configuration_renders_anew() {
    let mut s = settings();
    let mut store = Some(loaded(&mut s));
    let mut fx = Effects::new();
    transit_data::on_config_updated(&mut store, 77, &mut fx);
    assert!(matches!(fx.list[0], Effect::RenderNow));
    let state = store.unwrap().state.rendered_state;
    assert_eq!(state.config_last_changed_at_instant_ms, 77);
    assert!(state.disruptions_render_pending);
}

// Vehicles

#[test]
fn vehicles_move_between_stops() {
    let at = |now| vehicle_motion::locate_vehicle(&data(), 0, now);
    match at(1045).fix.unwrap().position {
        VehiclePosition::Between {
            from_latitude_e7,
            to_latitude_e7,
            elapsed_secs,
            leg_secs,
            ..
        } => {
            assert_eq!((from_latitude_e7, to_latitude_e7), (0, 300_000));
            assert_eq!((elapsed_secs, leg_secs), (45, 90));
        }
        other => panic!("{:?}", other),
    }
    match at(1100).fix.unwrap().position {
        VehiclePosition::At { latitude_e7, .. } => assert_eq!(latitude_e7, 300_000),
        other => panic!("{:?}", other),
    }
    assert!(at(999).fix.is_none());
    assert!(at(1120).fix.is_none());
    assert!(at(1119).fix.is_some());
    assert!(at(1000).reports.is_empty());
    assert_eq!(vehicle_motion::locate_vehicles(&data(), 1045).len(), 1);
}

#[test]
fn vehicles_move_by_stops_on_the_way() {
    let mut d = data();
    let s = &mut d.vehicle_movements[0].segments[0];
    s.via_stops = vec![ViaStop { stop_id_x_move_seconds: pack(1, 40) }];
    s.canceled_x_start_offset_seconds_x_via_total_move_seconds = 40;
    match vehicle_motion::locate_vehicle(&d, 0, 1030).fix.unwrap().position {
        VehiclePosition::Between { to_latitude_e7, elapsed_secs, leg_secs, .. } => {
            assert_eq!((to_latitude_e7, elapsed_secs, leg_secs), (100_000, 30, 40));
        }
        other => panic!("{:?}", other),
    }
    match vehicle_motion::locate_vehicle(&d, 0, 1060).fix.unwrap().position {
        VehiclePosition::Between {
            from_latitude_e7, to_latitude_e7, elapsed_secs, leg_secs, ..
        } => {
            assert_eq!((from_latitude_e7, to_latitude_e7), (100_000, 300_000));
            assert_eq!((elapsed_secs, leg_secs), (20, 50));
        }
        other => panic!("{:?}", other),
    }
}

#[test]
fn vehicles_start_before_the_data() {
    let mut d = data();
    let s = &mut d.vehicle_movements[0].segments[0];
    s.canceled_x_start_offset_seconds_x_via_total_move_seconds = pack(0x7FF6, 0);
    let located = vehicle_motion::locate_vehicle(&d, 0, 995);
    assert_eq!(located.fix.unwrap().progress_secs, 5);
}

#[test]
fn stops_that_there_are_not() {
    let mut d = data();
    d.vehicle_movements[0].segments[0].from_stop_id_x_to_stop_id = pack(9, 3);
    let located = vehicle_motion::locate_vehicle(&d, 0, 1045);
    assert!(located.fix.is_none());
    assert!(matches!(
        located.reports[0],
        Report::VehicleFromStopInvalid { vehicle_idx: 0, stop_id: 9 }
    ));
    assert_eq!(vehicle_motion::get_stop_coord(&data().stops, 2), Some((200_000, 0)));
    assert_eq!(vehicle_motion::get_stop_coord(&data().stops, 4), None);
}

#[test]
fn distances_in_meters() {
    let d = vehicle_render::approx_dist_sq_meters_e7(0, 0, 100_000, 0, 32767);
    assert_eq!(d, 1112 * 1112);
    let d = vehicle_render::approx_dist_sq_meters_e7(0, 0, 0, 100_000, 16384);
    assert_eq!(d, 556 * 556);
}

#[test]
fn vehicles_are_placed_on_the_nearest_pixel() {
    let mut s = settings();
    let store = loaded(&mut s);
    let located = vehicle_motion::locate_vehicles(&store.data, 1045);
    let place = |lat: i32, s: &PersistSettings| {
        vehicle_render::place_vehicles(&product(), &store, &s.config, &located, &vec![(lat, 0)])
            .pop()
            .unwrap()
    };
    let shown = place(190_000, &s).shown.unwrap();
    assert_eq!(shown.pixel, 2);
    assert_eq!(shown.color, ColorPlan::Fixed(RGB8 { r: 0x10, g: 0x20, b: 0x30 }));
    assert_eq!(shown.brightness_percent, 100);
    assert!(shown.real_time);
    assert_eq!(place(149_000, &s).shown.unwrap().pixel, 1);
    assert_eq!(place(151_000, &s).shown.unwrap().pixel, 2);
    s.config.vehicle_filter = VehicleFilter::WithinDistance;
    s.config.vehicle_distance_threshold_meters = 100;
    assert!(place(150_000, &s).shown.is_none());
    assert_eq!(place(200_100, &s).shown.unwrap().pixel, 2);
    s.config.vehicle_filter = VehicleFilter::StationaryOnly;
    assert!(place(190_000, &s).shown.is_none());
    s.config.vehicle_filter = VehicleFilter::All;
    s.config.line_configs[0].has_override = true;
    s.config.line_configs[0].enabled = false;
    assert!(place(190_000, &s).shown.is_none());
    s.config.line_configs[0].enabled = true;
    s.config.line_configs[0].override_color_rgb8 = 0x0A0B0C;
    s.config.line_configs[0].brightness_percent = 40;
    let shown = place(190_000, &s).shown.unwrap();
    assert_eq!(shown.color, ColorPlan::Fixed(RGB8 { r: 10, g: 11, b: 12 }));
    assert_eq!(shown.brightness_percent, 40);
    s.config.color_mode = ColorMode::DelayHeatmap;
    match place(190_000, &s).shown.unwrap().color {
        ColorPlan::Blend { part, whole, reversed, .. } => {
            assert_eq!((part, whole, reversed), (60, 600, false))
        }
        other => panic!("{:?}", other),
    }
    s.config.color_mode = ColorMode::SpeedHeatmap;
    match place(190_000, &s).shown.unwrap().color {
        ColorPlan::Blend { part, whole, reversed, .. } => {
            assert_eq!((part, whole, reversed), (40, 100, true))
        }
        other => panic!("{:?}", other),
    }
    s.config.color_mode = ColorMode::Monochrome;
    assert_eq!(
        place(190_000, &s).shown.unwrap().color,
        ColorPlan::Fixed(RGB8 { r: 31, g: 255, b: 102 })
    );
    assert_eq!(
        vehicle_render::get_mapped(&store.state.stop_id_to_loc_id_map, 3),
        Some(3)
    );
    assert_eq!(vehicle_render::get_mapped(&store.state.stop_id_to_loc_id_map, 4), None);
}

#[test]
fn rendered_vehicles_are_stored() {
    let mut s = settings();
    let mut store = loaded(&mut s);
    let located = vehicle_motion::locate_vehicles(&store.data, 1045);
    let placed = vehicle_render::place_vehicles(
        &product(),
        &store,
        &s.config,
        &located,
        &vec![(190_000, 0)],
    );
    let color = RGB8 { r: 9, g: 8, b: 7 };
    let mut fx = Effects::new();
    vehicle_render::store_vehicles(&mut store, &located, &placed, &vec![color], 5000, &mut fx);
    let v: RenderedVehicle = store.state.renderer_out.vehicles[0];
    assert_eq!(v.cur.to_option().unwrap().idx, 2);
    assert_eq!(v.cur.rgb, color);
    assert!(v.prev.to_option().is_none());
    assert_eq!(v.last_updated_instant_ms, 5000);
    assert_eq!(store.stats.num_vehicles_visible, 1);
    assert_eq!(store.stats.num_vehicles_visible_real_time, 1);
    assert_eq!(store.stats.num_vehicles_available, 1);
    assert_eq!(store.stats.available_vehicle_lines[0].line_name, "U1");
}

// Disruptions

#[test]
fn disruptions_cover_the_way_between_stops() {
    let mut s = settings();
    s.config.disruption_mode = DisruptionMode::Solid;
    let mut store = loaded(&mut s);
    let color = RGB8 { r: 200, g: 0, b: 0 };
    let mut fx = Effects::new();
    disruption_render::render_disruptions(
        &product(),
        &mut store,
        &s.config,
        color,
        3000,
        &mut fx,
    );
    assert!(store.state.renderer_out.disruptions[0].pixels.is_empty());
    s.config.disruption_filter = DisruptionFilter::All;
    disruption_render::render_disruptions(
        &product(),
        &mut store,
        &s.config,
        color,
        4000,
        &mut fx,
    );
    let d: &RenderedDisruption = &store.state.renderer_out.disruptions[0];
    assert_eq!(d.pixels, vec![1, 2, 3]);
    assert_eq!(d.cur_rgb, color);
    assert_eq!(store.stats.num_disruptions_visible, 1);
    assert_eq!(store.stats.num_disruptions_available, 1);
    assert_eq!(store.stats.available_disrupted_lines[0].line_name, "U1");
    assert!(store.stats.available_disrupted_lines[0].bidirectional);
    assert_eq!(store.stats.available_disrupted_lines[0].stop_count, 3);
}

#[test]
fn disruption_of_a_line_that_there_is_not() {
    let mut s = settings();
    let mut store = loaded(&mut s);
    store.data.disruptions[0].line_id_x_disruption_id = pack(4, 5);
    let mut fx = Effects::new();
    disruption_render::render_disruptions(
        &product(),
        &mut store,
        &s.config,
        util::black(),
        4000,
        &mut fx,
    );
    assert!(fx.list.iter().any(|e| matches!(
        e,
        Effect::Report(Report::DisruptionLineInvalid { disruption_idx: 0, line_id: 4 })
    )));
}

#[test]
fn turns_of_the_renderer() {
    let mut s = settings();
    let session = SessionSettings { light_on: true, ..SessionSettings::default() };
    let store = Some(loaded(&mut s));
    assert!(!renderer::plan_turn(&s, &session, &store).vehicles);
    s.access_token = Some("t".to_string());
    assert!(renderer::plan_turn(&s, &session, &store).vehicles);
    let mut fx = Effects::new();
    renderer::render_now(&mut fx);
    assert!(matches!(fx.list[0], Effect::RenderNow));
    assert!(PixelState::none().to_option().is_none());
}

// Frames

fn times() -> DrawTimes {
    DrawTimes { transition_duration_ms: 500, pulse_period_ms: 2000, ripple_delay_ms: 100 }
}

#[test]
fn first_frame_fades_out_before() {
    let mut s = settings();
    let mut store = Some(loaded(&mut s));
    assert_eq!(painter::start_frame(&None), FrameStart::NoData);
    assert_eq!(painter::start_frame(&store), FrameStart::FadeOutFirst);
    painter::mark_first_frame(store.as_mut().unwrap(), 123);
    assert_eq!(painter::start_frame(&store), FrameStart::Ready);
    assert!(painter::plan_frame(store.as_ref().unwrap(), &s.config, times(), 200).is_none());
}

#[test]
fn frames_draw_vehicles() {
    let mut s = settings();
    let mut store = loaded(&mut s);
    let located = vehicle_motion::locate_vehicles(&store.data, 1045);
    let placed = vehicle_render::place_vehicles(
        &product(),
        &store,
        &s.config,
        &located,
        &vec![(190_000, 0)],
    );
    let color = RGB8 { r: 9, g: 8, b: 7 };
    let mut fx = Effects::new();
    vehicle_render::store_vehicles(&mut store, &located, &placed, &vec![color], 5000, &mut fx);
    let ops = painter::plan_frame(&store, &s.config, times(), 9000).unwrap();
    assert_eq!(ops.len(), 1);
    assert_eq!(ops[0].pixel, 2);
    assert_eq!(ops[0].base, Base::Fixed(color));
    assert_eq!(ops[0].light, Light::Full);
    let ops = painter::plan_frame(&store, &s.config, times(), 5100).unwrap();
    assert_eq!(ops[0].light, Light::Part { part: 100, whole: 500, reversed: false });
    let mut pixels = vec![RGB8 { r: 1, g: 1, b: 1 }; 4];
    let mut fx = Effects::new();
    painter::finish_frame(&mut store, &mut pixels, &ops, &vec![color], &mut fx);
    assert_eq!(pixels, vec![util::black(), util::black(), color, util::black()]);
    assert_eq!(store.stats.num_pixels_on, 1);
    assert!(matches!(fx.list[0], Effect::UpdateLeds));
}

#[test]
fn what_is_on_top_shows() {
    let mut s = settings();
    let mut store = loaded(&mut s);
    let op = |height| DrawOp {
        pixel: 0,
        base: Base::Fixed(util::black()),
        light: Light::Full,
        mode: DrawMode::OnTop(height),
    };
    let brighten = DrawOp { mode: DrawMode::Brighten, ..op(0) };
    let mut pixels = vec![util::black(); 2];
    let mut fx = Effects::new();
    let (a, b, c) = (
        RGB8 { r: 1, g: 0, b: 9 },
        RGB8 { r: 2, g: 0, b: 0 },
        RGB8 { r: 3, g: 0, b: 0 },
    );
    painter::finish_frame(
        &mut store,
        &mut pixels,
        &vec![op(5), op(2), op(7)],
        &vec![a, b, c],
        &mut fx,
    );
    assert_eq!(pixels[0], c);
    painter::finish_frame(&mut store, &mut pixels, &vec![op(5), brighten], &vec![a, b], &mut fx);
    assert_eq!(pixels[0], RGB8 { r: 2, g: 0, b: 9 });
}

#[test]
fn frames_take_their_time() {
    let mut s = settings();
    assert_eq!(painter::frame_wait_ms(10, 30), Some(23));
    assert_eq!(painter::frame_wait_ms(33, 30), None);
    assert_eq!(painter::transition_duration_ms(&s.config, 700), 700);
    s.config.render_mode = RenderMode::SnapClosest;
    assert_eq!(painter::transition_duration_ms(&s.config, 700), 0);
    let session = SessionSettings { light_on: true, ..SessionSettings::default() };
    assert!(!painter::plan_turn(&s, &session).automation);
    s.access_token = Some("t".to_string());
    assert!(painter::plan_turn(&s, &session).draw);
    let off = SessionSettings { light_on: false, ..SessionSettings::default() };
    assert!(painter::plan_turn(&s, &off).automation);
    assert!(!painter::plan_turn(&s, &off).draw);
}

// Colors

#[test]
fn colors_as_hue_saturation_value() {
    assert_eq!(
        colors::rgb2hsv(RGB8 { r: 255, g: 0, b: 0 }),
        Hsv { hue: 0, sat: 254, val: 255 }
    );
    assert_eq!(
        colors::rgb2hsv(RGB8 { r: 31, g: 255, b: 102 }),
        Hsv { hue: 99, sat: 223, val: 255 }
    );
    for r in 0..=255u8 {
        for b in 0..=255u8 {
            let (max, min) = (r.max(b) as i16, 0i16);
            let sat = if max == 0 { 0 } else { ((max - min).wrapping_mul(255) / max) as u8 };
            assert_eq!(colors::rgb2hsv(RGB8 { r, g: 0, b }).sat, sat);
        }
    }
    assert_eq!(
        colors::rgb2hsv(RGB8 { r: 80, g: 80, b: 80 }),
        Hsv { hue: 0, sat: 0, val: 80 }
    );
    let back = colors::rgb_from_hsv(Hsv { hue: 0, sat: 255, val: 255 });
    assert_eq!(back, RGB8 { r: 255, g: 0, b: 0 });
    let gray = colors::rgb_from_hsv(Hsv { hue: 99, sat: 0, val: 80 });
    assert_eq!(gray, RGB8 { r: 80, g: 80, b: 80 });
}

#[test]
fn color_temperature() {
    let c = RGB8 { r: 100, g: 150, b: 200 };
    assert_eq!(colors::adjust_color_temp(c, 0), c);
    let warm = colors::adjust_color_temp(c, 50);
    let cold = colors::adjust_color_temp(c, -50);
    assert_ne!(warm, c);
    assert_ne!(cold, c);
    assert_ne!(warm, cold);
}

// LEDs

#[test]
fn pulses_of_the_clock() {
    let p = led_driver::ws2812_pulses(80);
    assert_eq!(p.pulse_zero, PulseCode { high_ticks: 24, low_ticks: 72 });
    assert_eq!(p.pulse_one, PulseCode { high_ticks: 72, low_ticks: 24 });
    assert_eq!(p.pulse_reset, PulseCode { high_ticks: 4800, low_ticks: 16000 });
    let driver = LedDriver::new(p);
    let code = driver.encode_color(RGB8 { r: 0x80, g: 0x01, b: 0x00 });
    assert_eq!(code.len(), 25);
    let ones: Vec<usize> =
        (0..24).filter(|i| code[*i] == p.pulse_one).collect();
    assert_eq!(ones, vec![7, 8]);
    assert_eq!(code[24], PulseCode { high_ticks: 0, low_ticks: 0 });
    let sent = driver.write(&vec![util::black(), util::black()]);
    assert_eq!(sent.len(), 3);
    assert_eq!(sent[0][0], p.pulse_reset);
    assert_eq!(sent[1], driver.encode_color(util::black()));
}

#[test]
fn colors_go_to_the_leds_dimmed() {
    let white = RGB8 { r: 255, g: 255, b: 255 };
    let out = leds::led_buffer_processed(&vec![white, white], 25, true);
    assert_eq!(out[0], RGB8 { r: 125, g: 125, b: 125 });
    assert_eq!(out[1], RGB8 { r: 25, g: 25, b: 25 });
    let off = leds::led_buffer_processed(&vec![white, white], 25, false);
    assert_eq!(off[1], util::black());
    let half = leds::led_buffer_processed(&vec![white, RGB8 { r: 128, g: 0, b: 0 }], 255, true);
    assert_eq!(half[1].r, 37);
    assert_eq!(half[0], white);
}

#[test]
fn status_on_the_led() {
    let mut fx = Effects::new();
    leds::set_status(LedStatus::WifiError, &mut fx);
    match &fx.list[1] {
        Effect::StartStatusAnimation(LedStatusAnimationEvent::Alternate(a, b, x, y)) => {
            assert_eq!(*a, LedColor::Yellow.as_rgb8());
            assert_eq!(*b, LedColor::Red.as_rgb8());
            assert_eq!((*x, *y), (200, 200));
        }
        other => panic!("{:?}", other),
    }
    assert_eq!(LedInterval::Long.as_duration_ms(), 2000);
    let blink = LedStatusAnimationEvent::Blink(LedColor::Pink.as_rgb8(), 500);
    assert_eq!(
        animations::get_status_frame(blink, 0),
        (LedColor::Pink.as_rgb8(), Some(500))
    );
    assert_eq!(animations::get_status_frame(blink, 1), (util::black(), Some(500)));
    let mut strip = vec![util::black(); 2];
    leds::set_status_pixel(&mut strip, LedColor::Blue.as_rgb8());
    assert_eq!(strip[0], LedColor::Blue.as_rgb8());
}

#[test]
fn status_of_the_session() {
    let mut s = settings();
    let session = SessionSettings { light_on: true, ..SessionSettings::default() };
    let mut fx = Effects::new();
    leds::set_status_led_from_session(&session, &s, &mut fx);
    assert!(fx.list.is_empty());
    s.wifi_ssid = Some("n".to_string());
    s.wifi_password = Some("p".to_string());
    s.access_token = Some("t".to_string());
    leds::set_status_led_from_session(&session, &s, &mut fx);
    match &fx.list[1] {
        Effect::StartStatusAnimation(LedStatusAnimationEvent::Constant(c)) => {
            assert_eq!(*c, LedColor::Green.as_rgb8())
        }
        other => panic!("{:?}", other),
    }
}

#[test]
fn pixels_off() {
    let mut strip = vec![RGB8 { r: 1, g: 1, b: 1 }; 3];
    let mut fx = Effects::new();
    leds::set_pixels(LedPixels::Off, &mut strip, &mut fx);
    assert_eq!(strip[1..], [util::black(), util::black()]);
    assert_eq!(strip[0], RGB8 { r: 1, g: 1, b: 1 });
    assert!(fx.list.iter().any(|e| matches!(e, Effect::UpdateLeds)));
}

#[test]
fn brightness_is_reduced_for_the_current() {
    let mut s = settings();
    s.config.brightness_percent = 60;
    let mut fx = Effects::new();
    leds::reduce_brightness(&mut s, &mut fx);
    assert_eq!(s.config.brightness_percent, 55);
    assert_eq!(s.config.sunlight_auto_brightness.day_brightness_percent, 45);
    let session = SessionSettings::default();
    assert_eq!(leds::get_current_brightness_percent(&session, &s), 55);
    let auto = SessionSettings { auto_brightness_percent: Some(12), ..SessionSettings::default() };
    assert_eq!(leds::get_current_brightness_percent(&auto, &s), 12);
}

// Animations

#[test]
fn fading_out_ends() {
    let mut pixels = vec![RGB8 { r: 255, g: 3, b: 0 }, RGB8 { r: 7, g: 255, b: 20 }];
    for _ in 0..animations::FADE_OUT_STEPS {
        animations::fade_step(&mut pixels);
    }
    assert!(animations::all_off(&pixels));
    animations::fill(&mut pixels, RGB8 { r: 5, g: 5, b: 5 });
    assert!(!animations::all_off(&pixels));
    assert_eq!(pixels[1], RGB8 { r: 5, g: 5, b: 5 });
}

#[test]
fn fade_frame_by_frame() {
    let mut pixels = vec![RGB8 { r: 12, g: 3, b: 0 }, RGB8 { r: 7, g: 5, b: 0 }];
    assert_eq!(animations::fade_out_frame(&mut pixels, 0), PixelsFrame::Hold(0));
    assert_eq!(pixels, vec![RGB8 { r: 7, g: 0, b: 0 }, RGB8 { r: 2, g: 0, b: 0 }]);
    assert_eq!(animations::fade_out_frame(&mut pixels, 1), PixelsFrame::Hold(0));
    assert_eq!(animations::fade_out_frame(&mut pixels, 2), PixelsFrame::Last);
    assert!(animations::all_off(&pixels));
    let mut pixels = vec![RGB8 { r: 255, g: 255, b: 255 }; 3];
    for step in 0..50 {
        assert_eq!(animations::fade_out_frame(&mut pixels, step), PixelsFrame::Hold(0));
    }
    assert_eq!(animations::fade_out_frame(&mut pixels, 50), PixelsFrame::Last);
    let mut pixels = vec![RGB8 { r: 255, g: 0, b: 0 }];
    assert_eq!(animations::fade_out_frame(&mut pixels, 255), PixelsFrame::Over);
    assert_eq!(pixels, vec![RGB8 { r: 255, g: 0, b: 0 }]);
}

#[test]
fn flash_frame_by_frame() {
    let mut pixels = vec![RGB8 { r: 1, g: 2, b: 3 }; 2];
    assert_eq!(animations::identify_frame(&mut pixels, 0), PixelsFrame::Hold(1000));
    assert_eq!(pixels, vec![LedColor::Green.as_rgb8(); 2]);
    assert_eq!(animations::identify_frame(&mut pixels, 1), PixelsFrame::Last);
    assert_eq!(pixels, vec![util::black(); 2]);
}

#[test]
fn progress_on_special_pixels() {
    let mut pixels = vec![util::black(); 4];
    animations::show_progress(&mut pixels, &[0, 3], 100);
    assert!(pixels[0] != util::black() && pixels[3] != util::black());
    assert_eq!(pixels[1], util::black());
    animations::show_progress(&mut pixels, &[0, 3], 0);
    assert_eq!(pixels[3], util::black());
}

#[test]
fn demo_moves_on_the_map() {
    let mut snakes = animations::start_snakes();
    assert_eq!(snakes.len(), 10);
    let mut pixels = vec![util::black(); 4];
    let dim: Vec<u8> = (0..=255u32).map(|x| (x * 9 / 10) as u8).collect();
    for step in 0..30 {
        let chances: Vec<SnakeChance> = (0..10)
            .map(|i| SnakeChance { step: step + i, loc: i, hue: 10 * i, sat: 200 })
            .collect();
        animations::demo_frame(&NODES, &mut snakes, &mut pixels, step, &chances, &dim);
    }
    assert!(!animations::all_off(&pixels));
    assert!(snakes.iter().all(|s| s.loc < 4));
}

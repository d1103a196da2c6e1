//! Where vehicles are: the segment of its movement that a vehicle is in, and the place on it.

use vstd::prelude::*;

use crate::proto::{Segment, Stop, TransitData, VehicleMovement, ViaStop};
use crate::store::transit_data;
use crate::trace::Report;
use crate::util;

verus! {

/// A place on the earth, or one between two others.
#[derive(Debug, Copy, Clone, PartialEq, Eq, Structural)]
pub enum VehiclePosition {
    At { latitude_e7: i32, longitude_e7: i32 },
    /// As far along the straight line as `elapsed_secs` is of `leg_secs`.
    Between {
        from_latitude_e7: i32,
        from_longitude_e7: i32,
        to_latitude_e7: i32,
        to_longitude_e7: i32,
        elapsed_secs: u32,
        leg_secs: u32,
    },
}

/// What a vehicle is doing.
#[derive(Debug, Copy, Clone, PartialEq, Eq, Structural)]
pub struct VehicleFix {
    /// Number of the segment that the vehicle is in.
    pub segment_idx: usize,
    /// How long it has been in it.
    pub progress_secs: u32,
    pub position: VehiclePosition,
}

/// What is known of where a vehicle is.
#[derive(Debug)]
pub struct VehicleLocated {
    /// What was wrong with the data.
    pub reports: Vec<Report>,
    /// What the vehicle is doing, if its movement is under way.
    pub fix: Option<VehicleFix>,
}

// ---------------------------------------------------------------------------------------------
// Times
// ---------------------------------------------------------------------------------------------

/// How long a segment takes, with the wait at its end.
pub open spec fn segment_secs(segment: Segment) -> int {
    util::high16(segment.move_seconds_x_wait_seconds) + util::low16(
        segment.move_seconds_x_wait_seconds,
    )
}

/// How long the first `k` segments take.
pub open spec fn elapsed_before(segments: Seq<Segment>, k: nat) -> int
    decreases k,
{
    if k == 0 {
        0
    } else {
        elapsed_before(segments, (k - 1) as nat) + segment_secs(segments[k - 1])
    }
}

/// How much later than the data was sourced a segment begins: a signed number of 15 bits.
pub open spec fn start_offset_secs(segment: Segment) -> int {
    let field = util::high16(segment.canceled_x_start_offset_seconds_x_via_total_move_seconds)
        % 0x8000;
    if field >= 0x4000 {
        field - 0x8000
    } else {
        field as int
    }
}

/// When a movement begins, in Unix time.
pub open spec fn movement_start(movement: VehicleMovement, sourced_at: u32) -> int {
    if movement.segments@.len() == 0 {
        sourced_at as int
    } else {
        (sourced_at + start_offset_secs(movement.segments@[0])) % 0x1_0000_0000
    }
}

/// The first segment, from number `k` on, at whose time it is `since_start`.
pub open spec fn segment_at(segments: Seq<Segment>, since_start: int, k: nat) -> Option<nat>
    decreases segments.len() - k,
{
    if k >= segments.len() {
        None
    } else if elapsed_before(segments, k) <= since_start < elapsed_before(segments, k + 1) {
        Some(k)
    } else {
        segment_at(segments, since_start, k + 1)
    }
}

/// The segment that a vehicle is in at `now`, and how long it has been in it.
pub open spec fn current_segment(
    movement: VehicleMovement,
    sourced_at: u32,
    now: u32,
) -> Option<(nat, int)> {
    let since_start = now - movement_start(movement, sourced_at);
    match segment_at(movement.segments@, since_start, 0) {
        Some(k) => Some((k, since_start - elapsed_before(movement.segments@, k))),
        None => None,
    }
}

proof fn lemma_elapsed_grows(segments: Seq<Segment>, j: nat, k: nat)
    requires
        j <= k <= segments.len(),
    ensures
        0 <= elapsed_before(segments, j) <= elapsed_before(segments, k) <= k * 0x1FFFE,
    decreases k,
{
    if j < k {
        lemma_elapsed_grows(segments, j, (k - 1) as nat);
    } else if k > 0 {
        lemma_elapsed_grows(segments, (k - 1) as nat, (k - 1) as nat);
    }
}

proof fn lemma_segment_at(segments: Seq<Segment>, since_start: int, k: nat)
    requires
        k <= segments.len(),
        elapsed_before(segments, k) <= since_start < elapsed_before(segments, segments.len()),
    ensures
        segment_at(segments, since_start, k) matches Some(j) && k <= j < segments.len()
            && elapsed_before(segments, j) <= since_start < elapsed_before(segments, j + 1),
    decreases segments.len() - k,
{
    if k < segments.len() && since_start >= elapsed_before(segments, k + 1) {
        lemma_segment_at(segments, since_start, k + 1);
    }
}

proof fn lemma_no_segment_at(segments: Seq<Segment>, since_start: int, k: nat)
    requires
        k <= segments.len(),
        since_start < 0 || since_start >= elapsed_before(segments, segments.len()),
    ensures
        segment_at(segments, since_start, k) is None,
    decreases segments.len() - k,
{
    if k < segments.len() {
        lemma_elapsed_grows(segments, 0, k);
        lemma_elapsed_grows(segments, k + 1, segments.len());
        lemma_no_segment_at(segments, since_start, k + 1);
    }
}

/// A vehicle is in a segment exactly while its movement lasts.
pub proof fn lemma_in_segment_while_moving(movement: VehicleMovement, sourced_at: u32, now: u32)
    ensures
        current_segment(movement, sourced_at, now) is Some <==> movement_start(movement, sourced_at)
            <= now < movement_start(movement, sourced_at) + elapsed_before(
            movement.segments@,
            movement.segments@.len(),
        ),
        current_segment(movement, sourced_at, now) matches Some((k, progress)) ==> k
            < movement.segments@.len() && 0 <= progress < segment_secs(
            movement.segments@[k as int],
        ),
{
    let since_start = now - movement_start(movement, sourced_at);
    let segments = movement.segments@;
    if 0 <= since_start < elapsed_before(segments, segments.len()) {
        lemma_segment_at(segments, since_start, 0);
    } else {
        lemma_no_segment_at(segments, since_start, 0);
    }
}

/// The number of a segment is a number of a `Vec`.
pub proof fn lemma_segment_number(movement: VehicleMovement)
    ensures
        movement.segments@.len() <= usize::MAX,
{
    assert(movement.segments@.len() == movement.segments.len());
}

fn get_start_offset_secs(segment: &Segment) -> (secs: i32)
    ensures
        secs == start_offset_secs(*segment),
        -0x4000 <= secs < 0x4000,
{
    let high: u32 = util::get_high16(
        segment.canceled_x_start_offset_seconds_x_via_total_move_seconds,
    );
    let field: i32 = (high % 0x8000) as i32;
    if field >= 0x4000 {
        field - 0x8000
    } else {
        field
    }
}

fn find_segment(movement: &VehicleMovement, sourced_at: u32, now: u32) -> (r: Option<(usize, u32)>)
    ensures
        match r {
            Some((k, progress)) => current_segment(*movement, sourced_at, now) == Some(
                (k as nat, progress as int),
            ) && k < movement.segments@.len(),
            None => current_segment(*movement, sourced_at, now) is None,
        },
{
    let ghost segments = movement.segments@;
    let start: i128 = if movement.segments.len() == 0 {
        sourced_at as i128
    } else {
        let offset: i32 = get_start_offset_secs(&movement.segments[0]);
        let sum: i128 = sourced_at as i128 + offset as i128;
        if sum < 0 {
            sum + 0x1_0000_0000
        } else if sum >= 0x1_0000_0000 {
            sum - 0x1_0000_0000
        } else {
            sum
        }
    };
    let since_start: i128 = now as i128 - start;
    let mut elapsed: i128 = 0;
    let mut k: usize = 0;
    while k < movement.segments.len()
        invariant
            k <= segments.len(),
            segments == movement.segments@,
            -0x1_0000_0000 <= since_start <= 0x1_0000_0000,
            since_start == now - movement_start(*movement, sourced_at),
            elapsed == elapsed_before(segments, k as nat),
            segment_at(segments, since_start as int, 0) == segment_at(
                segments,
                since_start as int,
                k as nat,
            ),
        decreases segments.len() - k,
    {
        let segment = &movement.segments[k];
        proof {
            lemma_elapsed_grows(segments, 0, k as nat);
        }
        let secs: i128 = util::get_high16(segment.move_seconds_x_wait_seconds) as i128
            + util::get_low16(segment.move_seconds_x_wait_seconds) as i128;
        if elapsed <= since_start && since_start < elapsed + secs {
            return Some((k, (since_start - elapsed) as u32));
        }
        elapsed = elapsed + secs;
        k = k + 1;
    }
    None
}

// ---------------------------------------------------------------------------------------------
// Places
// ---------------------------------------------------------------------------------------------

/// Latitude and longitude of a stop, if there is such a stop.
pub open spec fn stop_coord(stops: Seq<Stop>, stop_id: u32) -> Option<(i32, i32)> {
    if stop_id < stops.len() {
        let stop = stops[stop_id as int];
        Some((transit_data::latitude_of(stop) as i32, stop.longitude_e7))
    } else {
        None
    }
}

/// The stops on the way of a segment, its last one included, and how long it takes to each: the
/// last leg takes what the others leave of the time. Legs that take more than the whole segment
/// leave it without a last stop.
pub open spec fn legs_of(segment: Segment) -> Seq<(u32, u32)> {
    let vias = segment.via_stops@.map_values(
        |via: ViaStop|
            (util::high16(via.stop_id_x_move_seconds), util::low16(via.stop_id_x_move_seconds)),
    );
    let left = util::high16(segment.move_seconds_x_wait_seconds) - util::low16(
        segment.canceled_x_start_offset_seconds_x_via_total_move_seconds,
    );
    vias.push(
        (
            if left >= 0 {
                util::low16(segment.from_stop_id_x_to_stop_id)
            } else {
                0xFFFF
            },
            (left % 0x10000) as u32,
        ),
    )
}

/// The place between two coordinates.
pub open spec fn between(
    from: (i32, i32),
    to: (i32, i32),
    elapsed_secs: int,
    leg_secs: u32,
) -> VehiclePosition {
    let (from_latitude_e7, from_longitude_e7) = from;
    let (to_latitude_e7, to_longitude_e7) = to;
    VehiclePosition::Between {
        from_latitude_e7,
        from_longitude_e7,
        to_latitude_e7,
        to_longitude_e7,
        elapsed_secs: elapsed_secs as u32,
        leg_secs,
    }
}

/// The place at a coordinate.
pub open spec fn placed_at(coord: (i32, i32)) -> VehiclePosition {
    let (latitude_e7, longitude_e7) = coord;
    VehiclePosition::At { latitude_e7, longitude_e7 }
}

/// The place on the legs, from number `k` on, that begin at `last` after `accum` seconds: on the
/// leg during which `progress` seconds have passed. Legs to stops that there are not are left out
/// and reported.
pub open spec fn on_legs(
    stops: Seq<Stop>,
    legs: Seq<(u32, u32)>,
    k: nat,
    last: (i32, i32),
    accum: int,
    progress: int,
    vehicle_idx: usize,
) -> (Seq<Report>, Option<VehiclePosition>)
    decreases legs.len() - k,
{
    if k >= legs.len() {
        (Seq::empty(), None)
    } else {
        let (stop_id, secs) = legs[k as int];
        match stop_coord(stops, stop_id) {
            None => {
                let (reports, position) = on_legs(
                    stops,
                    legs,
                    k + 1,
                    last,
                    accum,
                    progress,
                    vehicle_idx,
                );
                (seq![Report::VehicleViaStopInvalid { vehicle_idx, stop_id }] + reports, position)
            },
            Some(coord) => if progress < accum + secs {
                (Seq::empty(), Some(between(last, coord, progress - accum, secs)))
            } else {
                on_legs(stops, legs, k + 1, coord, accum + secs, progress, vehicle_idx)
            },
        }
    }
}

/// The place in a segment after `progress` seconds: on the way while the vehicle moves, then at
/// its end.
pub open spec fn position_in(
    stops: Seq<Stop>,
    segment: Segment,
    from: (i32, i32),
    to: (i32, i32),
    progress: int,
    vehicle_idx: usize,
) -> (Seq<Report>, VehiclePosition) {
    let move_secs = util::high16(segment.move_seconds_x_wait_seconds);
    if progress >= move_secs {
        (Seq::empty(), placed_at(to))
    } else if segment.via_stops@.len() == 0 {
        (Seq::empty(), between(from, to, progress, move_secs))
    } else {
        let (reports, position) = on_legs(
            stops,
            legs_of(segment),
            0,
            from,
            0,
            progress,
            vehicle_idx,
        );
        (
            reports,
            match position {
                Some(p) => p,
                None => placed_at(to),
            },
        )
    }
}

/// What is known of where a vehicle is at `now`.
pub open spec fn located(
    data: TransitData,
    vehicle_idx: usize,
    now: u32,
) -> (Seq<Report>, Option<VehicleFix>) {
    let movement = data.vehicle_movements@[vehicle_idx as int];
    let stops = data.stops@;
    match current_segment(movement, data.sourced_at_unix_timestamp, now) {
        None => (Seq::empty(), None),
        Some((k, progress)) => {
            let segment = movement.segments@[k as int];
            let from_id = util::high16(segment.from_stop_id_x_to_stop_id);
            let to_id = util::low16(segment.from_stop_id_x_to_stop_id);
            match (stop_coord(stops, from_id), stop_coord(stops, to_id)) {
                (None, _) => (
                    seq![Report::VehicleFromStopInvalid { vehicle_idx, stop_id: from_id }],
                    None,
                ),
                (Some(_), None) => (
                    seq![Report::VehicleToStopInvalid { vehicle_idx, stop_id: to_id }],
                    None,
                ),
                (Some(from), Some(to)) => {
                    let (reports, position) = position_in(
                        stops,
                        segment,
                        from,
                        to,
                        progress,
                        vehicle_idx,
                    );
                    (
                        reports,
                        Some(
                            VehicleFix {
                                segment_idx: k as usize,
                                progress_secs: progress as u32,
                                position,
                            },
                        ),
                    )
                },
            }
        },
    }
}

/// Latitude and longitude of a stop, if there is such a stop.
pub fn get_stop_coord(stops: &Vec<Stop>, stop_id: u32) -> (c: Option<(i32, i32)>)
    ensures
        c == stop_coord(stops@, stop_id),
{
    if (stop_id as usize) < stops.len() {
        let stop = &stops[stop_id as usize];
        Some((transit_data::get_latitude(stop), stop.longitude_e7))
    } else {
        None
    }
}

/// Leg number `k` of a segment: its stop and its duration.
fn get_leg(segment: &Segment, k: usize) -> (leg: (u32, u32))
    requires
        k <= segment.via_stops@.len(),
    ensures
        leg == legs_of(*segment)[k as int],
{
    if k < segment.via_stops.len() {
        let word: u32 = segment.via_stops[k].stop_id_x_move_seconds;
        (util::get_high16(word), util::get_low16(word))
    } else {
        let move_secs: u32 = util::get_high16(segment.move_seconds_x_wait_seconds);
        let via_secs: u32 = util::get_low16(
            segment.canceled_x_start_offset_seconds_x_via_total_move_seconds,
        );
        if via_secs <= move_secs {
            (util::get_low16(segment.from_stop_id_x_to_stop_id), move_secs - via_secs)
        } else {
            (0xFFFF, 0x10000 - (via_secs - move_secs))
        }
    }
}

fn make_between(from: (i32, i32), to: (i32, i32), elapsed_secs: u32, leg_secs: u32) -> (p:
    VehiclePosition)
    ensures
        p == between(from, to, elapsed_secs as int, leg_secs),
{
    let (from_latitude_e7, from_longitude_e7) = from;
    let (to_latitude_e7, to_longitude_e7) = to;
    VehiclePosition::Between {
        from_latitude_e7,
        from_longitude_e7,
        to_latitude_e7,
        to_longitude_e7,
        elapsed_secs,
        leg_secs,
    }
}

fn locate_on_legs(
    stops: &Vec<Stop>,
    segment: &Segment,
    from: (i32, i32),
    progress: u32,
    vehicle_idx: usize,
    reports: &mut Vec<Report>,
) -> (p: Option<VehiclePosition>)
    ensures
        ({
            let (found, position) = on_legs(
                stops@,
                legs_of(*segment),
                0,
                from,
                0,
                progress as int,
                vehicle_idx,
            );
            p == position && final(reports)@ == old(reports)@ + found
        }),
{
    let ghost legs = legs_of(*segment);
    let ghost goal = on_legs(stops@, legs, 0, from, 0, progress as int, vehicle_idx);
    let ghost start = reports@;
    let mut last = from;
    let mut accum: u32 = 0;
    let mut k: usize = 0;
    let via_len: usize = segment.via_stops.len();
    loop
        invariant
            k <= via_len,
            via_len == segment.via_stops@.len(),
            legs == legs_of(*segment),
            legs.len() == via_len + 1,
            accum <= progress,
            start == old(reports)@,
            goal == on_legs(stops@, legs, 0, from, 0, progress as int, vehicle_idx),
            ({
                let (found, position) = goal;
                let (rest, p) = on_legs(
                    stops@,
                    legs,
                    k as nat,
                    last,
                    accum as int,
                    progress as int,
                    vehicle_idx,
                );
                p == position && start + found == reports@ + rest
            }),
        decreases via_len - k,
    {
        let (stop_id, secs) = get_leg(segment, k);
        match get_stop_coord(stops, stop_id) {
            None => {
                let report = Report::VehicleViaStopInvalid { vehicle_idx, stop_id };
                proof {
                    let (rest, _) = on_legs(
                        stops@,
                        legs,
                        (k + 1) as nat,
                        last,
                        accum as int,
                        progress as int,
                        vehicle_idx,
                    );
                    assert(reports@ + (seq![report] + rest) =~= reports@.push(report) + rest);
                }
                reports.push(report);
            },
            Some(coord) => {
                if progress - accum < secs {
                    assert(reports@ + Seq::<Report>::empty() =~= reports@);
                    return Some(make_between(last, coord, progress - accum, secs));
                }
                accum = accum + secs;
                last = coord;
            },
        }
        if k == via_len {
            proof {
                assert(on_legs(
                    stops@,
                    legs,
                    (k + 1) as nat,
                    last,
                    accum as int,
                    progress as int,
                    vehicle_idx,
                ) == (Seq::<Report>::empty(), None::<VehiclePosition>));
                assert(reports@ + Seq::<Report>::empty() =~= reports@);
            }
            return None;
        }
        k = k + 1;
    }
}

/// Finds out what vehicle number `vehicle_idx` is doing at `now`.
pub fn locate_vehicle(data: &TransitData, vehicle_idx: usize, now: u32) -> (r: VehicleLocated)
    requires
        vehicle_idx < data.vehicle_movements@.len(),
    ensures
        (r.reports@, r.fix) == located(*data, vehicle_idx, now),
{
    let movement = &data.vehicle_movements[vehicle_idx];
    let mut reports: Vec<Report> = Vec::new();
    match find_segment(movement, data.sourced_at_unix_timestamp, now) {
        None => VehicleLocated { reports, fix: None },
        Some((segment_idx, progress_secs)) => {
            let segment = &movement.segments[segment_idx];
            let from_id: u32 = util::get_high16(segment.from_stop_id_x_to_stop_id);
            let to_id: u32 = util::get_low16(segment.from_stop_id_x_to_stop_id);
            let from = match get_stop_coord(&data.stops, from_id) {
                Some(c) => c,
                None => {
                    reports.push(Report::VehicleFromStopInvalid { vehicle_idx, stop_id: from_id });
                    return VehicleLocated { reports, fix: None };
                },
            };
            let to = match get_stop_coord(&data.stops, to_id) {
                Some(c) => c,
                None => {
                    reports.push(Report::VehicleToStopInvalid { vehicle_idx, stop_id: to_id });
                    return VehicleLocated { reports, fix: None };
                },
            };
            let (to_lat, to_lng) = to;
            let at_end = VehiclePosition::At { latitude_e7: to_lat, longitude_e7: to_lng };
            let move_secs: u32 = util::get_high16(segment.move_seconds_x_wait_seconds);
            let position = if progress_secs >= move_secs {
                at_end
            } else if segment.via_stops.len() == 0 {
                make_between(from, to, progress_secs, move_secs)
            } else {
                match locate_on_legs(
                    &data.stops,
                    segment,
                    from,
                    progress_secs,
                    vehicle_idx,
                    &mut reports,
                ) {
                    Some(p) => p,
                    None => at_end,
                }
            };
            VehicleLocated {
                reports,
                fix: Some(VehicleFix { segment_idx, progress_secs, position }),
            }
        },
    }
}

/// Finds out what all vehicles are doing at `now`.
pub fn locate_vehicles(data: &TransitData, now: u32) -> (r: Vec<VehicleLocated>)
    ensures
        r@.len() == data.vehicle_movements@.len(),
        forall|i: int|
            0 <= i < r@.len() ==> ((#[trigger] r@[i]).reports@, r@[i].fix) == located(
                *data,
                i as usize,
                now,
            ),
{
    let mut r: Vec<VehicleLocated> = Vec::new();
    let mut i: usize = 0;
    while i < data.vehicle_movements.len()
        invariant
            i <= data.vehicle_movements@.len(),
            r@.len() == i,
            forall|j: int|
                0 <= j < i ==> ((#[trigger] r@[j]).reports@, r@[j].fix) == located(
                    *data,
                    j as usize,
                    now,
                ),
        decreases data.vehicle_movements@.len() - i,
    {
        r.push(locate_vehicle(data, i, now));
        i = i + 1;
    }
    r
}

// ---------------------------------------------------------------------------------------------
// Laws
// ---------------------------------------------------------------------------------------------

/// Segments follow one another without a gap: each begins where the one before ends, and takes the
/// time to move, the upper half of its word, and the time to wait, the lower half.
pub proof fn lemma_segments_follow(segments: Seq<Segment>, k: nat)
    ensures
        elapsed_before(segments, 0) == 0,
        ({
            let word = segments[k as int].move_seconds_x_wait_seconds as int;
            elapsed_before(segments, k + 1) - elapsed_before(segments, k) == word / 0x10000 + word
                % 0x10000
        }),
{
}

/// The time at which a segment begins, after the data was sourced, is a signed number in the 15
/// bits below the highest one of its word. A movement begins when its first segment does, in 32
/// bits, and one without segments as the data was sourced.
pub proof fn lemma_movement_begins(movement: VehicleMovement, sourced_at: u32)
    ensures
        movement.segments@.len() == 0 ==> movement_start(movement, sourced_at) == sourced_at,
        movement.segments@.len() > 0 ==> {
            let segment = movement.segments@[0];
            let offset = start_offset_secs(segment);
            let word = segment.canceled_x_start_offset_seconds_x_via_total_move_seconds as int;
            &&& -0x4000 <= offset < 0x4000
            &&& (word / 0x10000 - offset) % 0x8000 == 0
            &&& 0 <= movement_start(movement, sourced_at) < 0x1_0000_0000
            &&& (movement_start(movement, sourced_at) - sourced_at - offset) % 0x1_0000_0000 == 0
        },
{
}

/// A vehicle is in the segment whose time it is: as long after its beginning as it says, which is
/// before the next one begins. There is only one such segment.
pub proof fn lemma_segment_of_the_time(
    movement: VehicleMovement,
    sourced_at: u32,
    now: u32,
    k: nat,
)
    requires
        k < movement.segments@.len(),
    ensures
        ({
            let segments = movement.segments@;
            let since = now - movement_start(movement, sourced_at);
            &&& current_segment(movement, sourced_at, now) matches Some((j, progress)) ==> progress
                == since - elapsed_before(segments, j) && elapsed_before(segments, j) <= since
                < elapsed_before(segments, j + 1)
            &&& elapsed_before(segments, k) <= since < elapsed_before(segments, k + 1)
                ==> current_segment(movement, sourced_at, now) == Some(
                (k, since - elapsed_before(segments, k)),
            )
        }),
{
    let segments = movement.segments@;
    let since = now - movement_start(movement, sourced_at);
    if elapsed_before(segments, k) <= since < elapsed_before(segments, k + 1) {
        lemma_elapsed_grows(segments, 0, k);
        lemma_elapsed_grows(segments, k + 1, segments.len());
        lemma_segment_at(segments, since, 0);
        let j = segment_at(segments, since, 0)->0;
        if j < k {
            lemma_elapsed_grows(segments, j + 1, k);
        }
        if k < j {
            lemma_elapsed_grows(segments, k + 1, j);
        }
    } else if 0 <= since < elapsed_before(segments, segments.len()) {
        lemma_segment_at(segments, since, 0);
    } else {
        lemma_no_segment_at(segments, since, 0);
    }
}

/// Without stops on its way a vehicle is as far between the ends of its segment as the time passed
/// is of the time to move. Once that has passed it is at the end, with stops on its way too.
pub proof fn lemma_straight_segment(
    stops: Seq<Stop>,
    segment: Segment,
    from: (i32, i32),
    to: (i32, i32),
    progress: int,
    vehicle_idx: usize,
)
    requires
        0 <= progress,
    ensures
        ({
            let move_secs = segment.move_seconds_x_wait_seconds as int / 0x10000;
            let (reports, position) = position_in(
                stops,
                segment,
                from,
                to,
                progress,
                vehicle_idx,
            );
            &&& progress >= move_secs ==> reports.len() == 0 && (position matches
                VehiclePosition::At { latitude_e7, longitude_e7 } && (latitude_e7, longitude_e7)
                == to)
            &&& progress < move_secs && segment.via_stops@.len() == 0 ==> reports.len() == 0 && (
            position matches VehiclePosition::Between {
                from_latitude_e7,
                from_longitude_e7,
                to_latitude_e7,
                to_longitude_e7,
                elapsed_secs,
                leg_secs,
            } && (from_latitude_e7, from_longitude_e7) == from && (
                to_latitude_e7,
                to_longitude_e7,
            ) == to && elapsed_secs == progress && leg_secs == move_secs)
        }),
{
}

/// The legs of a segment lead to the stops on its way in their order, each with its time, and then
/// to its last stop, in the time that is left of the time to move.
pub proof fn lemma_legs_of_segment(segment: Segment, i: int)
    requires
        0 <= i < segment.via_stops@.len(),
    ensures
        ({
            let legs = legs_of(segment);
            let word = segment.via_stops@[i].stop_id_x_move_seconds as int;
            let (stop, secs) = legs[i];
            let (last_stop, last_secs) = legs[segment.via_stops@.len() as int];
            let move_secs = segment.move_seconds_x_wait_seconds as int / 0x10000;
            let via_secs = segment.canceled_x_start_offset_seconds_x_via_total_move_seconds as int
                % 0x10000;
            &&& legs.len() == segment.via_stops@.len() + 1
            &&& stop == word / 0x10000 && secs == word % 0x10000
            &&& via_secs <= move_secs ==> via_secs + last_secs == move_secs && last_stop
                == segment.from_stop_id_x_to_stop_id as int % 0x10000
        }),
{
}

/// How long the legs from number `k` on take that are before number `j`.
pub open spec fn legs_take(legs: Seq<(u32, u32)>, k: int, j: int) -> int
    decreases j - k,
{
    if j <= k {
        0
    } else {
        legs_take(legs, k, j - 1) + legs[j - 1].1
    }
}

/// Whether leg number `j` is the one during which `progress` seconds have passed, if leg number `k`
/// begins after `accum` seconds.
pub open spec fn is_leg_of_time(
    legs: Seq<(u32, u32)>,
    k: int,
    accum: int,
    progress: int,
    j: int,
) -> bool {
    &&& k <= j < legs.len()
    &&& accum + legs_take(legs, k, j) <= progress < accum + legs_take(legs, k, j + 1)
}

proof fn lemma_legs_take(legs: Seq<(u32, u32)>, k: int, j: int)
    requires
        k < j,
    ensures
        legs_take(legs, k, j) == legs[k].1 + legs_take(legs, k + 1, j),
    decreases j - k,
{
    reveal_with_fuel(legs_take, 2);
    if k + 1 < j {
        lemma_legs_take(legs, k, j - 1);
    }
}

proof fn lemma_legs_take_grows(legs: Seq<(u32, u32)>, k: int, i: int, j: int)
    requires
        i <= j,
    ensures
        0 <= legs_take(legs, k, i) <= legs_take(legs, k, j),
    decreases j - k,
{
    if i < j && k < j {
        lemma_legs_take_grows(legs, k, i, j - 1);
    } else if k < i {
        lemma_legs_take_grows(legs, k, i - 1, i - 1);
    }
}

/// With stops on its way, all of which there are, a vehicle is on the leg during which it is that
/// time: between the stop before and the one after, as far as the time passed on that leg is of the
/// time that the leg takes. It begins the first leg at the place where the segment begins.
pub proof fn lemma_on_the_leg_of_the_time(
    stops: Seq<Stop>,
    legs: Seq<(u32, u32)>,
    k: nat,
    last: (i32, i32),
    accum: int,
    progress: int,
    vehicle_idx: usize,
    j: int,
)
    requires
        forall|i: int| k <= i < legs.len() ==> (#[trigger] legs[i]).0 < stops.len(),
        is_leg_of_time(legs, k as int, accum, progress, j),
        0 <= accum <= progress <= u32::MAX,
    ensures
        ({
            let (reports, position) = on_legs(
                stops,
                legs,
                k,
                last,
                accum,
                progress,
                vehicle_idx,
            );
            let from = if j == k {
                last
            } else {
                (
                    transit_data::latitude_of(stops[legs[j - 1].0 as int]) as i32,
                    stops[legs[j - 1].0 as int].longitude_e7,
                )
            };
            let to = stops[legs[j].0 as int];
            &&& reports.len() == 0
            &&& position matches Some(
                VehiclePosition::Between {
                    from_latitude_e7,
                    from_longitude_e7,
                    to_latitude_e7,
                    to_longitude_e7,
                    elapsed_secs,
                    leg_secs,
                },
            ) && {
                &&& (from_latitude_e7, from_longitude_e7) == from
                &&& to_latitude_e7 == transit_data::latitude_of(to) as i32
                &&& to_longitude_e7 == to.longitude_e7
                &&& elapsed_secs == progress - accum - legs_take(legs, k as int, j)
                &&& leg_secs == legs[j].1
            }
        }),
    decreases legs.len() - k,
{
    reveal_with_fuel(legs_take, 2);
    assert(legs[k as int].0 < stops.len());
    lemma_legs_take(legs, k as int, j + 1);
    if j == k {
        assert(progress < accum + legs[k as int].1);
    } else {
        lemma_legs_take(legs, k as int, j);
        lemma_legs_take_grows(legs, (k + 1) as int, (k + 1) as int, j);
        let coord = stop_coord(stops, legs[k as int].0)->0;
        let next = accum + legs[k as int].1;
        lemma_on_the_leg_of_the_time(stops, legs, k + 1, coord, next, progress, vehicle_idx, j);
    }
}

/// A leg to a stop that there is not is left out, and takes no time: it is reported, and the way
/// goes on as without it.
pub proof fn lemma_leg_left_out(
    stops: Seq<Stop>,
    legs: Seq<(u32, u32)>,
    k: nat,
    last: (i32, i32),
    accum: int,
    progress: int,
    vehicle_idx: usize,
)
    requires
        k < legs.len(),
        legs[k as int].0 >= stops.len(),
    ensures
        ({
            let (reports, position) = on_legs(
                stops,
                legs,
                k,
                last,
                accum,
                progress,
                vehicle_idx,
            );
            let (later, without) = on_legs(
                stops,
                legs,
                k + 1,
                last,
                accum,
                progress,
                vehicle_idx,
            );
            &&& position == without
            &&& reports.len() == later.len() + 1
            &&& reports[0] == (Report::VehicleViaStopInvalid {
                vehicle_idx,
                stop_id: legs[k as int].0,
            })
            &&& reports.skip(1) == later
        }),
{
    let (reports, _) = on_legs(stops, legs, k, last, accum, progress, vehicle_idx);
    let (later, _) = on_legs(stops, legs, k + 1, last, accum, progress, vehicle_idx);
    assert(reports.skip(1) =~= later);
}

/// A vehicle has a fix exactly while its movement lasts, if the two stops of its segment are in the
/// data: in that segment, as long in it, and at the place that goes with it. If one of the stops is
/// not there, the vehicle has none, and that stop is reported.
pub proof fn lemma_fix_of_vehicle(data: TransitData, vehicle_idx: usize, now: u32)
    requires
        vehicle_idx < data.vehicle_movements@.len(),
    ensures
        ({
            let movement = data.vehicle_movements@[vehicle_idx as int];
            let stops = data.stops@;
            let (reports, fix) = located(data, vehicle_idx, now);
            match current_segment(movement, data.sourced_at_unix_timestamp, now) {
                None => fix is None && reports.len() == 0,
                Some((k, progress)) => {
                    let segment = movement.segments@[k as int];
                    let word = segment.from_stop_id_x_to_stop_id as int;
                    let (from, to) = (word / 0x10000, word % 0x10000);
                    &&& from >= stops.len() ==> fix is None && reports.len() == 1 && reports[0] == (
                    Report::VehicleFromStopInvalid { vehicle_idx, stop_id: from as u32 })
                    &&& from < stops.len() && to >= stops.len() ==> fix is None && reports.len()
                        == 1 && reports[0] == (Report::VehicleToStopInvalid {
                        vehicle_idx,
                        stop_id: to as u32,
                    })
                    &&& from < stops.len() && to < stops.len() ==> {
                        &&& fix matches Some(f) && f.segment_idx == k && f.progress_secs == progress
                            && (reports, f.position) == position_in(
                            stops,
                            segment,
                            (
                                transit_data::latitude_of(stops[from]) as i32,
                                stops[from].longitude_e7,
                            ),
                            (transit_data::latitude_of(stops[to]) as i32, stops[to].longitude_e7),
                            progress,
                            vehicle_idx,
                        )
                    }
                },
            }
        }),
{
    let movement = data.vehicle_movements@[vehicle_idx as int];
    lemma_in_segment_while_moving(movement, data.sourced_at_unix_timestamp, now);
    lemma_segment_number(movement);
    lemma_elapsed_grows(movement.segments@, 0, 0);
}

/// In a segment with stops on its way, all of which there are, a vehicle that has moved for
/// `progress` seconds is on the leg of that time. The first leg begins where the segment does, with
/// no time passed.
pub proof fn lemma_segment_with_stops(
    stops: Seq<Stop>,
    segment: Segment,
    from: (i32, i32),
    to: (i32, i32),
    progress: int,
    vehicle_idx: usize,
    j: int,
)
    requires
        segment.via_stops@.len() > 0,
        0 <= progress < segment.move_seconds_x_wait_seconds as int / 0x10000,
        forall|i: int|
            0 <= i < legs_of(segment).len() ==> (#[trigger] legs_of(segment)[i]).0 < stops.len(),
        is_leg_of_time(legs_of(segment), 0, 0, progress, j),
    ensures
        ({
            let legs = legs_of(segment);
            let (reports, position) = position_in(
                stops,
                segment,
                from,
                to,
                progress,
                vehicle_idx,
            );
            let begin = if j == 0 {
                from
            } else {
                (
                    transit_data::latitude_of(stops[legs[j - 1].0 as int]) as i32,
                    stops[legs[j - 1].0 as int].longitude_e7,
                )
            };
            let end = stops[legs[j].0 as int];
            &&& reports.len() == 0
            &&& position matches VehiclePosition::Between {
                from_latitude_e7,
                from_longitude_e7,
                to_latitude_e7,
                to_longitude_e7,
                elapsed_secs,
                leg_secs,
            } && {
                &&& (from_latitude_e7, from_longitude_e7) == begin
                &&& to_latitude_e7 == transit_data::latitude_of(end) as i32
                &&& to_longitude_e7 == end.longitude_e7
                &&& elapsed_secs == progress - legs_take(legs, 0, j)
                &&& leg_secs == legs[j].1
            }
        }),
{
    lemma_on_the_leg_of_the_time(stops, legs_of(segment), 0, from, 0, progress, vehicle_idx, j);
}

} // verus!

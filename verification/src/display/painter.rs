//! Draws what was rendered, frame by frame.

use vstd::prelude::*;

use crate::display::renderer;
use crate::display::renderer::{PixelState, RenderedDisruption, RenderedVehicle, RendererOutput};
use crate::effects::{Effect, Effects};
use crate::proto::{DeviceConfig, DisruptionInterval, DisruptionMode, RenderMode};
use crate::store::app_settings::persist::PersistSettings;
use crate::store::app_settings::session::SessionSettings;
use crate::store::transit_data::{TransitDataStats, TransitDataStore};
use crate::util;
use crate::util::RGB8;

verus! {

/// Frames per second.
pub const PAINTER_FPS: u32 = 30;

/// Time between two frames of the renderer.
pub const RENDERER_FRAME_TIME_MS: u64 = 1000;

/// How long changes take, at the configured speed.
#[derive(Debug, Copy, Clone, PartialEq, Eq, Structural)]
pub struct DrawTimes {
    /// From one color to the next.
    pub transition_duration_ms: u64,
    /// From dark to bright and back.
    pub pulse_period_ms: u64,
    /// From one pixel to the next.
    pub ripple_delay_ms: u64,
}

/// A color, or one between two others.
#[derive(Debug, Copy, Clone, PartialEq, Eq, Structural)]
pub enum Base {
    Fixed(RGB8),
    /// As far from one color to the other as `part` is of `whole`.
    Mix { from: RGB8, to: RGB8, part: u64, whole: u64 },
}

/// How bright a color is.
#[derive(Debug, Copy, Clone, PartialEq, Eq, Structural)]
pub enum Light {
    Full,
    /// As bright as `part` is of `whole`, or as dark if `reversed`.
    Part { part: u64, whole: u64, reversed: bool },
    /// From dark to bright in the first half of `period`, and back in the second.
    Triangle { phase: u64, period: u64 },
}

/// How a color is put on a pixel.
#[derive(Debug, Copy, Clone, PartialEq, Eq, Structural)]
pub enum DrawMode {
    /// In place of what was there.
    Replace,
    /// Together with what was there, the brighter one in each channel.
    Brighten,
    /// In place of what was there, unless that lies higher.
    OnTop(u8),
}

/// One pixel to draw.
#[derive(Debug, Copy, Clone, PartialEq, Eq, Structural)]
pub struct DrawOp {
    pub pixel: u16,
    pub base: Base,
    pub light: Light,
    pub mode: DrawMode,
}

// ---------------------------------------------------------------------------------------------
// Times
// ---------------------------------------------------------------------------------------------

/// How far apart the changes of `count` things begin, so that they fill a frame of the renderer.
pub open spec fn draw_interval_ms(count: nat) -> int {
    if count == 0 {
        RENDERER_FRAME_TIME_MS as int
    } else {
        RENDERER_FRAME_TIME_MS as int / count as int
    }
}

/// When the change of thing number `idx` of `count` begins.
pub open spec fn change_starts_ms(last_updated_ms: u32, idx: int, count: nat) -> int {
    last_updated_ms + idx * draw_interval_ms(count)
}

proof fn lemma_delay_bound(idx: int, count: nat)
    requires
        0 <= idx < count,
    ensures
        0 <= idx * draw_interval_ms(count) <= RENDERER_FRAME_TIME_MS,
{
    let q = draw_interval_ms(count);
    assert(0 <= idx * q <= 1000) by (nonlinear_arith)
        requires
            0 <= idx < count,
            q == 1000int / (count as int),
    ;
}

fn get_draw_interval_ms(count: usize) -> (ms: u64)
    ensures
        ms == draw_interval_ms(count as nat),
        ms <= 1000,
{
    if count == 0 {
        RENDERER_FRAME_TIME_MS
    } else if count as u64 > RENDERER_FRAME_TIME_MS {
        assert(1000int / (count as int) == 0) by (nonlinear_arith)
            requires
                count > 1000,
        ;
        0
    } else {
        assert(0 <= 1000int / (count as int) <= 1000) by (nonlinear_arith)
            requires
                count > 0,
        ;
        RENDERER_FRAME_TIME_MS / (count as u64)
    }
}

fn get_change_start_ms(last_updated_ms: u32, idx: usize, count: usize, interval: u64) -> (ms: u64)
    requires
        idx < count,
        interval == draw_interval_ms(count as nat),
    ensures
        ms == change_starts_ms(last_updated_ms, idx as int, count as nat),
        ms <= u32::MAX + 1000,
{
    proof {
        lemma_delay_bound(idx as int, count as nat);
    }
    last_updated_ms as u64 + (idx as u64) * interval
}

/// How often disruptions repeat.
pub open spec fn disruption_interval_ms(interval: DisruptionInterval) -> u64 {
    match interval {
        DisruptionInterval::Every2s => 2000,
        DisruptionInterval::Every3s => 3000,
        DisruptionInterval::Every5s => 5000,
        DisruptionInterval::Every10s => 10000,
        DisruptionInterval::Unknown(_) => 5000,
    }
}

/// The period of disruptions: long enough for a pulse.
pub open spec fn disruption_period_ms(config: DeviceConfig, times: DrawTimes) -> int {
    let interval = disruption_interval_ms(config.disruption_interval);
    if times.pulse_period_ms >= interval {
        times.pulse_period_ms as int
    } else {
        interval as int
    }
}

fn get_disruption_period_ms(config: &DeviceConfig, times: DrawTimes) -> (ms: u64)
    ensures
        ms == disruption_period_ms(*config, times),
        ms >= 2000,
{
    let interval: u64 = match config.disruption_interval {
        DisruptionInterval::Every2s => 2000,
        DisruptionInterval::Every3s => 3000,
        DisruptionInterval::Every5s => 5000,
        DisruptionInterval::Every10s => 10000,
        DisruptionInterval::Unknown(_) => 5000,
    };
    if times.pulse_period_ms >= interval {
        times.pulse_period_ms
    } else {
        interval
    }
}

// ---------------------------------------------------------------------------------------------
// Disruptions
// ---------------------------------------------------------------------------------------------

/// The color of a change that begins at `start`: the old color before, the new one after.
pub open spec fn changing_color(
    from: RGB8,
    to: RGB8,
    now: int,
    start: int,
    duration: u64,
) -> Base {
    if now < start {
        Base::Fixed(from)
    } else if now - start >= duration {
        Base::Fixed(to)
    } else {
        Base::Mix { from, to, part: (now - start) as u64, whole: duration }
    }
}

/// The brightness of a pulse after `phase`: it rises for half of it, and falls for the other.
pub open spec fn pulse_light(phase: int, pulse_period_ms: u64) -> Light {
    let half = pulse_period_ms as int / 2;
    if phase < half {
        Light::Part { part: phase as u64, whole: half as u64, reversed: false }
    } else {
        Light::Part { part: (phase - half) as u64, whole: half as u64, reversed: true }
    }
}

/// All pixels in the same color.
pub open spec fn solid_ops(pixels: Seq<u16>, base: Base, light: Light) -> Seq<DrawOp> {
    pixels.map_values(|pixel: u16| DrawOp { pixel, base, light, mode: DrawMode::Replace })
}

/// The first `k` pixels of a ripple that has been running for `elapsed`: each begins later than
/// the one before, and rests between its pulses.
pub open spec fn ripple_ops(
    pixels: Seq<u16>,
    base: Base,
    elapsed: int,
    period: int,
    times: DrawTimes,
    k: nat,
) -> Seq<DrawOp>
    decreases k,
{
    if k == 0 {
        Seq::empty()
    } else {
        let before = ripple_ops(pixels, base, elapsed, period, times, (k - 1) as nat);
        let since = elapsed - (k - 1) * times.ripple_delay_ms;
        if since < 0 || since % period >= times.pulse_period_ms {
            before
        } else {
            before.push(
                DrawOp {
                    pixel: pixels[k - 1],
                    base,
                    light: Light::Triangle {
                        phase: (since % period) as u64,
                        period: times.pulse_period_ms,
                    },
                    mode: DrawMode::Brighten,
                },
            )
        }
    }
}

/// What is drawn of disruption number `idx` of `count`.
pub open spec fn disruption_ops(
    d: RenderedDisruption,
    idx: int,
    count: nat,
    config: DeviceConfig,
    times: DrawTimes,
    now: u64,
) -> Seq<DrawOp> {
    let start = change_starts_ms(d.last_updated_instant_ms, idx, count);
    let base = changing_color(
        d.prev_rgb,
        d.cur_rgb,
        now as int,
        start,
        times.transition_duration_ms,
    );
    let period = disruption_period_ms(config, times);
    match config.disruption_mode {
        DisruptionMode::Off => Seq::empty(),
        DisruptionMode::Unknown(_) => Seq::empty(),
        DisruptionMode::Solid => solid_ops(d.pixels@, base, Light::Full),
        DisruptionMode::Pulsing => {
            let phase = now as int % period;
            if phase >= times.pulse_period_ms {
                Seq::empty()
            } else {
                solid_ops(d.pixels@, base, pulse_light(phase, times.pulse_period_ms))
            }
        },
        DisruptionMode::Ripple => ripple_ops(
            d.pixels@,
            base,
            if now >= start {
                now - start
            } else {
                0
            },
            period,
            times,
            d.pixels@.len(),
        ),
    }
}

/// What is drawn of the first `k` disruptions.
pub open spec fn all_disruption_ops(
    ds: Seq<RenderedDisruption>,
    config: DeviceConfig,
    times: DrawTimes,
    now: u64,
    k: nat,
) -> Seq<DrawOp>
    decreases k,
{
    if k == 0 {
        Seq::empty()
    } else {
        all_disruption_ops(ds, config, times, now, (k - 1) as nat) + disruption_ops(
            ds[k - 1],
            k - 1,
            ds.len(),
            config,
            times,
            now,
        )
    }
}

fn push_solid(pixels: &Vec<u16>, base: Base, light: Light, ops: &mut Vec<DrawOp>)
    ensures
        final(ops)@ == old(ops)@ + solid_ops(pixels@, base, light),
{
    let ghost all = solid_ops(pixels@, base, light);
    let ghost start = ops@;
    let mut i: usize = 0;
    assert(start + all.take(0) =~= start);
    while i < pixels.len()
        invariant
            i <= pixels@.len(),
            all == solid_ops(pixels@, base, light),
            ops@ == start + all.take(i as int),
        decreases pixels@.len() - i,
    {
        ops.push(DrawOp { pixel: pixels[i], base, light, mode: DrawMode::Replace });
        i = i + 1;
        assert(start + all.take(i as int) =~= (start + all.take(i - 1)).push(all[i - 1]));
    }
    assert(all.take(i as int) =~= all);
}

fn push_ripple(
    pixels: &Vec<u16>,
    base: Base,
    elapsed: u64,
    period: u64,
    times: DrawTimes,
    ops: &mut Vec<DrawOp>,
)
    requires
        period > 0,
    ensures
        final(ops)@ == old(ops)@ + ripple_ops(
            pixels@,
            base,
            elapsed as int,
            period as int,
            times,
            pixels@.len(),
        ),
{
    let ghost start = ops@;
    let mut i: usize = 0;
    assert(start + Seq::<DrawOp>::empty() =~= start);
    while i < pixels.len()
        invariant
            i <= pixels@.len(),
            period > 0,
            ops@ == start + ripple_ops(
                pixels@,
                base,
                elapsed as int,
                period as int,
                times,
                i as nat,
            ),
        decreases pixels@.len() - i,
    {
        let ghost done = ripple_ops(
            pixels@,
            base,
            elapsed as int,
            period as int,
            times,
            i as nat,
        );
        assert(0 <= i * times.ripple_delay_ms <= 0xFFFF_FFFF_FFFF_FFFF * 0xFFFF_FFFF_FFFF_FFFF)
            by (nonlinear_arith)
            requires
                0 <= i <= 0xFFFF_FFFF_FFFF_FFFF,
                0 <= times.ripple_delay_ms <= 0xFFFF_FFFF_FFFF_FFFF,
        ;
        let delay: u128 = (i as u128) * (times.ripple_delay_ms as u128);
        if delay <= elapsed as u128 {
            let since: u64 = elapsed - (delay as u64);
            let phase: u64 = since % period;
            if phase < times.pulse_period_ms {
                let op = DrawOp {
                    pixel: pixels[i],
                    base,
                    light: Light::Triangle { phase, period: times.pulse_period_ms },
                    mode: DrawMode::Brighten,
                };
                ops.push(op);
                assert((start + done).push(op) =~= start + done.push(op));
            }
        }
        i = i + 1;
    }
}

fn get_changing_color(from: RGB8, to: RGB8, now: u64, start: u64, duration: u64) -> (b: Base)
    ensures
        b == changing_color(from, to, now as int, start as int, duration),
{
    if now < start {
        Base::Fixed(from)
    } else if now - start >= duration {
        Base::Fixed(to)
    } else {
        Base::Mix { from, to, part: now - start, whole: duration }
    }
}

fn draw_disruption(
    d: &RenderedDisruption,
    idx: usize,
    count: usize,
    interval: u64,
    config: &DeviceConfig,
    times: DrawTimes,
    now: u64,
    ops: &mut Vec<DrawOp>,
)
    requires
        idx < count,
        interval == draw_interval_ms(count as nat),
    ensures
        final(ops)@ == old(ops)@ + disruption_ops(
            *d,
            idx as int,
            count as nat,
            *config,
            times,
            now,
        ),
{
    let start: u64 = get_change_start_ms(d.last_updated_instant_ms, idx, count, interval);
    let base = get_changing_color(
        d.prev_rgb,
        d.cur_rgb,
        now,
        start,
        times.transition_duration_ms,
    );
    let period: u64 = get_disruption_period_ms(config, times);
    assert(ops@ + Seq::<DrawOp>::empty() =~= ops@);
    match config.disruption_mode {
        DisruptionMode::Off => {},
        DisruptionMode::Unknown(_) => {},
        DisruptionMode::Solid => push_solid(&d.pixels, base, Light::Full, ops),
        DisruptionMode::Pulsing => {
            let phase: u64 = now % period;
            if phase < times.pulse_period_ms {
                let half: u64 = times.pulse_period_ms / 2;
                let light = if phase < half {
                    Light::Part { part: phase, whole: half, reversed: false }
                } else {
                    Light::Part { part: phase - half, whole: half, reversed: true }
                };
                push_solid(&d.pixels, base, light, ops);
            }
        },
        DisruptionMode::Ripple => {
            let elapsed: u64 = now.saturating_sub(start);
            push_ripple(&d.pixels, base, elapsed, period, times, ops);
        },
    }
}

// ---------------------------------------------------------------------------------------------
// Vehicles
// ---------------------------------------------------------------------------------------------

/// How high a vehicle lies: the later its change, in seconds since the data was first rendered,
/// the higher.
pub open spec fn height_of(start: int, rendered_first_ms: u32) -> u8 {
    let secs = if start > rendered_first_ms {
        (start - rendered_first_ms) / 1000
    } else {
        0
    };
    if secs > 255 {
        255
    } else {
        secs as u8
    }
}

/// One pixel of a vehicle, if there is one.
pub open spec fn vehicle_op(p: PixelState, light: Light, height: u8) -> Seq<DrawOp> {
    match p.some() {
        None => Seq::empty(),
        Some(s) => seq![
            DrawOp {
                pixel: s.idx,
                base: Base::Fixed(s.rgb),
                light,
                mode: DrawMode::OnTop(height),
            },
        ],
    }
}

/// What is drawn of vehicle number `idx` of `count`: the old pixel before its change, the new one
/// after. During the change a pixel that stays changes its color; else the old one fades out
/// while the new one fades in.
pub open spec fn vehicle_ops(
    v: RenderedVehicle,
    idx: int,
    count: nat,
    times: DrawTimes,
    rendered_first_ms: u32,
    now: u64,
) -> Seq<DrawOp> {
    let start = change_starts_ms(v.last_updated_instant_ms, idx, count);
    let height = height_of(start, rendered_first_ms);
    let duration = times.transition_duration_ms;
    if now < start {
        vehicle_op(v.prev, Light::Full, height)
    } else if now - start >= duration {
        vehicle_op(v.cur, Light::Full, height)
    } else {
        let part = (now - start) as u64;
        match (v.prev.some(), v.cur.some()) {
            (Some(prev), Some(cur)) if prev.idx == cur.idx => seq![
                DrawOp {
                    pixel: cur.idx,
                    base: Base::Mix { from: prev.rgb, to: cur.rgb, part, whole: duration },
                    light: Light::Full,
                    mode: DrawMode::OnTop(height),
                },
            ],
            _ => vehicle_op(v.prev, Light::Part { part, whole: duration, reversed: true }, height)
                + vehicle_op(v.cur, Light::Part { part, whole: duration, reversed: false }, height),
        }
    }
}

/// What is drawn of the first `k` vehicles.
pub open spec fn all_vehicle_ops(
    vs: Seq<RenderedVehicle>,
    times: DrawTimes,
    rendered_first_ms: u32,
    now: u64,
    k: nat,
) -> Seq<DrawOp>
    decreases k,
{
    if k == 0 {
        Seq::empty()
    } else {
        all_vehicle_ops(vs, times, rendered_first_ms, now, (k - 1) as nat) + vehicle_ops(
            vs[k - 1],
            k - 1,
            vs.len(),
            times,
            rendered_first_ms,
            now,
        )
    }
}

fn push_vehicle_op(p: PixelState, light: Light, height: u8, ops: &mut Vec<DrawOp>)
    ensures
        final(ops)@ == old(ops)@ + vehicle_op(p, light, height),
{
    assert(ops@ + Seq::<DrawOp>::empty() =~= ops@);
    if let Some(s) = p.to_option() {
        let op = DrawOp {
            pixel: s.idx,
            base: Base::Fixed(s.rgb),
            light,
            mode: DrawMode::OnTop(height),
        };
        ops.push(op);
        assert(ops@ =~= old(ops)@ + seq![op]);
    }
}

fn draw_vehicle(
    v: &RenderedVehicle,
    idx: usize,
    count: usize,
    interval: u64,
    times: DrawTimes,
    rendered_first_ms: u32,
    now: u64,
    ops: &mut Vec<DrawOp>,
)
    requires
        idx < count,
        interval == draw_interval_ms(count as nat),
    ensures
        final(ops)@ == old(ops)@ + vehicle_ops(
            *v,
            idx as int,
            count as nat,
            times,
            rendered_first_ms,
            now,
        ),
{
    let start: u64 = get_change_start_ms(v.last_updated_instant_ms, idx, count, interval);
    let secs: u64 = start.saturating_sub(rendered_first_ms as u64) / 1000;
    let height: u8 = if secs > 255 {
        255
    } else {
        secs as u8
    };
    let whole: u64 = times.transition_duration_ms;
    if now < start {
        push_vehicle_op(v.prev, Light::Full, height, ops);
        return;
    }
    if now - start >= whole {
        push_vehicle_op(v.cur, Light::Full, height, ops);
        return;
    }
    let part: u64 = now - start;
    if let (Some(prev), Some(cur)) = (v.prev.to_option(), v.cur.to_option()) {
        if prev.idx == cur.idx {
            let op = DrawOp {
                pixel: cur.idx,
                base: Base::Mix { from: prev.rgb, to: cur.rgb, part, whole },
                light: Light::Full,
                mode: DrawMode::OnTop(height),
            };
            ops.push(op);
            assert(ops@ =~= old(ops)@ + seq![op]);
            return;
        }
    }
    let fade_out = Light::Part { part, whole, reversed: true };
    let fade_in = Light::Part { part, whole, reversed: false };
    push_vehicle_op(v.prev, fade_out, height, ops);
    push_vehicle_op(v.cur, fade_in, height, ops);
    assert(ops@ =~= old(ops)@ + (vehicle_op(v.prev, fade_out, height) + vehicle_op(
        v.cur,
        fade_in,
        height,
    )));
}

// ---------------------------------------------------------------------------------------------
// A frame
// ---------------------------------------------------------------------------------------------

/// What is drawn in one frame: disruptions first, then vehicles.
pub open spec fn frame_ops(
    out: RendererOutput,
    config: DeviceConfig,
    times: DrawTimes,
    rendered_first_ms: u32,
    now: u64,
) -> Seq<DrawOp> {
    all_disruption_ops(out.disruptions@, config, times, now, out.disruptions@.len())
        + all_vehicle_ops(out.vehicles@, times, rendered_first_ms, now, out.vehicles@.len())
}

/// What a call for a frame comes to.
#[derive(Debug, Copy, Clone, PartialEq, Eq, Structural)]
pub enum FrameStart {
    /// There is no data.
    NoData,
    /// This is the first frame: the LEDs are faded out before it.
    FadeOutFirst,
    /// Go on.
    Ready,
}

/// Tells whether a frame can be drawn, and whether it is the first one.
pub fn start_frame(store: &Option<TransitDataStore>) -> (r: FrameStart)
    ensures
        r == (match store {
            None => FrameStart::NoData,
            Some(s) => if s.state.rendered_state.drawn_first_frame_at_instant_ms is None {
                FrameStart::FadeOutFirst
            } else {
                FrameStart::Ready
            },
        }),
{
    match store {
        None => FrameStart::NoData,
        Some(s) => if s.state.rendered_state.drawn_first_frame_at_instant_ms.is_none() {
            FrameStart::FadeOutFirst
        } else {
            FrameStart::Ready
        },
    }
}

/// Remembers when the first frame was drawn.
pub fn mark_first_frame(store: &mut TransitDataStore, now_instant_ms: u64)
    ensures
        final(store).state.rendered_state == (renderer::RendererState {
            drawn_first_frame_at_instant_ms: Some(now_instant_ms as u32),
            ..old(store).state.rendered_state
        }),
        final(store).state.renderer_out == old(store).state.renderer_out,
        final(store).state.stop_id_to_loc_id_map == old(store).state.stop_id_to_loc_id_map,
        final(store).data == old(store).data,
        final(store).stats == old(store).stats,
{
    store.state.rendered_state.drawn_first_frame_at_instant_ms = Some(now_instant_ms as u32);
}

/// The duration of a change: none unless changes are shown.
pub fn transition_duration_ms(config: &DeviceConfig, at_speed_ms: u64) -> (ms: u64)
    ensures
        ms == (if config.render_mode == RenderMode::SnapClosest {
            0
        } else {
            at_speed_ms
        }),
{
    match config.render_mode {
        RenderMode::SnapClosest => 0,
        _ => at_speed_ms,
    }
}

/// Works out what to draw. `None` if the data was not rendered yet.
pub fn plan_frame(
    store: &TransitDataStore,
    config: &DeviceConfig,
    times: DrawTimes,
    now_instant_ms: u64,
) -> (r: Option<Vec<DrawOp>>)
    ensures
        match store.state.rendered_state.rendered_data_first_at_instant_ms {
            None => r is None,
            Some(first) => r matches Some(ops) && ops@ == frame_ops(
                store.state.renderer_out,
                *config,
                times,
                first,
                now_instant_ms,
            ),
        },
{
    let first: u32 = match store.state.rendered_state.rendered_data_first_at_instant_ms {
        Some(first) => first,
        None => {
            return None;
        },
    };
    let out = &store.state.renderer_out;
    let now: u64 = now_instant_ms;
    let mut ops: Vec<DrawOp> = Vec::new();
    let ghost ds = out.disruptions@;
    let d_interval: u64 = get_draw_interval_ms(out.disruptions.len());
    let mut i: usize = 0;
    while i < out.disruptions.len()
        invariant
            i <= ds.len(),
            ds == out.disruptions@,
            d_interval == draw_interval_ms(ds.len()),
            ops@ == all_disruption_ops(ds, *config, times, now, i as nat),
        decreases ds.len() - i,
    {
        draw_disruption(
            &out.disruptions[i],
            i,
            out.disruptions.len(),
            d_interval,
            config,
            times,
            now,
            &mut ops,
        );
        i = i + 1;
    }
    let ghost drawn = ops@;
    let ghost vs = out.vehicles@;
    let v_interval: u64 = get_draw_interval_ms(out.vehicles.len());
    let mut j: usize = 0;
    assert(drawn + Seq::<DrawOp>::empty() =~= drawn);
    while j < out.vehicles.len()
        invariant
            j <= vs.len(),
            vs == out.vehicles@,
            v_interval == draw_interval_ms(vs.len()),
            ops@ == drawn + all_vehicle_ops(vs, times, first, now, j as nat),
        decreases vs.len() - j,
    {
        let ghost done = all_vehicle_ops(vs, times, first, now, j as nat);
        let ghost new = vehicle_ops(vs[j as int], j as int, vs.len(), times, first, now);
        draw_vehicle(
            &out.vehicles[j],
            j,
            out.vehicles.len(),
            v_interval,
            times,
            first,
            now,
            &mut ops,
        );
        assert((drawn + done) + new =~= drawn + (done + new));
        j = j + 1;
    }
    Some(ops)
}

/// Pixels and how high what is on them lies.
#[verifier::ext_equal]
pub struct Canvas {
    pub pixels: Seq<RGB8>,
    pub heights: Seq<u8>,
}

/// `n` dark pixels.
pub open spec fn dark_canvas(n: nat) -> Canvas {
    Canvas {
        pixels: Seq::new(n, |i: int| util::spec_black()),
        heights: Seq::new(n, |i: int| 0u8),
    }
}

/// The canvas after one pixel was drawn.
pub open spec fn drawn(c: Canvas, op: DrawOp, color: RGB8) -> Canvas {
    let i = op.pixel as int;
    match op.mode {
        DrawMode::Replace => Canvas { pixels: c.pixels.update(i, color), ..c },
        DrawMode::Brighten => Canvas {
            pixels: c.pixels.update(i, util::brighter_rgb8(c.pixels[i], color)),
            ..c
        },
        DrawMode::OnTop(height) => if c.heights[i] <= height {
            Canvas { pixels: c.pixels.update(i, color), heights: c.heights.update(i, height) }
        } else {
            c
        },
    }
}

/// The canvas of `n` pixels after the first `k` were drawn, in the given colors.
pub open spec fn canvas_after(n: nat, ops: Seq<DrawOp>, colors: Seq<RGB8>, k: nat) -> Canvas
    decreases k,
{
    if k == 0 {
        dark_canvas(n)
    } else {
        drawn(canvas_after(n, ops, colors, (k - 1) as nat), ops[k - 1], colors[k - 1])
    }
}

/// How many of the first `k` pixels are not dark.
pub open spec fn num_on(pixels: Seq<RGB8>, k: nat) -> nat
    decreases k,
{
    if k == 0 {
        0
    } else if pixels[k - 1] != util::spec_black() {
        num_on(pixels, (k - 1) as nat) + 1
    } else {
        num_on(pixels, (k - 1) as nat)
    }
}

proof fn lemma_canvas_size(n: nat, ops: Seq<DrawOp>, colors: Seq<RGB8>, k: nat)
    requires
        forall|i: int| 0 <= i < k ==> (#[trigger] ops[i]).pixel < n,
    ensures
        canvas_after(n, ops, colors, k).pixels.len() == n,
        canvas_after(n, ops, colors, k).heights.len() == n,
    decreases k,
{
    if k > 0 {
        lemma_canvas_size(n, ops, colors, (k - 1) as nat);
        assert(ops[k - 1].pixel < n);
    }
}

/// Writes a color to a pixel, unless what is there lies higher.
fn write_pixel_z(pixels: &mut [RGB8], idx: usize, color: RGB8, z_buffer: &mut Vec<u8>, z_value: u8)
    requires
        idx < old(pixels)@.len(),
        old(z_buffer)@.len() == old(pixels)@.len(),
    ensures
        ({
            let before = Canvas { pixels: old(pixels)@, heights: old(z_buffer)@ };
            let after = Canvas { pixels: final(pixels)@, heights: final(z_buffer)@ };
            if before.heights[idx as int] <= z_value {
                after == (Canvas {
                    pixels: before.pixels.update(idx as int, color),
                    heights: before.heights.update(idx as int, z_value),
                })
            } else {
                after == before
            }
        }),
{
    if z_buffer[idx] <= z_value {
        z_buffer[idx] = z_value;
        pixels[idx] = color;
    }
}

/// Draws a frame, in the given colors, counts the pixels that are on and brings them to the LEDs.
pub fn finish_frame(
    store: &mut TransitDataStore,
    pixels: &mut [RGB8],
    ops: &Vec<DrawOp>,
    colors: &Vec<RGB8>,
    fx: &mut Effects,
)
    requires
        colors@.len() == ops@.len(),
        forall|i: int| 0 <= i < ops@.len() ==> (#[trigger] ops@[i]).pixel < old(pixels)@.len(),
    ensures
        final(pixels)@ == canvas_after(
            old(pixels)@.len(),
            ops@,
            colors@,
            ops@.len(),
        ).pixels,
        final(store).stats == (TransitDataStats {
            num_pixels_on: num_on(final(pixels)@, final(pixels)@.len()) as u32,
            ..old(store).stats
        }),
        final(store).state == old(store).state,
        final(store).data == old(store).data,
        final(fx)@ == old(fx)@.push(Effect::UpdateLeds),
{
    let n: usize = pixels.len();
    let mut z_buffer: Vec<u8> = Vec::new();
    let mut i: usize = 0;
    while i < n
        invariant
            i <= n,
            n == pixels@.len(),
            n == old(pixels)@.len(),
            z_buffer@.len() == i,
            forall|j: int| 0 <= j < i ==> #[trigger] pixels@[j] == util::spec_black(),
            forall|j: int| 0 <= j < i ==> #[trigger] z_buffer@[j] == 0,
        decreases n - i,
    {
        pixels[i] = util::black();
        z_buffer.push(0);
        i = i + 1;
    }
    let mut k: usize = 0;
    assert(Canvas { pixels: pixels@, heights: z_buffer@ } =~= dark_canvas(n as nat));
    while k < ops.len()
        invariant
            k <= ops@.len(),
            n == pixels@.len(),
            n == old(pixels)@.len(),
            z_buffer@.len() == n,
            colors@.len() == ops@.len(),
            forall|i: int| 0 <= i < ops@.len() ==> (#[trigger] ops@[i]).pixel < n,
            (Canvas { pixels: pixels@, heights: z_buffer@ }) == canvas_after(
                n as nat,
                ops@,
                colors@,
                k as nat,
            ),
        decreases ops@.len() - k,
    {
        let op = ops[k];
        assert(ops@[k as int].pixel < n);
        let idx: usize = op.pixel as usize;
        match op.mode {
            DrawMode::Replace => {
                pixels[idx] = colors[k];
            },
            DrawMode::Brighten => {
                let both = util::rgb8_max(pixels[idx], colors[k]);
                pixels[idx] = both;
            },
            DrawMode::OnTop(height) => write_pixel_z(
                pixels,
                idx,
                colors[k],
                &mut z_buffer,
                height,
            ),
        }
        k = k + 1;
    }
    let mut on: usize = 0;
    let mut j: usize = 0;
    while j < n
        invariant
            j <= n,
            n == pixels@.len(),
            on <= j,
            on == num_on(pixels@, j as nat),
        decreases n - j,
    {
        if pixels[j] != util::black() {
            on = on + 1;
        }
        j = j + 1;
    }
    store.stats.num_pixels_on = on as u32;
    fx.push(Effect::UpdateLeds);
}

// ---------------------------------------------------------------------------------------------
// When to draw
// ---------------------------------------------------------------------------------------------

/// What a turn of the painter does.
#[derive(Debug, Copy, Clone, PartialEq, Eq, Structural)]
pub struct DrawTurn {
    /// Run the timer and the automatic brightness.
    pub automation: bool,
    /// Draw a frame.
    pub draw: bool,
}

/// Decides what to do in a turn: nothing until the device is set up and while the LEDs are tested,
/// and no drawing while the light is off.
pub fn plan_turn(persist: &PersistSettings, session: &SessionSettings) -> (t: DrawTurn)
    ensures
        t.automation == (persist.access_token is Some && !session.test_mode_active),
        t.draw == (t.automation && session.light_on),
{
    let automation = persist.access_token.is_some() && !session.test_mode_active;
    DrawTurn { automation, draw: automation && session.light_on }
}

/// How long to wait after a frame that took `frame_duration_ms`, if there is time left.
pub fn frame_wait_ms(frame_duration_ms: u64, fps: u32) -> (r: Option<u64>)
    requires
        fps > 0,
    ensures
        r == (if frame_duration_ms < 1000u64 / (fps as u64) {
            Some((1000u64 / (fps as u64) - frame_duration_ms) as u64)
        } else {
            None
        }),
{
    let frame_delay: u64 = 1000 / (fps as u64);
    if frame_duration_ms < frame_delay {
        Some(frame_delay - frame_duration_ms)
    } else {
        None
    }
}

// ---------------------------------------------------------------------------------------------
// Laws
// ---------------------------------------------------------------------------------------------

/// A pixel that nothing is drawn on stays dark.
pub proof fn lemma_untouched_stays_dark(
    n: nat,
    ops: Seq<DrawOp>,
    colors: Seq<RGB8>,
    k: nat,
    pixel: int,
)
    requires
        0 <= pixel < n,
        k <= ops.len(),
        forall|i: int| 0 <= i < k ==> (#[trigger] ops[i]).pixel != pixel && ops[i].pixel < n,
    ensures
        canvas_after(n, ops, colors, k).pixels[pixel] == util::spec_black(),
    decreases k,
{
    if k > 0 {
        lemma_untouched_stays_dark(n, ops, colors, (k - 1) as nat, pixel);
        lemma_canvas_size(n, ops, colors, (k - 1) as nat);
        assert(ops[k - 1].pixel != pixel);
    }
}

/// Of vehicles on the same pixel, the highest shows, and of those as high the last one.
pub proof fn lemma_highest_shows(
    n: nat,
    ops: Seq<DrawOp>,
    colors: Seq<RGB8>,
    k: nat,
    at: int,
    height: u8,
)
    requires
        0 <= at < k <= ops.len(),
        ops[at].mode == DrawMode::OnTop(height),
        forall|i: int| 0 <= i < k ==> (#[trigger] ops[i]).pixel < n,
        forall|i: int|
            0 <= i < at && (#[trigger] ops[i]).pixel == ops[at].pixel ==> (ops[i].mode matches
                DrawMode::OnTop(h) ==> h <= height),
        forall|i: int|
            at < i < k && (#[trigger] ops[i]).pixel == ops[at].pixel ==> (ops[i].mode matches
                DrawMode::OnTop(h) && h < height),
    ensures
        canvas_after(n, ops, colors, k).pixels[ops[at].pixel as int] == colors[at],
        canvas_after(n, ops, colors, k).heights[ops[at].pixel as int] == height,
    decreases k,
{
    let p = ops[at].pixel;
    lemma_canvas_size(n, ops, colors, (k - 1) as nat);
    if at == k - 1 {
        lemma_height_bound(n, ops, colors, at as nat, p as int, height);
    } else {
        lemma_highest_shows(n, ops, colors, (k - 1) as nat, at, height);
        assert(ops[k - 1].pixel == p ==> (ops[k - 1].mode matches DrawMode::OnTop(h) && h
            < height));
    }
}

proof fn lemma_height_bound(
    n: nat,
    ops: Seq<DrawOp>,
    colors: Seq<RGB8>,
    k: nat,
    pixel: int,
    height: u8,
)
    requires
        0 <= pixel < n,
        k <= ops.len(),
        forall|i: int| 0 <= i < k ==> (#[trigger] ops[i]).pixel < n,
        forall|i: int|
            0 <= i < k && (#[trigger] ops[i]).pixel == pixel ==> (ops[i].mode matches
                DrawMode::OnTop(h) ==> h <= height),
    ensures
        canvas_after(n, ops, colors, k).heights[pixel] <= height,
    decreases k,
{
    if k > 0 {
        lemma_height_bound(n, ops, colors, (k - 1) as nat, pixel, height);
        lemma_canvas_size(n, ops, colors, (k - 1) as nat);
        assert(ops[k - 1].pixel == pixel ==> (ops[k - 1].mode matches DrawMode::OnTop(h) ==> h
            <= height));
    }
}

/// A vehicle whose change is over shows its pixel in full, and nothing else.
pub proof fn lemma_settled_vehicle(
    v: RenderedVehicle,
    idx: int,
    count: nat,
    times: DrawTimes,
    rendered_first_ms: u32,
    now: u64,
)
    requires
        now >= change_starts_ms(v.last_updated_instant_ms, idx, count)
            + times.transition_duration_ms,
    ensures
        vehicle_ops(v, idx, count, times, rendered_first_ms, now) == vehicle_op(
            v.cur,
            Light::Full,
            height_of(
                change_starts_ms(v.last_updated_instant_ms, idx, count),
                rendered_first_ms,
            ),
        ),
{
}

proof fn lemma_ripple_within(
    pixels: Seq<u16>,
    base: Base,
    elapsed: int,
    period: int,
    times: DrawTimes,
    k: nat,
    n: nat,
)
    requires
        k <= pixels.len(),
        forall|i: int| 0 <= i < pixels.len() ==> (#[trigger] pixels[i]) < n,
    ensures
        forall|i: int|
            0 <= i < ripple_ops(pixels, base, elapsed, period, times, k).len() ==> (
            #[trigger] ripple_ops(pixels, base, elapsed, period, times, k)[i]).pixel < n,
    decreases k,
{
    if k > 0 {
        lemma_ripple_within(pixels, base, elapsed, period, times, (k - 1) as nat, n);
        let before = ripple_ops(pixels, base, elapsed, period, times, (k - 1) as nat);
        let after = ripple_ops(pixels, base, elapsed, period, times, k);
        assert forall|i: int| 0 <= i < after.len() implies (#[trigger] after[i]).pixel < n by {
            if i < before.len() {
                assert(after[i] == before[i]);
            } else {
                assert(pixels[k - 1] < n);
            }
        }
    }
}

proof fn lemma_disruptions_within(
    ds: Seq<RenderedDisruption>,
    config: DeviceConfig,
    times: DrawTimes,
    now: u64,
    k: nat,
    n: nat,
)
    requires
        k <= ds.len(),
        forall|i: int| 0 <= i < ds.len() ==> (#[trigger] ds[i])@.within(n),
    ensures
        forall|i: int|
            0 <= i < all_disruption_ops(ds, config, times, now, k).len() ==> (
            #[trigger] all_disruption_ops(ds, config, times, now, k)[i]).pixel < n,
    decreases k,
{
    if k > 0 {
        lemma_disruptions_within(ds, config, times, now, (k - 1) as nat, n);
        let before = all_disruption_ops(ds, config, times, now, (k - 1) as nat);
        let d = ds[k - 1];
        let new = disruption_ops(d, k - 1, ds.len(), config, times, now);
        assert(d@.within(n));
        let start = change_starts_ms(d.last_updated_instant_ms, k - 1, ds.len());
        let base = changing_color(
            d.prev_rgb,
            d.cur_rgb,
            now as int,
            start,
            times.transition_duration_ms,
        );
        lemma_ripple_within(
            d.pixels@,
            base,
            if now >= start {
                now - start
            } else {
                0
            },
            disruption_period_ms(config, times),
            times,
            d.pixels@.len(),
            n,
        );
        assert forall|i: int| 0 <= i < new.len() implies (#[trigger] new[i]).pixel < n by {
            if config.disruption_mode != DisruptionMode::Ripple {
                assert(new[i].pixel == d@.pixels[i]);
            }
        }
        assert forall|i: int| 0 <= i < (before + new).len() implies (
        #[trigger] (before + new)[i]).pixel < n by {
            if i >= before.len() {
                assert((before + new)[i] == new[i - before.len()]);
            }
        }
    }
}

proof fn lemma_vehicles_within(
    vs: Seq<RenderedVehicle>,
    times: DrawTimes,
    rendered_first_ms: u32,
    now: u64,
    k: nat,
    n: nat,
)
    requires
        k <= vs.len(),
        forall|i: int| 0 <= i < vs.len() ==> (#[trigger] vs[i]).within(n),
    ensures
        forall|i: int|
            0 <= i < all_vehicle_ops(vs, times, rendered_first_ms, now, k).len() ==> (
            #[trigger] all_vehicle_ops(vs, times, rendered_first_ms, now, k)[i]).pixel < n,
    decreases k,
{
    if k > 0 {
        lemma_vehicles_within(vs, times, rendered_first_ms, now, (k - 1) as nat, n);
        let before = all_vehicle_ops(vs, times, rendered_first_ms, now, (k - 1) as nat);
        let new = vehicle_ops(vs[k - 1], k - 1, vs.len(), times, rendered_first_ms, now);
        assert(vs[k - 1].within(n));
        assert forall|i: int| 0 <= i < (before + new).len() implies (
        #[trigger] (before + new)[i]).pixel < n by {
            if i >= before.len() {
                assert((before + new)[i] == new[i - before.len()]);
            }
        }
    }
}

/// Only pixels of vehicles and disruptions that are on the map are drawn: if these are among the
/// first `n`, so is all that is drawn.
pub proof fn lemma_frame_within(
    out: RendererOutput,
    config: DeviceConfig,
    times: DrawTimes,
    rendered_first_ms: u32,
    now: u64,
    n: nat,
)
    requires
        out.within(n),
    ensures
        forall|i: int|
            0 <= i < frame_ops(out, config, times, rendered_first_ms, now).len() ==> (
            #[trigger] frame_ops(out, config, times, rendered_first_ms, now)[i]).pixel < n,
{
    let ds = out.disruptions@;
    let vs = out.vehicles@;
    lemma_disruptions_within(ds, config, times, now, ds.len(), n);
    lemma_vehicles_within(vs, times, rendered_first_ms, now, vs.len(), n);
    let first = all_disruption_ops(ds, config, times, now, ds.len());
    let second = all_vehicle_ops(vs, times, rendered_first_ms, now, vs.len());
    assert forall|i: int| 0 <= i < (first + second).len() implies (
    #[trigger] (first + second)[i]).pixel < n by {
        if i >= first.len() {
            assert((first + second)[i] == second[i - first.len()]);
        }
    }
}

/// How bright a pixel is, in parts of `whole`.
pub open spec fn share_of(light: Light, whole: int) -> int {
    match light {
        Light::Full => whole,
        Light::Part { part, whole: w, reversed } => if w != whole {
            -1
        } else if reversed {
            whole - part
        } else {
            part as int
        },
        Light::Triangle { phase, period } => if 2 * phase <= period {
            phase * 2
        } else {
            (period - phase) * 2
        },
    }
}

/// Whether a change of thing number `idx` of `count` that was made at `made_ms` begins at
/// `start_ms`: things take their turns, equally far apart, within one second.
pub open spec fn begins_at(made_ms: u32, idx: int, count: int, start_ms: int) -> bool {
    exists|apart: int|
        apart * count <= 1000 < (apart + 1) * count && #[trigger] (idx * apart) + made_ms
            == start_ms
}

proof fn lemma_begins_at(made_ms: u32, idx: int, count: nat, start_ms: int)
    requires
        0 <= idx < count,
        begins_at(made_ms, idx, count as int, start_ms),
    ensures
        change_starts_ms(made_ms, idx, count) == start_ms,
{
    let apart = choose|apart: int|
        apart * count <= 1000 < (apart + 1) * count && #[trigger] (idx * apart) + made_ms
            == start_ms;
    let n = count as int;
    assert(1000int / n == apart) by (nonlinear_arith)
        requires
            apart * n <= 1000 < (apart + 1) * n,
            n > 0,
    ;
}

/// During a change from one pixel to another, the old pixel is in its old color and the new one in
/// its new color, and the brightness of the two adds up to the whole: where the new one is at `p`
/// of the duration, the old one is at the rest of it. So the old pixel is in full as the change
/// begins, as it was before, and the new one comes to be in full as it ends, as it is after.
pub proof fn lemma_fading_adds_up(
    v: RenderedVehicle,
    idx: int,
    count: nat,
    times: DrawTimes,
    rendered_first_ms: u32,
    now: u64,
    start_ms: int,
    from: u16,
    to: u16,
)
    requires
        0 <= idx < count,
        begins_at(v.last_updated_instant_ms, idx, count as int, start_ms),
        v.prev.idx@ == Some(from),
        v.cur.idx@ == Some(to),
        from != to,
    ensures
        ({
            let ops = vehicle_ops(v, idx, count, times, rendered_first_ms, now);
            let whole = times.transition_duration_ms as int;
            let shows = |op: DrawOp, pixel: u16, rgb: RGB8|
                op.pixel == pixel && op.base == Base::Fixed(rgb);
            &&& now < start_ms ==> ops.len() == 1 && shows(ops[0], from, v.prev.rgb)
                && ops[0].light == Light::Full
            &&& start_ms <= now < start_ms + whole ==> {
                &&& ops.len() == 2
                &&& shows(ops[0], from, v.prev.rgb)
                &&& shows(ops[1], to, v.cur.rgb)
                &&& share_of(ops[1].light, whole) == now - start_ms
                &&& share_of(ops[0].light, whole) + share_of(ops[1].light, whole) == whole
            }
            &&& now >= start_ms + whole ==> ops.len() == 1 && shows(ops[0], to, v.cur.rgb)
                && ops[0].light == Light::Full
        }),
{
    lemma_begins_at(v.last_updated_instant_ms, idx, count, start_ms);
}

/// A vehicle that comes onto the map fades in alone, and one that leaves it fades out alone. One
/// that is on no pixel draws none.
pub proof fn lemma_fading_alone(
    v: RenderedVehicle,
    idx: int,
    count: nat,
    times: DrawTimes,
    rendered_first_ms: u32,
    now: u64,
    start_ms: int,
)
    requires
        0 <= idx < count,
        begins_at(v.last_updated_instant_ms, idx, count as int, start_ms),
        v.prev.idx@ is None || v.cur.idx@ is None,
    ensures
        ({
            let ops = vehicle_ops(v, idx, count, times, rendered_first_ms, now);
            let whole = times.transition_duration_ms as int;
            let passed = if now < start_ms {
                0
            } else if now >= start_ms + whole {
                whole
            } else {
                now - start_ms
            };
            &&& v.prev.idx@ is None && v.cur.idx@ is None ==> ops.len() == 0
            &&& v.prev.idx@ matches Some(pixel) ==> {
                &&& now < start_ms || passed < whole ==> ops.len() == 1 && ops[0].pixel == pixel
                    && ops[0].base == Base::Fixed(v.prev.rgb) && share_of(ops[0].light, whole)
                    == whole - passed
                &&& now >= start_ms && passed == whole ==> ops.len() == 0
            }
            &&& v.cur.idx@ matches Some(pixel) ==> {
                &&& now >= start_ms ==> ops.len() == 1 && ops[0].pixel == pixel && ops[0].base
                    == Base::Fixed(v.cur.rgb) && share_of(ops[0].light, whole) == passed
                &&& now < start_ms ==> ops.len() == 0
            }
        }),
{
    lemma_begins_at(v.last_updated_instant_ms, idx, count, start_ms);
}

/// A vehicle that stays on its pixel shows it in full all the time. Its color goes from the old one
/// to the new one evenly over the duration of the change.
pub proof fn lemma_color_changes_in_place(
    v: RenderedVehicle,
    idx: int,
    count: nat,
    times: DrawTimes,
    rendered_first_ms: u32,
    now: u64,
    start_ms: int,
    pixel: u16,
)
    requires
        0 <= idx < count,
        begins_at(v.last_updated_instant_ms, idx, count as int, start_ms),
        v.prev.idx@ == Some(pixel),
        v.cur.idx@ == Some(pixel),
    ensures
        ({
            let ops = vehicle_ops(v, idx, count, times, rendered_first_ms, now);
            let duration = times.transition_duration_ms;
            &&& ops.len() == 1
            &&& ops[0].pixel == pixel
            &&& ops[0].light == Light::Full
            &&& now < start_ms ==> ops[0].base == Base::Fixed(v.prev.rgb)
            &&& now >= start_ms + duration ==> ops[0].base == Base::Fixed(v.cur.rgb)
            &&& start_ms <= now < start_ms + duration ==> (ops[0].base matches Base::Mix {
                from,
                to,
                part,
                whole,
            } && from == v.prev.rgb && to == v.cur.rgb && part == now - start_ms && whole
                == duration)
        }),
{
    lemma_begins_at(v.last_updated_instant_ms, idx, count, start_ms);
}

/// A vehicle lies as many levels high as whole seconds have passed from the first data to the
/// beginning of its change, up to 255.
pub proof fn lemma_height_of_vehicle(
    v: RenderedVehicle,
    idx: int,
    count: nat,
    times: DrawTimes,
    rendered_first_ms: u32,
    now: u64,
    start_ms: int,
)
    requires
        0 <= idx < count,
        begins_at(v.last_updated_instant_ms, idx, count as int, start_ms),
    ensures
        forall|i: int|
            0 <= i < vehicle_ops(v, idx, count, times, rendered_first_ms, now).len() ==> (
            #[trigger] vehicle_ops(v, idx, count, times, rendered_first_ms, now)[i].mode matches
            DrawMode::OnTop(h) && {
                &&& start_ms < rendered_first_ms + 1000 ==> h == 0
                &&& rendered_first_ms <= start_ms < rendered_first_ms + 256000 ==> h * 1000
                    <= start_ms - rendered_first_ms < (h + 1) * 1000
                &&& start_ms >= rendered_first_ms + 255000 ==> h == 255
            }),
{
    lemma_begins_at(v.last_updated_instant_ms, idx, count, start_ms);
}

/// The color of a disruption goes from the old one to the new one evenly over the duration of the
/// change, as that of a vehicle that stays on its pixel.
pub proof fn lemma_changing_color(from: RGB8, to: RGB8, now: int, start: int, duration: u64)
    ensures
        now < start ==> changing_color(from, to, now, start, duration) == Base::Fixed(from),
        now >= start + duration ==> changing_color(from, to, now, start, duration) == Base::Fixed(
            to,
        ),
        start <= now < start + duration ==> (changing_color(from, to, now, start, duration) matches
            Base::Mix { from: f, to: t, part, whole } && f == from && t == to && part == now - start
            && whole == duration),
{
}

/// Disruptions repeat after the interval that is set, 5 seconds for one that is not known, or after
/// a pulse if that takes longer.
pub proof fn lemma_disruption_period(config: DeviceConfig, times: DrawTimes)
    ensures
        ({
            let period = disruption_period_ms(config, times);
            let interval = match config.disruption_interval {
                DisruptionInterval::Every2s => 2000int,
                DisruptionInterval::Every3s => 3000,
                DisruptionInterval::Every10s => 10000,
                _ => 5000,
            };
            &&& period >= interval
            &&& period >= times.pulse_period_ms
            &&& period == interval || period == times.pulse_period_ms
        }),
{
}

/// A pulse rises evenly for one half of its time and falls evenly for the other: it is dark as it
/// begins and as it ends, in full in the middle, and as bright as long before the middle as after.
pub proof fn lemma_pulse(phase: int, other: int, pulse_period_ms: u64)
    requires
        pulse_period_ms % 2 == 0,
        0 <= phase < pulse_period_ms,
        0 <= other < pulse_period_ms,
    ensures
        ({
            let half = pulse_period_ms as int / 2;
            let share = |p: int| share_of(pulse_light(p, pulse_period_ms), half);
            &&& share(0) == 0
            &&& share(half) == half || half == 0
            &&& phase <= half ==> share(phase) == phase
            &&& phase >= half ==> share(phase) == pulse_period_ms - phase
            &&& phase + other == pulse_period_ms ==> share(phase) == share(other)
        }),
{
}

/// What is drawn of a disruption: nothing if disruptions are not shown; else its pixels in their
/// order, each in its color. If disruptions are solid, in full and all the time; if they pulse, all
/// alike and only for the time of a pulse out of every period.
pub proof fn lemma_disruption_modes(
    d: RenderedDisruption,
    idx: int,
    count: nat,
    config: DeviceConfig,
    times: DrawTimes,
    now: u64,
    start_ms: int,
)
    requires
        0 <= idx < count,
        begins_at(d.last_updated_instant_ms, idx, count as int, start_ms),
    ensures
        ({
            let ops = disruption_ops(d, idx, count, config, times, now);
            let base = changing_color(
                d.prev_rgb,
                d.cur_rgb,
                now as int,
                start_ms,
                times.transition_duration_ms,
            );
            let phase = now as int % disruption_period_ms(config, times);
            let all_alike = |light: Light|
                {
                    &&& ops.len() == d.pixels@.len()
                    &&& forall|i: int|
                        0 <= i < d.pixels@.len() ==> (#[trigger] ops[i]).pixel == d.pixels@[i]
                            && ops[i].base == base && ops[i].light == light && ops[i].mode
                            == DrawMode::Replace
                };
            match config.disruption_mode {
                DisruptionMode::Off | DisruptionMode::Unknown(_) => ops.len() == 0,
                DisruptionMode::Solid => all_alike(Light::Full),
                DisruptionMode::Pulsing => if phase < times.pulse_period_ms {
                    all_alike(pulse_light(phase, times.pulse_period_ms))
                } else {
                    ops.len() == 0
                },
                DisruptionMode::Ripple => ops == ripple_ops(
                    d.pixels@,
                    base,
                    if now < start_ms {
                        0
                    } else {
                        now - start_ms
                    },
                    disruption_period_ms(config, times),
                    times,
                    d.pixels@.len(),
                ),
            }
        }),
{
    lemma_begins_at(d.last_updated_instant_ms, idx, count, start_ms);
}

/// A ripple runs along its pixels: what is drawn of the pixels from the second on is what was drawn
/// of as many pixels from there one delay earlier. The first pixel pulses once in each period, from
/// the start on: from dark to bright and back.
pub proof fn lemma_ripple_runs_along(
    pixels: Seq<u16>,
    base: Base,
    elapsed: int,
    period: int,
    times: DrawTimes,
    k: nat,
)
    requires
        period > 0,
        k < pixels.len(),
        elapsed >= 0,
    ensures
        ({
            let all = ripple_ops(pixels, base, elapsed, period, times, k + 1);
            let first = ripple_ops(pixels, base, elapsed, period, times, 1);
            let rest = ripple_ops(
                pixels.skip(1),
                base,
                elapsed - times.ripple_delay_ms,
                period,
                times,
                k,
            );
            let phase = elapsed % period;
            &&& all == first + rest
            &&& phase >= times.pulse_period_ms ==> first.len() == 0
            &&& phase < times.pulse_period_ms ==> {
                &&& first.len() == 1
                &&& first[0].pixel == pixels[0]
                &&& first[0].base == base
                &&& first[0].mode == DrawMode::Brighten
                &&& share_of(first[0].light, times.pulse_period_ms as int) == (if 2 * phase
                    <= times.pulse_period_ms {
                    2 * phase
                } else {
                    2 * (times.pulse_period_ms - phase)
                })
            }
        }),
    decreases k,
{
    reveal_with_fuel(ripple_ops, 2);
    let all = ripple_ops(pixels, base, elapsed, period, times, k + 1);
    let first = ripple_ops(pixels, base, elapsed, period, times, 1);
    let delay = times.ripple_delay_ms as int;
    let rest = ripple_ops(pixels.skip(1), base, elapsed - delay, period, times, k);
    if k == 0 {
        assert(all =~= first + rest);
    } else {
        lemma_ripple_runs_along(pixels, base, elapsed, period, times, (k - 1) as nat);
        let before = ripple_ops(
            pixels.skip(1),
            base,
            elapsed - delay,
            period,
            times,
            (k - 1) as nat,
        );
        assert(elapsed - k * delay == (elapsed - delay) - (k - 1) * delay) by (nonlinear_arith);
        assert(pixels.skip(1)[k - 1] == pixels[k as int]);
        assert(all =~= first + rest);
    }
}

/// A frame draws the disruptions one after the other and then the vehicles one after the other.
pub proof fn lemma_frame_in_order(
    out: RendererOutput,
    config: DeviceConfig,
    times: DrawTimes,
    rendered_first_ms: u32,
    now: u64,
    k: nat,
)
    ensures
        ({
            let (ds, vs) = (out.disruptions@, out.vehicles@);
            &&& frame_ops(out, config, times, rendered_first_ms, now) == all_disruption_ops(
                ds,
                config,
                times,
                now,
                ds.len(),
            ) + all_vehicle_ops(vs, times, rendered_first_ms, now, vs.len())
            &&& all_disruption_ops(ds, config, times, now, 0).len() == 0
            &&& all_vehicle_ops(vs, times, rendered_first_ms, now, 0).len() == 0
            &&& all_disruption_ops(ds, config, times, now, k + 1) == all_disruption_ops(
                ds,
                config,
                times,
                now,
                k,
            ) + disruption_ops(ds[k as int], k as int, ds.len(), config, times, now)
            &&& all_vehicle_ops(vs, times, rendered_first_ms, now, k + 1) == all_vehicle_ops(
                vs,
                times,
                rendered_first_ms,
                now,
                k,
            ) + vehicle_ops(vs[k as int], k as int, vs.len(), times, rendered_first_ms, now)
        }),
{
}

/// Drawing a pixel leaves all others as they are. In place of what was there it shows the color; to
/// brighten, it shows the brighter one in each channel; on top, it shows the color exactly if what
/// is there does not lie higher, and then lies as high itself.
pub proof fn lemma_pixel_drawn(c: Canvas, op: DrawOp, color: RGB8)
    requires
        op.pixel < c.pixels.len(),
        c.heights.len() == c.pixels.len(),
    ensures
        ({
            let after = drawn(c, op, color);
            let p = op.pixel as int;
            &&& after.pixels.len() == c.pixels.len()
            &&& after.heights.len() == c.heights.len()
            &&& forall|i: int|
                0 <= i < c.pixels.len() && i != p ==> #[trigger] after.pixels[i] == c.pixels[i]
            &&& forall|i: int|
                0 <= i < c.heights.len() && i != p ==> #[trigger] after.heights[i] == c.heights[i]
            &&& match op.mode {
                DrawMode::Replace => after.pixels[p] == color && after.heights[p] == c.heights[p],
                DrawMode::Brighten => {
                    let (old_rgb, new_rgb) = (c.pixels[p], after.pixels[p]);
                    &&& after.heights[p] == c.heights[p]
                    &&& new_rgb.r >= old_rgb.r && new_rgb.r >= color.r && (new_rgb.r == old_rgb.r
                        || new_rgb.r == color.r)
                    &&& new_rgb.g >= old_rgb.g && new_rgb.g >= color.g && (new_rgb.g == old_rgb.g
                        || new_rgb.g == color.g)
                    &&& new_rgb.b >= old_rgb.b && new_rgb.b >= color.b && (new_rgb.b == old_rgb.b
                        || new_rgb.b == color.b)
                },
                DrawMode::OnTop(h) => {
                    &&& c.heights[p] <= h ==> after.pixels[p] == color && after.heights[p] == h
                    &&& c.heights[p] > h ==> after.pixels[p] == c.pixels[p] && after.heights[p]
                        == c.heights[p]
                },
            }
        }),
{
}

/// A frame begins dark and flat, and each pixel drawn is drawn on what those before it left.
pub proof fn lemma_canvas_step(n: nat, ops: Seq<DrawOp>, colors: Seq<RGB8>, k: nat, i: int)
    requires
        0 <= i < n,
    ensures
        canvas_after(n, ops, colors, 0).pixels.len() == n,
        canvas_after(n, ops, colors, 0).pixels[i] == (RGB8 { r: 0, g: 0, b: 0 }),
        canvas_after(n, ops, colors, 0).heights[i] == 0,
        canvas_after(n, ops, colors, k + 1) == drawn(
            canvas_after(n, ops, colors, k),
            ops[k as int],
            colors[k as int],
        ),
{
}

/// A pixel counts as on unless all its channels are zero.
pub proof fn lemma_pixels_on(pixels: Seq<RGB8>, k: nat)
    ensures
        num_on(pixels, 0) == 0,
        ({
            let p = pixels[k as int];
            num_on(pixels, k + 1) - num_on(pixels, k) == (if p.r == 0 && p.g == 0 && p.b == 0 {
                0int
            } else {
                1
            })
        }),
{
}

} // verus!

//! Places vehicles and disruptions on the pixels of the map.

use vstd::prelude::*;

use crate::effects::{Effect, Effects};
use crate::store::app_settings::persist::PersistSettings;
use crate::store::app_settings::session::SessionSettings;
use crate::store::transit_data::TransitDataStore;
use crate::util;
use crate::util::{NonMax, RGB8};

verus! {

/// Frames per second. Departure times and delays have a granularity of one second.
pub const RENDERER_FPS: u32 = 1;

#[derive(Debug, Copy, Clone, PartialEq, Eq, Structural)]
pub struct RendererState {
    pub rendered_data_first_at_instant_ms: Option<u32>,
    pub rendered_any_first_at_instant_ms: Option<u32>,
    pub drawn_first_frame_at_instant_ms: Option<u32>,
    pub config_last_changed_at_instant_ms: u32,
    pub disruptions_render_pending: bool,
}

/// The state before anything was rendered.
pub open spec fn spec_renderer_state_default() -> RendererState {
    RendererState {
        rendered_data_first_at_instant_ms: None,
        rendered_any_first_at_instant_ms: None,
        drawn_first_frame_at_instant_ms: None,
        config_last_changed_at_instant_ms: 0,
        disruptions_render_pending: false,
    }
}

impl Default for RendererState {
    fn default() -> (s: Self)
        ensures
            s == spec_renderer_state_default(),
    {
        RendererState {
            rendered_data_first_at_instant_ms: None,
            rendered_any_first_at_instant_ms: None,
            drawn_first_frame_at_instant_ms: None,
            config_last_changed_at_instant_ms: 0,
            disruptions_render_pending: false,
        }
    }
}

/// A pixel and its color, or none.
#[derive(Debug, Copy, Clone)]
pub struct PixelState {
    pub rgb: RGB8,
    pub idx: NonMax<u16>,
}

/// A pixel and its color.
#[derive(Debug, Copy, Clone, PartialEq, Eq, Structural)]
pub struct PixelStateSome {
    pub rgb: RGB8,
    pub idx: u16,
}

impl PixelState {
    /// No pixel.
    pub open spec fn spec_none() -> Self {
        PixelState { rgb: util::spec_black(), idx: NonMax::spec_none() }
    }

    /// No pixel.
    pub fn none() -> (p: Self)
        ensures
            p == PixelState::spec_none(),
            p.some() is None,
    {
        PixelState { rgb: util::black(), idx: NonMax::none() }
    }

    /// The pixel and its color, if there is one.
    pub open spec fn some(self) -> Option<PixelStateSome> {
        match self.idx@ {
            Some(idx) => Some(PixelStateSome { rgb: self.rgb, idx }),
            None => None,
        }
    }

    pub fn to_option(self) -> (p: Option<PixelStateSome>)
        ensures
            p == self.some(),
    {
        match self.idx.as_option() {
            Some(idx) => Some(PixelStateSome { rgb: self.rgb, idx }),
            None => None,
        }
    }
}

/// A vehicle on the map, before and after its last change.
#[derive(Debug, Copy, Clone)]
pub struct RenderedVehicle {
    pub prev: PixelState,
    pub cur: PixelState,
    pub last_updated_instant_ms: u32,
    /// Stable unique ID.
    pub trip_id: NonMax<u16>,
}

impl RenderedVehicle {
    /// A vehicle that is not on the map yet.
    pub open spec fn spec_new(trip_id: u16) -> Self {
        RenderedVehicle {
            prev: PixelState::spec_none(),
            cur: PixelState::spec_none(),
            last_updated_instant_ms: 0,
            trip_id: NonMax::spec_of(trip_id),
        }
    }

    pub fn new(trip_id: u16) -> (v: Self)
        ensures
            v == RenderedVehicle::spec_new(trip_id),
    {
        RenderedVehicle {
            prev: PixelState::none(),
            cur: PixelState::none(),
            last_updated_instant_ms: 0,
            trip_id: NonMax::new_unchecked(trip_id),
        }
    }
}

impl Default for RenderedVehicle {
    fn default() -> (v: Self)
        ensures
            v.prev == PixelState::spec_none(),
            v.cur == PixelState::spec_none(),
            v.last_updated_instant_ms == 0,
            v.trip_id@ is None,
    {
        RenderedVehicle {
            prev: PixelState::none(),
            cur: PixelState::none(),
            last_updated_instant_ms: 0,
            trip_id: NonMax::none(),
        }
    }
}

/// A disruption on the map, before and after its last change.
#[derive(Debug)]
pub struct RenderedDisruption {
    pub pixels: Vec<u16>,
    pub prev_rgb: RGB8,
    pub cur_rgb: RGB8,
    pub last_updated_instant_ms: u32,
    /// Stable unique ID.
    pub disruption_id: NonMax<u16>,
}

/// A rendered disruption as a mathematical value.
#[verifier::ext_equal]
pub struct RenderedDisruptionView {
    pub pixels: Seq<u16>,
    pub prev_rgb: RGB8,
    pub cur_rgb: RGB8,
    pub last_updated_instant_ms: u32,
    pub disruption_id: NonMax<u16>,
}

impl View for RenderedDisruption {
    type V = RenderedDisruptionView;

    open spec fn view(&self) -> RenderedDisruptionView {
        RenderedDisruptionView {
            pixels: self.pixels@,
            prev_rgb: self.prev_rgb,
            cur_rgb: self.cur_rgb,
            last_updated_instant_ms: self.last_updated_instant_ms,
            disruption_id: self.disruption_id,
        }
    }
}

impl RenderedDisruption {
    /// A disruption that is not on the map yet.
    pub open spec fn spec_new(disruption_id: u16) -> RenderedDisruptionView {
        RenderedDisruptionView {
            pixels: Seq::empty(),
            prev_rgb: util::spec_black(),
            cur_rgb: util::spec_black(),
            last_updated_instant_ms: 0,
            disruption_id: NonMax::spec_of(disruption_id),
        }
    }

    pub fn new(disruption_id: u16) -> (d: Self)
        ensures
            d@ == RenderedDisruption::spec_new(disruption_id),
    {
        RenderedDisruption {
            pixels: Vec::new(),
            prev_rgb: util::black(),
            cur_rgb: util::black(),
            last_updated_instant_ms: 0,
            disruption_id: NonMax::new_unchecked(disruption_id),
        }
    }

    /// A second copy.
    pub fn duplicate(&self) -> (d: Self)
        ensures
            d@ == self@,
    {
        let mut pixels: Vec<u16> = Vec::new();
        let mut i: usize = 0;
        while i < self.pixels.len()
            invariant
                i <= self.pixels@.len(),
                pixels@ == self.pixels@.take(i as int),
            decreases self.pixels@.len() - i,
        {
            pixels.push(self.pixels[i]);
            i = i + 1;
            assert(self.pixels@.take(i as int) =~= self.pixels@.take(i - 1).push(
                self.pixels@[i - 1],
            ));
        }
        assert(self.pixels@.take(i as int) =~= self.pixels@);
        RenderedDisruption {
            pixels,
            prev_rgb: self.prev_rgb,
            cur_rgb: self.cur_rgb,
            last_updated_instant_ms: self.last_updated_instant_ms,
            disruption_id: self.disruption_id,
        }
    }
}

impl Default for RenderedDisruption {
    fn default() -> (d: Self)
        ensures
            d.pixels@.len() == 0,
            d.prev_rgb == util::spec_black(),
            d.cur_rgb == util::spec_black(),
            d.last_updated_instant_ms == 0,
            d.disruption_id@ is None,
    {
        RenderedDisruption {
            pixels: Vec::new(),
            prev_rgb: util::black(),
            cur_rgb: util::black(),
            last_updated_instant_ms: 0,
            disruption_id: NonMax::none(),
        }
    }
}

/// All that is on the map.
#[derive(Debug)]
pub struct RendererOutput {
    pub vehicles: Vec<RenderedVehicle>,
    pub disruptions: Vec<RenderedDisruption>,
}

impl PixelState {
    /// Whether the pixel, if there is one, is among the first `n`.
    pub open spec fn within(self, n: nat) -> bool {
        self.idx@ matches Some(idx) ==> idx < n
    }
}

impl RenderedVehicle {
    /// Whether the pixels of a vehicle are among the first `n`.
    pub open spec fn within(self, n: nat) -> bool {
        self.prev.within(n) && self.cur.within(n)
    }
}

impl RenderedDisruptionView {
    /// Whether the pixels of a disruption are among the first `n`.
    pub open spec fn within(self, n: nat) -> bool {
        forall|i: int| 0 <= i < self.pixels.len() ==> (#[trigger] self.pixels[i]) < n
    }
}

impl RendererOutput {
    /// Whether all that is on the map is on the first `n` pixels.
    pub open spec fn within(self, n: nat) -> bool {
        &&& forall|i: int|
            0 <= i < self.vehicles@.len() ==> (#[trigger] self.vehicles@[i]).within(n)
        &&& forall|i: int|
            0 <= i < self.disruptions@.len() ==> (#[trigger] self.disruptions@[i])@.within(n)
    }
}

/// Renders without waiting for the next frame.
pub fn render_now(fx: &mut Effects)
    ensures
        final(fx)@ == old(fx)@.push(Effect::RenderNow),
{
    fx.push(Effect::RenderNow);
}

/// What a turn of the renderer does.
#[derive(Debug, Copy, Clone, PartialEq, Eq, Structural)]
pub struct RenderTurn {
    /// Send the errors that were logged.
    pub flush_errors: bool,
    pub vehicles: bool,
    pub disruptions: bool,
}

/// Decides what to do in a turn: nothing until the device is set up, and no rendering while the
/// light is off. Disruptions are rendered only when they are out of date.
pub fn plan_turn(
    persist: &PersistSettings,
    session: &SessionSettings,
    store: &Option<TransitDataStore>,
) -> (t: RenderTurn)
    ensures
        t.flush_errors == (persist.access_token is Some),
        t.vehicles == (t.flush_errors && session.light_on),
        t.disruptions == (t.vehicles && (*store matches Some(s)
            && s.state.rendered_state.disruptions_render_pending)),
{
    let set_up = persist.access_token.is_some();
    let pending = match store {
        Some(s) => s.state.rendered_state.disruptions_render_pending,
        None => false,
    };
    RenderTurn {
        flush_errors: set_up,
        vehicles: set_up && session.light_on,
        disruptions: set_up && session.light_on && pending,
    }
}

} // verus!

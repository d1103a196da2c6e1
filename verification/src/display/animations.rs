//! Animations of the status LED and of the pixels.

use vstd::prelude::*;

use crate::config;
use crate::config::LocPixNode;
use crate::display::colors as hues;
use crate::display::colors::Hsv;
use crate::display::leds::LedColor;
use crate::display::path_find;
use crate::effects::{Effect, Effects};
use crate::outside::colors;
use crate::util;
use crate::util::{NonMax, RGB8};

verus! {

/// Frames per second.
pub const ANIM_FPS: u64 = 30;

/// What the status LED shows. Durations are in milliseconds.
#[derive(Debug, Copy, Clone, PartialEq, Eq, Structural)]
pub enum LedStatusAnimationEvent {
    Constant(RGB8),
    Blink(RGB8, u64),
    Alternate(RGB8, RGB8, u64, u64),
}

/// What the pixels show.
#[derive(Debug, Copy, Clone, PartialEq, Eq, Structural)]
pub enum LedPixelsAnimationEvent {
    /// A spinner, then an explosion.
    PlayStartup(RGB8),
    /// A progress bar on the special pixels.
    ProgressPercent(u8),
    /// All pixels go dark.
    FadeOut,
    /// All pixels flash green for a second.
    Identify,
    /// Rainbow waves, forever.
    TestMode,
    /// Snakes that walk at random, forever.
    DemoMode,
}

pub fn start_status_animation(event: LedStatusAnimationEvent, fx: &mut Effects)
    ensures
        final(fx)@ == old(fx)@.push(Effect::StartStatusAnimation(event)),
{
    fx.push(Effect::StartStatusAnimation(event));
}

pub fn start_pixels_animation(event: LedPixelsAnimationEvent, fx: &mut Effects)
    ensures
        final(fx)@ == old(fx)@.push(Effect::StartPixelsAnimation(event)),
{
    fx.push(Effect::StartPixelsAnimation(event));
}

pub fn cancel_status_animation(fx: &mut Effects)
    ensures
        final(fx)@ == old(fx)@.push(Effect::CancelStatusAnimation),
{
    fx.push(Effect::CancelStatusAnimation);
}

pub fn cancel_pixels_animation(fx: &mut Effects)
    ensures
        final(fx)@ == old(fx)@.push(Effect::CancelPixelsAnimation),
{
    fx.push(Effect::CancelPixelsAnimation);
}

// ---------------------------------------------------------------------------------------------
// The status LED
// ---------------------------------------------------------------------------------------------

/// What the status LED shows in step number `step`, and for how long: forever if nothing is said.
pub open spec fn status_frame(event: LedStatusAnimationEvent, step: nat) -> (RGB8, Option<u64>) {
    match event {
        LedStatusAnimationEvent::Constant(color) => (color, None),
        LedStatusAnimationEvent::Blink(color, ms) => if step % 2 == 0 {
            (color, Some(ms))
        } else {
            (util::spec_black(), Some(ms))
        },
        LedStatusAnimationEvent::Alternate(first, second, first_ms, second_ms) => if step % 2
            == 0 {
            (first, Some(first_ms))
        } else {
            (second, Some(second_ms))
        },
    }
}

pub fn get_status_frame(event: LedStatusAnimationEvent, step: u32) -> (r: (RGB8, Option<u64>))
    ensures
        r == status_frame(event, step as nat),
{
    let first_half = step % 2 == 0;
    match event {
        LedStatusAnimationEvent::Constant(color) => (color, None),
        LedStatusAnimationEvent::Blink(color, ms) => if first_half {
            (color, Some(ms))
        } else {
            (util::black(), Some(ms))
        },
        LedStatusAnimationEvent::Alternate(first, second, first_ms, second_ms) => if first_half {
            (first, Some(first_ms))
        } else {
            (second, Some(second_ms))
        },
    }
}

// ---------------------------------------------------------------------------------------------
// Simple animations of the pixels
// ---------------------------------------------------------------------------------------------

/// The pixels with all of them in one color.
pub fn fill(pixels: &mut [RGB8], color: RGB8)
    ensures
        final(pixels)@ == Seq::new(old(pixels)@.len(), |i: int| color),
{
    let mut i: usize = 0;
    while i < pixels.len()
        invariant
            i <= pixels@.len(),
            pixels@.len() == old(pixels)@.len(),
            forall|j: int| 0 <= j < i ==> #[trigger] pixels@[j] == color,
        decreases pixels@.len() - i,
    {
        pixels[i] = color;
        i = i + 1;
    }
    assert(pixels@ =~= Seq::new(old(pixels)@.len(), |i: int| color));
}

/// The color of number `i` of `count` special pixels at a progress of `progress` percent.
pub open spec fn progress_color(i: int, count: int, progress: u8) -> RGB8 {
    if (i + 1) * 100 / count <= progress {
        LedColor::Pink.rgb()
    } else {
        LedColor::Black.rgb()
    }
}

/// The pixels after the first `k` of the special ones show a progress.
pub open spec fn with_progress(
    pixels: Seq<RGB8>,
    special: Seq<u16>,
    progress: u8,
    k: nat,
) -> Seq<RGB8>
    decreases k,
{
    if k == 0 {
        pixels
    } else {
        with_progress(pixels, special, progress, (k - 1) as nat).update(
            special[k - 1] as int,
            progress_color(k - 1, special.len() as int, progress),
        )
    }
}

/// Shows a progress on the special pixels.
pub fn show_progress(pixels: &mut [RGB8], special: &[u16], progress: u8)
    requires
        forall|i: int|
            0 <= i < special@.len() ==> (#[trigger] special@[i]) < old(pixels)@.len(),
    ensures
        final(pixels)@ == with_progress(old(pixels)@, special@, progress, special@.len()),
{
    let count: usize = special.len();
    let mut i: usize = 0;
    while i < count
        invariant
            i <= count == special@.len(),
            pixels@.len() == old(pixels)@.len(),
            forall|j: int| 0 <= j < special@.len() ==> (#[trigger] special@[j]) < pixels@.len(),
            pixels@ == with_progress(old(pixels)@, special@, progress, i as nat),
        decreases count - i,
    {
        let reached: u128 = (i as u128 + 1) * 100 / (count as u128);
        let idx: u16 = special[i];
        assert(special@[i as int] < pixels@.len());
        pixels[idx as usize] = if reached <= progress as u128 {
            LedColor::Pink.as_rgb8()
        } else {
            LedColor::Black.as_rgb8()
        };
        i = i + 1;
    }
}

/// A color channel one step darker.
pub open spec fn darker(channel: u8) -> u8 {
    if channel >= 5 {
        (channel - 5) as u8
    } else {
        0
    }
}

/// A color one step darker.
pub open spec fn faded(c: RGB8) -> RGB8 {
    RGB8 { r: darker(c.r), g: darker(c.g), b: darker(c.b) }
}

/// All pixels one step darker.
pub open spec fn all_faded(pixels: Seq<RGB8>) -> Seq<RGB8> {
    pixels.map_values(|c: RGB8| faded(c))
}

/// Fades all pixels by one step.
pub fn fade_step(pixels: &mut [RGB8])
    ensures
        final(pixels)@ == all_faded(old(pixels)@),
{
    let mut i: usize = 0;
    while i < pixels.len()
        invariant
            i <= pixels@.len(),
            pixels@.len() == old(pixels)@.len(),
            forall|j: int|
                0 <= j < pixels@.len() ==> #[trigger] pixels@[j] == (if j < i {
                    faded(old(pixels)@[j])
                } else {
                    old(pixels)@[j]
                }),
        decreases pixels@.len() - i,
    {
        let c = pixels[i];
        pixels[i] = RGB8 {
            r: c.r.saturating_sub(5),
            g: c.g.saturating_sub(5),
            b: c.b.saturating_sub(5),
        };
        i = i + 1;
    }
    assert(pixels@ =~= all_faded(old(pixels)@));
}

/// Whether all pixels are dark.
pub open spec fn all_dark(pixels: Seq<RGB8>) -> bool {
    forall|i: int| 0 <= i < pixels.len() ==> #[trigger] pixels[i] == util::spec_black()
}

/// Whether all pixels are dark.
pub fn all_off(pixels: &[RGB8]) -> (r: bool)
    ensures
        r == all_dark(pixels@),
{
    let mut i: usize = 0;
    while i < pixels.len()
        invariant
            i <= pixels@.len(),
            forall|j: int| 0 <= j < i ==> #[trigger] pixels@[j] == util::spec_black(),
        decreases pixels@.len() - i,
    {
        if pixels[i] != util::black() {
            assert(pixels@[i as int] != util::spec_black());
            return false;
        }
        i = i + 1;
    }
    true
}

/// The pixels after `steps` steps of fading.
pub open spec fn faded_by(pixels: Seq<RGB8>, steps: nat) -> Seq<RGB8>
    decreases steps,
{
    if steps == 0 {
        pixels
    } else {
        all_faded(faded_by(pixels, (steps - 1) as nat))
    }
}

/// Most steps of a fade.
pub const FADE_OUT_STEPS: u32 = 255;

/// What comes after a step of an animation of the pixels.
#[derive(Debug, Copy, Clone, PartialEq, Eq, Structural)]
pub enum PixelsFrame {
    /// The pixels are shown, and the next step follows after a number of milliseconds.
    Hold(u64),
    /// The pixels are shown, and the animation is complete.
    Last,
    /// There is nothing more to show, and the animation is complete.
    Over,
}

/// What step number `step` of a fade makes of the pixels, and what comes after it.
pub open spec fn fade_out_step(pixels: Seq<RGB8>, step: nat) -> (Seq<RGB8>, PixelsFrame) {
    if step >= FADE_OUT_STEPS {
        (pixels, PixelsFrame::Over)
    } else if all_dark(all_faded(pixels)) {
        (all_faded(pixels), PixelsFrame::Last)
    } else {
        (all_faded(pixels), PixelsFrame::Hold(0))
    }
}

/// Takes a step of a fade: it goes on until all pixels are dark, for so many steps at most.
pub fn fade_out_frame(pixels: &mut [RGB8], step: u32) -> (r: PixelsFrame)
    ensures
        (final(pixels)@, r) == fade_out_step(old(pixels)@, step as nat),
{
    if step >= FADE_OUT_STEPS {
        return PixelsFrame::Over;
    }
    fade_step(pixels);
    if all_off(pixels) {
        PixelsFrame::Last
    } else {
        PixelsFrame::Hold(0)
    }
}

/// How long the pixels flash to identify the device, in milliseconds.
pub const IDENTIFY_MS: u64 = 1000;

/// What step number `step` of a flash makes of the pixels, and what comes after it.
pub open spec fn identify_step(pixels: Seq<RGB8>, step: nat) -> (Seq<RGB8>, PixelsFrame) {
    if step == 0 {
        (Seq::new(pixels.len(), |i: int| LedColor::Green.rgb()), PixelsFrame::Hold(IDENTIFY_MS))
    } else {
        (Seq::new(pixels.len(), |i: int| LedColor::Black.rgb()), PixelsFrame::Last)
    }
}

/// Takes a step of a flash: all pixels in green for a second, then dark.
pub fn identify_frame(pixels: &mut [RGB8], step: u32) -> (r: PixelsFrame)
    ensures
        (final(pixels)@, r) == identify_step(old(pixels)@, step as nat),
{
    if step == 0 {
        fill(pixels, LedColor::Green.as_rgb8());
        PixelsFrame::Hold(IDENTIFY_MS)
    } else {
        fill(pixels, LedColor::Black.as_rgb8());
        PixelsFrame::Last
    }
}

/// A fade that is not canceled leaves all pixels dark, at the latest with step number 50, and stops
/// then. Until then it goes on.
pub proof fn lemma_fade_out_ends(pixels: Seq<RGB8>, step: nat)
    requires
        step < FADE_OUT_STEPS,
    ensures
        ({
            let (after, frame) = fade_out_step(faded_by(pixels, step), step);
            &&& after == faded_by(pixels, step + 1)
            &&& frame == PixelsFrame::Last <==> all_dark(after)
            &&& frame != PixelsFrame::Last ==> frame == PixelsFrame::Hold(0)
            &&& step >= 50 ==> frame == PixelsFrame::Last
        }),
{
    lemma_faded_bound(pixels, step + 1);
}

proof fn lemma_faded_bound(pixels: Seq<RGB8>, steps: nat)
    ensures
        faded_by(pixels, steps).len() == pixels.len(),
        forall|i: int|
            0 <= i < pixels.len() ==> ({
                let c = #[trigger] faded_by(pixels, steps)[i];
                let bound = if 255 - 5 * steps >= 0 {
                    255 - 5 * steps
                } else {
                    0
                };
                c.r <= bound && c.g <= bound && c.b <= bound
            }),
    decreases steps,
{
    if steps > 0 {
        lemma_faded_bound(pixels, (steps - 1) as nat);
        let before = faded_by(pixels, (steps - 1) as nat);
        assert forall|i: int| 0 <= i < pixels.len() implies ({
            let c = #[trigger] faded_by(pixels, steps)[i];
            let bound = if 255 - 5 * steps >= 0 {
                255 - 5 * steps
            } else {
                0
            };
            c.r <= bound && c.g <= bound && c.b <= bound
        }) by {
            assert(faded_by(pixels, steps)[i] == faded(before[i]));
        }
    }
}

// ---------------------------------------------------------------------------------------------
// Snakes
// ---------------------------------------------------------------------------------------------

/// How many snakes there are.
pub const NUM_SNAKES: usize = 10;

/// How many frames a snake takes from one pixel to the next.
pub const SUB_SAMPLE_STEPS: u32 = 3;

/// The head of a snake.
#[derive(Debug, Copy, Clone)]
pub struct SnakeState {
    /// Location.
    pub loc: u16,
    /// Direction by which it was entered.
    pub dir: NonMax<u16>,
    /// Transit modes of the way so far.
    pub modes: u8,
    /// Pixel.
    pub cur_pix: NonMax<u16>,
    /// Next pixel.
    pub next_pix: NonMax<u16>,
    /// Color.
    pub col: RGB8,
}

/// Four random numbers, for one turn of a snake.
#[derive(Debug, Copy, Clone, PartialEq, Eq, Structural)]
pub struct SnakeChance {
    pub step: u32,
    pub loc: u32,
    pub hue: u32,
    pub sat: u32,
}

/// The snake at the start.
pub open spec fn spec_snake_at_start() -> SnakeState {
    SnakeState {
        loc: 0,
        dir: NonMax::spec_none(),
        modes: 0xFF,
        cur_pix: NonMax::spec_none(),
        next_pix: NonMax::spec_none(),
        col: util::spec_black(),
    }
}

/// All snakes at the start.
pub fn start_snakes() -> (r: Vec<SnakeState>)
    ensures
        r@ == Seq::new(NUM_SNAKES as nat, |i: int| spec_snake_at_start()),
{
    let mut r: Vec<SnakeState> = Vec::new();
    let mut i: usize = 0;
    while i < NUM_SNAKES
        invariant
            i <= NUM_SNAKES,
            r@ == Seq::new(i as nat, |j: int| spec_snake_at_start()),
        decreases NUM_SNAKES - i,
    {
        r.push(
            SnakeState {
                loc: 0,
                dir: NonMax::none(),
                modes: 0xFF,
                cur_pix: NonMax::none(),
                next_pix: NonMax::none(),
                col: util::black(),
            },
        );
        i = i + 1;
        assert(r@ =~= Seq::new(i as nat, |j: int| spec_snake_at_start()));
    }
    r
}

/// A number as a color channel, with low ones made three times as high.
pub open spec fn biased(x: u8) -> u8 {
    if x * 3 > 255 {
        255
    } else {
        (x * 3) as u8
    }
}

/// A new snake, at a random location and in a random color.
pub open spec fn spawned(locs: nat, chance: SnakeChance) -> SnakeState {
    let (r, g, b) = colors::rgb_of_hsv(chance.hue as u8, biased(chance.sat as u8), 255);
    SnakeState {
        loc: (chance.loc as int % locs as int) as u16,
        dir: NonMax::spec_none(),
        modes: 0xFF,
        cur_pix: NonMax::spec_none(),
        next_pix: NonMax::spec_none(),
        col: RGB8 { r, g, b },
    }
}

/// A snake after its turn: it moves on if its next pixel is free; it moves to its last pixel if
/// there is nowhere else to go; or else a new one takes its place.
pub open spec fn moved(
    nodes: Seq<LocPixNode>,
    snake: SnakeState,
    pixels: Seq<RGB8>,
    chance: SnakeChance,
) -> SnakeState {
    match path_find::picked_step(nodes, snake.loc, snake.dir@, snake.modes, chance.step) {
        Some((to_loc, from_pix, to_pix, dir)) => if pixels[from_pix as int] == util::spec_black() {
            SnakeState {
                loc: to_loc,
                dir: NonMax::spec_of(dir),
                modes: snake.modes & (nodes[to_loc as int].modes & nodes[snake.loc as int].modes),
                cur_pix: NonMax::spec_of(from_pix),
                next_pix: NonMax::spec_of(to_pix),
                col: snake.col,
            }
        } else {
            spawned(nodes.len(), chance)
        },
        None => match snake.next_pix@ {
            Some(next) => SnakeState {
                cur_pix: NonMax::spec_of(next),
                next_pix: NonMax::spec_none(),
                ..snake
            },
            None => spawned(nodes.len(), chance),
        },
    }
}

/// Whether a snake is on the map of `locs` locations and `n` pixels.
pub open spec fn on_map(snake: SnakeState, locs: nat, n: nat) -> bool {
    &&& snake.loc < locs
    &&& snake.cur_pix@ matches Some(pix) ==> pix < n
    &&& snake.next_pix@ matches Some(pix) ==> pix < n
}

fn spawn_snake(locs: usize, chance: SnakeChance) -> (s: SnakeState)
    requires
        0 < locs <= 0xFFFF,
    ensures
        s == spawned(locs as nat, chance),
        on_map(s, locs as nat, 0),
{
    let loc: usize = chance.loc as usize % locs;
    let hue: u8 = chance.hue as u8;
    let sat: u8 = chance.sat as u8;
    let sat: u8 = if sat as u32 * 3 > 255 {
        255
    } else {
        sat * 3
    };
    let col = hues::rgb_from_hsv(Hsv { hue, sat, val: 255 });
    SnakeState {
        loc: loc as u16,
        dir: NonMax::none(),
        modes: 0xFF,
        cur_pix: NonMax::none(),
        next_pix: NonMax::none(),
        col,
    }
}

fn move_snake(
    loc_nodes: &[LocPixNode],
    snake: SnakeState,
    pixels: &[RGB8],
    chance: SnakeChance,
) -> (s: SnakeState)
    requires
        config::valid_map(loc_nodes@),
        config::valid_pixels(loc_nodes@, pixels@.len()),
        config::valid_walk(loc_nodes@),
        pixels@.len() <= 0xFFFF,
        on_map(snake, loc_nodes@.len(), pixels@.len()),
    ensures
        s == moved(loc_nodes@, snake, pixels@, chance),
        on_map(s, loc_nodes@.len(), pixels@.len()),
{
    let mut loc: u16 = snake.loc;
    let mut dir = snake.dir;
    let mut modes: u8 = snake.modes;
    proof {
        path_find::lemma_steps_are_edges(
            loc_nodes@,
            snake.loc,
            snake.dir@,
            snake.modes,
            loc_nodes@[snake.loc as int].edges@.len(),
            pixels@.len(),
        );
    }
    match path_find::do_random_step_from_pixel_location(
        loc_nodes,
        &mut loc,
        &mut dir,
        &mut modes,
        chance.step,
    ) {
        Some((cur_pix, next_pix)) => {
            if pixels[cur_pix as usize] == util::black() {
                let ghost step = path_find::picked_step(
                    loc_nodes@,
                    snake.loc,
                    snake.dir@,
                    snake.modes,
                    chance.step,
                )->0;
                proof {
                    let (_, _, _, d) = step;
                    util::lemma_non_max_views::<u16>(d);
                    util::lemma_non_max_view_injective(dir, NonMax::spec_of(d));
                }
                SnakeState {
                    loc,
                    dir,
                    modes,
                    cur_pix: NonMax::new_unchecked(cur_pix),
                    next_pix: NonMax::new_unchecked(next_pix),
                    col: snake.col,
                }
            } else {
                spawn_snake(loc_nodes.len(), chance)
            }
        },
        None => match snake.next_pix.as_option() {
            Some(next) => SnakeState {
                cur_pix: NonMax::new_unchecked(next),
                next_pix: NonMax::none(),
                ..snake
            },
            None => spawn_snake(loc_nodes.len(), chance),
        },
    }
}

/// A color with every channel looked up in a table.
pub open spec fn looked_up(c: RGB8, table: Seq<u8>) -> RGB8 {
    RGB8 { r: table[c.r as int], g: table[c.g as int], b: table[c.b as int] }
}

/// The snakes and the pixels.
#[verifier::ext_equal]
pub struct DemoView {
    pub snakes: Seq<SnakeState>,
    pub pixels: Seq<RGB8>,
}

/// The pixels with the head of a snake drawn on them.
pub open spec fn with_head(pixels: Seq<RGB8>, snake: SnakeState, dim: Seq<u8>) -> Seq<RGB8> {
    match snake.cur_pix@ {
        Some(pix) => pixels.update(pix as int, looked_up(snake.col, dim)),
        None => pixels,
    }
}

/// The demo after the first `k` snakes had their turn in a frame. The pixels fade at its begin;
/// snakes move in every third frame, and are drawn in every one.
pub open spec fn demo_after(
    nodes: Seq<LocPixNode>,
    before: DemoView,
    moving: bool,
    chances: Seq<SnakeChance>,
    dim: Seq<u8>,
    k: nat,
) -> DemoView
    decreases k,
{
    if k == 0 {
        DemoView { pixels: all_faded(before.pixels), ..before }
    } else {
        let demo = demo_after(nodes, before, moving, chances, dim, (k - 1) as nat);
        let snake = demo.snakes[k - 1];
        let after = if moving {
            moved(nodes, snake, demo.pixels, chances[k - 1])
        } else {
            snake
        };
        DemoView {
            snakes: demo.snakes.update(k - 1, after),
            pixels: with_head(demo.pixels, after, dim),
        }
    }
}

/// Draws frame number `step` of the demo. `dim` holds what the brightness of this frame makes of
/// each channel.
pub fn demo_frame(
    loc_nodes: &[LocPixNode],
    snakes: &mut Vec<SnakeState>,
    pixels: &mut [RGB8],
    step: u32,
    chances: &Vec<SnakeChance>,
    dim: &Vec<u8>,
)
    requires
        config::valid_map(loc_nodes@),
        config::valid_pixels(loc_nodes@, old(pixels)@.len()),
        config::valid_walk(loc_nodes@),
        old(pixels)@.len() <= 0xFFFF,
        chances@.len() == old(snakes)@.len(),
        dim@.len() == 256,
        forall|i: int|
            0 <= i < old(snakes)@.len() ==> on_map(
                #[trigger] old(snakes)@[i],
                loc_nodes@.len(),
                old(pixels)@.len(),
            ),
    ensures
        (DemoView { snakes: final(snakes)@, pixels: final(pixels)@ }) == demo_after(
            loc_nodes@,
            DemoView { snakes: old(snakes)@, pixels: old(pixels)@ },
            step % SUB_SAMPLE_STEPS == 0,
            chances@,
            dim@,
            old(snakes)@.len(),
        ),
        final(pixels)@.len() == old(pixels)@.len(),
        forall|i: int|
            0 <= i < final(snakes)@.len() ==> on_map(
                #[trigger] final(snakes)@[i],
                loc_nodes@.len(),
                final(pixels)@.len(),
            ),
{
    let ghost nodes = loc_nodes@;
    let ghost before = DemoView { snakes: snakes@, pixels: pixels@ };
    let ghost n = pixels@.len();
    let moving = step % SUB_SAMPLE_STEPS == 0;
    fade_step(pixels);
    let mut i: usize = 0;
    while i < snakes.len()
        invariant
            i <= snakes@.len(),
            nodes == loc_nodes@,
            config::valid_map(nodes),
            config::valid_pixels(nodes, n),
            config::valid_walk(nodes),
            n <= 0xFFFF,
            pixels@.len() == n,
            n == old(pixels)@.len(),
            snakes@.len() == old(snakes)@.len(),
            chances@.len() == snakes@.len(),
            dim@.len() == 256,
            forall|j: int|
                0 <= j < snakes@.len() ==> on_map(#[trigger] snakes@[j], nodes.len(), n),
            (DemoView { snakes: snakes@, pixels: pixels@ }) == demo_after(
                nodes,
                before,
                moving,
                chances@,
                dim@,
                i as nat,
            ),
        decreases snakes@.len() - i,
    {
        let snake = snakes[i];
        assert(on_map(snakes@[i as int], nodes.len(), n));
        let after = if moving {
            move_snake(loc_nodes, snake, pixels, chances[i])
        } else {
            snake
        };
        snakes[i] = after;
        if let Some(pix) = after.cur_pix.as_option() {
            let c = after.col;
            pixels[pix as usize] = RGB8 {
                r: dim[c.r as usize],
                g: dim[c.g as usize],
                b: dim[c.b as usize],
            };
        }
        i = i + 1;
    }
}

// ---------------------------------------------------------------------------------------------
// Laws
// ---------------------------------------------------------------------------------------------

/// A steady status LED stays in its color. A blinking one begins in its color and is dark in every
/// second step, for as long. An alternating one begins in its first color for its first duration,
/// and changes to the second for the second. Each pair of steps repeats.
pub proof fn lemma_status_frames(event: LedStatusAnimationEvent, step: nat)
    ensures
        status_frame(event, step + 2) == status_frame(event, step),
        match event {
            LedStatusAnimationEvent::Constant(color) => status_frame(event, step) == (
                color,
                None::<u64>,
            ),
            LedStatusAnimationEvent::Blink(color, ms) => {
                &&& status_frame(event, 0) == (color, Some(ms))
                &&& status_frame(event, 1) == (RGB8 { r: 0, g: 0, b: 0 }, Some(ms))
            },
            LedStatusAnimationEvent::Alternate(first, second, first_ms, second_ms) => {
                &&& status_frame(event, 0) == (first, Some(first_ms))
                &&& status_frame(event, 1) == (second, Some(second_ms))
            },
        },
{
}

/// Of the special pixels as many show a progress, from the first on, as it is percent of all of
/// them: number `i` is pink exactly if the whole percentage up to and with it is reached, and else
/// dark. All are at a hundred percent.
pub proof fn lemma_progress_color(i: int, count: int, progress: u8)
    requires
        0 <= i < count,
    ensures
        (i + 1) * 100 < (progress + 1) * count ==> progress_color(i, count, progress) == (RGB8 {
            r: 255,
            g: 0,
            b: 200,
        }),
        (i + 1) * 100 >= (progress + 1) * count ==> progress_color(i, count, progress) == (RGB8 {
            r: 0,
            g: 0,
            b: 0,
        }),
        progress >= 100 ==> progress_color(i, count, progress) == (RGB8 { r: 255, g: 0, b: 200 }),
{
    let reached = (i + 1) * 100 / count;
    let p = progress as int;
    assert((reached <= p) == ((i + 1) * 100 < (p + 1) * count)) by (nonlinear_arith)
        requires
            reached == ((i + 1) * 100) / count,
            0 < count,
            0 <= i,
            0 <= p,
    ;
    assert(p >= 100 ==> (i + 1) * 100 < (p + 1) * count) by (nonlinear_arith)
        requires
            0 <= i < count,
            0 <= p,
    ;
}

/// A progress is shown on the special pixels alone: those have the color for their number, and all
/// others stay as they were.
pub proof fn lemma_progress_on_special_pixels(
    pixels: Seq<RGB8>,
    special: Seq<u16>,
    progress: u8,
    k: nat,
    at: int,
)
    requires
        k <= special.len(),
        special.no_duplicates(),
        forall|i: int| 0 <= i < special.len() ==> (#[trigger] special[i]) < pixels.len(),
        0 <= at < pixels.len(),
    ensures
        ({
            let after = with_progress(pixels, special, progress, k);
            &&& after.len() == pixels.len()
            &&& forall|i: int|
                0 <= i < k && special[i] == at ==> after[at] == #[trigger] progress_color(
                    i,
                    special.len() as int,
                    progress,
                )
            &&& (forall|i: int| 0 <= i < k ==> special[i] != at) ==> after[at] == pixels[at]
        }),
    decreases k,
{
    if k > 0 {
        lemma_progress_on_special_pixels(pixels, special, progress, (k - 1) as nat, at);
        assert(special[k - 1] < pixels.len());
        let before = with_progress(pixels, special, progress, (k - 1) as nat);
        let after = with_progress(pixels, special, progress, k);
        assert forall|i: int| 0 <= i < k && special[i] == at implies after[at]
            == #[trigger] progress_color(i, special.len() as int, progress) by {
            if i < k - 1 {
                assert(special[i] != special[k - 1]);
            }
        }
    }
}

/// A step of fading takes five from each channel of each pixel, as far as there is that much.
pub proof fn lemma_fade_by_five(pixels: Seq<RGB8>, i: int)
    requires
        0 <= i < pixels.len(),
    ensures
        ({
            let (before, after) = (pixels[i], all_faded(pixels)[i]);
            let fades = |a: u8, b: u8| (a >= 5 ==> b == a - 5) && (a < 5 ==> b == 0);
            &&& all_faded(pixels).len() == pixels.len()
            &&& fades(before.r, after.r) && fades(before.g, after.g) && fades(before.b, after.b)
        }),
{
}

/// To identify the device all pixels are green for one second, and then all are dark.
pub proof fn lemma_identify(pixels: Seq<RGB8>, step: nat, i: int)
    requires
        0 <= i < pixels.len(),
    ensures
        ({
            let (shown, next) = identify_step(pixels, step);
            &&& shown.len() == pixels.len()
            &&& step == 0 ==> shown[i] == (RGB8 { r: 0, g: 255, b: 80 }) && next
                == PixelsFrame::Hold(1000)
            &&& step > 0 ==> shown[i] == (RGB8 { r: 0, g: 0, b: 0 }) && next == PixelsFrame::Last
        }),
{
}

/// A fade shows each step of it, ends with the step that leaves all pixels dark, and takes none
/// after the last of 255.
pub proof fn lemma_fade_out_steps(pixels: Seq<RGB8>, step: nat)
    ensures
        ({
            let (shown, next) = fade_out_step(pixels, step);
            let dark = forall|i: int|
                0 <= i < pixels.len() ==> #[trigger] all_faded(pixels)[i] == (RGB8 {
                    r: 0,
                    g: 0,
                    b: 0,
                });
            &&& step >= 255 ==> shown == pixels && next == PixelsFrame::Over
            &&& step < 255 ==> shown == all_faded(pixels) && next == (if dark {
                PixelsFrame::Last
            } else {
                PixelsFrame::Hold(0)
            })
        }),
{
    let after = all_faded(pixels);
    assert(after.len() == pixels.len());
    if all_dark(after) {
        assert forall|i: int| 0 <= i < pixels.len() implies #[trigger] after[i] == (RGB8 {
            r: 0,
            g: 0,
            b: 0,
        }) by {
            assert(after[i] == util::spec_black());
        }
    }
}

/// Whether a snake is new: on the location that its number picks, on no pixel yet, free to go
/// anywhere, and in full brightness with the hue of its number.
pub open spec fn is_new_snake(snake: SnakeState, locs: nat, chance: SnakeChance) -> bool {
    let sat = chance.sat as u8;
    &&& snake.loc == chance.loc as int % locs as int
    &&& snake.dir@ is None
    &&& snake.modes == 0xFF
    &&& snake.cur_pix@ is None
    &&& snake.next_pix@ is None
    &&& (snake.col.r, snake.col.g, snake.col.b) == colors::rgb_of_hsv(
        chance.hue as u8,
        if sat >= 85 {
            255
        } else {
            (sat * 3) as u8
        },
        255,
    )
}

/// A snake moves on by a step that it can make, onto its first pixel, if that pixel is dark, and
/// keeps its color. If it is not, a new snake takes its place. A snake that can make no step goes
/// onto the pixel ahead of it, and gives its place to a new one if there is none.
pub proof fn lemma_snake_turn(
    nodes: Seq<LocPixNode>,
    snake: SnakeState,
    pixels: Seq<RGB8>,
    chance: SnakeChance,
)
    requires
        0 < nodes.len() <= 0xFFFF,
        snake.next_pix@ matches Some(next) ==> next != u16::MAX,
    ensures
        ({
            let after = moved(nodes, snake, pixels, chance);
            match path_find::picked_step(nodes, snake.loc, snake.dir@, snake.modes, chance.step) {
                Some((to_loc, from_pix, to_pix, dir)) => {
                    let p = pixels[from_pix as int];
                    let free = p.r == 0 && p.g == 0 && p.b == 0;
                    &&& !free ==> is_new_snake(after, nodes.len(), chance)
                    &&& free && from_pix != u16::MAX && to_pix != u16::MAX && dir != u16::MAX ==> {
                        &&& after.loc == to_loc
                        &&& after.dir@ == Some(dir)
                        &&& after.cur_pix@ == Some(from_pix)
                        &&& after.next_pix@ == Some(to_pix)
                        &&& after.col == snake.col
                        &&& after.modes == snake.modes & (nodes[to_loc as int].modes
                            & nodes[snake.loc as int].modes)
                    }
                },
                None => match snake.next_pix@ {
                    Some(next) => {
                        &&& after.cur_pix@ == Some(next)
                        &&& after.next_pix@ is None
                        &&& after.loc == snake.loc && after.dir == snake.dir && after.modes
                            == snake.modes && after.col == snake.col
                    },
                    None => is_new_snake(after, nodes.len(), chance),
                },
            }
        }),
{
    util::lemma_non_max_views::<u16>(0);
    match path_find::picked_step(nodes, snake.loc, snake.dir@, snake.modes, chance.step) {
        Some((_, from_pix, to_pix, dir)) => {
            util::lemma_non_max_views::<u16>(from_pix);
            util::lemma_non_max_views::<u16>(to_pix);
            util::lemma_non_max_views::<u16>(dir);
        },
        None => {
            if let Some(next) = snake.next_pix@ {
                util::lemma_non_max_views::<u16>(next);
            }
        },
    }
}

/// A frame of the demo first fades all pixels. Then one snake after the other has its turn, if it
/// is a frame in which they move, and shows its head, in its color at the brightness of the frame;
/// the other snakes and pixels stay as they are.
pub proof fn lemma_demo_turns(
    nodes: Seq<LocPixNode>,
    before: DemoView,
    moving: bool,
    chances: Seq<SnakeChance>,
    dim: Seq<u8>,
    k: nat,
)
    requires
        k < before.snakes.len(),
        demo_after(nodes, before, moving, chances, dim, k).snakes.len() == before.snakes.len(),
    ensures
        ({
            let first = demo_after(nodes, before, moving, chances, dim, 0);
            let a = demo_after(nodes, before, moving, chances, dim, k);
            let b = demo_after(nodes, before, moving, chances, dim, k + 1);
            let snake = b.snakes[k as int];
            &&& first.snakes == before.snakes
            &&& first.pixels == all_faded(before.pixels)
            &&& b.snakes.len() == before.snakes.len()
            &&& forall|i: int|
                0 <= i < before.snakes.len() && i != k ==> #[trigger] b.snakes[i] == a.snakes[i]
            &&& !moving ==> snake == a.snakes[k as int]
            &&& moving ==> snake == moved(nodes, a.snakes[k as int], a.pixels, chances[k as int])
            &&& snake.cur_pix@ is None ==> b.pixels == a.pixels
            &&& snake.cur_pix@ matches Some(pix) ==> (pix < a.pixels.len() ==> {
                let shown = b.pixels[pix as int];
                &&& b.pixels.len() == a.pixels.len()
                &&& forall|i: int|
                    0 <= i < a.pixels.len() && i != pix ==> #[trigger] b.pixels[i] == a.pixels[i]
                &&& shown.r == dim[snake.col.r as int]
                &&& shown.g == dim[snake.col.g as int]
                &&& shown.b == dim[snake.col.b as int]
            })
        }),
{
}

/// At the start of the demo the snakes are on no pixel, and free to go anywhere from the first
/// location.
pub proof fn lemma_snake_at_start()
    ensures
        ({
            let snake = spec_snake_at_start();
            &&& snake.loc == 0
            &&& snake.dir@ is None
            &&& snake.modes == 0xFF
            &&& snake.cur_pix@ is None
            &&& snake.next_pix@ is None
            &&& snake.col == (RGB8 { r: 0, g: 0, b: 0 })
        }),
{
    util::lemma_non_max_views::<u16>(0);
}

} // verus!

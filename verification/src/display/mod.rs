//! Everything that ends up on the LEDs.

pub mod animations;
pub mod colors;
pub mod disruption_render;
pub mod led_driver;
pub mod leds;
pub mod open_heap;
pub mod painter;
pub mod path_find;
pub mod renderer;
pub mod routes;
pub mod vehicle_motion;
pub mod vehicle_render;
pub mod ways;

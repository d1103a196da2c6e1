//! Verified core of the LED transit map: routing over the pixel graph, rendering,
//! settings, device protocol, firmware updates and the host tooling around them.

pub mod automation;
pub mod boot;
pub mod buttons;
pub mod config;
pub mod device;
pub mod display;
pub mod effects;
pub mod net;
pub mod outside;
pub mod proto;
pub mod store;
pub mod text;
pub mod time;
pub mod tools;
pub mod trace;
pub mod ui;
pub mod util;

//! What the tools around the firmware decide and compute.

pub mod commands;
pub mod doctor;
pub mod pages;
pub mod release;

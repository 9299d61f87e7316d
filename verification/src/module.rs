//! The client's modules: what each decides on a tick.
pub mod fast_place;
pub mod rod_assist;
pub mod trigger_bot;

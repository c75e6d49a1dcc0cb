//! Core of a photo-frame display system: a durable, atomically persisted
//! settings record with a latest-value change feed, an image catalog built
//! from directory listings, and the controller state machine that decides
//! what is on screen after every event.
//!
//! All I/O (files, timers, signals, rendering) lives outside this crate; the
//! modules here work on plain values and carry proofs of the behaviour they
//! promise.

pub mod api;
pub mod catalog;
pub mod codec;
pub mod controller;
pub mod dectext;
pub mod keys;
pub mod render;
pub mod settings;
pub mod store;
pub mod text;
pub mod watcher;

use vstd::prelude::*;

verus! {

/// Paths and directories handed to the core at startup, already resolved.
pub struct Config {
    pub backend_data_dir: String,
    pub backend_frame_settings_file: String,
}

} // verus!

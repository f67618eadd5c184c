//! The statistics overlay's notification list.

pub mod state;

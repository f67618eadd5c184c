//! Verified core of the evolutionary image/video approximator: window sizing,
//! file naming and listing, settings checks, media and shape selection, shape
//! layer preparation, FFmpeg command lines and ffprobe parsing, colour
//! sampling, and the integer bookkeeping of the generation loop.

mod error;

pub use error::AppError;
pub mod text;
pub mod paths;
pub mod order;
pub mod window;
pub mod io;
pub mod types;
pub mod algorithm;
pub mod settings;
pub mod ui;
pub mod overlay;
pub mod generation;
pub mod gpu;

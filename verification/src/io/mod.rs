//! The input/output side: naming, media and shape selection, shape layer
//! preparation, FFmpeg command lines and report parsing, buffer layouts.

pub mod shape_preprocessor;
pub mod output;
pub mod media_loader;
pub mod video;

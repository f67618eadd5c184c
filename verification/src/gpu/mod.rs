//! Device selection decisions of the GPU context.

pub mod context;

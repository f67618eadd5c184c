//! The errors the application reports.

use vstd::prelude::*;

verus! {

/// Every error the application reports.
#[derive(Debug)]
pub enum AppError {
    GpuInit(String),
    SettingsValidation { name: String, value: String, range: String },
    SettingsParse { location: String, message: String },
    NoShapes { path: String },
    VramBudget { required_mb: u32, budget_mb: u32 },
    NoMedia { path: String },
    ComputeTimeout { timeout_ms: u64 },
    SaveFailed { reason: String },
    Ffmpeg(String),
}

} // verus!

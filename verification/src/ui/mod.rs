//! User-facing configuration logic: the interface language and the rules that
//! keep the settings form consistent.

pub mod i18n;
pub mod settings_screen;

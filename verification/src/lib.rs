//! Verified core of a screenshot tool: hotkey parsing, settings, selection
//! geometry, the selection overlay's state machine and its pixel work.
pub mod geometry;
pub mod text;
pub mod hotkey;
pub mod settings;
pub mod render;
pub mod overlay;
pub mod capture;
pub mod output;
pub mod main_window;

//! Verified core of a microphone mute tray controller: device and state
//! snapshots, the toggle rule, configuration text, diagnostic reports, menu
//! models, and a small PNG encoder for icon previews.

pub mod png;
pub mod text;
pub mod audio;
pub mod config;
pub mod envinfo;
pub mod mic;
pub mod tray;
pub mod diag;
pub mod log;
pub mod preview;
pub mod cli;

//! Verified core of the musicum audio library: text layout for the command
//! line, export settings, shell completion scripts, playback-queue and
//! processor-list state machines, and the small pure rules around them.

pub mod text;
pub mod table;
pub mod paths;
pub mod export;
pub mod params;
pub mod config;
pub mod sidecar;
pub mod library;
pub mod edit;
pub mod editor;
pub mod queue;
pub mod completions;
pub mod cli;
pub mod ids;
pub mod player;
pub mod presets;
pub mod schema;

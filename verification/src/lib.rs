//! Reacts to the presence or absence of a named operating-system process by
//! switching the display configuration, and patches a game's on-disk settings
//! file so its next launch starts with a forced resolution preset.
//!
//! The verified core is the line-oriented, bounds-checked text patcher
//! (`utils`), the settings-file rewriter and account lookup (`valorant`), the
//! edge-triggered process watcher state machine (`watcher`), and the registry
//! that mediates watcher operations (`state`). Process enumeration, display
//! switching, file input/output and the asynchronous polling loop live in the
//! surrounding application, which feeds plain values into this library.

pub mod config;
pub mod utils;
pub mod valorant;
pub mod watcher;
pub mod display;
pub mod state;
pub mod error;

//! A verified core for a terminal workspace picker and launcher.
//!
//! The library owns the logic: case-insensitive prefix filtering of item
//! labels, the picker's selection/scroll state machine, minimal-diff frame
//! rendering, recursive workspace resolution with cycle detection, and the
//! construction of launcher argument lists. Terminal I/O, configuration
//! storage and process spawning are collaborators that live outside.

pub mod cli;
pub mod command;
pub mod form;
pub mod model;
pub mod picker;
pub mod render;
pub mod resolve;
pub mod text;

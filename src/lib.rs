//! Core of a terminal emulator: styled cells; the terminal grid with its
//! scrollback, reflow and selection; the SGR state machine and the actions
//! the escape-sequence parser hands on; the decisions of a PTY session; the
//! glyph atlas, shaping of runs and the renderer's view of rows; and the
//! plugin host's action registry, manifests, capabilities, host functions
//! and resource limits, with logging and telemetry settings.

pub mod cell;
pub mod text;
pub mod control;
pub mod grid;
pub mod parser;
pub mod actions;
pub mod limits;
pub mod capability;
pub mod logging;
pub mod components;
pub mod manifest;
pub mod telemetry;
pub mod atlas;
pub mod session;
pub mod font;
pub mod host;
pub mod shaping;
pub mod view;

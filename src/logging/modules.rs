//! Names of the subsystems that can be given their own log level.

use vstd::prelude::*;

verus! {

/// The core subsystem.
pub const CORE: &'static str = "quantaterm_core";
/// The renderer.
pub const RENDERER: &'static str = "quantaterm_renderer";
/// The pseudo-terminal session.
pub const PTY: &'static str = "quantaterm_pty";
/// The terminal grid.
pub const BLOCKS: &'static str = "quantaterm_blocks";
/// Configuration loading.
pub const CONFIG: &'static str = "quantaterm_config";
/// The plugin API.
pub const PLUGINS_API: &'static str = "quantaterm_plugins_api";
/// The plugin host.
pub const PLUGINS_HOST: &'static str = "quantaterm_plugins_host";
/// The AI features.
pub const AI: &'static str = "quantaterm_ai";
/// Telemetry.
pub const TELEMETRY: &'static str = "quantaterm_telemetry";
/// The command-line front end.
pub const CLI: &'static str = "quantaterm_cli";

} // verus!

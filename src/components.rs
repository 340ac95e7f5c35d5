//! The smaller pieces around the core: error kinds, PTY messages, terminal
//! settings, the renderer's color and the subsystem entry points.

use vstd::prelude::*;
use crate::parser::ParseAction;

verus! {

#[verifier::external_type_specification]
#[verifier::external_body]
pub struct ExIoError(std::io::Error);

/// The version of this library.
pub const VERSION: &'static str = "0.1.0";

/// An error of the terminal as a whole.
#[derive(Debug)]
pub enum QuantaTermError {
    /// An I/O failure.
    Io(std::io::Error),
    /// Bad configuration.
    Configuration(String),
    /// A rendering failure.
    Render(String),
    /// A pseudo-terminal failure.
    Pty(String),
    /// A plugin failure.
    Plugin(String),
    /// Anything else.
    Generic(String),
}

/// An event from a PTY session.
#[derive(Debug, Clone)]
pub enum PtyEvent {
    /// Raw bytes from the shell.
    Data(Vec<u8>),
    /// What the parser made of those bytes.
    ParsedActions(Vec<ParseAction>),
    /// The shell exited with this code.
    ProcessExit(i32),
    /// Something failed.
    Error(String),
}

/// A command to a PTY session.
#[derive(Debug, Clone)]
pub enum PtyCommand {
    /// Bytes for the shell.
    WriteData(Vec<u8>),
    /// New terminal size.
    Resize {
        /// Columns.
        width: u16,
        /// Rows.
        height: u16,
    },
    /// End the session.
    Shutdown,
}

/// Terminal settings.
#[derive(Debug, Clone)]
pub struct TerminalConfig {
    /// Columns at start.
    pub default_cols: u16,
    /// Rows at start.
    pub default_rows: u16,
    /// Rows of history kept.
    pub max_scrollback: usize,
    /// Shell to run instead of the platform default.
    pub shell_command: Option<String>,
}

impl Default for TerminalConfig {
    fn default() -> (c: TerminalConfig)
        ensures
            c.default_cols == 80,
            c.default_rows == 24,
            c.max_scrollback == 10000,
            c.shell_command is None,
    {
        TerminalConfig { default_cols: 80, default_rows: 24, max_scrollback: 10000, shell_command: None }
    }
}

/// An RGBA color as the renderer takes it.
#[derive(Debug, Clone, Copy, PartialEq, Eq, Structural)]
pub struct RendererColor {
    /// Red.
    pub r: u8,
    /// Green.
    pub g: u8,
    /// Blue.
    pub b: u8,
    /// Alpha.
    pub a: u8,
}

impl RendererColor {
    /// A color from its four components.
    pub fn new(r: u8, g: u8, b: u8, a: u8) -> (c: RendererColor)
        ensures
            c == (RendererColor { r, g, b, a }),
    {
        RendererColor { r, g, b, a }
    }

    /// An opaque color.
    pub fn rgb(r: u8, g: u8, b: u8) -> (c: RendererColor)
        ensures
            c == (RendererColor { r, g, b, a: 255 }),
    {
        RendererColor::new(r, g, b, 255)
    }
}

/// Entry point of the block subsystem.
#[derive(Debug, Clone, Copy, PartialEq, Eq, Structural)]
pub struct Blocks;

impl Blocks {
    /// The block subsystem.
    pub fn new() -> (b: Blocks)
        ensures
            b == Blocks,
    {
        Blocks
    }
}

/// Entry point of the AI subsystem.
#[derive(Debug, Clone, Copy, PartialEq, Eq, Structural)]
pub struct Ai;

impl Ai {
    /// The AI subsystem.
    pub fn new() -> (a: Ai)
        ensures
            a == Ai,
    {
        Ai
    }
}

/// Entry point of the plugin API.
#[derive(Debug, Clone, Copy, PartialEq, Eq, Structural)]
pub struct PluginsApi;

impl PluginsApi {
    /// The plugin API.
    pub fn new() -> (p: PluginsApi)
        ensures
            p == PluginsApi,
    {
        PluginsApi
    }
}

/// Counts of the plugin system.
#[derive(Debug, Clone, Copy, PartialEq, Eq, Structural)]
pub struct PluginStatistics {
    /// Loaded plugins.
    pub loaded_plugins: usize,
    /// Registered actions.
    pub registered_actions: usize,
    /// Configured plugin directories.
    pub plugin_directories: usize,
}

} // verus!

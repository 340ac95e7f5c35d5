//! Log levels and the logging configuration: a global level, per-module
//! levels and output options.

pub mod modules;

use vstd::prelude::*;
use crate::text::{lower_of, lowercase, push_str_chars, same_text, string_of};

verus! {

/// A severity threshold.
#[derive(Debug, Clone, Copy, PartialEq, Eq, Structural)]
pub enum LogLevel {
    /// Everything.
    Trace,
    /// Debugging and above.
    Debug,
    /// Information and above.
    Info,
    /// Warnings and errors.
    Warn,
    /// Errors only.
    Error,
    /// Nothing.
    Off,
}

/// The level that a lower-cased name denotes.
pub open spec fn level_named(s: Seq<char>) -> Option<LogLevel> {
    if s == "trace"@ {
        Some(LogLevel::Trace)
    } else if s == "debug"@ {
        Some(LogLevel::Debug)
    } else if s == "info"@ {
        Some(LogLevel::Info)
    } else if s == "warn"@ || s == "warning"@ {
        Some(LogLevel::Warn)
    } else if s == "error"@ {
        Some(LogLevel::Error)
    } else if s == "off"@ || s == "none"@ {
        Some(LogLevel::Off)
    } else {
        None
    }
}

/// The name of a level.
pub open spec fn level_name(l: LogLevel) -> Seq<char> {
    match l {
        LogLevel::Trace => "trace"@,
        LogLevel::Debug => "debug"@,
        LogLevel::Info => "info"@,
        LogLevel::Warn => "warn"@,
        LogLevel::Error => "error"@,
        LogLevel::Off => "off"@,
    }
}

impl LogLevel {
    /// The level named by `s`, in any case: trace, debug, info, warn or
    /// warning, error, off or none; otherwise an error naming `s`.
    pub fn parse(s: &str) -> (r: Result<LogLevel, String>)
        ensures
            level_named(lower_of(s@)) matches Some(l) ==> r == Ok::<LogLevel, String>(l),
            level_named(lower_of(s@)) is None ==> (r matches Err(m) && m@ == "Invalid log level: "@ + s@),
    {
        let low = lowercase(s);
        let t = low.as_str();
        if same_text(t, "trace") {
            Ok(LogLevel::Trace)
        } else if same_text(t, "debug") {
            Ok(LogLevel::Debug)
        } else if same_text(t, "info") {
            Ok(LogLevel::Info)
        } else if same_text(t, "warn") || same_text(t, "warning") {
            Ok(LogLevel::Warn)
        } else if same_text(t, "error") {
            Ok(LogLevel::Error)
        } else if same_text(t, "off") || same_text(t, "none") {
            Ok(LogLevel::Off)
        } else {
            let mut m: Vec<char> = Vec::new();
            push_str_chars(&mut m, "Invalid log level: ");
            push_str_chars(&mut m, s);
            Err(string_of(&m))
        }
    }

    /// The level's name in lower case.
    pub fn to_string(&self) -> (r: String)
        ensures
            r@ == level_name(*self),
    {
        let name = match self {
            LogLevel::Trace => "trace",
            LogLevel::Debug => "debug",
            LogLevel::Info => "info",
            LogLevel::Warn => "warn",
            LogLevel::Error => "error",
            LogLevel::Off => "off",
        };
        name.to_owned()
    }
}

impl std::str::FromStr for LogLevel {
    type Err = String;

    fn from_str(s: &str) -> Result<LogLevel, String> {
        LogLevel::parse(s)
    }
}

/// Log levels of individual modules, each module once.
#[derive(Debug, Clone)]
pub struct ModuleLevels {
    /// Module names with their levels.
    pub entries: Vec<(String, LogLevel)>,
}

/// Whether `e` gives module `m` level `l`.
pub open spec fn gives(e: Seq<(String, LogLevel)>, m: Seq<char>, l: LogLevel) -> bool {
    exists|i: int| 0 <= i < e.len() && (#[trigger] e[i]).0@ == m && e[i].1 == l
}

/// Whether `e` names a module.
pub open spec fn names(e: Seq<(String, LogLevel)>, m: Seq<char>) -> bool {
    exists|i: int| 0 <= i < e.len() && (#[trigger] e[i]).0@ == m
}

impl ModuleLevels {
    /// No module is named twice.
    pub open spec fn wf(&self) -> bool {
        forall|i: int, j: int| 0 <= i < j < self.entries@.len() ==> (#[trigger] self.entries@[i]).0@ != (#[trigger] self.entries@[j]).0@
    }

    /// No module levels.
    pub fn new() -> (r: ModuleLevels)
        ensures
            r.wf(),
            r.entries@.len() == 0,
    {
        ModuleLevels { entries: Vec::new() }
    }

    /// Whether no module has a level of its own.
    pub fn is_empty(&self) -> (r: bool)
        ensures
            r == (self.entries@.len() == 0),
    {
        self.entries.len() == 0
    }

    /// Number of modules with a level.
    pub fn len(&self) -> (r: usize)
        ensures
            r == self.entries@.len(),
    {
        self.entries.len()
    }

    /// The level of module `module`.
    pub fn get(&self, module: &str) -> (r: Option<&LogLevel>)
        ensures
            r is None <==> !names(self.entries@, module@),
            r matches Some(l) ==> gives(self.entries@, module@, *l),
    {
        let mut i: usize = 0;
        while i < self.entries.len()
            invariant
                i <= self.entries@.len(),
                forall|k: int| 0 <= k < i ==> (#[trigger] self.entries@[k]).0@ != module@,
            decreases self.entries@.len() - i,
        {
            if same_text(self.entries[i].0.as_str(), module) {
                return Some(&self.entries[i].1);
            }
            i = i + 1;
        }
        None
    }

    /// Gives module `module` level `level`, replacing an earlier one.
    pub fn insert(&mut self, module: String, level: LogLevel)
        requires
            old(self).wf(),
        ensures
            final(self).wf(),
            gives(final(self).entries@, module@, level),
            forall|m: Seq<char>, l: LogLevel| m != module@ ==> (gives(final(self).entries@, m, l) <==> gives(old(self).entries@, m, l)),
    {
        let mut i: usize = 0;
        while i < self.entries.len()
            invariant
                i <= self.entries@.len(),
                self.entries@ == old(self).entries@,
                old(self).wf(),
                forall|k: int| 0 <= k < i ==> (#[trigger] self.entries@[k]).0@ != module@,
            decreases self.entries@.len() - i,
        {
            if same_text(self.entries[i].0.as_str(), module.as_str()) {
                let ghost before = self.entries@;
                self.entries.set(i, (module, level));
                proof {
                    assert(self.entries@[i as int].1 == level);
                    assert forall|m: Seq<char>, l: LogLevel| m != module@ implies (gives(self.entries@, m, l) <==> gives(before, m, l)) by {
                        if gives(self.entries@, m, l) {
                            let t = choose|t: int| 0 <= t < self.entries@.len() && (#[trigger] self.entries@[t]).0@ == m && self.entries@[t].1 == l;
                            assert(before[t] == self.entries@[t]);
                        }
                        if gives(before, m, l) {
                            let t = choose|t: int| 0 <= t < before.len() && (#[trigger] before[t]).0@ == m && before[t].1 == l;
                            assert(t != i);
                            assert(before[t] == self.entries@[t]);
                        }
                    }
                    assert forall|a: int, b: int| 0 <= a < b < self.entries@.len() implies (#[trigger] self.entries@[a]).0@ != (#[trigger] self.entries@[b]).0@ by {
                        assert(self.entries@[a].0@ == before[a].0@);
                        assert(self.entries@[b].0@ == before[b].0@);
                        assert(before[a].0@ != before[b].0@);
                    }
                }
                return;
            }
            i = i + 1;
        }
        let ghost before = self.entries@;
        self.entries.push((module, level));
        proof {
            let n = before.len() as int;
            assert(self.entries@[n].0@ == module@);
            assert forall|m: Seq<char>, l: LogLevel| m != module@ implies (gives(self.entries@, m, l) <==> gives(before, m, l)) by {
                if gives(self.entries@, m, l) {
                    let t = choose|t: int| 0 <= t < self.entries@.len() && (#[trigger] self.entries@[t]).0@ == m && self.entries@[t].1 == l;
                    assert(t != n);
                    assert(before[t] == self.entries@[t]);
                }
                if gives(before, m, l) {
                    let t = choose|t: int| 0 <= t < before.len() && (#[trigger] before[t]).0@ == m && before[t].1 == l;
                    assert(before[t] == self.entries@[t]);
                }
            }
            assert forall|a: int, b: int| 0 <= a < b < self.entries@.len() implies (#[trigger] self.entries@[a]).0@ != (#[trigger] self.entries@[b]).0@ by {
                assert(self.entries@[a] == before[a]);
                if b < n {
                    assert(self.entries@[b] == before[b]);
                }
            }
        }
    }
}

/// How logging is set up.
#[derive(Debug, Clone)]
pub struct LoggingConfig {
    /// Level of modules without a level of their own.
    pub global_level: LogLevel,
    /// Levels of individual modules.
    pub module_levels: ModuleLevels,
    /// Whether lines carry a timestamp.
    pub include_timestamps: bool,
    /// Whether lines carry their severity.
    pub include_severity: bool,
    /// Whether lines carry their subsystem.
    pub include_subsystem: bool,
    /// Whether lines are JSON.
    pub json_format: bool,
    /// Whether output is colored.
    pub use_colors: bool,
}

impl Default for LoggingConfig {
    fn default() -> (c: LoggingConfig)
        ensures
            c.global_level == LogLevel::Info,
            c.module_levels.wf(),
            c.module_levels.entries@.len() == 0,
            c.include_timestamps && c.include_severity && c.include_subsystem,
            !c.json_format,
            c.use_colors,
    {
        LoggingConfig {
            global_level: LogLevel::Info,
            module_levels: ModuleLevels::new(),
            include_timestamps: true,
            include_severity: true,
            include_subsystem: true,
            json_format: false,
            use_colors: true,
        }
    }
}

/// Configuration for development: debug level, colored text, renderer and
/// PTY at debug, blocks at info.
pub fn dev_config() -> (c: LoggingConfig)
    ensures
        c.global_level == LogLevel::Debug,
        c.module_levels.wf(),
        !c.json_format,
        c.use_colors,
        c.include_timestamps && c.include_severity && c.include_subsystem,
        gives(c.module_levels.entries@, modules::RENDERER@, LogLevel::Debug),
        gives(c.module_levels.entries@, modules::PTY@, LogLevel::Debug),
        gives(c.module_levels.entries@, modules::BLOCKS@, LogLevel::Info),
{
    proof {
        reveal_strlit("quantaterm_renderer");
        assert(modules::RENDERER@ == "quantaterm_renderer"@);
        reveal_strlit("quantaterm_pty");
        assert(modules::PTY@ == "quantaterm_pty"@);
        reveal_strlit("quantaterm_blocks");
        assert(modules::BLOCKS@ == "quantaterm_blocks"@);
        assert(modules::PTY@[11] != modules::BLOCKS@[11]);
        assert(modules::RENDERER@[11] != modules::BLOCKS@[11]);
        assert(modules::RENDERER@[11] != modules::PTY@[11]);
    }
    let mut c = LoggingConfig::default();
    c.global_level = LogLevel::Debug;
    c.use_colors = true;
    c.json_format = false;
    c.module_levels.insert(modules::RENDERER.to_owned(), LogLevel::Debug);
    c.module_levels.insert(modules::PTY.to_owned(), LogLevel::Debug);
    c.module_levels.insert(modules::BLOCKS.to_owned(), LogLevel::Info);
    c
}

/// Configuration for production: info level, JSON without color; renderer
/// and blocks at warn, PTY, config and CLI at info.
pub fn prod_config() -> (c: LoggingConfig)
    ensures
        c.global_level == LogLevel::Info,
        c.module_levels.wf(),
        c.json_format,
        !c.use_colors,
        c.include_timestamps && c.include_severity && c.include_subsystem,
        gives(c.module_levels.entries@, modules::RENDERER@, LogLevel::Warn),
        gives(c.module_levels.entries@, modules::PTY@, LogLevel::Info),
        gives(c.module_levels.entries@, modules::BLOCKS@, LogLevel::Warn),
        gives(c.module_levels.entries@, modules::CONFIG@, LogLevel::Info),
        gives(c.module_levels.entries@, modules::CLI@, LogLevel::Info),
{
    proof {
        reveal_strlit("quantaterm_renderer");
        assert(modules::RENDERER@ == "quantaterm_renderer"@);
        reveal_strlit("quantaterm_pty");
        assert(modules::PTY@ == "quantaterm_pty"@);
        reveal_strlit("quantaterm_blocks");
        assert(modules::BLOCKS@ == "quantaterm_blocks"@);
        reveal_strlit("quantaterm_config");
        assert(modules::CONFIG@ == "quantaterm_config"@);
        reveal_strlit("quantaterm_cli");
        assert(modules::CLI@ == "quantaterm_cli"@);
        assert(modules::PTY@[11] != modules::BLOCKS@[11]);
        assert(modules::RENDERER@[11] != modules::BLOCKS@[11]);
        assert(modules::RENDERER@[11] != modules::PTY@[11]);
        assert(modules::BLOCKS@[11] != modules::CONFIG@[11]);
        assert(modules::BLOCKS@[11] != modules::CLI@[11]);
        assert(modules::PTY@[11] != modules::CONFIG@[11]);
        assert(modules::PTY@[11] != modules::CLI@[11]);
        assert(modules::RENDERER@[11] != modules::CONFIG@[11]);
        assert(modules::RENDERER@[11] != modules::CLI@[11]);
        assert(modules::CONFIG@.len() != modules::CLI@.len());
    }
    let mut c = LoggingConfig::default();
    c.global_level = LogLevel::Info;
    c.use_colors = false;
    c.json_format = true;
    c.module_levels.insert(modules::RENDERER.to_owned(), LogLevel::Warn);
    c.module_levels.insert(modules::PTY.to_owned(), LogLevel::Info);
    c.module_levels.insert(modules::BLOCKS.to_owned(), LogLevel::Warn);
    c.module_levels.insert(modules::CONFIG.to_owned(), LogLevel::Info);
    c.module_levels.insert(modules::CLI.to_owned(), LogLevel::Info);
    c
}

/// Configuration for continuous integration: info level, JSON without
/// color, every field shown; core, PTY and blocks at debug.
pub fn ci_config() -> (c: LoggingConfig)
    ensures
        c.global_level == LogLevel::Info,
        c.module_levels.wf(),
        c.json_format,
        !c.use_colors,
        c.include_timestamps && c.include_severity && c.include_subsystem,
        gives(c.module_levels.entries@, modules::CORE@, LogLevel::Debug),
        gives(c.module_levels.entries@, modules::PTY@, LogLevel::Debug),
        gives(c.module_levels.entries@, modules::BLOCKS@, LogLevel::Debug),
{
    proof {
        reveal_strlit("quantaterm_core");
        assert(modules::CORE@ == "quantaterm_core"@);
        reveal_strlit("quantaterm_pty");
        assert(modules::PTY@ == "quantaterm_pty"@);
        reveal_strlit("quantaterm_blocks");
        assert(modules::BLOCKS@ == "quantaterm_blocks"@);
        assert(modules::CORE@[11] != modules::PTY@[11]);
        assert(modules::CORE@[11] != modules::BLOCKS@[11]);
        assert(modules::PTY@[11] != modules::BLOCKS@[11]);
    }
    let mut c = LoggingConfig::default();
    c.global_level = LogLevel::Info;
    c.use_colors = false;
    c.json_format = true;
    c.include_timestamps = true;
    c.include_severity = true;
    c.include_subsystem = true;
    c.module_levels.insert(modules::CORE.to_owned(), LogLevel::Debug);
    c.module_levels.insert(modules::PTY.to_owned(), LogLevel::Debug);
    c.module_levels.insert(modules::BLOCKS.to_owned(), LogLevel::Debug);
    c
}

/// Changes the level of one module while running. Filters are built once
/// at start, so this takes effect after a restart: the call is accepted and
/// changes nothing now.
pub fn update_module_level(module: &str, level: LogLevel) -> (r: Result<(), crate::components::QuantaTermError>)
    ensures
        r is Ok,
{
    Ok(())
}

} // verus!

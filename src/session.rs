//! The decisions of a PTY session: what to do on each command, tick and
//! chunk of output. The loop that performs them, and the pseudo-terminal
//! itself, live outside the library.

use vstd::prelude::*;
use crate::components::{PtyCommand, PtyEvent};
use crate::parser::ParseAction;

verus! {

/// What the session loop must do next.
#[derive(Debug, Clone)]
pub enum SessionAction {
    /// Write these bytes to the shell and flush.
    Write(Vec<u8>),
    /// Resize the pseudo-terminal to `cols` by `rows`.
    Resize {
        /// Columns.
        cols: u16,
        /// Rows.
        rows: u16,
    },
    /// Report this event to the application.
    Emit(PtyEvent),
    /// End the session: stop the reader, kill the shell if it still runs,
    /// close the channels.
    Stop,
}

/// What the session loop observed.
#[derive(Debug, Clone)]
pub enum SessionInput {
    /// A command from the application; `None` when its channel closed.
    Command(Option<PtyCommand>),
    /// A write or resize failed with this message.
    IoFailed(String),
    /// The liveness tick: the shell's exit code when it has exited.
    Tick(Option<i32>),
}

/// Whether the session still runs.
#[derive(Debug, Clone, Copy, PartialEq, Eq, Structural)]
pub enum SessionState {
    /// Relaying bytes.
    Running,
    /// Ended; every later input is dropped.
    Stopped,
}

/// The next state and the actions for `input` in `state`: a write or a
/// resize is passed on, a failure is reported and the session goes on, a
/// shutdown or a closed channel stops it, and so does the shell's exit,
/// after reporting its code. A stopped session does nothing.
pub fn session_step(state: SessionState, input: SessionInput) -> (r: (SessionState, Vec<SessionAction>))
    ensures
        state == SessionState::Stopped ==> r.0 == SessionState::Stopped && r.1@.len() == 0,
        state == SessionState::Running ==> match input {
            SessionInput::Command(Some(PtyCommand::WriteData(b))) => r.0 == SessionState::Running && r.1@.len() == 1
                && (r.1@[0] matches SessionAction::Write(w) && w@ == b@),
            SessionInput::Command(Some(PtyCommand::Resize { width, height })) => r.0 == SessionState::Running
                && r.1@.len() == 1 && (r.1@[0] matches SessionAction::Resize { cols, rows } && cols == width && rows == height),
            SessionInput::Command(Some(PtyCommand::Shutdown)) | SessionInput::Command(None) => r.0 == SessionState::Stopped
                && r.1@.len() == 1 && r.1@[0] is Stop,
            SessionInput::IoFailed(m) => r.0 == SessionState::Running && r.1@.len() == 1
                && (r.1@[0] matches SessionAction::Emit(PtyEvent::Error(e)) && e@ == m@),
            SessionInput::Tick(None) => r.0 == SessionState::Running && r.1@.len() == 0,
            SessionInput::Tick(Some(code)) => r.0 == SessionState::Stopped && r.1@.len() == 2
                && (r.1@[0] matches SessionAction::Emit(PtyEvent::ProcessExit(c)) && c == code) && r.1@[1] is Stop,
        },
{
    let mut actions: Vec<SessionAction> = Vec::new();
    if state == SessionState::Stopped {
        return (SessionState::Stopped, actions);
    }
    match input {
        SessionInput::Command(Some(PtyCommand::WriteData(b))) => {
            actions.push(SessionAction::Write(b));
            (SessionState::Running, actions)
        },
        SessionInput::Command(Some(PtyCommand::Resize { width, height })) => {
            actions.push(SessionAction::Resize { cols: width, rows: height });
            (SessionState::Running, actions)
        },
        SessionInput::Command(Some(PtyCommand::Shutdown)) | SessionInput::Command(None) => {
            actions.push(SessionAction::Stop);
            (SessionState::Stopped, actions)
        },
        SessionInput::IoFailed(m) => {
            actions.push(SessionAction::Emit(PtyEvent::Error(m)));
            (SessionState::Running, actions)
        },
        SessionInput::Tick(None) => (SessionState::Running, actions),
        SessionInput::Tick(Some(code)) => {
            actions.push(SessionAction::Emit(PtyEvent::ProcessExit(code)));
            actions.push(SessionAction::Stop);
            (SessionState::Stopped, actions)
        },
    }
}

/// The events for a chunk of shell output: its raw bytes, then what the
/// parser made of them when that is anything.
pub fn output_events(bytes: Vec<u8>, parsed: Vec<ParseAction>) -> (r: Vec<PtyEvent>)
    ensures
        parsed@.len() == 0 ==> r@.len() == 1,
        parsed@.len() > 0 ==> r@.len() == 2 && (r@[1] matches PtyEvent::ParsedActions(p) && p@ == parsed@),
        r@[0] matches PtyEvent::Data(d) && d@ == bytes@,
{
    let mut r: Vec<PtyEvent> = Vec::new();
    let empty = parsed.len() == 0;
    r.push(PtyEvent::Data(bytes));
    if !empty {
        r.push(PtyEvent::ParsedActions(parsed));
    }
    r
}

/// The shell to start: `cmd.exe /k` on Windows; elsewhere the `SHELL`
/// variable's value, or `/bin/sh` without one.
pub fn default_shell(windows: bool, shell_var: Option<String>) -> (r: (String, Vec<String>))
    ensures
        windows ==> r.0@ == "cmd.exe"@ && r.1@.len() == 1 && r.1@[0]@ == "/k"@,
        !windows ==> r.1@.len() == 0 && r.0@ == match shell_var {
            Some(s) => s@,
            None => "/bin/sh"@,
        },
{
    if windows {
        let mut args: Vec<String> = Vec::new();
        args.push("/k".to_owned());
        ("cmd.exe".to_owned(), args)
    } else {
        match shell_var {
            Some(s) => (s, Vec::new()),
            None => ("/bin/sh".to_owned(), Vec::new()),
        }
    }
}

} // verus!

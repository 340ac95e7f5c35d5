//! The logic of the functions the host offers to plugins: reading a string
//! out of plugin memory, the severity of a log call, and capability checks.
//! The WebAssembly engine that loads and runs plugin modules is not part of
//! this crate; an embedder calls these functions from its host functions.

use vstd::prelude::*;
use crate::capability::{holds, parsed_capability, CapabilitySet};
use crate::limits::LimitError;
use crate::logging::LogLevel;

verus! {

/// The byte range `[ptr, ptr + len)` of plugin memory of `mem_len` bytes,
/// when both numbers are non-negative and the range lies inside it.
pub fn plugin_string_range(mem_len: usize, ptr: i32, len: i32) -> (r: Option<(usize, usize)>)
    ensures
        r is Some <==> (ptr >= 0 && len >= 0 && ptr + len <= mem_len),
        r matches Some((s, e)) ==> s == ptr && e == ptr + len,
{
    if ptr < 0 || len < 0 {
        return None;
    }
    let start = ptr as usize;
    let n = len as usize;
    if n > mem_len || start > mem_len - n {
        return None;
    }
    Some((start, start + n))
}

/// The severity of a plugin's log call: 0 trace, 1 debug, 2 info, 3 warn,
/// 4 error; any other level logs at debug.
pub fn host_log_level(level: i32) -> (l: LogLevel)
    ensures
        l == if level == 0 {
            LogLevel::Trace
        } else if level == 1 {
            LogLevel::Debug
        } else if level == 2 {
            LogLevel::Info
        } else if level == 3 {
            LogLevel::Warn
        } else if level == 4 {
            LogLevel::Error
        } else {
            LogLevel::Debug
        },
{
    match level {
        0 => LogLevel::Trace,
        1 => LogLevel::Debug,
        2 => LogLevel::Info,
        3 => LogLevel::Warn,
        4 => LogLevel::Error,
        _ => LogLevel::Debug,
    }
}

/// The answer to a plugin asking for capability `cap`: 1 when the string
/// names a capability that the plugin holds, 0 otherwise.
pub fn host_check_capability(caps: &CapabilitySet, cap: &str) -> (r: i32)
    ensures
        r == 1 || r == 0,
        r == 1 <==> exists|c: crate::capability::Capability| parsed_capability(cap@, Some(c)) && holds(caps.capabilities@, c),
{
    let parsed = CapabilitySet::parse_capability_string(cap);
    match parsed {
        Some(c) => {
            if caps.has_capability(&c) {
                1
            } else {
                proof {
                    assert forall|d: crate::capability::Capability| parsed_capability(cap@, Some(d)) implies !holds(caps.capabilities@, d) by {
                        crate::capability::lemma_parsed_capability_unique(cap@, Some(d), Some(c));
                        if holds(caps.capabilities@, d) {
                            crate::capability::lemma_holds_equal(caps.capabilities@, d, c);
                        }
                    }
                }
                0
            }
        },
        None => {
            proof {
                assert forall|d: crate::capability::Capability| !parsed_capability(cap@, Some(d)) by {
                    if parsed_capability(cap@, Some(d)) {
                        crate::capability::lemma_parsed_capability_unique(cap@, Some(d), parsed);
                    }
                }
            }
            0
        },
    }
}

/// Why a call into a plugin failed.
#[derive(Debug, PartialEq, Eq)]
pub enum CallError {
    /// A resource limit was reached, before or after the call.
    ResourceLimit(LimitError),
    /// The plugin trapped, with this message.
    WasmTrap(String),
}

/// Where a call into a plugin stands.
#[derive(Debug, Clone, Copy, PartialEq, Eq, Structural)]
pub enum CallPhase {
    /// Nothing done yet.
    Start,
    /// Waiting for the limit check before the call.
    CheckingBefore,
    /// Waiting for the plugin function to return.
    Calling,
    /// Waiting for the limit check after memory use was updated.
    CheckingAfter,
    /// Finished.
    Done,
}

/// What the embedder observed for a call.
#[derive(Debug)]
pub enum CallInput {
    /// The outcome of a limit check.
    Limits(Result<(), LimitError>),
    /// The plugin function returned, or trapped with a message.
    Returned(Result<(), String>),
}

/// What the embedder must do next for a call.
#[derive(Debug)]
pub enum CallAction {
    /// Check the resource limits.
    CheckLimits,
    /// Call the plugin function.
    Invoke,
    /// Read the plugin's memory use into the monitor, then check the limits.
    UpdateMemoryAndCheck,
    /// The call is over, with this outcome.
    Finish(Result<(), CallError>),
}

/// The next phase and action of a call into a plugin: check the limits,
/// call the function, update memory use and check the limits again; a
/// limit reached or a trap ends the call with that error. An input that
/// does not fit the phase changes nothing and asks again for what the
/// phase waits for.
pub fn call_step(phase: CallPhase, input: Option<CallInput>) -> (r: (CallPhase, CallAction))
    ensures
        phase == CallPhase::Start ==> r.0 == CallPhase::CheckingBefore && r.1 is CheckLimits,
        phase == CallPhase::CheckingBefore ==> match input {
            Some(CallInput::Limits(Err(e))) => r.0 == CallPhase::Done
                && r.1 == CallAction::Finish(Err(CallError::ResourceLimit(e))),
            Some(CallInput::Limits(Ok(()))) => r.0 == CallPhase::Calling && r.1 is Invoke,
            _ => r.0 == phase && r.1 is CheckLimits,
        },
        phase == CallPhase::Calling ==> match input {
            Some(CallInput::Returned(Err(m))) => r.0 == CallPhase::Done
                && (r.1 matches CallAction::Finish(Err(CallError::WasmTrap(t))) && t@ == m@),
            Some(CallInput::Returned(Ok(()))) => r.0 == CallPhase::CheckingAfter && r.1 is UpdateMemoryAndCheck,
            _ => r.0 == phase && r.1 is Invoke,
        },
        phase == CallPhase::CheckingAfter ==> match input {
            Some(CallInput::Limits(Err(e))) => r.0 == CallPhase::Done
                && r.1 == CallAction::Finish(Err(CallError::ResourceLimit(e))),
            Some(CallInput::Limits(Ok(()))) => r.0 == CallPhase::Done && r.1 == CallAction::Finish(Ok(())),
            _ => r.0 == phase && r.1 is UpdateMemoryAndCheck,
        },
        phase == CallPhase::Done ==> r.0 == CallPhase::Done && r.1 is Finish,
{
    match phase {
        CallPhase::Start => (CallPhase::CheckingBefore, CallAction::CheckLimits),
        CallPhase::CheckingBefore => match input {
            Some(CallInput::Limits(Err(e))) => (CallPhase::Done, CallAction::Finish(Err(CallError::ResourceLimit(e)))),
            Some(CallInput::Limits(Ok(()))) => (CallPhase::Calling, CallAction::Invoke),
            _ => (phase, CallAction::CheckLimits),
        },
        CallPhase::Calling => match input {
            Some(CallInput::Returned(Err(m))) => (CallPhase::Done, CallAction::Finish(Err(CallError::WasmTrap(m)))),
            Some(CallInput::Returned(Ok(()))) => (CallPhase::CheckingAfter, CallAction::UpdateMemoryAndCheck),
            _ => (phase, CallAction::Invoke),
        },
        CallPhase::CheckingAfter => match input {
            Some(CallInput::Limits(Err(e))) => (CallPhase::Done, CallAction::Finish(Err(CallError::ResourceLimit(e)))),
            Some(CallInput::Limits(Ok(()))) => (CallPhase::Done, CallAction::Finish(Ok(()))),
            _ => (phase, CallAction::UpdateMemoryAndCheck),
        },
        CallPhase::Done => (CallPhase::Done, CallAction::Finish(Ok(()))),
    }
}

} // verus!

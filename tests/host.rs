//! Tests of the host-function logic and of programming ligatures.

use quantaterm::capability::{Capability, CapabilitySet};
use quantaterm::host::{
    call_step, host_check_capability, host_log_level, plugin_string_range, CallAction, CallError, CallInput, CallPhase,
};
use quantaterm::logging::LogLevel;
use quantaterm::shaping::process_ligatures;

#[test]
fn string_ranges_stay_inside_memory() {
    assert_eq!(plugin_string_range(100, 10, 5), Some((10, 15)));
    assert_eq!(plugin_string_range(100, 95, 5), Some((95, 100)));
    assert_eq!(plugin_string_range(100, 96, 5), None);
    assert_eq!(plugin_string_range(100, -1, 5), None);
    assert_eq!(plugin_string_range(100, 1, -5), None);
}

#[test]
fn log_levels_of_plugins() {
    assert_eq!(host_log_level(0), LogLevel::Trace);
    assert_eq!(host_log_level(2), LogLevel::Info);
    assert_eq!(host_log_level(4), LogLevel::Error);
    assert_eq!(host_log_level(9), LogLevel::Debug);
}

#[test]
fn capability_checks_answer_one_or_zero() {
    let mut caps = CapabilitySet::new("p".to_string());
    caps.add_capability(Capability::BlockRead);
    assert_eq!(host_check_capability(&caps, "block.read"), 1);
    assert_eq!(host_check_capability(&caps, "block.write"), 0);
    assert_eq!(host_check_capability(&caps, "nonsense"), 0);
}

#[test]
fn ligatures_apply_in_table_order() {
    let on = vec!["liga".to_string(), "calt".to_string()];
    assert_eq!(process_ligatures("a -> b => c", &on), "a \u{2192} b \u{21D2} c");
    assert_eq!(process_ligatures("x != y && z", &on), "x \u{2260} y \u{2227} z");
    assert_eq!(process_ligatures("===", &on), "\u{2261}=");
    assert_eq!(process_ligatures("...", &on), "\u{2025}.");
    assert_eq!(process_ligatures("a -> b", &vec![]), "a -> b");
    assert_eq!(process_ligatures("a -> b", &vec!["kern".to_string()]), "a -> b");
}

#[test]
fn plugin_calls_check_limits_around_the_call() {
    let (p, a) = call_step(CallPhase::Start, None);
    assert!(matches!(a, CallAction::CheckLimits));
    let (p, a) = call_step(p, Some(CallInput::Limits(Ok(()))));
    assert!(matches!(a, CallAction::Invoke));
    let (p, a) = call_step(p, Some(CallInput::Returned(Ok(()))));
    assert!(matches!(a, CallAction::UpdateMemoryAndCheck));
    let (p, a) = call_step(p, Some(CallInput::Limits(Ok(()))));
    assert_eq!(p, CallPhase::Done);
    assert!(matches!(a, CallAction::Finish(Ok(()))));
    let (p, a) = call_step(CallPhase::Calling, Some(CallInput::Returned(Err("unreachable".to_string()))));
    assert_eq!(p, CallPhase::Done);
    assert!(matches!(a, CallAction::Finish(Err(CallError::WasmTrap(ref m))) if m == "unreachable"));
}

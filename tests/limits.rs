//! Tests of execution limits and the resource monitor.

use quantaterm::limits::{ExecutionLimits, LimitError, ResourceMonitor, TimeSpan};


#[test]
fn test_default_limits() {
    let limits = ExecutionLimits::default();
    assert_eq!(limits.max_memory, 16 * 1024 * 1024);
    assert_eq!(limits.max_time, TimeSpan::from_millis(100));
    assert_eq!(limits.max_fuel, 1_000_000);
}

#[test]
fn test_development_limits() {
    let limits = ExecutionLimits::development();
    assert_eq!(limits.max_memory, 64 * 1024 * 1024);
    assert_eq!(limits.max_time, TimeSpan::from_millis(1000));
    assert_eq!(limits.max_fuel, 10_000_000);
}

#[test]
fn test_production_limits() {
    let limits = ExecutionLimits::production();
    assert_eq!(limits.max_memory, 8 * 1024 * 1024);
    assert_eq!(limits.max_time, TimeSpan::from_millis(50));
    assert_eq!(limits.max_fuel, 500_000);
}

#[test]
fn test_resource_monitor_creation() {
    let limits = ExecutionLimits::default();
    let monitor = ResourceMonitor::new(limits);
    assert!(monitor.check_limits().is_ok());
}

#[test]
fn test_memory_limit_check() {
    let limits = ExecutionLimits::default();
    let mut monitor = ResourceMonitor::new(limits);
    
    // Should be ok initially
    assert!(monitor.check_limits().is_ok());
    
    // Exceed memory limit
    monitor.update_memory_usage(17 * 1024 * 1024); // > 16MB
    assert!(matches!(monitor.check_limits(), Err(LimitError::MemoryLimit { .. })));
}

#[test]
fn test_file_handle_tracking() {
    let limits = ExecutionLimits::default();
    let mut monitor = ResourceMonitor::new(limits);
    
    // Add file handles up to limit
    for _ in 0..10 {
        assert!(monitor.add_file_handle().is_ok());
    }
    
    // Adding one more should fail
    assert!(matches!(monitor.add_file_handle(), Err(LimitError::FileHandleLimit { .. })));
    
    // Remove one and try again
    monitor.remove_file_handle();
    assert!(monitor.add_file_handle().is_ok());
}

#[test]
fn test_remaining_time() {
    let limits = ExecutionLimits::default();
    let monitor = ResourceMonitor::new(limits.clone());
    
    let remaining = monitor.remaining_time();
    assert!(remaining <= limits.max_time);
    assert!(remaining > TimeSpan::from_millis(90)); // Should be close to full time
}

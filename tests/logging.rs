//! Tests of log levels and logging configurations.

use std::str::FromStr;
use quantaterm::logging::{ci_config, dev_config, modules, prod_config, LogLevel, LoggingConfig};


#[test]
fn test_log_level_parsing() {
    assert_eq!(LogLevel::from_str("trace").unwrap(), LogLevel::Trace);
    assert_eq!(LogLevel::from_str("DEBUG").unwrap(), LogLevel::Debug);
    assert_eq!(LogLevel::from_str("Info").unwrap(), LogLevel::Info);
    assert_eq!(LogLevel::from_str("warn").unwrap(), LogLevel::Warn);
    assert_eq!(LogLevel::from_str("warning").unwrap(), LogLevel::Warn);
    assert_eq!(LogLevel::from_str("error").unwrap(), LogLevel::Error);
    assert_eq!(LogLevel::from_str("off").unwrap(), LogLevel::Off);
    assert_eq!(LogLevel::from_str("none").unwrap(), LogLevel::Off);
    
    assert!(LogLevel::from_str("invalid").is_err());
}

#[test]
fn test_log_level_display() {
    assert_eq!(LogLevel::Trace.to_string(), "trace");
    assert_eq!(LogLevel::Debug.to_string(), "debug");
    assert_eq!(LogLevel::Info.to_string(), "info");
    assert_eq!(LogLevel::Warn.to_string(), "warn");
    assert_eq!(LogLevel::Error.to_string(), "error");
    assert_eq!(LogLevel::Off.to_string(), "off");
}

#[test]
fn logging_test_default_config() {
    let config = LoggingConfig::default();
    assert_eq!(config.global_level, LogLevel::Info);
    assert!(config.include_timestamps);
    assert!(config.include_severity);
    assert!(config.include_subsystem);
    assert!(!config.json_format);
    assert!(config.use_colors);
    assert!(config.module_levels.is_empty());
}

#[test]
fn test_dev_config() {
    let config = dev_config();
    assert_eq!(config.global_level, LogLevel::Debug);
    assert!(!config.json_format);
    assert!(config.use_colors);
    assert_eq!(config.module_levels.get(modules::RENDERER), Some(&LogLevel::Debug));
    assert_eq!(config.module_levels.get(modules::PTY), Some(&LogLevel::Debug));
}

#[test]
fn test_prod_config() {
    let config = prod_config();
    assert_eq!(config.global_level, LogLevel::Info);
    assert!(config.json_format);
    assert!(!config.use_colors);
    assert_eq!(config.module_levels.get(modules::RENDERER), Some(&LogLevel::Warn));
}

#[test]
fn test_ci_config() {
    let config = ci_config();
    assert_eq!(config.global_level, LogLevel::Info);
    assert!(config.json_format);
    assert!(!config.use_colors);
    assert!(config.include_timestamps);
    assert_eq!(config.module_levels.get(modules::CORE), Some(&LogLevel::Debug));
}

#[test]
fn test_logging_configurations() {
    let dev_config = dev_config();
    assert_eq!(dev_config.global_level, LogLevel::Debug);
    assert!(!dev_config.json_format);
    assert!(dev_config.use_colors);

    let prod_config = prod_config();
    assert_eq!(prod_config.global_level, LogLevel::Info);
    assert!(prod_config.json_format);
    assert!(!prod_config.use_colors);

    let ci_config = ci_config();
    assert_eq!(ci_config.global_level, LogLevel::Info);
    assert!(ci_config.json_format);
    assert!(!ci_config.use_colors);
    assert!(ci_config.include_timestamps);
}

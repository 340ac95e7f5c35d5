//! Tests of capabilities and the host context.

use quantaterm::capability::{Capability, CapabilitySet, HostContext, PathPattern, PluginMetadata};
use quantaterm::limits::ExecutionLimits;


fn create_test_metadata() -> PluginMetadata {
    PluginMetadata {
        name: "test_plugin".to_string(),
        version: "1.0.0".to_string(),
        description: "Test plugin".to_string(),
        author: Some("Test Author".to_string()),
        license: Some("MIT".to_string()),
        homepage: None,
    }
}

#[test]
fn test_host_context_creation() {
    let capabilities = CapabilitySet::new("test".to_string());
    let limits = ExecutionLimits::default();
    let metadata = create_test_metadata();
    
    let context = HostContext::new("test".to_string(), capabilities, &limits, metadata);
    
    assert_eq!(context.memory_limit, limits.max_memory);
    assert_eq!(context.time_limit, limits.max_time);
    assert_eq!(context.plugin_metadata.name, "test_plugin");
}

#[test]
fn test_capability_set_creation() {
    let caps = CapabilitySet::new("test".to_string());
    assert_eq!(caps.plugin_id(), "test");
    assert!(caps.capabilities().is_empty());
}

#[test]
fn test_capability_parsing() {
    let capability = CapabilitySet::parse_capability_string("block.read");
    assert!(matches!(capability, Some(Capability::BlockRead)));
    
    let capability = CapabilitySet::parse_capability_string("fs.read:/tmp");
    assert!(matches!(capability, Some(Capability::FileSystemRead(_))));
    
    let capability = CapabilitySet::parse_capability_string("unknown");
    assert!(capability.is_none());
}

#[test]
fn test_file_access_check() {
    let mut caps = CapabilitySet::new("test".to_string());
    caps.add_capability(Capability::FileSystemRead(PathPattern {
        base: "/tmp".to_string(),
        recursive: true,
        extensions: vec![],
    }));
    
    // Should allow access to /tmp files
    let tmp_file = "/tmp/test.txt";
    assert!(caps.check_file_access(tmp_file, false).is_ok());
    
    // Should deny access to other directories
    let home_file = "/home/user/test.txt";
    assert!(caps.check_file_access(home_file, false).is_err());
    
    // Should deny write access (only read granted)
    assert!(caps.check_file_access(tmp_file, true).is_err());
}

#[test]
fn test_path_pattern_matching() {
    let pattern = PathPattern {
        base: "/tmp".to_string(),
        recursive: true,
        extensions: vec!["txt".to_string()],
    };
    
    assert!(CapabilitySet::path_matches_pattern("/tmp/test.txt", &pattern));
    assert!(CapabilitySet::path_matches_pattern("/tmp/subdir/test.txt", &pattern));
    assert!(!CapabilitySet::path_matches_pattern("/home/test.txt", &pattern));
    
    assert!(pattern.allows_extension("txt"));
    assert!(!pattern.allows_extension("exe"));
}

#[test]
fn test_environment_variables() {
    let capabilities = CapabilitySet::new("test".to_string());
    let limits = ExecutionLimits::default();
    let metadata = create_test_metadata();
    
    let mut context = HostContext::new("test".to_string(), capabilities, &limits, metadata);
    context.add_environment_variable("TEST_VAR".to_string(), "test_value".to_string());
    
    let env_vars = context.environment_variables();
    assert!(env_vars.iter().any(|(k, v)| k == "TEST_VAR" && v == "test_value"));
    assert!(env_vars.iter().any(|(k, v)| k == "PLUGIN_ID" && v == "test"));
}

#[test]
fn non_recursive_pattern_matches_parent_directory() {
    let pattern = PathPattern::new("/tmp".to_string(), false, vec![]);
    assert!(CapabilitySet::path_matches_pattern("/tmp/a.txt", &pattern));
    assert!(!CapabilitySet::path_matches_pattern("/tmp/sub/a.txt", &pattern));
}

#[test]
fn denial_names_plugin_kind_and_path() {
    let caps = CapabilitySet::new("demo".to_string());
    let err = caps.check_file_access("/etc/passwd", true).unwrap_err();
    assert_eq!(err, "Plugin demo does not have write access to path: /etc/passwd");
}

#[test]
fn capabilities_are_held_once_and_removed() {
    let mut caps = CapabilitySet::new("p".to_string());
    caps.add_capability(Capability::BlockRead);
    caps.add_capability(Capability::BlockRead);
    assert_eq!(caps.capabilities().len(), 1);
    assert!(caps.has_capability(&Capability::BlockRead));
    caps.remove_capability(&Capability::BlockRead);
    assert!(!caps.has_capability(&Capability::BlockRead));
    let parsed = CapabilitySet::from_capability_strings(
        "p".to_string(),
        &vec!["net.fetch:example.com".to_string(), "bogus".to_string(), "fs.write:/var".to_string()],
    );
    assert_eq!(parsed.capabilities().len(), 2);
    assert!(matches!(CapabilitySet::parse_capability_string("net.fetch:example.com"),
        Some(Capability::NetworkFetch(ref u)) if u.host == "example.com" && u.matches("https://example.com/x")));
}

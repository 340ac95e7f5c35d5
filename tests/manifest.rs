//! Tests of plugin manifests and their validation.

use quantaterm::manifest::{ManifestError, ManifestLoader, PluginManifest};


fn create_test_manifest() -> PluginManifest {
    PluginManifest {
        name: "test_plugin".to_string(),
        version: "1.0.0".to_string(),
        description: "A test plugin".to_string(),
        entry_point: "plugin.wasm".to_string(),
        capabilities: vec!["block.read".to_string(), "fs.read:/tmp".to_string()],
        quantaterm_version: "0.1.0".to_string(),
        author: Some("Test Author".to_string()),
        license: Some("MIT".to_string()),
        homepage: None,
        repository: None,
        keywords: Some(vec!["test".to_string(), "example".to_string()]),
        config_schema: None,
    }
}

#[test]
fn test_manifest_creation() {
    let manifest = create_test_manifest();
    assert_eq!(manifest.name, "test_plugin");
    assert_eq!(manifest.version, "1.0.0");
    assert!(manifest.has_capability("block.read"));
    assert!(!manifest.has_capability("unknown"));
}

#[test]
fn test_minimal_manifest() {
    let manifest = PluginManifest::minimal("test", "test.wasm");
    assert_eq!(manifest.name, "test");
    assert_eq!(manifest.entry_point, "test.wasm");
    assert!(manifest.capabilities.is_empty());
}

#[test]
fn test_manifest_loader_creation() {
    let loader = ManifestLoader::new();
    assert!(!loader.current_quantaterm_version.is_empty());
    assert!(!loader.allowed_capabilities.is_empty());
}

#[test]
fn test_manifest_validation_success() {
    let loader = ManifestLoader::new();
    let manifest = create_test_manifest();
    
    assert!(loader.validate_manifest(&manifest).is_ok());
}

#[test]
fn test_invalid_plugin_name() {
    let loader = ManifestLoader::new();
    let mut manifest = create_test_manifest();
    
    manifest.name = "".to_string();
    assert!(matches!(loader.validate_manifest(&manifest), Err(ManifestError::MissingField(_))));
    
    manifest.name = "-invalid".to_string();
    assert!(matches!(loader.validate_manifest(&manifest), Err(ManifestError::InvalidName(_))));
    
    manifest.name = "invalid-".to_string();
    assert!(matches!(loader.validate_manifest(&manifest), Err(ManifestError::InvalidName(_))));
}

#[test]
fn test_invalid_version() {
    let loader = ManifestLoader::new();
    let mut manifest = create_test_manifest();
    
    manifest.version = "".to_string();
    assert!(matches!(loader.validate_manifest(&manifest), Err(ManifestError::MissingField(_))));
    
    manifest.version = "invalid".to_string();
    assert!(matches!(loader.validate_manifest(&manifest), Err(ManifestError::InvalidVersion(_))));
    
    manifest.version = "1.2.3.4".to_string();
    assert!(matches!(loader.validate_manifest(&manifest), Err(ManifestError::InvalidVersion(_))));
}

#[test]
fn test_invalid_entry_point() {
    let loader = ManifestLoader::new();
    let mut manifest = create_test_manifest();
    
    manifest.entry_point = "".to_string();
    assert!(matches!(loader.validate_manifest(&manifest), Err(ManifestError::MissingField(_))));
    
    manifest.entry_point = "plugin.exe".to_string();
    assert!(matches!(loader.validate_manifest(&manifest), Err(ManifestError::InvalidEntryPoint(_))));
}

#[test]
fn test_unknown_capability() {
    let loader = ManifestLoader::new();
    let mut manifest = create_test_manifest();
    
    manifest.capabilities = vec!["unknown.capability".to_string()];
    assert!(matches!(loader.validate_manifest(&manifest), Err(ManifestError::UnknownCapability(_))));
}

#[test]
fn test_plugin_name_validation() {
    assert!(ManifestLoader::is_valid_plugin_name("valid_name"));
    assert!(ManifestLoader::is_valid_plugin_name("valid-name"));
    assert!(ManifestLoader::is_valid_plugin_name("ValidName123"));
    
    assert!(!ManifestLoader::is_valid_plugin_name(""));
    assert!(!ManifestLoader::is_valid_plugin_name("-invalid"));
    assert!(!ManifestLoader::is_valid_plugin_name("invalid-"));
    assert!(!ManifestLoader::is_valid_plugin_name("invalid name"));
}

#[test]
fn test_version_validation() {
    assert!(ManifestLoader::is_valid_version("1.0"));
    assert!(ManifestLoader::is_valid_version("1.0.0"));
    assert!(ManifestLoader::is_valid_version("2.1.5"));
    
    assert!(!ManifestLoader::is_valid_version(""));
    assert!(!ManifestLoader::is_valid_version("1"));
    assert!(!ManifestLoader::is_valid_version("1.2.3.4"));
    assert!(!ManifestLoader::is_valid_version("v1.0.0"));
    assert!(!ManifestLoader::is_valid_version("1.a.0"));
}

#[test]
fn test_display_name() {
    let manifest = create_test_manifest();
    assert_eq!(manifest.display_name(), "test_plugin v1.0.0");
}

#[test]
fn test_capability_patterns() {
    let loader = ManifestLoader::new();
    
    // Test that pattern-based capabilities are allowed
    assert!(loader.is_capability_allowed("fs.read:/tmp"));
    assert!(loader.is_capability_allowed("fs.write:/home/user"));
    assert!(loader.is_capability_allowed("net.fetch:example.com"));
    
    // Test that unknown base capabilities are not allowed
    assert!(!loader.is_capability_allowed("unknown.capability"));
    assert!(!loader.is_capability_allowed("unknown:pattern"));
}

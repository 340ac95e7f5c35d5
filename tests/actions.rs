//! Tests of the action registry.

use quantaterm::actions::{Action, ActionError, ActionRegistry};


fn create_test_action(id: &str, plugin_id: &str) -> Action {
    Action::new(
        id.to_string(),
        format!("Test Action {}", id),
        format!("Description for {}", id),
        "test".to_string(),
        plugin_id.to_string(),
    )
}

#[test]
fn test_action_registry_creation() {
    let registry = ActionRegistry::new();
    assert_eq!(registry.action_count(), 0);
    assert_eq!(registry.plugin_count(), 0);
    assert!(registry.list_actions().is_empty());
}

#[test]
fn test_action_registration() {
    let mut registry = ActionRegistry::new();
    let action = create_test_action("test.hello", "test_plugin");
    
    let result = registry.register_action(action.clone());
    assert!(result.is_ok());
    
    assert_eq!(registry.action_count(), 1);
    assert_eq!(registry.plugin_count(), 1);
    
    let retrieved = registry.get_action("test.hello");
    assert!(retrieved.is_some());
    assert_eq!(retrieved.unwrap().id, action.id);
}

#[test]
fn test_duplicate_action_registration() {
    let mut registry = ActionRegistry::new();
    let action = create_test_action("test.hello", "test_plugin");
    
    registry.register_action(action.clone()).unwrap();
    let result = registry.register_action(action);
    
    assert!(matches!(result, Err(ActionError::ActionExists(_))));
}

#[test]
fn test_action_unregistration() {
    let mut registry = ActionRegistry::new();
    let action = create_test_action("test.hello", "test_plugin");
    
    registry.register_action(action).unwrap();
    assert_eq!(registry.action_count(), 1);
    
    let result = registry.unregister_action("test.hello");
    assert!(result.is_ok());
    assert_eq!(registry.action_count(), 0);
    
    let retrieved = registry.get_action("test.hello");
    assert!(retrieved.is_none());
}

#[test]
fn test_action_search() {
    let mut registry = ActionRegistry::new();
    
    registry.register_action(create_test_action("test.hello", "test_plugin")).unwrap();
    registry.register_action(create_test_action("test.world", "test_plugin")).unwrap();
    registry.register_action(create_test_action("other.action", "other_plugin")).unwrap();
    
    let results = registry.search_actions("hello");
    assert_eq!(results.len(), 1);
    assert_eq!(results[0].id, "test.hello");
    
    let results = registry.search_actions("test");
    assert_eq!(results.len(), 3); // All have "test" in category or name
    
    let results = registry.search_actions("nonexistent");
    assert!(results.is_empty());
}

#[test]
fn test_plugin_actions() {
    let mut registry = ActionRegistry::new();
    
    registry.register_action(create_test_action("test.hello", "test_plugin")).unwrap();
    registry.register_action(create_test_action("test.world", "test_plugin")).unwrap();
    registry.register_action(create_test_action("other.action", "other_plugin")).unwrap();
    
    let test_actions = registry.get_plugin_actions("test_plugin");
    assert_eq!(test_actions.len(), 2);
    
    let other_actions = registry.get_plugin_actions("other_plugin");
    assert_eq!(other_actions.len(), 1);
    
    let nonexistent_actions = registry.get_plugin_actions("nonexistent");
    assert!(nonexistent_actions.is_empty());
}

#[test]
fn test_unregister_plugin_actions() {
    let mut registry = ActionRegistry::new();
    
    registry.register_action(create_test_action("test.hello", "test_plugin")).unwrap();
    registry.register_action(create_test_action("test.world", "test_plugin")).unwrap();
    registry.register_action(create_test_action("other.action", "other_plugin")).unwrap();
    
    assert_eq!(registry.action_count(), 3);
    assert_eq!(registry.plugin_count(), 2);
    
    let result = registry.unregister_plugin_actions("test_plugin");
    assert!(result.is_ok());
    
    assert_eq!(registry.action_count(), 1);
    assert_eq!(registry.plugin_count(), 1);
    
    let remaining_actions = registry.list_actions();
    assert_eq!(remaining_actions.len(), 1);
    assert_eq!(remaining_actions[0].id, "other.action");
}

#[test]
fn test_action_id_validation() {
    assert!(ActionRegistry::is_valid_action_id("plugin.action"));
    assert!(ActionRegistry::is_valid_action_id("my_plugin.my_action"));
    assert!(ActionRegistry::is_valid_action_id("test-plugin.test-action"));
    
    assert!(!ActionRegistry::is_valid_action_id(""));
    assert!(!ActionRegistry::is_valid_action_id("invalid"));
    assert!(!ActionRegistry::is_valid_action_id("plugin."));
    assert!(!ActionRegistry::is_valid_action_id(".action"));
    assert!(!ActionRegistry::is_valid_action_id("plugin.action.extra"));
    assert!(!ActionRegistry::is_valid_action_id("plugin with spaces.action"));
}

#[test]
fn test_action_with_shortcut_and_icon() {
    let action = Action::new(
        "test.action".to_string(),
        "Test Action".to_string(),
        "A test action".to_string(),
        "test".to_string(),
        "test_plugin".to_string(),
    )
    .with_shortcut("Ctrl+T".to_string())
    .with_icon("test-icon".to_string());
    
    assert_eq!(action.shortcut, Some("Ctrl+T".to_string()));
    assert_eq!(action.icon, Some("test-icon".to_string()));
    assert_eq!(action.display_string(), "Test Action (Ctrl+T)");
}

#[test]
fn test_actions_by_category() {
    let mut registry = ActionRegistry::new();
    
    let mut action1 = create_test_action("test.hello", "test_plugin");
    action1.category = "category1".to_string();
    
    let mut action2 = create_test_action("test.world", "test_plugin");
    action2.category = "category1".to_string();
    
    let mut action3 = create_test_action("other.action", "other_plugin");
    action3.category = "category2".to_string();
    
    registry.register_action(action1).unwrap();
    registry.register_action(action2).unwrap();
    registry.register_action(action3).unwrap();
    
    let by_category = registry.actions_by_category();
    assert_eq!(by_category.len(), 2);
    assert_eq!(by_category.get("category1").unwrap().len(), 2);
    assert_eq!(by_category.get("category2").unwrap().len(), 1);
}

#[test]
fn search_ignores_case_of_query_and_fields() {
    let mut registry = ActionRegistry::new();
    let action = Action::new(
        "git.commit".to_string(),
        "Commit Changes".to_string(),
        "Record staged work".to_string(),
        "VCS".to_string(),
        "git".to_string(),
    );
    registry.register_action(action).unwrap();
    assert_eq!(registry.search_actions("COMMIT").len(), 1);
    assert_eq!(registry.search_actions("vcs").len(), 1);
    assert_eq!(registry.search_actions("push").len(), 0);
}

#[test]
fn malformed_and_duplicate_ids_leave_registry_unchanged() {
    let mut registry = ActionRegistry::new();
    let bad = Action::new("a.b.c".to_string(), "n".to_string(), "d".to_string(), "c".to_string(), "a".to_string());
    assert!(matches!(registry.register_action(bad), Err(ActionError::InvalidActionId(ref id)) if id == "a.b.c"));
    assert_eq!(registry.action_count(), 0);
    assert!(matches!(registry.unregister_action("a.b"), Err(ActionError::ActionNotFound(ref id)) if id == "a.b"));
    let display = Action::new("a.b".to_string(), "Name".to_string(), "d".to_string(), "c".to_string(), "a".to_string());
    assert_eq!(display.display_string(), "Name");
}

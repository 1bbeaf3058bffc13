use mosaic::config::{default_blacklist, default_keybindings, default_rules, window_rule_from, MosaicConfig, RuleConfig};
use mosaic::window::RuleAction;

#[test]
fn test_default_config() {
    let config = MosaicConfig::default();
    assert_eq!(config.general.layout, "bsp");
    assert_eq!(config.gaps.inner, 8);
    assert_eq!(config.gaps.outer, 8);
}

#[test]
fn test_rule_action_parsing() {
    let default_rules = default_rules();
    assert!(default_rules.len() > 0);
    assert_eq!(default_rules[0].app_name.as_deref(), Some("Calculator"));
}

#[test]
fn default_general_settings() {
    let config = MosaicConfig::default();
    assert!(!config.general.focus_follows_mouse);
    assert!(config.general.auto_tile);
    assert_eq!(config.general.master_ratio, 500);
    assert!(!config.general.animate);
    assert_eq!(config.general.log_level, "info");
}

#[test]
fn default_rules_float_calculator_settings_and_finder_copies() {
    let rules = default_rules();
    assert_eq!(rules.len(), 3);
    assert_eq!(rules[1].app_name.as_deref(), Some("System Settings"));
    assert_eq!(rules[2].app_name.as_deref(), Some("Finder"));
    assert_eq!(rules[2].title_contains.as_deref(), Some("Copy"));
    assert!(rules.iter().all(|r| r.action == "float"));
}

#[test]
fn default_blacklist_names_system_apps() {
    let names = default_blacklist();
    assert_eq!(
        names,
        vec!["Notification Centre", "Control Centre", "Dock", "WindowManager", "SystemUIServer"]
    );
}

#[test]
fn default_keybindings_cover_focus_swap_layouts_and_spaces() {
    let binds = default_keybindings();
    assert_eq!(binds.len(), 24);
    assert_eq!(binds[0].modifiers, vec!["alt"]);
    assert_eq!(binds[0].key, "h");
    assert_eq!(binds[0].action, "focus west");
    assert_eq!(binds[4].modifiers, vec!["alt", "shift"]);
    assert_eq!(binds[4].action, "swap west");
    assert_eq!(binds[9].key, "space");
    assert_eq!(binds[9].action, "toggle float");
    assert_eq!(binds[13].key, "equal");
    assert_eq!(binds[23].action, "move-to-space 5");
}

#[test]
fn rule_actions_read_ignore_space_and_otherwise_float() {
    let mk = |action: &str| RuleConfig {
        app_name: Some("App".to_string()),
        title_contains: None,
        action: action.to_string(),
    };
    assert_eq!(window_rule_from(&mk("ignore")).action, RuleAction::Ignore);
    assert_eq!(window_rule_from(&mk("float")).action, RuleAction::Float);
    assert_eq!(window_rule_from(&mk("space:3")).action, RuleAction::AssignToSpace(3));
    assert_eq!(window_rule_from(&mk("space:+42")).action, RuleAction::AssignToSpace(42));
    assert_eq!(window_rule_from(&mk("space:18446744073709551615")).action, RuleAction::AssignToSpace(u64::MAX));
    assert_eq!(window_rule_from(&mk("space:18446744073709551616")).action, RuleAction::Float);
    assert_eq!(window_rule_from(&mk("space:")).action, RuleAction::Float);
    assert_eq!(window_rule_from(&mk("space:two")).action, RuleAction::Float);
    assert_eq!(window_rule_from(&mk("Space:3")).action, RuleAction::Float);
    let r = window_rule_from(&mk("float"));
    assert_eq!(r.app_name.as_deref(), Some("App"));
    assert_eq!(r.title_contains, None);
}

//! The tweak-mode evaluator and the should-skip rule on concrete values.

use bender::libhooker::{TweakConfig, TweakMode};

fn seeded(plugins: &[&str]) -> TweakConfig {
    let v: Vec<String> = plugins.iter().map(|s| s.to_string()).collect();
    TweakConfig::fresh(&v)
}

#[test]
fn check_truth_table() {
    assert_eq!(TweakMode::Allow.check(true), true);
    assert_eq!(TweakMode::Allow.check(false), false);
    assert_eq!(TweakMode::Deny.check(true), false);
    assert_eq!(TweakMode::Deny.check(false), true);
}

#[test]
fn disabled_tweaks_load_nothing() {
    let mut cfg = seeded(&["A.dylib", "B.dylib"]);
    cfg.enable_tweaks = false;
    assert!(!cfg.will_tweak_load("A.dylib"));
    assert!(!cfg.will_tweak_load("B.dylib"));
    assert!(!cfg.will_tweak_load("missing.dylib"));
    cfg.allow_or_deny = TweakMode::Allow;
    assert!(!cfg.will_tweak_load("A.dylib"));
}

#[test]
fn unknown_plugin_never_loads() {
    let cfg = seeded(&["A.dylib"]);
    assert!(cfg.enable_tweaks);
    assert!(!cfg.will_tweak_load("B.dylib"));
}

#[test]
fn seeded_config_loads_known_plugins() {
    let cfg = seeded(&["A.dylib", "B.dylib"]);
    assert!(cfg.will_tweak_load("A.dylib"));
    assert!(cfg.will_tweak_load("B.dylib"));
}

#[test]
fn should_skip_empty() {
    let cfg = seeded(&[]);
    assert!(cfg.should_skip());
}

#[test]
fn should_skip_when_everything_loads() {
    // deny-mode, every flag false: all entries evaluate to "loads"
    let cfg = seeded(&["A.dylib", "B.dylib"]);
    assert_eq!(cfg.allow_or_deny, TweakMode::Deny);
    assert!(cfg.should_skip());
}

#[test]
fn should_not_skip_with_denied_entry() {
    let mut cfg = seeded(&[]);
    cfg.tweak_configs.insert("A.dylib".to_string(), true);
    assert_eq!(cfg.allow_or_deny, TweakMode::Deny);
    assert!(!cfg.should_skip());
}

#[test]
fn allow_mode_flag_decides() {
    let mut cfg = seeded(&[]);
    cfg.allow_or_deny = TweakMode::Allow;
    cfg.tweak_configs.insert("A.dylib".to_string(), true);
    cfg.tweak_configs.insert("B.dylib".to_string(), false);
    assert!(cfg.will_tweak_load("A.dylib"));
    assert!(!cfg.will_tweak_load("B.dylib"));
    // under allow-mode an all-true map also skips
    let mut all_on = seeded(&[]);
    all_on.allow_or_deny = TweakMode::Allow;
    all_on.tweak_configs.insert("A.dylib".to_string(), true);
    assert!(all_on.should_skip());
}

#[test]
fn fresh_config_defaults() {
    let cfg = seeded(&["A.dylib"]);
    assert!(!cfg.custom_config);
    assert!(cfg.enable_tweaks);
    assert_eq!(cfg.allow_or_deny, TweakMode::Deny);
    assert_eq!(cfg.tweak_configs.len(), 1);
    assert_eq!(cfg.tweak_configs.get("A.dylib"), Some(&false));
}

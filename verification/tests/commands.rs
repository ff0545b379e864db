//! The configure and compat command cores, the change-batch resolution, the
//! view selection, and the yes/no parser.

use bender::cmd::compat::compat;
use bender::cmd::config::{configure, resolve_changes};
use bender::cmd::parse_yes_no;
use bender::cmd::view::targets_to_view;
use bender::libhooker::{
    compat_mode_of, LibhookerConfig, Target, TweakMode, COMPAT_LIBHOOKER, COMPAT_SUBSTRATE,
};
use bender::smap::SMap;

fn plugins(names: &[&str]) -> Vec<String> {
    names.iter().map(|s| s.to_string()).collect()
}

#[test]
fn parse_yes_no_accepts_both_polarities() {
    assert_eq!(parse_yes_no("true"), Ok(true));
    assert_eq!(parse_yes_no("YES"), Ok(true));
    assert_eq!(parse_yes_no(" y "), Ok(true));
    assert_eq!(parse_yes_no("On"), Ok(true));
    assert_eq!(parse_yes_no("false"), Ok(false));
    assert_eq!(parse_yes_no("No"), Ok(false));
    assert_eq!(parse_yes_no("n"), Ok(false));
    assert_eq!(parse_yes_no("OFF"), Ok(false));
}

#[test]
fn parse_yes_no_rejects_everything_else() {
    assert!(parse_yes_no("maybe").is_err());
    assert!(parse_yes_no("").is_err());
    assert!(parse_yes_no("yess").is_err());
}

#[test]
fn resolve_changes_add_and_remove() {
    let p = plugins(&["Foo.dylib", "Bar.dylib"]);
    let add = vec!["foo".to_string()];
    let remove = vec!["bar".to_string()];
    let m = resolve_changes(&add, &remove, &p).unwrap();
    assert_eq!(m.get("Foo.dylib"), Some(&true));
    assert_eq!(m.get("Bar.dylib"), Some(&false));
}

#[test]
fn resolve_changes_remove_wins() {
    let p = plugins(&["Foo.dylib"]);
    let add = vec!["Foo".to_string()];
    let remove = vec!["foo.dylib".to_string()];
    let m = resolve_changes(&add, &remove, &p).unwrap();
    assert_eq!(m.get("Foo.dylib"), Some(&false));
}

#[test]
fn resolve_changes_all_expands() {
    let p = plugins(&["Foo.dylib", "Bar.dylib"]);
    let add = vec!["all".to_string()];
    let remove: Vec<String> = Vec::new();
    let m = resolve_changes(&add, &remove, &p).unwrap();
    assert_eq!(m.len(), 2);
    assert_eq!(m.get("Foo.dylib"), Some(&true));
    assert_eq!(m.get("Bar.dylib"), Some(&true));
}

#[test]
fn resolve_changes_unknown_name_fails() {
    let p = plugins(&["Foo.dylib"]);
    let add = vec!["quux".to_string()];
    let remove: Vec<String> = Vec::new();
    match resolve_changes(&add, &remove, &p) {
        Err(name) => assert_eq!(name, "quux"),
        Ok(_) => panic!("expected an unresolvable name"),
    }
}

#[test]
fn configure_denies_added_plugin() {
    // the seeded default loads X; adding X under deny-mode turns it off
    let p = plugins(&["X.dylib"]);
    let mut cfg = LibhookerConfig::fresh(&p);
    assert!(cfg.tweak_configs.default.will_tweak_load("X.dylib"));
    let add = vec!["X".to_string()];
    let remove: Vec<String> = Vec::new();
    let changes = resolve_changes(&add, &remove, &p).unwrap();
    configure(&mut cfg, &Target::Default, None, None, TweakMode::Deny, &changes, &p);
    assert!(!cfg.tweak_configs.default.will_tweak_load("X.dylib"));
    assert_eq!(cfg.tweak_configs.default.allow_or_deny, TweakMode::Deny);
}

#[test]
fn configure_creates_and_updates_a_path_slot() {
    let p = plugins(&["X.dylib"]);
    let mut cfg = LibhookerConfig::fresh(&p);
    let target = Target::Executable("/usr/sbin/notifyd".to_string());
    let changes = SMap::new();
    configure(
        &mut cfg,
        &target,
        Some(true),
        Some(false),
        TweakMode::Allow,
        &changes,
        &p,
    );
    let slot = target.get_config(&cfg.tweak_configs, &p);
    assert!(slot.custom_config);
    assert!(!slot.enable_tweaks);
    assert_eq!(slot.allow_or_deny, TweakMode::Allow);
    assert_eq!(slot.tweak_configs.get("X.dylib"), Some(&false));
    // the web switch and the compat overrides are untouched
    assert!(cfg.web_process_tweaks);
    assert_eq!(cfg.memory_compat_prefs.len(), 0);
    // a second configure keeps the unspecified switches
    let changes = SMap::new();
    configure(&mut cfg, &target, None, None, TweakMode::Deny, &changes, &p);
    let slot = target.get_config(&cfg.tweak_configs, &p);
    assert!(slot.custom_config);
    assert!(!slot.enable_tweaks);
    assert_eq!(slot.allow_or_deny, TweakMode::Deny);
}

#[test]
fn get_tweak_mode_defaults_to_deny() {
    let p = plugins(&[]);
    let cfg = LibhookerConfig::fresh(&p);
    let t = Target::Executable("/bin/echo".to_string());
    assert_eq!(t.get_tweak_mode(&cfg.tweak_configs), TweakMode::Deny);
}

#[test]
fn compat_substrate_persists_and_native_prunes() {
    let p = plugins(&["Foo.dylib"]);
    let mut cfg = LibhookerConfig::fresh(&p);
    // --substrate Foo: the entry differs from the default and persists
    let mut changes: SMap<bool> = SMap::new();
    changes.insert("Foo.dylib".to_string(), COMPAT_SUBSTRATE);
    compat(&mut cfg, &changes);
    assert_eq!(cfg.memory_compat_prefs.get("Foo.dylib"), Some(&COMPAT_SUBSTRATE));
    assert_eq!(compat_mode_of(&cfg, "Foo.dylib"), COMPAT_SUBSTRATE);
    // --libhooker Foo: back to the default, pruned from storage entirely
    let mut changes: SMap<bool> = SMap::new();
    changes.insert("Foo.dylib".to_string(), COMPAT_LIBHOOKER);
    compat(&mut cfg, &changes);
    assert_eq!(cfg.memory_compat_prefs.get("Foo.dylib"), None);
    assert_eq!(cfg.memory_compat_prefs.len(), 0);
    assert_eq!(compat_mode_of(&cfg, "Foo.dylib"), COMPAT_LIBHOOKER);
}

#[test]
fn compat_pruning_keeps_every_lookup() {
    // an entry holding the default answers lookups exactly as its absence
    let p = plugins(&[]);
    let mut cfg = LibhookerConfig::fresh(&p);
    cfg.memory_compat_prefs.insert("A.dylib".to_string(), false);
    cfg.memory_compat_prefs.insert("B.dylib".to_string(), true);
    let before_a = compat_mode_of(&cfg, "A.dylib");
    let before_b = compat_mode_of(&cfg, "B.dylib");
    let before_c = compat_mode_of(&cfg, "C.dylib");
    let changes: SMap<bool> = SMap::new();
    compat(&mut cfg, &changes);
    assert_eq!(compat_mode_of(&cfg, "A.dylib"), before_a);
    assert_eq!(compat_mode_of(&cfg, "B.dylib"), before_b);
    assert_eq!(compat_mode_of(&cfg, "C.dylib"), before_c);
    // only the non-default entry is still stored
    assert_eq!(cfg.memory_compat_prefs.len(), 1);
    assert_eq!(cfg.memory_compat_prefs.get("A.dylib"), Some(&false));
    assert_eq!(cfg.memory_compat_prefs.get("B.dylib"), None);
}

#[test]
fn view_lists_only_configurations_worth_persisting() {
    let p = plugins(&["X.dylib"]);
    let mut cfg = LibhookerConfig::fresh(&p);
    // the seeded default is skippable and not shown
    assert_eq!(targets_to_view(&cfg.tweak_configs).len(), 0);
    // a path slot denying X is worth showing
    let shown = Target::Executable("/usr/sbin/notifyd".to_string());
    let add = vec!["X".to_string()];
    let remove: Vec<String> = Vec::new();
    let changes = resolve_changes(&add, &remove, &p).unwrap();
    configure(&mut cfg, &shown, None, None, TweakMode::Deny, &changes, &p);
    // a bundle slot that stays equivalent to the default is not
    let hidden = Target::App("com.example.quiet".to_string());
    let none = SMap::new();
    configure(&mut cfg, &hidden, None, None, TweakMode::Deny, &none, &p);
    let targets = targets_to_view(&cfg.tweak_configs);
    assert_eq!(targets.len(), 1);
    match &targets[0] {
        Target::Executable(path) => assert_eq!(path, "/usr/sbin/notifyd"),
        other => panic!("{:?}", other),
    }
}

#[test]
fn round_trip_of_minimized_tree_keeps_behaviour() {
    // what the persisted (minimized) form stores reproduces every will-load
    // answer: the skippable default is omitted, and reloading substitutes a
    // seeded default that answers identically
    let p = plugins(&["X.dylib", "Y.dylib"]);
    let cfg = LibhookerConfig::fresh(&p);
    assert!(cfg.tweak_configs.default.should_skip());
    let reloaded = LibhookerConfig::fresh(&p);
    for name in ["X.dylib", "Y.dylib", "Z.dylib"] {
        assert_eq!(
            cfg.tweak_configs.default.will_tweak_load(name),
            reloaded.tweak_configs.default.will_tweak_load(name)
        );
    }
}

//! Plugin-name, app-name and target resolution on fixture snapshots.

use bender::apps::{fix_app_name, get_friendly_app_name, App};
use bender::libhooker::Target;
use bender::tweaks::{display_tweak_name, fix_tweak_name};

fn plugins(names: &[&str]) -> Vec<String> {
    names.iter().map(|s| s.to_string()).collect()
}

fn apps() -> Vec<App> {
    vec![
        App { identifier: "com.apple.mobilesafari".to_string(), name: "Safari".to_string() },
        App { identifier: "com.google.Maps".to_string(), name: "Google Maps".to_string() },
    ]
}

#[test]
fn tweak_name_idempotent_on_canonical() {
    let p = plugins(&["Foo.dylib", "Bar.dylib"]);
    assert_eq!(fix_tweak_name("Foo.dylib", &p), Some("Foo.dylib".to_string()));
    assert_eq!(fix_tweak_name("Bar.dylib", &p), Some("Bar.dylib".to_string()));
}

#[test]
fn tweak_name_case_and_extension_insensitive() {
    let p = plugins(&["Foo.dylib"]);
    assert_eq!(fix_tweak_name("foo", &p), Some("Foo.dylib".to_string()));
    assert_eq!(fix_tweak_name("FOO", &p), Some("Foo.dylib".to_string()));
    assert_eq!(fix_tweak_name("foo.dylib", &p), Some("Foo.dylib".to_string()));
    assert_eq!(fix_tweak_name("Foo", &p), Some("Foo.dylib".to_string()));
}

#[test]
fn tweak_name_missing_extension_added() {
    let p = plugins(&["Foo.dylib"]);
    // rule two: the exact stem with the extension appended is a known name
    assert_eq!(fix_tweak_name("Foo", &p), Some("Foo.dylib".to_string()));
}

#[test]
fn tweak_name_absent_is_none() {
    let p = plugins(&["Foo.dylib"]);
    assert_eq!(fix_tweak_name("Quux", &p), None);
    assert_eq!(fix_tweak_name("", &plugins(&[])), None);
}

#[test]
fn tweak_name_exact_wins_over_fuzzy() {
    // an exact name is taken as typed even when a fuzzy rule would pick another
    let p = plugins(&["foo.dylib", "Foo.dylib"]);
    assert_eq!(fix_tweak_name("foo.dylib", &p), Some("foo.dylib".to_string()));
    // the case-insensitive rule picks the first listed match
    assert_eq!(fix_tweak_name("FOO", &p), Some("foo.dylib".to_string()));
}

#[test]
fn app_name_by_identifier_and_display_name() {
    let a = apps();
    assert_eq!(
        fix_app_name("com.apple.mobilesafari", &a),
        Some("com.apple.mobilesafari".to_string())
    );
    assert_eq!(fix_app_name("safari", &a), Some("com.apple.mobilesafari".to_string()));
    assert_eq!(fix_app_name(" SAFARI ", &a), Some("com.apple.mobilesafari".to_string()));
    assert_eq!(fix_app_name("googlemaps", &a), Some("com.google.Maps".to_string()));
    assert_eq!(fix_app_name("google maps", &a), Some("com.google.Maps".to_string()));
    assert_eq!(fix_app_name("netflix", &a), None);
}

#[test]
fn friendly_app_name_of_known_identifier() {
    let a = apps();
    assert_eq!(get_friendly_app_name("com.google.Maps", &a), "Google Maps".to_string());
}

#[test]
fn display_name_strips_extension() {
    assert_eq!(display_tweak_name("Foo.dylib"), "Foo".to_string());
    assert_eq!(display_tweak_name("Foo"), "Foo".to_string());
    assert_eq!(display_tweak_name("Foo.plist"), "Foo.plist".to_string());
}

#[test]
fn target_keywords() {
    let a = apps();
    let d: Vec<String> = Vec::new();
    match Target::resolve("default", &a, &d, false) {
        Some(Target::Default) => {},
        other => panic!("{:?}", other),
    }
    match Target::resolve("  SpringBoard ", &a, &d, false) {
        Some(Target::Executable(p)) => {
            assert_eq!(p, "/System/Library/CoreServices/SpringBoard.app/SpringBoard");
        },
        other => panic!("{:?}", other),
    }
}

#[test]
fn target_absolute_file_path() {
    let a = apps();
    let d: Vec<String> = Vec::new();
    match Target::resolve(" /usr/libexec/thingd ", &a, &d, true) {
        Some(Target::Executable(p)) => assert_eq!(p, "/usr/libexec/thingd"),
        other => panic!("{:?}", other),
    }
    // the same path, not an existing file, resolves no further here
    assert!(Target::resolve("/usr/libexec/thingd", &a, &d, false).is_none());
}

#[test]
fn target_absolute_path_wins_over_app_and_daemon() {
    // an app and a daemon both answer to the same text; the existing file wins
    let a = vec![App {
        identifier: "com.example.thingd".to_string(),
        name: "/usr/libexec/thingd".to_string(),
    }];
    let d = vec!["/usr/libexec/thingd".to_string()];
    match Target::resolve("/usr/libexec/thingd", &a, &d, true) {
        Some(Target::Executable(p)) => assert_eq!(p, "/usr/libexec/thingd"),
        other => panic!("{:?}", other),
    }
}

#[test]
fn target_app_resolution() {
    let a = apps();
    let d: Vec<String> = Vec::new();
    match Target::resolve("Safari", &a, &d, false) {
        Some(Target::App(id)) => assert_eq!(id, "com.apple.mobilesafari"),
        other => panic!("{:?}", other),
    }
}

#[test]
fn target_daemon_by_file_name_and_exact_path() {
    let a = apps();
    let d = vec!["/usr/libexec/lockdownd".to_string(), "/usr/sbin/notifyd".to_string()];
    match Target::resolve("NOTIFYD", &a, &d, false) {
        Some(Target::Executable(p)) => assert_eq!(p, "/usr/sbin/notifyd"),
        other => panic!("{:?}", other),
    }
    match Target::resolve("/usr/libexec/lockdownd", &a, &d, false) {
        Some(Target::Executable(p)) => assert_eq!(p, "/usr/libexec/lockdownd"),
        other => panic!("{:?}", other),
    }
}

#[test]
fn target_apps_win_over_daemons() {
    let a = vec![App { identifier: "com.example.syncer".to_string(), name: "syncd".to_string() }];
    let d = vec!["/usr/libexec/syncd".to_string()];
    match Target::resolve("syncd", &a, &d, false) {
        Some(Target::App(id)) => assert_eq!(id, "com.example.syncer"),
        other => panic!("{:?}", other),
    }
}

#[test]
fn target_unresolvable() {
    let a = apps();
    let d = vec!["/usr/sbin/notifyd".to_string()];
    assert!(Target::resolve("no such thing", &a, &d, false).is_none());
}

#[test]
fn target_display_names() {
    let a = apps();
    let t = Target::Executable("/usr/sbin/notifyd".to_string());
    assert_eq!(t.display_name(&a), "notifyd".to_string());
    let t = Target::App("com.apple.mobilesafari".to_string());
    assert_eq!(t.display_name(&a), "Safari".to_string());
    assert_eq!(Target::Default.display_name(&a), "libhooker defaults".to_string());
}

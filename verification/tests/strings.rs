//! The string utilities and the sorted map.

use bender::daemons::parse_program_path;
use bender::smap::SMap;
use bender::strutil::{file_name_of, fold_chars, stem_of, str_cmp, trim_ascii};

#[test]
fn trim_removes_ascii_whitespace() {
    assert_eq!(trim_ascii("  hello\t\n"), "hello");
    assert_eq!(trim_ascii("hello"), "hello");
    assert_eq!(trim_ascii("   "), "");
    assert_eq!(trim_ascii(""), "");
}

#[test]
fn fold_lowers_and_trims() {
    let f: String = fold_chars(" FooBar ").into_iter().collect();
    assert_eq!(f, "foobar");
    let f: String = fold_chars("already").into_iter().collect();
    assert_eq!(f, "already");
}

#[test]
fn cmp_orders_lexicographically() {
    assert!(str_cmp("a", "b") < 0);
    assert!(str_cmp("b", "a") > 0);
    assert_eq!(str_cmp("same", "same"), 0);
    assert!(str_cmp("ab", "abc") < 0);
    assert!(str_cmp("abc", "ab") > 0);
    assert!(str_cmp("", "a") < 0);
}

#[test]
fn file_name_takes_last_component() {
    assert_eq!(file_name_of("/usr/sbin/notifyd"), "notifyd");
    assert_eq!(file_name_of("notifyd"), "notifyd");
    assert_eq!(file_name_of("/usr/sbin/"), "");
}

#[test]
fn stem_strips_last_extension() {
    assert_eq!(stem_of("Foo.dylib"), "Foo");
    assert_eq!(stem_of("Foo.bar.dylib"), "Foo.bar");
    assert_eq!(stem_of("Foo"), "Foo");
    assert_eq!(stem_of(".hidden"), ".hidden");
}

#[test]
fn program_path_from_service_dump() {
    let dump = "com.example.thingd = {\n\tpid = 121\n\tprogram = /usr/libexec/thingd\n}\n";
    assert_eq!(parse_program_path(dump), Some("/usr/libexec/thingd".to_string()));
    // the first matching line wins
    let two = "  program = /bin/first\nprogram = /bin/second\n";
    assert_eq!(parse_program_path(two), Some("/bin/first".to_string()));
    assert_eq!(parse_program_path("pid = 121\n"), None);
    assert_eq!(parse_program_path(""), None);
}

#[test]
fn smap_keeps_keys_sorted_and_unique() {
    let mut m: SMap<bool> = SMap::new();
    m.insert("b".to_string(), true);
    m.insert("a".to_string(), true);
    m.insert("c".to_string(), true);
    m.insert("a".to_string(), false);
    assert_eq!(m.len(), 3);
    assert_eq!(m.key_at(0).as_str(), "a");
    assert_eq!(m.key_at(1).as_str(), "b");
    assert_eq!(m.key_at(2).as_str(), "c");
    assert_eq!(m.get("a"), Some(&false));
    assert_eq!(m.get("b"), Some(&true));
    assert_eq!(m.get("d"), None);
    assert!(!m.is_empty());
}

#[test]
fn smap_extend_overwrites() {
    let mut m: SMap<bool> = SMap::new();
    m.insert("a".to_string(), true);
    m.insert("b".to_string(), true);
    let mut ch: SMap<bool> = SMap::new();
    ch.insert("b".to_string(), false);
    ch.insert("c".to_string(), false);
    m.extend(&ch);
    assert_eq!(m.len(), 3);
    assert_eq!(m.get("a"), Some(&true));
    assert_eq!(m.get("b"), Some(&false));
    assert_eq!(m.get("c"), Some(&false));
}

use skyline_update::paths::{
    append_suffix, archive_suffix, ends_with, is_absolute, join_path, relative_to_root,
    strip_suffix,
};
use skyline_update::protocol::{u64_from_be_bytes, u64_to_be_bytes};
use skyline_update::version::{parse_version, Version};
use skyline_update::watcher::{event_triggers_rebuild, WatchEvent};

fn ver(major: u64, minor: u64, patch: u64, pre: &str) -> Version {
    Version { major, minor, patch, pre: pre.to_string() }
}

#[test]
fn version_strings_parse_to_their_parts() {
    assert_eq!(parse_version("1.0.0"), Some(ver(1, 0, 0, "")));
    assert_eq!(parse_version("0.9.0"), Some(ver(0, 9, 0, "")));
    assert_eq!(parse_version("12.34.56"), Some(ver(12, 34, 56, "")));
    assert_eq!(parse_version("1.0.0-alpha.1"), Some(ver(1, 0, 0, "alpha.1")));
    assert_eq!(parse_version("1.0.0-rc.1+build.5"), Some(ver(1, 0, 0, "rc.1")));
    assert_eq!(parse_version(""), None);
    assert_eq!(parse_version("1.0"), None);
    assert_eq!(parse_version("one.two.three"), None);
}

#[test]
fn version_order_is_lexicographic_on_the_triple() {
    let a = ver(1, 2, 3, "");
    let b = ver(1, 3, 0, "");
    assert!(a.lt(&b));
    assert!(!b.lt(&a));
    assert!(a.le(&a));
    assert!(Version::zero().lt(&a));
}

#[test]
fn prerelease_precedence_follows_the_published_chain() {
    let chain = vec![
        ver(1, 0, 0, "alpha"),
        ver(1, 0, 0, "alpha.1"),
        ver(1, 0, 0, "alpha.beta"),
        ver(1, 0, 0, "beta"),
        ver(1, 0, 0, "beta.2"),
        ver(1, 0, 0, "beta.11"),
        ver(1, 0, 0, "rc.1"),
        ver(1, 0, 0, ""),
    ];
    for i in 0..chain.len() {
        for j in 0..chain.len() {
            assert_eq!(chain[i].lt(&chain[j]), i < j, "chain position {} vs {}", i, j);
            assert_eq!(chain[i].le(&chain[j]), i <= j, "chain position {} vs {}", i, j);
        }
    }
}

#[test]
fn numeric_identifiers_compare_by_value() {
    assert!(ver(1, 0, 0, "9").lt(&ver(1, 0, 0, "10")));
    assert!(ver(1, 0, 0, "2.9").lt(&ver(1, 0, 0, "2.10")));
    assert!(ver(1, 0, 0, "100").lt(&ver(1, 0, 0, "alpha")));
    assert!(!ver(1, 0, 0, "10").lt(&ver(1, 0, 0, "9")));
    assert!(ver(1, 0, 0, "alpha").lt(&ver(1, 0, 0, "alpha.extra")));
}

#[test]
fn big_endian_bytes_round_trip() {
    let x: u64 = 0x0102_0304_0506_0708;
    let b = u64_to_be_bytes(x);
    assert_eq!(b, vec![1, 2, 3, 4, 5, 6, 7, 8]);
    assert_eq!(u64_from_be_bytes(&b), x);
    assert_eq!(u64_to_be_bytes(0), vec![0; 8]);
    assert_eq!(u64_from_be_bytes(&vec![0, 0, 0, 0, 0, 0, 0, 42]), 42);
    assert_eq!(u64_from_be_bytes(&vec![0xFF; 8]), u64::MAX);
    assert_eq!(u64_from_be_bytes(&u64_to_be_bytes(u64::MAX - 1)), u64::MAX - 1);
}

#[test]
fn suffix_operations_work_on_paths() {
    assert!(ends_with("/sd/foo-assets.tar", archive_suffix()));
    assert!(!ends_with("/sd/foo.nro", archive_suffix()));
    assert!(!ends_with("ar", ".tar"));
    assert_eq!(strip_suffix("/sd/foo-assets.tar", ".tar"), "/sd/foo-assets");
    assert_eq!(append_suffix("/sd/foo-assets", ".tar"), "/sd/foo-assets.tar");
}

#[test]
fn relative_paths_are_taken_below_the_root() {
    assert_eq!(
        relative_to_root("plugins/foo/assets", "plugins/foo/assets/sub/a.txt"),
        Some("sub/a.txt".to_string())
    );
    assert_eq!(relative_to_root("plugins/foo/assets", "plugins/foo/assets"), None);
    assert_eq!(relative_to_root("plugins/foo/assets", "plugins/foo/assets/"), None);
    assert_eq!(relative_to_root("plugins/foo/assets", "plugins/bar/x"), None);
    assert_eq!(relative_to_root("plugins/foo/assets", "plugins/foo/assetsx/a"), None);
}

#[test]
fn path_join_and_absolute_test() {
    assert_eq!(join_path("plugins/foo", "plugin.toml"), "plugins/foo/plugin.toml");
    assert!(is_absolute("/sd/foo"));
    assert!(!is_absolute("sd/foo"));
    assert!(!is_absolute(""));
}

#[test]
fn archive_writes_do_not_retrigger_the_watcher() {
    assert!(!event_triggers_rebuild(&WatchEvent::Create("plugins/foo/a.tar".to_string())));
    assert!(!event_triggers_rebuild(&WatchEvent::Write("plugins/foo/a.tar".to_string())));
    assert!(!event_triggers_rebuild(&WatchEvent::NoticeWrite("plugins/foo/a.tar".to_string())));
    assert!(event_triggers_rebuild(&WatchEvent::Create("plugins/foo/plugin.toml".to_string())));
    assert!(event_triggers_rebuild(&WatchEvent::Write("plugins/foo/foo.nro".to_string())));
    assert!(event_triggers_rebuild(&WatchEvent::Remove("plugins/foo/a.tar".to_string())));
    assert!(event_triggers_rebuild(&WatchEvent::Rename(
        "plugins/foo".to_string(),
        "plugins/bar".to_string()
    )));
    assert!(event_triggers_rebuild(&WatchEvent::Other));
}

use skyline_update::catalog::{build_catalog, lookup, compose_handle, Catalog};
use skyline_update::location::InstallLocation;
use skyline_update::manifest::{Metadata, Plugin};
use skyline_update::protocol::{data_plane_reply, u64_to_be_bytes};
use skyline_update::version::Version;

fn sample_plugins() -> Vec<Plugin> {
    vec![
        Plugin {
            name: "Alpha".to_string(),
            plugin_version: Version { major: 1, minor: 0, patch: 0, pre: String::new() },
            files: vec![
                (InstallLocation::AbsolutePath("/sd/a0".to_string()), vec![1, 2, 3]),
                (InstallLocation::AbsolutePath("/sd/a1".to_string()), vec![4]),
            ],
            skyline_version: Version { major: 0, minor: 0, patch: 0, pre: String::new() },
            beta: false,
            metadata: Metadata {
                name: Some("Alpha".to_string()),
                images: Some(vec![vec![7, 7], vec![8, 8, 8]]),
                description: None,
                changelog: Some("log".to_string()),
            },
        },
        Plugin {
            name: "Beta".to_string(),
            plugin_version: Version { major: 0, minor: 2, patch: 0, pre: String::new() },
            files: vec![(InstallLocation::AbsolutePath("/sd/b0".to_string()), vec![9, 9])],
            skyline_version: Version { major: 0, minor: 0, patch: 0, pre: String::new() },
            beta: true,
            metadata: Metadata { name: None, images: None, description: None, changelog: None },
        },
    ]
}

#[test]
fn slots_are_assigned_in_catalog_order() {
    let c = build_catalog(sample_plugins(), 1).unwrap();
    assert_eq!(c.entries.len(), 2);
    // Alpha: files at 0 and 1, images at 2 and 3, changelog at 4.
    assert_eq!(c.entries[0].files[0].slot, 0);
    assert_eq!(c.entries[0].files[1].slot, 1);
    assert_eq!(c.entries[0].metadata.images_slot, 2);
    assert_eq!(c.entries[0].metadata.image_count, 2);
    assert_eq!(c.entries[0].metadata.changelog_slot, 4);
    // Beta's one file follows at 5.
    assert_eq!(c.entries[1].files[0].slot, 5);
    assert_eq!(c.table.len(), 6);
    assert_eq!(c.table[0], vec![1, 2, 3]);
    assert_eq!(c.table[1], vec![4]);
    assert_eq!(c.table[2], vec![7, 7]);
    assert_eq!(c.table[3], vec![8, 8, 8]);
    assert_eq!(c.table[4], "log".as_bytes().to_vec());
    assert_eq!(c.table[5], vec![9, 9]);
    assert_eq!(c.entries[0].files[0].size, 3);
    assert_eq!(c.entries[1].files[0].size, 2);
}

fn assert_same_layout(a: &Catalog, b: &Catalog) {
    assert_eq!(a.table, b.table);
    assert_eq!(a.entries.len(), b.entries.len());
    for (ea, eb) in a.entries.iter().zip(b.entries.iter()) {
        assert_eq!(ea.name, eb.name);
        assert_eq!(ea.version, eb.version);
        assert_eq!(ea.beta, eb.beta);
        assert_eq!(ea.files.len(), eb.files.len());
        for (fa, fb) in ea.files.iter().zip(eb.files.iter()) {
            assert_eq!(fa.slot, fb.slot);
            assert_eq!(fa.size, fb.size);
            assert_eq!(fa.install_location.path(), fb.install_location.path());
        }
        assert_eq!(ea.metadata.images_slot, eb.metadata.images_slot);
        assert_eq!(ea.metadata.image_count, eb.metadata.image_count);
        assert_eq!(ea.metadata.changelog_slot, eb.metadata.changelog_slot);
    }
}

#[test]
fn rebuilding_unchanged_plugins_yields_identical_indices() {
    let c1 = build_catalog(sample_plugins(), 1).unwrap();
    let c2 = build_catalog(sample_plugins(), 1).unwrap();
    assert_same_layout(&c1, &c2);
    // The slot layout does not depend on the generation number either.
    let c3 = build_catalog(sample_plugins(), 2).unwrap();
    assert_same_layout(&c1, &c3);
}

#[test]
fn lookup_serves_exactly_the_addressed_blob() {
    let c = build_catalog(sample_plugins(), 4).unwrap();
    let h0 = compose_handle(4, 0);
    let h5 = compose_handle(4, 5);
    assert_eq!(lookup(&c, h0).unwrap(), &vec![1, 2, 3]);
    assert_eq!(lookup(&c, h5).unwrap(), &vec![9, 9]);
}

#[test]
fn out_of_range_slot_is_served_nothing() {
    let c = build_catalog(sample_plugins(), 4).unwrap();
    let h = compose_handle(4, c.table.len());
    assert!(lookup(&c, h).is_none());
    let far = compose_handle(4, usize::try_from(u32::MAX).unwrap());
    assert!(lookup(&c, far).is_none());
}

#[test]
fn stale_generation_handle_is_served_nothing() {
    let old = build_catalog(sample_plugins(), 1).unwrap();
    let new = build_catalog(sample_plugins(), 2).unwrap();
    let stale = compose_handle(old.generation, 0);
    assert!(lookup(&old, stale).is_some());
    assert!(lookup(&new, stale).is_none());
}

#[test]
fn short_data_plane_request_is_served_nothing() {
    let c = build_catalog(sample_plugins(), 1).unwrap();
    assert!(data_plane_reply(&c, &vec![0, 0, 0]).is_none());
    assert!(data_plane_reply(&c, &vec![]).is_none());
    let ok = data_plane_reply(&c, &u64_to_be_bytes(compose_handle(1, 1)));
    assert_eq!(ok.unwrap(), &vec![4]);
}

#[test]
fn empty_plugin_list_builds_empty_catalog() {
    let c = build_catalog(vec![], 9).unwrap();
    assert_eq!(c.generation, 9);
    assert!(c.entries.is_empty());
    assert!(c.table.is_empty());
    assert!(lookup(&c, compose_handle(9, 0)).is_none());
}

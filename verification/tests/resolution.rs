use skyline_update::catalog::build_catalog;
use skyline_update::manifest::{Metadata, Plugin};
use skyline_update::location::InstallLocation;
use skyline_update::protocol::{
    handle_check_update, handle_request, data_plane_reply, u64_to_be_bytes, ControlReply, Request,
    ResponseCode, UpdateResponse,
};
use skyline_update::version::Version;

fn plugin(name: &str, major: u64, minor: u64, patch: u64, beta: bool, files: Vec<(&str, Vec<u8>)>) -> Plugin {
    Plugin {
        name: name.to_string(),
        plugin_version: Version { major, minor, patch, pre: String::new() },
        files: files
            .into_iter()
            .map(|(loc, data)| (InstallLocation::AbsolutePath(loc.to_string()), data))
            .collect(),
        skyline_version: Version { major: 0, minor: 0, patch: 0, pre: String::new() },
        beta,
        metadata: Metadata { name: None, images: None, description: None, changelog: None },
    }
}

#[test]
fn absent_plugin_is_not_found() {
    let c = build_catalog(vec![plugin("Foo", 1, 0, 0, false, vec![])], 1).unwrap();
    let r = handle_check_update(&c, "Bar".to_string(), &"1.0.0".to_string(), Some(false));
    assert_eq!(r.code, ResponseCode::PluginNotFound);
    assert!(r.required_files.is_empty());
}

#[test]
fn beta_only_entry_is_not_found_for_non_beta_request() {
    let c = build_catalog(vec![plugin("Foo", 1, 0, 0, true, vec![])], 1).unwrap();
    let r = handle_check_update(&c, "Foo".to_string(), &"0.9.0".to_string(), Some(false));
    assert_eq!(r.code, ResponseCode::PluginNotFound);
}

#[test]
fn beta_request_may_resolve_to_beta_entry() {
    let c = build_catalog(
        vec![plugin("Foo", 1, 0, 0, true, vec![("/sd/foo.nro", vec![1, 2, 3])])],
        1,
    )
    .unwrap();
    let r = handle_check_update(&c, "Foo".to_string(), &"0.9.0".to_string(), Some(true));
    assert_eq!(r.code, ResponseCode::Update);
    assert_eq!(r.new_plugin_version, Version { major: 1, minor: 0, patch: 0, pre: String::new() });
}

#[test]
fn equal_version_is_no_update() {
    let c = build_catalog(vec![plugin("Foo", 1, 0, 0, false, vec![])], 1).unwrap();
    let r = handle_check_update(&c, "Foo".to_string(), &"1.0.0".to_string(), None);
    assert_eq!(r.code, ResponseCode::NoUpdate);
}

#[test]
fn newer_client_version_is_no_update() {
    let c = build_catalog(vec![plugin("Foo", 1, 0, 0, false, vec![])], 1).unwrap();
    let r = handle_check_update(&c, "Foo".to_string(), &"2.0.0".to_string(), None);
    assert_eq!(r.code, ResponseCode::NoUpdate);
}

#[test]
fn unparsable_client_version_is_invalid_request() {
    let c = build_catalog(vec![plugin("Foo", 1, 0, 0, false, vec![])], 1).unwrap();
    let r = handle_check_update(&c, "Foo".to_string(), &"not-a-version".to_string(), Some(false));
    assert_eq!(r.code, ResponseCode::InvalidRequest);
}

#[test]
fn highest_version_wins_resolution() {
    let c = build_catalog(
        vec![
            plugin("Foo", 1, 0, 0, false, vec![]),
            plugin("Foo", 2, 1, 0, false, vec![]),
            plugin("Foo", 2, 0, 5, false, vec![]),
        ],
        1,
    )
    .unwrap();
    let r = handle_check_update(&c, "Foo".to_string(), &"1.0.0".to_string(), Some(false));
    assert_eq!(r.code, ResponseCode::Update);
    assert_eq!(r.new_plugin_version, Version { major: 2, minor: 1, patch: 0, pre: String::new() });
}

#[test]
fn non_beta_resolution_skips_higher_beta_entry() {
    let c = build_catalog(
        vec![
            plugin("Foo", 1, 0, 0, false, vec![]),
            plugin("Foo", 2, 0, 0, true, vec![]),
        ],
        1,
    )
    .unwrap();
    let r = handle_check_update(&c, "Foo".to_string(), &"0.9.0".to_string(), Some(false));
    assert_eq!(r.code, ResponseCode::Update);
    assert_eq!(r.new_plugin_version, Version { major: 1, minor: 0, patch: 0, pre: String::new() });
}

#[test]
fn prerelease_client_is_offered_the_release() {
    let c = build_catalog(vec![plugin("Foo", 1, 0, 0, false, vec![])], 1).unwrap();
    let r = handle_check_update(&c, "Foo".to_string(), &"1.0.0-rc1".to_string(), Some(false));
    assert_eq!(r.code, ResponseCode::Update);
    assert_eq!(
        r.new_plugin_version,
        Version { major: 1, minor: 0, patch: 0, pre: String::new() }
    );
}

#[test]
fn hosted_prerelease_is_no_update_for_the_release_client() {
    let mut p = plugin("Foo", 1, 0, 0, false, vec![]);
    p.plugin_version = Version { major: 1, minor: 0, patch: 0, pre: "rc.2".to_string() };
    let c = build_catalog(vec![p], 1).unwrap();
    let r = handle_check_update(&c, "Foo".to_string(), &"1.0.0".to_string(), Some(false));
    assert_eq!(r.code, ResponseCode::NoUpdate);
    let r = handle_check_update(&c, "Foo".to_string(), &"1.0.0-rc.1".to_string(), Some(false));
    assert_eq!(r.code, ResponseCode::Update);
}

#[test]
fn of_equal_versions_the_later_entry_wins() {
    let c = build_catalog(
        vec![
            plugin("Foo", 1, 0, 0, false, vec![("/sd/first", vec![1])]),
            plugin("Foo", 1, 0, 0, false, vec![("/sd/second", vec![2, 2])]),
        ],
        1,
    )
    .unwrap();
    let r = handle_check_update(&c, "Foo".to_string(), &"0.9.0".to_string(), Some(false));
    assert_eq!(r.code, ResponseCode::Update);
    assert_eq!(r.required_files.len(), 1);
    assert_eq!(r.required_files[0].size, 2);
    assert_eq!(r.required_files[0].install_location.path().as_str(), "/sd/second");
}

#[test]
fn offered_update_downloads_match_declared_sizes() {
    let c = build_catalog(
        vec![plugin(
            "Foo",
            1,
            0,
            0,
            false,
            vec![("/sd/foo.nro", vec![9u8; 17]), ("/sd/data.bin", vec![3u8; 5])],
        )],
        7,
    )
    .unwrap();
    let r = handle_check_update(&c, "Foo".to_string(), &"0.9.0".to_string(), Some(false));
    assert_eq!(r.code, ResponseCode::Update);
    assert!(r.update_plugin);
    assert_eq!(r.plugin_name, "Foo");
    assert_eq!(r.required_files.len(), 2);
    assert_eq!(r.required_files[0].size, 17);
    assert_eq!(r.required_files[1].size, 5);
    assert_eq!(r.required_files[0].install_location.path().as_str(), "/sd/foo.nro");
    for f in &r.required_files {
        let req = u64_to_be_bytes(f.download_index);
        let blob = data_plane_reply(&c, &req).expect("a fresh handle must be served");
        assert_eq!(blob.len(), f.size);
    }
}

#[test]
fn undecodable_request_is_invalid() {
    let c = build_catalog(vec![], 1).unwrap();
    match handle_request(&c, None) {
        ControlReply::Update(u) => assert_eq!(u.code, ResponseCode::InvalidRequest),
        _ => panic!("a failed decode must be answered with InvalidRequest"),
    }
}

#[test]
fn metadata_reply_carries_indices() {
    let mut p = plugin("Foo", 1, 0, 0, false, vec![("/sd/foo.nro", vec![1, 2])]);
    p.metadata = Metadata {
        name: Some("Foo Display".to_string()),
        images: Some(vec![vec![10, 11], vec![12]]),
        description: Some("a plugin".to_string()),
        changelog: Some("first release".to_string()),
    };
    let c = build_catalog(vec![p], 3).unwrap();
    let req = Request::Metadata { plugin_name: "Foo".to_string(), beta: Some(false) };
    match handle_request(&c, Some(req)) {
        ControlReply::Metadata(m) => {
            assert_eq!(m.name.as_deref(), Some("Foo Display"));
            assert_eq!(m.description.as_deref(), Some("a plugin"));
            assert_eq!(m.image_count, 2);
            let img = data_plane_reply(&c, &u64_to_be_bytes(m.images_index)).unwrap();
            assert_eq!(img.as_slice(), &[10u8, 11]);
            let cl = data_plane_reply(&c, &u64_to_be_bytes(m.changelog_index)).unwrap();
            assert_eq!(cl.as_slice(), "first release".as_bytes());
        },
        _ => panic!("metadata for a hosted plugin must be answered"),
    }
}

#[test]
fn metadata_for_absent_plugin_is_answered_not_found() {
    let c = build_catalog(vec![plugin("Foo", 1, 0, 0, false, vec![])], 1).unwrap();
    let req = Request::Metadata { plugin_name: "Bar".to_string(), beta: None };
    match handle_request(&c, Some(req)) {
        ControlReply::MetadataNotFound => {},
        _ => panic!("an unanswered metadata query must get the explicit not-found reply"),
    }
}

#[test]
fn bare_responses_carry_no_files() {
    let r = UpdateResponse::no_update();
    assert_eq!(r.code, ResponseCode::NoUpdate);
    assert_eq!(r.required_files.len(), 0);
    let r = UpdateResponse::invalid_request();
    assert_eq!(r.code, ResponseCode::InvalidRequest);
    let r = UpdateResponse::plugin_not_found();
    assert_eq!(r.code, ResponseCode::PluginNotFound);
}

use skyline_update::client::{
    start_update_check, step, update_succeeded, ClientAction, ClientEvent, ClientState,
    DefaultInstaller, Installer,
};
use skyline_update::location::InstallLocation;
use skyline_update::protocol::{Request, ResponseCode, UpdateFile, UpdateResponse};
use skyline_update::version::Version;

fn offer_with(files: Vec<UpdateFile>) -> UpdateResponse {
    UpdateResponse {
        code: ResponseCode::Update,
        update_plugin: true,
        update_skyline: false,
        plugin_name: "Foo".to_string(),
        new_plugin_version: Version { major: 1, minor: 0, patch: 0, pre: String::new() },
        new_skyline_version: None,
        required_files: files,
    }
}

fn wire_file(index: u64, size: usize, path: &str) -> UpdateFile {
    UpdateFile {
        size,
        download_index: index,
        install_location: InstallLocation::AbsolutePath(path.to_string()),
    }
}

#[test]
fn request_is_built_from_the_plugin_coordinates() {
    let (state, request) = start_update_check("test_plugin", "0.9.0", true);
    assert!(matches!(state, ClientState::RequestSent));
    match request {
        Request::Update { plugin_name, plugin_version, beta } => {
            assert_eq!(plugin_name, "test_plugin");
            assert_eq!(plugin_version, "0.9.0");
            assert_eq!(beta, Some(true));
        },
        _ => panic!("an update check sends a check-update request"),
    }
}

#[test]
fn full_flow_installs_every_file_and_extracts_the_archive() {
    let files = vec![wire_file(100, 3, "/sd/foo.nro"), wire_file(101, 9, "/sd/foo-assets.tar")];
    let (state, _request) = start_update_check("Foo", "0.9.0", false);

    let (state, action) = step(state, ClientEvent::Response(Some(offer_with(files))));
    assert!(matches!(state, ClientState::Offered { .. }));
    assert!(matches!(action, Some(ClientAction::AskInstaller)));

    let (state, action) = step(state, ClientEvent::Decision(true));
    assert!(matches!(state, ClientState::Downloading { next: 0, .. }));
    match action {
        Some(ClientAction::Download { index }) => assert_eq!(index, 100),
        _ => panic!("the first offered file is downloaded first"),
    }

    let (state, action) = step(state, ClientEvent::Downloaded(true));
    assert!(matches!(state, ClientState::Installing { next: 0, .. }));
    match action {
        Some(ClientAction::Install { path }) => assert_eq!(path, "/sd/foo.nro"),
        _ => panic!("a downloaded file is handed to the installer"),
    }

    let (state, action) = step(state, ClientEvent::Installed(true));
    assert!(matches!(state, ClientState::Downloading { next: 1, .. }));
    match action {
        Some(ClientAction::Download { index }) => assert_eq!(index, 101),
        _ => panic!("a plain file is followed by the next download"),
    }

    let (state, _action) = step(state, ClientEvent::Downloaded(true));
    let (state, action) = step(state, ClientEvent::Installed(true));
    assert!(matches!(state, ClientState::Extracting { next: 1, .. }));
    match action {
        Some(ClientAction::Extract { archive_path, destination }) => {
            assert_eq!(archive_path, "/sd/foo-assets.tar");
            assert_eq!(destination, "/sd/foo-assets");
        },
        _ => panic!("an installed archive is extracted beside itself"),
    }

    // The flow continues even where the extraction failed.
    let (state, action) = step(state, ClientEvent::Extracted(false));
    assert!(update_succeeded(&state));
    assert!(action.is_none());
}

#[test]
fn offer_with_no_files_succeeds_at_once() {
    let (state, _request) = start_update_check("Foo", "0.9.0", false);
    let (state, _action) = step(state, ClientEvent::Response(Some(offer_with(vec![]))));
    let (state, action) = step(state, ClientEvent::Decision(true));
    assert!(update_succeeded(&state));
    assert!(action.is_none());
}

#[test]
fn declined_offer_installs_nothing() {
    let (state, _request) = start_update_check("Foo", "0.9.0", false);
    let (state, _action) = step(
        state,
        ClientEvent::Response(Some(offer_with(vec![wire_file(1, 1, "/sd/foo.nro")]))),
    );
    let (state, action) = step(state, ClientEvent::Decision(false));
    assert!(matches!(state, ClientState::Declined));
    assert!(action.is_none());
    assert!(!update_succeeded(&state));
}

#[test]
fn undecodable_response_fails_the_flow() {
    let (state, _request) = start_update_check("Foo", "0.9.0", false);
    let (state, action) = step(state, ClientEvent::Response(None));
    assert!(matches!(state, ClientState::Failed));
    assert!(action.is_none());
}

#[test]
fn server_codes_map_to_terminal_states() {
    let mut resp = offer_with(vec![]);
    resp.code = ResponseCode::NoUpdate;
    let (state, _request) = start_update_check("Foo", "1.0.0", false);
    let (state, _action) = step(state, ClientEvent::Response(Some(resp)));
    assert!(matches!(state, ClientState::NoUpdate));

    let mut resp = offer_with(vec![]);
    resp.code = ResponseCode::InvalidRequest;
    let (state, _request) = start_update_check("Foo", "bad", false);
    let (state, _action) = step(state, ClientEvent::Response(Some(resp)));
    assert!(matches!(state, ClientState::InvalidRequest));

    let mut resp = offer_with(vec![]);
    resp.code = ResponseCode::PluginNotFound;
    let (state, _request) = start_update_check("Nope", "1.0.0", false);
    let (state, _action) = step(state, ClientEvent::Response(Some(resp)));
    assert!(matches!(state, ClientState::PluginNotFound));
}

#[test]
fn failed_download_aborts_the_remaining_pipeline() {
    let files = vec![wire_file(1, 1, "/sd/a"), wire_file(2, 1, "/sd/b")];
    let (state, _request) = start_update_check("Foo", "0.9.0", false);
    let (state, _action) = step(state, ClientEvent::Response(Some(offer_with(files))));
    let (state, _action) = step(state, ClientEvent::Decision(true));
    let (state, action) = step(state, ClientEvent::Downloaded(false));
    assert!(matches!(state, ClientState::Failed));
    assert!(action.is_none());
}

#[test]
fn failed_install_aborts_the_remaining_pipeline() {
    let files = vec![wire_file(1, 1, "/sd/a"), wire_file(2, 1, "/sd/b")];
    let (state, _request) = start_update_check("Foo", "0.9.0", false);
    let (state, _action) = step(state, ClientEvent::Response(Some(offer_with(files))));
    let (state, _action) = step(state, ClientEvent::Decision(true));
    let (state, _action) = step(state, ClientEvent::Downloaded(true));
    let (state, action) = step(state, ClientEvent::Installed(false));
    assert!(matches!(state, ClientState::Failed));
    assert!(action.is_none());
}

#[test]
fn mismatched_event_fails_the_flow() {
    let (state, _request) = start_update_check("Foo", "0.9.0", false);
    let (state, _action) = step(state, ClientEvent::Installed(true));
    assert!(matches!(state, ClientState::Failed));
}

#[test]
fn default_installer_accepts_and_installs() {
    let installer = DefaultInstaller;
    let offer = offer_with(vec![]);
    assert!(installer.should_update(&offer));
    assert!(installer.install_file("/sd/foo.nro".to_string(), vec![1, 2, 3]).is_ok());
}

//! The client's update flow as a state machine: check, confirm, then
//! download and install each offered file in the server's order, extracting
//! a packaged bundle archive after it installs. The machine makes every
//! decision; the caller performs the sockets, the installer and the
//! extraction, and feeds the outcome back as the next event.

use vstd::prelude::*;
use crate::paths::{
    archive_suffix, archive_suffix_spec, ends_with, has_suffix, strip_suffix, strip_suffix_spec,
};
use crate::protocol::{Request, ResponseCode, UpdateFile, UpdateResponse};

verus! {

/// The capability a platform supplies to the update flow: asking whether to
/// proceed with an offer, and persisting one downloaded file.
pub trait Installer {
    fn should_update(&self, response: &UpdateResponse) -> bool;

    fn install_file(&self, path: String, buf: Vec<u8>) -> Result<(), ()>;
}

/// An installer that accepts every offer and treats every file as
/// persisted.
pub struct DefaultInstaller;

impl Installer for DefaultInstaller {
    fn should_update(&self, _response: &UpdateResponse) -> (r: bool)
        ensures
            r == true,
    {
        true
    }

    fn install_file(&self, _path: String, _buf: Vec<u8>) -> (r: Result<(), ()>)
        ensures
            r is Ok,
    {
        Ok(())
    }
}

/// Where the update flow stands.
pub enum ClientState {
    /// Nothing sent yet.
    Idle,
    /// The check-update request is on the wire.
    RequestSent,
    /// The server offered an update; the installer decides.
    Offered { response: UpdateResponse },
    /// File `next` is being fetched over the data plane.
    Downloading { files: Vec<UpdateFile>, next: usize },
    /// File `next` is downloaded and handed to the installer.
    Installing { files: Vec<UpdateFile>, next: usize },
    /// File `next` installed as an archive and is being extracted.
    Extracting { files: Vec<UpdateFile>, next: usize },
    /// The server hosts nothing newer.
    NoUpdate,
    /// The server could not make sense of the request.
    InvalidRequest,
    /// The server hosts no answering plugin.
    PluginNotFound,
    /// The installer declined the offer.
    Declined,
    /// Every offered file installed.
    Succeeded,
    /// A download or install failed; files already installed stay put.
    Failed,
}

impl ClientState {
    /// A downloading, installing or extracting state points at one of its
    /// files.
    pub open spec fn wf(self) -> bool {
        match self {
            ClientState::Downloading { files, next } => next < files@.len(),
            ClientState::Installing { files, next } => next < files@.len(),
            ClientState::Extracting { files, next } => next < files@.len(),
            _ => true,
        }
    }
}

/// What happened since the last step: the decoded reply (`None` where the
/// connection or the decoding failed), the installer's decision, a download
/// ending, an install ending, or an extraction ending.
pub enum ClientEvent {
    Response(Option<UpdateResponse>),
    Decision(bool),
    Downloaded(bool),
    Installed(bool),
    Extracted(bool),
}

/// What the caller must do next.
pub enum ClientAction {
    /// Ask the installer whether to proceed with the offer.
    AskInstaller,
    /// Fetch the blob behind this download handle over the data plane.
    Download { index: u64 },
    /// Hand the downloaded bytes and this path to the installer.
    Install { path: String },
    /// Extract the installed archive into the sibling directory named by
    /// stripping the archive suffix. The flow continues whatever the
    /// outcome.
    Extract { archive_path: String, destination: String },
}

/// Move to the next offered file, or finish: every file installed means
/// success.
pub open spec fn advance_spec(
    files: Seq<UpdateFile>,
    next: int,
    r: (ClientState, Option<ClientAction>),
) -> bool {
    if next + 1 < files.len() {
        &&& r.0 matches ClientState::Downloading { files: f2, next: n2 } && f2@ == files && n2
            == next + 1
        &&& r.1 matches Some(ClientAction::Download { index }) && index == files[next
            + 1].download_index
    } else {
        r.0 is Succeeded && r.1 is None
    }
}

/// The whole update flow, one step at a time. A failed response decode, a
/// failed download or a failed install ends in `Failed`; an extraction
/// outcome never does; an event that does not belong to the state ends in
/// `Failed` too.
pub open spec fn transition_spec(
    state: ClientState,
    event: ClientEvent,
    r: (ClientState, Option<ClientAction>),
) -> bool {
    match (state, event) {
        (ClientState::RequestSent, ClientEvent::Response(None)) => r.0 is Failed && r.1 is None,
        (ClientState::RequestSent, ClientEvent::Response(Some(resp))) => match resp.code {
            ResponseCode::NoUpdate => r.0 is NoUpdate && r.1 is None,
            ResponseCode::InvalidRequest => r.0 is InvalidRequest && r.1 is None,
            ResponseCode::PluginNotFound => r.0 is PluginNotFound && r.1 is None,
            ResponseCode::Update => {
                &&& r.0 matches ClientState::Offered { response } && response == resp
                &&& r.1 matches Some(ClientAction::AskInstaller)
            },
        },
        (ClientState::Offered { response }, ClientEvent::Decision(d)) => {
            if !d {
                r.0 is Declined && r.1 is None
            } else if response.required_files@.len() == 0 {
                r.0 is Succeeded && r.1 is None
            } else {
                &&& r.0 matches ClientState::Downloading { files, next } && files
                    == response.required_files && next == 0
                &&& r.1 matches Some(ClientAction::Download { index }) && index
                    == response.required_files@[0].download_index
            }
        },
        (ClientState::Downloading { files, next }, ClientEvent::Downloaded(ok)) => {
            if ok {
                &&& r.0 matches ClientState::Installing { files: f2, next: n2 } && f2 == files
                    && n2 == next
                &&& r.1 matches Some(ClientAction::Install { path }) && path@ == files@[
                    next as int
                ].install_location.path_spec()
            } else {
                r.0 is Failed && r.1 is None
            }
        },
        (ClientState::Installing { files, next }, ClientEvent::Installed(ok)) => {
            if ok {
                if has_suffix(files@[next as int].install_location.path_spec(), archive_suffix_spec()) {
                    &&& r.0 matches ClientState::Extracting { files: f2, next: n2 } && f2 == files
                        && n2 == next
                    &&& r.1 matches Some(ClientAction::Extract { archive_path, destination })
                        && archive_path@ == files@[next as int].install_location.path_spec()
                        && destination@ == strip_suffix_spec(
                        files@[next as int].install_location.path_spec(),
                        archive_suffix_spec(),
                    )
                } else {
                    advance_spec(files@, next as int, r)
                }
            } else {
                r.0 is Failed && r.1 is None
            }
        },
        (ClientState::Extracting { files, next }, ClientEvent::Extracted(_)) => advance_spec(
            files@,
            next as int,
            r,
        ),
        _ => r.0 is Failed && r.1 is None,
    }
}

/// Begin an update check: the request to send, and the state awaiting its
/// reply.
pub fn start_update_check(name: &str, version: &str, beta: bool) -> (r: (ClientState, Request))
    ensures
        r.0 is RequestSent,
        r.1 matches Request::Update { plugin_name, plugin_version, beta: b } && plugin_name@
            == name@ && plugin_version@ == version@ && b == Some(beta),
{
    (
        ClientState::RequestSent,
        Request::Update {
            plugin_name: String::from_str(name),
            plugin_version: String::from_str(version),
            beta: Some(beta),
        },
    )
}

/// Move to the file after `next`, or to `Succeeded` past the last one.
fn advance(files: Vec<UpdateFile>, next: usize) -> (r: (ClientState, Option<ClientAction>))
    requires
        next < files@.len(),
    ensures
        advance_spec(files@, next as int, r),
        r.0.wf(),
{
    if files.len() - next > 1 {
        let index = files[next + 1].download_index;
        (
            ClientState::Downloading { files, next: next + 1 },
            Some(ClientAction::Download { index }),
        )
    } else {
        (ClientState::Succeeded, None)
    }
}

/// Take one step of the update flow: from the state and what just happened
/// to the next state and what to do now.
pub fn step(state: ClientState, event: ClientEvent) -> (r: (ClientState, Option<ClientAction>))
    requires
        state.wf(),
    ensures
        transition_spec(state, event, r),
        r.0.wf(),
{
    match (state, event) {
        (ClientState::RequestSent, ClientEvent::Response(None)) => (ClientState::Failed, None),
        (ClientState::RequestSent, ClientEvent::Response(Some(resp))) => match resp.code {
            ResponseCode::NoUpdate => (ClientState::NoUpdate, None),
            ResponseCode::InvalidRequest => (ClientState::InvalidRequest, None),
            ResponseCode::PluginNotFound => (ClientState::PluginNotFound, None),
            ResponseCode::Update => (
                ClientState::Offered { response: resp },
                Some(ClientAction::AskInstaller),
            ),
        },
        (ClientState::Offered { response }, ClientEvent::Decision(d)) => {
            if !d {
                (ClientState::Declined, None)
            } else if response.required_files.len() == 0 {
                (ClientState::Succeeded, None)
            } else {
                let files = response.required_files;
                let index = files[0].download_index;
                (
                    ClientState::Downloading { files, next: 0 },
                    Some(ClientAction::Download { index }),
                )
            }
        },
        (ClientState::Downloading { files, next }, ClientEvent::Downloaded(ok)) => {
            if ok {
                let path = files[next].install_location.path().clone();
                (
                    ClientState::Installing { files, next },
                    Some(ClientAction::Install { path }),
                )
            } else {
                (ClientState::Failed, None)
            }
        },
        (ClientState::Installing { files, next }, ClientEvent::Installed(ok)) => {
            if ok {
                let path = files[next].install_location.path();
                if ends_with(path.as_str(), archive_suffix()) {
                    let archive_path = path.clone();
                    let destination = strip_suffix(path.as_str(), archive_suffix());
                    (
                        ClientState::Extracting { files, next },
                        Some(ClientAction::Extract { archive_path, destination }),
                    )
                } else {
                    advance(files, next)
                }
            } else {
                (ClientState::Failed, None)
            }
        },
        (ClientState::Extracting { files, next }, ClientEvent::Extracted(_)) => advance(
            files,
            next,
        ),
        _ => (ClientState::Failed, None),
    }
}

/// Did the flow end with every offered file installed?
pub fn update_succeeded(state: &ClientState) -> (r: bool)
    ensures
        r == (state is Succeeded),
{
    match state {
        ClientState::Succeeded => true,
        _ => false,
    }
}

} // verus!

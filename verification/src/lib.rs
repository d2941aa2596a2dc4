//! Server and client logic for a plugin update service: a catalog of hosted
//! plugins built from per-plugin manifests, semantic-version based update
//! resolution, the two-socket wire protocol (control plane and data plane),
//! and the client-side download/install state machine.

pub mod archive;
pub mod catalog;
pub mod client;
pub mod location;
pub mod manifest;
pub mod paths;
pub mod protocol;
pub mod version;
pub mod watcher;

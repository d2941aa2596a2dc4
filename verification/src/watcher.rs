//! The filesystem watcher's one decision: whether a settled change under
//! the plugin root calls for a catalog rebuild. Writes of packaged archives
//! are the packager's own and must not retrigger it.

use vstd::prelude::*;
use crate::paths::{archive_suffix, archive_suffix_spec, ends_with, has_suffix};

verus! {

/// One settled filesystem change under the plugin root, as the watcher
/// reports it.
pub enum WatchEvent {
    Create(String),
    Write(String),
    NoticeWrite(String),
    Remove(String),
    Rename(String, String),
    Other,
}

/// A creation or write of a packaged archive is the packager's own doing
/// and triggers no rebuild; every other change does.
pub open spec fn triggers_rebuild_spec(event: WatchEvent) -> bool {
    match event {
        WatchEvent::Create(p) => !has_suffix(p@, archive_suffix_spec()),
        WatchEvent::Write(p) => !has_suffix(p@, archive_suffix_spec()),
        WatchEvent::NoticeWrite(p) => !has_suffix(p@, archive_suffix_spec()),
        _ => true,
    }
}

/// Should this settled change rebuild the catalog?
pub fn event_triggers_rebuild(event: &WatchEvent) -> (r: bool)
    ensures
        r == triggers_rebuild_spec(*event),
{
    match event {
        WatchEvent::Create(p) => !ends_with(p.as_str(), archive_suffix()),
        WatchEvent::Write(p) => !ends_with(p.as_str(), archive_suffix()),
        WatchEvent::NoticeWrite(p) => !ends_with(p.as_str(), archive_suffix()),
        _ => true,
    }
}

} // verus!

//! Changes to Markdown files, as the watcher reports them.

use vstd::prelude::*;
use crate::paths::{is_markdown_file, std_extension};

verus! {

broadcast use vstd::string::group_string_axioms;

/// A change to a Markdown file.
#[derive(Clone, Debug)]
pub enum WatchEvent {
    FileChanged(String),
    FileCreated(String),
    FileDeleted(String),
}

/// The kind of change the file-system watcher saw.
#[derive(Clone, Copy, Debug, PartialEq, Eq, Structural)]
pub enum ChangeKind {
    Create,
    Modify,
    Remove,
    Other,
}

/// The event a change to `path` gives: only files with the extension `md`
/// count; a creation or removal is reported as such, anything else as a change.
pub open spec fn watch_event_spec(kind: ChangeKind, path: Seq<char>) -> Option<(ChangeKind, Seq<char>)> {
    if std_extension(path) == Some("md"@) {
        Some(
            (
                match kind {
                    ChangeKind::Create => ChangeKind::Create,
                    ChangeKind::Remove => ChangeKind::Remove,
                    _ => ChangeKind::Modify,
                },
                path,
            ),
        )
    } else {
        None
    }
}

/// The kind and path an event reports.
pub open spec fn event_view(e: WatchEvent) -> (ChangeKind, Seq<char>) {
    match e {
        WatchEvent::FileChanged(p) => (ChangeKind::Modify, p@),
        WatchEvent::FileCreated(p) => (ChangeKind::Create, p@),
        WatchEvent::FileDeleted(p) => (ChangeKind::Remove, p@),
    }
}

/// The event to report for a change of `kind` to `path`, if any.
pub fn watch_event_for(kind: ChangeKind, path: &str) -> (r: Option<WatchEvent>)
    ensures
        r is Some <==> watch_event_spec(kind, path@) is Some,
        r matches Some(e) ==> watch_event_spec(kind, path@) == Some(event_view(e)),
{
    if !is_markdown_file(path) {
        return None;
    }
    let p = path.to_string();
    match kind {
        ChangeKind::Create => Some(WatchEvent::FileCreated(p)),
        ChangeKind::Remove => Some(WatchEvent::FileDeleted(p)),
        _ => Some(WatchEvent::FileChanged(p)),
    }
}

} // verus!

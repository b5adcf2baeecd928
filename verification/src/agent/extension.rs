//! What an agent is extended by, and how events are submitted on a thread.

use crate::protocol::{Event, EventView, Track, TrackType, TrackTypeView, TrackView};
use vstd::prelude::*;

verus! {

/// Why an extension does not start.
#[derive(Debug)]
pub enum ExtensionError {
    ValidationError(String),
}

impl ExtensionError {
    pub open spec fn text(&self) -> Seq<char> {
        match *self {
            ExtensionError::ValidationError(s) => "validation error: "@ + s@,
        }
    }

    pub fn to_text(&self) -> (r: String)
        ensures
            r@ == self.text(),
    {
        match self {
            ExtensionError::ValidationError(s) => "validation error: ".to_owned().concat(s.as_str()),
        }
    }
}

/// The track that names a thread.
pub open spec fn thread_track(name: Seq<char>, tid: i32, pid: i32) -> EventView {
    EventView::Track(
        TrackView {
            name,
            track_type: TrackTypeView::Thread { tid, pid },
            parent: Some(TrackTypeView::Process { pid }),
        },
    )
}

/// The track that names a process.
pub open spec fn process_track(name: Seq<char>, pid: i32) -> EventView {
    EventView::Track(
        TrackView { name, track_type: TrackTypeView::Process { pid }, parent: None },
    )
}

/// The event that names a process.
pub fn process_event(name: &str, pid: i32) -> (r: Event)
    ensures
        r@ == process_track(name@, pid),
{
    Event::Track(
        Track { name: name.to_owned(), track_type: TrackType::Process { pid }, parent: None },
    )
}

/// What a thread submits before its next event: the track that names it, once,
/// if it has a name.
pub fn thread_event(sent: bool, name: Option<&str>, tid: i32, pid: i32) -> (r: Option<Event>)
    ensures
        match r {
            Some(event) => !sent && name is Some && event@ == thread_track(name->0@, tid, pid),
            None => sent || name is None,
        },
{
    if sent {
        return None;
    }
    match name {
        Some(thread_name) => Some(
            Event::Track(
                Track {
                    name: thread_name.to_owned(),
                    track_type: TrackType::Thread { tid, pid },
                    parent: Some(TrackType::Process { pid }),
                },
            ),
        ),
        None => None,
    }
}

/// Whether a thread counts as named after an attempt to submit its track, and
/// whether its event is submitted too: a failed attempt leaves both for the next
/// event.
pub fn thread_named(sent: bool, attempt_failed: bool) -> (r: (bool, bool))
    ensures
        r.0 == (sent || !attempt_failed),
        r.1 == (sent || !attempt_failed),
{
    let named: bool = sent || !attempt_failed;
    (named, named)
}

} // verus!

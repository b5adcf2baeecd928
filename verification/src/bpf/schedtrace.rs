//! Scheduling: when threads run, wait to run, and are blocked.

use super::error::{map_error, BpfError};
use super::wire::{read_u32, read_u64, u32_at, u64_at};
use crate::protocol::{
    label_put, Event, EventView, Labels, LabelsView, Message, MessageView, Span, SpanView, Track,
    TrackId, TrackType, TrackTypeView, TrackView,
};
use crate::random::random_u64;
use crate::sink::MessageSink;
use crate::table::{Table, TableKey};
use crate::text::{numeral, push_numeral};
use vstd::prelude::*;

verus! {

pub const SCHED_EVENT_BLOCKED: u32 = 1;

pub const SCHED_EVENT_RUNNABLE: u32 = 2;

pub const RUNNABLE_REASON_PREEMPTED: u32 = 1;

pub const RUNNABLE_REASON_STILL_RUNNING: u32 = 2;

pub const RUNNABLE_REASON_WAKEUP: u32 = 3;

/// What to trace.
#[derive(Debug)]
pub struct SchedTraceConfig {
    pub pid_filters: Vec<i32>,
    pub filter_process: Vec<String>,
    pub ringbuf: usize,
}

impl Default for SchedTraceConfig {
    fn default() -> (r: Self)
        ensures
            r.pid_filters@.len() == 0,
            r.filter_process@.len() == 0,
            r.ringbuf == 2 * 1024 * 1024,
    {
        SchedTraceConfig {
            pid_filters: Vec::new(),
            filter_process: Vec::new(),
            ringbuf: 2 * 1024 * 1024,
        }
    }
}

/// A stretch of time in one state.
#[derive(Debug, Clone, Copy, PartialEq, Eq, Structural)]
pub struct SchedSpanEvent {
    pub pid: u32,
    pub tid: u32,
    pub start_time: u64,
    pub end_time: u64,
    pub cpu: u32,
    pub event_type: u32,
    pub frame: u64,
    pub reason: u32,
    pub task_state: u32,
}

/// Why a thread waits to run.
pub open spec fn reason_text(reason: u32) -> Option<Seq<char>> {
    if reason == RUNNABLE_REASON_PREEMPTED {
        Some("preempted"@)
    } else if reason == RUNNABLE_REASON_STILL_RUNNING {
        Some("still_running"@)
    } else if reason == RUNNABLE_REASON_WAKEUP {
        Some("wakeup"@)
    } else {
        None
    }
}

pub fn runnable_reason(reason: u32) -> (r: Option<&'static str>)
    ensures
        crate::converter::name_text(r) == reason_text(reason),
{
    if reason == RUNNABLE_REASON_PREEMPTED {
        Some("preempted")
    } else if reason == RUNNABLE_REASON_STILL_RUNNING {
        Some("still_running")
    } else if reason == RUNNABLE_REASON_WAKEUP {
        Some("wakeup")
    } else {
        None
    }
}

impl SchedSpanEvent {
    /// The event that lies in `data`.
    pub open spec fn in_bytes(data: Seq<u8>) -> SchedSpanEvent {
        SchedSpanEvent {
            pid: u32_at(data, 0),
            tid: u32_at(data, 4),
            start_time: u64_at(data, 8),
            end_time: u64_at(data, 16),
            cpu: u32_at(data, 24),
            event_type: u32_at(data, 28),
            frame: u64_at(data, 32),
            reason: u32_at(data, 40),
            task_state: u32_at(data, 44),
        }
    }

    pub fn from_bytes(data: &[u8]) -> (r: Result<Self, BpfError>)
        ensures
            match r {
                Ok(event) => data@.len() >= 48 && event == Self::in_bytes(data@),
                Err(e) => data@.len() < 48 && e.is_map(
                    "failed to parse sched span event: TooShort"@,
                ),
            },
    {
        if data.len() < 48 {
            return Err(map_error("failed to parse sched span event: TooShort"));
        }
        Ok(
            SchedSpanEvent {
                pid: read_u32(data, 0),
                tid: read_u32(data, 4),
                start_time: read_u64(data, 8),
                end_time: read_u64(data, 16),
                cpu: read_u32(data, 24),
                event_type: read_u32(data, 28),
                frame: read_u64(data, 32),
                reason: read_u32(data, 40),
                task_state: read_u32(data, 44),
            },
        )
    }

    /// Whether the name of the span needs the name of a kernel function.
    pub open spec fn wants_symbol(self) -> bool {
        self.event_type == SCHED_EVENT_BLOCKED && self.frame != 0
    }

    pub fn needs_symbol(&self) -> (r: bool)
        ensures
            r == self.wants_symbol(),
    {
        self.event_type == SCHED_EVENT_BLOCKED && self.frame != 0
    }

    /// The name of the span: the state and, of a blocked thread, where in the
    /// kernel it is blocked, by name or by address.
    pub open spec fn name(self, symbol: Option<Seq<char>>) -> Seq<char> {
        if self.wants_symbol() {
            match symbol {
                Some(s) => "blocked ["@ + s + "]"@,
                None => "blocked [0x"@ + numeral(self.frame as nat, 16) + "]"@,
            }
        } else if self.event_type == SCHED_EVENT_BLOCKED {
            "blocked"@
        } else if self.event_type == SCHED_EVENT_RUNNABLE {
            "runnable"@
        } else {
            "running"@
        }
    }

    /// The labels of the span.
    pub open spec fn labels(self) -> LabelsView {
        let cpu = label_put(seq![], "cpu"@, self.cpu as i64);
        LabelsView {
            strings: match reason_text(self.reason) {
                Some(text) => label_put(seq![], "reason"@, text),
                None => seq![],
            },
            ints: if self.event_type == SCHED_EVENT_BLOCKED {
                label_put(cpu, "task_state"@, self.task_state as i64)
            } else {
                cpu
            },
            bools: seq![],
            floats: seq![],
        }
    }

    /// The message of the span on a track.
    pub open spec fn message(self, symbol: Option<Seq<char>>, track: u64) -> MessageView {
        MessageView::Event(
            EventView::Span(
                SpanView {
                    name: self.name(symbol),
                    span_id: self.start_time,
                    start_timestamp: self.start_time,
                    end_timestamp: self.end_time,
                    track_id: TrackId::Custom { id: track },
                    labels: self.labels(),
                },
            ),
        )
    }
}

/// The first name among what was found for an address.
pub open spec fn first_name(names: Seq<Option<String>>) -> Option<Seq<char>>
    decreases names.len(),
{
    if names.len() == 0 {
        None
    } else {
        match names[0] {
            Some(name) => Some(name@),
            None => first_name(names.drop_first()),
        }
    }
}

/// The name of a kernel function, if its lookup gave one.
pub fn resolve_kernel_symbol(lookup: Result<Vec<Option<String>>, String>) -> (r: Option<String>)
    ensures
        crate::protocol::optional_text(r) == (match lookup {
            Ok(names) => first_name(names@),
            Err(_) => None,
        }),
{
    match lookup {
        Err(_) => None,
        Ok(names) => {
            let ghost all = names@;
            let mut i: usize = 0;
            assert(all.skip(0) =~= all);
            while i < names.len()
                invariant
                    i <= names@.len(),
                    all == names@,
                    lookup is Ok,
                    lookup->Ok_0@ == all,
                    first_name(all) == first_name(all.skip(i as int)),
                decreases names@.len() - i,
            {
                assert(all.skip(i as int).drop_first() =~= all.skip(i + 1));
                if let Some(name) = &names[i] {
                    return Some(name.clone());
                }
                i += 1;
            }
            None
        },
    }
}

/// The name of a span.
pub fn span_name(event: &SchedSpanEvent, symbol: Option<&str>) -> (r: String)
    ensures
        r@ == event.name(crate::converter::name_text(symbol)),
{
    if event.needs_symbol() {
        match symbol {
            Some(s) => "blocked [".to_owned().concat(s).concat("]"),
            None => {
                let mut r: String = "blocked [0x".to_owned();
                push_numeral(&mut r, event.frame, 16);
                r.append("]");
                r
            },
        }
    } else if event.event_type == SCHED_EVENT_BLOCKED {
        "blocked".to_owned()
    } else if event.event_type == SCHED_EVENT_RUNNABLE {
        "runnable".to_owned()
    } else {
        "running".to_owned()
    }
}

/// A thread of a process.
#[derive(Debug, Clone, Copy, PartialEq, Eq, Structural)]
pub struct ThreadKey {
    pub pid: i32,
    pub tid: i32,
}

impl TableKey for ThreadKey {
    fn same(&self, other: &Self) -> (r: bool) {
        *self == *other
    }
}

/// The track of a thread's states.
pub open spec fn track_message(key: ThreadKey, id: u64) -> MessageView {
    MessageView::Event(
        EventView::Track(
            TrackView {
                name: "scheduler"@,
                track_type: TrackTypeView::Custom { id },
                parent: Some(TrackTypeView::Thread { tid: key.tid, pid: key.pid }),
            },
        ),
    )
}

impl SchedSpanEvent {
    /// The thread that the event is about.
    pub open spec fn thread(self) -> ThreadKey {
        ThreadKey { pid: self.pid as i32, tid: self.tid as i32 }
    }

    /// What sending the span of the event does, given the tracks of the threads and
    /// the messages before and after it, and the number that came back for the span.
    pub open spec fn sent(
        self,
        symbol: Option<Seq<char>>,
        tracks: Map<ThreadKey, u64>,
        past: Seq<(MessageView, i32)>,
        known: Map<ThreadKey, u64>,
        history: Seq<(MessageView, i32)>,
        code: i32,
    ) -> bool {
        let key = self.thread();
        let id = known[key];
        let span = self.message(symbol, id);
        if tracks.contains_key(key) {
            &&& known == tracks
            &&& history == past.push((span, code))
        } else {
            &&& known == tracks.insert(key, id)
            &&& exists|c: i32|
                history == past.push((#[trigger] track_message(key, id), c)).push((span, code))
        }
    }
}

/// The state of a scheduling tracer.
pub struct SchedTrace {
    thread_track_ids: Table<ThreadKey, u64>,
}

impl SchedTrace {
    /// The track of each thread.
    pub closed spec fn tracks(&self) -> Map<ThreadKey, u64> {
        self.thread_track_ids@
    }

    pub fn new() -> (r: Self)
        ensures
            r.tracks() == Map::<ThreadKey, u64>::empty(),
    {
        SchedTrace { thread_track_ids: Table::new() }
    }

    /// Announces the track of a thread under `id`, which it keeps whatever came
    /// back.
    fn announce<S: MessageSink>(&mut self, key: ThreadKey, id: u64, sink: &mut S) -> (code: i32)
        ensures
            final(self).tracks() == old(self).tracks().insert(key, id),
            final(sink).history() == old(sink).history().push((track_message(key, id), code)),
    {
        let code: i32 = sink.submit(
            Message::Event(
                Event::Track(
                    Track {
                        name: "scheduler".to_owned(),
                        track_type: TrackType::Custom { id },
                        parent: Some(TrackType::Thread { tid: key.tid, pid: key.pid }),
                    },
                ),
            ),
        );
        self.thread_track_ids.insert(key, id);
        code
    }

    /// Sends the span of an event, after the track of its thread, if that is new.
    /// Returns the number that came back for the span.
    pub fn handle_event<S: MessageSink>(
        &mut self,
        event: &SchedSpanEvent,
        symbol: Option<&str>,
        sink: &mut S,
    ) -> (code: i32)
        ensures
            event.sent(
                crate::converter::name_text(symbol),
                old(self).tracks(),
                old(sink).history(),
                final(self).tracks(),
                final(sink).history(),
                code,
            ),
    {
        let key = ThreadKey { pid: event.pid as i32, tid: event.tid as i32 };
        let ghost past = sink.history();
        let track: u64 = match self.thread_track_ids.get(&key) {
            Some(id) => id,
            None => {
                let id: u64 = random_u64();
                let _ = self.announce(key, id, sink);
                id
            },
        };
        let mut labels: Labels = Labels::new();
        labels.set_int("cpu", event.cpu as i64);
        if event.event_type == SCHED_EVENT_BLOCKED {
            labels.set_int("task_state", event.task_state as i64);
        }
        if let Some(reason) = runnable_reason(event.reason) {
            labels.set_string("reason", reason.to_owned());
        }
        sink.submit(
            Message::Event(
                Event::Span(
                    Span {
                        name: span_name(event, symbol),
                        span_id: event.start_time,
                        start_timestamp: event.start_time,
                        end_timestamp: event.end_time,
                        track_id: TrackId::Custom { id: track },
                        labels,
                    },
                ),
            ),
        )
    }
}

} // verus!

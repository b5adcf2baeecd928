//! How the states of threads are shown.

use crate::bpf::schedtrace::{first_name, SchedSpanEvent, ThreadKey};
use crate::protocol::{
    label_get, law_label_reads_back, EventView, LabelsView, MessageView, TrackId, TrackTypeView,
};
use crate::text::numeral;
use vstd::prelude::*;

verus! {

/// Whether a span shows an event on a track.
pub open spec fn shows(
    message: MessageView,
    event: SchedSpanEvent,
    symbol: Option<Seq<char>>,
    track: u64,
) -> bool {
    match message {
        MessageView::Event(EventView::Span(span)) => {
            &&& span.span_id == event.start_time
            &&& span.start_timestamp == event.start_time
            &&& span.end_timestamp == event.end_time
            &&& span.track_id == (TrackId::Custom { id: track })
            &&& named(span.name, event, symbol)
            &&& labelled(span.labels, event)
        },
        _ => false,
    }
}

/// Whether a name says what state an event is about: 1 stands for a blocked thread, 2
/// for one that waits to run, and anything else for one that runs. A blocked thread is
/// named after the function of the kernel in which it is blocked.
pub open spec fn named(name: Seq<char>, event: SchedSpanEvent, symbol: Option<Seq<char>>) -> bool {
    &&& event.event_type == 1 && event.frame != 0 && symbol is Some ==> name == "blocked ["@
        + symbol->0 + "]"@
    &&& event.event_type == 1 && event.frame != 0 && symbol is None ==> name == "blocked [0x"@
        + numeral(event.frame as nat, 16) + "]"@
    &&& event.event_type == 1 && event.frame == 0 ==> name == "blocked"@
    &&& event.event_type == 2 ==> name == "runnable"@
    &&& event.event_type != 1 && event.event_type != 2 ==> name == "running"@
}

/// Whether labels tell of an event: its processor, the state of a blocked thread, and
/// why a thread waits to run, and nothing else.
pub open spec fn labelled(labels: LabelsView, event: SchedSpanEvent) -> bool {
    &&& label_get(labels.ints, "cpu"@) == Some(event.cpu as i64)
    &&& label_get(labels.ints, "task_state"@) == (if event.event_type == 1 {
        Some(event.task_state as i64)
    } else {
        None
    })
    &&& label_get(labels.strings, "reason"@) == (if event.reason == 1 {
        Some("preempted"@)
    } else if event.reason == 2 {
        Some("still_running"@)
    } else if event.reason == 3 {
        Some("wakeup"@)
    } else {
        None
    })
    &&& labels.ints.len() == if event.event_type == 1 { 2int } else { 1 }
    &&& labels.bools.len() == 0
    &&& labels.floats.len() == 0
}

/// Each event is shown by one span, which is the last message, on the track of its
/// thread. A thread that has none yet gets one first, below that thread; every other
/// keeps what it has.
pub proof fn law_state_is_shown(
    event: SchedSpanEvent,
    symbol: Option<Seq<char>>,
    tracks: Map<ThreadKey, u64>,
    past: Seq<(MessageView, i32)>,
    known: Map<ThreadKey, u64>,
    history: Seq<(MessageView, i32)>,
    code: i32,
)
    requires
        event.sent(symbol, tracks, past, known, history, code),
    ensures
        ({
            let thread = ThreadKey { pid: event.pid as i32, tid: event.tid as i32 };
            let new = !tracks.contains_key(thread);
            let n = history.len() as int;
            &&& known.contains_key(thread)
            &&& shows(history[n - 1].0, event, symbol, known[thread])
            &&& history[n - 1].1 == code
            &&& history.len() == past.len() + if new { 2int } else { 1 }
            &&& history.take(past.len() as int) == past
            &&& new ==> (match history[n - 2].0 {
                MessageView::Event(EventView::Track(track)) => {
                    &&& track.name == "scheduler"@
                    &&& track.track_type == (TrackTypeView::Custom { id: known[thread] })
                    &&& track.parent == Some(
                        TrackTypeView::Thread { tid: event.tid as i32, pid: event.pid as i32 },
                    )
                },
                _ => false,
            })
            &&& forall|other: ThreadKey|
                tracks.contains_key(other) ==> known.contains_key(other) && known[other]
                    == tracks[other]
            &&& forall|other: ThreadKey|
                known.contains_key(other) && other != thread ==> tracks.contains_key(other)
        }),
{
    let none: Seq<(Seq<char>, i64)> = seq![];
    let words: Seq<(Seq<char>, Seq<char>)> = seq![];
    reveal_strlit("cpu");
    reveal_strlit("task_state");
    assert("cpu"@.len() != "task_state"@.len());
    law_label_reads_back(none, "cpu"@, event.cpu as i64, "task_state"@);
    let cpu = crate::protocol::label_put(none, "cpu"@, event.cpu as i64);
    law_label_reads_back(cpu, "task_state"@, event.task_state as i64, "cpu"@);
    law_label_reads_back(words, "reason"@, "preempted"@, "cpu"@);
    law_label_reads_back(words, "reason"@, "still_running"@, "cpu"@);
    law_label_reads_back(words, "reason"@, "wakeup"@, "cpu"@);
    assert(history.take(past.len() as int) =~= past);
}

/// A function of the kernel goes by the first name that was found for it.
pub proof fn law_first_name(names: Seq<Option<String>>)
    ensures
        first_name(names) is None <==> forall|i: int|
            0 <= i < names.len() ==> (#[trigger] names[i]) is None,
        forall|i: int|
            0 <= i < names.len() && (#[trigger] names[i]) is Some && (forall|j: int|
                0 <= j < i ==> (#[trigger] names[j]) is None) ==> first_name(names) == Some(
                names[i]->0@,
            ),
    decreases names.len(),
{
    if names.len() > 0 && names[0] is None {
        let rest = names.drop_first();
        law_first_name(rest);
        assert forall|i: int|
            0 <= i < names.len() && (#[trigger] names[i]) is Some && (forall|j: int|
                0 <= j < i ==> (#[trigger] names[j]) is None) implies first_name(names) == Some(
            names[i]->0@,
        ) by {
            assert(rest[i - 1] == names[i]);
            assert forall|j: int| 0 <= j < i - 1 implies (#[trigger] rest[j]) is None by {
                assert(rest[j] == names[j + 1]);
            }
        }
        if first_name(names) is None {
            assert forall|i: int| 0 <= i < names.len() implies (#[trigger] names[i]) is None by {
                if i > 0 {
                    assert(rest[i - 1] == names[i]);
                }
            }
        }
        if forall|i: int| 0 <= i < names.len() ==> (#[trigger] names[i]) is None {
            assert forall|i: int| 0 <= i < rest.len() implies (#[trigger] rest[i]) is None by {
                assert(rest[i] == names[i + 1]);
            }
        }
    }
}

} // verus!

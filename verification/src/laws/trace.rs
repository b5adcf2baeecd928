//! What a trace shows of the messages that were converted.

use crate::converter::{
    annotations_of, carried_out, describe_steps, event_steps, id_steps, lemma_id_sound,
    lemma_process_sound, lemma_run_concat, lemma_thread_sound, lemma_track_sound, message_parts,
    parent_steps, parent_uuid, process_steps, thread_steps, track_steps, ConverterView, Step,
};
use crate::perfetto::packet::{
    CounterValue, DebugAnnotationView, DebugValueView, EventType, PacketDataView, SequenceFlags,
    TracePacketView, TrackKindView,
};
use crate::perfetto::writer::Attempts;
use crate::protocol::{
    CounterView, EventView, InstantView, InternedDataView, LabelsView, MessageView, Sample,
    SpanView, TrackId, TrackTypeView, TrackView,
};
use vstd::prelude::*;
use vstd::utf8::encode_utf8;

verus! {

/// What steps hand to the sink.
proof fn lemma_run_attempts(s: ConverterView, steps: Seq<Step>)
    ensures
        s.run(steps).attempts.len() == s.attempts.len() + steps.len(),
        forall|i: int|
            0 <= i < s.attempts.len() ==> #[trigger] s.run(steps).attempts[i] == s.attempts[i],
        forall|i: int|
            0 <= i < steps.len() ==> s.run(steps).attempts[s.attempts.len() + i] == (
                (#[trigger] steps[i]).packet,
                None::<Seq<char>>,
            ),
    decreases steps.len(),
{
    if steps.len() > 0 {
        lemma_run_attempts(s, steps.drop_last());
        assert forall|i: int| 0 <= i < steps.len() implies s.run(steps).attempts[s.attempts.len()
            + i] == ((#[trigger] steps[i]).packet, None::<Seq<char>>) by {
            if i < steps.len() - 1 {
                assert(steps.drop_last()[i] == steps[i]);
            }
        }
    }
}

/// The steps that make a track known hand over nothing but descriptions.
proof fn lemma_id_steps_describe(s: ConverterView, id: TrackId)
    ensures
        forall|i: int|
            0 <= i < id_steps(s, id).len() ==> (#[trigger] id_steps(s, id)[i]).packet.data
                is TrackDescriptor,
{
}

/// Whether a packet is an event on a track: of a type, at a time, with a name if it has
/// one, and outside of every stream.
pub open spec fn is_event(
    packet: TracePacketView,
    event_type: EventType,
    uuid: u64,
    timestamp: u64,
    name: Option<Seq<char>>,
) -> bool {
    &&& packet.timestamp == Some(timestamp)
    &&& packet.sequence_id == 0xffff_ffff
    &&& packet.trusted_pid is None
    &&& packet.data matches PacketDataView::TrackEvent(event) && {
        &&& event.event_type == event_type
        &&& event.track_uuid == uuid
        &&& event.name == name
    }
}

/// The annotations of an event.
pub open spec fn notes_of(packet: TracePacketView) -> Seq<DebugAnnotationView> {
    packet.data->TrackEvent_0.debug_annotations
}

/// Whether annotations are labels: each label by its name and its value, and no more.
pub open spec fn are_labels(notes: Seq<DebugAnnotationView>, labels: LabelsView) -> bool {
    let s = labels.strings.len() as int;
    let i = s + labels.ints.len();
    let b = i + labels.bools.len();
    &&& notes.len() == b + labels.floats.len()
    &&& forall|k: int|
        0 <= k < s ==> (#[trigger] notes[k]).name == labels.strings[k].0 && notes[k].value
            == DebugValueView::String(labels.strings[k].1)
    &&& forall|k: int|
        s <= k < i ==> (#[trigger] notes[k]).name == labels.ints[k - s].0 && notes[k].value
            == DebugValueView::Int(labels.ints[k - s].1)
    &&& forall|k: int|
        i <= k < b ==> (#[trigger] notes[k]).name == labels.bools[k - i].0 && notes[k].value
            == DebugValueView::Bool(labels.bools[k - i].1)
    &&& forall|k: int|
        b <= k < notes.len() ==> (#[trigger] notes[k]).name == labels.floats[k - b].0
            && notes[k].value == DebugValueView::Double(labels.floats[k - b].1)
}

proof fn lemma_annotations(labels: LabelsView)
    ensures
        are_labels(annotations_of(labels), labels),
{
}

/// Whether an event on a track can be shown: the track is known, or is one of a thread
/// or a process.
pub open spec fn can_show(tracks: Map<TrackId, u64>, id: TrackId) -> bool {
    tracks.contains_key(id) || id is Thread || id is Process
}

/// A span on a track that can be shown ends what is written with two events on that
/// track: a begin at its start, with its name and labels, and an end at its end. Before
/// these come descriptions only.
pub proof fn law_span_begins_and_ends(
    before: ConverterView,
    span: SpanView,
    stream_id: Option<u16>,
    after: ConverterView,
)
    requires
        can_show(before.tracks, span.track_id),
        carried_out(before, event_steps(before, EventView::Span(span), stream_id), after, None),
    ensures
        ({
            let old_len = before.attempts.len() as int;
            let n = after.attempts.len() as int;
            &&& after.tracks.contains_key(span.track_id)
            &&& n >= old_len + 2
            &&& forall|i: int| 0 <= i < old_len ==> #[trigger] after.attempts[i] == before.attempts[i]
            &&& forall|i: int|
                old_len <= i < n - 2 ==> (#[trigger] after.attempts[i]).0.data is TrackDescriptor
            &&& is_event(
                after.attempts[n - 2].0,
                EventType::SliceBegin,
                after.tracks[span.track_id],
                span.start_timestamp,
                Some(span.name),
            )
            &&& are_labels(notes_of(after.attempts[n - 2].0), span.labels)
            &&& is_event(
                after.attempts[n - 1].0,
                EventType::SliceEnd,
                after.tracks[span.track_id],
                span.end_timestamp,
                None,
            )
        }),
{
    let steps = event_steps(before, EventView::Span(span), stream_id);
    let first = id_steps(before, span.track_id);
    lemma_id_sound(before, span.track_id);
    lemma_id_steps_describe(before, span.track_id);
    lemma_run_attempts(before, steps);
    lemma_annotations(span.labels);
    let m = first.len() as int;
    let events = seq![steps[m], steps[m + 1]];
    assert(steps =~= first + events);
    lemma_run_concat(before, first, events);
    assert(events.drop_last() =~= seq![steps[m]]);
    assert(events.drop_last().drop_last() =~= seq![]);
    let known = before.run(first);
    assert(known.run(events.drop_last().drop_last()) == known);
    assert(known.run(events.drop_last()) == known.after(steps[m], None));
    assert(known.run(events) == known.after(steps[m], None).after(steps[m + 1], None));
    assert(after.tracks == known.tracks);
    assert forall|i: int|
        before.attempts.len() <= i < after.attempts.len() - 2 implies (
    #[trigger] after.attempts[i]).0.data is TrackDescriptor by {
        let j = i - before.attempts.len();
        assert(steps[j] == first[j]);
    }
    assert(after.attempts[before.attempts.len() + m] == (steps[m].packet, None::<Seq<char>>));
    assert(after.attempts[before.attempts.len() + (m + 1)] == (
        steps[m + 1].packet,
        None::<Seq<char>>,
    ));
}

/// An instant on a track that can be shown ends what is written with one event on that
/// track, at its time, with its name and labels. Before it come descriptions only.
pub proof fn law_instant_is_shown(
    before: ConverterView,
    instant: InstantView,
    stream_id: Option<u16>,
    after: ConverterView,
)
    requires
        can_show(before.tracks, instant.track_id),
        carried_out(
            before,
            event_steps(before, EventView::Instant(instant), stream_id),
            after,
            None,
        ),
    ensures
        ({
            let old_len = before.attempts.len() as int;
            let n = after.attempts.len() as int;
            &&& after.tracks.contains_key(instant.track_id)
            &&& n >= old_len + 1
            &&& forall|i: int| 0 <= i < old_len ==> #[trigger] after.attempts[i] == before.attempts[i]
            &&& forall|i: int|
                old_len <= i < n - 1 ==> (#[trigger] after.attempts[i]).0.data is TrackDescriptor
            &&& is_event(
                after.attempts[n - 1].0,
                EventType::Instant,
                after.tracks[instant.track_id],
                instant.timestamp,
                Some(instant.name),
            )
            &&& are_labels(notes_of(after.attempts[n - 1].0), instant.labels)
        }),
{
    let steps = event_steps(before, EventView::Instant(instant), stream_id);
    let first = id_steps(before, instant.track_id);
    lemma_id_sound(before, instant.track_id);
    lemma_id_steps_describe(before, instant.track_id);
    lemma_run_attempts(before, steps);
    lemma_annotations(instant.labels);
    let m = first.len() as int;
    let events = seq![steps[m]];
    assert(steps =~= first + events);
    lemma_run_concat(before, first, events);
    assert(events.drop_last() =~= seq![]);
    let known = before.run(first);
    assert(known.run(events.drop_last()) == known);
    assert(known.run(events) == known.after(steps[m], None));
    assert forall|i: int|
        before.attempts.len() <= i < after.attempts.len() - 1 implies (
    #[trigger] after.attempts[i]).0.data is TrackDescriptor by {
        let j = i - before.attempts.len();
        assert(steps[j] == first[j]);
    }
    assert(after.attempts[before.attempts.len() + m] == (steps[m].packet, None::<Seq<char>>));
}

/// A value of a counter that is known writes one packet: that value, at its time, on the
/// counter's track.
pub proof fn law_counter_value_is_shown(
    before: ConverterView,
    counter: CounterView,
    stream_id: Option<u16>,
    after: ConverterView,
)
    requires
        before.tracks.contains_key(counter.track_id),
        carried_out(
            before,
            event_steps(before, EventView::Counter(counter), stream_id),
            after,
            None,
        ),
    ensures
        after.tracks == before.tracks,
        after.attempts.len() == before.attempts.len() + 1,
        forall|i: int|
            0 <= i < before.attempts.len() ==> #[trigger] after.attempts[i] == before.attempts[i],
        is_event(
            after.attempts.last().0,
            EventType::Counter,
            before.tracks[counter.track_id],
            counter.timestamp,
            None,
        ),
        after.attempts.last().0.data->TrackEvent_0.counter_value == Some(
            CounterValue::Double(counter.value),
        ),
{
    let steps = event_steps(before, EventView::Counter(counter), stream_id);
    lemma_run_attempts(before, steps);
    assert(steps.drop_last() =~= seq![]);
    assert(before.run(steps.drop_last()) == before);
    assert(after.attempts[before.attempts.len() as int + 0] == (steps[0].packet, None::<Seq<char>>));
}

/// A stack sample of a thread writes one packet, on the sequence of its stream: the
/// thread and the process, the processor, the time, and the id of the call stack.
pub proof fn law_sample_is_shown(
    before: ConverterView,
    sample: Sample,
    stream_id: Option<u16>,
    after: ConverterView,
    pid: i32,
    tid: i32,
)
    requires
        sample.track_id == (TrackId::Thread { tid, pid }),
        pid >= 0,
        tid >= 0,
        carried_out(before, event_steps(before, EventView::Sample(sample), stream_id), after, None),
    ensures
        after.tracks == before.tracks,
        after.attempts.len() == before.attempts.len() + 1,
        ({
            let packet = after.attempts.last().0;
            &&& packet.timestamp == Some(sample.timestamp)
            &&& packet.trusted_pid == Some(pid)
            &&& packet.sequence_id == match stream_id {
                Some(id) => id as u32,
                None => u32::MAX,
            }
            &&& packet.data matches PacketDataView::PerfSample(p) && {
                &&& p.cpu == sample.cpu
                &&& p.pid == pid
                &&& p.tid == tid
                &&& p.callstack_iid == sample.callstack_iid
                &&& p.timebase_count == 1
            }
        }),
{
    let steps = event_steps(before, EventView::Sample(sample), stream_id);
    lemma_run_attempts(before, steps);
    assert(steps.drop_last() =~= seq![]);
    assert(before.run(steps.drop_last()) == before);
    assert(after.attempts[before.attempts.len() as int + 0] == (steps[0].packet, None::<Seq<char>>));
    assert((pid as u32) as i32 == pid) by (bit_vector)
        requires
            pid >= 0,
    ;
}

/// Interned data writes one packet, on the sequence of its stream, with all that it
/// describes, names as UTF-8. It starts afresh unless it says that it continues.
pub proof fn law_interned_data_is_shown(
    before: ConverterView,
    data: InternedDataView,
    stream_id: Option<u16>,
    after: ConverterView,
)
    requires
        carried_out(
            before,
            event_steps(before, EventView::InternedData(data), stream_id),
            after,
            None,
        ),
    ensures
        after.tracks == before.tracks,
        after.attempts.len() == before.attempts.len() + 1,
        ({
            let packet = after.attempts.last().0;
            &&& packet.sequence_id == match stream_id {
                Some(id) => id as u32,
                None => u32::MAX,
            }
            &&& packet.data matches PacketDataView::InternedData(content, flags) && {
                &&& flags == SequenceFlags::IncrementalStateCleared <==> !data.continuation
                &&& flags == SequenceFlags::NeedsIncrementalState <==> data.continuation
                &&& content.frames == data.frames
                &&& content.callstacks == data.callstacks
                &&& content.mappings == data.mappings
                &&& content.function_names.len() == data.function_names.len()
                &&& forall|i: int|
                    0 <= i < data.function_names.len() ==> (
                    #[trigger] content.function_names[i]).iid == data.function_names[i].iid
                        && content.function_names[i].str == encode_utf8(data.function_names[i].str)
                &&& content.build_ids.len() == data.build_ids.len()
                &&& forall|i: int|
                    0 <= i < data.build_ids.len() ==> (#[trigger] content.build_ids[i]).iid
                        == data.build_ids[i].iid && content.build_ids[i].str == encode_utf8(
                        data.build_ids[i].str,
                    )
            }
        }),
{
    let steps = event_steps(before, EventView::InternedData(data), stream_id);
    lemma_run_attempts(before, steps);
    assert(steps.drop_last() =~= seq![]);
    assert(before.run(steps.drop_last()) == before);
    assert(after.attempts[before.attempts.len() as int + 0] == (steps[0].packet, None::<Seq<char>>));
}

/// How many events of a type on a track packets hold.
pub open spec fn event_count(attempts: Attempts, event_type: EventType, uuid: u64) -> int
    decreases attempts.len(),
{
    if attempts.len() == 0 {
        0
    } else {
        event_count(attempts.drop_last(), event_type, uuid) + match attempts.last().0.data {
            PacketDataView::TrackEvent(event) => if event.event_type == event_type
                && event.track_uuid == uuid {
                1int
            } else {
                0
            },
            _ => 0,
        }
    }
}

/// Packets that hold no events of a type leave its count.
proof fn lemma_no_events(attempts: Attempts, n: int, event_type: EventType, uuid: u64)
    requires
        0 <= n <= attempts.len(),
        forall|i: int|
            n <= i < attempts.len() ==> ((#[trigger] attempts[i]).0.data matches
                PacketDataView::TrackEvent(event) ==> event.event_type != event_type
                || event.track_uuid != uuid),
    ensures
        event_count(attempts, event_type, uuid) == event_count(attempts.take(n), event_type, uuid),
    decreases attempts.len() - n,
{
    if n == attempts.len() {
        assert(attempts.take(n) =~= attempts);
    } else {
        let rest = attempts.drop_last();
        lemma_no_events(rest, n, event_type, uuid);
        assert(rest.take(n) =~= attempts.take(n));
        assert(attempts[attempts.len() - 1] == attempts.last());
    }
}

/// Whatever is converted, as many slices end as begin, on every track.
pub proof fn law_every_slice_ends(
    before: ConverterView,
    message: MessageView,
    after: ConverterView,
    uuid: u64,
)
    requires
        carried_out(
            before,
            event_steps(before, message_parts(message).0, message_parts(message).1),
            after,
            None,
        ),
        event_count(before.attempts, EventType::SliceBegin, uuid) == event_count(
            before.attempts,
            EventType::SliceEnd,
            uuid,
        ),
    ensures
        event_count(after.attempts, EventType::SliceBegin, uuid) == event_count(
            after.attempts,
            EventType::SliceEnd,
            uuid,
        ),
{
    let (event, stream_id) = message_parts(message);
    let steps = event_steps(before, event, stream_id);
    let old_len = before.attempts.len() as int;
    lemma_run_attempts(before, steps);
    let all = after.attempts;
    assert(all.take(old_len) =~= before.attempts);
    match event {
        EventView::Span(span) => {
            if can_show(before.tracks, span.track_id) {
                law_span_begins_and_ends(before, span, stream_id, after);
                let n = all.len() as int;
                let described = all.take(n - 2);
                assert forall|i: int| old_len <= i < described.len() implies (
                #[trigger] described[i]).0.data is TrackDescriptor by {
                    assert(described[i] == all[i]);
                }
                lemma_no_events(described, old_len, EventType::SliceBegin, uuid);
                lemma_no_events(described, old_len, EventType::SliceEnd, uuid);
                assert(described.take(old_len) =~= before.attempts);
                let begun = all.take(n - 1);
                assert(all.drop_last() =~= begun);
                assert(begun.drop_last() =~= described);
                assert(begun.last() == all[n - 2]);
                let hit = if after.tracks[span.track_id] == uuid {
                    1int
                } else {
                    0
                };
                let (begin, end) = (EventType::SliceBegin, EventType::SliceEnd);
                assert(event_count(begun, begin, uuid) == event_count(described, begin, uuid)
                    + hit);
                assert(event_count(begun, end, uuid) == event_count(described, end, uuid));
                assert(event_count(all, begin, uuid) == event_count(begun, begin, uuid));
                assert(event_count(all, end, uuid) == event_count(begun, end, uuid) + hit);
            } else {
                assert(all =~= before.attempts);
            }
        },
        EventView::Track(track) => {
            lemma_track_steps_describe(before, track);
            assert forall|i: int| old_len <= i < all.len() implies (
            #[trigger] all[i]).0.data is TrackDescriptor by {
                let j = i - old_len;
                assert(all[old_len + j].0 == steps[j].packet);
            }
            lemma_no_events(all, old_len, EventType::SliceBegin, uuid);
            lemma_no_events(all, old_len, EventType::SliceEnd, uuid);
        },
        EventView::Instant(instant) => {
            if can_show(before.tracks, instant.track_id) {
                law_instant_is_shown(before, instant, stream_id, after);
                assert forall|i: int| old_len <= i < all.len() implies ((
                #[trigger] all[i]).0.data matches PacketDataView::TrackEvent(e) ==> e.event_type
                    == EventType::Instant) by {}
            }
            lemma_no_events(all, old_len, EventType::SliceBegin, uuid);
            lemma_no_events(all, old_len, EventType::SliceEnd, uuid);
        },
        _ => {
            assert forall|i: int| old_len <= i < all.len() implies ((
            #[trigger] all[i]).0.data matches PacketDataView::TrackEvent(e) ==> e.event_type
                == EventType::Counter) by {
                let j = i - old_len;
                assert(all[old_len + j].0 == steps[j].packet);
            }
            lemma_no_events(all, old_len, EventType::SliceBegin, uuid);
            lemma_no_events(all, old_len, EventType::SliceEnd, uuid);
        },
    }
}

/// Announcing a track hands over nothing but descriptions.
proof fn lemma_track_steps_describe(s: ConverterView, track: TrackView)
    ensures
        forall|i: int|
            0 <= i < track_steps(s, track).len() ==> (#[trigger] track_steps(s, track)[i]).packet.data
                is TrackDescriptor,
{
    let steps = track_steps(s, track);
    if !s.tracks.contains_key(track.track_type.id()) {
        let first = parent_steps(s, track.parent);
        if let Some(p) = track.parent {
            lemma_id_steps_describe(s, p.id());
        }
        let rest = describe_steps(s.run(first), track, parent_uuid(s, track.parent));
        assert forall|i: int| 0 <= i < steps.len() implies (
        #[trigger] steps[i]).packet.data is TrackDescriptor by {
            if i < first.len() {
                assert(steps[i] == first[i]);
            } else {
                assert(steps[i] == rest[i - first.len()]);
            }
        }
    }
}

/// Whether a packet describes a track under a number, with the number of its parent, if
/// that is known.
pub open spec fn describes(
    packet: TracePacketView,
    track: TrackView,
    uuid: u64,
    tracks: Map<TrackId, u64>,
) -> bool {
    let parent = match track.parent {
        Some(p) => if tracks.contains_key(p.id()) {
            Some(tracks[p.id()])
        } else {
            None
        },
        None => None,
    };
    &&& packet.timestamp is None
    &&& packet.sequence_id == 0xffff_ffff
    &&& packet.trusted_pid is None
    &&& packet.data matches PacketDataView::TrackDescriptor(d) && {
        &&& d.uuid == uuid
        &&& match track.track_type {
            TrackTypeView::Counter { unit, .. } => {
                &&& d.name == Some(track.name)
                &&& d.kind matches TrackKindView::Counter(c) && c.unit_name == unit
                &&& parent is Some ==> d.parent_uuid == parent
                &&& parent is None ==> d.parent_uuid == Some(0u64)
            },
            TrackTypeView::Thread { tid, pid } => {
                &&& d.kind matches TrackKindView::Thread(t) && t.pid == pid && t.tid == tid
                    && t.thread_name == Some(track.name)
                &&& tracks.contains_key(TrackId::Process { pid })
                &&& d.parent_uuid == Some(tracks[TrackId::Process { pid }])
            },
            TrackTypeView::Process { pid } => {
                &&& d.kind matches TrackKindView::Process(p) && p.pid == pid && p.process_name
                    == Some(track.name)
                &&& d.parent_uuid is None
            },
            _ => {
                &&& d.name == Some(track.name)
                &&& d.kind is Generic
                &&& parent is Some ==> d.parent_uuid == parent
                &&& parent is None ==> d.parent_uuid is None
            },
        }
    }
}

/// Announcing a track that is not known ends what is written with its description: its
/// name, what it is, the number it has from then on, and that of its parent. Before it
/// come the descriptions of its parents. A track that is its own parent, and a process
/// under one of its own threads, are left aside.
pub proof fn law_track_is_described(
    before: ConverterView,
    track: TrackView,
    stream_id: Option<u16>,
    after: ConverterView,
)
    requires
        before.wf(),
        before.has_room(),
        !before.tracks.contains_key(track.track_type.id()),
        track.parent matches Some(p) ==> p.id() != track.track_type.id(),
        track.track_type matches TrackTypeView::Process { pid } ==> (track.parent matches Some(
            TrackTypeView::Thread { pid: own, .. },
        ) ==> own != pid),
        carried_out(before, event_steps(before, EventView::Track(track), stream_id), after, None),
    ensures
        after.tracks.contains_key(track.track_type.id()),
        after.attempts.len() > before.attempts.len(),
        forall|i: int|
            0 <= i < before.attempts.len() ==> #[trigger] after.attempts[i] == before.attempts[i],
        forall|i: int|
            before.attempts.len() <= i < after.attempts.len() ==> (
            #[trigger] after.attempts[i]).0.data is TrackDescriptor,
        describes(
            after.attempts.last().0,
            track,
            after.tracks[track.track_type.id()],
            after.tracks,
        ),
{
    let steps = track_steps(before, track);
    let id = track.track_type.id();
    lemma_run_attempts(before, steps);
    lemma_track_sound(before, track);
    lemma_track_steps_describe(before, track);
    crate::converter::law_tracks_keep_their_numbers(
        before,
        EventView::Track(track),
        stream_id,
        after,
        None,
    );
    assert forall|i: int| before.attempts.len() <= i < after.attempts.len() implies (
    #[trigger] after.attempts[i]).0.data is TrackDescriptor by {
        let j = i - before.attempts.len();
        assert(after.attempts[before.attempts.len() + j].0 == steps[j].packet);
    }
    let first = parent_steps(before, track.parent);
    let middle = before.run(first);
    let parent = parent_uuid(before, track.parent);
    let rest = describe_steps(middle, track, parent);
    assert(steps == first + rest);
    lemma_run_concat(before, first, rest);
    if let Some(p) = track.parent {
        lemma_id_sound(before, p.id());
        lemma_parent_numbers(before, p.id());
    }
    match track.track_type {
        TrackTypeView::Thread { tid, pid } => {
            lemma_thread_sound(middle, pid, tid, Some(track.name));
            lemma_process_sound(middle, pid, None);
            lemma_thread_run(middle, pid, tid, Some(track.name));
        },
        TrackTypeView::Process { pid } => {
            lemma_process_sound(middle, pid, Some(track.name));
            assert(!middle.tracks.contains_key(id));
        },
        _ => {
            assert(rest =~= seq![rest[0]]);
            assert(rest.drop_last() =~= seq![]);
            assert(middle.run(rest.drop_last()) == middle);
            assert(after == middle.after(rest[0], None));
            if let Some(p) = track.parent {
                if can_show(before.tracks, p.id()) {
                    assert(after.tracks.contains_key(p.id()));
                    assert(after.tracks[p.id()] == parent);
                } else {
                    assert(!after.tracks.contains_key(p.id()));
                }
            }
        },
    }
    let n = steps.len() - 1;
    assert(steps[n] == rest.last());
    assert(after.attempts[before.attempts.len() + n].0 == steps[n].packet);
}

/// What making a thread known leaves: the process's number is the one that the thread's
/// description refers to.
proof fn lemma_thread_run(s: ConverterView, pid: i32, tid: i32, name: Option<Seq<char>>)
    requires
        name is Some,
    ensures
        ({
            let steps = thread_steps(s, pid, tid, name);
            let after = s.run(steps);
            let process = TrackId::Process { pid };
            &&& steps.len() > 0
            &&& after.tracks.contains_key(process)
            &&& after.tracks[process] == crate::converter::process_uuid(s, pid)
        }),
{
    let parent = process_steps(s, pid, None);
    let steps = thread_steps(s, pid, tid, name);
    let last = steps.last();
    lemma_process_sound(s, pid, None);
    assert(steps =~= parent + seq![last]);
    lemma_run_concat(s, parent, seq![last]);
    assert(seq![last].drop_last() =~= seq![]);
    assert(s.run(parent).run(seq![last].drop_last()) == s.run(parent));
}

/// What making a track known from its id adds: itself, and the process of a thread.
proof fn lemma_parent_numbers(s: ConverterView, id: TrackId)
    ensures
        forall|other: TrackId|
            other != id && !(id matches TrackId::Thread { pid, .. } && other == TrackId::Process {
                pid,
            }) ==> (#[trigger] s.run(id_steps(s, id)).tracks.contains_key(other)
                == s.tracks.contains_key(other)),
{
    match id {
        TrackId::Thread { tid, pid } => {
            lemma_thread_sound(s, pid, tid, None);
        },
        TrackId::Process { pid } => {
            lemma_process_sound(s, pid, None);
        },
        _ => {},
    }
}

/// A track goes by the kind that it is of and by the numbers that tell it from others of
/// that kind.
pub proof fn law_ids_of_tracks(
    cpu: u32,
    tid: i32,
    pid: i32,
    id: u64,
    unit: Option<Seq<char>>,
)
    ensures
        (TrackTypeView::Cpu { cpu }).id() == (TrackId::Cpu { cpu }),
        (TrackTypeView::Thread { tid, pid }).id() == (TrackId::Thread { tid, pid }),
        (TrackTypeView::Process { pid }).id() == (TrackId::Process { pid }),
        (TrackTypeView::Custom { id }).id() == (TrackId::Custom { id }),
        (TrackTypeView::Counter { id, unit }).id() == (TrackId::Counter { id }),
{
}

/// A packet that is refused ends its message: it is the last that was handed over, those
/// before it were taken, and a track that it was to describe is not known for it.
pub proof fn law_refused_packet_ends_the_message(
    before: ConverterView,
    event: EventView,
    stream_id: Option<u16>,
    after: ConverterView,
    problem: Seq<char>,
)
    requires
        carried_out(before, event_steps(before, event, stream_id), after, Some(problem)),
    ensures
        after.attempts.len() > before.attempts.len(),
        after.attempts.last().1 == Some(problem),
        forall|i: int|
            0 <= i < before.attempts.len() ==> #[trigger] after.attempts[i] == before.attempts[i],
        forall|i: int|
            before.attempts.len() <= i < after.attempts.len() - 1 ==> (
            #[trigger] after.attempts[i]).1 is None,
        after.flushes == before.flushes,
        event is Counter || event is Sample || event is InternedData ==> after.tracks
            == before.tracks && after.attempts.len() == before.attempts.len() + 1,
{
    let steps = event_steps(before, event, stream_id);
    let k = choose|k: int|
        0 <= k < steps.len() && after == #[trigger] before.run(steps.take(k)).after(
            steps[k],
            Some(problem),
        );
    let done = steps.take(k);
    let middle = before.run(done);
    lemma_run_attempts(before, done);
    lemma_run_flushes(before, done);
    assert forall|i: int| before.attempts.len() <= i < after.attempts.len() - 1 implies (
    #[trigger] after.attempts[i]).1 is None by {
        let j = i - before.attempts.len();
        assert(middle.attempts[before.attempts.len() + j] == (done[j].packet, None::<Seq<char>>));
    }
    assert forall|i: int| 0 <= i < before.attempts.len() implies #[trigger] after.attempts[i]
        == before.attempts[i] by {
        assert(middle.attempts[i] == before.attempts[i]);
    }
    if event is Counter || event is Sample || event is InternedData {
        assert(k == 0);
        assert(done =~= seq![]);
        assert(middle == before);
    }
}

proof fn lemma_run_flushes(s: ConverterView, steps: Seq<Step>)
    ensures
        s.run(steps).flushes == s.flushes,
    decreases steps.len(),
{
    if steps.len() > 0 {
        lemma_run_flushes(s, steps.drop_last());
    }
}

} // verus!

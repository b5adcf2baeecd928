//! What is read of a message where it lies is the message.

use crate::archived::{
    native_ids, ArchivedCallstack, ArchivedCounter, ArchivedEvent, ArchivedFrame, ArchivedI32,
    ArchivedI64, ArchivedInstant, ArchivedInternedData, ArchivedInternedString, ArchivedLabels,
    ArchivedMapping, ArchivedMessage, ArchivedSample, ArchivedSpan, ArchivedTrack, ArchivedTrackId,
    ArchivedTrackType, ArchivedU16, ArchivedU32, ArchivedU64,
};
use crate::protocol::{
    optional_text, CallstackIterable, EventView, FrameIterable, InternedDataIterable,
    InternedStringIterable, LabelsView, MappingIterable, MessageView, Reading, TrackId,
    TrackTypeView,
};
use vstd::bytes::{
    lemma_auto_spec_u16_to_from_le_bytes, lemma_auto_spec_u32_to_from_le_bytes,
    lemma_auto_spec_u64_to_from_le_bytes, spec_u16_to_le_bytes, spec_u32_to_le_bytes,
    spec_u64_to_le_bytes,
};
use vstd::prelude::*;

verus! {

/// A number that lies in a buffer, the lowest byte first, is that number.
pub proof fn law_numbers_in_a_buffer(
    a: ArchivedU16,
    b: ArchivedU32,
    c: ArchivedI32,
    d: ArchivedU64,
    e: ArchivedI64,
    i: i32,
    j: i64,
)
    ensures
        spec_u16_to_le_bytes(a.native()) == a.bytes@,
        spec_u32_to_le_bytes(b.native()) == b.bytes@,
        spec_u64_to_le_bytes(d.native()) == d.bytes@,
        c.bytes@ == spec_u32_to_le_bytes(i as u32) ==> c.native() == i,
        e.bytes@ == spec_u64_to_le_bytes(j as u64) ==> e.native() == j,
{
    lemma_auto_spec_u16_to_from_le_bytes();
    lemma_auto_spec_u32_to_from_le_bytes();
    lemma_auto_spec_u64_to_from_le_bytes();
    assert(spec_u32_to_le_bytes(i as u32).len() == 4);
    assert((i as u32) as i32 == i) by (bit_vector);
    assert((j as u64) as i64 == j) by (bit_vector);
}

/// A track is of the kind that lies in the buffer, with the numbers that lie there.
pub proof fn law_tracks_in_a_buffer(
    cpu: ArchivedU32,
    tid: ArchivedI32,
    pid: ArchivedI32,
    id: ArchivedU64,
    unit: Option<String>,
    track: ArchivedTrack,
)
    ensures
        (ArchivedTrackId::Cpu { cpu }).native() == (TrackId::Cpu { cpu: cpu.native() }),
        (ArchivedTrackId::Thread { tid, pid }).native() == (TrackId::Thread {
            tid: tid.native(),
            pid: pid.native(),
        }),
        (ArchivedTrackId::Process { pid }).native() == (TrackId::Process { pid: pid.native() }),
        (ArchivedTrackId::Custom { id }).native() == (TrackId::Custom { id: id.native() }),
        (ArchivedTrackId::Counter { id }).native() == (TrackId::Counter { id: id.native() }),
        (ArchivedTrackType::Cpu { cpu }).native() == (TrackTypeView::Cpu { cpu: cpu.native() }),
        (ArchivedTrackType::Thread { tid, pid }).native() == (TrackTypeView::Thread {
            tid: tid.native(),
            pid: pid.native(),
        }),
        (ArchivedTrackType::Process { pid }).native() == (TrackTypeView::Process {
            pid: pid.native(),
        }),
        (ArchivedTrackType::Custom { id }).native() == (TrackTypeView::Custom { id: id.native() }),
        (ArchivedTrackType::Counter { id, unit }).native() == (TrackTypeView::Counter {
            id: id.native(),
            unit: optional_text(unit),
        }),
        track.native().name == track.name@,
        track.native().track_type == track.track_type.native(),
        track.parent is None <==> track.native().parent is None,
        track.parent matches Some(parent) ==> track.native().parent == Some(parent.native()),
{
}

/// Whether labels are those that lie in the buffer, each under its name.
pub open spec fn same_labels(labels: LabelsView, archived: ArchivedLabels) -> bool {
    &&& labels.strings.len() == archived.strings@.len()
    &&& labels.ints.len() == archived.ints@.len()
    &&& labels.bools.len() == archived.bools@.len()
    &&& labels.floats.len() == archived.floats@.len()
    &&& forall|i: int|
        0 <= i < labels.strings.len() ==> #[trigger] labels.strings[i] == (
            archived.strings@[i].0@,
            archived.strings@[i].1@,
        )
    &&& forall|i: int|
        0 <= i < labels.ints.len() ==> #[trigger] labels.ints[i] == (
            archived.ints@[i].0@,
            archived.ints@[i].1.native(),
        )
    &&& forall|i: int|
        0 <= i < labels.bools.len() ==> #[trigger] labels.bools[i] == (
            archived.bools@[i].0@,
            archived.bools@[i].1,
        )
    &&& forall|i: int|
        0 <= i < labels.floats.len() ==> #[trigger] labels.floats[i] == (
            archived.floats@[i].0@,
            Reading::Float { bits: archived.floats@[i].1.native() },
        )
}

/// A counter value, a span, an instant and a sample have the names, times, tracks and
/// labels that lie in the buffer.
pub proof fn law_events_in_a_buffer(
    counter: ArchivedCounter,
    span: ArchivedSpan,
    instant: ArchivedInstant,
    sample: ArchivedSample,
    track: ArchivedTrack,
)
    ensures
        ArchivedEvent::Counter(counter).native() matches EventView::Counter(c) && {
            &&& c.name == counter.name@
            &&& c.value == (Reading::Float { bits: counter.value.native() })
            &&& c.timestamp == counter.timestamp.native()
            &&& c.track_id == counter.track_id.native()
            &&& same_labels(c.labels, counter.labels)
            &&& c.unit == optional_text(counter.unit)
        },
        ArchivedEvent::Span(span).native() matches EventView::Span(s) && {
            &&& s.name == span.name@
            &&& s.span_id == span.span_id.native()
            &&& s.start_timestamp == span.start_timestamp.native()
            &&& s.end_timestamp == span.end_timestamp.native()
            &&& s.track_id == span.track_id.native()
            &&& same_labels(s.labels, span.labels)
        },
        ArchivedEvent::Instant(instant).native() matches EventView::Instant(i) && {
            &&& i.name == instant.name@
            &&& i.timestamp == instant.timestamp.native()
            &&& i.track_id == instant.track_id.native()
            &&& same_labels(i.labels, instant.labels)
        },
        ArchivedEvent::Sample(sample).native() matches EventView::Sample(s) && {
            &&& s.cpu == sample.cpu.native()
            &&& s.track_id == sample.track_id.native()
            &&& s.timestamp == sample.timestamp.native()
            &&& s.callstack_iid == sample.callstack_iid.native()
            &&& s.cpu_mode == sample.cpu_mode
        },
        ArchivedEvent::Track(track).native() == EventView::Track(track.native()),
{
}

/// A message is of the stream that lies in the buffer, or of none.
pub proof fn law_messages_in_a_buffer(event: ArchivedEvent, stream_id: ArchivedU16)
    ensures
        ArchivedMessage::Event(event).native() == MessageView::Event(event.native()),
        (ArchivedMessage::Stream { stream_id, event }).native() == (MessageView::Stream {
            stream_id: stream_id.native(),
            event: event.native(),
        }),
{
}

/// What stacks refer to has the ids and the contents that lie in the buffer.
pub proof fn law_interned_data_in_a_buffer(
    data: ArchivedInternedData,
    name: ArchivedInternedString,
    frame: ArchivedFrame,
    stack: ArchivedCallstack,
    mapping: ArchivedMapping,
    ids: Seq<ArchivedU64>,
)
    ensures
        name.string().iid == name.iid.native(),
        name.string().str == name.str@,
        frame.frame().iid == frame.iid.native(),
        frame.frame().function_name_id == frame.function_name_id.native(),
        frame.frame().mapping_id == frame.mapping_id.native(),
        frame.frame().rel_pc == frame.rel_pc.native(),
        stack.callstack().iid == stack.iid.native(),
        stack.callstack().frame_ids == native_ids(stack.frame_ids@),
        mapping.mapping().iid == mapping.iid.native(),
        mapping.mapping().build_id == mapping.build_id.native(),
        mapping.mapping().exact_offset == mapping.exact_offset.native(),
        mapping.mapping().start_offset == mapping.start_offset.native(),
        mapping.mapping().start == mapping.start.native(),
        mapping.mapping().end == mapping.end.native(),
        mapping.mapping().load_bias == mapping.load_bias.native(),
        mapping.mapping().path_string_ids == native_ids(mapping.path_string_ids@),
        native_ids(ids).len() == ids.len(),
        forall|i: int| 0 <= i < ids.len() ==> #[trigger] native_ids(ids)[i] == ids[i].native(),
        ({
            let read = data.interned();
            &&& read.continuation == data.continuation
            &&& read.function_names.len() == data.function_names@.len()
            &&& read.frames.len() == data.frames@.len()
            &&& read.callstacks.len() == data.callstacks@.len()
            &&& read.mappings.len() == data.mappings@.len()
            &&& read.build_ids.len() == data.build_ids@.len()
            &&& forall|i: int|
                0 <= i < read.function_names.len() ==> #[trigger] read.function_names[i]
                    == data.function_names@[i].string()
            &&& forall|i: int|
                0 <= i < read.frames.len() ==> #[trigger] read.frames[i] == data.frames@[i].frame()
            &&& forall|i: int|
                0 <= i < read.callstacks.len() ==> #[trigger] read.callstacks[i]
                    == data.callstacks@[i].callstack()
            &&& forall|i: int|
                0 <= i < read.mappings.len() ==> #[trigger] read.mappings[i]
                    == data.mappings@[i].mapping()
            &&& forall|i: int|
                0 <= i < read.build_ids.len() ==> #[trigger] read.build_ids[i]
                    == data.build_ids@[i].string()
        }),
{
}

} // verus!

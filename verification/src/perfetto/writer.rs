//! Writes packets to a sink.

use super::packet::{
    CounterDescriptor, CounterDescriptorView, CounterValue, DebugAnnotation, DebugAnnotationView,
    EventType, InternedBytes, InternedBytesView, InternedPacket, InternedPacketView, PacketData,
    PacketDataView, PerfSample, ProcessDescriptor, ProcessDescriptorView, SequenceFlags,
    ThreadDescriptor, ThreadDescriptorView, TracePacket, TracePacketView, TrackDescriptor,
    TrackDescriptorView, TrackEvent, TrackEventView, TrackKind, TrackKindView,
};
use crate::protocol::{
    CallstackIterable, FrameIterable, MappingIterable, views, Callstack, Frame,
    InternedDataIterable, InternedDataView, InternedStringIterable, InternedStringView, Mapping,
    Reading, optional_text,
};
use vstd::prelude::*;
use vstd::utf8::encode_utf8;

verus! {

/// Why a packet could not be written.
#[derive(Debug)]
pub struct WriteError {
    pub message: String,
}

/// Packets that were handed over, each with why it was not taken if it was not.
pub type Attempts = Seq<(TracePacketView, Option<Seq<char>>)>;

/// Flushes, each with why it failed if it did.
pub type Flushes = Seq<Option<Seq<char>>>;

/// Why something could not be written, if it could not.
pub open spec fn problem_of<T>(r: Result<T, WriteError>) -> Option<Seq<char>> {
    match r {
        Ok(_) => None,
        Err(e) => Some(e.message@),
    }
}

/// Takes the packets of a trace.
pub trait PacketSink: Sized {
    /// The packets that were handed over, each with why it was not taken if it was
    /// not.
    spec fn attempts(&self) -> Attempts;

    /// Hands a packet over.
    fn put(&mut self, packet: TracePacket) -> (r: Result<(), WriteError>)
        ensures
            final(self).attempts() == old(self).attempts().push((packet@, problem_of(r))),
            final(self).flushes() == old(self).flushes(),
    ;

    /// The flushes, each with why it failed if it did.
    spec fn flushes(&self) -> Flushes;

    /// Writes out what the sink still holds back.
    fn flush(&mut self) -> (r: Result<(), WriteError>)
        ensures
            final(self).attempts() == old(self).attempts(),
            final(self).flushes() == old(self).flushes().push(problem_of(r)),
    ;
}

/// A sink that keeps up to `capacity` packets in memory, and refuses more.
pub struct PacketBuffer {
    packets: Vec<TracePacket>,
    capacity: usize,
    history: Ghost<Attempts>,
    flushed: Ghost<Flushes>,
}

impl PacketBuffer {
    /// The packets that are kept.
    pub closed spec fn kept(&self) -> Seq<TracePacketView> {
        views(self.packets@)
    }

    /// How many packets can be kept.
    pub closed spec fn limit(&self) -> usize {
        self.capacity
    }

    pub fn new(capacity: usize) -> (r: Self)
        ensures
            r.kept() == Seq::<TracePacketView>::empty(),
            r.limit() == capacity,
            r.attempts() == Attempts::empty(),
            r.flushes() == Flushes::empty(),
    {
        let r = PacketBuffer {
            packets: Vec::new(),
            capacity,
            history: Ghost(Seq::empty()),
            flushed: Ghost(Seq::empty()),
        };
        assert(r.kept() =~= Seq::<TracePacketView>::empty());
        r
    }

    pub fn packets(&self) -> (r: &Vec<TracePacket>)
        ensures
            views(r@) == self.kept(),
    {
        &self.packets
    }

    /// Keeps a packet if there is room.
    pub fn keep(&mut self, packet: TracePacket) -> (r: bool)
        ensures
            final(self).limit() == old(self).limit(),
            r == (old(self).kept().len() < old(self).limit()),
            final(self).kept() == (if r {
                old(self).kept().push(packet@)
            } else {
                old(self).kept()
            }),
            final(self).attempts() == old(self).attempts().push(
                (
                    packet@,
                    if r {
                        None
                    } else {
                        Some("no room for the packet"@)
                    },
                ),
            ),
            final(self).flushes() == old(self).flushes(),
    {
        let ghost view = packet@;
        let room: bool = self.packets.len() < self.capacity;
        if room {
            self.packets.push(packet);
            assert(self.kept() =~= old(self).kept().push(view));
        }
        let ghost problem = if room {
            None
        } else {
            Some("no room for the packet"@)
        };
        self.history = Ghost(self.history@.push((view, problem)));
        room
    }
}

impl PacketSink for PacketBuffer {
    closed spec fn attempts(&self) -> Attempts {
        self.history@
    }

    fn put(&mut self, packet: TracePacket) -> (r: Result<(), WriteError>) {
        if self.keep(packet) {
            Ok(())
        } else {
            Err(WriteError { message: "no room for the packet".to_owned() })
        }
    }

    closed spec fn flushes(&self) -> Flushes {
        self.flushed@
    }

    fn flush(&mut self) -> (r: Result<(), WriteError>) {
        self.flushed = Ghost(self.flushed@.push(None));
        Ok(())
    }
}

/// The first number that a track gets.
pub const FIRST_TRACK_UUID: u64 = 1000;

/// The sequence on which packets outside of any stream are sent.
pub open spec fn sequence_of(stream_id: Option<u16>) -> u32 {
    match stream_id {
        Some(id) => id as u32,
        None => u32::MAX,
    }
}

/// The packet of a track's description.
pub open spec fn descriptor_packet(descriptor: TrackDescriptorView) -> TracePacketView {
    TracePacketView {
        timestamp: None,
        trusted_pid: None,
        sequence_id: u32::MAX,
        data: PacketDataView::TrackDescriptor(descriptor),
    }
}

/// The packet of a track event.
pub open spec fn event_packet(timestamp_ns: u64, event: TrackEventView) -> TracePacketView {
    TracePacketView {
        timestamp: Some(timestamp_ns),
        trusted_pid: None,
        sequence_id: u32::MAX,
        data: PacketDataView::TrackEvent(event),
    }
}

/// The description of a process.
pub open spec fn process_packet(uuid: u64, pid: i32, name: Option<Seq<char>>) -> TracePacketView {
    descriptor_packet(
        TrackDescriptorView {
            uuid,
            parent_uuid: None,
            name: None,
            kind: TrackKindView::Process(ProcessDescriptorView { pid, process_name: name }),
        },
    )
}

/// The description of a thread.
pub open spec fn thread_packet(
    uuid: u64,
    pid: i32,
    tid: i32,
    name: Option<Seq<char>>,
    parent_uuid: u64,
) -> TracePacketView {
    descriptor_packet(
        TrackDescriptorView {
            uuid,
            parent_uuid: Some(parent_uuid),
            name: None,
            kind: TrackKindView::Thread(ThreadDescriptorView { pid, tid, thread_name: name }),
        },
    )
}

/// The description of a track that is no process, thread or counter; the parent
/// zero stands for none.
pub open spec fn generic_packet(uuid: u64, name: Seq<char>, parent_uuid: u64) -> TracePacketView {
    descriptor_packet(
        TrackDescriptorView {
            uuid,
            parent_uuid: if parent_uuid > 0 {
                Some(parent_uuid)
            } else {
                None
            },
            name: Some(name),
            kind: TrackKindView::Generic,
        },
    )
}

/// The description of a counter.
pub open spec fn counter_packet(
    uuid: u64,
    name: Seq<char>,
    unit: Option<Seq<char>>,
    parent_uuid: u64,
) -> TracePacketView {
    descriptor_packet(
        TrackDescriptorView {
            uuid,
            parent_uuid: Some(parent_uuid),
            name: Some(name),
            kind: TrackKindView::Counter(CounterDescriptorView { unit_name: unit }),
        },
    )
}

/// The begin of a slice.
pub open spec fn slice_begin_packet(
    uuid: u64,
    name: Seq<char>,
    timestamp_ns: u64,
    annotations: Seq<DebugAnnotationView>,
) -> TracePacketView {
    event_packet(
        timestamp_ns,
        TrackEventView {
            track_uuid: uuid,
            event_type: EventType::SliceBegin,
            name: Some(name),
            debug_annotations: annotations,
            counter_value: None,
        },
    )
}

/// The end of a slice.
pub open spec fn slice_end_packet(uuid: u64, timestamp_ns: u64) -> TracePacketView {
    event_packet(
        timestamp_ns,
        TrackEventView {
            track_uuid: uuid,
            event_type: EventType::SliceEnd,
            name: None,
            debug_annotations: seq![],
            counter_value: None,
        },
    )
}

/// A moment.
pub open spec fn instant_packet(
    uuid: u64,
    name: Seq<char>,
    timestamp_ns: u64,
    annotations: Seq<DebugAnnotationView>,
) -> TracePacketView {
    event_packet(
        timestamp_ns,
        TrackEventView {
            track_uuid: uuid,
            event_type: EventType::Instant,
            name: Some(name),
            debug_annotations: annotations,
            counter_value: None,
        },
    )
}

/// A value of a counter.
pub open spec fn value_packet(uuid: u64, value: CounterValue, timestamp_ns: u64) -> TracePacketView {
    event_packet(
        timestamp_ns,
        TrackEventView {
            track_uuid: uuid,
            event_type: EventType::Counter,
            name: None,
            debug_annotations: seq![],
            counter_value: Some(value),
        },
    )
}

/// A stack sample.
pub open spec fn sample_packet(
    cpu: u32,
    pid: u32,
    tid: u32,
    timestamp_ns: u64,
    callstack_iid: u64,
    stream_id: Option<u16>,
) -> TracePacketView {
    TracePacketView {
        timestamp: Some(timestamp_ns),
        trusted_pid: Some(pid as i32),
        sequence_id: sequence_of(stream_id),
        data: PacketDataView::PerfSample(
            PerfSample { cpu, pid, tid, callstack_iid, timebase_count: 1 },
        ),
    }
}

/// Strings with their ids, as bytes.
pub open spec fn encoded(strings: Seq<InternedStringView>) -> Seq<InternedBytesView> {
    strings.map_values(
        |s: InternedStringView| InternedBytesView { iid: s.iid, str: encode_utf8(s.str) },
    )
}

/// Interned data as a packet holds it.
pub open spec fn interned_content(data: InternedDataView) -> InternedPacketView {
    InternedPacketView {
        function_names: encoded(data.function_names),
        frames: data.frames,
        callstacks: data.callstacks,
        mappings: data.mappings,
        build_ids: encoded(data.build_ids),
    }
}

/// The packet of interned data.
pub open spec fn interned_packet(
    content: InternedPacketView,
    flags: SequenceFlags,
    stream_id: Option<u16>,
) -> TracePacketView {
    TracePacketView {
        timestamp: None,
        trusted_pid: None,
        sequence_id: sequence_of(stream_id),
        data: PacketDataView::InternedData(content, flags),
    }
}

/// Whether interned data adds to what was sent, or starts afresh.
pub open spec fn continuation_flags(continuation: bool) -> SequenceFlags {
    if continuation {
        SequenceFlags::NeedsIncrementalState
    } else {
        SequenceFlags::IncrementalStateCleared
    }
}

/// Writes packets, and numbers tracks.
pub struct PerfettoStreamWriter<W: PacketSink> {
    writer: W,
    track_uuid_counter: u64,
}

impl<W: PacketSink> PerfettoStreamWriter<W> {
    /// The sink.
    pub closed spec fn sink(&self) -> W {
        self.writer
    }

    /// What was handed to the sink.
    pub open spec fn attempts(&self) -> Attempts {
        self.sink().attempts()
    }

    /// The number of the next track.
    pub closed spec fn next_uuid(&self) -> u64 {
        self.track_uuid_counter
    }

    /// Whether this writer is `before` after one packet was handed over.
    pub open spec fn put(
        &self,
        before: &Self,
        packet: TracePacketView,
        problem: Option<Seq<char>>,
    ) -> bool {
        &&& self.attempts() == before.attempts().push((packet, problem))
        &&& self.sink().flushes() == before.sink().flushes()
        &&& self.next_uuid() == before.next_uuid()
    }

    /// The same, for the description of a track that got the next number.
    pub open spec fn described(
        &self,
        before: &Self,
        packet: TracePacketView,
        problem: Option<Seq<char>>,
    ) -> bool {
        &&& self.attempts() == before.attempts().push((packet, problem))
        &&& self.sink().flushes() == before.sink().flushes()
        &&& self.next_uuid() == before.next_uuid() + 1
    }

    pub fn new(writer: W) -> (r: Self)
        ensures
            r.sink() == writer,
            r.next_uuid() == FIRST_TRACK_UUID,
    {
        PerfettoStreamWriter { writer, track_uuid_counter: FIRST_TRACK_UUID }
    }

    /// Lets a caller look at the sink.
    pub fn inner(&self) -> (r: &W)
        ensures
            *r == self.sink(),
    {
        &self.writer
    }

    fn next_track_uuid(&mut self) -> (uuid: u64)
        requires
            old(self).next_uuid() < u64::MAX,
        ensures
            uuid == old(self).next_uuid(),
            final(self).next_uuid() == uuid + 1,
            final(self).sink() == old(self).sink(),
    {
        let uuid: u64 = self.track_uuid_counter;
        self.track_uuid_counter = uuid + 1;
        uuid
    }

    /// Writes a packet on the sequence of its stream.
    pub fn write_packet(&mut self, packet: TracePacket, stream_id: Option<u16>) -> (r: Result<
        (),
        WriteError,
    >)
        ensures
            final(self).put(
                old(self),
                TracePacketView { sequence_id: sequence_of(stream_id), ..packet@ },
                problem_of(r),
            ),
    {
        let sequence_id: u32 = match stream_id {
            Some(id) => id as u32,
            None => u32::MAX,
        };
        self.writer.put(
            TracePacket {
                timestamp: packet.timestamp,
                trusted_pid: packet.trusted_pid,
                sequence_id,
                data: packet.data,
            },
        )
    }

    pub fn flush(&mut self) -> (r: Result<(), WriteError>)
        ensures
            final(self).attempts() == old(self).attempts(),
            final(self).sink().flushes() == old(self).sink().flushes().push(problem_of(r)),
            final(self).next_uuid() == old(self).next_uuid(),
    {
        self.writer.flush()
    }

    fn write_descriptor(&mut self, descriptor: TrackDescriptor) -> (r: Result<(), WriteError>)
        ensures
            final(self).put(old(self), descriptor_packet(descriptor@), problem_of(r)),
    {
        self.write_packet(
            TracePacket {
                timestamp: None,
                trusted_pid: None,
                sequence_id: 0,
                data: PacketData::TrackDescriptor(descriptor),
            },
            None,
        )
    }

    fn write_event(&mut self, timestamp_ns: u64, event: TrackEvent) -> (r: Result<(), WriteError>)
        ensures
            final(self).put(old(self), event_packet(timestamp_ns, event@), problem_of(r)),
    {
        self.write_packet(
            TracePacket {
                timestamp: Some(timestamp_ns),
                trusted_pid: None,
                sequence_id: 0,
                data: PacketData::TrackEvent(event),
            },
            None,
        )
    }

    /// Describes a thread under a new number, and returns the number.
    pub fn write_thread_descriptor(
        &mut self,
        pid: u32,
        tid: u32,
        thread_name: Option<String>,
        parent_uuid: u64,
    ) -> (r: Result<u64, WriteError>)
        requires
            old(self).next_uuid() < u64::MAX,
        ensures
            final(self).described(
                old(self),
                thread_packet(
                    old(self).next_uuid(),
                    pid as i32,
                    tid as i32,
                    optional_text(thread_name),
                    parent_uuid,
                ),
                problem_of(r),
            ),
            r matches Ok(uuid) ==> uuid == old(self).next_uuid(),
    {
        let thread_track_uuid: u64 = self.next_track_uuid();
        match self.write_thread_descriptor_with_uuid(
            thread_track_uuid,
            pid,
            tid,
            thread_name,
            parent_uuid,
        ) {
            Ok(_) => Ok(thread_track_uuid),
            Err(e) => Err(e),
        }
    }

    /// Describes a thread under the given number.
    pub fn write_thread_descriptor_with_uuid(
        &mut self,
        thread_track_uuid: u64,
        pid: u32,
        tid: u32,
        thread_name: Option<String>,
        parent_uuid: u64,
    ) -> (r: Result<(), WriteError>)
        ensures
            final(self).put(
                old(self),
                thread_packet(
                    thread_track_uuid,
                    pid as i32,
                    tid as i32,
                    optional_text(thread_name),
                    parent_uuid,
                ),
                problem_of(r),
            ),
    {
        self.write_descriptor(
            TrackDescriptor {
                uuid: thread_track_uuid,
                parent_uuid: Some(parent_uuid),
                name: None,
                kind: TrackKind::Thread(
                    ThreadDescriptor { pid: pid as i32, tid: tid as i32, thread_name },
                ),
            },
        )
    }

    /// Writes the begin of a slice.
    pub fn write_slice_begin(
        &mut self,
        track_uuid: u64,
        name: String,
        timestamp_ns: u64,
        debug_annotations: Vec<DebugAnnotation>,
    ) -> (r: Result<(), WriteError>)
        ensures
            final(self).put(
                old(self),
                slice_begin_packet(track_uuid, name@, timestamp_ns, views(debug_annotations@)),
                problem_of(r),
            ),
    {
        self.write_event(
            timestamp_ns,
            TrackEvent {
                track_uuid,
                event_type: EventType::SliceBegin,
                name: Some(name),
                debug_annotations,
                counter_value: None,
            },
        )
    }

    /// Writes the end of a slice.
    pub fn write_slice_end(&mut self, track_uuid: u64, timestamp_ns: u64) -> (r: Result<
        (),
        WriteError,
    >)
        ensures
            final(self).put(old(self), slice_end_packet(track_uuid, timestamp_ns), problem_of(r)),
    {
        let debug_annotations: Vec<DebugAnnotation> = Vec::new();
        assert(views(debug_annotations@) =~= seq![]);
        self.write_event(
            timestamp_ns,
            TrackEvent {
                track_uuid,
                event_type: EventType::SliceEnd,
                name: None,
                debug_annotations,
                counter_value: None,
            },
        )
    }

    /// Writes a moment.
    pub fn write_instant_event(
        &mut self,
        track_uuid: u64,
        name: String,
        timestamp_ns: u64,
        debug_annotations: Vec<DebugAnnotation>,
    ) -> (r: Result<(), WriteError>)
        ensures
            final(self).put(
                old(self),
                instant_packet(track_uuid, name@, timestamp_ns, views(debug_annotations@)),
                problem_of(r),
            ),
    {
        self.write_event(
            timestamp_ns,
            TrackEvent {
                track_uuid,
                event_type: EventType::Instant,
                name: Some(name),
                debug_annotations,
                counter_value: None,
            },
        )
    }

    /// Describes a process under a new number, and returns the number.
    pub fn write_process_descriptor(&mut self, pid: u32, process_name: Option<String>) -> (r: Result<
        u64,
        WriteError,
    >)
        requires
            old(self).next_uuid() < u64::MAX,
        ensures
            final(self).described(
                old(self),
                process_packet(old(self).next_uuid(), pid as i32, optional_text(process_name)),
                problem_of(r),
            ),
            r matches Ok(uuid) ==> uuid == old(self).next_uuid(),
    {
        let uuid: u64 = self.next_track_uuid();
        match self.write_descriptor(
            TrackDescriptor {
                uuid,
                parent_uuid: None,
                name: None,
                kind: TrackKind::Process(ProcessDescriptor { pid: pid as i32, process_name }),
            },
        ) {
            Ok(_) => Ok(uuid),
            Err(e) => Err(e),
        }
    }

    /// Describes a track under a new number, and returns the number.
    pub fn write_generic_track(&mut self, name: String, parent_track_uuid: u64) -> (r: Result<
        u64,
        WriteError,
    >)
        requires
            old(self).next_uuid() < u64::MAX,
        ensures
            final(self).described(
                old(self),
                generic_packet(old(self).next_uuid(), name@, parent_track_uuid),
                problem_of(r),
            ),
            r matches Ok(uuid) ==> uuid == old(self).next_uuid(),
    {
        let uuid: u64 = self.next_track_uuid();
        let parent_uuid: Option<u64> = if parent_track_uuid > 0 {
            Some(parent_track_uuid)
        } else {
            None
        };
        match self.write_descriptor(
            TrackDescriptor { uuid, parent_uuid, name: Some(name), kind: TrackKind::Generic },
        ) {
            Ok(_) => Ok(uuid),
            Err(e) => Err(e),
        }
    }

    /// Describes a counter under a new number, and returns the number.
    pub fn write_counter_track(
        &mut self,
        name: String,
        unit_name: Option<String>,
        parent_track_uuid: u64,
    ) -> (r: Result<u64, WriteError>)
        requires
            old(self).next_uuid() < u64::MAX,
        ensures
            final(self).described(
                old(self),
                counter_packet(
                    old(self).next_uuid(),
                    name@,
                    optional_text(unit_name),
                    parent_track_uuid,
                ),
                problem_of(r),
            ),
            r matches Ok(uuid) ==> uuid == old(self).next_uuid(),
    {
        let uuid: u64 = self.next_track_uuid();
        match self.write_descriptor(
            TrackDescriptor {
                uuid,
                parent_uuid: Some(parent_track_uuid),
                name: Some(name),
                kind: TrackKind::Counter(CounterDescriptor { unit_name }),
            },
        ) {
            Ok(_) => Ok(uuid),
            Err(e) => Err(e),
        }
    }

    fn write_value(&mut self, track_uuid: u64, value: CounterValue, timestamp_ns: u64) -> (r: Result<
        (),
        WriteError,
    >)
        ensures
            final(self).put(old(self), value_packet(track_uuid, value, timestamp_ns), problem_of(r)),
    {
        let debug_annotations: Vec<DebugAnnotation> = Vec::new();
        assert(views(debug_annotations@) =~= seq![]);
        self.write_event(
            timestamp_ns,
            TrackEvent {
                track_uuid,
                event_type: EventType::Counter,
                name: None,
                debug_annotations,
                counter_value: Some(value),
            },
        )
    }

    /// Writes an integer value of a counter.
    pub fn write_counter_value(&mut self, track_uuid: u64, value: i64, timestamp_ns: u64) -> (r:
        Result<(), WriteError>)
        ensures
            final(self).put(
                old(self),
                value_packet(track_uuid, CounterValue::Int(value), timestamp_ns),
                problem_of(r),
            ),
    {
        self.write_value(track_uuid, CounterValue::Int(value), timestamp_ns)
    }

    /// Writes a value of a counter.
    pub fn write_double_counter_value(
        &mut self,
        track_uuid: u64,
        value: Reading,
        timestamp_ns: u64,
    ) -> (r: Result<(), WriteError>)
        ensures
            final(self).put(
                old(self),
                value_packet(track_uuid, CounterValue::Double(value), timestamp_ns),
                problem_of(r),
            ),
    {
        self.write_value(track_uuid, CounterValue::Double(value), timestamp_ns)
    }

    /// Writes a stack sample.
    pub fn write_perf_sample(
        &mut self,
        cpu: u32,
        pid: u32,
        tid: u32,
        timestamp_ns: u64,
        callstack_iid: u64,
        stream_id: Option<u16>,
    ) -> (r: Result<(), WriteError>)
        ensures
            final(self).put(
                old(self),
                sample_packet(cpu, pid, tid, timestamp_ns, callstack_iid, stream_id),
                problem_of(r),
            ),
    {
        self.write_packet(
            TracePacket {
                timestamp: Some(timestamp_ns),
                trusted_pid: Some(pid as i32),
                sequence_id: 0,
                data: PacketData::PerfSample(
                    PerfSample { cpu, pid, tid, callstack_iid, timebase_count: 1 },
                ),
            },
            stream_id,
        )
    }

    /// Writes interned data that starts afresh.
    pub fn write_interned_data(&mut self, interned_data: InternedPacket, stream_id: Option<u16>)
        -> (r: Result<(), WriteError>)
        ensures
            final(self).put(
                old(self),
                interned_packet(
                    interned_data@,
                    SequenceFlags::IncrementalStateCleared,
                    stream_id,
                ),
                problem_of(r),
            ),
    {
        self.write_packet(
            TracePacket {
                timestamp: None,
                trusted_pid: None,
                sequence_id: 0,
                data: PacketData::InternedData(
                    interned_data,
                    SequenceFlags::IncrementalStateCleared,
                ),
            },
            stream_id,
        )
    }

    /// Writes interned data that adds to what was sent before.
    pub fn write_interned_data_next(
        &mut self,
        interned_data: InternedPacket,
        stream_id: Option<u16>,
    ) -> (r: Result<(), WriteError>)
        ensures
            final(self).put(
                old(self),
                interned_packet(interned_data@, SequenceFlags::NeedsIncrementalState, stream_id),
                problem_of(r),
            ),
    {
        self.write_packet(
            TracePacket {
                timestamp: None,
                trusted_pid: None,
                sequence_id: 0,
                data: PacketData::InternedData(
                    interned_data,
                    SequenceFlags::NeedsIncrementalState,
                ),
            },
            stream_id,
        )
    }

    /// Writes interned data, which says itself whether it adds to what was sent
    /// before or starts afresh.
    pub fn write_protocol_interned_data<D: InternedDataIterable>(
        &mut self,
        data: &D,
        stream_id: Option<u16>,
    ) -> (r: Result<(), WriteError>)
        ensures
            final(self).put(
                old(self),
                interned_packet(
                    interned_content(data.interned()),
                    continuation_flags(data.interned().continuation),
                    stream_id,
                ),
                problem_of(r),
            ),
    {
        let ghost all = data.interned();
        let function_names: Vec<InternedBytes> = encode_strings(data.function_names());
        let mut frames: Vec<Frame> = Vec::new();
        let source = data.frames();
        let mut i: usize = 0;
        while i < source.len()
            invariant
                i <= source@.len(),
                source@.len() == all.frames.len(),
                forall|j: int|
                    0 <= j < source@.len() ==> (#[trigger] source@[j]).frame() == all.frames[j],
                frames@ =~= all.frames.take(i as int),
            decreases source@.len() - i,
        {
            let frame = &source[i];
            assert(source@[i as int].frame() == all.frames[i as int]);
            frames.push(
                Frame {
                    iid: frame.iid(),
                    function_name_id: frame.function_name_id(),
                    mapping_id: frame.mapping_id(),
                    rel_pc: frame.rel_pc(),
                },
            );
            i += 1;
        }
        assert(frames@ =~= all.frames);

        let mut callstacks: Vec<Callstack> = Vec::new();
        let source = data.callstacks();
        let mut i: usize = 0;
        while i < source.len()
            invariant
                i <= source@.len(),
                source@.len() == all.callstacks.len(),
                forall|j: int|
                    0 <= j < source@.len() ==> (#[trigger] source@[j]).callstack()
                        == all.callstacks[j],
                views(callstacks@) =~= all.callstacks.take(i as int),
            decreases source@.len() - i,
        {
            let callstack = &source[i];
            assert(source@[i as int].callstack() == all.callstacks[i as int]);
            let ghost before = callstacks@;
            callstacks.push(
                Callstack { iid: callstack.iid(), frame_ids: callstack.frame_ids() },
            );
            assert(views(callstacks@) =~= views(before).push(all.callstacks[i as int]));
            i += 1;
        }
        assert(views(callstacks@) =~= all.callstacks);

        let mut mappings: Vec<Mapping> = Vec::new();
        let source = data.mappings();
        let mut i: usize = 0;
        while i < source.len()
            invariant
                i <= source@.len(),
                source@.len() == all.mappings.len(),
                forall|j: int|
                    0 <= j < source@.len() ==> (#[trigger] source@[j]).mapping()
                        == all.mappings[j],
                views(mappings@) =~= all.mappings.take(i as int),
            decreases source@.len() - i,
        {
            let mapping = &source[i];
            assert(source@[i as int].mapping() == all.mappings[i as int]);
            let ghost before = mappings@;
            mappings.push(
                Mapping {
                    iid: mapping.iid(),
                    build_id: mapping.build_id(),
                    exact_offset: mapping.exact_offset(),
                    start_offset: mapping.start_offset(),
                    start: mapping.start(),
                    end: mapping.end(),
                    load_bias: mapping.load_bias(),
                    path_string_ids: mapping.path_string_ids(),
                },
            );
            assert(views(mappings@) =~= views(before).push(all.mappings[i as int]));
            i += 1;
        }
        assert(views(mappings@) =~= all.mappings);

        let build_ids: Vec<InternedBytes> = encode_strings(data.build_ids());
        proof {
            assert(views(function_names@) =~= encoded(all.function_names));
            assert(views(build_ids@) =~= encoded(all.build_ids));
        }
        let packet = InternedPacket { function_names, frames, callstacks, mappings, build_ids };
        if data.continuation() {
            self.write_interned_data_next(packet, stream_id)
        } else {
            self.write_interned_data(packet, stream_id)
        }
    }
}

/// Strings with their ids, as bytes.
fn encode_strings<S: InternedStringIterable>(source: &[S]) -> (r: Vec<InternedBytes>)
    ensures
        r@.len() == source@.len(),
        forall|j: int|
            0 <= j < source@.len() ==> (#[trigger] r@[j])@ == (InternedBytesView {
                iid: source@[j].string().iid,
                str: encode_utf8(source@[j].string().str),
            }),
{
    let mut r: Vec<InternedBytes> = Vec::new();
    let mut i: usize = 0;
    while i < source.len()
        invariant
            i <= source@.len(),
            r@.len() == i,
            forall|j: int|
                0 <= j < i ==> (#[trigger] r@[j])@ == (InternedBytesView {
                    iid: source@[j].string().iid,
                    str: encode_utf8(source@[j].string().str),
                }),
        decreases source@.len() - i,
    {
        let s = &source[i];
        let text: &str = s.str_ref();
        let bytes: &[u8] = text.as_bytes();
        let mut str: Vec<u8> = Vec::new();
        let mut k: usize = 0;
        while k < bytes.len()
            invariant
                k <= bytes@.len(),
                str@ =~= bytes@.take(k as int),
            decreases bytes@.len() - k,
        {
            str.push(bytes[k]);
            k += 1;
        }
        assert(str@ =~= bytes@);
        r.push(InternedBytes { iid: s.iid(), str });
        i += 1;
    }
    r
}

} // verus!

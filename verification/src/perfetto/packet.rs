//! The packets of a trace.

use crate::protocol::{
    views, Callstack, CallstackView, Frame, Mapping, MappingView, Reading, optional_text,
};
use vstd::prelude::*;

verus! {

/// What kind of track event a packet holds.
#[derive(Debug, Clone, Copy, PartialEq, Eq, Structural)]
pub enum EventType {
    SliceBegin,
    SliceEnd,
    Instant,
    Counter,
}

/// How interned data relates to what was sent before on its sequence.
#[derive(Debug, Clone, Copy, PartialEq, Eq, Structural)]
pub enum SequenceFlags {
    /// It starts afresh.
    IncrementalStateCleared,
    /// It adds to what was sent before.
    NeedsIncrementalState,
}

/// The value of a debug annotation.
#[derive(Debug)]
pub enum DebugValue {
    String(String),
    Int(i64),
    Double(Reading),
    Bool(bool),
}

pub enum DebugValueView {
    String(Seq<char>),
    Int(i64),
    Double(Reading),
    Bool(bool),
}

impl View for DebugValue {
    type V = DebugValueView;

    open spec fn view(&self) -> DebugValueView {
        match *self {
            DebugValue::String(s) => DebugValueView::String(s@),
            DebugValue::Int(i) => DebugValueView::Int(i),
            DebugValue::Double(d) => DebugValueView::Double(d),
            DebugValue::Bool(b) => DebugValueView::Bool(b),
        }
    }
}

/// A named value shown with an event.
#[derive(Debug)]
pub struct DebugAnnotation {
    pub name: String,
    pub value: DebugValue,
}

pub struct DebugAnnotationView {
    pub name: Seq<char>,
    pub value: DebugValueView,
}

impl View for DebugAnnotation {
    type V = DebugAnnotationView;

    open spec fn view(&self) -> DebugAnnotationView {
        DebugAnnotationView { name: self.name@, value: self.value@ }
    }
}

pub fn create_debug_annotation(name: String, value: DebugValue) -> (r: DebugAnnotation)
    ensures
        r@ == (DebugAnnotationView { name: name@, value: value@ }),
{
    DebugAnnotation { name, value }
}

#[derive(Debug)]
pub struct ProcessDescriptor {
    pub pid: i32,
    pub process_name: Option<String>,
}

pub struct ProcessDescriptorView {
    pub pid: i32,
    pub process_name: Option<Seq<char>>,
}

impl View for ProcessDescriptor {
    type V = ProcessDescriptorView;

    open spec fn view(&self) -> ProcessDescriptorView {
        ProcessDescriptorView { pid: self.pid, process_name: optional_text(self.process_name) }
    }
}

#[derive(Debug)]
pub struct ThreadDescriptor {
    pub pid: i32,
    pub tid: i32,
    pub thread_name: Option<String>,
}

pub struct ThreadDescriptorView {
    pub pid: i32,
    pub tid: i32,
    pub thread_name: Option<Seq<char>>,
}

impl View for ThreadDescriptor {
    type V = ThreadDescriptorView;

    open spec fn view(&self) -> ThreadDescriptorView {
        ThreadDescriptorView {
            pid: self.pid,
            tid: self.tid,
            thread_name: optional_text(self.thread_name),
        }
    }
}

#[derive(Debug)]
pub struct CounterDescriptor {
    pub unit_name: Option<String>,
}

pub struct CounterDescriptorView {
    pub unit_name: Option<Seq<char>>,
}

impl View for CounterDescriptor {
    type V = CounterDescriptorView;

    open spec fn view(&self) -> CounterDescriptorView {
        CounterDescriptorView { unit_name: optional_text(self.unit_name) }
    }
}

/// What a track stands for.
#[derive(Debug)]
pub enum TrackKind {
    Generic,
    Process(ProcessDescriptor),
    Thread(ThreadDescriptor),
    Counter(CounterDescriptor),
}

pub enum TrackKindView {
    Generic,
    Process(ProcessDescriptorView),
    Thread(ThreadDescriptorView),
    Counter(CounterDescriptorView),
}

impl View for TrackKind {
    type V = TrackKindView;

    open spec fn view(&self) -> TrackKindView {
        match *self {
            TrackKind::Generic => TrackKindView::Generic,
            TrackKind::Process(p) => TrackKindView::Process(p@),
            TrackKind::Thread(t) => TrackKindView::Thread(t@),
            TrackKind::Counter(c) => TrackKindView::Counter(c@),
        }
    }
}

/// Describes a track.
#[derive(Debug)]
pub struct TrackDescriptor {
    pub uuid: u64,
    pub parent_uuid: Option<u64>,
    pub name: Option<String>,
    pub kind: TrackKind,
}

pub struct TrackDescriptorView {
    pub uuid: u64,
    pub parent_uuid: Option<u64>,
    pub name: Option<Seq<char>>,
    pub kind: TrackKindView,
}

impl View for TrackDescriptor {
    type V = TrackDescriptorView;

    open spec fn view(&self) -> TrackDescriptorView {
        TrackDescriptorView {
            uuid: self.uuid,
            parent_uuid: self.parent_uuid,
            name: optional_text(self.name),
            kind: self.kind@,
        }
    }
}

/// The value of a counter.
#[derive(Debug, Clone, Copy)]
pub enum CounterValue {
    Int(i64),
    Double(Reading),
}

/// An event on a track.
#[derive(Debug)]
pub struct TrackEvent {
    pub track_uuid: u64,
    pub event_type: EventType,
    pub name: Option<String>,
    pub debug_annotations: Vec<DebugAnnotation>,
    pub counter_value: Option<CounterValue>,
}

pub struct TrackEventView {
    pub track_uuid: u64,
    pub event_type: EventType,
    pub name: Option<Seq<char>>,
    pub debug_annotations: Seq<DebugAnnotationView>,
    pub counter_value: Option<CounterValue>,
}

impl View for TrackEvent {
    type V = TrackEventView;

    open spec fn view(&self) -> TrackEventView {
        TrackEventView {
            track_uuid: self.track_uuid,
            event_type: self.event_type,
            name: optional_text(self.name),
            debug_annotations: views(self.debug_annotations@),
            counter_value: self.counter_value,
        }
    }
}

/// A stack sample.
#[derive(Debug, Clone, Copy, PartialEq, Eq, Structural)]
pub struct PerfSample {
    pub cpu: u32,
    pub pid: u32,
    pub tid: u32,
    pub callstack_iid: u64,
    pub timebase_count: u64,
}

/// A string with its id, as bytes.
#[derive(Debug)]
pub struct InternedBytes {
    pub iid: u64,
    pub str: Vec<u8>,
}

pub struct InternedBytesView {
    pub iid: u64,
    pub str: Seq<u8>,
}

impl View for InternedBytes {
    type V = InternedBytesView;

    open spec fn view(&self) -> InternedBytesView {
        InternedBytesView { iid: self.iid, str: self.str@ }
    }
}

/// Definitions that samples refer to.
#[derive(Debug)]
pub struct InternedPacket {
    pub function_names: Vec<InternedBytes>,
    pub frames: Vec<Frame>,
    pub callstacks: Vec<Callstack>,
    pub mappings: Vec<Mapping>,
    pub build_ids: Vec<InternedBytes>,
}

pub struct InternedPacketView {
    pub function_names: Seq<InternedBytesView>,
    pub frames: Seq<Frame>,
    pub callstacks: Seq<CallstackView>,
    pub mappings: Seq<MappingView>,
    pub build_ids: Seq<InternedBytesView>,
}

impl View for InternedPacket {
    type V = InternedPacketView;

    open spec fn view(&self) -> InternedPacketView {
        InternedPacketView {
            function_names: views(self.function_names@),
            frames: self.frames@,
            callstacks: views(self.callstacks@),
            mappings: views(self.mappings@),
            build_ids: views(self.build_ids@),
        }
    }
}

/// What a packet holds.
#[derive(Debug)]
pub enum PacketData {
    TrackDescriptor(TrackDescriptor),
    TrackEvent(TrackEvent),
    PerfSample(PerfSample),
    InternedData(InternedPacket, SequenceFlags),
}

pub enum PacketDataView {
    TrackDescriptor(TrackDescriptorView),
    TrackEvent(TrackEventView),
    PerfSample(PerfSample),
    InternedData(InternedPacketView, SequenceFlags),
}

impl View for PacketData {
    type V = PacketDataView;

    open spec fn view(&self) -> PacketDataView {
        match *self {
            PacketData::TrackDescriptor(d) => PacketDataView::TrackDescriptor(d@),
            PacketData::TrackEvent(e) => PacketDataView::TrackEvent(e@),
            PacketData::PerfSample(s) => PacketDataView::PerfSample(s),
            PacketData::InternedData(i, f) => PacketDataView::InternedData(i@, f),
        }
    }
}

/// One packet of a trace.
#[derive(Debug)]
pub struct TracePacket {
    pub timestamp: Option<u64>,
    pub trusted_pid: Option<i32>,
    pub sequence_id: u32,
    pub data: PacketData,
}

pub struct TracePacketView {
    pub timestamp: Option<u64>,
    pub trusted_pid: Option<i32>,
    pub sequence_id: u32,
    pub data: PacketDataView,
}

impl View for TracePacket {
    type V = TracePacketView;

    open spec fn view(&self) -> TracePacketView {
        TracePacketView {
            timestamp: self.timestamp,
            trusted_pid: self.trusted_pid,
            sequence_id: self.sequence_id,
            data: self.data@,
        }
    }
}

} // verus!

//! Messages as they lie in a buffer: integers in little-endian order.

use crate::protocol::{
    optional_text, string_pairs, value_pairs, Callstack, CallstackIterable, CallstackView, Counter,
    CpuMode, Event, EventView, Frame, FrameIterable, Instant, InternedData, InternedDataIterable,
    InternedDataView, InternedStringIterable, InternedStringView, Labels, LabelsView, Mapping,
    MappingIterable, MappingView, MessageView, Reading, Sample, Span, Track, TrackId, TrackType,
    TrackTypeView, TrackView,
};
use vstd::bytes::{
    lemma_auto_spec_u64_to_from_le_bytes, spec_u16_from_le_bytes, spec_u32_from_le_bytes,
    spec_u64_from_le_bytes, spec_u64_to_le_bytes, u16_from_le_bytes, u32_from_le_bytes,
    u64_from_le_bytes, u64_to_le_bytes,
};
use vstd::prelude::*;

verus! {

/// A `u16` in little-endian order.
#[derive(Debug, Clone, Copy)]
pub struct ArchivedU16 {
    pub bytes: [u8; 2],
}

impl ArchivedU16 {
    pub open spec fn native(&self) -> u16 {
        spec_u16_from_le_bytes(self.bytes@)
    }

    pub fn to_native(&self) -> (r: u16)
        ensures
            r == self.native(),
    {
        u16_from_le_bytes(self.bytes.as_slice())
    }
}

/// A `u32` in little-endian order.
#[derive(Debug, Clone, Copy)]
pub struct ArchivedU32 {
    pub bytes: [u8; 4],
}

impl ArchivedU32 {
    pub open spec fn native(&self) -> u32 {
        spec_u32_from_le_bytes(self.bytes@)
    }

    pub fn to_native(&self) -> (r: u32)
        ensures
            r == self.native(),
    {
        u32_from_le_bytes(self.bytes.as_slice())
    }
}

/// An `i32` in little-endian order.
#[derive(Debug, Clone, Copy)]
pub struct ArchivedI32 {
    pub bytes: [u8; 4],
}

impl ArchivedI32 {
    pub open spec fn native(&self) -> i32 {
        spec_u32_from_le_bytes(self.bytes@) as i32
    }

    pub fn to_native(&self) -> (r: i32)
        ensures
            r == self.native(),
    {
        u32_from_le_bytes(self.bytes.as_slice()) as i32
    }
}

/// A `u64` in little-endian order.
#[derive(Debug, Clone, Copy)]
pub struct ArchivedU64 {
    pub bytes: [u8; 8],
}

impl ArchivedU64 {
    pub open spec fn native(&self) -> u64 {
        spec_u64_from_le_bytes(self.bytes@)
    }

    pub fn to_native(&self) -> (r: u64)
        ensures
            r == self.native(),
    {
        u64_from_le_bytes(self.bytes.as_slice())
    }

    pub fn from_native(n: u64) -> (r: Self)
        ensures
            r.bytes@ == spec_u64_to_le_bytes(n),
            r.native() == n,
    {
        proof {
            lemma_auto_spec_u64_to_from_le_bytes();
        }
        let b: Vec<u8> = u64_to_le_bytes(n);
        let r = ArchivedU64 { bytes: [b[0], b[1], b[2], b[3], b[4], b[5], b[6], b[7]] };
        assert(r.bytes@ =~= b@);
        r
    }
}

/// An `i64` in little-endian order.
#[derive(Debug, Clone, Copy)]
pub struct ArchivedI64 {
    pub bytes: [u8; 8],
}

impl ArchivedI64 {
    pub open spec fn native(&self) -> i64 {
        spec_u64_from_le_bytes(self.bytes@) as i64
    }

    pub fn to_native(&self) -> (r: i64)
        ensures
            r == self.native(),
    {
        u64_from_le_bytes(self.bytes.as_slice()) as i64
    }
}

/// The native ids of a list.
pub open spec fn native_ids(ids: Seq<ArchivedU64>) -> Seq<u64> {
    ids.map_values(|id: ArchivedU64| id.native())
}

fn to_native_ids(ids: &Vec<ArchivedU64>) -> (r: Vec<u64>)
    ensures
        r@ == native_ids(ids@),
{
    let mut r: Vec<u64> = Vec::new();
    let mut i: usize = 0;
    while i < ids.len()
        invariant
            i <= ids@.len(),
            r@ =~= native_ids(ids@).take(i as int),
        decreases ids@.len() - i,
    {
        r.push(ids[i].to_native());
        i += 1;
    }
    assert(r@ =~= native_ids(ids@));
    r
}

#[derive(Debug, Clone, Copy)]
pub enum ArchivedTrackId {
    Cpu { cpu: ArchivedU32 },
    Thread { tid: ArchivedI32, pid: ArchivedI32 },
    Process { pid: ArchivedI32 },
    Custom { id: ArchivedU64 },
    Counter { id: ArchivedU64 },
}

impl ArchivedTrackId {
    pub open spec fn native(&self) -> TrackId {
        match *self {
            ArchivedTrackId::Cpu { cpu } => TrackId::Cpu { cpu: cpu.native() },
            ArchivedTrackId::Thread { tid, pid } => TrackId::Thread {
                tid: tid.native(),
                pid: pid.native(),
            },
            ArchivedTrackId::Process { pid } => TrackId::Process { pid: pid.native() },
            ArchivedTrackId::Custom { id } => TrackId::Custom { id: id.native() },
            ArchivedTrackId::Counter { id } => TrackId::Counter { id: id.native() },
        }
    }

    pub fn to_native(&self) -> (r: TrackId)
        ensures
            r == self.native(),
    {
        match self {
            ArchivedTrackId::Cpu { cpu } => TrackId::Cpu { cpu: cpu.to_native() },
            ArchivedTrackId::Thread { tid, pid } => TrackId::Thread {
                tid: tid.to_native(),
                pid: pid.to_native(),
            },
            ArchivedTrackId::Process { pid } => TrackId::Process { pid: pid.to_native() },
            ArchivedTrackId::Custom { id } => TrackId::Custom { id: id.to_native() },
            ArchivedTrackId::Counter { id } => TrackId::Counter { id: id.to_native() },
        }
    }
}

#[derive(Debug)]
pub enum ArchivedTrackType {
    Cpu { cpu: ArchivedU32 },
    Thread { tid: ArchivedI32, pid: ArchivedI32 },
    Process { pid: ArchivedI32 },
    Custom { id: ArchivedU64 },
    Counter { id: ArchivedU64, unit: Option<String> },
}

impl ArchivedTrackType {
    pub open spec fn native(&self) -> TrackTypeView {
        match *self {
            ArchivedTrackType::Cpu { cpu } => TrackTypeView::Cpu { cpu: cpu.native() },
            ArchivedTrackType::Thread { tid, pid } => TrackTypeView::Thread {
                tid: tid.native(),
                pid: pid.native(),
            },
            ArchivedTrackType::Process { pid } => TrackTypeView::Process { pid: pid.native() },
            ArchivedTrackType::Custom { id } => TrackTypeView::Custom { id: id.native() },
            ArchivedTrackType::Counter { id, unit } => TrackTypeView::Counter {
                id: id.native(),
                unit: optional_text(unit),
            },
        }
    }

    pub fn to_native(&self) -> (r: TrackType)
        ensures
            r@ == self.native(),
    {
        match self {
            ArchivedTrackType::Cpu { cpu } => TrackType::Cpu { cpu: cpu.to_native() },
            ArchivedTrackType::Thread { tid, pid } => TrackType::Thread {
                tid: tid.to_native(),
                pid: pid.to_native(),
            },
            ArchivedTrackType::Process { pid } => TrackType::Process { pid: pid.to_native() },
            ArchivedTrackType::Custom { id } => TrackType::Custom { id: id.to_native() },
            ArchivedTrackType::Counter { id, unit } => TrackType::Counter {
                id: id.to_native(),
                unit: unit.clone(),
            },
        }
    }
}

#[derive(Debug)]
pub struct ArchivedLabels {
    pub strings: Vec<(String, String)>,
    pub ints: Vec<(String, ArchivedI64)>,
    pub bools: Vec<(String, bool)>,
    pub floats: Vec<(String, ArchivedU64)>,
}

impl ArchivedLabels {
    /// The labels; a floating-point number by its bit pattern.
    pub open spec fn native(&self) -> LabelsView {
        LabelsView {
            strings: string_pairs(self.strings@),
            ints: self.ints@.map_values(|p: (String, ArchivedI64)| (p.0@, p.1.native())),
            bools: value_pairs(self.bools@),
            floats: self.floats@.map_values(
                |p: (String, ArchivedU64)| (p.0@, Reading::Float { bits: p.1.native() }),
            ),
        }
    }

    pub fn to_native(&self) -> (r: Labels)
        ensures
            r@ == self.native(),
    {
        let ghost all = self.native();
        let mut strings: Vec<(String, String)> = Vec::new();
        let mut i: usize = 0;
        while i < self.strings.len()
            invariant
                i <= self.strings@.len(),
                all == self.native(),
                string_pairs(strings@) =~= all.strings.take(i as int),
            decreases self.strings@.len() - i,
        {
            let ghost before = strings@;
            strings.push((self.strings[i].0.clone(), self.strings[i].1.clone()));
            assert(string_pairs(strings@) =~= string_pairs(before).push(all.strings[i as int]));
            i += 1;
        }
        let mut ints: Vec<(String, i64)> = Vec::new();
        let mut i: usize = 0;
        while i < self.ints.len()
            invariant
                i <= self.ints@.len(),
                all == self.native(),
                value_pairs(ints@) =~= all.ints.take(i as int),
            decreases self.ints@.len() - i,
        {
            let ghost before = ints@;
            ints.push((self.ints[i].0.clone(), self.ints[i].1.to_native()));
            assert(value_pairs(ints@) =~= value_pairs(before).push(all.ints[i as int]));
            i += 1;
        }
        let mut bools: Vec<(String, bool)> = Vec::new();
        let mut i: usize = 0;
        while i < self.bools.len()
            invariant
                i <= self.bools@.len(),
                all == self.native(),
                value_pairs(bools@) =~= all.bools.take(i as int),
            decreases self.bools@.len() - i,
        {
            let ghost before = bools@;
            bools.push((self.bools[i].0.clone(), self.bools[i].1));
            assert(value_pairs(bools@) =~= value_pairs(before).push(all.bools[i as int]));
            i += 1;
        }
        let mut floats: Vec<(String, Reading)> = Vec::new();
        let mut i: usize = 0;
        while i < self.floats.len()
            invariant
                i <= self.floats@.len(),
                all == self.native(),
                value_pairs(floats@) =~= all.floats.take(i as int),
            decreases self.floats@.len() - i,
        {
            let ghost before = floats@;
            floats.push(
                (
                    self.floats[i].0.clone(),
                    Reading::Float { bits: self.floats[i].1.to_native() },
                ),
            );
            assert(value_pairs(floats@) =~= value_pairs(before).push(all.floats[i as int]));
            i += 1;
        }
        let r = Labels { strings, ints, bools, floats };
        proof {
            assert(r@.strings =~= all.strings);
            assert(r@.ints =~= all.ints);
            assert(r@.bools =~= all.bools);
            assert(r@.floats =~= all.floats);
        }
        r
    }
}

#[derive(Debug)]
pub struct ArchivedTrack {
    pub name: String,
    pub track_type: ArchivedTrackType,
    pub parent: Option<ArchivedTrackType>,
}

impl ArchivedTrack {
    pub open spec fn native(&self) -> TrackView {
        TrackView {
            name: self.name@,
            track_type: self.track_type.native(),
            parent: match self.parent {
                Some(p) => Some(p.native()),
                None => None,
            },
        }
    }

    pub fn to_native(&self) -> (r: Track)
        ensures
            r@ == self.native(),
    {
        Track {
            name: self.name.clone(),
            track_type: self.track_type.to_native(),
            parent: match &self.parent {
                Some(p) => Some(p.to_native()),
                None => None,
            },
        }
    }
}

/// A counter; its value by its bit pattern.
#[derive(Debug)]
pub struct ArchivedCounter {
    pub name: String,
    pub value: ArchivedU64,
    pub timestamp: ArchivedU64,
    pub track_id: ArchivedTrackId,
    pub labels: ArchivedLabels,
    pub unit: Option<String>,
}

#[derive(Debug)]
pub struct ArchivedSpan {
    pub name: String,
    pub span_id: ArchivedU64,
    pub start_timestamp: ArchivedU64,
    pub end_timestamp: ArchivedU64,
    pub track_id: ArchivedTrackId,
    pub labels: ArchivedLabels,
}

#[derive(Debug)]
pub struct ArchivedInstant {
    pub name: String,
    pub timestamp: ArchivedU64,
    pub track_id: ArchivedTrackId,
    pub labels: ArchivedLabels,
}

#[derive(Debug)]
pub struct ArchivedInternedString {
    pub iid: ArchivedU64,
    pub str: String,
}

#[derive(Debug, Clone, Copy)]
pub struct ArchivedFrame {
    pub iid: ArchivedU64,
    pub function_name_id: ArchivedU64,
    pub mapping_id: ArchivedU64,
    pub rel_pc: ArchivedU64,
}

#[derive(Debug)]
pub struct ArchivedCallstack {
    pub iid: ArchivedU64,
    pub frame_ids: Vec<ArchivedU64>,
}

#[derive(Debug)]
pub struct ArchivedMapping {
    pub iid: ArchivedU64,
    pub build_id: ArchivedU64,
    pub exact_offset: ArchivedU64,
    pub start_offset: ArchivedU64,
    pub start: ArchivedU64,
    pub end: ArchivedU64,
    pub load_bias: ArchivedU64,
    pub path_string_ids: Vec<ArchivedU64>,
}

#[derive(Debug)]
pub struct ArchivedInternedData {
    pub function_names: Vec<ArchivedInternedString>,
    pub frames: Vec<ArchivedFrame>,
    pub callstacks: Vec<ArchivedCallstack>,
    pub mappings: Vec<ArchivedMapping>,
    pub build_ids: Vec<ArchivedInternedString>,
    pub continuation: bool,
}

#[derive(Debug, Clone, Copy)]
pub struct ArchivedSample {
    pub cpu: ArchivedU32,
    pub track_id: ArchivedTrackId,
    pub timestamp: ArchivedU64,
    pub callstack_iid: ArchivedU64,
    pub cpu_mode: CpuMode,
}

impl CallstackIterable for ArchivedCallstack {
    open spec fn callstack(&self) -> CallstackView {
        CallstackView { iid: self.iid.native(), frame_ids: native_ids(self.frame_ids@) }
    }

    fn iid(&self) -> (r: u64) {
        self.iid.to_native()
    }

    fn frame_ids(&self) -> (r: Vec<u64>) {
        to_native_ids(&self.frame_ids)
    }
}

impl FrameIterable for ArchivedFrame {
    open spec fn frame(&self) -> Frame {
        Frame {
            iid: self.iid.native(),
            function_name_id: self.function_name_id.native(),
            mapping_id: self.mapping_id.native(),
            rel_pc: self.rel_pc.native(),
        }
    }

    fn iid(&self) -> (r: u64) {
        self.iid.to_native()
    }

    fn function_name_id(&self) -> (r: u64) {
        self.function_name_id.to_native()
    }

    fn mapping_id(&self) -> (r: u64) {
        self.mapping_id.to_native()
    }

    fn rel_pc(&self) -> (r: u64) {
        self.rel_pc.to_native()
    }
}

impl InternedStringIterable for ArchivedInternedString {
    open spec fn string(&self) -> InternedStringView {
        InternedStringView { iid: self.iid.native(), str: self.str@ }
    }

    fn iid(&self) -> (r: u64) {
        self.iid.to_native()
    }

    fn str_ref(&self) -> (r: &str) {
        self.str.as_str()
    }
}

impl MappingIterable for ArchivedMapping {
    open spec fn mapping(&self) -> MappingView {
        MappingView {
            iid: self.iid.native(),
            build_id: self.build_id.native(),
            exact_offset: self.exact_offset.native(),
            start_offset: self.start_offset.native(),
            start: self.start.native(),
            end: self.end.native(),
            load_bias: self.load_bias.native(),
            path_string_ids: native_ids(self.path_string_ids@),
        }
    }

    fn iid(&self) -> (r: u64) {
        self.iid.to_native()
    }

    fn build_id(&self) -> (r: u64) {
        self.build_id.to_native()
    }

    fn exact_offset(&self) -> (r: u64) {
        self.exact_offset.to_native()
    }

    fn start_offset(&self) -> (r: u64) {
        self.start_offset.to_native()
    }

    fn start(&self) -> (r: u64) {
        self.start.to_native()
    }

    fn end(&self) -> (r: u64) {
        self.end.to_native()
    }

    fn load_bias(&self) -> (r: u64) {
        self.load_bias.to_native()
    }

    fn path_string_ids(&self) -> (r: Vec<u64>) {
        to_native_ids(&self.path_string_ids)
    }
}

/// The native strings of a list.
pub open spec fn native_strings(s: Seq<ArchivedInternedString>) -> Seq<InternedStringView> {
    s.map_values(|x: ArchivedInternedString| x.string())
}

impl InternedDataIterable for ArchivedInternedData {
    type Callstack = ArchivedCallstack;

    type Frame = ArchivedFrame;

    type FunctionName = ArchivedInternedString;

    type Mapping = ArchivedMapping;

    type BuildId = ArchivedInternedString;

    open spec fn interned(&self) -> InternedDataView {
        InternedDataView {
            function_names: native_strings(self.function_names@),
            frames: self.frames@.map_values(|x: ArchivedFrame| x.frame()),
            callstacks: self.callstacks@.map_values(|x: ArchivedCallstack| x.callstack()),
            mappings: self.mappings@.map_values(|x: ArchivedMapping| x.mapping()),
            build_ids: native_strings(self.build_ids@),
            continuation: self.continuation,
        }
    }

    fn callstacks(&self) -> (r: &[ArchivedCallstack]) {
        self.callstacks.as_slice()
    }

    fn frames(&self) -> (r: &[ArchivedFrame]) {
        self.frames.as_slice()
    }

    fn function_names(&self) -> (r: &[ArchivedInternedString]) {
        self.function_names.as_slice()
    }

    fn mappings(&self) -> (r: &[ArchivedMapping]) {
        self.mappings.as_slice()
    }

    fn build_ids(&self) -> (r: &[ArchivedInternedString]) {
        self.build_ids.as_slice()
    }

    fn continuation(&self) -> (r: bool) {
        self.continuation
    }
}

#[derive(Debug)]
pub enum ArchivedEvent {
    Counter(ArchivedCounter),
    Span(ArchivedSpan),
    Instant(ArchivedInstant),
    InternedData(ArchivedInternedData),
    Sample(ArchivedSample),
    Track(ArchivedTrack),
}

impl ArchivedEvent {
    /// The event that lies in the buffer.
    pub open spec fn native(&self) -> EventView {
        match *self {
            ArchivedEvent::Counter(c) => EventView::Counter(
                crate::protocol::CounterView {
                    name: c.name@,
                    value: Reading::Float { bits: c.value.native() },
                    timestamp: c.timestamp.native(),
                    track_id: c.track_id.native(),
                    labels: c.labels.native(),
                    unit: optional_text(c.unit),
                },
            ),
            ArchivedEvent::Span(s) => EventView::Span(
                crate::protocol::SpanView {
                    name: s.name@,
                    span_id: s.span_id.native(),
                    start_timestamp: s.start_timestamp.native(),
                    end_timestamp: s.end_timestamp.native(),
                    track_id: s.track_id.native(),
                    labels: s.labels.native(),
                },
            ),
            ArchivedEvent::Instant(i) => EventView::Instant(
                crate::protocol::InstantView {
                    name: i.name@,
                    timestamp: i.timestamp.native(),
                    track_id: i.track_id.native(),
                    labels: i.labels.native(),
                },
            ),
            ArchivedEvent::InternedData(d) => EventView::InternedData(d.interned()),
            ArchivedEvent::Sample(s) => EventView::Sample(
                Sample {
                    cpu: s.cpu.native(),
                    track_id: s.track_id.native(),
                    timestamp: s.timestamp.native(),
                    callstack_iid: s.callstack_iid.native(),
                    cpu_mode: s.cpu_mode,
                },
            ),
            ArchivedEvent::Track(t) => EventView::Track(t.native()),
        }
    }
}

#[derive(Debug)]
pub enum ArchivedMessage {
    Event(ArchivedEvent),
    Stream { stream_id: ArchivedU16, event: ArchivedEvent },
}

impl ArchivedMessage {
    /// The message that lies in the buffer.
    pub open spec fn native(&self) -> MessageView {
        match *self {
            ArchivedMessage::Event(e) => MessageView::Event(e.native()),
            ArchivedMessage::Stream { stream_id, event } => MessageView::Stream {
                stream_id: stream_id.native(),
                event: event.native(),
            },
        }
    }
}

} // verus!

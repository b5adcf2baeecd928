//! The messages that producers, agents and consumers exchange.
//!
//! Numbers that are shown as floating point travel as a [`Reading`]: the exact
//! integers that were measured, together with the formula that shows them.

use vstd::prelude::*;

verus! {

/// The protocol version an agent announces.
pub const VERSION: &'static str = "0.1";

/// Identifies one stream of packets within a trace.
pub type StreamId = u16;

/// Hands out stream ids, counting up from one.
pub struct StreamIdAllocator {
    next_id: StreamId,
}

impl StreamIdAllocator {
    /// The id that the next call of `allocate` returns.
    pub closed spec fn next(&self) -> StreamId {
        self.next_id
    }

    pub fn new() -> (r: Self)
        ensures
            r.next() == 1,
    {
        Self { next_id: 1 }
    }

    /// Returns the next id; once the range is used up the largest id is
    /// returned again and again.
    pub fn allocate(&mut self) -> (id: StreamId)
        ensures
            id == old(self).next(),
            final(self).next() == (if old(self).next() == u16::MAX { u16::MAX } else {
                (old(self).next() + 1) as u16
            }),
    {
        let id: StreamId = self.next_id;
        self.next_id = self.next_id.saturating_add(1);
        id
    }
}

impl Default for StreamIdAllocator {
    fn default() -> (r: Self)
        ensures
            r.next() == 1,
    {
        Self::new()
    }
}

/// A number to be shown as floating point, kept as what was measured.
#[derive(Clone, Copy, Debug)]
pub enum Reading {
    /// A double, by its bit pattern.
    Float { bits: u64 },
    /// The integer itself.
    Count { n: u64 },
    /// `amount / (elapsed_ns / 1e9)`.
    PerSecond { amount: u64, elapsed_ns: u64 },
    /// `bytes * 8 / (elapsed_ns / 1e9)`.
    BitsPerSecond { bytes: u64, elapsed_ns: u64 },
    /// `total_ns / operations / 1000`.
    AverageMicros { total_ns: u64, operations: u64 },
    /// `ns / 1000`.
    Micros { ns: u64 },
    /// `part / whole * 100`.
    Percent { part: u64, whole: u64 },
    /// `part * 100 / whole`, no less than 0 and no more than 100.
    ClampedPercent { part: u64, whole: u64 },
    /// `part / whole`.
    Ratio { part: u64, whole: u64 },
    /// The latency below which `percent` percent of the operations counted in
    /// a power-of-two histogram stayed.
    LatencyQuantile { histogram: [u64; 32], percent: u64 },
}

/// The place of `key` among the labels, or their number if it is not there.
pub open spec fn label_position<V>(labels: Seq<(Seq<char>, V)>, key: Seq<char>) -> int
    decreases labels.len(),
{
    if labels.len() == 0 {
        0
    } else if labels[0].0 == key {
        0
    } else {
        1 + label_position(labels.drop_first(), key)
    }
}

/// The labels with `key` set to `value`: in its place if it is there, else at
/// the end.
pub open spec fn label_put<V>(labels: Seq<(Seq<char>, V)>, key: Seq<char>, value: V) -> Seq<
    (Seq<char>, V),
> {
    let at = label_position(labels, key);
    if at < labels.len() {
        labels.update(at, (key, value))
    } else {
        labels.push((key, value))
    }
}

/// What the labels give for `key`.
pub open spec fn label_get<V>(labels: Seq<(Seq<char>, V)>, key: Seq<char>) -> Option<V> {
    let at = label_position(labels, key);
    if at < labels.len() {
        Some(labels[at].1)
    } else {
        None
    }
}

/// What `label_position` says in terms of the whole list.
pub proof fn lemma_label_position<V>(labels: Seq<(Seq<char>, V)>, key: Seq<char>)
    ensures
        0 <= label_position(labels, key) <= labels.len(),
        label_position(labels, key) < labels.len() ==> labels[label_position(labels, key)].0 == key,
        forall|i: int|
            0 <= i < label_position(labels, key) ==> (#[trigger] labels[i]).0 != key,
    decreases labels.len(),
{
    if labels.len() > 0 && labels[0].0 != key {
        let rest = labels.drop_first();
        lemma_label_position(rest, key);
        assert forall|i: int| 0 <= i < label_position(labels, key) implies (
        #[trigger] labels[i]).0 != key by {
            if i > 0 {
                assert(labels[i] == rest[i - 1]);
            }
        }
    }
}

/// The place that is the first to hold `key` is the one `label_position` names.
pub proof fn lemma_label_position_is<V>(labels: Seq<(Seq<char>, V)>, key: Seq<char>, at: int)
    requires
        0 <= at <= labels.len(),
        at < labels.len() ==> labels[at].0 == key,
        forall|i: int| 0 <= i < at ==> (#[trigger] labels[i]).0 != key,
    ensures
        label_position(labels, key) == at,
{
    lemma_label_position(labels, key);
}

/// A label that was set reads back, and setting it leaves every other label as
/// it was.
pub proof fn law_label_reads_back<V>(
    labels: Seq<(Seq<char>, V)>,
    key: Seq<char>,
    value: V,
    other: Seq<char>,
)
    ensures
        label_get(label_put(labels, key, value), key) == Some(value),
        other != key ==> label_get(label_put(labels, key, value), other) == label_get(
            labels,
            other,
        ),
{
    let after = label_put(labels, key, value);
    let at = label_position(labels, key);
    lemma_label_position(labels, key);
    lemma_label_position(labels, other);
    lemma_label_position_is(after, key, at);
    if other != key {
        let there = label_position(labels, other);
        if there < labels.len() {
            lemma_label_position_is(after, other, there);
        } else {
            lemma_label_position_is(after, other, after.len() as int);
        }
    }
}

/// The labels as sequences of key and value.
pub struct LabelsView {
    pub strings: Seq<(Seq<char>, Seq<char>)>,
    pub ints: Seq<(Seq<char>, i64)>,
    pub bools: Seq<(Seq<char>, bool)>,
    pub floats: Seq<(Seq<char>, Reading)>,
}

/// No labels at all.
pub open spec fn no_labels() -> LabelsView {
    LabelsView { strings: seq![], ints: seq![], bools: seq![], floats: seq![] }
}

/// Named values attached to an event, each kind of value in the order in which
/// its names were first set.
#[derive(Debug)]
pub struct Labels {
    pub strings: Vec<(String, String)>,
    pub ints: Vec<(String, i64)>,
    pub bools: Vec<(String, bool)>,
    pub floats: Vec<(String, Reading)>,
}

/// Keys and values of string labels.
pub open spec fn string_pairs(s: Seq<(String, String)>) -> Seq<(Seq<char>, Seq<char>)> {
    s.map_values(|p: (String, String)| (p.0@, p.1@))
}

/// Keys and values of the other labels.
pub open spec fn value_pairs<V>(s: Seq<(String, V)>) -> Seq<(Seq<char>, V)> {
    s.map_values(|p: (String, V)| (p.0@, p.1))
}

impl View for Labels {
    type V = LabelsView;

    open spec fn view(&self) -> LabelsView {
        LabelsView {
            strings: string_pairs(self.strings@),
            ints: value_pairs(self.ints@),
            bools: value_pairs(self.bools@),
            floats: value_pairs(self.floats@),
        }
    }
}

/// Sets `key` in a list of labels.
fn put_value<V>(list: &mut Vec<(String, V)>, key: &str, value: V)
    ensures
        value_pairs(final(list)@) == label_put(value_pairs(old(list)@), key@, value),
{
    let owned: String = key.to_owned();
    let mut i: usize = 0;
    while i < list.len() && list[i].0 != owned
        invariant
            list@ == old(list)@,
            i <= list@.len(),
            owned@ == key@,
            forall|j: int| 0 <= j < i ==> (#[trigger] value_pairs(list@)[j]).0 != key@,
        decreases list@.len() - i,
    {
        i += 1;
    }
    proof {
        lemma_label_position_is(value_pairs(list@), key@, i as int);
    }
    if i < list.len() {
        list[i] = (owned, value);
    } else {
        list.push((owned, value));
    }
    assert(value_pairs(list@) =~= label_put(value_pairs(old(list)@), key@, value));
}

impl Labels {
    pub fn new() -> (r: Self)
        ensures
            r@ == no_labels(),
    {
        let r = Labels {
            strings: Vec::new(),
            ints: Vec::new(),
            bools: Vec::new(),
            floats: Vec::new(),
        };
        proof {
            assert(r@.strings =~= seq![]);
            assert(r@.ints =~= seq![]);
            assert(r@.bools =~= seq![]);
            assert(r@.floats =~= seq![]);
        }
        r
    }

    /// Sets a string label.
    pub fn set_string(&mut self, key: &str, value: String)
        ensures
            final(self)@ == (LabelsView {
                strings: label_put(old(self)@.strings, key@, value@),
                ..old(self)@
            }),
    {
        let owned: String = key.to_owned();
        let mut i: usize = 0;
        while i < self.strings.len() && self.strings[i].0 != owned
            invariant
                *self == *old(self),
                i <= self.strings@.len(),
                owned@ == key@,
                forall|j: int| 0 <= j < i ==> (#[trigger] self@.strings[j]).0 != key@,
            decreases self.strings@.len() - i,
        {
            i += 1;
        }
        proof {
            lemma_label_position_is(self@.strings, key@, i as int);
        }
        let ghost v = value@;
        if i < self.strings.len() {
            self.strings[i] = (owned, value);
        } else {
            self.strings.push((owned, value));
        }
        assert(self@.strings =~= label_put(old(self)@.strings, key@, v));
    }

    /// Sets an integer label.
    pub fn set_int(&mut self, key: &str, value: i64)
        ensures
            final(self)@ == (LabelsView {
                ints: label_put(old(self)@.ints, key@, value),
                ..old(self)@
            }),
    {
        put_value(&mut self.ints, key, value);
    }

    /// Sets a boolean label.
    pub fn set_bool(&mut self, key: &str, value: bool)
        ensures
            final(self)@ == (LabelsView {
                bools: label_put(old(self)@.bools, key@, value),
                ..old(self)@
            }),
    {
        put_value(&mut self.bools, key, value);
    }

    /// Sets a floating-point label.
    pub fn set_float(&mut self, key: &str, value: Reading)
        ensures
            final(self)@ == (LabelsView {
                floats: label_put(old(self)@.floats, key@, value),
                ..old(self)@
            }),
    {
        put_value(&mut self.floats, key, value);
    }
}

impl Default for Labels {
    fn default() -> (r: Self)
        ensures
            r@ == no_labels(),
    {
        Self::new()
    }
}

/// Names a track.
#[derive(Debug, Clone, Copy, PartialEq, Eq, Structural, Hash)]
pub enum TrackId {
    Cpu { cpu: u32 },
    Thread { tid: i32, pid: i32 },
    Process { pid: i32 },
    Custom { id: u64 },
    Counter { id: u64 },
}

/// A track with what is known of its kind.
#[derive(Debug)]
pub enum TrackType {
    Cpu { cpu: u32 },
    Thread { tid: i32, pid: i32 },
    Process { pid: i32 },
    Custom { id: u64 },
    Counter { id: u64, unit: Option<String> },
}

pub enum TrackTypeView {
    Cpu { cpu: u32 },
    Thread { tid: i32, pid: i32 },
    Process { pid: i32 },
    Custom { id: u64 },
    Counter { id: u64, unit: Option<Seq<char>> },
}

/// An optional string by its characters.
pub open spec fn optional_text(s: Option<String>) -> Option<Seq<char>> {
    match s {
        Some(t) => Some(t@),
        None => None,
    }
}

impl TrackTypeView {
    /// The id of the track.
    pub open spec fn id(self) -> TrackId {
        match self {
            TrackTypeView::Cpu { cpu } => TrackId::Cpu { cpu },
            TrackTypeView::Thread { tid, pid } => TrackId::Thread { tid, pid },
            TrackTypeView::Process { pid } => TrackId::Process { pid },
            TrackTypeView::Custom { id } => TrackId::Custom { id },
            TrackTypeView::Counter { id, .. } => TrackId::Counter { id },
        }
    }
}

impl View for TrackType {
    type V = TrackTypeView;

    open spec fn view(&self) -> TrackTypeView {
        match *self {
            TrackType::Cpu { cpu } => TrackTypeView::Cpu { cpu },
            TrackType::Thread { tid, pid } => TrackTypeView::Thread { tid, pid },
            TrackType::Process { pid } => TrackTypeView::Process { pid },
            TrackType::Custom { id } => TrackTypeView::Custom { id },
            TrackType::Counter { id, unit } => TrackTypeView::Counter {
                id,
                unit: optional_text(unit),
            },
        }
    }
}

/// An optional track by its view.
pub open spec fn optional_track(t: Option<TrackType>) -> Option<TrackTypeView> {
    match t {
        Some(t) => Some(t@),
        None => None,
    }
}

impl TrackType {
    pub fn to_id(&self) -> (r: TrackId)
        ensures
            r == self@.id(),
    {
        match self {
            TrackType::Cpu { cpu } => TrackId::Cpu { cpu: *cpu },
            TrackType::Thread { tid, pid } => TrackId::Thread { tid: *tid, pid: *pid },
            TrackType::Process { pid } => TrackId::Process { pid: *pid },
            TrackType::Custom { id } => TrackId::Custom { id: *id },
            TrackType::Counter { id, .. } => TrackId::Counter { id: *id },
        }
    }
}

/// Announces a track.
#[derive(Debug)]
pub struct Track {
    pub name: String,
    pub track_type: TrackType,
    pub parent: Option<TrackType>,
}

pub struct TrackView {
    pub name: Seq<char>,
    pub track_type: TrackTypeView,
    pub parent: Option<TrackTypeView>,
}

impl View for Track {
    type V = TrackView;

    open spec fn view(&self) -> TrackView {
        TrackView {
            name: self.name@,
            track_type: self.track_type@,
            parent: optional_track(self.parent),
        }
    }
}

/// One value of a counter.
#[derive(Debug)]
pub struct Counter {
    pub name: String,
    pub value: Reading,
    pub timestamp: u64,
    pub track_id: TrackId,
    pub labels: Labels,
    pub unit: Option<String>,
}

pub struct CounterView {
    pub name: Seq<char>,
    pub value: Reading,
    pub timestamp: u64,
    pub track_id: TrackId,
    pub labels: LabelsView,
    pub unit: Option<Seq<char>>,
}

impl View for Counter {
    type V = CounterView;

    open spec fn view(&self) -> CounterView {
        CounterView {
            name: self.name@,
            value: self.value,
            timestamp: self.timestamp,
            track_id: self.track_id,
            labels: self.labels@,
            unit: optional_text(self.unit),
        }
    }
}

/// A stretch of time on a track.
#[derive(Debug)]
pub struct Span {
    pub name: String,
    pub span_id: u64,
    pub start_timestamp: u64,
    pub end_timestamp: u64,
    pub track_id: TrackId,
    pub labels: Labels,
}

pub struct SpanView {
    pub name: Seq<char>,
    pub span_id: u64,
    pub start_timestamp: u64,
    pub end_timestamp: u64,
    pub track_id: TrackId,
    pub labels: LabelsView,
}

impl View for Span {
    type V = SpanView;

    open spec fn view(&self) -> SpanView {
        SpanView {
            name: self.name@,
            span_id: self.span_id,
            start_timestamp: self.start_timestamp,
            end_timestamp: self.end_timestamp,
            track_id: self.track_id,
            labels: self.labels@,
        }
    }
}

/// A moment on a track.
#[derive(Debug)]
pub struct Instant {
    pub name: String,
    pub timestamp: u64,
    pub track_id: TrackId,
    pub labels: Labels,
}

pub struct InstantView {
    pub name: Seq<char>,
    pub timestamp: u64,
    pub track_id: TrackId,
    pub labels: LabelsView,
}

impl View for Instant {
    type V = InstantView;

    open spec fn view(&self) -> InstantView {
        InstantView {
            name: self.name@,
            timestamp: self.timestamp,
            track_id: self.track_id,
            labels: self.labels@,
        }
    }
}

/// A string with the id by which other records refer to it.
#[derive(Debug)]
pub struct InternedString {
    pub iid: u64,
    pub str: String,
}

pub struct InternedStringView {
    pub iid: u64,
    pub str: Seq<char>,
}

impl View for InternedString {
    type V = InternedStringView;

    open spec fn view(&self) -> InternedStringView {
        InternedStringView { iid: self.iid, str: self.str@ }
    }
}

/// One code location.
#[derive(Debug, Clone, Copy, PartialEq, Eq, Structural)]
pub struct Frame {
    pub iid: u64,
    pub function_name_id: u64,
    pub mapping_id: u64,
    pub rel_pc: u64,
}

/// A stack of frames, by their ids.
#[derive(Debug)]
pub struct Callstack {
    pub iid: u64,
    pub frame_ids: Vec<u64>,
}

pub struct CallstackView {
    pub iid: u64,
    pub frame_ids: Seq<u64>,
}

impl View for Callstack {
    type V = CallstackView;

    open spec fn view(&self) -> CallstackView {
        CallstackView { iid: self.iid, frame_ids: self.frame_ids@ }
    }
}

/// A mapped object file.
#[derive(Debug)]
pub struct Mapping {
    pub iid: u64,
    pub build_id: u64,
    pub exact_offset: u64,
    pub start_offset: u64,
    pub start: u64,
    pub end: u64,
    pub load_bias: u64,
    pub path_string_ids: Vec<u64>,
}

pub struct MappingView {
    pub iid: u64,
    pub build_id: u64,
    pub exact_offset: u64,
    pub start_offset: u64,
    pub start: u64,
    pub end: u64,
    pub load_bias: u64,
    pub path_string_ids: Seq<u64>,
}

impl View for Mapping {
    type V = MappingView;

    open spec fn view(&self) -> MappingView {
        MappingView {
            iid: self.iid,
            build_id: self.build_id,
            exact_offset: self.exact_offset,
            start_offset: self.start_offset,
            start: self.start,
            end: self.end,
            load_bias: self.load_bias,
            path_string_ids: self.path_string_ids@,
        }
    }
}

/// Definitions that later samples refer to by id.
#[derive(Debug)]
pub struct InternedData {
    pub function_names: Vec<InternedString>,
    pub frames: Vec<Frame>,
    pub callstacks: Vec<Callstack>,
    pub mappings: Vec<Mapping>,
    pub build_ids: Vec<InternedString>,
    pub continuation: bool,
}

pub struct InternedDataView {
    pub function_names: Seq<InternedStringView>,
    pub frames: Seq<Frame>,
    pub callstacks: Seq<CallstackView>,
    pub mappings: Seq<MappingView>,
    pub build_ids: Seq<InternedStringView>,
    pub continuation: bool,
}

/// The views of a sequence of values.
pub open spec fn views<T: View>(s: Seq<T>) -> Seq<T::V> {
    s.map_values(|t: T| t@)
}

impl View for InternedData {
    type V = InternedDataView;

    open spec fn view(&self) -> InternedDataView {
        InternedDataView {
            function_names: views(self.function_names@),
            frames: self.frames@,
            callstacks: views(self.callstacks@),
            mappings: views(self.mappings@),
            build_ids: views(self.build_ids@),
            continuation: self.continuation,
        }
    }
}

/// Interned data that defines nothing.
pub open spec fn no_interned_data() -> InternedDataView {
    InternedDataView {
        function_names: seq![],
        frames: seq![],
        callstacks: seq![],
        mappings: seq![],
        build_ids: seq![],
        continuation: false,
    }
}

impl InternedData {
    pub fn new() -> (r: Self)
        ensures
            r@ == no_interned_data(),
    {
        let r = InternedData {
            function_names: Vec::new(),
            frames: Vec::new(),
            callstacks: Vec::new(),
            mappings: Vec::new(),
            build_ids: Vec::new(),
            continuation: false,
        };
        proof {
            assert(r@.function_names =~= seq![]);
            assert(r@.frames =~= seq![]);
            assert(r@.callstacks =~= seq![]);
            assert(r@.mappings =~= seq![]);
            assert(r@.build_ids =~= seq![]);
        }
        r
    }
}

impl Default for InternedData {
    fn default() -> (r: Self)
        ensures
            r@ == no_interned_data(),
    {
        Self::new()
    }
}

/// A call stack, in whichever form it is held.
pub trait CallstackIterable {
    spec fn callstack(&self) -> CallstackView;

    fn iid(&self) -> (r: u64)
        ensures
            r == self.callstack().iid,
    ;

    fn frame_ids(&self) -> (r: Vec<u64>)
        ensures
            r@ == self.callstack().frame_ids,
    ;
}

/// A frame, in whichever form it is held.
pub trait FrameIterable {
    spec fn frame(&self) -> Frame;

    fn iid(&self) -> (r: u64)
        ensures
            r == self.frame().iid,
    ;

    fn function_name_id(&self) -> (r: u64)
        ensures
            r == self.frame().function_name_id,
    ;

    fn mapping_id(&self) -> (r: u64)
        ensures
            r == self.frame().mapping_id,
    ;

    fn rel_pc(&self) -> (r: u64)
        ensures
            r == self.frame().rel_pc,
    ;
}

/// An interned string, in whichever form it is held.
pub trait InternedStringIterable {
    spec fn string(&self) -> InternedStringView;

    fn iid(&self) -> (r: u64)
        ensures
            r == self.string().iid,
    ;

    fn str_ref(&self) -> (r: &str)
        ensures
            r@ == self.string().str,
    ;
}

/// A mapping, in whichever form it is held.
pub trait MappingIterable {
    spec fn mapping(&self) -> MappingView;

    fn iid(&self) -> (r: u64)
        ensures
            r == self.mapping().iid,
    ;

    fn build_id(&self) -> (r: u64)
        ensures
            r == self.mapping().build_id,
    ;

    fn exact_offset(&self) -> (r: u64)
        ensures
            r == self.mapping().exact_offset,
    ;

    fn start_offset(&self) -> (r: u64)
        ensures
            r == self.mapping().start_offset,
    ;

    fn start(&self) -> (r: u64)
        ensures
            r == self.mapping().start,
    ;

    fn end(&self) -> (r: u64)
        ensures
            r == self.mapping().end,
    ;

    fn load_bias(&self) -> (r: u64)
        ensures
            r == self.mapping().load_bias,
    ;

    fn path_string_ids(&self) -> (r: Vec<u64>)
        ensures
            r@ == self.mapping().path_string_ids,
    ;
}

/// Interned data, in whichever form it is held.
pub trait InternedDataIterable {
    type Callstack: CallstackIterable;

    type Frame: FrameIterable;

    type FunctionName: InternedStringIterable;

    type Mapping: MappingIterable;

    type BuildId: InternedStringIterable;

    spec fn interned(&self) -> InternedDataView;

    fn callstacks(&self) -> (r: &[Self::Callstack])
        ensures
            r@.len() == self.interned().callstacks.len(),
            forall|i: int|
                0 <= i < r@.len() ==> (#[trigger] r@[i]).callstack()
                    == self.interned().callstacks[i],
    ;

    fn frames(&self) -> (r: &[Self::Frame])
        ensures
            r@.len() == self.interned().frames.len(),
            forall|i: int|
                0 <= i < r@.len() ==> (#[trigger] r@[i]).frame() == self.interned().frames[i],
    ;

    fn function_names(&self) -> (r: &[Self::FunctionName])
        ensures
            r@.len() == self.interned().function_names.len(),
            forall|i: int|
                0 <= i < r@.len() ==> (#[trigger] r@[i]).string()
                    == self.interned().function_names[i],
    ;

    fn mappings(&self) -> (r: &[Self::Mapping])
        ensures
            r@.len() == self.interned().mappings.len(),
            forall|i: int|
                0 <= i < r@.len() ==> (#[trigger] r@[i]).mapping() == self.interned().mappings[i],
    ;

    fn build_ids(&self) -> (r: &[Self::BuildId])
        ensures
            r@.len() == self.interned().build_ids.len(),
            forall|i: int|
                0 <= i < r@.len() ==> (#[trigger] r@[i]).string() == self.interned().build_ids[i],
    ;

    fn continuation(&self) -> (r: bool)
        ensures
            r == self.interned().continuation,
    ;
}

/// A copy of a list of ids.
pub(crate) fn copy_ids(ids: &Vec<u64>) -> (r: Vec<u64>)
    ensures
        r@ == ids@,
{
    let mut r: Vec<u64> = Vec::new();
    let mut i: usize = 0;
    while i < ids.len()
        invariant
            i <= ids@.len(),
            r@ =~= ids@.take(i as int),
        decreases ids@.len() - i,
    {
        r.push(ids[i]);
        i += 1;
    }
    assert(r@ =~= ids@);
    r
}

impl CallstackIterable for Callstack {
    open spec fn callstack(&self) -> CallstackView {
        self@
    }

    fn iid(&self) -> (r: u64) {
        self.iid
    }

    fn frame_ids(&self) -> (r: Vec<u64>) {
        copy_ids(&self.frame_ids)
    }
}

impl FrameIterable for Frame {
    open spec fn frame(&self) -> Frame {
        *self
    }

    fn iid(&self) -> (r: u64) {
        self.iid
    }

    fn function_name_id(&self) -> (r: u64) {
        self.function_name_id
    }

    fn mapping_id(&self) -> (r: u64) {
        self.mapping_id
    }

    fn rel_pc(&self) -> (r: u64) {
        self.rel_pc
    }
}

impl InternedStringIterable for InternedString {
    open spec fn string(&self) -> InternedStringView {
        self@
    }

    fn iid(&self) -> (r: u64) {
        self.iid
    }

    fn str_ref(&self) -> (r: &str) {
        self.str.as_str()
    }
}

impl MappingIterable for Mapping {
    open spec fn mapping(&self) -> MappingView {
        self@
    }

    fn iid(&self) -> (r: u64) {
        self.iid
    }

    fn build_id(&self) -> (r: u64) {
        self.build_id
    }

    fn exact_offset(&self) -> (r: u64) {
        self.exact_offset
    }

    fn start_offset(&self) -> (r: u64) {
        self.start_offset
    }

    fn start(&self) -> (r: u64) {
        self.start
    }

    fn end(&self) -> (r: u64) {
        self.end
    }

    fn load_bias(&self) -> (r: u64) {
        self.load_bias
    }

    fn path_string_ids(&self) -> (r: Vec<u64>) {
        copy_ids(&self.path_string_ids)
    }
}

impl InternedDataIterable for InternedData {
    type Callstack = Callstack;

    type Frame = Frame;

    type FunctionName = InternedString;

    type Mapping = Mapping;

    type BuildId = InternedString;

    open spec fn interned(&self) -> InternedDataView {
        self@
    }

    fn callstacks(&self) -> (r: &[Callstack]) {
        self.callstacks.as_slice()
    }

    fn frames(&self) -> (r: &[Frame]) {
        self.frames.as_slice()
    }

    fn function_names(&self) -> (r: &[InternedString]) {
        self.function_names.as_slice()
    }

    fn mappings(&self) -> (r: &[Mapping]) {
        self.mappings.as_slice()
    }

    fn build_ids(&self) -> (r: &[InternedString]) {
        self.build_ids.as_slice()
    }

    fn continuation(&self) -> (r: bool) {
        self.continuation
    }
}

/// In which mode a processor was when it was sampled.
#[derive(Debug, Clone, Copy, PartialEq, Eq, Structural)]
pub enum CpuMode {
    Unknown,
    Kernel,
    User,
}

/// One stack sample.
#[derive(Debug, Clone, Copy, PartialEq, Eq, Structural)]
pub struct Sample {
    pub cpu: u32,
    pub track_id: TrackId,
    pub timestamp: u64,
    pub callstack_iid: u64,
    pub cpu_mode: CpuMode,
}

#[derive(Debug, Clone, Copy, PartialEq, Eq, Structural)]
pub enum LogLevel {
    Error,
    Warn,
    Info,
    Debug,
    Trace,
}

#[derive(Debug)]
pub enum Event {
    Counter(Counter),
    Span(Span),
    Instant(Instant),
    InternedData(InternedData),
    Sample(Sample),
    Track(Track),
}

pub enum EventView {
    Counter(CounterView),
    Span(SpanView),
    Instant(InstantView),
    InternedData(InternedDataView),
    Sample(Sample),
    Track(TrackView),
}

impl View for Event {
    type V = EventView;

    open spec fn view(&self) -> EventView {
        match *self {
            Event::Counter(e) => EventView::Counter(e@),
            Event::Span(e) => EventView::Span(e@),
            Event::Instant(e) => EventView::Instant(e@),
            Event::InternedData(e) => EventView::InternedData(e@),
            Event::Sample(e) => EventView::Sample(e),
            Event::Track(e) => EventView::Track(e@),
        }
    }
}

/// What travels through a ring buffer: an event, on a stream of its own or not.
#[derive(Debug)]
pub enum Message {
    Event(Event),
    Stream { stream_id: StreamId, event: Event },
}

pub enum MessageView {
    Event(EventView),
    Stream { stream_id: StreamId, event: EventView },
}

impl View for Message {
    type V = MessageView;

    open spec fn view(&self) -> MessageView {
        match *self {
            Message::Event(e) => MessageView::Event(e@),
            Message::Stream { stream_id, event } => MessageView::Stream {
                stream_id,
                event: event@,
            },
        }
    }
}

/// The clock that timestamps are read from.
#[derive(Debug, Clone, Copy, PartialEq, Eq, Structural)]
pub enum TimestampType {
    Monotonic,
    Boottime,
    Realtime,
}

/// The value of an option; a floating-point value by its bit pattern.
#[derive(Debug)]
pub enum Value {
    String(String),
    Int(i64),
    Float(u64),
    Bool(bool),
}

#[derive(Debug)]
pub struct TracingArgs {
    pub log_filter: String,
    pub timestamp_type: TimestampType,
}

/// What a client asks of the agent it starts; the options by name, the first
/// of a name counting.
#[derive(Debug)]
pub struct Args {
    pub tracing: Option<TracingArgs>,
    pub options: Vec<(String, Value)>,
}

impl Args {
    /// Arguments must ask for something.
    pub fn validate(&self) -> (r: Result<(), &'static str>)
        ensures
            r is Ok <==> self.tracing is Some,
            r matches Err(e) ==> e@ == "at least one arg must be non-empty"@,
    {
        if self.tracing.is_none() {
            return Err("at least one arg must be non-empty");
        }
        Ok(())
    }

    /// The value of the option `name`.
    pub fn option(&self, name: &str) -> (r: Option<&Value>)
        ensures
            match r {
                Some(v) => label_get(self@.options, name@) == Some(v@),
                None => label_get(self@.options, name@) is None,
            },
    {
        let owned: String = name.to_owned();
        let mut i: usize = 0;
        while i < self.options.len()
            invariant
                i <= self.options@.len(),
                owned@ == name@,
                forall|j: int|
                    0 <= j < i ==> (#[trigger] self@.options[j]).0 != name@,
            decreases self.options@.len() - i,
        {
            if self.options[i].0 == owned {
                proof {
                    lemma_label_position_is(self@.options, name@, i as int);
                }
                return Some(&self.options[i].1);
            }
            i += 1;
        }
        proof {
            lemma_label_position_is(self@.options, name@, i as int);
        }
        None
    }
}

/// A value by its view.
pub enum ValueView {
    String(Seq<char>),
    Int(i64),
    Float(u64),
    Bool(bool),
}

impl View for Value {
    type V = ValueView;

    open spec fn view(&self) -> ValueView {
        match *self {
            Value::String(s) => ValueView::String(s@),
            Value::Int(n) => ValueView::Int(n),
            Value::Float(bits) => ValueView::Float(bits),
            Value::Bool(b) => ValueView::Bool(b),
        }
    }
}

pub struct TracingArgsView {
    pub log_filter: Seq<char>,
    pub timestamp_type: TimestampType,
}

impl View for TracingArgs {
    type V = TracingArgsView;

    open spec fn view(&self) -> TracingArgsView {
        TracingArgsView { log_filter: self.log_filter@, timestamp_type: self.timestamp_type }
    }
}

pub struct ArgsView {
    pub tracing: Option<TracingArgsView>,
    pub options: Seq<(Seq<char>, ValueView)>,
}

impl View for Args {
    type V = ArgsView;

    open spec fn view(&self) -> ArgsView {
        ArgsView {
            tracing: match self.tracing {
                Some(t) => Some(t@),
                None => None,
            },
            options: self.options@.map_values(|p: (String, Value)| (p.0@, p.1@)),
        }
    }
}

/// What passes between a client and an agent.
#[derive(Debug)]
pub enum ControlMessage {
    Start { buffer_size: u64, args: Args },
    Stop,
    Continue,
    Ack,
    Nack { error: String },
    Version,
    VersionResponse { version: String },
}

pub enum ControlMessageView {
    Start { buffer_size: u64, args: ArgsView },
    Stop,
    Continue,
    Ack,
    Nack { error: Seq<char> },
    Version,
    VersionResponse { version: Seq<char> },
}

impl View for ControlMessage {
    type V = ControlMessageView;

    open spec fn view(&self) -> ControlMessageView {
        match *self {
            ControlMessage::Start { buffer_size, args } => ControlMessageView::Start {
                buffer_size,
                args: args@,
            },
            ControlMessage::Stop => ControlMessageView::Stop,
            ControlMessage::Continue => ControlMessageView::Continue,
            ControlMessage::Ack => ControlMessageView::Ack,
            ControlMessage::Nack { error } => ControlMessageView::Nack { error: error@ },
            ControlMessage::Version => ControlMessageView::Version,
            ControlMessage::VersionResponse { version } => ControlMessageView::VersionResponse {
                version: version@,
            },
        }
    }
}

/// The error for a record that does not fit.
#[derive(Debug, Clone, Copy, PartialEq, Eq, Structural)]
pub struct OutOfSpaceError;

impl OutOfSpaceError {
    pub fn to_text(&self) -> (r: String)
        ensures
            r@ == "not enough space in the buffer"@,
    {
        "not enough space in the buffer".to_owned()
    }
}

/// Counts what would be written.
#[derive(Debug, Clone, Copy)]
pub struct CountingWriter {
    write_count: usize,
    total_bytes: usize,
}

impl CountingWriter {
    /// How often something was written.
    pub closed spec fn writes(&self) -> usize {
        self.write_count
    }

    /// How many bytes were written.
    pub closed spec fn bytes(&self) -> usize {
        self.total_bytes
    }

    pub fn new() -> (r: Self)
        ensures
            r.writes() == 0,
            r.bytes() == 0,
    {
        CountingWriter { write_count: 0, total_bytes: 0 }
    }

    pub fn write_count(&self) -> (r: usize)
        ensures
            r == self.writes(),
    {
        self.write_count
    }

    pub fn total_bytes(&self) -> (r: usize)
        ensures
            r == self.bytes(),
    {
        self.total_bytes
    }

    /// Where the next byte would go.
    pub fn pos(&self) -> (r: usize)
        ensures
            r == self.bytes(),
    {
        self.total_bytes
    }

    pub fn write(&mut self, bytes: &[u8])
        requires
            old(self).writes() < usize::MAX,
            old(self).bytes() + bytes@.len() <= usize::MAX,
        ensures
            final(self).writes() == old(self).writes() + 1,
            final(self).bytes() == old(self).bytes() + bytes@.len(),
    {
        self.write_count = self.write_count + 1;
        self.total_bytes = self.total_bytes + bytes.len();
    }
}

impl Default for CountingWriter {
    fn default() -> (r: Self)
        ensures
            r.writes() == 0,
            r.bytes() == 0,
    {
        Self::new()
    }
}

/// Writes into a slice, from its start on.
pub struct SliceWriter<'a> {
    buf: &'a mut [u8],
    pos: usize,
}

impl<'a> SliceWriter<'a> {
    /// The slice as it is now.
    pub closed spec fn content(&self) -> Seq<u8> {
        self.buf@
    }

    /// How many bytes were written.
    pub closed spec fn spec_written(&self) -> usize {
        self.pos
    }

    /// No more was written than there is room for.
    pub open spec fn wf(&self) -> bool {
        self.spec_written() <= self.content().len()
    }

    pub fn new(buf: &'a mut [u8]) -> (r: Self)
        ensures
            r.content() == old(buf)@,
            r.spec_written() == 0,
            r.wf(),
    {
        SliceWriter { buf, pos: 0 }
    }

    pub fn written(&self) -> (r: usize)
        ensures
            r == self.spec_written(),
    {
        self.pos
    }

    /// Writes bytes behind those that were written. It fails, and writes nothing,
    /// exactly when they do not fit.
    pub fn write(&mut self, bytes: &[u8]) -> (r: Result<(), OutOfSpaceError>)
        requires
            old(self).wf(),
        ensures
            final(self).wf(),
            final(self).content().len() == old(self).content().len(),
            r is Ok <==> old(self).spec_written() + bytes@.len() <= old(self).content().len(),
            match r {
                Ok(_) => {
                    &&& final(self).spec_written() == old(self).spec_written() + bytes@.len()
                    &&& final(self).content() == old(self).content().take(
                        old(self).spec_written() as int,
                    ) + bytes@ + old(self).content().skip(
                        old(self).spec_written() + bytes@.len(),
                    )
                },
                Err(_) => {
                    &&& final(self).spec_written() == old(self).spec_written()
                    &&& final(self).content() == old(self).content()
                },
            },
    {
        if bytes.len() > self.buf.len() - self.pos {
            return Err(OutOfSpaceError);
        }
        let ghost before = self.buf@;
        let start: usize = self.pos;
        let size: usize = self.buf.len();
        let mut i: usize = 0;
        while i < bytes.len()
            invariant
                i <= bytes@.len(),
                self.pos == start,
                self.buf@.len() == size == before.len(),
                start + bytes@.len() <= size,
                self.buf@ =~= before.take(start as int) + bytes@.take(i as int) + before.skip(
                    start + i,
                ),
            decreases bytes@.len() - i,
        {
            self.buf[start + i] = bytes[i];
            i += 1;
        }
        self.pos = start + bytes.len();
        assert(bytes@.take(i as int) =~= bytes@);
        Ok(())
    }
}

/// How many bytes a number of writes takes.
pub open spec fn total_length(writes: Seq<Seq<u8>>) -> int
    decreases writes.len(),
{
    if writes.len() == 0 {
        0
    } else {
        total_length(writes.drop_last()) + writes.last().len()
    }
}

/// A slice of the length that was counted takes every one of the writes that were
/// counted.
pub proof fn law_counted_length_suffices(writes: Seq<Seq<u8>>, size: int, k: int)
    requires
        total_length(writes) <= size,
        0 <= k < writes.len(),
    ensures
        total_length(writes.take(k)) + writes[k].len() <= size,
    decreases writes.len(),
{
    let rest = writes.drop_last();
    if k < rest.len() {
        law_counted_length_suffices(rest, size, k);
        assert(rest.take(k) =~= writes.take(k));
    } else {
        assert(writes.take(k) =~= rest);
    }
}

} // verus!

//! Turns messages into trace packets.
//!
//! What an event does is a list of steps, each of which hands one packet to the
//! sink. If the sink refuses one, the steps before it have had their effect, and
//! the rest is left undone.

use crate::archived::{ArchivedCounter, ArchivedEvent, ArchivedMessage};
use crate::perfetto::packet::{
    create_debug_annotation, CounterValue, DebugAnnotation, DebugAnnotationView, DebugValue,
    DebugValueView, TracePacketView,
};
use crate::perfetto::writer::{
    continuation_flags, counter_packet, generic_packet, instant_packet, interned_content,
    interned_packet, problem_of, process_packet, sample_packet, slice_begin_packet,
    slice_end_packet, thread_packet, value_packet, Attempts, Flushes, PacketSink,
    PerfettoStreamWriter, WriteError, FIRST_TRACK_UUID,
};
use crate::protocol::{
    optional_text, views, Counter, Event, EventView, InternedDataIterable, Labels, LabelsView,
    Message, MessageView, Reading, StreamId, Track, TrackId, TrackType, TrackTypeView, TrackView,
};
use std::collections::HashMap;
use vstd::prelude::*;
use vstd::std_specs::hash::*;

verus! {

/// The state of a conversion: the number of each track that is known, the number
/// of the next one, what was handed to the sink, and its flushes.
pub struct ConverterView {
    pub tracks: Map<TrackId, u64>,
    pub next_uuid: u64,
    pub attempts: Attempts,
    pub flushes: Flushes,
}

/// One packet to be written; whether it takes a new number for a track; and which
/// track is known once it is written.
pub struct Step {
    pub packet: TracePacketView,
    pub numbered: bool,
    pub track: Option<(TrackId, u64)>,
}

impl ConverterView {
    /// Every known track has a number of its own, out of those that were handed
    /// out.
    pub open spec fn wf(self) -> bool {
        &&& FIRST_TRACK_UUID <= self.next_uuid
        &&& forall|t: TrackId| #[trigger]
            self.tracks.contains_key(t) ==> FIRST_TRACK_UUID <= self.tracks[t] < self.next_uuid
        &&& forall|s: TrackId, t: TrackId|
            #![trigger self.tracks[s], self.tracks[t]]
            self.tracks.contains_key(s) && self.tracks.contains_key(t) && s != t
                ==> self.tracks[s] != self.tracks[t]
    }

    /// Whether numbers for the tracks of one more event are left.
    pub open spec fn has_room(self) -> bool {
        self.next_uuid + 4 <= u64::MAX
    }

    /// The state once a packet is handed over.
    pub open spec fn after(self, step: Step, problem: Option<Seq<char>>) -> ConverterView {
        ConverterView {
            tracks: match step.track {
                Some((track, uuid)) => if problem is None {
                    self.tracks.insert(track, uuid)
                } else {
                    self.tracks
                },
                None => self.tracks,
            },
            next_uuid: if step.numbered {
                (self.next_uuid + 1) as u64
            } else {
                self.next_uuid
            },
            attempts: self.attempts.push((step.packet, problem)),
            flushes: self.flushes,
        }
    }

    /// The state once all steps are taken.
    pub open spec fn run(self, steps: Seq<Step>) -> ConverterView
        decreases steps.len(),
    {
        if steps.len() == 0 {
            self
        } else {
            self.run(steps.drop_last()).after(steps.last(), None)
        }
    }
}

/// Whether `after` is `before` with the steps taken: all of them if that
/// succeeded, or else those before one that was refused.
pub open spec fn carried_out(
    before: ConverterView,
    steps: Seq<Step>,
    after: ConverterView,
    problem: Option<Seq<char>>,
) -> bool {
    if problem is None {
        after == before.run(steps)
    } else {
        exists|k: int|
            0 <= k < steps.len() && after == #[trigger] before.run(steps.take(k)).after(
                steps[k],
                problem,
            )
    }
}

/// Steps that follow one another.
pub proof fn lemma_run_concat(before: ConverterView, a: Seq<Step>, b: Seq<Step>)
    ensures
        before.run(a + b) == before.run(a).run(b),
    decreases b.len(),
{
    if b.len() == 0 {
        assert(a + b =~= a);
    } else {
        lemma_run_concat(before, a, b.drop_last());
        assert((a + b).drop_last() =~= a + b.drop_last());
        assert((a + b).last() == b.last());
    }
}

/// Steps that were taken, and more steps after them.
proof fn lemma_carried_out_concat(
    before: ConverterView,
    a: Seq<Step>,
    middle: ConverterView,
    b: Seq<Step>,
    after: ConverterView,
    problem: Option<Seq<char>>,
)
    requires
        carried_out(before, a, middle, None),
        carried_out(middle, b, after, problem),
    ensures
        carried_out(before, a + b, after, problem),
{
    lemma_run_concat(before, a, b);
    if problem is Some {
        let k = choose|k: int|
            0 <= k < b.len() && after == #[trigger] middle.run(b.take(k)).after(b[k], problem);
        lemma_run_concat(before, a, b.take(k));
        let n = a.len() + k;
        assert((a + b).take(n) =~= a + b.take(k));
        assert((a + b)[n] == b[k]);
        assert(after == before.run((a + b).take(n)).after((a + b)[n], problem));
    }
}

/// Steps one of which was refused, and more steps that were left undone.
proof fn lemma_refused_concat(
    before: ConverterView,
    a: Seq<Step>,
    b: Seq<Step>,
    after: ConverterView,
    problem: Option<Seq<char>>,
)
    requires
        problem is Some,
        carried_out(before, a, after, problem),
    ensures
        carried_out(before, a + b, after, problem),
{
    let k = choose|k: int|
        0 <= k < a.len() && after == #[trigger] before.run(a.take(k)).after(a[k], problem);
    assert((a + b).take(k) =~= a.take(k));
    assert((a + b)[k] == a[k]);
    assert(after == before.run((a + b).take(k)).after((a + b)[k], problem));
}

/// A single step.
proof fn lemma_one_step(
    before: ConverterView,
    step: Step,
    after: ConverterView,
    problem: Option<Seq<char>>,
)
    requires
        after == before.after(step, problem),
    ensures
        carried_out(before, seq![step], after, problem),
{
    let steps = seq![step];
    assert(steps.drop_last() =~= seq![]);
    assert(steps.take(0) =~= seq![]);
    assert(before.run(steps.take(0)) == before);
    assert(before.run(steps.drop_last()) == before);
    if problem is Some {
        assert(after == before.run(steps.take(0)).after(steps[0], problem));
    }
}

/// The number of a process.
pub open spec fn process_uuid(s: ConverterView, pid: i32) -> u64 {
    let id = TrackId::Process { pid };
    if s.tracks.contains_key(id) {
        s.tracks[id]
    } else {
        s.next_uuid
    }
}

/// The steps that make a process known.
pub open spec fn process_steps(s: ConverterView, pid: i32, name: Option<Seq<char>>) -> Seq<Step> {
    let id = TrackId::Process { pid };
    if s.tracks.contains_key(id) {
        seq![]
    } else {
        seq![
            Step {
                packet: process_packet(s.next_uuid, pid, name),
                numbered: true,
                track: Some((id, s.next_uuid)),
            },
        ]
    }
}

/// The number of a thread.
pub open spec fn thread_uuid(s: ConverterView, pid: i32, tid: i32) -> u64 {
    let id = TrackId::Thread { tid, pid };
    if s.tracks.contains_key(id) {
        s.tracks[id]
    } else {
        s.run(process_steps(s, pid, None)).next_uuid
    }
}

/// The steps that make a thread known, after its process; a thread that is known
/// already is described again if there is a name for it.
pub open spec fn thread_steps(s: ConverterView, pid: i32, tid: i32, name: Option<Seq<char>>) -> Seq<
    Step,
> {
    let id = TrackId::Thread { tid, pid };
    let parent = process_steps(s, pid, None);
    if s.tracks.contains_key(id) {
        if name is Some {
            parent + seq![
                Step {
                    packet: thread_packet(s.tracks[id], pid, tid, name, process_uuid(s, pid)),
                    numbered: false,
                    track: None,
                },
            ]
        } else {
            seq![]
        }
    } else {
        parent + seq![
            Step {
                packet: thread_packet(
                    thread_uuid(s, pid, tid),
                    pid,
                    tid,
                    name,
                    process_uuid(s, pid),
                ),
                numbered: true,
                track: Some((id, thread_uuid(s, pid, tid))),
            },
        ]
    }
}

/// Whether events on a track can be shown: it is known, or it can be made known
/// from its id alone.
pub open spec fn showable(s: ConverterView, id: TrackId) -> bool {
    s.tracks.contains_key(id) || id is Thread || id is Process
}

/// The steps that make a track known from its id.
pub open spec fn id_steps(s: ConverterView, id: TrackId) -> Seq<Step> {
    if s.tracks.contains_key(id) {
        seq![]
    } else {
        match id {
            TrackId::Thread { tid, pid } => thread_steps(s, pid, tid, None),
            TrackId::Process { pid } => process_steps(s, pid, None),
            _ => seq![],
        }
    }
}

/// The number of a track; zero stands for one that is not known.
pub open spec fn id_uuid(s: ConverterView, id: TrackId) -> u64 {
    if s.tracks.contains_key(id) {
        s.tracks[id]
    } else {
        match id {
            TrackId::Thread { tid, pid } => thread_uuid(s, pid, tid),
            TrackId::Process { pid } => process_uuid(s, pid),
            _ => 0,
        }
    }
}

/// The labels as annotations: the strings, the integers, the booleans, and the
/// floating-point numbers.
pub open spec fn annotations_of(labels: LabelsView) -> Seq<DebugAnnotationView> {
    labels.strings.map_values(
        |p: (Seq<char>, Seq<char>)|
            DebugAnnotationView { name: p.0, value: DebugValueView::String(p.1) },
    ) + labels.ints.map_values(
        |p: (Seq<char>, i64)| DebugAnnotationView { name: p.0, value: DebugValueView::Int(p.1) },
    ) + labels.bools.map_values(
        |p: (Seq<char>, bool)|
            DebugAnnotationView { name: p.0, value: DebugValueView::Bool(p.1) },
    ) + labels.floats.map_values(
        |p: (Seq<char>, Reading)|
            DebugAnnotationView { name: p.0, value: DebugValueView::Double(p.1) },
    )
}

/// A step that only writes a packet.
pub open spec fn plain(packet: TracePacketView) -> Step {
    Step { packet, numbered: false, track: None }
}

/// The parent of a track, as a number.
pub open spec fn parent_steps(s: ConverterView, parent: Option<TrackTypeView>) -> Seq<Step> {
    match parent {
        Some(p) => id_steps(s, p.id()),
        None => seq![],
    }
}

/// The number of a track's parent; zero stands for none.
pub open spec fn parent_uuid(s: ConverterView, parent: Option<TrackTypeView>) -> u64 {
    match parent {
        Some(p) => id_uuid(s, p.id()),
        None => 0,
    }
}

/// The step or steps that describe a track whose parent is known.
pub open spec fn describe_steps(s: ConverterView, track: TrackView, parent: u64) -> Seq<Step> {
    let known = Some((track.track_type.id(), s.next_uuid));
    match track.track_type {
        TrackTypeView::Thread { tid, pid } => thread_steps(s, pid, tid, Some(track.name)),
        TrackTypeView::Process { pid } => process_steps(s, pid, Some(track.name)),
        TrackTypeView::Counter { unit, .. } => seq![
            Step {
                packet: counter_packet(s.next_uuid, track.name, unit, parent),
                numbered: true,
                track: known,
            },
        ],
        _ => seq![
            Step {
                packet: generic_packet(s.next_uuid, track.name, parent),
                numbered: true,
                track: known,
            },
        ],
    }
}

/// What a track does: if it is not known, its parent is made known, where that is
/// possible, and the track is described.
pub open spec fn track_steps(s: ConverterView, track: TrackView) -> Seq<Step> {
    if s.tracks.contains_key(track.track_type.id()) {
        seq![]
    } else {
        let first = parent_steps(s, track.parent);
        first + describe_steps(s.run(first), track, parent_uuid(s, track.parent))
    }
}

/// The steps of an event.
pub open spec fn event_steps(s: ConverterView, event: EventView, stream_id: Option<u16>) -> Seq<
    Step,
> {
    match event {
        EventView::InternedData(data) => seq![
            plain(
                interned_packet(
                    interned_content(data),
                    continuation_flags(data.continuation),
                    stream_id,
                ),
            ),
        ],
        EventView::Sample(sample) => match sample.track_id {
            TrackId::Thread { tid, pid } => seq![
                plain(
                    sample_packet(
                        sample.cpu,
                        pid as u32,
                        tid as u32,
                        sample.timestamp,
                        sample.callstack_iid,
                        stream_id,
                    ),
                ),
            ],
            _ => seq![],
        },
        EventView::Counter(counter) => if s.tracks.contains_key(counter.track_id) {
            seq![
                plain(
                    value_packet(
                        s.tracks[counter.track_id],
                        CounterValue::Double(counter.value),
                        counter.timestamp,
                    ),
                ),
            ]
        } else {
            seq![]
        },
        EventView::Span(span) => if showable(s, span.track_id) {
            id_steps(s, span.track_id) + seq![
                plain(
                    slice_begin_packet(
                        id_uuid(s, span.track_id),
                        span.name,
                        span.start_timestamp,
                        annotations_of(span.labels),
                    ),
                ),
                plain(slice_end_packet(id_uuid(s, span.track_id), span.end_timestamp)),
            ]
        } else {
            seq![]
        },
        EventView::Instant(instant) => if showable(s, instant.track_id) {
            id_steps(s, instant.track_id) + seq![
                plain(
                    instant_packet(
                        id_uuid(s, instant.track_id),
                        instant.name,
                        instant.timestamp,
                        annotations_of(instant.labels),
                    ),
                ),
            ]
        } else {
            seq![]
        },
        EventView::Track(track) => track_steps(s, track),
    }
}

/// The event of a message, and its stream.
pub open spec fn message_parts(message: MessageView) -> (EventView, Option<u16>) {
    match message {
        MessageView::Event(e) => (e, None),
        MessageView::Stream { stream_id, event } => (event, Some(stream_id)),
    }
}

/// The number under which a track is kept.
pub open spec fn track_code(id: TrackId) -> u128 {
    match id {
        TrackId::Cpu { cpu } => cpu as u128,
        TrackId::Thread { tid, pid } => (0x1_0000_0000_0000_0000 + (tid + 0x8000_0000)
            * 0x1_0000_0000 + (pid + 0x8000_0000)) as u128,
        TrackId::Process { pid } => (0x2_0000_0000_0000_0000 + (pid + 0x8000_0000)) as u128,
        TrackId::Custom { id } => (0x3_0000_0000_0000_0000 + id) as u128,
        TrackId::Counter { id } => (0x4_0000_0000_0000_0000 + id) as u128,
    }
}

fn track_key(id: &TrackId) -> (r: u128)
    ensures
        r == track_code(*id),
{
    match id {
        TrackId::Cpu { cpu } => *cpu as u128,
        TrackId::Thread { tid, pid } => 0x1_0000_0000_0000_0000u128 + ((*tid as i64 + 0x8000_0000)
            as u128) * 0x1_0000_0000 + ((*pid as i64 + 0x8000_0000) as u128),
        TrackId::Process { pid } => 0x2_0000_0000_0000_0000u128 + ((*pid as i64 + 0x8000_0000)
            as u128),
        TrackId::Custom { id } => 0x3_0000_0000_0000_0000u128 + *id as u128,
        TrackId::Counter { id } => 0x4_0000_0000_0000_0000u128 + *id as u128,
    }
}

proof fn lemma_same_code(a: TrackId, b: TrackId)
    requires
        track_code(a) == track_code(b),
    ensures
        a == b,
{
}

/// The known tracks, each with its number.
struct TrackMap {
    map: HashMap<u128, u64>,
}

impl View for TrackMap {
    type V = Map<TrackId, u64>;

    closed spec fn view(&self) -> Map<TrackId, u64> {
        Map::new(
            |t: TrackId| self.map@.contains_key(track_code(t)),
            |t: TrackId| self.map@[track_code(t)],
        )
    }
}

impl TrackMap {
    fn new() -> (r: Self)
        ensures
            r@ == Map::<TrackId, u64>::empty(),
    {
        let r = TrackMap { map: HashMap::new() };
        assert(r@ =~= Map::<TrackId, u64>::empty());
        r
    }

    fn get(&self, id: &TrackId) -> (r: Option<u64>)
        ensures
            r == (if self@.contains_key(*id) {
                Some(self@[*id])
            } else {
                None
            }),
    {
        broadcast use group_hash_axioms;

        match self.map.get(&track_key(id)) {
            Some(uuid) => Some(*uuid),
            None => None,
        }
    }

    fn insert(&mut self, id: TrackId, uuid: u64)
        ensures
            final(self)@ == old(self)@.insert(id, uuid),
    {
        broadcast use group_hash_axioms;

        self.map.insert(track_key(&id), uuid);
        proof {
            assert forall|t: TrackId| t != id implies track_code(t) != track_code(id) by {
                if track_code(t) == track_code(id) {
                    lemma_same_code(t, id);
                }
            }
            assert(self@ =~= old(self)@.insert(id, uuid));
        }
    }
}

/// Converts messages.
pub struct PerfettoConverter<W: PacketSink> {
    writer: PerfettoStreamWriter<W>,
    track_map: TrackMap,
}

/// An optional name, owned.
fn owned_name(name: Option<&str>) -> (r: Option<String>)
    ensures
        optional_text(r) == name_text(name),
{
    match name {
        Some(n) => Some(n.to_owned()),
        None => None,
    }
}

/// An optional name by its characters.
pub open spec fn name_text(name: Option<&str>) -> Option<Seq<char>> {
    match name {
        Some(n) => Some(n@),
        None => None,
    }
}

/// The labels as annotations.
pub fn create_debug_annotations(labels: &Labels) -> (r: Vec<DebugAnnotation>)
    ensures
        views(r@) == annotations_of(labels@),
{
    let ghost all = annotations_of(labels@);
    let mut r: Vec<DebugAnnotation> = Vec::new();
    let mut i: usize = 0;
    while i < labels.strings.len()
        invariant
            i <= labels.strings@.len(),
            all == annotations_of(labels@),
            views(r@) =~= all.take(i as int),
        decreases labels.strings@.len() - i,
    {
        let ghost before = r@;
        r.push(
            create_debug_annotation(
                labels.strings[i].0.clone(),
                DebugValue::String(labels.strings[i].1.clone()),
            ),
        );
        assert(views(r@) =~= views(before).push(all[i as int]));
        i += 1;
    }
    let ghost base = labels.strings@.len() as int;
    let mut i: usize = 0;
    while i < labels.ints.len()
        invariant
            i <= labels.ints@.len(),
            all == annotations_of(labels@),
            base == labels.strings@.len(),
            views(r@) =~= all.take(base + i),
        decreases labels.ints@.len() - i,
    {
        let ghost before = r@;
        r.push(
            create_debug_annotation(labels.ints[i].0.clone(), DebugValue::Int(labels.ints[i].1)),
        );
        assert(views(r@) =~= views(before).push(all[base + i]));
        i += 1;
    }
    let ghost base = base + labels.ints@.len();
    let mut i: usize = 0;
    while i < labels.bools.len()
        invariant
            i <= labels.bools@.len(),
            all == annotations_of(labels@),
            base == labels.strings@.len() + labels.ints@.len(),
            views(r@) =~= all.take(base + i),
        decreases labels.bools@.len() - i,
    {
        let ghost before = r@;
        r.push(
            create_debug_annotation(labels.bools[i].0.clone(), DebugValue::Bool(labels.bools[i].1)),
        );
        assert(views(r@) =~= views(before).push(all[base + i]));
        i += 1;
    }
    let ghost base = base + labels.bools@.len();
    let mut i: usize = 0;
    while i < labels.floats.len()
        invariant
            i <= labels.floats@.len(),
            all == annotations_of(labels@),
            base == labels.strings@.len() + labels.ints@.len() + labels.bools@.len(),
            views(r@) =~= all.take(base + i),
        decreases labels.floats@.len() - i,
    {
        let ghost before = r@;
        r.push(
            create_debug_annotation(
                labels.floats[i].0.clone(),
                DebugValue::Double(labels.floats[i].1),
            ),
        );
        assert(views(r@) =~= views(before).push(all[base + i]));
        i += 1;
    }
    assert(views(r@) =~= all);
    r
}

/// A number that went through an unsigned type of the same width.
proof fn lemma_round_trip(n: i32)
    ensures
        (n as u32) as i32 == n,
{
    assert((n as u32) as i32 == n) by (bit_vector);
}

impl<W: PacketSink> View for PerfettoConverter<W> {
    type V = ConverterView;

    closed spec fn view(&self) -> ConverterView {
        ConverterView {
            tracks: self.track_map@,
            next_uuid: self.writer.next_uuid(),
            attempts: self.writer.attempts(),
            flushes: self.writer.sink().flushes(),
        }
    }
}

impl<W: PacketSink> PerfettoConverter<W> {
    /// The sink.
    pub closed spec fn sink(&self) -> W {
        self.writer.sink()
    }

    pub fn new(writer: W) -> (r: Self)
        ensures
            r@ == (ConverterView {
                tracks: Map::empty(),
                next_uuid: FIRST_TRACK_UUID,
                attempts: writer.attempts(),
                flushes: writer.flushes(),
            }),
            r@.wf(),
            r.sink() == writer,
    {
        PerfettoConverter { writer: PerfettoStreamWriter::new(writer), track_map: TrackMap::new() }
    }

    /// Lets a caller look at the sink.
    pub fn inner(&self) -> (r: &W)
        ensures
            *r == self.sink(),
            r.attempts() == self@.attempts,
            r.flushes() == self@.flushes,
    {
        self.writer.inner()
    }

    fn ensure_process_track(&mut self, pid: i32, name: Option<&str>) -> (r: Result<u64, WriteError>)
        requires
            old(self)@.next_uuid < u64::MAX,
        ensures
            carried_out(
                old(self)@,
                process_steps(old(self)@, pid, name_text(name)),
                final(self)@,
                problem_of(r),
            ),
            r matches Ok(uuid) ==> {
                &&& uuid == process_uuid(old(self)@, pid)
                &&& final(self)@.tracks.contains_key(TrackId::Process { pid })
                &&& final(self)@.tracks[TrackId::Process { pid }] == uuid
            },
            final(self)@.next_uuid <= old(self)@.next_uuid + 1,
    {
        let ghost before = self@;
        let track_id = TrackId::Process { pid };
        if let Some(track_uuid) = self.track_map.get(&track_id) {
            return Ok(track_uuid);
        }
        let ghost step = process_steps(before, pid, name_text(name))[0];
        proof {
            lemma_round_trip(pid);
        }
        match self.writer.write_process_descriptor(pid as u32, owned_name(name)) {
            Err(e) => {
                proof {
                    lemma_one_step(before, step, self@, Some(e.message@));
                }
                Err(e)
            },
            Ok(track_uuid) => {
                self.track_map.insert(track_id, track_uuid);
                proof {
                    lemma_one_step(before, step, self@, None);
                }
                Ok(track_uuid)
            },
        }
    }

    fn ensure_thread_track(&mut self, pid: i32, tid: i32, name: Option<&str>) -> (r: Result<
        u64,
        WriteError,
    >)
        requires
            old(self)@.next_uuid + 2 <= u64::MAX,
        ensures
            carried_out(
                old(self)@,
                thread_steps(old(self)@, pid, tid, name_text(name)),
                final(self)@,
                problem_of(r),
            ),
            r matches Ok(uuid) ==> {
                &&& uuid == thread_uuid(old(self)@, pid, tid)
                &&& final(self)@.tracks.contains_key(TrackId::Thread { tid, pid })
                &&& final(self)@.tracks[TrackId::Thread { tid, pid }] == uuid
            },
            final(self)@.next_uuid <= old(self)@.next_uuid + 2,
    {
        let ghost before = self@;
        let ghost parent = process_steps(before, pid, None);
        let track_id = TrackId::Thread { tid, pid };
        proof {
            lemma_round_trip(pid);
            lemma_round_trip(tid);
        }
        match self.track_map.get(&track_id) {
            Some(track_uuid) => {
                if name.is_some() {
                    let ghost steps = thread_steps(before, pid, tid, name_text(name));
                    let ghost last = steps.last();
                    assert(steps =~= parent + seq![last]);
                    let process_track_uuid: u64 = match self.ensure_process_track(pid, None) {
                        Ok(uuid) => uuid,
                        Err(e) => {
                            proof {
                                lemma_refused_concat(before, parent, seq![last], self@, Some(e.message@));
                            }
                            return Err(e);
                        },
                    };
                    let ghost middle = self@;
                    proof {
                        lemma_process_run(before, pid, None);
                    }
                    let result = self.writer.write_thread_descriptor_with_uuid(
                        track_uuid,
                        pid as u32,
                        tid as u32,
                        owned_name(name),
                        process_track_uuid,
                    );
                    proof {
                        lemma_one_step(middle, last, self@, problem_of(result));
                        lemma_carried_out_concat(
                            before,
                            parent,
                            middle,
                            seq![last],
                            self@,
                            problem_of(result),
                        );
                    }
                    if let Err(e) = result {
                        return Err(e);
                    }
                }
                Ok(track_uuid)
            },
            None => {
                let ghost steps = thread_steps(before, pid, tid, name_text(name));
                let ghost last = steps.last();
                assert(steps =~= parent + seq![last]);
                let process_track_uuid: u64 = match self.ensure_process_track(pid, None) {
                    Ok(uuid) => uuid,
                    Err(e) => {
                        proof {
                            lemma_refused_concat(before, parent, seq![last], self@, Some(e.message@));
                        }
                        return Err(e);
                    },
                };
                let ghost middle = self@;
                match self.writer.write_thread_descriptor(
                    pid as u32,
                    tid as u32,
                    owned_name(name),
                    process_track_uuid,
                ) {
                    Err(e) => {
                        proof {
                            lemma_one_step(middle, last, self@, Some(e.message@));
                            lemma_carried_out_concat(
                                before,
                                parent,
                                middle,
                                seq![last],
                                self@,
                                Some(e.message@),
                            );
                        }
                        Err(e)
                    },
                    Ok(track_uuid) => {
                        self.track_map.insert(track_id, track_uuid);
                        proof {
                            lemma_one_step(middle, last, self@, None);
                            lemma_carried_out_concat(
                                before,
                                parent,
                                middle,
                                seq![last],
                                self@,
                                None,
                            );
                        }
                        Ok(track_uuid)
                    },
                }
            },
        }
    }

    /// Makes a track known from its id, where that is possible, and returns its
    /// number, or zero.
    fn ensure_track(&mut self, id: &TrackId) -> (r: Result<u64, WriteError>)
        requires
            old(self)@.next_uuid + 2 <= u64::MAX,
        ensures
            carried_out(old(self)@, id_steps(old(self)@, *id), final(self)@, problem_of(r)),
            r matches Ok(uuid) ==> uuid == id_uuid(old(self)@, *id) && (showable(old(self)@, *id)
                ==> final(self)@.tracks.contains_key(*id) && final(self)@.tracks[*id] == uuid),
            final(self)@.next_uuid <= old(self)@.next_uuid + 2,
    {
        if let Some(uuid) = self.track_map.get(id) {
            return Ok(uuid);
        }
        match id {
            TrackId::Thread { tid, pid } => self.ensure_thread_track(*pid, *tid, None),
            TrackId::Process { pid } => self.ensure_process_track(*pid, None),
            _ => Ok(0),
        }
    }

    fn convert_counter(&mut self, counter: &Counter) -> (r: Result<(), WriteError>)
        ensures
            carried_out(
                old(self)@,
                event_steps(old(self)@, EventView::Counter(counter@), None),
                final(self)@,
                problem_of(r),
            ),
    {
        let ghost before = self@;
        if let Some(track_uuid) = self.track_map.get(&counter.track_id) {
            let r = self.writer.write_double_counter_value(
                track_uuid,
                counter.value,
                counter.timestamp,
            );
            proof {
                lemma_one_step(
                    before,
                    event_steps(before, EventView::Counter(counter@), None)[0],
                    self@,
                    problem_of(r),
                );
            }
            return r;
        }
        Ok(())
    }

    fn convert_span(
        &mut self,
        track_id: &TrackId,
        name: &str,
        start_timestamp: u64,
        end_timestamp: u64,
        labels: &Labels,
    ) -> (r: Result<(), WriteError>)
        requires
            old(self)@.has_room(),
        ensures
            carried_out(
                old(self)@,
                event_steps(
                    old(self)@,
                    EventView::Span(
                        crate::protocol::SpanView {
                            name: name@,
                            span_id: 0,
                            start_timestamp,
                            end_timestamp,
                            track_id: *track_id,
                            labels: labels@,
                        },
                    ),
                    None,
                ),
                final(self)@,
                problem_of(r),
            ),
    {
        let ghost before = self@;
        if self.track_map.get(track_id).is_none() {
            match track_id {
                TrackId::Thread { .. } => {},
                TrackId::Process { .. } => {},
                _ => {
                    return Ok(());
                },
            }
        }
        let ghost first = id_steps(before, *track_id);
        let ghost uuid = id_uuid(before, *track_id);
        let ghost begin = plain(
            slice_begin_packet(uuid, name@, start_timestamp, annotations_of(labels@)),
        );
        let ghost end = plain(slice_end_packet(uuid, end_timestamp));
        assert(seq![begin, end] =~= seq![begin] + seq![end]);
        let track_uuid: u64 = match self.ensure_track(track_id) {
            Ok(uuid) => uuid,
            Err(e) => {
                proof {
                    lemma_refused_concat(before, first, seq![begin, end], self@, Some(e.message@));
                }
                return Err(e);
            },
        };
        let ghost known = self@;
        let debug_annotations: Vec<DebugAnnotation> = create_debug_annotations(labels);
        let begun = self.writer.write_slice_begin(
            track_uuid,
            name.to_owned(),
            start_timestamp,
            debug_annotations,
        );
        let ghost open = self@;
        proof {
            lemma_one_step(known, begin, open, problem_of(begun));
        }
        if let Err(e) = begun {
            proof {
                lemma_refused_concat(known, seq![begin], seq![end], open, Some(e.message@));
                lemma_carried_out_concat(before, first, known, seq![begin, end], open, Some(e.message@));
            }
            return Err(e);
        }
        let r = self.writer.write_slice_end(track_uuid, end_timestamp);
        proof {
            lemma_one_step(open, end, self@, problem_of(r));
            lemma_carried_out_concat(known, seq![begin], open, seq![end], self@, problem_of(r));
            lemma_carried_out_concat(before, first, known, seq![begin, end], self@, problem_of(r));
        }
        r
    }

    fn convert_instant(&mut self, track_id: &TrackId, name: &str, timestamp: u64, labels: &Labels)
        -> (r: Result<(), WriteError>)
        requires
            old(self)@.has_room(),
        ensures
            carried_out(
                old(self)@,
                event_steps(
                    old(self)@,
                    EventView::Instant(
                        crate::protocol::InstantView {
                            name: name@,
                            timestamp,
                            track_id: *track_id,
                            labels: labels@,
                        },
                    ),
                    None,
                ),
                final(self)@,
                problem_of(r),
            ),
    {
        let ghost before = self@;
        if self.track_map.get(track_id).is_none() {
            match track_id {
                TrackId::Thread { .. } => {},
                TrackId::Process { .. } => {},
                _ => {
                    return Ok(());
                },
            }
        }
        let ghost first = id_steps(before, *track_id);
        let ghost uuid = id_uuid(before, *track_id);
        let ghost moment = plain(
            instant_packet(uuid, name@, timestamp, annotations_of(labels@)),
        );
        let track_uuid: u64 = match self.ensure_track(track_id) {
            Ok(uuid) => uuid,
            Err(e) => {
                proof {
                    lemma_refused_concat(before, first, seq![moment], self@, Some(e.message@));
                }
                return Err(e);
            },
        };
        let ghost known = self@;
        let debug_annotations: Vec<DebugAnnotation> = create_debug_annotations(labels);
        let r = self.writer.write_instant_event(
            track_uuid,
            name.to_owned(),
            timestamp,
            debug_annotations,
        );
        proof {
            lemma_one_step(known, moment, self@, problem_of(r));
            lemma_carried_out_concat(before, first, known, seq![moment], self@, problem_of(r));
        }
        r
    }

    fn convert_track(&mut self, track: &Track) -> (r: Result<(), WriteError>)
        requires
            old(self)@.has_room(),
        ensures
            carried_out(old(self)@, track_steps(old(self)@, track@), final(self)@, problem_of(r)),
    {
        let ghost before = self@;
        let track_id: TrackId = track.track_type.to_id();
        if self.track_map.get(&track_id).is_some() {
            return Ok(());
        }
        let ghost first = parent_steps(before, track@.parent);
        let ghost steps = describe_steps(
            before.run(first),
            track@,
            parent_uuid(before, track@.parent),
        );
        let parent: u64 = match &track.parent {
            Some(parent) => match self.ensure_track(&parent.to_id()) {
                Ok(uuid) => uuid,
                Err(e) => {
                    proof {
                        lemma_refused_concat(before, first, steps, self@, Some(e.message@));
                    }
                    return Err(e);
                },
            },
            None => 0,
        };
        let ghost middle = self@;
        let result: Result<u64, WriteError> = match &track.track_type {
            TrackType::Counter { unit, .. } => self.writer.write_counter_track(
                track.name.clone(),
                unit.clone(),
                parent,
            ),
            TrackType::Thread { tid, pid } => self.ensure_thread_track(
                *pid,
                *tid,
                Some(track.name.as_str()),
            ),
            TrackType::Process { pid } => self.ensure_process_track(
                *pid,
                Some(track.name.as_str()),
            ),
            _ => self.writer.write_generic_track(track.name.clone(), parent),
        };
        let ghost written = self@;
        match result {
            Err(e) => {
                proof {
                    if !(track.track_type is Thread) && !(track.track_type is Process) {
                        lemma_one_step(middle, steps[0], written, Some(e.message@));
                        assert(steps =~= seq![steps[0]]);
                    }
                    lemma_carried_out_concat(before, first, middle, steps, written, Some(e.message@));
                }
                Err(e)
            },
            Ok(track_uuid) => {
                self.track_map.insert(track_id, track_uuid);
                proof {
                    if !(track.track_type is Thread) && !(track.track_type is Process) {
                        lemma_one_step(middle, steps[0], self@, None);
                        assert(steps =~= seq![steps[0]]);
                    } else {
                        assert(self@.tracks =~= written.tracks);
                    }
                    lemma_carried_out_concat(before, first, middle, steps, self@, None);
                }
                Ok(())
            },
        }
    }

    /// Writes what a message says.
    pub fn convert_message(&mut self, message: &Message) -> (r: Result<(), WriteError>)
        requires
            old(self)@.has_room(),
        ensures
            ({
                let (event, stream_id) = message_parts(message@);
                carried_out(
                    old(self)@,
                    event_steps(old(self)@, event, stream_id),
                    final(self)@,
                    problem_of(r),
                )
            }),
    {
        match message {
            Message::Event(event) => self.convert_event(event, None),
            Message::Stream { stream_id, event } => self.convert_event(event, Some(*stream_id)),
        }
    }

    fn convert_interned_data<D: InternedDataIterable>(
        &mut self,
        data: &D,
        stream_id: Option<StreamId>,
    ) -> (r: Result<(), WriteError>)
        ensures
            carried_out(
                old(self)@,
                event_steps(old(self)@, EventView::InternedData(data.interned()), stream_id),
                final(self)@,
                problem_of(r),
            ),
    {
        let ghost before = self@;
        let r = self.writer.write_protocol_interned_data(data, stream_id);
        proof {
            lemma_one_step(
                before,
                event_steps(before, EventView::InternedData(data.interned()), stream_id)[0],
                self@,
                problem_of(r),
            );
        }
        r
    }

    /// Writes what an event says.
    pub fn convert_event(&mut self, event: &Event, stream_id: Option<StreamId>) -> (r: Result<
        (),
        WriteError,
    >)
        requires
            old(self)@.has_room(),
        ensures
            carried_out(
                old(self)@,
                event_steps(old(self)@, event@, stream_id),
                final(self)@,
                problem_of(r),
            ),
    {
        match event {
            Event::InternedData(data) => self.convert_interned_data(data, stream_id),
            Event::Sample(sample) => {
                let ghost before = self@;
                if let TrackId::Thread { tid, pid } = sample.track_id {
                    let r = self.writer.write_perf_sample(
                        sample.cpu,
                        pid as u32,
                        tid as u32,
                        sample.timestamp,
                        sample.callstack_iid,
                        stream_id,
                    );
                    proof {
                        lemma_one_step(
                            before,
                            event_steps(before, event@, stream_id)[0],
                            self@,
                            problem_of(r),
                        );
                    }
                    r
                } else {
                    Ok(())
                }
            },
            Event::Counter(counter) => self.convert_counter(counter),
            Event::Span(span) => self.convert_span(
                &span.track_id,
                span.name.as_str(),
                span.start_timestamp,
                span.end_timestamp,
                &span.labels,
            ),
            Event::Instant(instant) => self.convert_instant(
                &instant.track_id,
                instant.name.as_str(),
                instant.timestamp,
                &instant.labels,
            ),
            Event::Track(track) => self.convert_track(track),
        }
    }

    /// Writes what a message says that lies in a buffer.
    pub fn convert_archived_message(&mut self, message: &ArchivedMessage) -> (r: Result<
        (),
        WriteError,
    >)
        requires
            old(self)@.has_room(),
        ensures
            ({
                let (event, stream_id) = message_parts(message.native());
                carried_out(
                    old(self)@,
                    event_steps(old(self)@, event, stream_id),
                    final(self)@,
                    problem_of(r),
                )
            }),
    {
        match message {
            ArchivedMessage::Event(event) => self.convert_archived_event(event, None),
            ArchivedMessage::Stream { stream_id, event } => self.convert_archived_event(
                event,
                Some(stream_id.to_native()),
            ),
        }
    }

    /// Writes what an event says that lies in a buffer.
    pub fn convert_archived_event(&mut self, event: &ArchivedEvent, stream_id: Option<StreamId>)
        -> (r: Result<(), WriteError>)
        requires
            old(self)@.has_room(),
        ensures
            carried_out(
                old(self)@,
                event_steps(old(self)@, event.native(), stream_id),
                final(self)@,
                problem_of(r),
            ),
    {
        match event {
            ArchivedEvent::InternedData(data) => self.convert_interned_data(data, stream_id),
            ArchivedEvent::Sample(sample) => {
                let ghost before = self@;
                if let TrackId::Thread { tid, pid } = sample.track_id.to_native() {
                    let r = self.writer.write_perf_sample(
                        sample.cpu.to_native(),
                        pid as u32,
                        tid as u32,
                        sample.timestamp.to_native(),
                        sample.callstack_iid.to_native(),
                        stream_id,
                    );
                    proof {
                        lemma_one_step(
                            before,
                            event_steps(before, event.native(), stream_id)[0],
                            self@,
                            problem_of(r),
                        );
                    }
                    r
                } else {
                    Ok(())
                }
            },
            ArchivedEvent::Counter(counter) => self.convert_archived_counter(counter),
            ArchivedEvent::Span(span) => {
                let track_id: TrackId = span.track_id.to_native();
                let labels: Labels = span.labels.to_native();
                self.convert_span(
                    &track_id,
                    span.name.as_str(),
                    span.start_timestamp.to_native(),
                    span.end_timestamp.to_native(),
                    &labels,
                )
            },
            ArchivedEvent::Instant(instant) => {
                let track_id: TrackId = instant.track_id.to_native();
                let labels: Labels = instant.labels.to_native();
                self.convert_instant(
                    &track_id,
                    instant.name.as_str(),
                    instant.timestamp.to_native(),
                    &labels,
                )
            },
            ArchivedEvent::Track(track) => {
                let owned_track: Track = track.to_native();
                self.convert_track(&owned_track)
            },
        }
    }

    fn convert_archived_counter(&mut self, counter: &ArchivedCounter) -> (r: Result<
        (),
        WriteError,
    >)
        ensures
            carried_out(
                old(self)@,
                event_steps(old(self)@, ArchivedEvent::Counter(*counter).native(), None),
                final(self)@,
                problem_of(r),
            ),
    {
        let ghost before = self@;
        let track_id: TrackId = counter.track_id.to_native();
        if let Some(track_uuid) = self.track_map.get(&track_id) {
            let r = self.writer.write_double_counter_value(
                track_uuid,
                Reading::Float { bits: counter.value.to_native() },
                counter.timestamp.to_native(),
            );
            proof {
                lemma_one_step(
                    before,
                    event_steps(before, ArchivedEvent::Counter(*counter).native(), None)[0],
                    self@,
                    problem_of(r),
                );
            }
            return r;
        }
        Ok(())
    }

    pub fn flush(&mut self) -> (r: Result<(), WriteError>)
        ensures
            final(self)@ == (ConverterView {
                flushes: old(self)@.flushes.push(problem_of(r)),
                ..old(self)@
            }),
    {
        self.writer.flush()
    }
}

/// What making a process known does.
proof fn lemma_process_run(s: ConverterView, pid: i32, name: Option<Seq<char>>)
    ensures
        ({
            let steps = process_steps(s, pid, name);
            let id = TrackId::Process { pid };
            &&& s.tracks.contains_key(id) ==> s.run(steps) == s
            &&& !s.tracks.contains_key(id) ==> s.run(steps) == s.after(steps[0], None)
        }),
{
    let steps = process_steps(s, pid, name);
    if !s.tracks.contains_key(TrackId::Process { pid }) {
        assert(steps.drop_last() =~= seq![]);
        assert(s.run(steps.drop_last()) == s);
    }
}

/// Whether a step that makes a track known gives the next number to a track that
/// was not known.
pub open spec fn step_ok(s: ConverterView, step: Step) -> bool {
    match step.track {
        Some((id, uuid)) => step.numbered && uuid == s.next_uuid && !s.tracks.contains_key(id),
        None => !step.numbered,
    }
}

/// The same of every one of the steps, in its turn.
pub open spec fn sound_steps(s: ConverterView, steps: Seq<Step>) -> bool {
    forall|k: int|
        0 <= k < steps.len() ==> step_ok(#[trigger] s.run(steps.take(k)), steps[k])
}

proof fn lemma_sound_concat(s: ConverterView, a: Seq<Step>, b: Seq<Step>)
    requires
        sound_steps(s, a),
        sound_steps(s.run(a), b),
    ensures
        sound_steps(s, a + b),
{
    let all = a + b;
    assert forall|k: int| 0 <= k < all.len() implies step_ok(
        #[trigger] s.run(all.take(k)),
        all[k],
    ) by {
        if k < a.len() {
            assert(all.take(k) =~= a.take(k));
            assert(step_ok(s.run(a.take(k)), a[k]));
        } else {
            let j = k - a.len();
            assert(all.take(k) =~= a + b.take(j));
            lemma_run_concat(s, a, b.take(j));
            assert(step_ok(s.run(a).run(b.take(j)), b[j]));
        }
    }
}

proof fn lemma_sound_one(s: ConverterView, step: Step)
    requires
        step_ok(s, step),
    ensures
        sound_steps(s, seq![step]),
        s.run(seq![step]) == s.after(step, None),
{
    let steps = seq![step];
    assert(steps.drop_last() =~= seq![]);
    assert(s.run(steps.drop_last()) == s);
    assert forall|k: int| 0 <= k < steps.len() implies step_ok(
        #[trigger] s.run(steps.take(k)),
        steps[k],
    ) by {
        assert(steps.take(k) =~= seq![]);
        assert(s.run(steps.take(k)) == s);
    }
}

proof fn lemma_sound_run(s: ConverterView, steps: Seq<Step>)
    requires
        s.wf(),
        sound_steps(s, steps),
        s.next_uuid + steps.len() <= u64::MAX,
    ensures
        s.run(steps).wf(),
        s.run(steps).next_uuid <= s.next_uuid + steps.len(),
        s.tracks.submap_of(s.run(steps).tracks),
    decreases steps.len(),
{
    if steps.len() > 0 {
        let rest = steps.drop_last();
        let n = steps.len() - 1;
        assert(steps.take(n) =~= rest);
        assert(step_ok(s.run(steps.take(n)), steps[n]));
        assert forall|k: int| 0 <= k < rest.len() implies step_ok(
            #[trigger] s.run(rest.take(k)),
            rest[k],
        ) by {
            assert(rest.take(k) =~= steps.take(k));
            assert(step_ok(s.run(steps.take(k)), steps[k]));
        }
        lemma_sound_run(s, rest);
        lemma_step_wf(s.run(rest), steps.last(), None);
    }
}

proof fn lemma_step_wf(s: ConverterView, step: Step, problem: Option<Seq<char>>)
    requires
        s.wf(),
        step_ok(s, step),
        s.next_uuid < u64::MAX,
    ensures
        s.after(step, problem).wf(),
        s.after(step, problem).next_uuid <= s.next_uuid + 1,
        s.tracks.submap_of(s.after(step, problem).tracks),
{
}

pub proof fn lemma_process_sound(s: ConverterView, pid: i32, name: Option<Seq<char>>)
    ensures
        sound_steps(s, process_steps(s, pid, name)),
        process_steps(s, pid, name).len() <= 1,
        s.run(process_steps(s, pid, name)).tracks.contains_key(TrackId::Process { pid }),
        s.run(process_steps(s, pid, name)).tracks[TrackId::Process { pid }] == process_uuid(s, pid),
        forall|id: TrackId|
            id != (TrackId::Process { pid }) ==> (#[trigger] s.run(
                process_steps(s, pid, name),
            ).tracks.contains_key(id) <==> s.tracks.contains_key(id)),
{
    lemma_process_run(s, pid, name);
    if !s.tracks.contains_key(TrackId::Process { pid }) {
        let step = process_steps(s, pid, name)[0];
        assert(process_steps(s, pid, name) =~= seq![step]);
        lemma_sound_one(s, step);
    }
}

pub proof fn lemma_thread_sound(s: ConverterView, pid: i32, tid: i32, name: Option<Seq<char>>)
    ensures
        sound_steps(s, thread_steps(s, pid, tid, name)),
        thread_steps(s, pid, tid, name).len() <= 2,
        s.run(thread_steps(s, pid, tid, name)).tracks.contains_key(TrackId::Thread { tid, pid }),
        s.run(thread_steps(s, pid, tid, name)).tracks[TrackId::Thread { tid, pid }] == thread_uuid(
            s,
            pid,
            tid,
        ),
        forall|id: TrackId|
            id != (TrackId::Process { pid }) && id != (TrackId::Thread { tid, pid }) ==> (
            #[trigger] s.run(thread_steps(s, pid, tid, name)).tracks.contains_key(id)
                <==> s.tracks.contains_key(id)),
{
    let parent = process_steps(s, pid, None);
    lemma_process_sound(s, pid, None);
    let steps = thread_steps(s, pid, tid, name);
    let id = TrackId::Thread { tid, pid };
    if !s.tracks.contains_key(id) || name is Some {
        let last = steps.last();
        assert(steps =~= parent + seq![last]);
        lemma_process_run(s, pid, None);
        lemma_sound_one(s.run(parent), last);
        lemma_sound_concat(s, parent, seq![last]);
        lemma_run_concat(s, parent, seq![last]);
    }
}

pub proof fn lemma_id_sound(s: ConverterView, id: TrackId)
    ensures
        sound_steps(s, id_steps(s, id)),
        id_steps(s, id).len() <= 2,
        showable(s, id) ==> s.run(id_steps(s, id)).tracks.contains_key(id) && s.run(
            id_steps(s, id),
        ).tracks[id] == id_uuid(s, id),
        forall|other: TrackId|
            other != id && !(other is Process) ==> (#[trigger] s.run(
                id_steps(s, id),
            ).tracks.contains_key(other) <==> s.tracks.contains_key(other)),
        !showable(s, id) ==> s.run(id_steps(s, id)) == s,
{
    match id {
        TrackId::Thread { tid, pid } => {
            lemma_thread_sound(s, pid, tid, None);
        },
        TrackId::Process { pid } => {
            lemma_process_sound(s, pid, None);
        },
        _ => {},
    }
}

proof fn lemma_plain_sound(s: ConverterView, packet: TracePacketView)
    ensures
        sound_steps(s, seq![plain(packet)]),
        s.run(seq![plain(packet)]).tracks == s.tracks,
{
    lemma_sound_one(s, plain(packet));
}

pub proof fn lemma_track_sound(s: ConverterView, track: TrackView)
    ensures
        sound_steps(s, track_steps(s, track)),
        track_steps(s, track).len() <= 4,
        s.run(track_steps(s, track)).tracks.contains_key(track.track_type.id()),
{
    let id = track.track_type.id();
    if !s.tracks.contains_key(id) {
        let first = parent_steps(s, track.parent);
        if let Some(p) = track.parent {
            lemma_id_sound(s, p.id());
        }
        let middle = s.run(first);
        let steps = describe_steps(middle, track, parent_uuid(s, track.parent));
        match track.track_type {
            TrackTypeView::Thread { tid, pid } => {
                lemma_thread_sound(middle, pid, tid, Some(track.name));
            },
            TrackTypeView::Process { pid } => {
                lemma_process_sound(middle, pid, Some(track.name));
            },
            _ => {
                assert(steps =~= seq![steps[0]]);
                lemma_sound_one(middle, steps[0]);
            },
        }
        lemma_sound_concat(s, first, steps);
        lemma_run_concat(s, first, steps);
    }
}

proof fn lemma_event_sound(s: ConverterView, event: EventView, stream_id: Option<u16>)
    ensures
        sound_steps(s, event_steps(s, event, stream_id)),
        event_steps(s, event, stream_id).len() <= 4,
{
    match event {
        EventView::Span(span) => {
            if showable(s, span.track_id) {
                let first = id_steps(s, span.track_id);
                let uuid = id_uuid(s, span.track_id);
                let begin = slice_begin_packet(
                    uuid,
                    span.name,
                    span.start_timestamp,
                    annotations_of(span.labels),
                );
                let end = slice_end_packet(uuid, span.end_timestamp);
                lemma_id_sound(s, span.track_id);
                let known = s.run(first);
                lemma_plain_sound(known, begin);
                lemma_plain_sound(known.run(seq![plain(begin)]), end);
                lemma_sound_concat(known, seq![plain(begin)], seq![plain(end)]);
                assert(seq![plain(begin)] + seq![plain(end)] =~= seq![plain(begin), plain(end)]);
                lemma_sound_concat(s, first, seq![plain(begin), plain(end)]);
            }
        },
        EventView::Instant(instant) => {
            if showable(s, instant.track_id) {
                lemma_id_sound(s, instant.track_id);
                let first = id_steps(s, instant.track_id);
                let packet = instant_packet(
                    id_uuid(s, instant.track_id),
                    instant.name,
                    instant.timestamp,
                    annotations_of(instant.labels),
                );
                lemma_plain_sound(s.run(first), packet);
                lemma_sound_concat(s, first, seq![plain(packet)]);
            }
        },
        EventView::Track(track) => {
            lemma_track_sound(s, track);
        },
        _ => {
            let steps = event_steps(s, event, stream_id);
            if steps.len() > 0 {
                assert(steps =~= seq![plain(steps[0].packet)]);
                lemma_plain_sound(s, steps[0].packet);
            }
        },
    }
}

/// Whatever is converted, and whether or not the sink takes it: tracks keep the
/// numbers they have, and no two tracks share one.
pub proof fn law_tracks_keep_their_numbers(
    before: ConverterView,
    event: EventView,
    stream_id: Option<u16>,
    after: ConverterView,
    problem: Option<Seq<char>>,
)
    requires
        before.wf(),
        before.has_room(),
        carried_out(before, event_steps(before, event, stream_id), after, problem),
    ensures
        after.wf(),
        before.tracks.submap_of(after.tracks),
{
    let steps = event_steps(before, event, stream_id);
    lemma_event_sound(before, event, stream_id);
    if problem is None {
        lemma_sound_run(before, steps);
    } else {
        let k = choose|k: int|
            0 <= k < steps.len() && after == #[trigger] before.run(steps.take(k)).after(
                steps[k],
                problem,
            );
        let some = steps.take(k);
        assert(step_ok(before.run(steps.take(k)), steps[k]));
        assert forall|j: int| 0 <= j < some.len() implies step_ok(
            #[trigger] before.run(some.take(j)),
            some[j],
        ) by {
            assert(some.take(j) =~= steps.take(j));
            assert(step_ok(before.run(steps.take(j)), steps[j]));
        }
        lemma_sound_run(before, some);
        lemma_step_wf(before.run(some), steps[k], problem);
    }
}

/// A track is described once: after that, announcing it again writes nothing.
pub proof fn law_track_is_described_once(before: ConverterView, track: TrackView, again: TrackView)
    requires
        again.track_type.id() == track.track_type.id(),
    ensures
        ({
            let after = before.run(track_steps(before, track));
            &&& after.tracks.contains_key(track.track_type.id())
            &&& track_steps(after, again) == Seq::<Step>::empty()
        }),
{
    lemma_track_sound(before, track);
}

/// A track that has a parent names a parent that is known by then: its
/// description comes after the parent's, and refers to the parent's number. Only
/// a parent that is neither known nor a thread or process is left out, as zero.
pub proof fn law_parent_comes_first(before: ConverterView, track: TrackView, parent: TrackTypeView)
    requires
        track.parent == Some(parent),
        !before.tracks.contains_key(track.track_type.id()),
    ensures
        ({
            let first = id_steps(before, parent.id());
            let known = before.run(first);
            &&& first.is_prefix_of(track_steps(before, track))
            &&& showable(before, parent.id()) ==> known.tracks.contains_key(parent.id())
                && known.tracks[parent.id()] == parent_uuid(before, track.parent)
            &&& !showable(before, parent.id()) ==> parent_uuid(before, track.parent) == 0
        }),
{
    lemma_id_sound(before, parent.id());
}

/// Events on a track that is neither known nor a thread or process, and values of
/// an unknown counter, write nothing.
pub proof fn law_unknown_tracks_show_nothing(
    before: ConverterView,
    event: EventView,
    stream_id: Option<u16>,
)
    requires
        match event {
            EventView::Counter(c) => !before.tracks.contains_key(c.track_id),
            EventView::Span(s) => !showable(before, s.track_id),
            EventView::Instant(i) => !showable(before, i.track_id),
            EventView::Sample(s) => !(s.track_id is Thread),
            _ => false,
        },
    ensures
        event_steps(before, event, stream_id) == Seq::<Step>::empty(),
        before.run(event_steps(before, event, stream_id)) == before,
{
}

} // verus!

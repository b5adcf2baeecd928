//! Performance counters of the processors.

use super::error::{load_error, map_error, BpfError};
use super::wire::{read_u32, read_u64, u32_at, u64_at};
use crate::protocol::{
    no_labels, views, Counter, CounterView, Event, EventView, Labels, Message, MessageView, Reading,
    StreamId, Track, TrackId, TrackType, TrackTypeView, TrackView,
};
use crate::sink::{deliver, delivered, MessageSink};
use crate::text::{decimal, decimal_width, padded, push_decimal, push_padded, same_text};
use std::collections::HashMap;
use vstd::prelude::*;
use vstd::std_specs::hash::*;

verus! {

/// How many counters can be read at once.
pub const MAX_PERF_COUNTERS: usize = 8;

/// The kind of the counters that the hardware keeps.
pub const PERF_TYPE_HARDWARE: u32 = 0;

/// The kind of the counters that the kernel keeps.
pub const PERF_TYPE_SOFTWARE: u32 = 1;

/// The kind of the counters of a processor model.
pub const PERF_TYPE_RAW: u32 = 4;

pub const PERF_COUNT_HW_CPU_CYCLES: u64 = 0;

pub const PERF_COUNT_HW_INSTRUCTIONS: u64 = 1;

pub const PERF_COUNT_HW_CACHE_REFERENCES: u64 = 2;

pub const PERF_COUNT_HW_CACHE_MISSES: u64 = 3;

pub const PERF_COUNT_HW_BRANCH_INSTRUCTIONS: u64 = 4;

pub const PERF_COUNT_HW_BRANCH_MISSES: u64 = 5;

pub const PERF_COUNT_HW_STALLED_CYCLES_FRONTEND: u64 = 7;

pub const PERF_COUNT_HW_STALLED_CYCLES_BACKEND: u64 = 8;

pub const PERF_COUNT_SW_CPU_CLOCK: u64 = 0;

pub const PERF_COUNT_SW_TASK_CLOCK: u64 = 1;

pub const PERF_COUNT_SW_PAGE_FAULTS: u64 = 2;

pub const PERF_COUNT_SW_CONTEXT_SWITCHES: u64 = 3;

pub const PERF_COUNT_SW_CPU_MIGRATIONS: u64 = 4;

pub const PERF_COUNT_SW_PAGE_FAULTS_MIN: u64 = 5;

pub const PERF_COUNT_SW_PAGE_FAULTS_MAJ: u64 = 6;

/// A counter, by name or by number.
#[derive(Debug)]
pub enum CounterConfig {
    Named(String),
    Custom { name: String, perf_type: u32, config: u64 },
}

pub enum CounterConfigView {
    Named(Seq<char>),
    Custom { name: Seq<char>, perf_type: u32, config: u64 },
}

impl View for CounterConfig {
    type V = CounterConfigView;

    open spec fn view(&self) -> CounterConfigView {
        match *self {
            CounterConfig::Named(name) => CounterConfigView::Named(name@),
            CounterConfig::Custom { name, perf_type, config } => CounterConfigView::Custom {
                name: name@,
                perf_type,
                config,
            },
        }
    }
}

/// The kind and number of a counter that has a name.
pub open spec fn named_counter(name: Seq<char>) -> Option<(u32, u64)> {
    if name == "cpu-cycles"@ {
        Some((PERF_TYPE_HARDWARE, PERF_COUNT_HW_CPU_CYCLES))
    } else if name == "cpu-instructions"@ || name == "instructions"@ {
        Some((PERF_TYPE_HARDWARE, PERF_COUNT_HW_INSTRUCTIONS))
    } else if name == "cache-references"@ {
        Some((PERF_TYPE_HARDWARE, PERF_COUNT_HW_CACHE_REFERENCES))
    } else if name == "cache-misses"@ {
        Some((PERF_TYPE_HARDWARE, PERF_COUNT_HW_CACHE_MISSES))
    } else if name == "branch-instructions"@ || name == "branches"@ {
        Some((PERF_TYPE_HARDWARE, PERF_COUNT_HW_BRANCH_INSTRUCTIONS))
    } else if name == "branch-misses"@ {
        Some((PERF_TYPE_HARDWARE, PERF_COUNT_HW_BRANCH_MISSES))
    } else if name == "stalled-cycles-frontend"@ {
        Some((PERF_TYPE_HARDWARE, PERF_COUNT_HW_STALLED_CYCLES_FRONTEND))
    } else if name == "stalled-cycles-backend"@ {
        Some((PERF_TYPE_HARDWARE, PERF_COUNT_HW_STALLED_CYCLES_BACKEND))
    } else if name == "cpu-clock"@ {
        Some((PERF_TYPE_SOFTWARE, PERF_COUNT_SW_CPU_CLOCK))
    } else if name == "task-clock"@ {
        Some((PERF_TYPE_SOFTWARE, PERF_COUNT_SW_TASK_CLOCK))
    } else if name == "page-faults"@ || name == "faults"@ {
        Some((PERF_TYPE_SOFTWARE, PERF_COUNT_SW_PAGE_FAULTS))
    } else if name == "context-switches"@ || name == "cs"@ {
        Some((PERF_TYPE_SOFTWARE, PERF_COUNT_SW_CONTEXT_SWITCHES))
    } else if name == "cpu-migrations"@ || name == "migrations"@ {
        Some((PERF_TYPE_SOFTWARE, PERF_COUNT_SW_CPU_MIGRATIONS))
    } else if name == "minor-faults"@ {
        Some((PERF_TYPE_SOFTWARE, PERF_COUNT_SW_PAGE_FAULTS_MIN))
    } else if name == "major-faults"@ {
        Some((PERF_TYPE_SOFTWARE, PERF_COUNT_SW_PAGE_FAULTS_MAJ))
    } else {
        None
    }
}

impl CounterConfigView {
    /// The name of the counter.
    pub open spec fn name(self) -> Seq<char> {
        match self {
            CounterConfigView::Named(name) => name,
            CounterConfigView::Custom { name, .. } => name,
        }
    }

    /// The kind and number of the counter, if it is known.
    pub open spec fn numbers(self) -> Option<(u32, u64)> {
        match self {
            CounterConfigView::Named(name) => named_counter(name),
            CounterConfigView::Custom { perf_type, config, .. } => Some((perf_type, config)),
        }
    }
}

/// Looks a name up.
fn lookup_counter(name: &str) -> (r: Option<(u32, u64)>)
    ensures
        r == named_counter(name@),
{
    if same_text(name, "cpu-cycles") {
        Some((PERF_TYPE_HARDWARE, PERF_COUNT_HW_CPU_CYCLES))
    } else if same_text(name, "cpu-instructions") || same_text(name, "instructions") {
        Some((PERF_TYPE_HARDWARE, PERF_COUNT_HW_INSTRUCTIONS))
    } else if same_text(name, "cache-references") {
        Some((PERF_TYPE_HARDWARE, PERF_COUNT_HW_CACHE_REFERENCES))
    } else if same_text(name, "cache-misses") {
        Some((PERF_TYPE_HARDWARE, PERF_COUNT_HW_CACHE_MISSES))
    } else if same_text(name, "branch-instructions") || same_text(name, "branches") {
        Some((PERF_TYPE_HARDWARE, PERF_COUNT_HW_BRANCH_INSTRUCTIONS))
    } else if same_text(name, "branch-misses") {
        Some((PERF_TYPE_HARDWARE, PERF_COUNT_HW_BRANCH_MISSES))
    } else if same_text(name, "stalled-cycles-frontend") {
        Some((PERF_TYPE_HARDWARE, PERF_COUNT_HW_STALLED_CYCLES_FRONTEND))
    } else if same_text(name, "stalled-cycles-backend") {
        Some((PERF_TYPE_HARDWARE, PERF_COUNT_HW_STALLED_CYCLES_BACKEND))
    } else if same_text(name, "cpu-clock") {
        Some((PERF_TYPE_SOFTWARE, PERF_COUNT_SW_CPU_CLOCK))
    } else if same_text(name, "task-clock") {
        Some((PERF_TYPE_SOFTWARE, PERF_COUNT_SW_TASK_CLOCK))
    } else if same_text(name, "page-faults") || same_text(name, "faults") {
        Some((PERF_TYPE_SOFTWARE, PERF_COUNT_SW_PAGE_FAULTS))
    } else if same_text(name, "context-switches") || same_text(name, "cs") {
        Some((PERF_TYPE_SOFTWARE, PERF_COUNT_SW_CONTEXT_SWITCHES))
    } else if same_text(name, "cpu-migrations") || same_text(name, "migrations") {
        Some((PERF_TYPE_SOFTWARE, PERF_COUNT_SW_CPU_MIGRATIONS))
    } else if same_text(name, "minor-faults") {
        Some((PERF_TYPE_SOFTWARE, PERF_COUNT_SW_PAGE_FAULTS_MIN))
    } else if same_text(name, "major-faults") {
        Some((PERF_TYPE_SOFTWARE, PERF_COUNT_SW_PAGE_FAULTS_MAJ))
    } else {
        None
    }
}

impl CounterConfig {
    /// The name, kind and number of the counter.
    pub fn to_perf_config(&self) -> (r: Result<(String, u32, u64), BpfError>)
        ensures
            match r {
                Ok((name, perf_type, config)) => name@ == self@.name() && self@.numbers() == Some(
                    (perf_type, config),
                ),
                Err(e) => self@.numbers() is None && e.is_load(
                    "unknown performance counter: "@ + self@.name(),
                ),
            },
    {
        match self {
            CounterConfig::Named(name) => match lookup_counter(name.as_str()) {
                Some((perf_type, config)) => Ok((name.clone(), perf_type, config)),
                None => Err(
                    BpfError::LoadError(
                        "unknown performance counter: ".to_owned().concat(name.as_str()),
                    ),
                ),
            },
            CounterConfig::Custom { name, perf_type, config } => Ok(
                (name.clone(), *perf_type, *config),
            ),
        }
    }

    fn name(&self) -> (r: String)
        ensures
            r@ == self@.name(),
    {
        match self {
            CounterConfig::Named(name) => name.clone(),
            CounterConfig::Custom { name, .. } => name.clone(),
        }
    }

    fn copy(&self) -> (r: Self)
        ensures
            r@ == self@,
    {
        match self {
            CounterConfig::Named(name) => CounterConfig::Named(name.clone()),
            CounterConfig::Custom { name, perf_type, config } => CounterConfig::Custom {
                name: name.clone(),
                perf_type: *perf_type,
                config: *config,
            },
        }
    }
}

/// A counter that is computed from others.
#[derive(Debug, Clone, Copy, PartialEq, Eq, Structural)]
pub enum DerivedCounter {
    /// Instructions per cycle, from the counters at two places.
    Ipc { cycles_idx: usize, instructions_idx: usize },
}

/// The computed counters with their names, and which counters are read only for
/// them.
pub type DerivedCounterInfo = (Vec<(String, DerivedCounter)>, Vec<bool>);

/// Counters with the computed ones replaced by what they are computed from.
pub struct Expansion {
    pub counters: Seq<CounterConfigView>,
    pub derived: Seq<(Seq<char>, DerivedCounter)>,
    pub derived_only: Seq<bool>,
}

/// Whether a counter is computed.
pub open spec fn is_ipc(counter: CounterConfigView) -> bool {
    match counter {
        CounterConfigView::Named(name) => name == "ipc"@,
        _ => false,
    }
}

/// The expansion of counters: instructions per cycle are computed from the two
/// counters that take their place.
pub open spec fn expansion(counters: Seq<CounterConfigView>) -> Expansion
    decreases counters.len(),
{
    if counters.len() == 0 {
        Expansion { counters: seq![], derived: seq![], derived_only: seq![] }
    } else {
        let before = expansion(counters.drop_last());
        let last = counters.last();
        let n = before.counters.len();
        if is_ipc(last) {
            Expansion {
                counters: before.counters.push(CounterConfigView::Named("cpu-cycles"@)).push(
                    CounterConfigView::Named("cpu-instructions"@),
                ),
                derived: before.derived.push(
                    (
                        "ipc"@,
                        DerivedCounter::Ipc {
                            cycles_idx: n as usize,
                            instructions_idx: (n + 1) as usize,
                        },
                    ),
                ),
                derived_only: before.derived_only.push(true).push(true),
            }
        } else {
            Expansion {
                counters: before.counters.push(last),
                derived_only: before.derived_only.push(false),
                ..before
            }
        }
    }
}

/// Computed counters with their names.
pub open spec fn derived_views(s: Seq<(String, DerivedCounter)>) -> Seq<
    (Seq<char>, DerivedCounter),
> {
    s.map_values(|p: (String, DerivedCounter)| (p.0@, p.1))
}

/// The expansion has a flag for each counter, and at most two for each that was
/// given.
pub proof fn lemma_expansion_len(counters: Seq<CounterConfigView>)
    ensures
        expansion(counters).counters.len() == expansion(counters).derived_only.len(),
        counters.len() <= expansion(counters).counters.len() <= 2 * counters.len(),
        expansion(counters).derived.len() <= counters.len(),
    decreases counters.len(),
{
    if counters.len() > 0 {
        lemma_expansion_len(counters.drop_last());
    }
}

/// A computed counter is computed from the cycles and the instructions that stand
/// at its two places, and these two are read only for it.
pub proof fn law_expansion_is_sound(counters: Seq<CounterConfigView>, k: int)
    requires
        0 <= k < expansion(counters).derived.len(),
        2 * counters.len() <= usize::MAX,
    ensures
        ({
            let e = expansion(counters);
            match e.derived[k].1 {
                DerivedCounter::Ipc { cycles_idx, instructions_idx } => {
                    &&& instructions_idx == cycles_idx + 1
                    &&& instructions_idx < e.counters.len()
                    &&& e.counters[cycles_idx as int] == CounterConfigView::Named("cpu-cycles"@)
                    &&& e.counters[instructions_idx as int] == CounterConfigView::Named(
                        "cpu-instructions"@,
                    )
                    &&& e.derived_only[cycles_idx as int]
                    &&& e.derived_only[instructions_idx as int]
                },
            }
        }),
    decreases counters.len(),
{
    if counters.len() > 0 {
        let rest = counters.drop_last();
        lemma_expansion_len(rest);
        if k < expansion(rest).derived.len() {
            law_expansion_is_sound(rest, k);
        }
    }
}

/// Counters that are not computed are read as they were given, in their order.
pub proof fn law_plain_counters_stay(counters: Seq<CounterConfigView>)
    requires
        forall|i: int| 0 <= i < counters.len() ==> !is_ipc(#[trigger] counters[i]),
    ensures
        expansion(counters).counters == counters,
        expansion(counters).derived == Seq::<(Seq<char>, DerivedCounter)>::empty(),
        forall|i: int|
            0 <= i < counters.len() ==> !(#[trigger] expansion(counters).derived_only[i]),
    decreases counters.len(),
{
    if counters.len() > 0 {
        let rest = counters.drop_last();
        assert forall|i: int| 0 <= i < rest.len() implies !is_ipc(#[trigger] rest[i]) by {
            assert(rest[i] == counters[i]);
        }
        law_plain_counters_stay(rest);
        lemma_expansion_len(rest);
        assert(!is_ipc(counters[counters.len() - 1]));
        assert(expansion(counters).counters =~= counters);
    } else {
        assert(expansion(counters).counters =~= counters);
    }
}

/// What to read.
#[derive(Debug)]
pub struct PerfCounterConfig {
    pub frequency: u64,
    pub counters: Vec<CounterConfig>,
    pub ringbuf: usize,
}

impl Default for PerfCounterConfig {
    fn default() -> (r: Self)
        ensures
            r.frequency == 0,
            r.counters@.len() == 0,
            r.ringbuf == 0,
    {
        PerfCounterConfig { frequency: 0, counters: Vec::new(), ringbuf: 0 }
    }
}

/// The place of the first counter that is not known, or the number of counters.
pub open spec fn first_unknown(counters: Seq<CounterConfigView>) -> int
    decreases counters.len(),
{
    if counters.len() == 0 || counters[0].numbers() is None {
        0
    } else {
        1 + first_unknown(counters.drop_first())
    }
}

/// What is wrong with expanded counters, if anything is.
pub open spec fn counters_problem(counters: Seq<CounterConfigView>) -> Option<Seq<char>> {
    if counters.len() == 0 {
        Some("no performance counters configured"@)
    } else if counters.len() > MAX_PERF_COUNTERS {
        Some(
            "too many performance counters: "@ + decimal(counters.len()) + " (max: "@ + decimal(
                MAX_PERF_COUNTERS as nat,
            ) + ")"@,
        )
    } else if first_unknown(counters) < counters.len() {
        Some("unknown performance counter: "@ + counters[first_unknown(counters)].name())
    } else {
        None
    }
}

impl PerfCounterConfig {
    /// How often the counters are read, and how large the ring buffer is, unless
    /// that is configured.
    pub fn preset() -> (r: Self)
        ensures
            r.frequency == 9,
            r.counters@.len() == 0,
            r.ringbuf == 256 * 1024,
    {
        PerfCounterConfig { frequency: 9, counters: Vec::new(), ringbuf: 256 * 1024 }
    }

    /// Replaces the computed counters by what they are computed from.
    pub fn expand_counters(&mut self) -> (r: Result<DerivedCounterInfo, BpfError>)
        requires
            2 * old(self).counters@.len() <= usize::MAX,
        ensures
            final(self).frequency == old(self).frequency,
            final(self).ringbuf == old(self).ringbuf,
            views(final(self).counters@) == expansion(views(old(self).counters@)).counters,
            r matches Ok((derived, only)) && derived_views(derived@) == expansion(
                views(old(self).counters@),
            ).derived && only@ == expansion(views(old(self).counters@)).derived_only,
    {
        let ghost all = views(self.counters@);
        let mut expanded: Vec<CounterConfig> = Vec::new();
        let mut derived: Vec<(String, DerivedCounter)> = Vec::new();
        let mut only: Vec<bool> = Vec::new();
        let mut i: usize = 0;
        proof {
            assert(all.take(0) =~= seq![]);
            assert(views(expanded@) =~= seq![]);
            assert(derived_views(derived@) =~= seq![]);
            assert(only@ =~= seq![]);
        }
        while i < self.counters.len()
            invariant
                i <= self.counters@.len(),
                all == views(self.counters@),
                self.counters@.len() == all.len(),
                self.frequency == old(self).frequency,
                self.ringbuf == old(self).ringbuf,
                2 * all.len() <= usize::MAX,
                views(expanded@) == expansion(all.take(i as int)).counters,
                derived_views(derived@) == expansion(all.take(i as int)).derived,
                only@ == expansion(all.take(i as int)).derived_only,
            decreases self.counters@.len() - i,
        {
            let ghost some = all.take(i + 1);
            let ghost list = expanded@;
            let ghost names = derived@;
            proof {
                assert(some.drop_last() =~= all.take(i as int));
                assert(some.last() == self.counters@[i as int]@);
                lemma_expansion_len(all.take(i as int));
            }
            let computed: bool = match &self.counters[i] {
                CounterConfig::Named(name) => same_text(name.as_str(), "ipc"),
                _ => false,
            };
            if computed {
                let at: usize = expanded.len();
                assert(views(list).len() == at);
                expanded.push(CounterConfig::Named("cpu-cycles".to_owned()));
                expanded.push(CounterConfig::Named("cpu-instructions".to_owned()));
                only.push(true);
                only.push(true);
                derived.push(
                    (
                        "ipc".to_owned(),
                        DerivedCounter::Ipc { cycles_idx: at, instructions_idx: at + 1 },
                    ),
                );
                proof {
                    assert(views(expanded@) =~= views(list).push(
                        CounterConfigView::Named("cpu-cycles"@),
                    ).push(CounterConfigView::Named("cpu-instructions"@)));
                    assert(derived_views(derived@) =~= derived_views(names).push(
                        (
                            "ipc"@,
                            DerivedCounter::Ipc {
                                cycles_idx: at,
                                instructions_idx: (at + 1) as usize,
                            },
                        ),
                    ));
                }
            } else {
                expanded.push(self.counters[i].copy());
                only.push(false);
                assert(views(expanded@) =~= views(list).push(some.last()));
            }
            i += 1;
        }
        assert(all.take(i as int) =~= all);
        self.counters = expanded;
        Ok((derived, only))
    }

    /// Expands the counters, and makes sure that there are some, not too many, and
    /// all known.
    pub fn validate(&mut self) -> (r: Result<DerivedCounterInfo, BpfError>)
        requires
            2 * old(self).counters@.len() <= usize::MAX,
        ensures
            final(self).frequency == old(self).frequency,
            final(self).ringbuf == old(self).ringbuf,
            views(final(self).counters@) == expansion(views(old(self).counters@)).counters,
            match r {
                Ok((derived, only)) => {
                    &&& counters_problem(views(final(self).counters@)) is None
                    &&& derived_views(derived@) == expansion(views(old(self).counters@)).derived
                    &&& only@ == expansion(views(old(self).counters@)).derived_only
                },
                Err(e) => counters_problem(views(final(self).counters@)) matches Some(text)
                    && e.is_load(text),
            },
    {
        let (derived, only): DerivedCounterInfo = match self.expand_counters() {
            Ok(info) => info,
            Err(e) => {
                return Err(e);
            },
        };
        let ghost all = views(self.counters@);
        if self.counters.len() == 0 {
            return Err(load_error("no performance counters configured"));
        }
        if self.counters.len() > MAX_PERF_COUNTERS {
            let mut text: String = "too many performance counters: ".to_owned();
            push_decimal(&mut text, self.counters.len() as u64);
            text.append(" (max: ");
            push_decimal(&mut text, MAX_PERF_COUNTERS as u64);
            text.append(")");
            return Err(BpfError::LoadError(text));
        }
        let mut i: usize = 0;
        assert(all.skip(0) =~= all);
        while i < self.counters.len()
            invariant
                i <= self.counters@.len(),
                all == views(self.counters@),
                0 < all.len() <= MAX_PERF_COUNTERS,
                first_unknown(all) == i + first_unknown(all.skip(i as int)),
                self.frequency == old(self).frequency,
                self.ringbuf == old(self).ringbuf,
                all == expansion(views(old(self).counters@)).counters,
            decreases self.counters@.len() - i,
        {
            assert(all.skip(i as int).drop_first() =~= all.skip(i + 1));
            match self.counters[i].to_perf_config() {
                Ok(_) => {},
                Err(e) => {
                    return Err(e);
                },
            }
            i += 1;
        }
        Ok((derived, only))
    }
}

/// One reading of the counters of a processor.
#[derive(Debug, Clone, Copy)]
pub struct PerfCounterEvent {
    pub timestamp: u64,
    pub cpu_id: u32,
    pub padding: u32,
    pub counters: [u64; 8],
}

impl PerfCounterEvent {
    /// Whether the reading is the one that lies in `data`.
    pub open spec fn lies_in(self, data: Seq<u8>) -> bool {
        &&& self.timestamp == u64_at(data, 0)
        &&& self.cpu_id == u32_at(data, 8)
        &&& self.padding == u32_at(data, 12)
        &&& forall|i: int|
            0 <= i < 8 ==> #[trigger] self.counters@[i] == u64_at(data, 16 + 8 * i)
    }

    pub fn from_bytes(data: &[u8]) -> (r: Result<Self, BpfError>)
        ensures
            match r {
                Ok(event) => data@.len() >= 80 && event.lies_in(data@),
                Err(e) => data@.len() < 80 && e.is_map(
                    "failed to parse perf counter event: TooShort"@,
                ),
            },
    {
        if data.len() < 80 {
            return Err(map_error("failed to parse perf counter event: TooShort"));
        }
        let mut counters: [u64; 8] = [0u64; 8];
        let mut i: usize = 0;
        while i < 8
            invariant
                i <= 8,
                data@.len() >= 80,
                forall|j: int| 0 <= j < i ==> #[trigger] counters@[j] == u64_at(data@, 16 + 8 * j),
            decreases 8 - i,
        {
            counters[i] = read_u64(data, 16 + 8 * i);
            i += 1;
        }
        Ok(
            PerfCounterEvent {
                timestamp: read_u64(data, 0),
                cpu_id: read_u32(data, 8),
                padding: read_u32(data, 12),
                counters,
            },
        )
    }
}

/// The id of the counter `i` of a processor.
pub open spec fn counter_id(cpu: u32, i: int) -> u64 {
    (cpu * 0x1_0000_0000 + i) as u64
}

fn make_counter_id(cpu: u32, i: u32) -> (r: u64)
    ensures
        r == counter_id(cpu, i as int),
{
    let a: u64 = cpu as u64;
    let b: u64 = i as u64;
    assert(a <= 0xffff_ffff && b <= 0xffff_ffff ==> ((a << 32) | b) / 0x1_0000_0000 == a && ((a
        << 32) | b) % 0x1_0000_0000 == b) by (bit_vector);
    (a << 32) | b
}

/// Different counters, and the same counter of different processors, have
/// different ids.
pub proof fn law_counter_ids_differ(cpu: u32, i: int, other_cpu: u32, j: int)
    requires
        0 <= i < 0x1_0000_0000,
        0 <= j < 0x1_0000_0000,
        counter_id(cpu, i) == counter_id(other_cpu, j),
    ensures
        cpu == other_cpu,
        i == j,
{
}

/// How far a counter has come since it was read last: nothing if it never was,
/// and all of it if it went back.
pub open spec fn advance(previous: Option<u64>, value: u64) -> u64 {
    match previous {
        Some(p) => if value >= p {
            (value - p) as u64
        } else {
            value
        },
        None => 0,
    }
}

/// The value of a counter, for its id.
pub open spec fn counter_message(
    stream_id: StreamId,
    id: u64,
    value: Reading,
    timestamp: u64,
) -> MessageView {
    MessageView::Stream {
        stream_id,
        event: EventView::Counter(
            CounterView {
                name: ""@,
                value,
                timestamp,
                track_id: TrackId::Counter { id },
                labels: no_labels(),
                unit: None,
            },
        ),
    }
}

/// The messages of the first `n` counters; those that are read only for others
/// have none.
pub open spec fn regular_messages(
    stream_id: StreamId,
    event: PerfCounterEvent,
    only: Seq<bool>,
    previous: Map<u64, u64>,
    n: int,
) -> Seq<MessageView>
    decreases n,
{
    if n <= 0 {
        seq![]
    } else {
        let rest = regular_messages(stream_id, event, only, previous, n - 1);
        let i = n - 1;
        if only[i] {
            rest
        } else {
            let id = counter_id(event.cpu_id, i);
            rest.push(
                counter_message(
                    stream_id,
                    id,
                    Reading::Count { n: advance(held(previous, id), event.counters@[i]) },
                    event.timestamp,
                ),
            )
        }
    }
}

/// What a map holds for a key.
pub open spec fn held(map: Map<u64, u64>, key: u64) -> Option<u64> {
    if map.contains_key(key) {
        Some(map[key])
    } else {
        None
    }
}

/// The value of a computed counter: zero instructions per cycle without a cycle.
pub open spec fn derived_value(
    derived: DerivedCounter,
    event: PerfCounterEvent,
    previous: Map<u64, u64>,
) -> Reading {
    match derived {
        DerivedCounter::Ipc { cycles_idx, instructions_idx } => {
            let cycles = advance(
                held(previous, counter_id(event.cpu_id, cycles_idx as int)),
                event.counters@[cycles_idx as int],
            );
            let instructions = advance(
                held(previous, counter_id(event.cpu_id, instructions_idx as int)),
                event.counters@[instructions_idx as int],
            );
            if cycles > 0 {
                Reading::Ratio { part: instructions, whole: cycles }
            } else {
                Reading::Count { n: 0 }
            }
        },
    }
}

/// The messages of the first `n` computed counters.
pub open spec fn derived_messages(
    stream_id: StreamId,
    event: PerfCounterEvent,
    counters_len: int,
    derived: Seq<(Seq<char>, DerivedCounter)>,
    previous: Map<u64, u64>,
    n: int,
) -> Seq<MessageView>
    decreases n,
{
    if n <= 0 {
        seq![]
    } else {
        derived_messages(stream_id, event, counters_len, derived, previous, n - 1).push(
            counter_message(
                stream_id,
                counter_id(event.cpu_id, counters_len + n - 1),
                derived_value(derived[n - 1].1, event, previous),
                event.timestamp,
            ),
        )
    }
}

/// The values of the first `n` counters, remembered.
pub open spec fn remembered(previous: Map<u64, u64>, event: PerfCounterEvent, n: int) -> Map<
    u64,
    u64,
>
    decreases n,
{
    if n <= 0 {
        previous
    } else {
        remembered(previous, event, n - 1).insert(
            counter_id(event.cpu_id, n - 1),
            event.counters@[n - 1],
        )
    }
}

/// The name of a processor's track: its number, filled up to the width of the
/// largest.
pub open spec fn track_text(name: Seq<char>, cpu: int, cpu_count: int) -> Seq<char> {
    name + " #"@ + padded(cpu as nat, decimal((cpu_count - 1) as nat).len())
}

pub fn format_track_name(name: &str, cpu: usize, cpu_count: usize) -> (r: String)
    requires
        cpu_count > 0,
    ensures
        r@ == track_text(name@, cpu as int, cpu_count as int),
{
    let cpu_width: usize = decimal_width((cpu_count - 1) as u64);
    let mut r: String = name.to_owned().concat(" #");
    push_padded(&mut r, cpu as u64, cpu_width);
    r
}

/// The track of a counter of a processor.
pub open spec fn track_message(
    stream_id: StreamId,
    name: Seq<char>,
    cpu: int,
    cpu_count: int,
    i: int,
) -> MessageView {
    MessageView::Stream {
        stream_id,
        event: EventView::Track(
            TrackView {
                name: track_text(name, cpu, cpu_count),
                track_type: TrackTypeView::Counter { id: counter_id(cpu as u32, i), unit: None },
                parent: Some(TrackTypeView::Cpu { cpu: cpu as u32 }),
            },
        ),
    }
}

/// The tracks of the first `n` counters of a processor; those that are read only
/// for others have none.
pub open spec fn regular_tracks(
    stream_id: StreamId,
    counters: Seq<CounterConfigView>,
    only: Seq<bool>,
    cpu: int,
    cpu_count: int,
    n: int,
) -> Seq<MessageView>
    decreases n,
{
    if n <= 0 {
        seq![]
    } else {
        let rest = regular_tracks(stream_id, counters, only, cpu, cpu_count, n - 1);
        if only[n - 1] {
            rest
        } else {
            rest.push(track_message(stream_id, counters[n - 1].name(), cpu, cpu_count, n - 1))
        }
    }
}

/// The tracks of the first `n` computed counters of a processor.
pub open spec fn derived_tracks(
    stream_id: StreamId,
    counters_len: int,
    derived: Seq<(Seq<char>, DerivedCounter)>,
    cpu: int,
    cpu_count: int,
    n: int,
) -> Seq<MessageView>
    decreases n,
{
    if n <= 0 {
        seq![]
    } else {
        derived_tracks(stream_id, counters_len, derived, cpu, cpu_count, n - 1).push(
            track_message(stream_id, derived[n - 1].0, cpu, cpu_count, counters_len + n - 1),
        )
    }
}

/// The tracks of the first `n` processors.
pub open spec fn all_tracks(
    stream_id: StreamId,
    counters: Seq<CounterConfigView>,
    derived: Seq<(Seq<char>, DerivedCounter)>,
    only: Seq<bool>,
    cpu_count: int,
    n: int,
) -> Seq<MessageView>
    decreases n,
{
    if n <= 0 {
        seq![]
    } else {
        all_tracks(stream_id, counters, derived, only, cpu_count, n - 1) + regular_tracks(
            stream_id,
            counters,
            only,
            n - 1,
            cpu_count,
            counters.len() as int,
        ) + derived_tracks(
            stream_id,
            counters.len() as int,
            derived,
            n - 1,
            cpu_count,
            derived.len() as int,
        )
    }
}

/// A counter to be opened on a processor, and the place it gets in the kernel's
/// map.
#[derive(Debug)]
pub struct PerfEventPlan {
    pub name: String,
    pub perf_type: u32,
    pub config: u32,
    pub cpu: usize,
    pub index: i32,
}

impl PerfEventPlan {
    /// Whether this opens the counter `i` of `counters` on the processor `cpu`.
    pub open spec fn is_for(&self, counters: Seq<CounterConfigView>, i: int, cpu: int) -> bool {
        &&& self.name@ == counters[i].name()
        &&& counters[i].numbers() matches Some(n) && self.perf_type == n.0 && self.config
            == n.1 as u32
        &&& self.cpu == cpu
        &&& self.index == cpu * counters.len() + i
    }
}

/// What the kernel program is loaded with, and which counters are opened: for each
/// counter, one on each processor.
#[derive(Debug)]
pub struct PerfCounterPlan {
    pub ringbuf_entries: u32,
    pub map_entries: u32,
    pub counter_count: u32,
    pub events: Vec<Vec<PerfEventPlan>>,
}

/// Counters that were validated, with what is computed from them.
#[derive(Debug)]
pub struct PerfCounter {
    stream_id: StreamId,
    counters: Vec<CounterConfig>,
    derived: Vec<(String, DerivedCounter)>,
    only: Vec<bool>,
    previous: HashMap<u64, u64>,
}

/// Whether computed counters refer to counters that there are.
pub open spec fn in_bounds(derived: Seq<(Seq<char>, DerivedCounter)>, n: int) -> bool {
    forall|k: int|
        0 <= k < derived.len() ==> match (#[trigger] derived[k]).1 {
            DerivedCounter::Ipc { cycles_idx, instructions_idx } => cycles_idx < n
                && instructions_idx < n,
        }
}

impl PerfCounter {
    pub closed spec fn stream(&self) -> StreamId {
        self.stream_id
    }

    pub closed spec fn spec_counters(&self) -> Seq<CounterConfigView> {
        views(self.counters@)
    }

    pub closed spec fn spec_derived(&self) -> Seq<(Seq<char>, DerivedCounter)> {
        derived_views(self.derived@)
    }

    pub closed spec fn derived_only(&self) -> Seq<bool> {
        self.only@
    }

    /// The values that were read last.
    pub closed spec fn last_values(&self) -> Map<u64, u64> {
        self.previous@
    }

    /// The counters are known and not too many, each has its flag, and what is
    /// computed is computed from some of them.
    pub open spec fn wf(&self) -> bool {
        &&& counters_problem(self.spec_counters()) is None
        &&& self.derived_only().len() == self.spec_counters().len()
        &&& self.spec_derived().len() <= self.spec_counters().len()
        &&& in_bounds(self.spec_derived(), self.spec_counters().len() as int)
    }

    /// Whether only the remembered values have changed.
    pub open spec fn same_setup(&self, before: &PerfCounter) -> bool {
        &&& self.stream() == before.stream()
        &&& self.spec_counters() == before.spec_counters()
        &&& self.spec_derived() == before.spec_derived()
        &&& self.derived_only() == before.derived_only()
    }

    /// Validates a configuration.
    pub fn new(config: PerfCounterConfig, stream_id: StreamId) -> (r: Result<Self, BpfError>)
        requires
            2 * config.counters@.len() <= usize::MAX,
        ensures
            ({
                let e = expansion(views(config.counters@));
                match r {
                    Ok(p) => {
                        &&& p.wf()
                        &&& counters_problem(e.counters) is None
                        &&& p.stream() == stream_id
                        &&& p.spec_counters() == e.counters
                        &&& p.spec_derived() == e.derived
                        &&& p.derived_only() == e.derived_only
                        &&& p.last_values() == Map::<u64, u64>::empty()
                    },
                    Err(error) => counters_problem(e.counters) matches Some(text) && error.is_load(
                        text,
                    ),
                }
            }),
    {
        let mut config: PerfCounterConfig = config;
        let ghost given = views(config.counters@);
        let (derived, only): DerivedCounterInfo = match config.validate() {
            Ok(info) => info,
            Err(e) => {
                return Err(e);
            },
        };
        let r = PerfCounter {
            stream_id,
            counters: config.counters,
            derived,
            only,
            previous: HashMap::new(),
        };
        proof {
            lemma_expansion_len(given);
            let e = expansion(given);
            assert forall|k: int| 0 <= k < e.derived.len() implies match (
            #[trigger] e.derived[k]).1 {
                DerivedCounter::Ipc { cycles_idx, instructions_idx } => cycles_idx
                    < e.counters.len() && instructions_idx < e.counters.len(),
            } by {
                law_expansion_is_sound(given, k);
            }
        }
        Ok(r)
    }

    /// What the kernel program is loaded with on a machine of `nprocs` processors.
    pub fn plan(&self, ringbuf: usize, nprocs: usize) -> (r: PerfCounterPlan)
        requires
            self.wf(),
            nprocs * MAX_PERF_COUNTERS <= i32::MAX,
        ensures
            r.ringbuf_entries == ringbuf as u32,
            r.map_entries == nprocs * self.spec_counters().len(),
            r.counter_count == self.spec_counters().len(),
            r.events@.len() == self.spec_counters().len(),
            forall|i: int|
                0 <= i < r.events@.len() ==> (#[trigger] r.events@[i])@.len() == nprocs,
            forall|i: int, cpu: int|
                0 <= i < r.events@.len() && 0 <= cpu < nprocs ==> (
                #[trigger] r.events@[i]@[cpu]).is_for(self.spec_counters(), i, cpu),
    {
        let count: usize = self.counters.len();
        let ghost all = self.spec_counters();
        assert(all.len() == count);
        let mut events: Vec<Vec<PerfEventPlan>> = Vec::new();
        let mut i: usize = 0;
        proof {
            lemma_products(nprocs as int, nprocs as int, count as int);
        }
        while i < count
            invariant
                i <= count == self.counters@.len(),
                all == views(self.counters@),
                all.len() == count,
                0 < count <= MAX_PERF_COUNTERS,
                first_unknown(all) >= all.len(),
                nprocs * MAX_PERF_COUNTERS <= i32::MAX,
                events@.len() == i,
                forall|k: int| 0 <= k < i ==> (#[trigger] events@[k])@.len() == nprocs,
                forall|k: int, cpu: int|
                    0 <= k < i && 0 <= cpu < nprocs ==> (#[trigger] events@[k]@[cpu]).is_for(
                        all,
                        k,
                        cpu,
                    ),
            decreases count - i,
        {
            let mut row: Vec<PerfEventPlan> = Vec::new();
            let mut cpu: usize = 0;
            while cpu < nprocs
                invariant
                    cpu <= nprocs,
                    i < count == self.counters@.len(),
                    all == views(self.counters@),
                    all.len() == count,
                    count <= MAX_PERF_COUNTERS,
                    first_unknown(all) >= all.len(),
                    nprocs * MAX_PERF_COUNTERS <= i32::MAX,
                    row@.len() == cpu,
                    forall|c: int|
                        0 <= c < cpu ==> (#[trigger] row@[c]).is_for(all, i as int, c),
                decreases nprocs - cpu,
            {
                proof {
                    lemma_products(cpu as int, nprocs as int, count as int);
                    lemma_known(all, i as int);
                }
                match self.counters[i].to_perf_config() {
                    Ok((name, perf_type, config)) => {
                        row.push(
                            PerfEventPlan {
                                name,
                                perf_type,
                                config: config as u32,
                                cpu,
                                index: (cpu * count + i) as i32,
                            },
                        );
                    },
                    Err(_) => {
                        assert(false);
                    },
                }
                cpu += 1;
            }
            events.push(row);
            i += 1;
        }
        PerfCounterPlan {
            ringbuf_entries: ringbuf as u32,
            map_entries: (nprocs * count) as u32,
            counter_count: count as u32,
            events,
        }
    }

    /// The tracks of one processor.
    fn cpu_tracks(&self, cpu: usize, nprocs: usize, messages: &mut Vec<Message>)
        requires
            self.wf(),
            cpu < nprocs <= u32::MAX,
        ensures
            views(final(messages)@) == views(old(messages)@) + regular_tracks(
                self.stream(),
                self.spec_counters(),
                self.derived_only(),
                cpu as int,
                nprocs as int,
                self.spec_counters().len() as int,
            ) + derived_tracks(
                self.stream(),
                self.spec_counters().len() as int,
                self.spec_derived(),
                cpu as int,
                nprocs as int,
                self.spec_derived().len() as int,
            ),
    {
        let ghost start = views(messages@);
        let ghost all = self.spec_counters();
        let ghost der = self.spec_derived();
        let mut i: usize = 0;
        let ghost none = regular_tracks(
            self.stream(),
            all,
            self.derived_only(),
            cpu as int,
            nprocs as int,
            0,
        );
        assert(views(messages@) =~= start + none);
        while i < self.counters.len()
            invariant
                self.wf(),
                cpu < nprocs <= u32::MAX,
                all == self.spec_counters(),
                i <= self.counters@.len(),
                views(messages@) == start + regular_tracks(
                    self.stream(),
                    all,
                    self.derived_only(),
                    cpu as int,
                    nprocs as int,
                    i as int,
                ),
            decreases self.counters@.len() - i,
        {
            if !self.only[i] {
                let name: String = self.counters[i].name();
                let before: Ghost<Seq<Message>> = Ghost(messages@);
                let track_name: String = format_track_name(name.as_str(), cpu, nprocs);
                messages.push(
                    Message::Stream {
                        stream_id: self.stream_id,
                        event: Event::Track(
                            Track {
                                name: track_name,
                                track_type: TrackType::Counter {
                                    id: make_counter_id(cpu as u32, i as u32),
                                    unit: None,
                                },
                                parent: Some(TrackType::Cpu { cpu: cpu as u32 }),
                            },
                        ),
                    },
                );
                proof {
                    let one = track_message(
                        self.stream(),
                        all[i as int].name(),
                        cpu as int,
                        nprocs as int,
                        i as int,
                    );
                    assert(messages@.last()@ == one);
                    assert(views(messages@) =~= views(before@).push(one));
                    assert(views(messages@) =~= start + regular_tracks(
                        self.stream(),
                        all,
                        self.derived_only(),
                        cpu as int,
                        nprocs as int,
                        i + 1,
                    ));
                }
            }
            i += 1;
        }
        let ghost middle = views(messages@);
        let count: usize = self.counters.len();
        let mut k: usize = 0;
        let ghost none = derived_tracks(
            self.stream(),
            count as int,
            der,
            cpu as int,
            nprocs as int,
            0,
        );
        assert(views(messages@) =~= middle + none);
        while k < self.derived.len()
            invariant
                self.wf(),
                cpu < nprocs <= u32::MAX,
                der == self.spec_derived(),
                count == self.counters@.len(),
                count == self.spec_counters().len(),
                k <= self.derived@.len(),
                views(messages@) == middle + derived_tracks(
                    self.stream(),
                    count as int,
                    der,
                    cpu as int,
                    nprocs as int,
                    k as int,
                ),
            decreases self.derived@.len() - k,
        {
            let before: Ghost<Seq<Message>> = Ghost(messages@);
            assert(der.len() == self.derived@.len());
            let track_name: String = format_track_name(self.derived[k].0.as_str(), cpu, nprocs);
            messages.push(
                Message::Stream {
                    stream_id: self.stream_id,
                    event: Event::Track(
                        Track {
                            name: track_name,
                            track_type: TrackType::Counter {
                                id: make_counter_id(cpu as u32, (count + k) as u32),
                                unit: None,
                            },
                            parent: Some(TrackType::Cpu { cpu: cpu as u32 }),
                        },
                    ),
                },
            );
            proof {
                let one = track_message(
                    self.stream(),
                    der[k as int].0,
                    cpu as int,
                    nprocs as int,
                    count + k,
                );
                assert(messages@.last()@ == one);
                assert(views(messages@) =~= views(before@).push(one));
                assert(views(messages@) =~= middle + derived_tracks(
                    self.stream(),
                    count as int,
                    der,
                    cpu as int,
                    nprocs as int,
                    k + 1,
                ));
            }
            k += 1;
        }
    }

    /// Announces the tracks of all processors. It fails if one is refused.
    pub fn announce<S: MessageSink>(&self, nprocs: usize, sink: &mut S) -> (r: Result<
        (),
        BpfError,
    >)
        requires
            self.wf(),
            nprocs <= u32::MAX,
        ensures
            delivered(
                old(sink).history(),
                all_tracks(
                    self.stream(),
                    self.spec_counters(),
                    self.spec_derived(),
                    self.derived_only(),
                    nprocs as int,
                    nprocs as int,
                ),
                final(sink).history(),
                r is Err,
            ),
            r matches Err(e) ==> e.is_load("callback terminated"@),
    {
        let mut messages: Vec<Message> = Vec::new();
        let mut cpu: usize = 0;
        assert(views(messages@) =~= seq![]);
        while cpu < nprocs
            invariant
                self.wf(),
                cpu <= nprocs <= u32::MAX,
                views(messages@) == all_tracks(
                    self.stream(),
                    self.spec_counters(),
                    self.spec_derived(),
                    self.derived_only(),
                    nprocs as int,
                    cpu as int,
                ),
            decreases nprocs - cpu,
        {
            self.cpu_tracks(cpu, nprocs, &mut messages);
            cpu += 1;
        }
        if deliver(messages, sink) {
            return Err(load_error("callback terminated"));
        }
        Ok(())
    }

    /// The value of a counter that was read last.
    fn last(&self, cpu: u32, i: usize) -> (r: Option<u64>)
        requires
            i < MAX_PERF_COUNTERS,
        ensures
            r == held(self.last_values(), counter_id(cpu, i as int)),
    {
        broadcast use group_hash_axioms;

        match self.previous.get(&make_counter_id(cpu, i as u32)) {
            Some(v) => Some(*v),
            None => None,
        }
    }

    /// The messages of the counters that are not computed.
    fn process_regular_counters(&self, event: &PerfCounterEvent) -> (r: Vec<Message>)
        requires
            self.wf(),
        ensures
            views(r@) == regular_messages(
                self.stream(),
                *event,
                self.derived_only(),
                self.last_values(),
                self.spec_counters().len() as int,
            ),
    {
        let mut messages: Vec<Message> = Vec::new();
        let mut i: usize = 0;
        assert(views(messages@) =~= seq![]);
        while i < self.counters.len()
            invariant
                self.wf(),
                i <= self.counters@.len(),
                self.counters@.len() == self.spec_counters().len(),
                views(messages@) == regular_messages(
                    self.stream(),
                    *event,
                    self.derived_only(),
                    self.last_values(),
                    i as int,
                ),
            decreases self.counters@.len() - i,
        {
            if !self.only[i] {
                let delta: u64 = advanced(self.last(event.cpu_id, i), event.counters[i]);
                let ghost before = messages@;
                messages.push(
                    counter_value(
                        self.stream_id,
                        make_counter_id(event.cpu_id, i as u32),
                        Reading::Count { n: delta },
                        event.timestamp,
                    ),
                );
                assert(views(messages@) =~= views(before).push(messages@.last()@));
            }
            i += 1;
        }
        messages
    }

    /// The messages of the computed counters.
    fn process_derived_counters(&self, event: &PerfCounterEvent) -> (r: Vec<Message>)
        requires
            self.wf(),
        ensures
            views(r@) == derived_messages(
                self.stream(),
                *event,
                self.spec_counters().len() as int,
                self.spec_derived(),
                self.last_values(),
                self.spec_derived().len() as int,
            ),
    {
        let count: usize = self.counters.len();
        let mut messages: Vec<Message> = Vec::new();
        let mut k: usize = 0;
        assert(views(messages@) =~= seq![]);
        while k < self.derived.len()
            invariant
                self.wf(),
                count == self.spec_counters().len(),
                k <= self.derived@.len(),
                self.derived@.len() == self.spec_derived().len(),
                views(messages@) == derived_messages(
                    self.stream(),
                    *event,
                    count as int,
                    self.spec_derived(),
                    self.last_values(),
                    k as int,
                ),
            decreases self.derived@.len() - k,
        {
            assert(self.spec_derived()[k as int].1 == self.derived@[k as int].1);
            let value: Reading = match self.derived[k].1 {
                DerivedCounter::Ipc { cycles_idx, instructions_idx } => {
                    let cycles: u64 = advanced(
                        self.last(event.cpu_id, cycles_idx),
                        event.counters[cycles_idx],
                    );
                    let instructions: u64 = advanced(
                        self.last(event.cpu_id, instructions_idx),
                        event.counters[instructions_idx],
                    );
                    if cycles > 0 {
                        Reading::Ratio { part: instructions, whole: cycles }
                    } else {
                        Reading::Count { n: 0 }
                    }
                },
            };
            let ghost before = messages@;
            messages.push(
                counter_value(
                    self.stream_id,
                    make_counter_id(event.cpu_id, (count + k) as u32),
                    value,
                    event.timestamp,
                ),
            );
            assert(views(messages@) =~= views(before).push(messages@.last()@));
            k += 1;
        }
        messages
    }

    /// Remembers the values of a reading.
    fn update_previous_values(&mut self, event: &PerfCounterEvent)
        requires
            old(self).wf(),
        ensures
            final(self).same_setup(old(self)),
            final(self).last_values() == remembered(
                old(self).last_values(),
                *event,
                old(self).spec_counters().len() as int,
            ),
    {
        broadcast use group_hash_axioms;

        let count: usize = self.counters.len();
        let mut i: usize = 0;
        while i < count
            invariant
                i <= count <= MAX_PERF_COUNTERS,
                count == old(self).spec_counters().len(),
                self.same_setup(old(self)),
                self.last_values() == remembered(old(self).last_values(), *event, i as int),
            decreases count - i,
        {
            self.previous.insert(make_counter_id(event.cpu_id, i as u32), event.counters[i]);
            i += 1;
        }
    }

    /// Sends the values of a reading, and remembers them unless one is refused.
    /// Returns zero, or one for a refusal.
    pub fn handle_event<S: MessageSink>(&mut self, event: &PerfCounterEvent, sink: &mut S) -> (code:
        i32)
        requires
            old(self).wf(),
        ensures
            final(self).wf(),
            final(self).same_setup(old(self)),
            code == 0 || code == 1,
            event_handled(
                old(self),
                *event,
                old(sink).history(),
                final(self),
                final(sink).history(),
                code,
            ),
    {
        let mut messages: Vec<Message> = self.process_regular_counters(event);
        let mut more: Vec<Message> = self.process_derived_counters(event);
        let ghost a = messages@;
        let ghost b = more@;
        messages.append(&mut more);
        assert(views(messages@) =~= views(a) + views(b));
        if deliver(messages, sink) {
            return 1;
        }
        self.update_previous_values(event);
        0
    }
}

fn advanced(previous: Option<u64>, value: u64) -> (r: u64)
    ensures
        r == advance(previous, value),
{
    match previous {
        Some(p) => if value >= p {
            value - p
        } else {
            value
        },
        None => 0,
    }
}

fn counter_value(stream_id: StreamId, id: u64, value: Reading, timestamp: u64) -> (r: Message)
    ensures
        r@ == counter_message(stream_id, id, value, timestamp),
{
    Message::Stream {
        stream_id,
        event: Event::Counter(
            Counter {
                name: "".to_owned(),
                value,
                timestamp,
                track_id: TrackId::Counter { id },
                labels: Labels::new(),
                unit: None,
            },
        ),
    }
}

proof fn lemma_products(cpu: int, nprocs: int, count: int)
    requires
        0 <= cpu <= nprocs,
        0 <= count <= MAX_PERF_COUNTERS,
        nprocs * MAX_PERF_COUNTERS <= i32::MAX,
    ensures
        0 <= nprocs * count <= i32::MAX,
        0 <= cpu * count <= i32::MAX,
        cpu < nprocs ==> cpu * count + count <= i32::MAX,
{
    assert(0 <= cpu * count <= nprocs * count <= nprocs * 8) by (nonlinear_arith)
        requires
            0 <= cpu <= nprocs,
            0 <= count <= 8,
    ;
    if cpu < nprocs {
        assert(cpu * count + count <= nprocs * count) by (nonlinear_arith)
            requires
                0 <= cpu < nprocs,
                0 <= count,
        ;
    }
}

proof fn lemma_known(counters: Seq<CounterConfigView>, i: int)
    requires
        first_unknown(counters) >= counters.len(),
        0 <= i < counters.len(),
    ensures
        counters[i].numbers() is Some,
    decreases counters.len(),
{
    if i > 0 {
        lemma_known(counters.drop_first(), i - 1);
    }
}

/// Expanding twice gives the same counters as expanding once, and the second time
/// there is nothing left to compute.
pub proof fn law_expansion_is_stable(counters: Seq<CounterConfigView>)
    ensures
        expansion(expansion(counters).counters).counters == expansion(counters).counters,
        expansion(expansion(counters).counters).derived == Seq::<(Seq<char>, DerivedCounter)>::empty(
        ),
{
    let e = expansion(counters).counters;
    assert forall|i: int| 0 <= i < e.len() implies !is_ipc(#[trigger] e[i]) by {
        lemma_no_ipc(counters, i);
    }
    law_plain_counters_stay(e);
}

proof fn lemma_no_ipc(counters: Seq<CounterConfigView>, i: int)
    requires
        0 <= i < expansion(counters).counters.len(),
    ensures
        !is_ipc(expansion(counters).counters[i]),
    decreases counters.len(),
{
    reveal_strlit("ipc");
    reveal_strlit("cpu-cycles");
    reveal_strlit("cpu-instructions");
    if counters.len() > 0 {
        let rest = counters.drop_last();
        if i < expansion(rest).counters.len() {
            lemma_no_ipc(rest, i);
        } else {
            assert("cpu-cycles"@.len() != "ipc"@.len());
            assert("cpu-instructions"@.len() != "ipc"@.len());
        }
    }
}

/// What handling a reading does: its values are sent, those that are read before those
/// that are computed, and are remembered unless one was refused.
pub open spec fn event_handled(
    before: &PerfCounter,
    event: PerfCounterEvent,
    past: Seq<(MessageView, i32)>,
    after: &PerfCounter,
    history: Seq<(MessageView, i32)>,
    code: i32,
) -> bool {
    let n = before.spec_counters().len() as int;
    &&& delivered(
        past,
        regular_messages(before.stream(), event, before.derived_only(), before.last_values(), n)
            + derived_messages(
            before.stream(),
            event,
            n,
            before.spec_derived(),
            before.last_values(),
            before.spec_derived().len() as int,
        ),
        history,
        code != 0,
    )
    &&& after.last_values() == (if code == 0 {
        remembered(before.last_values(), event, n)
    } else {
        before.last_values()
    })
}

} // verus!

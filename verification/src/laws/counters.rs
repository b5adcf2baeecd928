//! What readings of performance counters say.

use super::history::event_of;
use crate::bpf::perfcounter::{
    advance, all_tracks, counter_id, counters_problem, derived_messages, derived_tracks,
    derived_value, event_handled, expansion, first_unknown, held, named_counter, regular_messages,
    regular_tracks, remembered, track_text, CounterConfigView, DerivedCounter, Expansion,
    PerfCounter, PerfCounterEvent, PerfEventPlan,
};
use crate::protocol::{EventView, MessageView, Reading, StreamId, TrackId, TrackTypeView};
use vstd::prelude::*;

verus! {

/// The counter `i` of a processor: the processor in the upper half, the place in the
/// lower.
pub open spec fn id_of(cpu: int, i: int) -> int {
    cpu * 0x1_0000_0000 + i
}

/// What a counter has come by and what it was make up what it is; one that went back has
/// started over, and one that was never read has come by nothing.
pub proof fn law_advance_adds_up(previous: u64, value: u64)
    ensures
        previous <= value ==> previous + advance(Some(previous), value) == value,
        value < previous ==> advance(Some(previous), value) == value,
        advance(None, value) == 0,
{
}

/// After a reading every counter of the processor that was read is remembered as it was
/// read, and those of others as they were.
pub proof fn law_reading_is_remembered(
    previous: Map<u64, u64>,
    event: PerfCounterEvent,
    n: int,
    id: u64,
)
    requires
        0 <= n <= 8,
    ensures
        forall|i: int|
            0 <= i < n && id == #[trigger] id_of(event.cpu_id as int, i) ==> held(
                remembered(previous, event, n),
                id,
            ) == Some(event.counters@[i]),
        (forall|i: int| 0 <= i < n ==> id != #[trigger] id_of(event.cpu_id as int, i)) ==> held(
            remembered(previous, event, n),
            id,
        ) == held(previous, id),
    decreases n,
{
    if n > 0 {
        law_reading_is_remembered(previous, event, n - 1, id);
        assert(counter_id(event.cpu_id, n - 1) == id_of(event.cpu_id as int, n - 1));
    }
}

/// Whether a message is a value, at a time, of a counter of a processor.
pub open spec fn is_value(
    message: MessageView,
    stream: StreamId,
    cpu: int,
    i: int,
    value: Reading,
    timestamp: u64,
) -> bool {
    &&& message matches MessageView::Stream { stream_id, .. } && stream_id == stream
    &&& event_of(message) matches EventView::Counter(c) && {
        &&& c.track_id matches TrackId::Counter { id } && id == id_of(cpu, i)
        &&& c.value == value
        &&& c.timestamp == timestamp
    }
}

/// How many of the first `n` counters are shown.
pub open spec fn shown_before(only: Seq<bool>, n: int) -> int
    decreases n,
{
    if n <= 0 {
        0
    } else {
        shown_before(only, n - 1) + if only[n - 1] {
            0int
        } else {
            1
        }
    }
}

proof fn lemma_shown(only: Seq<bool>, n: int)
    ensures
        0 <= shown_before(only, n),
        n >= 0 ==> shown_before(only, n) <= n,
    decreases n,
{
    if n > 0 {
        lemma_shown(only, n - 1);
    }
}

/// A reading shows each counter that is not read for others alone, once and in order:
/// what it has come by since it was read last on that processor.
pub proof fn law_reading_shows_each_counter(
    stream: StreamId,
    event: PerfCounterEvent,
    only: Seq<bool>,
    previous: Map<u64, u64>,
    n: int,
)
    requires
        0 <= n <= 8,
        n <= only.len(),
    ensures
        ({
            let messages = regular_messages(stream, event, only, previous, n);
            &&& messages.len() == shown_before(only, n)
            &&& forall|i: int|
                0 <= i < n && !(#[trigger] only[i]) ==> is_value(
                    messages[shown_before(only, i)],
                    stream,
                    event.cpu_id as int,
                    i,
                    Reading::Count {
                        n: advance(
                            held(previous, id_of(event.cpu_id as int, i) as u64),
                            event.counters@[i],
                        ),
                    },
                    event.timestamp,
                )
        }),
    decreases n,
{
    if n > 0 {
        law_reading_shows_each_counter(stream, event, only, previous, n - 1);
        let messages = regular_messages(stream, event, only, previous, n);
        let rest = regular_messages(stream, event, only, previous, n - 1);
        assert forall|i: int| 0 <= i < n && !(#[trigger] only[i]) implies is_value(
            messages[shown_before(only, i)],
            stream,
            event.cpu_id as int,
            i,
            Reading::Count {
                n: advance(
                    held(previous, id_of(event.cpu_id as int, i) as u64),
                    event.counters@[i],
                ),
            },
            event.timestamp,
        ) by {
            lemma_shown(only, i);
            if i < n - 1 {
                lemma_shown_grows(only, i, n - 1);
                assert(messages[shown_before(only, i)] == rest[shown_before(only, i)]);
            }
        }
    }
}

proof fn lemma_shown_grows(only: Seq<bool>, i: int, n: int)
    requires
        0 <= i < n,
        !only[i],
    ensures
        shown_before(only, i) < shown_before(only, n),
    decreases n,
{
    if i < n - 1 {
        lemma_shown_grows(only, i, n - 1);
    }
}

/// Two readings of a processor, one after the other: the second shows of each counter
/// that did not go back the difference of the two.
pub proof fn law_second_reading_shows_the_difference(
    stream: StreamId,
    first: PerfCounterEvent,
    second: PerfCounterEvent,
    only: Seq<bool>,
    previous: Map<u64, u64>,
    n: int,
    i: int,
)
    requires
        0 <= i < n <= 8,
        n <= only.len(),
        !only[i],
        first.cpu_id == second.cpu_id,
        first.counters@[i] <= second.counters@[i],
    ensures
        is_value(
            regular_messages(stream, second, only, remembered(previous, first, n), n)[shown_before(
                only,
                i,
            )],
            stream,
            second.cpu_id as int,
            i,
            Reading::Count { n: (second.counters@[i] - first.counters@[i]) as u64 },
            second.timestamp,
        ),
{
    let known = remembered(previous, first, n);
    let id = id_of(first.cpu_id as int, i) as u64;
    assert(id == id_of(first.cpu_id as int, i));
    law_reading_is_remembered(previous, first, n, id);
    law_reading_shows_each_counter(stream, second, only, known, n);
    law_advance_adds_up(first.counters@[i], second.counters@[i]);
}

/// Instructions per cycle are what the one counter has come by over what the other has,
/// and zero without a cycle.
pub proof fn law_instructions_per_cycle(
    cycles_idx: usize,
    instructions_idx: usize,
    event: PerfCounterEvent,
    previous: Map<u64, u64>,
)
    requires
        cycles_idx < 8,
        instructions_idx < 8,
    ensures
        ({
            let cycles = advance(
                held(previous, id_of(event.cpu_id as int, cycles_idx as int) as u64),
                event.counters@[cycles_idx as int],
            );
            let instructions = advance(
                held(previous, id_of(event.cpu_id as int, instructions_idx as int) as u64),
                event.counters@[instructions_idx as int],
            );
            let value = derived_value(
                DerivedCounter::Ipc { cycles_idx, instructions_idx },
                event,
                previous,
            );
            &&& cycles > 0 ==> value == (Reading::Ratio { part: instructions, whole: cycles })
            &&& cycles == 0 ==> value == (Reading::Count { n: 0 })
        }),
{
}

/// Each computed counter is shown once and in order, behind those that are read.
pub proof fn law_computed_counters_are_shown(
    stream: StreamId,
    event: PerfCounterEvent,
    count: int,
    derived: Seq<(Seq<char>, DerivedCounter)>,
    previous: Map<u64, u64>,
    n: int,
)
    requires
        0 <= n <= derived.len(),
        0 <= count,
        count + n <= u32::MAX,
    ensures
        ({
            let messages = derived_messages(stream, event, count, derived, previous, n);
            &&& messages.len() == n
            &&& forall|k: int|
                0 <= k < n ==> is_value(
                    #[trigger] messages[k],
                    stream,
                    event.cpu_id as int,
                    count + k,
                    derived_value(derived[k].1, event, previous),
                    event.timestamp,
                )
        }),
    decreases n,
{
    if n > 0 {
        law_computed_counters_are_shown(stream, event, count, derived, previous, n - 1);
        let rest = derived_messages(stream, event, count, derived, previous, n - 1);
        let messages = derived_messages(stream, event, count, derived, previous, n);
        assert forall|k: int| 0 <= k < n implies is_value(
            #[trigger] messages[k],
            stream,
            event.cpu_id as int,
            count + k,
            derived_value(derived[k].1, event, previous),
            event.timestamp,
        ) by {
            if k < n - 1 {
                assert(messages[k] == rest[k]);
            }
        }
    }
}

/// Whether a message announces a counter of a processor, under that processor, by its
/// name and the processor's number.
pub open spec fn is_track(
    message: MessageView,
    stream: StreamId,
    name: Seq<char>,
    cpu: int,
    i: int,
) -> bool {
    &&& message matches MessageView::Stream { stream_id, .. } && stream_id == stream
    &&& event_of(message) matches EventView::Track(track) && {
        &&& track.track_type matches TrackTypeView::Counter { id, unit } && id == id_of(cpu, i)
            && unit is None
        &&& track.parent == Some(TrackTypeView::Cpu { cpu: cpu as u32 })
        &&& (name + " #"@).is_prefix_of(track.name)
    }
}

/// The tracks of a processor's counters: each that is shown, once and in order.
pub proof fn law_counters_of_a_processor_are_announced(
    stream: StreamId,
    counters: Seq<CounterConfigView>,
    only: Seq<bool>,
    cpu: int,
    cpu_count: int,
    n: int,
)
    requires
        0 <= n <= counters.len(),
        n <= only.len(),
        n <= u32::MAX,
        0 <= cpu <= u32::MAX,
    ensures
        ({
            let messages = regular_tracks(stream, counters, only, cpu, cpu_count, n);
            &&& messages.len() == shown_before(only, n)
            &&& forall|i: int|
                0 <= i < n && !(#[trigger] only[i]) ==> is_track(
                    messages[shown_before(only, i)],
                    stream,
                    counters[i].name(),
                    cpu,
                    i,
                )
        }),
    decreases n,
{
    if n > 0 {
        law_counters_of_a_processor_are_announced(stream, counters, only, cpu, cpu_count, n - 1);
        let messages = regular_tracks(stream, counters, only, cpu, cpu_count, n);
        let rest = regular_tracks(stream, counters, only, cpu, cpu_count, n - 1);
        assert forall|i: int| 0 <= i < n && !(#[trigger] only[i]) implies is_track(
            messages[shown_before(only, i)],
            stream,
            counters[i].name(),
            cpu,
            i,
        ) by {
            lemma_shown(only, i);
            if i < n - 1 {
                lemma_shown_grows(only, i, n - 1);
                assert(messages[shown_before(only, i)] == rest[shown_before(only, i)]);
            } else {
                let name = counters[i].name();
                assert((name + " #"@).is_prefix_of(track_text(name, cpu, cpu_count)));
            }
        }
    }
}

/// The tracks of a processor's computed counters: each once and in order.
pub proof fn law_computed_counters_are_announced(
    stream: StreamId,
    count: int,
    derived: Seq<(Seq<char>, DerivedCounter)>,
    cpu: int,
    cpu_count: int,
    n: int,
)
    requires
        0 <= n <= derived.len(),
        0 <= count,
        count + n <= u32::MAX,
        0 <= cpu <= u32::MAX,
    ensures
        ({
            let messages = derived_tracks(stream, count, derived, cpu, cpu_count, n);
            &&& messages.len() == n
            &&& forall|k: int|
                0 <= k < n ==> is_track(
                    #[trigger] messages[k],
                    stream,
                    derived[k].0,
                    cpu,
                    count + k,
                )
        }),
    decreases n,
{
    if n > 0 {
        law_computed_counters_are_announced(stream, count, derived, cpu, cpu_count, n - 1);
        let rest = derived_tracks(stream, count, derived, cpu, cpu_count, n - 1);
        let messages = derived_tracks(stream, count, derived, cpu, cpu_count, n);
        assert forall|k: int| 0 <= k < n implies is_track(
            #[trigger] messages[k],
            stream,
            derived[k].0,
            cpu,
            count + k,
        ) by {
            if k < n - 1 {
                assert(messages[k] == rest[k]);
            } else {
                let name = derived[k].0;
                assert((name + " #"@).is_prefix_of(track_text(name, cpu, cpu_count)));
            }
        }
    }
}

/// Every processor has the tracks of its counters, and those of its computed counters
/// behind them.
pub proof fn law_every_processor_is_announced(
    stream: StreamId,
    counters: Seq<CounterConfigView>,
    derived: Seq<(Seq<char>, DerivedCounter)>,
    only: Seq<bool>,
    cpu_count: int,
    n: int,
)
    requires
        0 <= n <= u32::MAX,
        only.len() == counters.len(),
        counters.len() + derived.len() <= u32::MAX,
    ensures
        ({
            let each = shown_before(only, counters.len() as int) + derived.len();
            let messages = all_tracks(stream, counters, derived, only, cpu_count, n);
            &&& messages.len() == n * each
            &&& forall|cpu: int|
                #![trigger cpu * each]
                0 <= cpu < n ==> messages.subrange(cpu * each, cpu * each + each)
                    == regular_tracks(
                    stream,
                    counters,
                    only,
                    cpu,
                    cpu_count,
                    counters.len() as int,
                ) + derived_tracks(
                    stream,
                    counters.len() as int,
                    derived,
                    cpu,
                    cpu_count,
                    derived.len() as int,
                )
        }),
    decreases n,
{
    let each = shown_before(only, counters.len() as int) + derived.len();
    let messages = all_tracks(stream, counters, derived, only, cpu_count, n);
    if n > 0 {
        law_every_processor_is_announced(stream, counters, derived, only, cpu_count, n - 1);
        law_counters_of_a_processor_are_announced(
            stream,
            counters,
            only,
            n - 1,
            cpu_count,
            counters.len() as int,
        );
        law_computed_counters_are_announced(
            stream,
            counters.len() as int,
            derived,
            n - 1,
            cpu_count,
            derived.len() as int,
        );
        let rest = all_tracks(stream, counters, derived, only, cpu_count, n - 1);
        let own = regular_tracks(
            stream,
            counters,
            only,
            n - 1,
            cpu_count,
            counters.len() as int,
        ) + derived_tracks(
            stream,
            counters.len() as int,
            derived,
            n - 1,
            cpu_count,
            derived.len() as int,
        );
        assert(messages =~= rest + own);
        assert((n - 1) * each + each == n * each) by (nonlinear_arith);
        lemma_shown(only, counters.len() as int);
        assert forall|cpu: int|
            #![trigger cpu * each]
            0 <= cpu < n implies messages.subrange(cpu * each, cpu * each + each)
            == regular_tracks(
            stream,
            counters,
            only,
            cpu,
            cpu_count,
            counters.len() as int,
        ) + derived_tracks(
            stream,
            counters.len() as int,
            derived,
            cpu,
            cpu_count,
            derived.len() as int,
        ) by {
            assert(cpu * each >= 0 && (cpu < n - 1 ==> cpu * each + each <= (n - 1) * each))
                by (nonlinear_arith)
                requires
                    0 <= cpu < n,
                    each >= 0,
            ;
            if cpu < n - 1 {
                assert(messages.subrange(cpu * each, cpu * each + each) =~= rest.subrange(
                    cpu * each,
                    cpu * each + each,
                ));
            } else {
                assert(messages.subrange(cpu * each, cpu * each + each) =~= own);
            }
        }
    } else {
        assert(n * each == 0) by (nonlinear_arith)
            requires
                n == 0,
        ;
    }
}

/// The names of counters stand for the numbers that the kernel has for them: no number
/// has a name but its own.
pub proof fn law_named_counters(name: Seq<char>)
    ensures
        named_counter(name) matches Some((kind, number)) ==> {
            ||| kind == 0 && number == 0 && name == "cpu-cycles"@
            ||| kind == 0 && number == 1 && (name == "cpu-instructions"@ || name
                == "instructions"@)
            ||| kind == 0 && number == 2 && name == "cache-references"@
            ||| kind == 0 && number == 3 && name == "cache-misses"@
            ||| kind == 0 && number == 4 && (name == "branch-instructions"@ || name == "branches"@)
            ||| kind == 0 && number == 5 && name == "branch-misses"@
            ||| kind == 0 && number == 7 && name == "stalled-cycles-frontend"@
            ||| kind == 0 && number == 8 && name == "stalled-cycles-backend"@
            ||| kind == 1 && number == 0 && name == "cpu-clock"@
            ||| kind == 1 && number == 1 && name == "task-clock"@
            ||| kind == 1 && number == 2 && (name == "page-faults"@ || name == "faults"@)
            ||| kind == 1 && number == 3 && (name == "context-switches"@ || name == "cs"@)
            ||| kind == 1 && number == 4 && (name == "cpu-migrations"@ || name == "migrations"@)
            ||| kind == 1 && number == 5 && name == "minor-faults"@
            ||| kind == 1 && number == 6 && name == "major-faults"@
        },
        named_counter(name) is None ==> {
            &&& name != "cpu-cycles"@ && name != "cpu-instructions"@ && name != "instructions"@
            &&& name != "cache-references"@ && name != "cache-misses"@
            &&& name != "branch-instructions"@ && name != "branches"@ && name != "branch-misses"@
            &&& name != "stalled-cycles-frontend"@ && name != "stalled-cycles-backend"@
            &&& name != "cpu-clock"@ && name != "task-clock"@
            &&& name != "page-faults"@ && name != "faults"@
            &&& name != "context-switches"@ && name != "cs"@
            &&& name != "cpu-migrations"@ && name != "migrations"@
            &&& name != "minor-faults"@ && name != "major-faults"@
        },
{
}

/// Counters are taken exactly when there are some, no more than a reading holds, and all
/// are known.
pub proof fn law_valid_counters(counters: Seq<CounterConfigView>)
    ensures
        counters_problem(counters) is None <==> 0 < counters.len() <= 8 && forall|i: int|
            0 <= i < counters.len() ==> (#[trigger] counters[i]).numbers() is Some,
{
    lemma_first_unknown(counters);
}

proof fn lemma_first_unknown(counters: Seq<CounterConfigView>)
    ensures
        0 <= first_unknown(counters) <= counters.len(),
        first_unknown(counters) < counters.len() ==> counters[first_unknown(
            counters,
        )].numbers() is None,
        forall|i: int|
            0 <= i < first_unknown(counters) ==> (#[trigger] counters[i]).numbers() is Some,
    decreases counters.len(),
{
    if counters.len() > 0 && counters[0].numbers() is Some {
        let rest = counters.drop_first();
        lemma_first_unknown(rest);
        assert forall|i: int| 0 <= i < first_unknown(counters) implies (
        #[trigger] counters[i]).numbers() is Some by {
            if i > 0 {
                assert(counters[i] == rest[i - 1]);
            }
        }
        if first_unknown(counters) < counters.len() {
            assert(counters[first_unknown(counters)] == rest[first_unknown(rest)]);
        }
    }
}

/// A counter is opened under its name and number on its processor, at a place that says
/// which counter of which processor it is; no two have the same place.
pub proof fn law_counters_are_opened(
    plan: PerfEventPlan,
    counters: Seq<CounterConfigView>,
    i: int,
    cpu: int,
)
    requires
        0 <= i < counters.len(),
        0 <= cpu,
        plan.is_for(counters, i, cpu),
    ensures
        plan.index as int / counters.len() as int == cpu,
        plan.index as int % counters.len() as int == i,
        plan.cpu == cpu,
        counters[i] matches CounterConfigView::Named(name) ==> plan.name@ == name,
        counters[i] matches CounterConfigView::Custom { name, perf_type, config } ==> {
            &&& plan.name@ == name
            &&& plan.perf_type == perf_type
            &&& plan.config == config as u32
        },
{
    let n = counters.len() as int;
    assert(plan.index == cpu * n + i);
    vstd::arithmetic::div_mod::lemma_fundamental_div_mod_converse(plan.index as int, n, cpu, i);
}

/// A reading that is taken as a whole shows each counter by what it has come by since the
/// last one that was, and is what the next is measured from; a refused one is not.
pub proof fn law_readings_follow_each_other(
    before: &PerfCounter,
    event: PerfCounterEvent,
    past: Seq<(MessageView, i32)>,
    after: &PerfCounter,
    history: Seq<(MessageView, i32)>,
    code: i32,
    i: int,
)
    requires
        before.wf(),
        event_handled(before, event, past, after, history, code),
        0 <= i < before.spec_counters().len(),
    ensures
        code != 0 ==> after.last_values() == before.last_values(),
        code == 0 ==> held(after.last_values(), id_of(event.cpu_id as int, i) as u64) == Some(
            event.counters@[i],
        ),
        code == 0 && !before.derived_only()[i] ==> {
            let place = past.len() + shown_before(before.derived_only(), i);
            &&& 0 <= place < history.len()
            &&& is_value(
                history[place].0,
                before.stream(),
                event.cpu_id as int,
                i,
                Reading::Count {
                    n: advance(
                        held(before.last_values(), id_of(event.cpu_id as int, i) as u64),
                        event.counters@[i],
                    ),
                },
                event.timestamp,
            )
        },
        history.len() <= past.len() + before.spec_counters().len() + before.spec_derived().len(),
{
    let n = before.spec_counters().len() as int;
    let only = before.derived_only();
    let id = id_of(event.cpu_id as int, i) as u64;
    assert(id == id_of(event.cpu_id as int, i));
    law_reading_is_remembered(before.last_values(), event, n, id);
    law_reading_shows_each_counter(before.stream(), event, only, before.last_values(), n);
    law_computed_counters_are_shown(
        before.stream(),
        event,
        n,
        before.spec_derived(),
        before.last_values(),
        before.spec_derived().len() as int,
    );
    let regular = regular_messages(before.stream(), event, only, before.last_values(), n);
    let derived = derived_messages(
        before.stream(),
        event,
        n,
        before.spec_derived(),
        before.last_values(),
        before.spec_derived().len() as int,
    );
    lemma_shown(only, i);
    lemma_shown(only, n);
    if code == 0 && !only[i] {
        lemma_shown_grows(only, i, n);
        let k = shown_before(only, i);
        assert((regular + derived)[k] == regular[k]);
        assert(history[past.len() + k].0 == (regular + derived)[k]);
    }
}

/// How often instructions per cycle are asked for.
pub open spec fn times_asked(counters: Seq<CounterConfigView>) -> int
    decreases counters.len(),
{
    if counters.len() == 0 {
        0
    } else {
        times_asked(counters.drop_last()) + if counters.last() == CounterConfigView::Named(
            "ipc"@,
        ) {
            1int
        } else {
            0
        }
    }
}

/// Instructions per cycle are computed as often as they are asked for, under that name,
/// and each time two counters are read in their place; every other counter that is asked
/// for is read, and shown.
pub proof fn law_expansion_of_counters(counters: Seq<CounterConfigView>)
    ensures
        ({
            let e = expansion(counters);
            &&& e.derived.len() == times_asked(counters)
            &&& forall|k: int| 0 <= k < e.derived.len() ==> (#[trigger] e.derived[k]).0 == "ipc"@
            &&& e.counters.len() == counters.len() + times_asked(counters)
            &&& e.derived_only.len() == e.counters.len()
            &&& forall|i: int|
                0 <= i < counters.len() && #[trigger] counters[i] != CounterConfigView::Named(
                    "ipc"@,
                ) ==> is_read_and_shown(e, counters[i])
        }),
    decreases counters.len(),
{
    if counters.len() > 0 {
        let rest = counters.drop_last();
        let last = counters.last();
        law_expansion_of_counters(rest);
        let before = expansion(rest);
        let e = expansion(counters);
        assert forall|i: int|
            0 <= i < counters.len() && #[trigger] counters[i] != CounterConfigView::Named(
                "ipc"@,
            ) implies is_read_and_shown(e, counters[i]) by {
            if i < rest.len() {
                assert(rest[i] == counters[i]);
                let j = choose|j: int|
                    0 <= j < before.counters.len() && #[trigger] before.counters[j] == rest[i]
                        && !before.derived_only[j];
                assert(e.counters[j] == counters[i] && !e.derived_only[j]);
            } else {
                let j = before.counters.len() as int;
                assert(e.counters[j] == last && !e.derived_only[j]);
            }
        }
    }
}

/// Whether a counter is read and not for others alone.
pub open spec fn is_read_and_shown(e: Expansion, counter: CounterConfigView) -> bool {
    exists|j: int|
        0 <= j < e.counters.len() && #[trigger] e.counters[j] == counter && !e.derived_only[j]
}

} // verus!

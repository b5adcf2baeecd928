//! What reports of processor time say.

use super::history::{all_taken, goes_on, lemma_goes_on, lemma_one_more, tracks_in, values_in};
use crate::bpf::cpuutil::{
    accumulated, boundaries_after, completes, counter_announced, counter_reported, event_handled,
    latest_after, next_reported, share_sent, thread_position, thread_reported, threads_reported,
    CpuEmission, CpuEvent, ThreadStats,
};
use crate::protocol::{CounterView, Reading, TrackId, TrackTypeView, TrackView};
use vstd::prelude::*;

verus! {

/// Whether an event is time that a thread ran.
pub open spec fn is_of(event: CpuEvent, pid: i32, tid: i32) -> bool {
    &&& event.tgid != 0 && event.tid != 0 && event.start_time != 0
    &&& event.tgid as i32 == pid && event.tid as i32 == tid
}

/// How long a thread ran in the course of events.
pub open spec fn ran(events: Seq<CpuEvent>, pid: i32, tid: i32) -> int
    decreases events.len(),
{
    if events.len() == 0 {
        0
    } else {
        ran(events.drop_last(), pid, tid) + if is_of(events.last(), pid, tid) {
            events.last().end_time - events.last().start_time
        } else {
            0
        }
    }
}

/// How much of that was in the kernel.
pub open spec fn ran_in_kernel(events: Seq<CpuEvent>, pid: i32, tid: i32) -> int
    decreases events.len(),
{
    if events.len() == 0 {
        0
    } else {
        ran_in_kernel(events.drop_last(), pid, tid) + if is_of(events.last(), pid, tid) {
            events.last().kernel_time_ns as int
        } else {
            0
        }
    }
}

/// The time that is held for a thread.
pub open spec fn held_time(threads: Seq<ThreadStats>, pid: i32, tid: i32) -> int
    decreases threads.len(),
{
    if threads.len() == 0 {
        0
    } else {
        held_time(threads.drop_last(), pid, tid) + if threads.last().pid == pid
            && threads.last().tid == tid {
            threads.last().cpu_time_ns as int
        } else {
            0
        }
    }
}

/// The kernel time that is held for a thread.
pub open spec fn held_kernel_time(threads: Seq<ThreadStats>, pid: i32, tid: i32) -> int
    decreases threads.len(),
{
    if threads.len() == 0 {
        0
    } else {
        held_kernel_time(threads.drop_last(), pid, tid) + if threads.last().pid == pid
            && threads.last().tid == tid {
            threads.last().kernel_time_ns as int
        } else {
            0
        }
    }
}

/// The threads after events.
pub open spec fn after_events(threads: Seq<ThreadStats>, events: Seq<CpuEvent>) -> Seq<ThreadStats>
    decreases events.len(),
{
    if events.len() == 0 {
        threads
    } else {
        accumulated(after_events(threads, events.drop_last()), events.last())
    }
}

/// Whether no two entries are of the same thread.
pub open spec fn one_entry_each(threads: Seq<ThreadStats>) -> bool {
    forall|i: int, j: int|
        0 <= i < j < threads.len() ==> (#[trigger] threads[i]).pid != (#[trigger] threads[j]).pid
            || threads[i].tid != threads[j].tid
}

/// Where a thread is found.
proof fn lemma_position(threads: Seq<ThreadStats>, pid: i32, tid: i32)
    ensures
        ({
            let at = thread_position(threads, pid, tid);
            &&& 0 <= at <= threads.len()
            &&& at < threads.len() ==> threads[at].pid == pid && threads[at].tid == tid
            &&& forall|i: int|
                0 <= i < at ==> (#[trigger] threads[i]).pid != pid || threads[i].tid != tid
        }),
    decreases threads.len(),
{
    if threads.len() > 0 && !(threads[0].pid == pid && threads[0].tid == tid) {
        let rest = threads.drop_first();
        lemma_position(rest, pid, tid);
        let at = thread_position(threads, pid, tid);
        assert forall|i: int| 0 <= i < at implies (#[trigger] threads[i]).pid != pid
            || threads[i].tid != tid by {
            if i > 0 {
                assert(threads[i] == rest[i - 1]);
            }
        }
        if at < threads.len() {
            assert(threads[at] == rest[at - 1]);
        }
    }
}

/// What one entry holds is part of what is held.
proof fn lemma_entry(threads: Seq<ThreadStats>, i: int)
    requires
        0 <= i < threads.len(),
    ensures
        0 <= threads[i].cpu_time_ns <= held_time(threads, threads[i].pid, threads[i].tid),
        0 <= threads[i].kernel_time_ns <= held_kernel_time(
            threads,
            threads[i].pid,
            threads[i].tid,
        ),
    decreases threads.len(),
{
    lemma_held(threads.drop_last(), threads[i].pid, threads[i].tid);
    if i < threads.len() - 1 {
        lemma_entry(threads.drop_last(), i);
    }
}

proof fn lemma_held(threads: Seq<ThreadStats>, pid: i32, tid: i32)
    ensures
        0 <= held_time(threads, pid, tid),
        0 <= held_kernel_time(threads, pid, tid),
    decreases threads.len(),
{
    if threads.len() > 0 {
        lemma_held(threads.drop_last(), pid, tid);
    }
}

/// What an exchanged entry changes.
proof fn lemma_exchanged(threads: Seq<ThreadStats>, i: int, t: ThreadStats, pid: i32, tid: i32)
    requires
        0 <= i < threads.len(),
        t.pid == threads[i].pid,
        t.tid == threads[i].tid,
    ensures
        held_time(threads.update(i, t), pid, tid) == held_time(threads, pid, tid) + if t.pid == pid
            && t.tid == tid {
            t.cpu_time_ns - threads[i].cpu_time_ns
        } else {
            0
        },
        held_kernel_time(threads.update(i, t), pid, tid) == held_kernel_time(threads, pid, tid)
            + if t.pid == pid && t.tid == tid {
            t.kernel_time_ns - threads[i].kernel_time_ns
        } else {
            0
        },
    decreases threads.len(),
{
    let changed = threads.update(i, t);
    if i == threads.len() - 1 {
        assert(changed.drop_last() =~= threads.drop_last());
    } else {
        lemma_exchanged(threads.drop_last(), i, t, pid, tid);
        assert(changed.drop_last() =~= threads.drop_last().update(i, t));
        assert(changed.last() == threads.last());
    }
}

/// Times only grow.
proof fn lemma_ran(events: Seq<CpuEvent>, pid: i32, tid: i32)
    requires
        forall|i: int|
            0 <= i < events.len() ==> (#[trigger] events[i]).start_time <= events[i].end_time,
    ensures
        0 <= ran(events, pid, tid),
        0 <= ran_in_kernel(events, pid, tid),
        events.len() > 0 ==> ran(events.drop_last(), pid, tid) <= ran(events, pid, tid)
            && ran_in_kernel(events.drop_last(), pid, tid) <= ran_in_kernel(events, pid, tid),
    decreases events.len(),
{
    if events.len() > 0 {
        let rest = events.drop_last();
        assert forall|i: int| 0 <= i < rest.len() implies (#[trigger] rest[i]).start_time
            <= rest[i].end_time by {
            assert(rest[i] == events[i]);
        }
        lemma_ran(rest, pid, tid);
        assert(events[events.len() - 1] == events.last());
    }
}

/// The time that is held for a thread grows by exactly the time that it ran, and its
/// kernel time by exactly the time that it ran in the kernel; a thread that did not run
/// gains nothing. Each thread keeps one entry.
pub proof fn law_times_add_up(
    threads: Seq<ThreadStats>,
    events: Seq<CpuEvent>,
    pid: i32,
    tid: i32,
)
    requires
        forall|i: int|
            0 <= i < events.len() ==> (#[trigger] events[i]).start_time <= events[i].end_time,
        forall|p: i32, t: i32|
            #![trigger held_time(threads, p, t)]
            #![trigger held_kernel_time(threads, p, t)]
            held_time(threads, p, t) + ran(events, p, t) <= u64::MAX && held_kernel_time(
                threads,
                p,
                t,
            ) + ran_in_kernel(events, p, t) <= u64::MAX,
    ensures
        held_time(after_events(threads, events), pid, tid) == held_time(threads, pid, tid) + ran(
            events,
            pid,
            tid,
        ),
        held_kernel_time(after_events(threads, events), pid, tid) == held_kernel_time(
            threads,
            pid,
            tid,
        ) + ran_in_kernel(events, pid, tid),
        one_entry_each(threads) ==> one_entry_each(after_events(threads, events)),
        after_events(threads, events).len() >= threads.len(),
        forall|i: int|
            0 <= i < threads.len() ==> (#[trigger] after_events(threads, events)[i]).pid
                == threads[i].pid && after_events(threads, events)[i].tid == threads[i].tid,
    decreases events.len(),
{
    if events.len() > 0 {
        let rest = events.drop_last();
        let event = events.last();
        assert forall|i: int| 0 <= i < rest.len() implies (#[trigger] rest[i]).start_time
            <= rest[i].end_time by {
            assert(rest[i] == events[i]);
        }
        assert forall|p: i32, t: i32|
            #![trigger held_time(threads, p, t)]
            #![trigger held_kernel_time(threads, p, t)]
            held_time(threads, p, t) + ran(rest, p, t) <= u64::MAX && held_kernel_time(
                threads,
                p,
                t,
            ) + ran_in_kernel(rest, p, t) <= u64::MAX by {
            lemma_ran(events, p, t);
        }
        let then = after_events(threads, rest);
        law_times_add_up(threads, rest, pid, tid);
        assert(events[events.len() - 1] == event);
        if event.tgid != 0 && event.tid != 0 && event.start_time != 0 {
            let p = event.tgid as i32;
            let t = event.tid as i32;
            law_times_add_up(threads, rest, p, t);
            assert(held_time(threads, p, t) + ran(events, p, t) <= u64::MAX);
            lemma_position(then, p, t);
            let at = thread_position(then, p, t);
            let now = accumulated(then, event);
            if at < then.len() {
                lemma_entry(then, at);
                lemma_exchanged(then, at, now[at], pid, tid);
            } else {
                assert(now.drop_last() =~= then);
                lemma_held(then, p, t);
            }
        }
    }
}

/// The time that one entry alone holds.
proof fn lemma_alone(threads: Seq<ThreadStats>, i: int)
    requires
        one_entry_each(threads),
        0 <= i < threads.len(),
    ensures
        held_time(threads, threads[i].pid, threads[i].tid) == threads[i].cpu_time_ns,
        held_kernel_time(threads, threads[i].pid, threads[i].tid) == threads[i].kernel_time_ns,
    decreases threads.len(),
{
    let rest = threads.drop_last();
    let last = threads.len() - 1;
    if i == last {
        lemma_absent(rest, threads[i].pid, threads[i].tid);
    } else {
        assert(one_entry_each(rest));
        lemma_alone(rest, i);
        assert(threads[i].pid != threads[last].pid || threads[i].tid != threads[last].tid);
    }
}

proof fn lemma_absent(threads: Seq<ThreadStats>, pid: i32, tid: i32)
    requires
        forall|i: int|
            0 <= i < threads.len() ==> (#[trigger] threads[i]).pid != pid || threads[i].tid != tid,
    ensures
        held_time(threads, pid, tid) == 0,
        held_kernel_time(threads, pid, tid) == 0,
    decreases threads.len(),
{
    if threads.len() > 0 {
        assert(threads[threads.len() - 1] == threads.last());
        lemma_absent(threads.drop_last(), pid, tid);
    }
}

/// The counter of a thread's processor time.
pub open spec fn cpu_counter(thread: ThreadStats) -> u64 {
    match thread.ids {
        Some((cpu, _)) => cpu,
        None => 0,
    }
}

/// The counter of a thread's kernel time.
pub open spec fn kernel_counter(thread: ThreadStats) -> u64 {
    match thread.ids {
        Some((_, kernel)) => kernel,
        None => 0,
    }
}

/// Whether a counter value is a share of a thread's time since it was reported last.
pub open spec fn is_share(
    value: CounterView,
    name: Seq<char>,
    part: int,
    thread: ThreadStats,
    now: u64,
    id: u64,
) -> bool {
    &&& value.name == name
    &&& value.unit == Some("%"@)
    &&& value.timestamp == thread.min_timestamp
    &&& value.track_id == TrackId::Counter { id }
    &&& value.value matches Reading::Percent { part: p, whole } && p == part && whole == now
        - thread.min_timestamp
}

/// Reporting one counter of a thread adds one value, and announces the counter, under
/// the thread, if it was not.
proof fn lemma_counter(
    before: CpuEmission,
    thread: ThreadStats,
    name: Seq<char>,
    id: u64,
    part: u64,
    now: u64,
    after: CpuEmission,
)
    requires
        counter_reported(before, thread, name, id, part, now, after, 0),
        thread.min_timestamp <= now,
    ensures
        values_in(after.history).len() == values_in(before.history).len() + 1,
        values_in(after.history).drop_last() == values_in(before.history),
        is_share(values_in(after.history).last(), name, part as int, thread, now, id),
        after.announced == before.announced.insert(id),
        before.announced.contains(id) ==> tracks_in(after.history) == tracks_in(before.history),
        !before.announced.contains(id) ==> tracks_in(after.history) == tracks_in(
            before.history,
        ).push(
            TrackView {
                name,
                track_type: TrackTypeView::Counter { id, unit: Some("%"@) },
                parent: Some(TrackTypeView::Thread { tid: thread.tid, pid: thread.pid }),
            },
        ),
{
    if before.announced.contains(id) {
        lemma_one_more(before.history, after.history.last().0, 0);
        assert(after.history =~= before.history.push(after.history.last()));
        assert(values_in(after.history).drop_last() =~= values_in(before.history));
        assert(after.announced =~= before.announced.insert(id));
    } else {
        let whole = (now - thread.min_timestamp) as u64;
        let c = choose|c: i32|
            {
                let known = #[trigger] counter_announced(
                    before,
                    name,
                    id,
                    thread.pid,
                    thread.tid,
                    c,
                );
                if c != 0 {
                    after == known && 0 == c
                } else {
                    after == share_sent(
                        known,
                        name,
                        id,
                        part,
                        whole,
                        thread.min_timestamp,
                        0,
                    )
                }
            };
        let known = counter_announced(before, name, id, thread.pid, thread.tid, c);
        lemma_one_more(before.history, known.history.last().0, c);
        lemma_one_more(known.history, after.history.last().0, 0);
        assert(known.history =~= before.history.push(known.history.last()));
        assert(after.history =~= known.history.push(after.history.last()));
        assert(values_in(after.history).drop_last() =~= values_in(before.history));
    }
}

/// A report of a thread that is taken shows two shares of the time since the thread was
/// reported last, both at the begin of that time: the processor time that is held, and
/// the kernel time that is held. After it nothing is held, and the time runs from now.
pub proof fn law_report_shows_what_is_held(
    before: CpuEmission,
    thread: ThreadStats,
    now: u64,
    after: CpuEmission,
    result: ThreadStats,
)
    requires
        thread_reported(before, thread, now, after, result, 0),
        thread.min_timestamp <= now,
    ensures
        ({
            let n = values_in(before.history).len() as int;
            let shown = values_in(after.history);
            &&& shown.len() == n + 2
            &&& shown.take(n) == values_in(before.history)
            &&& result.ids is Some
            &&& thread.ids is Some ==> result.ids == thread.ids
            &&& is_share(
                shown[n],
                "cpu_time"@,
                thread.cpu_time_ns as int,
                thread,
                now,
                cpu_counter(result),
            )
            &&& is_share(
                shown[n + 1],
                "kernel_time"@,
                thread.kernel_time_ns as int,
                thread,
                now,
                kernel_counter(result),
            )
            &&& result.cpu_time_ns == 0
            &&& result.kernel_time_ns == 0
            &&& result.min_timestamp == now
            &&& result.pid == thread.pid && result.tid == thread.tid
        }),
{
    let (ids, middle, c) = choose|ids: (u64, u64), middle: CpuEmission, c: i32|
        {
            &&& thread.ids is Some ==> ids == thread.ids->0
            &&& #[trigger] counter_reported(
                before,
                thread,
                "cpu_time"@,
                ids.0,
                thread.cpu_time_ns,
                now,
                middle,
                c,
            )
            &&& if c != 0 {
                after == middle && 0 == c
            } else {
                counter_reported(
                    middle,
                    thread,
                    "kernel_time"@,
                    ids.1,
                    thread.kernel_time_ns,
                    now,
                    after,
                    0,
                )
            }
            &&& result == crate::bpf::cpuutil::started_over(thread, ids, now)
        };
    lemma_counter(before, thread, "cpu_time"@, ids.0, thread.cpu_time_ns, now, middle);
    lemma_counter(middle, thread, "kernel_time"@, ids.1, thread.kernel_time_ns, now, after);
    let n = values_in(before.history).len() as int;
    let shown = values_in(after.history);
    let part = values_in(middle.history);
    assert(shown.drop_last() == part);
    assert(part.drop_last() == values_in(before.history));
    assert(shown.take(n) =~= values_in(before.history)) by {
        assert(shown.take(n) =~= part.take(n));
        assert(part.take(n) =~= part.drop_last());
    }
    assert(shown[n] == shown.drop_last()[n]);
    assert(part[n] == part.last());
}

/// A report that is refused leaves the times as they were, so that they count in the
/// next.
pub proof fn law_refused_report_keeps_the_times(
    before: CpuEmission,
    thread: ThreadStats,
    now: u64,
    after: CpuEmission,
    result: ThreadStats,
    code: i32,
)
    requires
        thread_reported(before, thread, now, after, result, code),
        code != 0,
    ensures
        result.cpu_time_ns == thread.cpu_time_ns,
        result.kernel_time_ns == thread.kernel_time_ns,
        result.min_timestamp == thread.min_timestamp,
        result.pid == thread.pid && result.tid == thread.tid,
{
}

/// A report of threads that is taken shows two shares for each of them, in their order,
/// and leaves nothing held for any.
pub proof fn law_all_threads_are_reported(
    before: CpuEmission,
    threads: Seq<ThreadStats>,
    n: int,
    now: u64,
    after: CpuEmission,
    result: Seq<ThreadStats>,
)
    requires
        0 <= n <= threads.len(),
        threads_reported(before, threads, n, now, after, result, 0),
        forall|i: int|
            0 <= i < threads.len() ==> (#[trigger] threads[i]).min_timestamp <= now,
    ensures
        ({
            let m = values_in(before.history).len() as int;
            let shown = values_in(after.history);
            &&& shown.len() == m + 2 * n
            &&& shown.take(m) == values_in(before.history)
            &&& result.len() == threads.len()
            &&& forall|i: int|
                0 <= i < n ==> {
                    let thread = #[trigger] threads[i];
                    &&& result[i].ids is Some
                    &&& is_share(
                        shown[m + 2 * i],
                        "cpu_time"@,
                        thread.cpu_time_ns as int,
                        thread,
                        now,
                        cpu_counter(result[i]),
                    )
                    &&& is_share(
                        shown[m + 2 * i + 1],
                        "kernel_time"@,
                        thread.kernel_time_ns as int,
                        thread,
                        now,
                        kernel_counter(result[i]),
                    )
                    &&& result[i].cpu_time_ns == 0 && result[i].kernel_time_ns == 0
                    &&& result[i].min_timestamp == now
                    &&& result[i].pid == thread.pid && result[i].tid == thread.tid
                }
            &&& forall|i: int| n <= i < threads.len() ==> #[trigger] result[i] == threads[i]
        }),
    decreases n,
{
    let m = values_in(before.history).len() as int;
    if n == 0 {
        assert(values_in(before.history).take(m) =~= values_in(before.history));
    } else {
        let (middle, list, c) = choose|middle: CpuEmission, list: Seq<ThreadStats>, c: i32|
            {
                &&& threads_reported(before, threads, n - 1, now, middle, list, c)
                &&& #[trigger] next_reported(middle, list, c, n - 1, now, after, result, 0)
            };
        law_all_threads_are_reported(before, threads, n - 1, now, middle, list);
        let at = n - 1;
        assert(list[at] == threads[at]);
        law_report_shows_what_is_held(middle, list[at], now, after, result[at]);
        let shown = values_in(after.history);
        let part = values_in(middle.history);
        let k = part.len() as int;
        assert(shown.take(k) == part);
        assert(shown.take(m) =~= part.take(m));
        assert forall|i: int| 0 <= i < n - 1 implies #[trigger] shown[m + 2 * i] == part[m + 2 * i]
            && shown[m + 2 * i + 1] == part[m + 2 * i + 1] by {
            assert(shown.take(k)[m + 2 * i] == shown[m + 2 * i]);
            assert(shown.take(k)[m + 2 * i + 1] == shown[m + 2 * i + 1]);
        }
        assert forall|i: int| 0 <= i < n implies {
            let thread = #[trigger] threads[i];
            &&& result[i].ids is Some
            &&& is_share(
                shown[m + 2 * i],
                "cpu_time"@,
                thread.cpu_time_ns as int,
                thread,
                now,
                cpu_counter(result[i]),
            )
            &&& is_share(
                shown[m + 2 * i + 1],
                "kernel_time"@,
                thread.kernel_time_ns as int,
                thread,
                now,
                kernel_counter(result[i]),
            )
            &&& result[i].cpu_time_ns == 0 && result[i].kernel_time_ns == 0
            &&& result[i].min_timestamp == now
            &&& result[i].pid == thread.pid && result[i].tid == thread.tid
        } by {
            if i < n - 1 {
                assert(result[i] == list[i]);
                assert(shown[m + 2 * i] == part[m + 2 * i]);
            }
        }
    }
}

/// The times reported for a thread are those of its events since its last report that
/// was taken: of one that had no events, zero.
pub proof fn law_reported_times_are_of_the_interval(
    threads: Seq<ThreadStats>,
    events: Seq<CpuEvent>,
    at: int,
    before: CpuEmission,
    now: u64,
    after: CpuEmission,
    result: ThreadStats,
)
    requires
        one_entry_each(threads),
        0 <= at < threads.len(),
        threads[at].cpu_time_ns == 0 && threads[at].kernel_time_ns == 0,
        forall|i: int|
            0 <= i < events.len() ==> (#[trigger] events[i]).start_time <= events[i].end_time,
        forall|p: i32, t: i32|
            #![trigger held_time(threads, p, t)]
            #![trigger held_kernel_time(threads, p, t)]
            held_time(threads, p, t) + ran(events, p, t) <= u64::MAX && held_kernel_time(
                threads,
                p,
                t,
            ) + ran_in_kernel(events, p, t) <= u64::MAX,
        after_events(threads, events)[at].min_timestamp <= now,
        thread_reported(before, after_events(threads, events)[at], now, after, result, 0),
    ensures
        ({
            let n = values_in(before.history).len() as int;
            let shown = values_in(after.history);
            let thread = threads[at];
            &&& shown.len() == n + 2
            &&& shown[n].name == "cpu_time"@
            &&& shown[n].value matches Reading::Percent { part, .. } && part == ran(
                events,
                thread.pid,
                thread.tid,
            )
            &&& shown[n + 1].name == "kernel_time"@
            &&& shown[n + 1].value matches Reading::Percent { part, .. } && part == ran_in_kernel(
                events,
                thread.pid,
                thread.tid,
            )
        }),
{
    let thread = threads[at];
    law_times_add_up(threads, events, thread.pid, thread.tid);
    lemma_alone(threads, at);
    lemma_alone(after_events(threads, events), at);
    law_report_shows_what_is_held(before, after_events(threads, events)[at], now, after, result);
}

/// How many reports of processors there are in events.
pub open spec fn reports_in(events: Seq<CpuEvent>) -> int
    decreases events.len(),
{
    if events.len() == 0 {
        0
    } else {
        reports_in(events.drop_last()) + if events.last().boundary { 1int } else { 0 }
    }
}

/// How many processors have reported the interval after events.
pub open spec fn reported_after(start: usize, processors: usize, events: Seq<CpuEvent>) -> usize
    decreases events.len(),
{
    if events.len() == 0 {
        start
    } else {
        boundaries_after(
            reported_after(start, processors, events.drop_last()),
            processors,
            events.last(),
        )
    }
}

/// How many intervals were completed by events.
pub open spec fn intervals_in(start: usize, processors: usize, events: Seq<CpuEvent>) -> int
    decreases events.len(),
{
    if events.len() == 0 {
        0
    } else {
        intervals_in(start, processors, events.drop_last()) + if completes(
            reported_after(start, processors, events.drop_last()),
            processors,
            events.last(),
        ) {
            1int
        } else {
            0
        }
    }
}

/// An interval is completed by every report that is the last of as many as there are
/// processors: what was reported makes up the completed intervals and what is left over.
pub proof fn law_intervals_are_reported_by_all_processors(
    start: usize,
    processors: usize,
    events: Seq<CpuEvent>,
)
    requires
        start < processors,
    ensures
        intervals_in(start, processors, events) * processors + reported_after(
            start,
            processors,
            events,
        ) == start + reports_in(events),
        reported_after(start, processors, events) < processors,
    decreases events.len(),
{
    if events.len() > 0 {
        let front = events.drop_last();
        law_intervals_are_reported_by_all_processors(start, processors, front);
        let n = intervals_in(start, processors, front);
        assert((n + 1) * processors == n * processors + processors) by (nonlinear_arith);
    }
}

/// The latest time is never before the end of an event, and does not go back.
pub proof fn law_latest_time(latest: u64, event: CpuEvent)
    ensures
        latest_after(latest, event) >= event.end_time,
        latest_after(latest, event) >= latest,
        latest_after(latest, event) == latest || latest_after(latest, event) == event.end_time,
{
}

/// The time that a thread is reported for begins with its first event, or with its last
/// report if that was before it. An event changes no thread but its own, and none if it is
/// about no thread.
pub proof fn law_interval_begins_with_the_first_event(
    threads: Seq<ThreadStats>,
    event: CpuEvent,
    i: int,
)
    requires
        0 <= i < accumulated(threads, event).len(),
        one_entry_each(threads),
    ensures
        ({
            let after = accumulated(threads, event)[i];
            let about = event.tgid != 0 && event.tid != 0 && event.start_time != 0;
            let own = about && after.pid == event.tgid as i32 && after.tid == event.tid as i32;
            &&& !own ==> i < threads.len() && after == threads[i]
            &&& own && i < threads.len() ==> {
                &&& after.min_timestamp <= event.start_time
                &&& after.min_timestamp <= threads[i].min_timestamp
                &&& after.min_timestamp == event.start_time || after.min_timestamp
                    == threads[i].min_timestamp
                &&& after.ids == threads[i].ids
            }
            &&& own && i >= threads.len() ==> {
                &&& i == threads.len()
                &&& after.min_timestamp == event.start_time
                &&& after.ids is None
            }
            &&& accumulated(threads, event).len() <= threads.len() + 1
        }),
{
    lemma_position(threads, event.tgid as i32, event.tid as i32);
}

/// Whether a thread is the one that an event is about.
pub open spec fn is_about(event: CpuEvent, thread: ThreadStats) -> bool {
    is_of(event, thread.pid, thread.tid)
}

/// An event that completes an interval, and whose report is taken, shows for each thread
/// the time that was held for it, with that of the event for its own; any other event is
/// counted and shows nothing.
pub proof fn law_completed_interval_is_reported(
    complete: bool,
    event: CpuEvent,
    now: u64,
    threads: Seq<ThreadStats>,
    before: CpuEmission,
    result: Seq<ThreadStats>,
    after: CpuEmission,
    i: int,
)
    requires
        event_handled(complete, event, now, threads, before, result, after, 0),
        one_entry_each(threads),
        0 <= i < threads.len(),
        event.start_time <= event.end_time <= now,
        forall|k: int|
            0 <= k < threads.len() ==> (#[trigger] threads[k]).min_timestamp <= now,
        is_about(event, threads[i]) ==> threads[i].cpu_time_ns + (event.end_time
            - event.start_time) <= u64::MAX,
        is_about(event, threads[i]) ==> threads[i].kernel_time_ns + event.kernel_time_ns
            <= u64::MAX,
    ensures
        !complete ==> after == before,
        complete ==> {
            let m = values_in(before.history).len() as int;
            let shown = values_in(after.history);
            let own = is_about(event, threads[i]);
            &&& shown.len() == m + 2 * result.len()
            &&& shown[m + 2 * i].name == "cpu_time"@
            &&& shown[m + 2 * i].value matches Reading::Percent { part, .. } && part
                == threads[i].cpu_time_ns + if own {
                event.end_time - event.start_time
            } else {
                0
            }
            &&& shown[m + 2 * i + 1].name == "kernel_time"@
            &&& shown[m + 2 * i + 1].value matches Reading::Percent { part, .. } && part
                == threads[i].kernel_time_ns + if own {
                event.kernel_time_ns as int
            } else {
                0
            }
            &&& result[i].cpu_time_ns == 0 && result[i].kernel_time_ns == 0
        },
{
    let counted = accumulated(threads, event);
    let pid = event.tgid as i32;
    let tid = event.tid as i32;
    lemma_position(threads, pid, tid);
    let at = thread_position(threads, pid, tid);
    if complete {
        assert forall|k: int| 0 <= k < counted.len() implies (
        #[trigger] counted[k]).min_timestamp <= now by {
            if k < threads.len() {
                assert(threads[k].min_timestamp <= now);
            }
        }
        law_all_threads_are_reported(
            before,
            counted,
            counted.len() as int,
            now,
            after,
            result,
        );
        if is_about(event, threads[i]) {
            assert(at == i);
        }
        assert(counted[i].pid == threads[i].pid);
    }
}

/// Reporting a counter adds to what was submitted, and a refusal shows there.
proof fn lemma_counter_reported(
    before: CpuEmission,
    thread: ThreadStats,
    name: Seq<char>,
    id: u64,
    part: u64,
    now: u64,
    after: CpuEmission,
    code: i32,
)
    requires
        counter_reported(before, thread, name, id, part, now, after, code),
    ensures
        goes_on(before.history, after.history),
        after.history.len() > before.history.len(),
        code != 0 ==> !all_taken(before.history, after.history),
{
    let n = before.history.len() as int;
    let whole = (now - thread.min_timestamp) as u64;
    if before.announced.contains(id) {
        assert(after.history.take(n) =~= before.history);
        assert(after.history[n].1 == code);
    } else {
        let c = choose|c: i32|
            {
                let known = #[trigger] counter_announced(
                    before,
                    name,
                    id,
                    thread.pid,
                    thread.tid,
                    c,
                );
                if c != 0 {
                    after == known && code == c
                } else {
                    after == share_sent(
                        known,
                        name,
                        id,
                        part,
                        whole,
                        thread.min_timestamp,
                        code,
                    )
                }
            };
        assert(after.history.take(n) =~= before.history);
        if c != 0 {
            assert(after.history[n].1 == c);
        } else {
            assert(after.history[n + 1].1 == code);
        }
    }
}

proof fn lemma_thread_reported(
    before: CpuEmission,
    thread: ThreadStats,
    now: u64,
    after: CpuEmission,
    result: ThreadStats,
    code: i32,
)
    requires
        thread_reported(before, thread, now, after, result, code),
    ensures
        goes_on(before.history, after.history),
        after.history.len() > before.history.len(),
        code != 0 ==> !all_taken(before.history, after.history),
{
    let (ids, middle, c) = choose|ids: (u64, u64), middle: CpuEmission, c: i32|
        {
            &&& thread.ids is Some ==> ids == thread.ids->0
            &&& #[trigger] counter_reported(
                before,
                thread,
                "cpu_time"@,
                ids.0,
                thread.cpu_time_ns,
                now,
                middle,
                c,
            )
            &&& if c != 0 {
                after == middle && code == c
            } else {
                counter_reported(
                    middle,
                    thread,
                    "kernel_time"@,
                    ids.1,
                    thread.kernel_time_ns,
                    now,
                    after,
                    code,
                )
            }
        };
    lemma_counter_reported(
        before,
        thread,
        "cpu_time"@,
        ids.0,
        thread.cpu_time_ns,
        now,
        middle,
        c,
    );
    if c == 0 {
        lemma_counter_reported(
            middle,
            thread,
            "kernel_time"@,
            ids.1,
            thread.kernel_time_ns,
            now,
            after,
            code,
        );
        lemma_goes_on(before.history, middle.history, after.history);
    }
}

/// Nothing but a refusal keeps a report from being given: if all that was submitted was
/// taken, it succeeds, and something was submitted for each thread.
pub proof fn law_only_a_refusal_ends_a_report(
    before: CpuEmission,
    threads: Seq<ThreadStats>,
    n: int,
    now: u64,
    after: CpuEmission,
    result: Seq<ThreadStats>,
    code: i32,
)
    requires
        0 <= n,
        threads_reported(before, threads, n, now, after, result, code),
    ensures
        goes_on(before.history, after.history),
        all_taken(before.history, after.history) ==> code == 0,
        code == 0 ==> after.history.len() >= before.history.len() + n,
    decreases n,
{
    if n == 0 {
        assert(before.history.take(before.history.len() as int) =~= before.history);
    } else {
        let (middle, list, c) = choose|middle: CpuEmission, list: Seq<ThreadStats>, c: i32|
            {
                &&& threads_reported(before, threads, n - 1, now, middle, list, c)
                &&& #[trigger] next_reported(middle, list, c, n - 1, now, after, result, code)
            };
        law_only_a_refusal_ends_a_report(before, threads, n - 1, now, middle, list, c);
        if c == 0 {
            lemma_thread_reported(middle, list[n - 1], now, after, result[n - 1], code);
            lemma_goes_on(before.history, middle.history, after.history);
        }
    }
}

} // verus!

//! Processor time of threads, as a share of the time that has passed.

use super::error::{map_error, BpfError};
use super::wire::{read_u32, read_u64, u32_at, u64_at};
use crate::protocol::{
    no_labels, Counter, CounterView, Event, EventView, Labels, Message, MessageView, Reading, Track,
    TrackId, TrackType, TrackTypeView, TrackView,
};
use crate::random::random_u64;
use crate::sink::MessageSink;
use std::collections::HashSet;
use vstd::prelude::*;
use vstd::std_specs::hash::*;

verus! {

/// What to track.
#[derive(Debug)]
pub struct CpuUtilConfig {
    pub frequency: u64,
    pub pid_filters: Vec<i32>,
    pub filter_process: Vec<String>,
    pub ringbuf: usize,
}

impl Default for CpuUtilConfig {
    fn default() -> (r: Self)
        ensures
            r.frequency == 9,
            r.pid_filters@.len() == 0,
            r.filter_process@.len() == 0,
            r.ringbuf == 1024 * 1024,
    {
        CpuUtilConfig {
            frequency: 9,
            pid_filters: Vec::new(),
            filter_process: Vec::new(),
            ringbuf: 1024 * 1024,
        }
    }
}

/// What a kernel program that can look at some processes only is loaded with.
#[derive(Debug, Clone, Copy, PartialEq, Eq, Structural)]
pub struct FilterPlan {
    pub ringbuf_entries: u32,
    pub filter_enabled: bool,
}

/// Makes the plan for a ring buffer of a size and for lists of processes: there is
/// a filter if any process is named.
pub fn plan_filter(ringbuf: usize, pid_filters: &Vec<i32>, filter_process: &Vec<String>) -> (r:
    FilterPlan)
    ensures
        r == (FilterPlan {
            ringbuf_entries: ringbuf as u32,
            filter_enabled: pid_filters@.len() > 0 || filter_process@.len() > 0,
        }),
{
    FilterPlan {
        ringbuf_entries: ringbuf as u32,
        filter_enabled: pid_filters.len() > 0 || filter_process.len() > 0,
    }
}

/// A stretch of time that a thread was on a processor; `boundary` says that the
/// processor has reported all of an interval.
#[derive(Debug, Clone, Copy, PartialEq, Eq, Structural)]
pub struct CpuEvent {
    pub tid: u32,
    pub tgid: u32,
    pub end_time: u64,
    pub kernel_time_ns: u64,
    pub start_time: u64,
    pub cpu: u32,
    pub boundary: bool,
}

impl CpuEvent {
    /// The event that lies in `data`.
    pub open spec fn in_bytes(data: Seq<u8>) -> CpuEvent {
        CpuEvent {
            tid: u32_at(data, 0),
            tgid: u32_at(data, 4),
            end_time: u64_at(data, 8),
            kernel_time_ns: u64_at(data, 16),
            start_time: u64_at(data, 24),
            cpu: u32_at(data, 32),
            boundary: data[36] != 0,
        }
    }

    pub fn from_bytes(data: &[u8]) -> (r: Result<Self, BpfError>)
        ensures
            match r {
                Ok(event) => data@.len() >= 40 && event == Self::in_bytes(data@),
                Err(e) => data@.len() < 40 && e.is_map("failed to parse cpu event: TooShort"@),
            },
    {
        if data.len() < 40 {
            return Err(map_error("failed to parse cpu event: TooShort"));
        }
        Ok(
            CpuEvent {
                tid: read_u32(data, 0),
                tgid: read_u32(data, 4),
                end_time: read_u64(data, 8),
                kernel_time_ns: read_u64(data, 16),
                start_time: read_u64(data, 24),
                cpu: read_u32(data, 32),
                boundary: data[36] != 0,
            },
        )
    }

    /// Whether the event is about a thread.
    pub open spec fn counts(self) -> bool {
        self.tgid != 0 && self.tid != 0 && self.start_time != 0
    }
}

/// A thread: the time it was on a processor since it was reported last, when that
/// was, and the ids of its two counters, if it has them.
#[derive(Debug, Clone, Copy)]
pub struct ThreadStats {
    pub pid: i32,
    pub tid: i32,
    pub cpu_time_ns: u64,
    pub kernel_time_ns: u64,
    pub min_timestamp: u64,
    pub ids: Option<(u64, u64)>,
}

/// The place of a thread, or the number of threads if it is not there.
pub open spec fn thread_position(threads: Seq<ThreadStats>, pid: i32, tid: i32) -> int
    decreases threads.len(),
{
    if threads.len() == 0 || (threads[0].pid == pid && threads[0].tid == tid) {
        0
    } else {
        1 + thread_position(threads.drop_first(), pid, tid)
    }
}

/// A thread with more time.
pub open spec fn with_time(t: ThreadStats, event: CpuEvent) -> ThreadStats {
    ThreadStats {
        cpu_time_ns: (t.cpu_time_ns + (event.end_time - event.start_time)) as u64,
        kernel_time_ns: (t.kernel_time_ns + event.kernel_time_ns) as u64,
        min_timestamp: if event.start_time < t.min_timestamp {
            event.start_time
        } else {
            t.min_timestamp
        },
        ..t
    }
}

/// Whether an event is the last report of an interval that was missing.
pub open spec fn completes(boundaries: usize, processors: usize, event: CpuEvent) -> bool {
    event.boundary && boundaries + 1 == processors
}

/// How many processors have reported the interval after an event.
pub open spec fn boundaries_after(boundaries: usize, processors: usize, event: CpuEvent) -> usize {
    if !event.boundary {
        boundaries
    } else if completes(boundaries, processors, event) {
        0
    } else {
        (boundaries + 1) as usize
    }
}

/// The latest time seen after an event.
pub open spec fn latest_after(latest: u64, event: CpuEvent) -> u64 {
    if event.end_time > latest {
        event.end_time
    } else {
        latest
    }
}

/// A thread that has not been seen.
pub open spec fn new_thread(pid: i32, tid: i32) -> ThreadStats {
    ThreadStats {
        pid,
        tid,
        cpu_time_ns: 0,
        kernel_time_ns: 0,
        min_timestamp: u64::MAX,
        ids: None,
    }
}

/// The threads with the time of an event added.
pub open spec fn accumulated(threads: Seq<ThreadStats>, event: CpuEvent) -> Seq<ThreadStats> {
    if !event.counts() {
        threads
    } else {
        let pid = event.tgid as i32;
        let tid = event.tid as i32;
        let at = thread_position(threads, pid, tid);
        if at < threads.len() {
            threads.update(at, with_time(threads[at], event))
        } else {
            threads.push(with_time(new_thread(pid, tid), event))
        }
    }
}

/// What has been sent: the counters that were announced, and the messages.
pub struct CpuEmission {
    pub announced: Set<u64>,
    pub history: Seq<(MessageView, i32)>,
}

/// Announces a counter of a thread.
pub open spec fn track_message(name: Seq<char>, id: u64, pid: i32, tid: i32) -> MessageView {
    MessageView::Event(
        EventView::Track(
            TrackView {
                name,
                track_type: TrackTypeView::Counter { id, unit: Some("%"@) },
                parent: Some(TrackTypeView::Thread { tid, pid }),
            },
        ),
    )
}

/// The share of a thread's time in the time that has passed.
pub open spec fn share_message(
    name: Seq<char>,
    id: u64,
    part: u64,
    whole: u64,
    timestamp: u64,
) -> MessageView {
    MessageView::Event(
        EventView::Counter(
            CounterView {
                name,
                value: Reading::Percent { part, whole },
                timestamp,
                track_id: TrackId::Counter { id },
                labels: no_labels(),
                unit: Some("%"@),
            },
        ),
    )
}

/// What announcing a counter does; it counts as announced if it was taken.
pub open spec fn counter_announced(
    before: CpuEmission,
    name: Seq<char>,
    id: u64,
    pid: i32,
    tid: i32,
    code: i32,
) -> CpuEmission {
    CpuEmission {
        announced: if code == 0 {
            before.announced.insert(id)
        } else {
            before.announced
        },
        history: before.history.push((track_message(name, id, pid, tid), code)),
    }
}

/// What sending a share does.
pub open spec fn share_sent(
    before: CpuEmission,
    name: Seq<char>,
    id: u64,
    part: u64,
    whole: u64,
    timestamp: u64,
    code: i32,
) -> CpuEmission {
    CpuEmission {
        history: before.history.push((share_message(name, id, part, whole, timestamp), code)),
        ..before
    }
}

/// What reporting one counter of a thread does: it is announced first, if it was
/// not, and its value is not sent if that was refused.
pub open spec fn counter_reported(
    before: CpuEmission,
    thread: ThreadStats,
    name: Seq<char>,
    id: u64,
    part: u64,
    now: u64,
    after: CpuEmission,
    code: i32,
) -> bool {
    let whole = (now - thread.min_timestamp) as u64;
    if before.announced.contains(id) {
        after == share_sent(before, name, id, part, whole, thread.min_timestamp, code)
    } else {
        exists|c: i32|
            {
                let known = #[trigger] counter_announced(
                    before,
                    name,
                    id,
                    thread.pid,
                    thread.tid,
                    c,
                );
                if c != 0 {
                    after == known && code == c
                } else {
                    after == share_sent(
                        known,
                        name,
                        id,
                        part,
                        whole,
                        thread.min_timestamp,
                        code,
                    )
                }
            }
    }
}

/// A thread that starts over at `now`, with the ids of its counters.
pub open spec fn started_over(thread: ThreadStats, ids: (u64, u64), now: u64) -> ThreadStats {
    ThreadStats {
        cpu_time_ns: 0,
        kernel_time_ns: 0,
        min_timestamp: now,
        ids: Some(ids),
        ..thread
    }
}

/// What reporting a thread does: its time on processors, and then the part of it
/// in the kernel; it starts over only if both were taken.
pub open spec fn thread_reported(
    before: CpuEmission,
    thread: ThreadStats,
    now: u64,
    after: CpuEmission,
    result: ThreadStats,
    code: i32,
) -> bool {
    exists|ids: (u64, u64), middle: CpuEmission, c: i32|
        {
            &&& thread.ids is Some ==> ids == thread.ids->0
            &&& #[trigger] counter_reported(
                before,
                thread,
                "cpu_time"@,
                ids.0,
                thread.cpu_time_ns,
                now,
                middle,
                c,
            )
            &&& if c != 0 {
                after == middle && code == c
            } else {
                counter_reported(
                    middle,
                    thread,
                    "kernel_time"@,
                    ids.1,
                    thread.kernel_time_ns,
                    now,
                    after,
                    code,
                )
            }
            &&& result == (if code == 0 {
                started_over(thread, ids, now)
            } else {
                ThreadStats { ids: Some(ids), ..thread }
            })
        }
}

/// What reporting one more thread does, unless one before it was refused.
pub open spec fn next_reported(
    before: CpuEmission,
    threads: Seq<ThreadStats>,
    refused: i32,
    at: int,
    now: u64,
    after: CpuEmission,
    result: Seq<ThreadStats>,
    code: i32,
) -> bool {
    if refused != 0 {
        after == before && result == threads && code == refused
    } else {
        &&& result.len() == threads.len()
        &&& result == threads.update(at, result[at])
        &&& thread_reported(before, threads[at], now, after, result[at], code)
    }
}

/// What reporting the first `n` threads in turn does, up to the first that is
/// refused.
pub open spec fn threads_reported(
    before: CpuEmission,
    threads: Seq<ThreadStats>,
    n: int,
    now: u64,
    after: CpuEmission,
    result: Seq<ThreadStats>,
    code: i32,
) -> bool
    decreases n,
{
    if n <= 0 {
        after == before && result == threads && code == 0
    } else {
        exists|middle: CpuEmission, list: Seq<ThreadStats>, c: i32|
            {
                &&& threads_reported(before, threads, n - 1, now, middle, list, c)
                &&& #[trigger] next_reported(middle, list, c, n - 1, now, after, result, code)
            }
    }
}

/// Once refused, no more threads are reported.
proof fn lemma_refused(
    before: CpuEmission,
    threads: Seq<ThreadStats>,
    n: int,
    m: int,
    now: u64,
    after: CpuEmission,
    result: Seq<ThreadStats>,
    code: i32,
)
    requires
        0 <= n <= m,
        code != 0,
        threads_reported(before, threads, n, now, after, result, code),
    ensures
        threads_reported(before, threads, m, now, after, result, code),
    decreases m - n,
{
    if n < m {
        assert(next_reported(after, result, code, n + 1 - 1, now, after, result, code));
        lemma_refused(before, threads, n + 1, m, now, after, result, code);
    }
}

/// What an event does to the threads and what is sent: its time is added, and, if it
/// completes an interval, all threads are reported at `now`.
pub open spec fn event_handled(
    complete: bool,
    event: CpuEvent,
    now: u64,
    threads: Seq<ThreadStats>,
    before: CpuEmission,
    result: Seq<ThreadStats>,
    after: CpuEmission,
    code: i32,
) -> bool {
    let counted = accumulated(threads, event);
    if complete {
        threads_reported(before, counted, counted.len() as int, now, after, result, code)
    } else {
        &&& result == counted
        &&& after == before
        &&& code == 0
    }
}

/// The state of a tracker of processor time.
pub struct CpuUtil {
    threads: Vec<ThreadStats>,
    submitted_tracks: HashSet<u64>,
    nprocs: usize,
    boundaries_reported: usize,
    max_timestamp: u64,
}

impl CpuUtil {
    pub closed spec fn spec_threads(&self) -> Seq<ThreadStats> {
        self.threads@
    }

    /// What has been sent, with the messages of a sink.
    pub closed spec fn emission(&self, history: Seq<(MessageView, i32)>) -> CpuEmission {
        CpuEmission { announced: self.submitted_tracks@, history }
    }

    /// How many processors there are.
    pub closed spec fn processors(&self) -> usize {
        self.nprocs
    }

    /// How many of them have reported the interval.
    pub closed spec fn boundaries(&self) -> usize {
        self.boundaries_reported
    }

    /// The latest time seen.
    pub closed spec fn latest(&self) -> u64 {
        self.max_timestamp
    }

    /// Not all processors have reported the interval, and no thread was reported
    /// in the future.
    pub open spec fn wf(&self) -> bool {
        &&& self.boundaries() < self.processors()
        &&& forall|i: int|
            0 <= i < self.spec_threads().len() ==> (#[trigger] self.spec_threads()[i]).min_timestamp
                <= self.latest()
    }

    /// Whether the time of an event can be added to that of its thread.
    pub open spec fn fits(&self, event: CpuEvent) -> bool {
        event.counts() ==> {
            let threads = self.spec_threads();
            let at = thread_position(threads, event.tgid as i32, event.tid as i32);
            &&& event.start_time <= event.end_time
            &&& at < threads.len() ==> {
                &&& threads[at].cpu_time_ns + (event.end_time - event.start_time) <= u64::MAX
                &&& threads[at].kernel_time_ns + event.kernel_time_ns <= u64::MAX
            }
        }
    }

    pub fn new(nprocs: usize) -> (r: Self)
        requires
            nprocs > 0,
        ensures
            r.wf(),
            r.spec_threads() == Seq::<ThreadStats>::empty(),
            r.processors() == nprocs,
            r.boundaries() == 0,
            r.latest() == 0,
            forall|history: Seq<(MessageView, i32)>| #[trigger]
                r.emission(history) == (CpuEmission { announced: Set::empty(), history }),
    {
        CpuUtil {
            threads: Vec::new(),
            submitted_tracks: HashSet::new(),
            nprocs,
            boundaries_reported: 0,
            max_timestamp: 0,
        }
    }

    fn find(&self, pid: i32, tid: i32) -> (r: usize)
        ensures
            r == thread_position(self.spec_threads(), pid, tid),
            r <= self.spec_threads().len(),
    {
        let ghost all = self.threads@;
        let mut i: usize = 0;
        assert(all.skip(0) =~= all);
        while i < self.threads.len() && !(self.threads[i].pid == pid && self.threads[i].tid == tid)
            invariant
                i <= self.threads@.len(),
                all == self.threads@,
                thread_position(all, pid, tid) == i + thread_position(
                    all.skip(i as int),
                    pid,
                    tid,
                ),
            decreases self.threads@.len() - i,
        {
            assert(all.skip(i as int).drop_first() =~= all.skip(i + 1));
            i += 1;
        }
        i
    }

    /// Whether the time of an event can be added to that of its thread.
    pub fn can_take(&self, event: &CpuEvent) -> (r: bool)
        ensures
            r == self.fits(*event),
    {
        if event.tgid == 0 || event.tid == 0 || event.start_time == 0 {
            return true;
        }
        if event.end_time < event.start_time {
            return false;
        }
        let at: usize = self.find(event.tgid as i32, event.tid as i32);
        if at >= self.threads.len() {
            return true;
        }
        let t: ThreadStats = self.threads[at];
        assert(self.spec_threads()[at as int] == t);
        t.cpu_time_ns <= u64::MAX - (event.end_time - event.start_time) && t.kernel_time_ns
            <= u64::MAX - event.kernel_time_ns
    }

    /// Adds the time of an event.
    fn accumulate(&mut self, event: CpuEvent)
        requires
            old(self).fits(event),
        ensures
            final(self).spec_threads() == accumulated(old(self).spec_threads(), event),
            final(self).submitted_tracks == old(self).submitted_tracks,
            final(self).processors() == old(self).processors(),
            final(self).boundaries() == old(self).boundaries(),
            final(self).latest() == old(self).latest(),
    {
        if event.tgid != 0 && event.tid != 0 && event.start_time != 0 {
            let pid: i32 = event.tgid as i32;
            let tid: i32 = event.tid as i32;
            let at: usize = self.find(pid, tid);
            let spent: u64 = event.end_time - event.start_time;
            if at < self.threads.len() {
                let t: ThreadStats = self.threads[at];
                assert(self.spec_threads()[at as int] == t);
                let min_timestamp: u64 = if event.start_time < t.min_timestamp {
                    event.start_time
                } else {
                    t.min_timestamp
                };
                self.threads[at] =
                ThreadStats {
                    pid: t.pid,
                    tid: t.tid,
                    cpu_time_ns: t.cpu_time_ns + spent,
                    kernel_time_ns: t.kernel_time_ns + event.kernel_time_ns,
                    min_timestamp,
                    ids: t.ids,
                };
            } else {
                let min_timestamp: u64 = if event.start_time < u64::MAX {
                    event.start_time
                } else {
                    u64::MAX
                };
                self.threads.push(
                    ThreadStats {
                        pid,
                        tid,
                        cpu_time_ns: spent,
                        kernel_time_ns: event.kernel_time_ns,
                        min_timestamp,
                        ids: None,
                    },
                );
            }
            assert(self.spec_threads() =~= accumulated(old(self).spec_threads(), event));
        }
    }

    /// Reports one counter of a thread.
    fn report_counter<S: MessageSink>(
        &mut self,
        thread: ThreadStats,
        name: &'static str,
        id: u64,
        part: u64,
        sink: &mut S,
    ) -> (code: i32)
        requires
            thread.min_timestamp <= old(self).latest(),
        ensures
            final(self).threads == old(self).threads,
            final(self).processors() == old(self).processors(),
            final(self).boundaries() == old(self).boundaries(),
            final(self).latest() == old(self).latest(),
            counter_reported(
                old(self).emission(old(sink).history()),
                thread,
                name@,
                id,
                part,
                old(self).latest(),
                final(self).emission(final(sink).history()),
                code,
            ),
    {
        broadcast use group_hash_axioms;

        let ghost start = self.emission(sink.history());
        if !self.submitted_tracks.contains(&id) {
            let code: i32 = sink.submit(
                Message::Event(
                    Event::Track(
                        Track {
                            name: name.to_owned(),
                            track_type: TrackType::Counter { id, unit: Some("%".to_owned()) },
                            parent: Some(TrackType::Thread { tid: thread.tid, pid: thread.pid }),
                        },
                    ),
                ),
            );
            if code != 0 {
                assert(self.emission(sink.history()) == counter_announced(
                    start,
                    name@,
                    id,
                    thread.pid,
                    thread.tid,
                    code,
                ));
                return code;
            }
            self.submitted_tracks.insert(id);
            assert(self.emission(sink.history()) == counter_announced(
                start,
                name@,
                id,
                thread.pid,
                thread.tid,
                code,
            ));
        }
        let ghost known = self.emission(sink.history());
        let whole: u64 = self.max_timestamp - thread.min_timestamp;
        let code: i32 = sink.submit(
            Message::Event(
                Event::Counter(
                    Counter {
                        name: name.to_owned(),
                        value: Reading::Percent { part, whole },
                        timestamp: thread.min_timestamp,
                        track_id: TrackId::Counter { id },
                        labels: Labels::new(),
                        unit: Some("%".to_owned()),
                    },
                ),
            ),
        );
        assert(self.emission(sink.history()) == share_sent(
            known,
            name@,
            id,
            part,
            whole,
            thread.min_timestamp,
            code,
        ));
        code
    }

    /// Reports a thread whose counters have the given ids.
    fn report_thread<S: MessageSink>(&mut self, at: usize, ids: (u64, u64), sink: &mut S) -> (code:
        i32)
        requires
            old(self).wf(),
            at < old(self).spec_threads().len(),
            old(self).spec_threads()[at as int].ids is Some ==> ids == old(
                self,
            ).spec_threads()[at as int].ids->0,
        ensures
            final(self).wf(),
            final(self).processors() == old(self).processors(),
            final(self).boundaries() == old(self).boundaries(),
            final(self).latest() == old(self).latest(),
            next_reported(
                old(self).emission(old(sink).history()),
                old(self).spec_threads(),
                0,
                at as int,
                old(self).latest(),
                final(self).emission(final(sink).history()),
                final(self).spec_threads(),
                code,
            ),
    {
        let ghost before = self.emission(sink.history());
        let thread: ThreadStats = self.threads[at];
        assert(self.spec_threads()[at as int].min_timestamp <= self.latest());
        self.threads[at] =
        ThreadStats {
            pid: thread.pid,
            tid: thread.tid,
            cpu_time_ns: thread.cpu_time_ns,
            kernel_time_ns: thread.kernel_time_ns,
            min_timestamp: thread.min_timestamp,
            ids: Some(ids),
        };
        assert(self.emission(sink.history()) == before);
        let first: i32 = self.report_counter(
            thread,
            "cpu_time",
            ids.0,
            thread.cpu_time_ns,
            sink,
        );
        let ghost middle = self.emission(sink.history());
        assert(counter_reported(
            before,
            thread,
            "cpu_time"@,
            ids.0,
            thread.cpu_time_ns,
            self.latest(),
            middle,
            first,
        ));
        if first != 0 {
            assert(thread_reported(
                before,
                thread,
                self.latest(),
                middle,
                self.spec_threads()[at as int],
                first,
            ));
            return first;
        }
        let code: i32 = self.report_counter(
            thread,
            "kernel_time",
            ids.1,
            thread.kernel_time_ns,
            sink,
        );
        let ghost after = self.emission(sink.history());
        if code != 0 {
            assert(thread_reported(
                before,
                thread,
                self.latest(),
                after,
                self.spec_threads()[at as int],
                code,
            ));
            return code;
        }
        let now: u64 = self.max_timestamp;
        self.threads[at] =
        ThreadStats {
            pid: thread.pid,
            tid: thread.tid,
            cpu_time_ns: 0,
            kernel_time_ns: 0,
            min_timestamp: now,
            ids: Some(ids),
        };
        proof {
            assert(self.emission(sink.history()) == after);
            assert(thread_reported(
                before,
                thread,
                self.latest(),
                after,
                self.spec_threads()[at as int],
                code,
            ));
            assert(self.spec_threads() =~= old(self).spec_threads().update(
                at as int,
                self.spec_threads()[at as int],
            ));
        }
        code
    }

    /// Reports all threads in turn, up to the first that is refused.
    fn report<S: MessageSink>(&mut self, sink: &mut S) -> (code: i32)
        requires
            old(self).wf(),
        ensures
            final(self).wf(),
            final(self).processors() == old(self).processors(),
            final(self).boundaries() == old(self).boundaries(),
            final(self).latest() == old(self).latest(),
            threads_reported(
                old(self).emission(old(sink).history()),
                old(self).spec_threads(),
                old(self).spec_threads().len() as int,
                old(self).latest(),
                final(self).emission(final(sink).history()),
                final(self).spec_threads(),
                code,
            ),
    {
        let ghost start = self.emission(sink.history());
        let ghost threads = self.spec_threads();
        let ghost now = self.latest();
        let total: usize = self.threads.len();
        let mut i: usize = 0;
        while i < total
            invariant
                i <= total == threads.len(),
                self.spec_threads().len() == total,
                self.wf(),
                self.processors() == old(self).processors(),
                self.boundaries() == old(self).boundaries(),
                self.latest() == old(self).latest(),
                now == self.latest(),
                threads == old(self).spec_threads(),
                start == old(self).emission(old(sink).history()),
                threads_reported(
                    start,
                    threads,
                    i as int,
                    now,
                    self.emission(sink.history()),
                    self.spec_threads(),
                    0,
                ),
            decreases total - i,
        {
            let ghost middle = self.emission(sink.history());
            let ghost list = self.spec_threads();
            let ids: (u64, u64) = match self.threads[i].ids {
                Some(ids) => ids,
                None => (random_u64(), random_u64()),
            };
            let code: i32 = self.report_thread(i, ids, sink);
            proof {
                assert(next_reported(
                    middle,
                    list,
                    0,
                    i + 1 - 1,
                    now,
                    self.emission(sink.history()),
                    self.spec_threads(),
                    code,
                ));
                assert(threads_reported(
                    start,
                    threads,
                    i + 1,
                    now,
                    self.emission(sink.history()),
                    self.spec_threads(),
                    code,
                ));
            }
            if code != 0 {
                proof {
                    lemma_refused(
                        start,
                        threads,
                        i + 1,
                        total as int,
                        now,
                        self.emission(sink.history()),
                        self.spec_threads(),
                        code,
                    );
                }
                return code;
            }
            i += 1;
        }
        0
    }

    /// Takes an event in. Once every processor has reported an interval, the
    /// threads are reported.
    pub fn handle_event<S: MessageSink>(&mut self, event: CpuEvent, sink: &mut S) -> (code: i32)
        requires
            old(self).wf(),
            old(self).fits(event),
        ensures
            final(self).wf(),
            final(self).processors() == old(self).processors(),
            final(self).latest() == latest_after(old(self).latest(), event),
            final(self).boundaries() == boundaries_after(
                old(self).boundaries(),
                old(self).processors(),
                event,
            ),
            event_handled(
                completes(old(self).boundaries(), old(self).processors(), event),
                event,
                final(self).latest(),
                old(self).spec_threads(),
                old(self).emission(old(sink).history()),
                final(self).spec_threads(),
                final(self).emission(final(sink).history()),
                code,
            ),
    {
        self.accumulate(event);
        if event.end_time > self.max_timestamp {
            self.max_timestamp = event.end_time;
        }
        proof {
            let at = thread_position(
                old(self).spec_threads(),
                event.tgid as i32,
                event.tid as i32,
            );
            lemma_thread_position(
                old(self).spec_threads(),
                event.tgid as i32,
                event.tid as i32,
            );
            assert forall|i: int| 0 <= i < self.spec_threads().len() implies (
            #[trigger] self.spec_threads()[i]).min_timestamp <= self.latest() by {
                if i < old(self).spec_threads().len() {
                    assert(old(self).spec_threads()[i].min_timestamp <= old(self).latest());
                }
            }
            assert(self.emission(sink.history()) == old(self).emission(old(sink).history()));
        }
        if event.boundary {
            self.boundaries_reported = self.boundaries_reported + 1;
            if self.boundaries_reported == self.nprocs {
                self.boundaries_reported = 0;
                assert(self.emission(sink.history()) == old(self).emission(old(sink).history()));
                return self.report(sink);
            }
        }
        0
    }
}

proof fn lemma_thread_position(threads: Seq<ThreadStats>, pid: i32, tid: i32)
    ensures
        0 <= thread_position(threads, pid, tid) <= threads.len(),
    decreases threads.len(),
{
    if threads.len() > 0 && !(threads[0].pid == pid && threads[0].tid == tid) {
        lemma_thread_position(threads.drop_first(), pid, tid);
    }
}

} // verus!

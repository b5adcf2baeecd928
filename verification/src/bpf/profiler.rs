//! Stack samples.

use super::error::{map_error, BpfError};
use super::wire::{read_u32, read_u64, u32_at, u64_at};
use crate::protocol::{
    CpuMode, Event, EventView, InternedData, Message, MessageView, Sample, StreamId, TrackId,
};
use crate::sink::MessageSink;
use crate::symbolizer::{
    named, sample_build, sample_cache, sample_data, symbolize, CacheView, Interned, Lookup,
    NamedAddress, ProcessConfig, Symbolizer,
};
use vstd::prelude::*;

verus! {

/// What to sample.
#[derive(Debug)]
pub struct ProfilerConfig {
    pub frequency: u64,
    pub kernel_samples: bool,
    pub user_samples: bool,
    pub pid_filters: Vec<i32>,
    pub filter_process: Vec<String>,
    pub debug_syms: bool,
    pub perf_map: bool,
    pub map_files: bool,
    pub ringbuf: usize,
}

impl Default for ProfilerConfig {
    fn default() -> (r: Self)
        ensures
            r.frequency == 0,
            !r.kernel_samples,
            !r.user_samples,
            r.pid_filters@.len() == 0,
            r.filter_process@.len() == 0,
            !r.debug_syms,
            !r.perf_map,
            !r.map_files,
            r.ringbuf == 0,
    {
        ProfilerConfig {
            frequency: 0,
            kernel_samples: false,
            user_samples: false,
            pid_filters: Vec::new(),
            filter_process: Vec::new(),
            debug_syms: false,
            perf_map: false,
            map_files: false,
            ringbuf: 0,
        }
    }
}

impl ProfilerConfig {
    /// What is sampled, and how, unless that is configured.
    pub fn preset() -> (r: Self)
        ensures
            r.frequency == 99,
            !r.kernel_samples,
            r.user_samples,
            r.pid_filters@.len() == 0,
            r.filter_process@.len() == 0,
            r.debug_syms,
            !r.perf_map,
            r.map_files,
            r.ringbuf == 256 * 1024,
    {
        ProfilerConfig {
            frequency: 99,
            kernel_samples: false,
            user_samples: true,
            pid_filters: Vec::new(),
            filter_process: Vec::new(),
            debug_syms: true,
            perf_map: false,
            map_files: true,
            ringbuf: 256 * 1024,
        }
    }

    /// How user addresses are looked up.
    pub fn process_config(&self) -> (r: ProcessConfig)
        ensures
            r == (ProcessConfig {
                debug_syms: self.debug_syms,
                perf_map: self.perf_map,
                map_files: self.map_files,
            }),
    {
        ProcessConfig {
            debug_syms: self.debug_syms,
            perf_map: self.perf_map,
            map_files: self.map_files,
        }
    }
}

/// What the kernel program is loaded with.
#[derive(Debug, Clone, Copy, PartialEq, Eq, Structural)]
pub struct ProfilerPlan {
    pub ringbuf_entries: u32,
    pub filter_tgid: bool,
    pub collect_kstack: bool,
    pub collect_ustack: bool,
}

/// Makes the plan for a configuration.
pub fn plan_profiler(config: &ProfilerConfig) -> (r: ProfilerPlan)
    ensures
        r == (ProfilerPlan {
            ringbuf_entries: config.ringbuf as u32,
            filter_tgid: config.pid_filters@.len() > 0 || config.filter_process@.len() > 0,
            collect_kstack: config.kernel_samples,
            collect_ustack: config.user_samples,
        }),
{
    ProfilerPlan {
        ringbuf_entries: config.ringbuf as u32,
        filter_tgid: config.pid_filters.len() > 0 || config.filter_process.len() > 0,
        collect_kstack: config.kernel_samples,
        collect_ustack: config.user_samples,
    }
}

/// A sample; a negative number of a stack says that there is none.
#[derive(Debug, Clone, Copy, PartialEq, Eq, Structural)]
pub struct PerfEvent {
    pub timestamp: u64,
    pub tgid: u32,
    pub pid: u32,
    pub cpu_id: u32,
    pub ustack_id: i32,
    pub kstack_id: i32,
}

impl PerfEvent {
    /// The event that lies in `data`.
    pub open spec fn in_bytes(data: Seq<u8>) -> PerfEvent {
        PerfEvent {
            timestamp: u64_at(data, 0),
            tgid: u32_at(data, 8),
            pid: u32_at(data, 12),
            cpu_id: u32_at(data, 16),
            ustack_id: u32_at(data, 20) as i32,
            kstack_id: u32_at(data, 24) as i32,
        }
    }

    pub fn from_bytes(data: &[u8]) -> (r: Result<Self, BpfError>)
        ensures
            match r {
                Ok(event) => data@.len() >= 32 && event == Self::in_bytes(data@),
                Err(e) => data@.len() < 32 && e.is_map("failed to parse perf event: TooShort"@),
            },
    {
        if data.len() < 32 {
            return Err(map_error("failed to parse perf event: TooShort"));
        }
        Ok(
            PerfEvent {
                timestamp: read_u64(data, 0),
                tgid: read_u32(data, 8),
                pid: read_u32(data, 12),
                cpu_id: read_u32(data, 16),
                ustack_id: read_u32(data, 20) as i32,
                kstack_id: read_u32(data, 24) as i32,
            },
        )
    }

    /// Which stacks are to be fetched: that of the user, and that of the kernel.
    pub fn stacks(&self) -> (r: (bool, bool))
        ensures
            r == (self.ustack_id >= 0, self.kstack_id >= 0),
    {
        (self.ustack_id >= 0, self.kstack_id >= 0)
    }
}

/// The frames up to the last that is not zero; of nothing but zeros, the first.
pub open spec fn trimmed(frames: Seq<u64>) -> Seq<u64>
    decreases frames.len(),
{
    if frames.len() <= 1 || frames.last() != 0 {
        frames
    } else {
        trimmed(frames.drop_last())
    }
}

/// The frames of a stack as the kernel hands them out, filled up with zeros; a stack
/// that the kernel does not have has none.
pub fn stack_frames(found: Option<Vec<u64>>) -> (r: Vec<u64>)
    ensures
        r@ == match found {
            Some(frames) => trimmed(frames@),
            None => seq![],
        },
{
    let mut frames: Vec<u64> = match found {
        Some(frames) => frames,
        None => {
            return Vec::new();
        },
    };
    let ghost all = frames@;
    while frames.len() > 1 && frames[frames.len() - 1] == 0
        invariant
            trimmed(frames@) == trimmed(all),
        decreases frames@.len(),
    {
        let ghost before = frames@;
        let _ = frames.pop();
        assert(frames@ =~= before.drop_last());
    }
    frames
}

/// What a sample says.
pub open spec fn sample_of(event: PerfEvent, callstack_iid: u64) -> Sample {
    Sample {
        cpu: event.cpu_id,
        track_id: TrackId::Thread { tid: event.pid as i32, pid: event.tgid as i32 },
        timestamp: event.timestamp,
        callstack_iid,
        cpu_mode: CpuMode::Unknown,
    }
}

pub fn create_sample(event: &PerfEvent, callstack_iid: u64) -> (r: Sample)
    ensures
        r == sample_of(*event, callstack_iid),
{
    Sample {
        cpu: event.cpu_id,
        track_id: TrackId::Thread { tid: event.pid as i32, pid: event.tgid as i32 },
        timestamp: event.timestamp,
        callstack_iid,
        cpu_mode: CpuMode::Unknown,
    }
}

/// The addresses of a stack with their names, if their lookup succeeded; nothing
/// is looked up for an empty stack.
pub open spec fn looked_up(addresses: Seq<u64>, lookup: Lookup) -> Option<Seq<NamedAddress>> {
    if addresses.len() == 0 {
        Some(seq![])
    } else {
        match lookup {
            Ok(symbols) => Some(named(addresses, symbols@)),
            Err(_) => None,
        }
    }
}

/// Whether a sample is sent: it has a stack, its lookups succeeded, and they gave
/// something.
pub open spec fn is_sent(
    ustack: Seq<u64>,
    kstack: Seq<u64>,
    user_lookup: Lookup,
    kernel_lookup: Lookup,
) -> bool {
    &&& ustack.len() > 0 || kstack.len() > 0
    &&& ustack.len() > 0 ==> user_lookup is Ok
    &&& kstack.len() > 0 ==> kernel_lookup is Ok
    &&& (ustack.len() > 0 && user_lookup->Ok_0@.len() > 0) || (kstack.len() > 0
        && kernel_lookup->Ok_0@.len() > 0)
}

/// A profiler: what has been interned, and the stream its samples are sent on.
#[derive(Debug)]
pub struct Profiler {
    pub symbolizer: Symbolizer,
    pub stream_id: StreamId,
}

/// The cache after a sample of an event.
pub open spec fn event_cache(
    cache: CacheView,
    event: PerfEvent,
    user: Seq<NamedAddress>,
    kernel: Seq<NamedAddress>,
) -> CacheView {
    sample_cache(cache, event.tgid as i32, user, kernel)
}

/// The messages of a sample: what it has that was not described before, and the
/// sample.
pub open spec fn sample_messages(
    stream_id: StreamId,
    cache: CacheView,
    event: PerfEvent,
    user: Seq<NamedAddress>,
    kernel: Seq<NamedAddress>,
) -> Seq<MessageView> {
    let pid = event.tgid as i32;
    let b = sample_build(cache, pid, user, kernel);
    let sample = MessageView::Stream {
        stream_id,
        event: EventView::Sample(sample_of(event, b.cache.callstack_id(b.frame_ids))),
    };
    match sample_data(cache, pid, user, kernel) {
        Some(data) => seq![
            MessageView::Stream { stream_id, event: EventView::InternedData(data) },
            sample,
        ],
        None => seq![sample],
    }
}

impl Profiler {
    pub fn new(config: &ProfilerConfig, stream_id: StreamId) -> (r: Self)
        ensures
            r.stream_id == stream_id,
            r.symbolizer.cfg == (ProcessConfig {
                debug_syms: config.debug_syms,
                perf_map: config.perf_map,
                map_files: config.map_files,
            }),
            r.symbolizer.cache@ == crate::symbolizer::CacheView::empty(),
            r.symbolizer.cache@.wf(),
    {
        Profiler { symbolizer: Symbolizer::new(config.process_config()), stream_id }
    }

    /// Sends a sample, given its stacks and what their lookups gave. Returns the
    /// number that came back for a refused message, or zero; a sample that cannot
    /// be looked up is passed over.
    pub fn handle_event<S: MessageSink>(
        &mut self,
        event: &PerfEvent,
        ustack: Vec<u64>,
        kstack: Vec<u64>,
        user_lookup: Lookup,
        kernel_lookup: Lookup,
        sink: &mut S,
    ) -> (code: i32)
        requires
            old(self).symbolizer.cache@.wf(),
            old(self).symbolizer.cache@.has_room((ustack@.len() + kstack@.len()) as int),
        ensures
            final(self).symbolizer.cache@.wf(),
            final(self).symbolizer.cfg == old(self).symbolizer.cfg,
            final(self).stream_id == old(self).stream_id,
            ({
                let sent = is_sent(ustack@, kstack@, user_lookup, kernel_lookup);
                let before = old(self).symbolizer.cache@;
                if sent {
                    let user = looked_up(ustack@, user_lookup)->0;
                    let kernel = looked_up(kstack@, kernel_lookup)->0;
                    &&& final(self).symbolizer.cache@ == event_cache(before, *event, user, kernel)
                    &&& crate::sink::delivered(
                        old(sink).history(),
                        sample_messages(old(self).stream_id, before, *event, user, kernel),
                        final(sink).history(),
                        code != 0,
                    )
                    &&& code == final(sink).history().last().1
                } else {
                    &&& final(self).symbolizer.cache@ == before
                    &&& final(sink).history() == old(sink).history()
                    &&& code == 0
                }
            }),
    {
        let ghost past = sink.history();
        let ghost cache = self.symbolizer.cache@;
        let pid: i32 = event.tgid as i32;
        let ghost users = ustack@;
        let ghost kernels = kstack@;
        let interned: Interned = match symbolize(pid, ustack, kstack, user_lookup, kernel_lookup) {
            Ok(interned) => interned,
            Err(_) => {
                return 0;
            },
        };
        proof {
            assert(interned.user() =~= looked_up(users, user_lookup)->0);
            assert(interned.kernel() =~= looked_up(kernels, kernel_lookup)->0);
        }
        let (callstack_iid, data): (u64, Option<InternedData>) = interned.data(
            &mut self.symbolizer.cache,
        );
        let ghost all = sample_messages(
            self.stream_id,
            cache,
            *event,
            interned.user(),
            interned.kernel(),
        );
        assert(past.take(past.len() as int) =~= past);
        if let Some(interned_data) = data {
            let code: i32 = sink.submit(
                Message::Stream {
                    stream_id: self.stream_id,
                    event: Event::InternedData(interned_data),
                },
            );
            proof {
                assert(sink.history() == past.push((all[0], code)));
                assert(sink.history().take(past.len() as int) =~= past);
            }
            if code != 0 {
                return code;
            }
        }
        let ghost middle = sink.history();
        let sample: Sample = create_sample(event, callstack_iid);
        let code: i32 = sink.submit(
            Message::Stream { stream_id: self.stream_id, event: Event::Sample(sample) },
        );
        proof {
            assert(sink.history() == middle.push((all.last(), code)));
            assert(sink.history().take(past.len() as int) =~= past);
        }
        code
    }
}

} // verus!

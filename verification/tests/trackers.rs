use kinetrace::bpf::cpuutil::{plan_filter, CpuEvent, CpuUtil, CpuUtilConfig};
use kinetrace::bpf::error::BpfError;
use kinetrace::bpf::perfcounter::{
    format_track_name, CounterConfig, DerivedCounter, PerfCounter, PerfCounterConfig,
    PerfCounterEvent, MAX_PERF_COUNTERS, PERF_COUNT_HW_CPU_CYCLES, PERF_COUNT_SW_PAGE_FAULTS,
    PERF_TYPE_HARDWARE, PERF_TYPE_RAW, PERF_TYPE_SOFTWARE,
};
use kinetrace::bpf::profiler::{
    create_sample, plan_profiler, stack_frames, PerfEvent, Profiler, ProfilerConfig,
};
use kinetrace::bpf::schedtrace::{
    resolve_kernel_symbol, runnable_reason, span_name, SchedSpanEvent, SchedTrace,
    SchedTraceConfig, RUNNABLE_REASON_PREEMPTED, RUNNABLE_REASON_STILL_RUNNING,
    RUNNABLE_REASON_WAKEUP,
};
use kinetrace::protocol::{Event, Message, Reading, TrackId, TrackType};
use kinetrace::sink::MessageLog;

#[test]
fn test_config_validation() {
    let mut config = PerfCounterConfig::default();
    assert!(config.validate().is_err());

    config
        .counters
        .push(CounterConfig::Named("cpu-cycles".to_string()));
    let result = config.validate();
    assert!(result.is_ok());
    let (derived_info, _is_derived_only) = result.unwrap();
    assert_eq!(derived_info.len(), 0);

    let mut config2 = PerfCounterConfig::default();
    config2
        .counters
        .push(CounterConfig::Named("unknown-counter".to_string()));
    assert!(config2.validate().is_err());

    let mut config3 = PerfCounterConfig::default();
    config3.counters.push(CounterConfig::Custom {
        name: "my-custom-counter".to_string(),
        perf_type: PERF_TYPE_RAW,
        config: 0x1234,
    });
    assert!(config3.validate().is_ok());

    let mut config4 = PerfCounterConfig::default();
    for _i in 0..=MAX_PERF_COUNTERS {
        config4
            .counters
            .push(CounterConfig::Named("cpu-cycles".to_string()));
    }
    assert!(config4.validate().is_err());
}

fn load_text(error: BpfError) -> String {
    match error {
        BpfError::LoadError(text) => text,
        other => panic!("unexpected error: {:?}", other),
    }
}

#[test]
fn counter_problems_are_named() {
    let mut config = PerfCounterConfig::default();
    assert_eq!(
        load_text(config.validate().unwrap_err()),
        "no performance counters configured"
    );
    for _ in 0..5 {
        config.counters.push(CounterConfig::Named("ipc".to_string()));
    }
    assert_eq!(
        load_text(config.validate().unwrap_err()),
        "too many performance counters: 10 (max: 8)"
    );
    let mut config = PerfCounterConfig::preset();
    assert_eq!(config.frequency, 9);
    config.counters.push(CounterConfig::Named("bogus".to_string()));
    assert_eq!(
        load_text(config.validate().unwrap_err()),
        "unknown performance counter: bogus"
    );
}

#[test]
fn test_ipc_expansion() {
    let mut config = PerfCounterConfig::default();
    config
        .counters
        .push(CounterConfig::Named("ipc".to_string()));

    assert_eq!(config.counters.len(), 1);
    let (derived_info, _is_derived_only) = config.expand_counters().unwrap();
    assert_eq!(config.counters.len(), 2);
    assert_eq!(derived_info.len(), 1);

    match &config.counters[0] {
        CounterConfig::Named(name) => assert_eq!(name, "cpu-cycles"),
        _ => panic!("Expected Named variant"),
    }
    match &config.counters[1] {
        CounterConfig::Named(name) => assert_eq!(name, "cpu-instructions"),
        _ => panic!("Expected Named variant"),
    }

    let (name, derived) = &derived_info[0];
    assert_eq!(name, "ipc");
    match derived {
        DerivedCounter::Ipc {
            cycles_idx,
            instructions_idx,
        } => {
            assert_eq!(*cycles_idx, 0);
            assert_eq!(*instructions_idx, 1);
        }
    }
}

#[test]
fn test_track_name_formatting() {
    assert_eq!(format_track_name("ipc", 0, 24), "ipc #00");
    assert_eq!(format_track_name("ipc", 1, 24), "ipc #01");
    assert_eq!(format_track_name("ipc", 9, 24), "ipc #09");
    assert_eq!(format_track_name("ipc", 10, 24), "ipc #10");
    assert_eq!(format_track_name("ipc", 23, 24), "ipc #23");

    assert_eq!(format_track_name("ipc", 0, 8), "ipc #0");
    assert_eq!(format_track_name("ipc", 7, 8), "ipc #7");

    assert_eq!(format_track_name("cpu-cycles", 0, 100), "cpu-cycles #00");
    assert_eq!(format_track_name("cpu-cycles", 9, 100), "cpu-cycles #09");
    assert_eq!(format_track_name("cpu-cycles", 99, 100), "cpu-cycles #99");

    assert_eq!(
        format_track_name("page-faults", 0, 1000),
        "page-faults #000"
    );
    assert_eq!(
        format_track_name("page-faults", 99, 1000),
        "page-faults #099"
    );
    assert_eq!(
        format_track_name("page-faults", 999, 1000),
        "page-faults #999"
    );
}

#[test]
fn test_counter_to_perf_config() {
    let counter = CounterConfig::Named("cpu-cycles".to_string());
    let (name, perf_type, config) = counter.to_perf_config().unwrap();
    assert_eq!(name, "cpu-cycles");
    assert_eq!(perf_type, PERF_TYPE_HARDWARE);
    assert_eq!(config, PERF_COUNT_HW_CPU_CYCLES);

    let counter2 = CounterConfig::Named("page-faults".to_string());
    let (name, perf_type, config) = counter2.to_perf_config().unwrap();
    assert_eq!(name, "page-faults");
    assert_eq!(perf_type, PERF_TYPE_SOFTWARE);
    assert_eq!(config, PERF_COUNT_SW_PAGE_FAULTS);
}

#[test]
fn every_counter_name_has_its_number() {
    for (name, perf_type, config) in [
        ("cpu-instructions", 0, 1),
        ("instructions", 0, 1),
        ("cache-references", 0, 2),
        ("cache-misses", 0, 3),
        ("branch-instructions", 0, 4),
        ("branches", 0, 4),
        ("branch-misses", 0, 5),
        ("stalled-cycles-frontend", 0, 7),
        ("stalled-cycles-backend", 0, 8),
        ("cpu-clock", 1, 0),
        ("task-clock", 1, 1),
        ("faults", 1, 2),
        ("context-switches", 1, 3),
        ("cs", 1, 3),
        ("cpu-migrations", 1, 4),
        ("migrations", 1, 4),
        ("minor-faults", 1, 5),
        ("major-faults", 1, 6),
    ] {
        let counter = CounterConfig::Named(name.to_string());
        let (_, t, c) = counter.to_perf_config().unwrap();
        assert_eq!((t, c), (perf_type, config), "{}", name);
    }
}

fn ipc_and_faults() -> PerfCounter {
    PerfCounter::new(
        PerfCounterConfig {
            frequency: 9,
            counters: vec![
                CounterConfig::Named("ipc".to_string()),
                CounterConfig::Named("faults".to_string()),
            ],
            ringbuf: 4096,
        },
        3,
    )
    .unwrap()
}

#[test]
fn counter_tracks_are_announced_per_processor() {
    let counters = ipc_and_faults();
    let mut log = MessageLog::new(100);
    assert!(counters.announce(2, &mut log).is_ok());
    assert_eq!(log.messages().len(), 4);
    match &log.messages()[3] {
        Message::Stream { stream_id: 3, event: Event::Track(track) } => {
            assert_eq!(track.name, "ipc #1");
            assert!(matches!(
                track.track_type,
                TrackType::Counter { id: 0x1_0000_0003, unit: None }
            ));
            assert!(matches!(track.parent, Some(TrackType::Cpu { cpu: 1 })));
        }
        _ => panic!("no track"),
    }
    let mut small = MessageLog::new(1);
    assert_eq!(
        load_text(counters.announce(2, &mut small).unwrap_err()),
        "callback terminated"
    );
}

#[test]
fn counter_plans_place_every_event() {
    let plan = ipc_and_faults().plan(4096, 2);
    assert_eq!(plan.map_entries, 6);
    assert_eq!(plan.counter_count, 3);
    assert_eq!(plan.events.len(), 3);
    assert_eq!(plan.events[1][1].index, 4);
    assert_eq!(plan.events[1][1].name, "cpu-instructions");
    assert_eq!(plan.events[2][0].perf_type, PERF_TYPE_SOFTWARE);
}

fn value(message: &Message) -> (u64, Reading) {
    match message {
        Message::Stream { event: Event::Counter(c), .. } => match c.track_id {
            TrackId::Counter { id } => (id, c.value),
            _ => panic!("no counter id"),
        },
        _ => panic!("no counter"),
    }
}

#[test]
fn counters_are_sent_as_what_they_advanced() {
    let mut counters = ipc_and_faults();
    let mut log = MessageLog::new(100);
    let mut event = PerfCounterEvent {
        timestamp: 1,
        cpu_id: 1,
        padding: 0,
        counters: [100, 200, 7, 0, 0, 0, 0, 0],
    };
    assert_eq!(counters.handle_event(&event, &mut log), 0);
    assert!(matches!(value(&log.messages()[0]), (0x1_0000_0002, Reading::Count { n: 0 })));
    assert!(matches!(value(&log.messages()[1]), (0x1_0000_0003, Reading::Count { n: 0 })));
    event.counters = [150, 300, 9, 0, 0, 0, 0, 0];
    assert_eq!(counters.handle_event(&event, &mut log), 0);
    assert!(matches!(value(&log.messages()[2]), (_, Reading::Count { n: 2 })));
    assert!(matches!(value(&log.messages()[3]), (_, Reading::Ratio { part: 100, whole: 50 })));
    event.counters = [150, 300, 4, 0, 0, 0, 0, 0];
    let mut full = MessageLog::new(0);
    assert_eq!(counters.handle_event(&event, &mut full), 1);
    assert_eq!(counters.handle_event(&event, &mut log), 0);
    assert!(matches!(value(&log.messages()[4]), (_, Reading::Count { n: 4 })));
    assert!(matches!(value(&log.messages()[5]), (_, Reading::Count { n: 0 })));
}

#[test]
fn counter_events_are_read() {
    let mut data = vec![0u8; 80];
    data[0] = 5;
    data[8] = 2;
    data[72] = 9;
    let event = PerfCounterEvent::from_bytes(&data).unwrap();
    assert_eq!((event.timestamp, event.cpu_id, event.counters[7]), (5, 2, 9));
    match PerfCounterEvent::from_bytes(&data[..79]) {
        Err(BpfError::MapError(text)) => {
            assert_eq!(text, "failed to parse perf counter event: TooShort")
        }
        _ => panic!("no error"),
    }
}

#[test]
fn event_layout_matches_bpf_structure() {
    assert_eq!(std::mem::size_of::<SchedSpanEvent>(), 48);
}

#[test]
fn runnable_reasons_are_stable_trace_labels() {
    assert_eq!(
        runnable_reason(RUNNABLE_REASON_PREEMPTED),
        Some("preempted")
    );
    assert_eq!(
        runnable_reason(RUNNABLE_REASON_STILL_RUNNING),
        Some("still_running")
    );
    assert_eq!(runnable_reason(RUNNABLE_REASON_WAKEUP), Some("wakeup"));
    assert_eq!(runnable_reason(0), None);
}

fn sched_bytes() -> Vec<u8> {
    let mut data = vec![0u8; 48];
    data[0] = 10;
    data[4] = 11;
    data[8] = 100;
    data[16] = 150;
    data[24] = 3;
    data[28] = 1;
    data[32] = 0xef;
    data[33] = 0xbe;
    data[40] = 3;
    data[44] = 2;
    data
}

#[test]
fn scheduler_spans_are_sent_on_the_track_of_their_thread() {
    match SchedSpanEvent::from_bytes(&[0u8; 47]) {
        Err(BpfError::MapError(text)) => {
            assert_eq!(text, "failed to parse sched span event: TooShort")
        }
        _ => panic!("no error"),
    }
    let event = SchedSpanEvent::from_bytes(&sched_bytes()).unwrap();
    assert!(event.needs_symbol());
    assert_eq!(span_name(&event, None), "blocked [0xbeef]");
    assert_eq!(span_name(&event, Some("io_schedule")), "blocked [io_schedule]");
    let mut trace = SchedTrace::new();
    let mut log = MessageLog::new(10);
    assert_eq!(trace.handle_event(&event, None, &mut log), 0);
    assert_eq!(trace.handle_event(&event, None, &mut log), 0);
    assert_eq!(log.messages().len(), 3);
    let id = match &log.messages()[0] {
        Message::Event(Event::Track(track)) => {
            assert_eq!(track.name, "scheduler");
            assert!(matches!(track.parent, Some(TrackType::Thread { tid: 11, pid: 10 })));
            match track.track_type {
                TrackType::Custom { id } => id,
                _ => panic!("no custom track"),
            }
        }
        _ => panic!("no track"),
    };
    for message in &log.messages()[1..] {
        match message {
            Message::Event(Event::Span(span)) => {
                assert_eq!(span.track_id, TrackId::Custom { id });
                assert_eq!(span.span_id, 100);
                assert_eq!(
                    span.labels.ints,
                    vec![("cpu".to_string(), 3), ("task_state".to_string(), 2)]
                );
                assert_eq!(
                    span.labels.strings,
                    vec![("reason".to_string(), "wakeup".to_string())]
                );
            }
            _ => panic!("no span"),
        }
    }
    let running = SchedSpanEvent { event_type: 0, reason: 0, ..event };
    assert_eq!(span_name(&running, None), "running");
    assert_eq!(span_name(&SchedSpanEvent { event_type: 2, ..event }, None), "runnable");
    assert_eq!(span_name(&SchedSpanEvent { frame: 0, ..event }, Some("x")), "blocked");
    let mut full = MessageLog::new(0);
    assert_eq!(trace.handle_event(&running, None, &mut full), 1);
}

#[test]
fn the_first_symbol_counts() {
    assert_eq!(
        resolve_kernel_symbol(Ok(vec![None, Some("a".to_string()), Some("b".to_string())])),
        Some("a".to_string())
    );
    assert_eq!(resolve_kernel_symbol(Ok(vec![])), None);
    assert_eq!(resolve_kernel_symbol(Err("gone".to_string())), None);
}

#[test]
fn tracker_presets() {
    let cpu = CpuUtilConfig::default();
    assert_eq!((cpu.frequency, cpu.ringbuf), (9, 1024 * 1024));
    let plan = plan_filter(cpu.ringbuf, &vec![1], &cpu.filter_process);
    assert!(plan.filter_enabled);
    assert!(!plan_filter(1, &vec![], &vec![]).filter_enabled);
    assert_eq!(SchedTraceConfig::default().ringbuf, 2 * 1024 * 1024);
    let profiler = ProfilerConfig::preset();
    assert_eq!(profiler.frequency, 99);
    let plan = plan_profiler(&profiler);
    assert!(plan.collect_ustack && !plan.collect_kstack && !plan.filter_tgid);
    assert!(profiler.process_config().map_files);
    assert_eq!(ProfilerConfig::default().frequency, 0);
}

fn cpu_event(tid: u32, start: u64, end: u64, kernel: u64, boundary: bool) -> CpuEvent {
    CpuEvent {
        tid,
        tgid: 1,
        end_time: end,
        kernel_time_ns: kernel,
        start_time: start,
        cpu: 0,
        boundary,
    }
}

#[test]
fn threads_are_reported_once_all_processors_have_reported() {
    let mut util = CpuUtil::new(2);
    let mut log = MessageLog::new(100);
    assert_eq!(util.handle_event(cpu_event(5, 100, 150, 10, false), &mut log), 0);
    assert_eq!(util.handle_event(cpu_event(5, 160, 180, 5, true), &mut log), 0);
    assert_eq!(log.messages().len(), 0);
    assert_eq!(util.handle_event(cpu_event(0, 0, 200, 0, true), &mut log), 0);
    assert_eq!(log.messages().len(), 4);
    match &log.messages()[1] {
        Message::Event(Event::Counter(c)) => {
            assert_eq!(c.name, "cpu_time");
            assert_eq!(c.timestamp, 100);
            assert!(matches!(c.value, Reading::Percent { part: 70, whole: 100 }));
        }
        _ => panic!("no counter"),
    }
    match &log.messages()[3] {
        Message::Event(Event::Counter(c)) => {
            assert_eq!(c.name, "kernel_time");
            assert!(matches!(c.value, Reading::Percent { part: 15, whole: 100 }));
        }
        _ => panic!("no counter"),
    }
    util.handle_event(cpu_event(0, 0, 300, 0, true), &mut log);
    util.handle_event(cpu_event(0, 0, 300, 0, true), &mut log);
    assert_eq!(log.messages().len(), 6);
    match &log.messages()[4] {
        Message::Event(Event::Counter(c)) => {
            assert_eq!(c.timestamp, 200);
            assert!(matches!(c.value, Reading::Percent { part: 0, whole: 100 }));
        }
        _ => panic!("no counter"),
    }
}

#[test]
fn a_refused_report_keeps_the_time() {
    let mut util = CpuUtil::new(1);
    let mut full = MessageLog::new(0);
    assert_eq!(util.handle_event(cpu_event(5, 100, 150, 10, true), &mut full), 1);
    let mut log = MessageLog::new(100);
    assert_eq!(util.handle_event(cpu_event(0, 0, 200, 0, true), &mut log), 0);
    match &log.messages()[1] {
        Message::Event(Event::Counter(c)) => {
            assert!(matches!(c.value, Reading::Percent { part: 50, whole: 100 }));
        }
        _ => panic!("no counter"),
    }
}

#[test]
fn cpu_events_are_read() {
    let mut data = vec![0u8; 40];
    data[0] = 1;
    data[4] = 2;
    data[8] = 3;
    data[16] = 4;
    data[24] = 5;
    data[32] = 6;
    data[36] = 1;
    let event = CpuEvent::from_bytes(&data).unwrap();
    assert_eq!(event.tid, 1);
    assert_eq!(event.start_time, 5);
    assert!(event.boundary);
    match CpuEvent::from_bytes(&data[..39]) {
        Err(BpfError::MapError(text)) => assert_eq!(text, "failed to parse cpu event: TooShort"),
        _ => panic!("no error"),
    }
}

#[test]
fn stacks_end_at_the_last_frame() {
    assert_eq!(stack_frames(Some(vec![1, 0, 2, 0, 0])), vec![1, 0, 2]);
    assert_eq!(stack_frames(Some(vec![0, 0, 0])), vec![0]);
    assert_eq!(stack_frames(Some(vec![])), Vec::<u64>::new());
    assert_eq!(stack_frames(None), Vec::<u64>::new());
}

#[test]
fn samples_are_described_once() {
    let mut data = vec![0u8; 32];
    data[0] = 7;
    data[8] = 20;
    data[12] = 21;
    data[16] = 2;
    data[24..28].copy_from_slice(&(-1i32).to_le_bytes());
    let event = PerfEvent::from_bytes(&data).unwrap();
    assert_eq!(event.stacks(), (true, false));
    match PerfEvent::from_bytes(&data[..31]) {
        Err(BpfError::MapError(text)) => assert_eq!(text, "failed to parse perf event: TooShort"),
        _ => panic!("no error"),
    }
    let mut profiler = Profiler::new(&ProfilerConfig::preset(), 4);
    let mut log = MessageLog::new(10);
    let names = || Ok(vec![Some("leaf".to_string()), None]);
    let none = || Ok(vec![]);
    assert_eq!(
        profiler.handle_event(&event, vec![0x10, 0x20], vec![], names(), none(), &mut log),
        0
    );
    assert_eq!(
        profiler.handle_event(&event, vec![0x10, 0x20], vec![], names(), none(), &mut log),
        0
    );
    assert_eq!(log.messages().len(), 3);
    match &log.messages()[0] {
        Message::Stream { stream_id: 4, event: Event::InternedData(data) } => {
            assert_eq!(data.frames.len(), 2);
            assert_eq!(data.frames[0].rel_pc, 0x20);
            assert_eq!(data.callstacks[0].frame_ids, vec![0, 1]);
            assert!(!data.continuation);
        }
        _ => panic!("no interned data"),
    }
    match &log.messages()[2] {
        Message::Stream { event: Event::Sample(sample), .. } => {
            assert_eq!(*sample, create_sample(&event, 0));
            assert_eq!(sample.track_id, TrackId::Thread { tid: 21, pid: 20 });
        }
        _ => panic!("no sample"),
    }
    assert_eq!(
        profiler.handle_event(&event, vec![], vec![], none(), none(), &mut log),
        0
    );
    assert_eq!(
        profiler.handle_event(&event, vec![1], vec![], Err("x".to_string()), none(), &mut log),
        0
    );
    assert_eq!(log.messages().len(), 3);
}

#[test]
fn times_that_do_not_fit_are_seen() {
    let mut util = CpuUtil::new(2);
    let mut log = MessageLog::new(100);
    assert!(!util.can_take(&cpu_event(3, 20, 10, 0, false)));
    assert!(util.can_take(&cpu_event(0, 20, 10, 0, false)));
    assert!(util.can_take(&cpu_event(3, 1, u64::MAX, 7, false)));
    util.handle_event(cpu_event(3, 1, u64::MAX, 7, false), &mut log);
    assert!(util.can_take(&cpu_event(3, 5, 6, 0, false)));
    assert!(!util.can_take(&cpu_event(3, 5, 7, 0, false)));
    assert!(!util.can_take(&cpu_event(3, 5, 5, u64::MAX - 6, false)));
    assert!(util.can_take(&cpu_event(4, 5, 7, 0, false)));
}

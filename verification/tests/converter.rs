use kinetrace::archived::{
    ArchivedCallstack, ArchivedCounter, ArchivedEvent, ArchivedFrame, ArchivedI32, ArchivedI64,
    ArchivedInstant, ArchivedInternedData, ArchivedInternedString, ArchivedLabels,
    ArchivedMapping, ArchivedMessage, ArchivedSample, ArchivedSpan, ArchivedTrack,
    ArchivedTrackId, ArchivedTrackType, ArchivedU16, ArchivedU32, ArchivedU64,
};
use kinetrace::converter::PerfettoConverter;
use kinetrace::perfetto::packet::{
    CounterValue, DebugValue, EventType, PacketData, SequenceFlags, TracePacket, TrackKind,
};
use kinetrace::perfetto::writer::{PacketBuffer, PerfettoStreamWriter};
use kinetrace::protocol::{
    Callstack, Counter, CpuMode, Event, Frame, Instant, InternedData, InternedString, Labels,
    Mapping, Message, Reading, Sample, Span, Track, TrackId, TrackType,
};

fn converter(capacity: usize) -> PerfettoConverter<PacketBuffer> {
    PerfettoConverter::new(PacketBuffer::new(capacity))
}

fn packets(c: &PerfettoConverter<PacketBuffer>) -> &Vec<TracePacket> {
    c.inner().packets()
}

fn track(name: &str, track_type: TrackType, parent: Option<TrackType>) -> Message {
    Message::Event(Event::Track(Track { name: name.to_string(), track_type, parent }))
}

fn span(track_id: TrackId, labels: Labels) -> Message {
    Message::Event(Event::Span(Span {
        name: "work".to_string(),
        span_id: 1,
        start_timestamp: 10,
        end_timestamp: 20,
        track_id,
        labels,
    }))
}

fn counter(id: u64, value: Reading) -> Message {
    Message::Event(Event::Counter(Counter {
        name: "c".to_string(),
        value,
        timestamp: 5,
        track_id: TrackId::Counter { id },
        labels: Labels::new(),
        unit: None,
    }))
}

#[test]
fn a_thread_comes_after_its_process() {
    let mut c = converter(10);
    assert!(c
        .convert_message(&span(TrackId::Thread { tid: 7, pid: 6 }, Labels::new()))
        .is_ok());
    assert_eq!(packets(&c).len(), 4);
    match &packets(&c)[0].data {
        PacketData::TrackDescriptor(d) => {
            assert_eq!(d.uuid, 1000);
            assert!(matches!(&d.kind, TrackKind::Process(p) if p.pid == 6));
        }
        _ => panic!("no descriptor"),
    }
    match &packets(&c)[1].data {
        PacketData::TrackDescriptor(d) => {
            assert_eq!((d.uuid, d.parent_uuid), (1001, Some(1000)));
            assert!(matches!(&d.kind, TrackKind::Thread(t) if t.tid == 7 && t.pid == 6));
        }
        _ => panic!("no descriptor"),
    }
    match &packets(&c)[2].data {
        PacketData::TrackEvent(e) => {
            assert_eq!(e.track_uuid, 1001);
            assert_eq!(e.event_type, EventType::SliceBegin);
            assert_eq!(e.name.as_deref(), Some("work"));
        }
        _ => panic!("no event"),
    }
    assert_eq!(packets(&c)[2].timestamp, Some(10));
    assert_eq!(packets(&c)[3].timestamp, Some(20));
    assert_eq!(packets(&c)[3].sequence_id, u32::MAX);
    assert!(c
        .convert_message(&span(TrackId::Thread { tid: 7, pid: 6 }, Labels::new()))
        .is_ok());
    assert_eq!(packets(&c).len(), 6);
    assert!(c.flush().is_ok());
}

#[test]
fn tracks_are_described_once_and_counters_need_one() {
    let mut c = converter(20);
    c.convert_message(&counter(9, Reading::Count { n: 1 })).unwrap();
    assert_eq!(packets(&c).len(), 0);
    let announce = || {
        track(
            "load",
            TrackType::Counter { id: 9, unit: Some("%".to_string()) },
            Some(TrackType::Cpu { cpu: 1 }),
        )
    };
    c.convert_message(&announce()).unwrap();
    c.convert_message(&announce()).unwrap();
    assert_eq!(packets(&c).len(), 1);
    match &packets(&c)[0].data {
        PacketData::TrackDescriptor(d) => {
            assert_eq!(d.name.as_deref(), Some("load"));
            assert_eq!(d.parent_uuid, Some(0));
            assert!(matches!(&d.kind, TrackKind::Counter(k) if k.unit_name.as_deref() == Some("%")));
        }
        _ => panic!("no descriptor"),
    }
    c.convert_message(&counter(9, Reading::Count { n: 3 })).unwrap();
    match &packets(&c)[1].data {
        PacketData::TrackEvent(e) => {
            assert!(matches!(
                e.counter_value,
                Some(CounterValue::Double(Reading::Count { n: 3 }))
            ));
        }
        _ => panic!("no event"),
    }
    c.convert_message(&track("cpu", TrackType::Cpu { cpu: 1 }, None)).unwrap();
    match &packets(&c)[2].data {
        PacketData::TrackDescriptor(d) => assert_eq!(d.parent_uuid, None),
        _ => panic!("no descriptor"),
    }
    c.convert_message(&span(TrackId::Custom { id: 3 }, Labels::new())).unwrap();
    assert_eq!(packets(&c).len(), 3);
}

#[test]
fn a_thread_that_is_its_own_parent_is_described_again() {
    let mut c = converter(20);
    c.convert_message(&track(
        "main",
        TrackType::Thread { tid: 2, pid: 1 },
        Some(TrackType::Thread { tid: 2, pid: 1 }),
    ))
    .unwrap();
    assert_eq!(packets(&c).len(), 3);
    match &packets(&c)[2].data {
        PacketData::TrackDescriptor(d) => {
            assert_eq!(d.uuid, 1001);
            assert!(
                matches!(&d.kind, TrackKind::Thread(t) if t.thread_name.as_deref() == Some("main"))
            );
        }
        _ => panic!("no descriptor"),
    }
}

#[test]
fn a_refused_packet_leaves_the_rest_undone() {
    let mut c = converter(1);
    let message = span(TrackId::Thread { tid: 7, pid: 6 }, Labels::new());
    assert_eq!(
        c.convert_message(&message).unwrap_err().message,
        "no room for the packet"
    );
    assert_eq!(packets(&c).len(), 1);
}

#[test]
fn labels_become_annotations_by_kind() {
    let mut labels = Labels::new();
    labels.set_float("f", Reading::Float { bits: 7 });
    labels.set_bool("b", true);
    labels.set_int("i", 4);
    labels.set_string("s", "x".to_string());
    labels.set_int("i", 5);
    let mut c = converter(20);
    c.convert_message(&Message::Event(Event::Instant(Instant {
        name: "now".to_string(),
        timestamp: 3,
        track_id: TrackId::Process { pid: 1 },
        labels,
    })))
    .unwrap();
    match &packets(&c)[1].data {
        PacketData::TrackEvent(e) => {
            assert_eq!(e.event_type, EventType::Instant);
            let names: Vec<&str> = e.debug_annotations.iter().map(|a| a.name.as_str()).collect();
            assert_eq!(names, vec!["s", "i", "b", "f"]);
            assert!(matches!(e.debug_annotations[1].value, DebugValue::Int(5)));
        }
        _ => panic!("no event"),
    }
}

fn interned(continuation: bool) -> InternedData {
    let mut data = InternedData::new();
    data.function_names.push(InternedString { iid: 1, str: "fé".to_string() });
    data.frames.push(Frame { iid: 2, function_name_id: 1, mapping_id: 1, rel_pc: 16 });
    data.callstacks.push(Callstack { iid: 3, frame_ids: vec![2] });
    data.mappings.push(Mapping {
        iid: 1,
        build_id: 1,
        exact_offset: 0,
        start_offset: 0,
        start: 0,
        end: 9,
        load_bias: 0,
        path_string_ids: vec![4],
    });
    data.build_ids.push(InternedString { iid: 1, str: "b".to_string() });
    data.continuation = continuation;
    data
}

#[test]
fn streams_keep_their_sequence() {
    let mut c = converter(20);
    c.convert_message(&Message::Stream {
        stream_id: 5,
        event: Event::InternedData(interned(false)),
    })
    .unwrap();
    c.convert_event(&Event::InternedData(interned(true)), Some(5)).unwrap();
    c.convert_message(&Message::Stream {
        stream_id: 5,
        event: Event::Sample(Sample {
            cpu: 2,
            track_id: TrackId::Thread { tid: 8, pid: 7 },
            timestamp: 11,
            callstack_iid: 3,
            cpu_mode: CpuMode::User,
        }),
    })
    .unwrap();
    assert_eq!(packets(&c)[0].sequence_id, 5);
    match (&packets(&c)[0].data, &packets(&c)[1].data) {
        (PacketData::InternedData(a, first), PacketData::InternedData(_, second)) => {
            assert_eq!(a.function_names[0].str, "fé".as_bytes());
            assert_eq!(a.callstacks[0].frame_ids, vec![2]);
            assert_eq!(a.mappings[0].path_string_ids, vec![4]);
            assert_eq!(*first, SequenceFlags::IncrementalStateCleared);
            assert_eq!(*second, SequenceFlags::NeedsIncrementalState);
        }
        _ => panic!("no interned data"),
    }
    match &packets(&c)[2].data {
        PacketData::PerfSample(s) => {
            assert_eq!((s.cpu, s.pid, s.tid, s.callstack_iid, s.timebase_count), (2, 7, 8, 3, 1));
        }
        _ => panic!("no sample"),
    }
    assert_eq!(packets(&c)[2].trusted_pid, Some(7));
}

fn u64_le(n: u64) -> ArchivedU64 {
    ArchivedU64::from_native(n)
}

fn i32_le(n: i32) -> ArchivedI32 {
    ArchivedI32 { bytes: n.to_le_bytes() }
}

fn no_labels() -> ArchivedLabels {
    ArchivedLabels { strings: vec![], ints: vec![], bools: vec![], floats: vec![] }
}

#[test]
fn archived_ids_are_native() {
    let id = ArchivedTrackId::Thread { tid: i32_le(-3), pid: i32_le(4) };
    assert_eq!(id.to_native(), TrackId::Thread { tid: -3, pid: 4 });
    let id = ArchivedTrackId::Cpu { cpu: ArchivedU32 { bytes: [1, 2, 0, 0] } };
    assert_eq!(id.to_native(), TrackId::Cpu { cpu: 0x201 });
    assert_eq!(
        ArchivedTrackId::Process { pid: i32_le(9) }.to_native(),
        TrackId::Process { pid: 9 }
    );
    assert_eq!(
        ArchivedTrackId::Custom { id: u64_le(u64::MAX) }.to_native(),
        TrackId::Custom { id: u64::MAX }
    );
    let kind = ArchivedTrackType::Counter { id: u64_le(5), unit: Some("s".to_string()) };
    assert!(matches!(
        kind.to_native(),
        TrackType::Counter { id: 5, unit: Some(u) } if u == "s"
    ));
    assert_eq!(kind.to_native().to_id(), TrackId::Counter { id: 5 });
    assert_eq!(ArchivedI64 { bytes: (-2i64).to_le_bytes() }.to_native(), -2);
    assert_eq!(ArchivedU16 { bytes: [0, 1] }.to_native(), 256);
}

#[test]
fn archived_messages_convert_like_native_ones() {
    let mut native = converter(100);
    let mut archived = converter(100);
    native
        .convert_message(&track("n", TrackType::Counter { id: 1, unit: None }, None))
        .unwrap();
    archived
        .convert_archived_message(&ArchivedMessage::Event(ArchivedEvent::Track(ArchivedTrack {
            name: "n".to_string(),
            track_type: ArchivedTrackType::Counter { id: u64_le(1), unit: None },
            parent: None,
        })))
        .unwrap();
    native.convert_message(&counter(1, Reading::Float { bits: 77 })).unwrap();
    archived
        .convert_archived_event(
            &ArchivedEvent::Counter(ArchivedCounter {
                name: "c".to_string(),
                value: u64_le(77),
                timestamp: u64_le(5),
                track_id: ArchivedTrackId::Counter { id: u64_le(1) },
                labels: no_labels(),
                unit: None,
            }),
            None,
        )
        .unwrap();
    let mut labels = Labels::new();
    labels.set_string("k", "v".to_string());
    labels.set_int("i", -1);
    labels.set_bool("b", false);
    labels.set_float("f", Reading::Float { bits: 9 });
    native.convert_message(&span(TrackId::Process { pid: 3 }, labels)).unwrap();
    archived
        .convert_archived_event(
            &ArchivedEvent::Span(ArchivedSpan {
                name: "work".to_string(),
                span_id: u64_le(1),
                start_timestamp: u64_le(10),
                end_timestamp: u64_le(20),
                track_id: ArchivedTrackId::Process { pid: i32_le(3) },
                labels: ArchivedLabels {
                    strings: vec![("k".to_string(), "v".to_string())],
                    ints: vec![("i".to_string(), ArchivedI64 { bytes: (-1i64).to_le_bytes() })],
                    bools: vec![("b".to_string(), false)],
                    floats: vec![("f".to_string(), u64_le(9))],
                },
            }),
            None,
        )
        .unwrap();
    native
        .convert_message(&Message::Event(Event::Instant(Instant {
            name: "t".to_string(),
            timestamp: 1,
            track_id: TrackId::Process { pid: 3 },
            labels: Labels::new(),
        })))
        .unwrap();
    archived
        .convert_archived_event(
            &ArchivedEvent::Instant(ArchivedInstant {
                name: "t".to_string(),
                timestamp: u64_le(1),
                track_id: ArchivedTrackId::Process { pid: i32_le(3) },
                labels: no_labels(),
            }),
            None,
        )
        .unwrap();
    native
        .convert_message(&Message::Stream {
            stream_id: 258,
            event: Event::InternedData(interned(true)),
        })
        .unwrap();
    archived
        .convert_archived_message(&ArchivedMessage::Stream {
            stream_id: ArchivedU16 { bytes: [2, 1] },
            event: ArchivedEvent::InternedData(ArchivedInternedData {
                function_names: vec![ArchivedInternedString {
                    iid: u64_le(1),
                    str: "fé".to_string(),
                }],
                frames: vec![ArchivedFrame {
                    iid: u64_le(2),
                    function_name_id: u64_le(1),
                    mapping_id: u64_le(1),
                    rel_pc: u64_le(16),
                }],
                callstacks: vec![ArchivedCallstack { iid: u64_le(3), frame_ids: vec![u64_le(2)] }],
                mappings: vec![ArchivedMapping {
                    iid: u64_le(1),
                    build_id: u64_le(1),
                    exact_offset: u64_le(0),
                    start_offset: u64_le(0),
                    start: u64_le(0),
                    end: u64_le(9),
                    load_bias: u64_le(0),
                    path_string_ids: vec![u64_le(4)],
                }],
                build_ids: vec![ArchivedInternedString { iid: u64_le(1), str: "b".to_string() }],
                continuation: true,
            }),
        })
        .unwrap();
    native
        .convert_event(
            &Event::Sample(Sample {
                cpu: 1,
                track_id: TrackId::Thread { tid: 2, pid: 3 },
                timestamp: 4,
                callstack_iid: 5,
                cpu_mode: CpuMode::Kernel,
            }),
            Some(6),
        )
        .unwrap();
    archived
        .convert_archived_event(
            &ArchivedEvent::Sample(ArchivedSample {
                cpu: ArchivedU32 { bytes: [1, 0, 0, 0] },
                track_id: ArchivedTrackId::Thread { tid: i32_le(2), pid: i32_le(3) },
                timestamp: u64_le(4),
                callstack_iid: u64_le(5),
                cpu_mode: CpuMode::Kernel,
            }),
            Some(6),
        )
        .unwrap();
    assert_eq!(
        format!("{:?}", packets(&native)),
        format!("{:?}", packets(&archived))
    );
    assert_eq!(packets(&native).len(), 8);
}

#[test]
fn the_writer_numbers_tracks() {
    let mut writer = PerfettoStreamWriter::new(PacketBuffer::new(10));
    let process = writer.write_process_descriptor(4, Some("app".to_string())).unwrap();
    let thread = writer.write_thread_descriptor(4, 5, None, process).unwrap();
    assert_eq!((process, thread), (1000, 1001));
    writer.write_counter_value(thread, -3, 9).unwrap();
    writer.flush().unwrap();
    let kept = writer.inner().packets();
    assert_eq!(kept.len(), 3);
    match &kept[2].data {
        PacketData::TrackEvent(e) => {
            assert!(matches!(e.counter_value, Some(CounterValue::Int(-3))));
        }
        _ => panic!("no event"),
    }
}

use kinetrace::bpf::blockdev::{
    decode_device, decode_mount_field, device_source, distinct_numbers, encode_device,
    format_device, node_device, parse_major_minor, read_mountinfo, sysfs_device_number,
    DeviceRegistry, DeviceSource,
};
use kinetrace::bpf::blocktrack::{
    depth_samples, format_bytes, histogram_percentile, histogram_total, needs_discovery,
    operation_samples, plan_block_io, read_depth, read_stats, request_name, BlockIo,
    BlockIoConfig, BlockMetric, BlockOperation, CounterKind, DepthSnapshot, DeviceDepth,
    DeviceStats, OperationStats, RequestSpanEvent,
};
use kinetrace::bpf::error::BpfError;
use kinetrace::protocol::{Event, Message, Reading, TrackId, TrackType};
use kinetrace::sink::MessageLog;
use std::collections::HashMap;

fn percentile(histogram: &[u64; 32], quantile: f64) -> f64 {
    let total = histogram_total(histogram);
    let target = (total as f64 * quantile).ceil() as u64;
    histogram_percentile(histogram, target) as f64
}

fn load_text(error: BpfError) -> String {
    match error {
        BpfError::LoadError(text) => text,
        other => panic!("unexpected error: {:?}", other),
    }
}

fn map_text(error: BpfError) -> String {
    match error {
        BpfError::MapError(text) => text,
        other => panic!("unexpected error: {:?}", other),
    }
}

#[test]
fn default_configuration_keeps_request_timeline_disabled() {
    let config = BlockIoConfig::default();
    assert_eq!(config.frequency, 9);
    assert_eq!(
        config.operations,
        vec![BlockOperation::Read, BlockOperation::Write]
    );
    assert!(!config.timeline);
    assert_eq!(config.max_requests, 32768);
}

#[test]
fn device_number_round_trip() {
    let encoded = encode_device(259, 17).unwrap();
    assert_eq!(decode_device(encoded), (259, 17));
    assert_eq!(parse_major_minor("259:17").unwrap(), encoded);
}

#[test]
fn stats_delta_handles_counters_and_histograms() {
    let mut previous = DeviceStats {
        first_seen_ns: 10,
        ..DeviceStats::default()
    };
    previous.operations[0].bytes = 100;
    previous.operations[0].service_histogram[4] = 2;
    let mut current = previous;
    current.operations[0].bytes = 350;
    current.operations[0].service_histogram[4] = 5;
    let delta = current.delta(Some(previous));
    assert_eq!(delta.operations[0].bytes, 250);
    assert_eq!(delta.operations[0].service_histogram[4], 3);
}

#[test]
fn recreated_stats_are_not_subtracted() {
    let mut previous = DeviceStats {
        first_seen_ns: 10,
        ..DeviceStats::default()
    };
    previous.operations[1].bytes = 500;
    let mut current = DeviceStats {
        first_seen_ns: 20,
        ..DeviceStats::default()
    };
    current.operations[1].bytes = 25;
    assert_eq!(current.delta(Some(previous)).operations[1].bytes, 25);
}

#[test]
fn histogram_percentiles_use_power_of_two_upper_bounds() {
    let mut histogram = [0; 32];
    histogram[3] = 90;
    histogram[7] = 10;
    assert_eq!(percentile(&histogram, 0.50), 16.0);
    assert_eq!(percentile(&histogram, 0.99), 256.0);
}

#[test]
fn histogram_edges() {
    let empty = [0; 32];
    assert_eq!(histogram_percentile(&empty, 1), 0);
    let mut first = [0; 32];
    first[0] = 3;
    assert_eq!(histogram_percentile(&first, 3), 1);
    assert_eq!(histogram_percentile(&first, 4), 1 << 32);
    let mut last = [0; 32];
    last[31] = 1;
    assert_eq!(histogram_percentile(&last, 1), 1 << 32);
    last[30] = 1;
    assert_eq!(histogram_percentile(&last, 1), 1 << 31);
}

#[test]
fn live_depth_is_extended_to_sample_time() {
    let depth = DeviceDepth {
        first_seen_ns: 1,
        last_update_ns: 100,
        inflight: 2,
        queued: 1,
        ..DeviceDepth::default()
    };
    let snapshot = depth.snapshot(200);
    assert_eq!(snapshot.busy_ns, 100);
    assert_eq!(snapshot.saturated_ns, 100);
    assert_eq!(snapshot.inflight_ns, 200);
    assert_eq!(snapshot.queued_ns, 100);
}

#[test]
fn blocktrack_invalid_configuration_is_rejected() {
    let config = BlockIoConfig {
        frequency: 0,
        ..BlockIoConfig::default()
    };
    assert!(config.validate().is_err());
    let config = BlockIoConfig {
        timeline: true,
        ringbuf: 5000,
        ..BlockIoConfig::default()
    };
    assert!(config.validate().is_err());
}

#[test]
fn block_configuration_problems_are_named() {
    let text = |config: BlockIoConfig| load_text(config.validate().unwrap_err());
    assert_eq!(
        text(BlockIoConfig { frequency: 0, ..BlockIoConfig::default() }),
        "block_io frequency must be greater than zero"
    );
    assert_eq!(
        text(BlockIoConfig { metrics: vec![], ..BlockIoConfig::default() }),
        "block_io operations and metrics must not be empty"
    );
    assert_eq!(
        text(BlockIoConfig { max_requests: 0, ..BlockIoConfig::default() }),
        "block_io map limits must be greater than zero"
    );
    assert_eq!(
        text(BlockIoConfig { timeline_sample_every: 0, ..BlockIoConfig::default() }),
        "block_io timeline_sample_every must be greater than zero"
    );
    assert_eq!(
        text(BlockIoConfig { timeline: true, ringbuf: 2048, ..BlockIoConfig::default() }),
        "block_io ringbuf must be a power of two between 4096 and 4294967295 bytes"
    );
    let good = BlockIoConfig { timeline: true, ringbuf: 8192, ..BlockIoConfig::default() };
    assert!(good.validate().is_ok());
}

#[test]
fn mount_fields_are_unescaped() {
    assert_eq!(
        decode_mount_field("/path\\040with\\040spaces"),
        "/path with spaces"
    );
}

#[test]
fn mount_escapes_are_undone_in_turn() {
    assert_eq!(decode_mount_field("a\\011b\\012c\\134d"), "a\tb\nc\\d");
    assert_eq!(decode_mount_field("\\134040"), "\\040");
    assert_eq!(decode_mount_field("plain"), "plain");
}

#[test]
fn operation_mask_has_a_bit_for_each_operation() {
    let config = BlockIoConfig {
        operations: vec![BlockOperation::Write, BlockOperation::Discard, BlockOperation::Write],
        ..BlockIoConfig::default()
    };
    assert_eq!(config.operation_mask(), 0b1010);
    assert_eq!(BlockOperation::from_index(4), Some(BlockOperation::Other));
    assert_eq!(BlockOperation::from_index(5), None);
    assert_eq!(BlockOperation::Flush.name(), "flush");
}

#[test]
fn device_numbers_are_checked() {
    assert_eq!(
        load_text(encode_device(4096, 0).unwrap_err()),
        "block device number is out of range: 4096:0"
    );
    assert_eq!(
        load_text(parse_major_minor("8").unwrap_err()),
        "invalid block device number: 8"
    );
    assert_eq!(
        load_text(parse_major_minor("8:x").unwrap_err()),
        "invalid block device 8:x: invalid digit found in string"
    );
    assert_eq!(
        load_text(parse_major_minor(":1").unwrap_err()),
        "invalid block device :1: cannot parse integer from empty string"
    );
    assert_eq!(
        load_text(parse_major_minor("99999999999999999999:1").unwrap_err()),
        "invalid block device 99999999999999999999:1: number too large to fit in target type"
    );
    assert_eq!(format_device(encode_device(8, 1).unwrap()), "8:1");
    assert_eq!(sysfs_device_number(" 8:16\n").unwrap(), encode_device(8, 16).unwrap());
}

#[test]
fn device_sources_are_told_apart() {
    assert!(matches!(device_source("8:0"), Ok(DeviceSource::Number(_))));
    assert!(matches!(device_source("/dev/sda"), Ok(DeviceSource::Node)));
    assert!(matches!(device_source("sda"), Ok(DeviceSource::Name)));
    assert!(matches!(device_source("/dev/disk/by-path/pci-0000:00"), Ok(DeviceSource::Node)));
    assert!(device_source("a:b").is_err());
}

#[test]
fn node_numbers_are_split() {
    // 259:17 as the kernel hands it to user space.
    let rdev = (259u64 << 8) | 17;
    assert_eq!(node_device(rdev).unwrap(), encode_device(259, 17).unwrap());
    let large_minor = (8u64 << 8) | 0x34 | (0x12u64 << 20);
    assert_eq!(node_device(large_minor).unwrap(), encode_device(8, 0x1234).unwrap());
    assert!(node_device(0x1000u64 << 32).is_err());
}

#[test]
fn repeated_numbers_are_dropped() {
    assert_eq!(distinct_numbers(&vec![3, 1, 3, 2, 1]), vec![3, 1, 2]);
}

#[test]
fn plans_size_the_maps() {
    let config = BlockIoConfig::default();
    let none: Vec<u32> = vec![];
    assert!(needs_discovery(&config, &none));
    let plan = plan_block_io(&config, &none, &vec![1, 2, 1]).unwrap();
    assert_eq!(plan.depth_devices, vec![1, 2]);
    assert_eq!(plan.device_depths_entries, 64);
    assert_eq!(plan.requests_entries, 32768);
    assert_eq!(plan.events_size, 4096);
    assert!(!plan.filter_enabled);
    assert!(plan.request_tracking_enabled);

    let quiet = BlockIoConfig {
        metrics: vec![BlockMetric::Throughput],
        timeline_min_latency_us: u64::MAX,
        ..BlockIoConfig::default()
    };
    let plan = plan_block_io(&quiet, &vec![7], &none).unwrap();
    assert_eq!(plan.device_depths_entries, 1);
    assert_eq!(plan.requests_entries, 1);
    assert_eq!(plan.timeline_min_latency_ns, u64::MAX);
    assert!(plan.depth_devices.is_empty());
    assert!(plan.filter_enabled);

    let narrow = BlockIoConfig { max_devices: 1, ..BlockIoConfig::default() };
    assert_eq!(
        load_text(plan_block_io(&narrow, &vec![1, 2], &none).unwrap_err()),
        "block_io has 2 device filters but max_devices is 1"
    );
    assert_eq!(
        load_text(plan_block_io(&narrow, &none, &vec![1, 2, 3]).unwrap_err()),
        "block_io found 3 devices but max_devices is 1; increase max_devices or configure devices"
    );
}

#[test]
fn samples_follow_the_configuration() {
    let config = BlockIoConfig::default();
    let stats = OperationStats { bytes: 10, operations: 0, ..OperationStats::default() };
    let samples = operation_samples(&config, BlockOperation::Read, stats, 5);
    assert_eq!(samples.len(), 12);
    assert_eq!(samples[0].name, "read_throughput");
    assert!(matches!(samples[0].value, Reading::PerSecond { amount: 10, elapsed_ns: 5 }));
    assert_eq!(samples[2].name, "read_queue_latency_avg");
    assert!(matches!(samples[2].value, Reading::AverageMicros { operations: 1, .. }));
    assert_eq!(samples[11].name, "read_errors");
    let depth = DepthSnapshot {
        first_seen_ns: 0,
        busy_ns: 3,
        saturated_ns: 0,
        inflight_ns: 0,
        queued_ns: 0,
        inflight: 1,
        queued: 0,
        max_inflight: 4,
        max_queued: 0,
    };
    let samples = depth_samples(depth, 0);
    assert_eq!(samples.len(), 8);
    assert!(matches!(samples[0].value, Reading::ClampedPercent { part: 3, whole: 1 }));
    assert_eq!(samples[6].kind, CounterKind::MaxInflight);
    assert_eq!(samples[6].unit, "requests");
}

#[test]
fn bytes_are_shown_in_the_largest_unit() {
    assert_eq!(format_bytes(0), "0 B");
    assert_eq!(format_bytes(1000), "1000 B");
    assert_eq!(format_bytes(4096), "4 KiB");
    assert_eq!(format_bytes(3 * 1024 * 1024), "3 MiB");
}

fn mounts() -> &'static str {
    "22 1 8:1 / / rw - ext4 /dev/sda1 rw\n\
     23 1 8:2 / /home\\040dir rw shared:1 - xfs /dev/sda2 rw\n\
     24 1 0:5 / /proc rw\n\
     25 1 8:1 /x /mnt rw - btrfs /dev/sda1 rw\n\
     26 1 bad / /y rw - ext4 /dev/sdb rw"
}

#[test]
fn mount_table_is_read() {
    let table = read_mountinfo(mounts());
    assert_eq!(table.len(), 3);
    assert_eq!(table[1].0, encode_device(8, 2).unwrap());
    assert_eq!(table[1].1.filesystem, "xfs");
    assert_eq!(table[1].1.source, "/dev/sda2");
    assert_eq!(table[1].1.mountpoint, "/home dir");
}

#[test]
fn disks_get_the_mounts_of_their_partitions() {
    let disk = encode_device(8, 0).unwrap();
    let root = encode_device(8, 1).unwrap();
    let home = encode_device(8, 2).unwrap();
    let disks = vec![(root, disk), (home, disk), (disk, disk)];
    let mut registry = DeviceRegistry::new(read_mountinfo(mounts()), &disks);
    registry.set_name(disk, "sda".to_string());
    assert_eq!(
        registry.info(disk).track_name(),
        "sda (8:0) btrfs,ext4,xfs /,/mnt,/home dir"
    );
    assert_eq!(registry.info(home).track_name(), "block-8:2 (8:2) xfs /home dir");
    assert_eq!(registry.info(encode_device(9, 9).unwrap()).track_name(), "block-9:9 (9:9)");
}

fn tracker(config: BlockIoConfig) -> BlockIo {
    BlockIo::new(config, DeviceRegistry::new(vec![], &vec![]), 0)
}

#[test]
fn a_sample_announces_device_and_series_once() {
    let mut tracker = tracker(BlockIoConfig {
        operations: vec![BlockOperation::Read],
        metrics: vec![BlockMetric::Throughput],
        ..BlockIoConfig::default()
    });
    let mut stats = HashMap::new();
    let mut device = DeviceStats { first_seen_ns: 1, ..DeviceStats::default() };
    device.operations[0].bytes = 100;
    stats.insert(5u32, device);
    let mut log = MessageLog::new(100);
    tracker.sample(1_000_000_000, &stats, &HashMap::new(), &mut log);
    assert_eq!(log.messages().len(), 3);
    let device_id = match &log.messages()[0] {
        Message::Event(Event::Track(track)) => match track.track_type {
            TrackType::Custom { id } => id,
            _ => panic!("no device track"),
        },
        _ => panic!("no track"),
    };
    let series_id = match &log.messages()[1] {
        Message::Event(Event::Track(track)) => {
            assert!(matches!(track.parent, Some(TrackType::Custom { id }) if id == device_id));
            assert_eq!(track.name, "read_throughput");
            match track.track_type {
                TrackType::Counter { id, .. } => id,
                _ => panic!("no counter track"),
            }
        }
        _ => panic!("no track"),
    };
    match &log.messages()[2] {
        Message::Event(Event::Counter(counter)) => {
            assert_eq!(counter.track_id, TrackId::Counter { id: series_id });
            assert!(matches!(
                counter.value,
                Reading::PerSecond { amount: 100, elapsed_ns: 1_000_000_000 }
            ));
        }
        _ => panic!("no counter"),
    }
    device.operations[0].bytes = 130;
    stats.insert(5, device);
    tracker.sample(2_000_000_000, &stats, &HashMap::new(), &mut log);
    assert_eq!(log.messages().len(), 4);
    match &log.messages()[3] {
        Message::Event(Event::Counter(counter)) => {
            assert!(matches!(counter.value, Reading::PerSecond { amount: 30, .. }));
        }
        _ => panic!("no counter"),
    }
    assert!(!tracker.sample_due(2_000_000_001, false));
    assert!(tracker.sample_due(2_000_000_001, true));
    assert!(tracker.sample_due(2_111_111_111, false));
}

#[test]
fn a_refused_announcement_is_tried_again_for_devices() {
    let mut tracker = tracker(BlockIoConfig {
        operations: vec![BlockOperation::Read],
        metrics: vec![BlockMetric::Throughput],
        ..BlockIoConfig::default()
    });
    let mut stats = HashMap::new();
    stats.insert(5u32, DeviceStats::default());
    let mut full = MessageLog::new(0);
    tracker.sample(1, &stats, &HashMap::new(), &mut full);
    assert_eq!(full.messages().len(), 0);
    let mut log = MessageLog::new(100);
    tracker.sample(2, &stats, &HashMap::new(), &mut log);
    assert_eq!(log.messages().len(), 3);
}

#[test]
fn idle_queues_are_not_sampled() {
    let mut tracker = tracker(BlockIoConfig::default());
    let mut depths = HashMap::new();
    depths.insert(1u32, DeviceDepth::initial(5));
    depths.insert(2u32, DeviceDepth { inflight: 1, ..DeviceDepth::default() });
    let mut log = MessageLog::new(100);
    tracker.sample(10, &HashMap::new(), &depths, &mut log);
    // One device track, and a track and a value for each of eight series.
    assert_eq!(log.messages().len(), 17);
}

fn span_bytes() -> Vec<u8> {
    let mut data = vec![0u8; 112];
    data[0] = 3;
    data[8] = 5;
    data[16] = 9;
    data[24] = 232;
    data[25] = 3;
    data[56..60].copy_from_slice(&5u32.to_le_bytes());
    data[60..64].copy_from_slice(&encode_device(8, 2).unwrap().to_le_bytes());
    data[64..68].copy_from_slice(&8192u32.to_le_bytes());
    data[80..84].copy_from_slice(&(-5i32).to_le_bytes());
    data[84] = 1;
    data[85] = 1;
    data[92..96].copy_from_slice(b"fio\0");
    data
}

#[test]
fn request_spans_are_read_and_sent() {
    assert!(RequestSpanEvent::from_bytes(&vec![0u8; 111]).is_none());
    let mut event = RequestSpanEvent::from_bytes(&span_bytes()).unwrap();
    assert_eq!(event.error, -5);
    assert_eq!(request_name(&event), "error 8 KiB");
    event.error = 0;
    assert_eq!(request_name(&event), "write 8 KiB");
    event.completed = 0;
    assert_eq!(request_name(&event), "requeued 8 KiB");
    event.completed = 1;

    let table = read_mountinfo(mounts());
    let mut tracker = BlockIo::new(
        BlockIoConfig::default(),
        DeviceRegistry::new(table, &vec![]),
        0,
    );
    let mut log = MessageLog::new(10);
    assert_eq!(tracker.emit_request_span(event, &mut log), 0);
    assert_eq!(log.messages().len(), 2);
    match &log.messages()[1] {
        Message::Event(Event::Span(span)) => {
            assert_eq!(span.span_id, 3 ^ 5);
            assert_eq!(span.start_timestamp, 5);
            assert_eq!(span.end_timestamp, 9);
            assert_eq!(span.labels.ints[0], ("bytes".to_string(), 8192));
            assert_eq!(span.labels.strings[0], ("comm".to_string(), "fio".to_string()));
            assert_eq!(
                span.labels.strings[2],
                ("partition".to_string(), "block-8:2 (8:2)".to_string())
            );
            assert_eq!(
                span.labels.strings[4],
                ("mountpoints".to_string(), "/home dir".to_string())
            );
            assert!(matches!(span.labels.floats[0].1, Reading::Micros { ns: 1000 }));
            assert!(span.labels.bools[0].1);
        }
        _ => panic!("no span"),
    }
    let mut full = MessageLog::new(0);
    assert_eq!(tracker.emit_request_span(event, &mut full), 1);
}

#[test]
fn command_names_that_are_no_text_are_mended() {
    let mut data = span_bytes();
    data[92] = 0xff;
    let event = RequestSpanEvent::from_bytes(&data).unwrap();
    let mut tracker = tracker(BlockIoConfig::default());
    let mut log = MessageLog::new(10);
    tracker.emit_request_span(event, &mut log);
    match &log.messages()[1] {
        Message::Event(Event::Span(span)) => {
            assert_eq!(span.labels.strings[0].1, "\u{fffd}io");
        }
        _ => panic!("no span"),
    }
}

#[test]
fn map_records_are_read() {
    let mut value = vec![0u8; 2840];
    value[560] = 7;
    value[2800] = 1;
    value[2824] = 9;
    let entries = vec![(vec![5, 0, 0, 0], value.clone())];
    let stats = read_stats(&entries).unwrap();
    assert_eq!(stats[&5].operations[1].bytes, 7);
    assert_eq!(stats[&5].requeues, 1);
    assert_eq!(stats[&5].first_seen_ns, 9);
    value.pop();
    assert_eq!(
        map_text(read_stats(&vec![(vec![5, 0, 0, 0], value)]).unwrap_err()),
        "failed to parse block_io device stats: TooShort"
    );
    assert_eq!(
        map_text(read_stats(&vec![(vec![5], vec![])]).unwrap_err()),
        "failed to parse block_io device key: TooShort"
    );
    let mut depth = vec![0u8; 72];
    depth[8] = 4;
    depth[56] = 2;
    let depths = read_depth(&vec![(vec![6, 0, 0, 0], depth)]).unwrap();
    assert_eq!(depths[&6].first_seen_ns, 4);
    assert_eq!(depths[&6].inflight, 2);
    assert_eq!(
        map_text(read_depth(&vec![(vec![6, 0, 0, 0], vec![])]).unwrap_err()),
        "failed to parse block_io depth stats: TooShort"
    );
}

#[test]
fn depths_lie_behind_their_lock() {
    let depth = DeviceDepth::initial(5);
    let bytes = depth.to_bytes();
    assert_eq!(bytes.len(), 72);
    assert_eq!(bytes[..8], [0u8; 8]);
    assert_eq!(bytes[8..16], 5u64.to_le_bytes());
    assert_eq!(bytes[16..24], 5u64.to_le_bytes());
    let full = DeviceDepth {
        first_seen_ns: 1,
        last_update_ns: 2,
        busy_ns: 3,
        saturated_ns: 4,
        inflight_ns: 5,
        queued_ns: 6,
        inflight: 7,
        queued: 8,
        max_inflight: 9,
        max_queued: u32::MAX,
    };
    let again = DeviceDepth::from_bytes(&full.to_bytes()).unwrap();
    assert_eq!(again.to_bytes(), full.to_bytes());
    assert_eq!((again.first_seen_ns, again.queued_ns), (1, 6));
    assert_eq!((again.inflight, again.max_queued), (7, u32::MAX));
}

#[test]
fn nothing_is_counted_at_first() {
    let stats = DeviceStats::default();
    for operation in &stats.operations {
        assert_eq!(operation.bytes, 0);
        assert_eq!(operation.total_latency_ns, 0);
        assert_eq!(operation.service_histogram, [0; 32]);
        assert_eq!(operation.total_histogram, [0; 32]);
    }
}

//! How single requests of block devices are shown, and which are followed.

use crate::bpf::blockdev::{DeviceInfoView, MountInfoView, RegistryView};
use crate::bpf::blocktrack::{
    bucket_bound, bytes_text, elapsed_since, is_due, request_sent, watched, BlockIoConfig,
    BlockIoPlan, BlockMetric, BlockOperation, Emission, RequestSpanEvent,
};
use crate::protocol::{
    label_get, label_put, law_label_reads_back, EventView, LabelsView, MessageView, Reading,
    TrackId, TrackTypeView,
};
use crate::text::{decimal, joined};
use vstd::prelude::*;

verus! {

/// A number of bytes is written in the largest unit of which it is a whole number.
pub proof fn law_sizes_are_exact(bytes: u32)
    ensures
        ({
            let whole_mib = bytes > 0 && exists|n: nat| #[trigger] (n * 1048576) == bytes;
            let whole_kib = bytes > 0 && exists|n: nat| #[trigger] (n * 1024) == bytes;
            &&& whole_mib ==> exists|n: nat|
                n * 1048576 == bytes && bytes_text(bytes) == #[trigger] decimal(n) + " MiB"@
            &&& whole_kib && !whole_mib ==> exists|n: nat|
                n * 1024 == bytes && bytes_text(bytes) == #[trigger] decimal(n) + " KiB"@
            &&& !whole_kib ==> bytes_text(bytes) == decimal(bytes as nat) + " B"@
        }),
{
    let mib = (bytes / 0x10_0000) as nat;
    let kib = (bytes / 1024) as nat;
    let whole_mib = bytes > 0 && exists|n: nat| #[trigger] (n * 1048576) == bytes;
    let whole_kib = bytes > 0 && exists|n: nat| #[trigger] (n * 1024) == bytes;
    if whole_mib {
        let n = choose|n: nat| #[trigger] (n * 1048576) == bytes;
        assert(bytes % 0x10_0000 == 0);
        assert(mib * 1048576 == bytes);
        assert(bytes_text(bytes) == decimal(mib) + " MiB"@);
    } else {
        if bytes > 0 && bytes % 0x10_0000 == 0 {
            assert(mib * 1048576 == bytes);
        }
    }
    if whole_kib {
        let n = choose|n: nat| #[trigger] (n * 1024) == bytes;
        assert(bytes % 1024 == 0);
        assert(kib * 1024 == bytes);
        if !whole_mib {
            assert(bytes_text(bytes) == decimal(kib) + " KiB"@);
        }
    } else {
        if bytes > 0 && bytes % 1024 == 0 {
            assert(kib * 1024 == bytes);
        }
        if bytes > 0 && bytes % 0x10_0000 == 0 {
            let more = mib * 1024;
            assert(more * 1024 == bytes);
        }
    }
}

/// What the span of a request is called before its size: after its operation if it
/// succeeded, and else after what became of it.
pub open spec fn outcome_text(event: RequestSpanEvent) -> Seq<char> {
    if event.completed == 0 {
        "requeued"@
    } else if event.error != 0 {
        "error"@
    } else {
        operation_text(event.operation)
    }
}

/// The name of an operation by its number.
pub open spec fn operation_text(operation: u8) -> Seq<char> {
    match operation {
        0 => "read"@,
        1 => "write"@,
        2 => "flush"@,
        3 => "discard"@,
        _ => "other"@,
    }
}

/// Whether labels tell all of a request on a partition.
pub open spec fn tells_of(
    labels: LabelsView,
    event: RequestSpanEvent,
    partition: DeviceInfoView,
) -> bool {
    &&& label_get(labels.ints, "bytes"@) == Some(event.bytes as i64)
    &&& label_get(labels.ints, "sector"@) == Some(event.sector as i64)
    &&& label_get(labels.ints, "pid"@) == Some(event.pid as i64)
    &&& label_get(labels.ints, "tgid"@) == Some(event.tgid as i64)
    &&& label_get(labels.ints, "error"@) == Some(event.error as i64)
    &&& label_get(labels.ints, "requeues"@) == Some(event.requeues as i64)
    &&& label_get(labels.floats, "queue_latency_us"@) == Some(
        Reading::Micros { ns: event.queue_ns },
    )
    &&& label_get(labels.floats, "service_latency_us"@) == Some(
        Reading::Micros { ns: event.service_ns },
    )
    &&& label_get(labels.floats, "total_latency_us"@) == Some(
        Reading::Micros { ns: event.total_ns },
    )
    &&& label_get(labels.bools, "completed"@) == Some(event.completed != 0)
    &&& label_get(labels.strings, "operation"@) == Some(operation_text(event.operation))
    &&& label_get(labels.strings, "partition"@) == Some(partition.label())
    &&& partition.mounts.len() > 0 ==> {
        &&& label_get(labels.strings, "mountpoints"@) == Some(
            joined(partition.mounts.map_values(|m: MountInfoView| m.mountpoint), ","@),
        )
        &&& label_get(labels.strings, "sources"@) == Some(
            joined(partition.mounts.map_values(|m: MountInfoView| m.source), ","@),
        )
        &&& label_get(labels.strings, "filesystems"@) is Some
    }
    &&& partition.mounts.len() == 0 ==> {
        &&& label_get(labels.strings, "mountpoints"@) is None
        &&& label_get(labels.strings, "sources"@) is None
        &&& label_get(labels.strings, "filesystems"@) is None
    }
}

/// The names of labels differ.
proof fn lemma_label_names()
    ensures
        "bytes"@ != "sector"@,
        "bytes"@ != "pid"@,
        "bytes"@ != "tgid"@,
        "bytes"@ != "error"@,
        "bytes"@ != "requeues"@,
        "sector"@ != "pid"@,
        "sector"@ != "tgid"@,
        "sector"@ != "error"@,
        "sector"@ != "requeues"@,
        "pid"@ != "tgid"@,
        "pid"@ != "error"@,
        "pid"@ != "requeues"@,
        "tgid"@ != "error"@,
        "tgid"@ != "requeues"@,
        "error"@ != "requeues"@,
        "queue_latency_us"@ != "service_latency_us"@,
        "queue_latency_us"@ != "total_latency_us"@,
        "service_latency_us"@ != "total_latency_us"@,
        "comm"@ != "operation"@,
        "comm"@ != "partition"@,
        "comm"@ != "filesystems"@,
        "comm"@ != "mountpoints"@,
        "comm"@ != "sources"@,
        "operation"@ != "partition"@,
        "operation"@ != "filesystems"@,
        "operation"@ != "mountpoints"@,
        "operation"@ != "sources"@,
        "partition"@ != "filesystems"@,
        "partition"@ != "mountpoints"@,
        "partition"@ != "sources"@,
        "filesystems"@ != "mountpoints"@,
        "filesystems"@ != "sources"@,
        "mountpoints"@ != "sources"@,
{
    reveal_strlit("bytes");
    reveal_strlit("sector");
    reveal_strlit("pid");
    reveal_strlit("tgid");
    reveal_strlit("error");
    reveal_strlit("requeues");
    reveal_strlit("queue_latency_us");
    reveal_strlit("service_latency_us");
    reveal_strlit("total_latency_us");
    reveal_strlit("comm");
    reveal_strlit("operation");
    reveal_strlit("partition");
    reveal_strlit("filesystems");
    reveal_strlit("mountpoints");
    reveal_strlit("sources");
    assert("bytes"@.len() == 5);
    assert("sector"@.len() == 6);
    assert("pid"@.len() == 3);
    assert("tgid"@.len() == 4);
    assert("error"@.len() == 5);
    assert("requeues"@.len() == 8);
    assert("queue_latency_us"@.len() == 16);
    assert("service_latency_us"@.len() == 18);
    assert("total_latency_us"@.len() == 16);
    assert("comm"@.len() == 4);
    assert("operation"@.len() == 9);
    assert("partition"@.len() == 9);
    assert("filesystems"@.len() == 11);
    assert("mountpoints"@.len() == 11);
    assert("sources"@.len() == 7);
    assert("bytes"@[0] != "error"@[0]);
    assert("queue_latency_us"@[0] != "total_latency_us"@[0]);
    assert("operation"@[0] != "partition"@[0]);
    assert("filesystems"@[0] != "mountpoints"@[0]);
}

/// The labels of a request tell its size and place, who sent it, how long it took, what
/// became of it, and what is known of its partition.
pub proof fn law_request_is_labelled(event: RequestSpanEvent, partition: DeviceInfoView)
    ensures
        tells_of(event.labels(partition), event, partition),
        label_get(event.labels(partition).strings, "comm"@) == Some(event.command()),
{
    lemma_label_names();
    lemma_put_is_seen::<i64>();
    lemma_put_is_seen::<Reading>();
    lemma_put_is_seen::<bool>();
    lemma_put_is_seen::<Seq<char>>();
    let n = partition.mounts.len() as int;
    assert(partition.mounts.take(n) =~= partition.mounts);
}

/// What holds of every label that is set.
proof fn lemma_put_is_seen<V>()
    ensures
        forall|labels: Seq<(Seq<char>, V)>, key: Seq<char>, value: V, other: Seq<char>|
            #[trigger] label_get(label_put(labels, key, value), other) == (if other == key {
                Some(value)
            } else {
                label_get(labels, other)
            }),
{
    assert forall|labels: Seq<(Seq<char>, V)>, key: Seq<char>, value: V, other: Seq<char>|
        #[trigger] label_get(label_put(labels, key, value), other) == (if other == key {
            Some(value)
        } else {
            label_get(labels, other)
        }) by {
        law_label_reads_back(labels, key, value, other);
    }
}

/// A request is shown, on the track of its device, from its start to its end, under a
/// name that says what became of it and how large it is. If the track is refused, the
/// request is not shown.
pub proof fn law_request_is_shown(
    before: Emission,
    registry: RegistryView,
    event: RequestSpanEvent,
    after: Emission,
    code: i32,
)
    requires
        request_sent(before, registry, event, after, code),
    ensures
        ({
            let known = before.tracks.contains_key(event.dev);
            let n = after.history.len() as int;
            let shown = after.tracks.contains_key(event.dev);
            &&& after.series == before.series
            &&& known ==> after.tracks == before.tracks
            &&& !known ==> (match after.history[before.history.len() as int].0 {
                MessageView::Event(EventView::Track(track)) => {
                    &&& track.name == registry.info(event.dev).track_name()
                    &&& track.parent is None
                    &&& shown ==> track.track_type == (TrackTypeView::Custom {
                        id: after.tracks[event.dev],
                    })
                },
                _ => false,
            })
            &&& !shown ==> code != 0 && after.history.len() == before.history.len() + 1
            &&& shown ==> {
                &&& after.history.len() == before.history.len() + if known { 1int } else { 2 }
                &&& after.history[n - 1].1 == code
                &&& match after.history[n - 1].0 {
                    MessageView::Event(EventView::Span(span)) => {
                        &&& span.start_timestamp == event.start_ns
                        &&& span.end_timestamp == event.end_ns
                        &&& span.span_id == event.request_id ^ event.start_ns
                        &&& span.track_id == (TrackId::Custom { id: after.tracks[event.dev] })
                        &&& span.name == outcome_text(event) + " "@ + bytes_text(event.bytes)
                        &&& tells_of(span.labels, event, registry.info(event.partition_dev))
                    },
                    _ => false,
                }
            }
        }),
{
    law_request_is_labelled(event, registry.info(event.partition_dev));
}

/// The bits of the mask are the operations that are asked for, by their number.
pub proof fn law_mask_holds_the_operations(config: &BlockIoConfig)
    ensures
        0 <= config.mask() < 32,
        config.mask() % 2 == 1 <==> config.operations@.contains(BlockOperation::Read),
        config.mask() / 2 % 2 == 1 <==> config.operations@.contains(BlockOperation::Write),
        config.mask() / 4 % 2 == 1 <==> config.operations@.contains(BlockOperation::Flush),
        config.mask() / 8 % 2 == 1 <==> config.operations@.contains(BlockOperation::Discard),
        config.mask() / 16 % 2 == 1 <==> config.operations@.contains(BlockOperation::Other),
{
}

/// A valid configuration is one that samples, tracks something, has room for it, and
/// whose buffer, if it is used, is a power of two of a size that the kernel takes.
pub proof fn law_valid_configurations(config: &BlockIoConfig)
    ensures
        config.problem() is None <==> {
            &&& config.frequency > 0
            &&& config.operations@.len() > 0
            &&& config.metrics@.len() > 0
            &&& config.max_devices > 0
            &&& config.max_requests > 0
            &&& config.timeline_sample_every > 0
            &&& config.timeline ==> 4096 <= config.ringbuf <= 0xffff_ffff
                && crate::power::is_power_of_two(config.ringbuf as int)
        },
{
}

/// What is measured is what is asked for, and there is room for as much as is allowed;
/// single requests are followed where a metric or the timeline needs them.
pub proof fn law_plan_follows_the_configuration(
    plan: BlockIoPlan,
    config: &BlockIoConfig,
    filters: Seq<u32>,
    depths: Seq<u32>,
)
    requires
        plan.is_for(config, filters, depths),
        config.timeline ==> config.ringbuf <= u32::MAX,
    ensures
        ({
            let wants = |m: BlockMetric| config.metrics@.contains(m);
            let follows = wants(BlockMetric::Iops) || wants(BlockMetric::Latency) || wants(
                BlockMetric::Saturation,
            ) || config.timeline;
            &&& plan.bytes_enabled <==> wants(BlockMetric::Throughput)
            &&& plan.operations_enabled <==> wants(BlockMetric::Iops) || wants(
                BlockMetric::Latency,
            )
            &&& plan.latency_enabled <==> wants(BlockMetric::Latency)
            &&& plan.saturation_enabled <==> wants(BlockMetric::Saturation)
            &&& plan.errors_enabled <==> wants(BlockMetric::Errors)
            &&& plan.timeline_enabled <==> config.timeline
            &&& plan.request_tracking_enabled <==> follows
            &&& plan.filter_enabled <==> plan.device_filters@.len() > 0
            &&& plan.device_stats_entries == config.max_devices
            &&& wants(BlockMetric::Saturation) ==> plan.device_depths_entries
                == config.max_devices
            &&& !wants(BlockMetric::Saturation) ==> plan.device_depths_entries == 1
            &&& follows ==> plan.requests_entries == config.max_requests
            &&& !follows ==> plan.requests_entries == 1
            &&& plan.tracked_devices_entries >= config.max_devices
            &&& plan.tracked_devices_entries >= 1
            &&& plan.tracked_devices_entries <= 1 || plan.tracked_devices_entries
                == config.max_devices
            &&& config.timeline ==> plan.events_size == config.ringbuf
            &&& !config.timeline ==> plan.events_size == 4096
            &&& plan.timeline_sample_every == config.timeline_sample_every
            &&& config.timeline_min_latency_us * 1000 <= u64::MAX ==> plan.timeline_min_latency_ns
                == config.timeline_min_latency_us * 1000
            &&& config.timeline_min_latency_us * 1000 > u64::MAX ==> plan.timeline_min_latency_ns
                == u64::MAX
            &&& plan.device_filters@ == filters
            &&& plan.depth_devices@ == depths
        }),
{
}

/// A queue is watched only where saturation is asked for; it is that of a device that is
/// filtered, or of any that was found if none is.
pub proof fn law_watched_queues(
    config: &BlockIoConfig,
    filters: Seq<u32>,
    found: Seq<u32>,
    dev: u32,
)
    ensures
        watched(config, filters, found).contains(dev) <==> config.metrics@.contains(
            BlockMetric::Saturation,
        ) && (if filters.len() == 0 {
            found.contains(dev)
        } else {
            filters.contains(dev)
        }),
{
    crate::bpf::blockdev::law_distinct(found);
}

/// The bound of the first bucket of a histogram is one and that of the second four; each
/// one after that is twice the one before.
pub proof fn law_buckets_double(bucket: int)
    requires
        0 <= bucket < 31,
    ensures
        bucket_bound(0) == 1,
        bucket_bound(1) == 4,
        bucket > 0 ==> bucket_bound(bucket + 1) == 2 * bucket_bound(bucket),
        bucket_bound(31) == 0x1_0000_0000,
{
    vstd::arithmetic::power2::lemma2_to64();
    if bucket > 0 {
        vstd::arithmetic::power2::lemma_pow2_unfold((bucket + 2) as nat);
        assert(vstd::arithmetic::power2::pow2((bucket + 1) as nat) <= 0x1_0000_0000) by {
            if bucket < 30 {
                vstd::arithmetic::power2::lemma_pow2_strictly_increases(
                    (bucket + 1) as nat,
                    32,
                );
            }
        }
        if bucket < 30 {
            vstd::arithmetic::power2::lemma_pow2_strictly_increases((bucket + 2) as nat, 32);
        }
    }
}

/// A sample is due once so much time has passed that, taken at this pace, there are at
/// least as many in a second as were asked for; a forced one is always due.
pub proof fn law_samples_come_at_their_frequency(frequency: u64, last: u64, now: u64, force: bool)
    requires
        frequency > 0,
        last <= now,
    ensures
        force ==> is_due(last, frequency, now, force),
        !force ==> (is_due(last, frequency, now, force) <==> (now - last + 1) * frequency
            > 1_000_000_000),
        elapsed_since(last, now) >= 1,
        now > last ==> elapsed_since(last, now) == now - last,
{
    let interval = 1_000_000_000u64 / frequency;
    let passed = now - last;
    vstd::arithmetic::div_mod::lemma_fundamental_div_mod(1_000_000_000, frequency as int);
    vstd::arithmetic::div_mod::lemma_mod_bound(1_000_000_000, frequency as int);
    if passed >= interval {
        assert((passed + 1) * frequency > 1_000_000_000) by (nonlinear_arith)
            requires
                passed >= interval,
                1_000_000_000int == frequency * interval + 1_000_000_000int % (frequency as int),
                1_000_000_000int % (frequency as int) < frequency,
                frequency > 0,
        ;
    } else {
        assert((passed + 1) * frequency <= 1_000_000_000) by (nonlinear_arith)
            requires
                passed + 1 <= interval,
                1_000_000_000int == frequency * interval + 1_000_000_000int % (frequency as int),
                0 <= 1_000_000_000int % (frequency as int),
                frequency > 0,
        ;
    }
}

} // verus!

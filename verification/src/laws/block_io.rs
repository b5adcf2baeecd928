//! What samples of block devices say.

use super::history::{all_taken, goes_on, lemma_goes_on, lemma_one_more, tracks_in, values_in};
use crate::bpf::blockdev::RegistryView;
use crate::bpf::blocktrack::{
    all_sampled, counter_lists, depth_list, depth_sampled, device_sampled, devices_sampled,
    drops_sample, elapsed_since, emitted, list_emitted, lists_emitted, operation_list,
    sampled_devices, series_emitted, series_of, stats_sampled, track_ensured, value_sent, BlockIo,
    BlockIoConfig, BlockMetric, BlockOperation, CounterKind, CounterSampleView, DepthSnapshot,
    DeviceDepth, DeviceStats, Emission, OperationStats, SampleState, SeriesKey,
};
use crate::protocol::{CounterView, MessageView, Reading, TrackId, TrackTypeView, TrackView};
use vstd::prelude::*;

verus! {

/// Whether growth and what was before make up what is now; a counter that went back
/// has not grown.
pub open spec fn makes_up(previous: u64, growth: u64, current: u64) -> bool {
    &&& previous <= current ==> previous + growth == current
    &&& current <= previous ==> growth == 0
}

/// Whether that holds of every counter of an operation.
pub open spec fn operation_makes_up(
    previous: OperationStats,
    growth: OperationStats,
    current: OperationStats,
) -> bool {
    &&& makes_up(previous.bytes, growth.bytes, current.bytes)
    &&& makes_up(previous.operations, growth.operations, current.operations)
    &&& makes_up(previous.errors, growth.errors, current.errors)
    &&& makes_up(previous.queue_latency_ns, growth.queue_latency_ns, current.queue_latency_ns)
    &&& makes_up(
        previous.service_latency_ns,
        growth.service_latency_ns,
        current.service_latency_ns,
    )
    &&& makes_up(previous.total_latency_ns, growth.total_latency_ns, current.total_latency_ns)
    &&& forall|i: int|
        0 <= i < 32 ==> makes_up(
            previous.service_histogram@[i],
            #[trigger] growth.service_histogram@[i],
            current.service_histogram@[i],
        )
    &&& forall|i: int|
        0 <= i < 32 ==> makes_up(
            previous.total_histogram@[i],
            #[trigger] growth.total_histogram@[i],
            current.total_histogram@[i],
        )
}

/// The growth of an operation's counters and what they were before make up what they
/// are; counters that stayed have a growth of zero.
pub proof fn law_operation_growth_adds_up(
    current: OperationStats,
    previous: OperationStats,
    growth: OperationStats,
)
    requires
        current.grown(previous, growth),
    ensures
        operation_makes_up(previous, growth, current),
{
}

/// The same of a device that was not set up anew, with what it counts besides its
/// operations.
pub proof fn law_device_growth_adds_up(
    current: DeviceStats,
    previous: DeviceStats,
    growth: DeviceStats,
)
    requires
        current.grown(Some(previous), growth),
        current.first_seen_ns == previous.first_seen_ns,
    ensures
        forall|i: int|
            0 <= i < 5 ==> operation_makes_up(
                previous.operations@[i],
                #[trigger] growth.operations@[i],
                current.operations@[i],
            ),
        makes_up(previous.requeues, growth.requeues, current.requeues),
        makes_up(previous.lost_requests, growth.lost_requests, current.lost_requests),
        makes_up(previous.timeline_drops, growth.timeline_drops, current.timeline_drops),
{
    assert forall|i: int| 0 <= i < 5 implies operation_makes_up(
        previous.operations@[i],
        #[trigger] growth.operations@[i],
        current.operations@[i],
    ) by {
        law_operation_growth_adds_up(
            current.operations@[i],
            previous.operations@[i],
            growth.operations@[i],
        );
    }
}

/// A device that is new, or was set up anew, has grown by all that it has counted.
pub proof fn law_new_device_grows_from_zero(
    current: DeviceStats,
    previous: Option<DeviceStats>,
    growth: DeviceStats,
)
    requires
        current.grown(previous, growth),
        previous matches Some(p) ==> p.first_seen_ns != current.first_seen_ns,
    ensures
        forall|i: int| 0 <= i < 5 ==> #[trigger] growth.operations@[i] == current.operations@[i],
        growth.requeues == current.requeues,
        growth.lost_requests == current.lost_requests,
        growth.timeline_drops == current.timeline_drops,
{
}

/// While nothing happens to a queue, it is busy for as long as a request is in
/// flight, saturated for as long as one is queued, and each request adds its own time.
pub proof fn law_queue_time_passes(depth: DeviceDepth, now: u64, later: u64)
    requires
        depth.last_update_ns <= now <= later,
        depth.busy_ns + later <= u64::MAX,
        depth.saturated_ns + later <= u64::MAX,
        depth.inflight_ns + depth.inflight * later <= u64::MAX,
        depth.queued_ns + depth.queued * later <= u64::MAX,
    ensures
        ({
            let passed = later - now;
            let growth = depth.at(later).since(Some(depth.at(now)));
            let whole = now - depth.last_update_ns;
            &&& growth.busy_ns == (if depth.inflight > 0 { passed } else { 0 })
            &&& growth.saturated_ns == (if depth.queued > 0 { passed } else { 0 })
            &&& growth.inflight_ns == depth.inflight * passed
            &&& growth.queued_ns == depth.queued * passed
            &&& depth.at(now).busy_ns == depth.busy_ns + (if depth.inflight > 0 { whole } else { 0 })
            &&& depth.at(now).saturated_ns == depth.saturated_ns + (if depth.queued > 0 {
                whole
            } else {
                0
            })
            &&& depth.at(now).inflight_ns == depth.inflight_ns + depth.inflight * whole
            &&& depth.at(now).queued_ns == depth.queued_ns + depth.queued * whole
            &&& growth.inflight == depth.inflight && growth.queued == depth.queued
            &&& growth.max_inflight == depth.max_inflight && growth.max_queued == depth.max_queued
            &&& growth.first_seen_ns == depth.first_seen_ns
        }),
{
    let last = depth.last_update_ns as int;
    lemma_times(depth.inflight as int, last, now as int, later as int);
    lemma_times(depth.queued as int, last, now as int, later as int);
}

/// Products over consecutive times.
proof fn lemma_times(n: int, a: int, b: int, c: int)
    requires
        0 <= n,
        0 <= a <= b <= c,
    ensures
        0 <= (b - a) * n <= (c - a) * n <= c * n,
        (c - a) * n - (b - a) * n == (c - b) * n,
        c * n == n * c,
        (b - a) * n == n * (b - a),
        (c - b) * n == n * (c - b),
        (c - a) * n == n * (c - a),
{
    assert(0 <= (b - a) * n <= (c - a) * n <= c * n && (c - a) * n - (b - a) * n == (c - b) * n
        && c * n == n * c && (b - a) * n == n * (b - a) && (c - b) * n == n * (c - b) && (c - a)
        * n == n * (c - a)) by (nonlinear_arith)
        requires
            0 <= n,
            0 <= a <= b <= c,
    ;
}

/// The times of a queue and what they were before make up what they are, and a queue
/// that is new, or was set up anew, counts from zero.
pub proof fn law_queue_growth_adds_up(current: DepthSnapshot, previous: DepthSnapshot)
    ensures
        ({
            let growth = current.since(Some(previous));
            if current.first_seen_ns == previous.first_seen_ns {
                &&& makes_up(previous.busy_ns, growth.busy_ns, current.busy_ns)
                &&& makes_up(previous.saturated_ns, growth.saturated_ns, current.saturated_ns)
                &&& makes_up(previous.inflight_ns, growth.inflight_ns, current.inflight_ns)
                &&& makes_up(previous.queued_ns, growth.queued_ns, current.queued_ns)
                &&& growth.inflight == current.inflight && growth.queued == current.queued
                &&& growth.max_inflight == current.max_inflight
                &&& growth.max_queued == current.max_queued
            } else {
                growth == current
            }
        }),
        current.since(None) == current,
{
}

/// The place at which the kernel keeps the counters of an operation.
pub open spec fn place_of(operation: BlockOperation) -> int {
    match operation {
        BlockOperation::Read => 0,
        BlockOperation::Write => 1,
        BlockOperation::Flush => 2,
        BlockOperation::Discard => 3,
        BlockOperation::Other => 4,
    }
}

/// The metric that a sample belongs to.
pub open spec fn metric_of(kind: CounterKind) -> BlockMetric {
    match kind {
        CounterKind::Throughput => BlockMetric::Throughput,
        CounterKind::Iops => BlockMetric::Iops,
        CounterKind::Errors | CounterKind::Requeues | CounterKind::LostRequests
        | CounterKind::TimelineDrops => BlockMetric::Errors,
        CounterKind::BusyPercent | CounterKind::SaturatedPercent | CounterKind::AverageInflight
        | CounterKind::AverageQueued | CounterKind::Inflight | CounterKind::Queued
        | CounterKind::MaxInflight | CounterKind::MaxQueued => BlockMetric::Saturation,
        _ => BlockMetric::Latency,
    }
}

/// What the samples of an operation are named after.
pub open spec fn word_of(operation: BlockOperation) -> Seq<char> {
    match operation {
        BlockOperation::Read => "read"@,
        BlockOperation::Write => "write"@,
        BlockOperation::Flush => "flush"@,
        BlockOperation::Discard => "discard"@,
        BlockOperation::Other => "other"@,
    }
}

/// What a sample is named for its kind.
pub open spec fn words_of(kind: CounterKind) -> Seq<char> {
    match kind {
        CounterKind::Throughput => "_throughput"@,
        CounterKind::Iops => "_iops"@,
        CounterKind::QueueAverage => "_queue_latency_avg"@,
        CounterKind::ServiceAverage => "_service_latency_avg"@,
        CounterKind::TotalAverage => "_total_latency_avg"@,
        CounterKind::ServiceP50 => "_service_latency_p50"@,
        CounterKind::ServiceP95 => "_service_latency_p95"@,
        CounterKind::ServiceP99 => "_service_latency_p99"@,
        CounterKind::TotalP50 => "_total_latency_p50"@,
        CounterKind::TotalP95 => "_total_latency_p95"@,
        CounterKind::TotalP99 => "_total_latency_p99"@,
        CounterKind::Errors => "_errors"@,
        CounterKind::BusyPercent => "busy_percent"@,
        CounterKind::SaturatedPercent => "saturated_percent"@,
        CounterKind::AverageInflight => "average_inflight"@,
        CounterKind::AverageQueued => "average_queued"@,
        CounterKind::Inflight => "inflight"@,
        CounterKind::Queued => "queued"@,
        CounterKind::MaxInflight => "max_inflight"@,
        CounterKind::MaxQueued => "max_queued"@,
        CounterKind::Requeues => "requeues"@,
        CounterKind::LostRequests => "lost_requests"@,
        CounterKind::TimelineDrops => "timeline_drops"@,
    }
}

/// Whether a value is an average of times over operations.
pub open spec fn is_average(value: Reading, total: u64, count: u64) -> bool {
    value matches Reading::AverageMicros { total_ns, operations } && total_ns == total
        && operations >= 1 && (count >= 1 ==> operations == count)
}

/// Whether a sample says of an operation what its kind promises, given how far the
/// operation's counters have grown within the time.
pub open spec fn tells_of_operation(
    sample: CounterSampleView,
    operation: BlockOperation,
    growth: OperationStats,
    elapsed: u64,
) -> bool {
    &&& sample.operation == Some(operation)
    &&& sample.name == word_of(operation) + words_of(sample.kind)
    &&& match sample.kind {
        CounterKind::Throughput => sample.value == (Reading::PerSecond {
            amount: growth.bytes,
            elapsed_ns: elapsed,
        }) && sample.unit == "bytes/s"@,
        CounterKind::Iops => sample.value == (Reading::PerSecond {
            amount: growth.operations,
            elapsed_ns: elapsed,
        }) && sample.unit == "operations/s"@,
        CounterKind::QueueAverage => is_average(
            sample.value,
            growth.queue_latency_ns,
            growth.operations,
        ) && sample.unit == "us"@,
        CounterKind::ServiceAverage => is_average(
            sample.value,
            growth.service_latency_ns,
            growth.operations,
        ) && sample.unit == "us"@,
        CounterKind::TotalAverage => is_average(
            sample.value,
            growth.total_latency_ns,
            growth.operations,
        ) && sample.unit == "us"@,
        CounterKind::ServiceP50 => is_quantile(sample, growth.service_histogram, 50),
        CounterKind::ServiceP95 => is_quantile(sample, growth.service_histogram, 95),
        CounterKind::ServiceP99 => is_quantile(sample, growth.service_histogram, 99),
        CounterKind::TotalP50 => is_quantile(sample, growth.total_histogram, 50),
        CounterKind::TotalP95 => is_quantile(sample, growth.total_histogram, 95),
        CounterKind::TotalP99 => is_quantile(sample, growth.total_histogram, 99),
        CounterKind::Errors => sample.value == (Reading::Count { n: growth.errors }) && sample.unit
            == "count"@,
        _ => false,
    }
}

/// Whether a sample is a quantile of a histogram.
pub open spec fn is_quantile(sample: CounterSampleView, histogram: [u64; 32], percent: u64) -> bool {
    sample.value matches Reading::LatencyQuantile { histogram: h, percent: p } && h == histogram
        && p == percent && sample.unit == "us"@
}

/// The samples of an operation tell of its own growth, by the metrics that are asked
/// for: each asked-for kind once, and no other.
pub proof fn law_operation_samples(
    config: &BlockIoConfig,
    operation: BlockOperation,
    growth: OperationStats,
    elapsed: u64,
)
    ensures
        ({
            let list = operation_list(config, operation, growth, elapsed);
            &&& forall|i: int|
                0 <= i < list.len() ==> tells_of_operation(
                    #[trigger] list[i],
                    operation,
                    growth,
                    elapsed,
                ) && config.metrics@.contains(metric_of(list[i].kind))
            &&& forall|i: int, j: int|
                0 <= i < j < list.len() ==> (#[trigger] list[i]).kind != (#[trigger] list[j]).kind
            &&& list.len() == (if config.metrics@.contains(BlockMetric::Throughput) {
                1int
            } else {
                0
            }) + (if config.metrics@.contains(BlockMetric::Iops) {
                1int
            } else {
                0
            }) + (if config.metrics@.contains(BlockMetric::Latency) {
                9int
            } else {
                0
            }) + (if config.metrics@.contains(BlockMetric::Errors) {
                1int
            } else {
                0
            })
        }),
{
}

/// Whether a sample says of a device what its kind promises.
pub open spec fn tells_of_device(sample: CounterSampleView, growth: DeviceStats) -> bool {
    &&& sample.operation is None
    &&& sample.name == words_of(sample.kind)
    &&& sample.unit == "count"@
    &&& match sample.kind {
        CounterKind::Requeues => sample.value == (Reading::Count { n: growth.requeues }),
        CounterKind::LostRequests => sample.value == (Reading::Count { n: growth.lost_requests }),
        CounterKind::TimelineDrops => sample.value == (Reading::Count { n: growth.timeline_drops }),
        _ => false,
    }
}

/// The samples of a device: those of the operation asked for at each place, each told
/// from that operation's own counters, and last what went wrong, if errors are asked
/// for.
pub proof fn law_device_samples(config: &BlockIoConfig, growth: DeviceStats, elapsed: u64)
    ensures
        ({
            let lists = counter_lists(config, growth, elapsed);
            let n = config.operations@.len();
            &&& forall|k: int, i: int|
                0 <= k < n && 0 <= i < lists[k].len() ==> tells_of_operation(
                    #[trigger] lists[k][i],
                    config.operations@[k],
                    growth.operations@[place_of(config.operations@[k])],
                    elapsed,
                )
            &&& if config.metrics@.contains(BlockMetric::Errors) {
                &&& lists.len() == n + 1
                &&& lists[n as int].len() == 2
                &&& lists[n as int][0].kind == CounterKind::Requeues
                &&& lists[n as int][1].kind == CounterKind::LostRequests
                &&& tells_of_device(lists[n as int][0], growth)
                &&& tells_of_device(lists[n as int][1], growth)
            } else {
                lists.len() == n
            }
        }),
        tells_of_device(drops_sample(growth), growth),
        drops_sample(growth).kind == CounterKind::TimelineDrops,
{
    let lists = counter_lists(config, growth, elapsed);
    let n = config.operations@.len();
    assert forall|k: int, i: int| 0 <= k < n && 0 <= i < lists[k].len() implies tells_of_operation(
        #[trigger] lists[k][i],
        config.operations@[k],
        growth.operations@[place_of(config.operations@[k])],
        elapsed,
    ) by {
        let operation = config.operations@[k];
        let own = growth.operations@[place_of(operation)];
        law_operation_samples(config, operation, own, elapsed);
        assert(lists[k] == operation_list(config, operation, own, elapsed));
    }
}

/// What is sent of an operation over an interval is measured from the sample before:
/// the rates and counts are the differences of its counters, and the averages are over
/// the operations of the interval.
pub proof fn law_interval_is_measured_from_the_last_sample(
    config: &BlockIoConfig,
    previous: DeviceStats,
    current: DeviceStats,
    growth: DeviceStats,
    elapsed: u64,
    k: int,
    i: int,
)
    requires
        current.grown(Some(previous), growth),
        current.first_seen_ns == previous.first_seen_ns,
        0 <= k < config.operations@.len(),
        0 <= i < counter_lists(config, growth, elapsed)[k].len(),
    ensures
        ({
            let sample = counter_lists(config, growth, elapsed)[k][i];
            let place = place_of(config.operations@[k]);
            let then = previous.operations@[place];
            let now = current.operations@[place];
            &&& sample.kind == CounterKind::Iops && then.operations <= now.operations
                ==> sample.value == (Reading::PerSecond {
                amount: (now.operations - then.operations) as u64,
                elapsed_ns: elapsed,
            })
            &&& sample.kind == CounterKind::Throughput && then.bytes <= now.bytes ==> sample.value
                == (Reading::PerSecond {
                amount: (now.bytes - then.bytes) as u64,
                elapsed_ns: elapsed,
            })
            &&& sample.kind == CounterKind::Errors && then.errors <= now.errors ==> sample.value
                == (Reading::Count { n: (now.errors - then.errors) as u64 })
            &&& sample.kind == CounterKind::ServiceAverage && then.operations < now.operations
                && then.service_latency_ns <= now.service_latency_ns ==> sample.value
                == (Reading::AverageMicros {
                total_ns: (now.service_latency_ns - then.service_latency_ns) as u64,
                operations: (now.operations - then.operations) as u64,
            })
            &&& sample.kind == CounterKind::QueueAverage && then.operations < now.operations
                && then.queue_latency_ns <= now.queue_latency_ns ==> sample.value
                == (Reading::AverageMicros {
                total_ns: (now.queue_latency_ns - then.queue_latency_ns) as u64,
                operations: (now.operations - then.operations) as u64,
            })
            &&& sample.kind == CounterKind::TotalAverage && then.operations < now.operations
                && then.total_latency_ns <= now.total_latency_ns ==> sample.value
                == (Reading::AverageMicros {
                total_ns: (now.total_latency_ns - then.total_latency_ns) as u64,
                operations: (now.operations - then.operations) as u64,
            })
        }),
{
    law_device_samples(config, growth, elapsed);
    law_device_growth_adds_up(current, previous, growth);
    let place = place_of(config.operations@[k]);
    assert(operation_makes_up(
        previous.operations@[place],
        growth.operations@[place],
        current.operations@[place],
    ));
    assert(tells_of_operation(
        counter_lists(config, growth, elapsed)[k][i],
        config.operations@[k],
        growth.operations@[place],
        elapsed,
    ));
}

/// The samples of a queue: the share of the interval in which it was busy and
/// saturated, how many requests there were on average, and how many there are and were
/// at most.
pub proof fn law_queue_samples(growth: DepthSnapshot, elapsed: u64)
    requires
        elapsed >= 1,
    ensures
        ({
            let list = depth_list(growth, elapsed);
            &&& list.len() == 8
            &&& forall|i: int, j: int|
                0 <= i < j < 8 ==> (#[trigger] list[i]).kind != (#[trigger] list[j]).kind
            &&& forall|i: int|
                0 <= i < 8 ==> {
                    let sample = #[trigger] list[i];
                    &&& sample.operation is None
                    &&& sample.name == words_of(sample.kind)
                    &&& match sample.kind {
                        CounterKind::BusyPercent => sample.unit == "percent"@ && sample.value == (
                        Reading::ClampedPercent { part: growth.busy_ns, whole: elapsed }),
                        CounterKind::SaturatedPercent => sample.unit == "percent"@ && sample.value
                            == (Reading::ClampedPercent {
                            part: growth.saturated_ns,
                            whole: elapsed,
                        }),
                        CounterKind::AverageInflight => sample.unit == "requests"@ && sample.value
                            == (Reading::Ratio { part: growth.inflight_ns, whole: elapsed }),
                        CounterKind::AverageQueued => sample.unit == "requests"@ && sample.value
                            == (Reading::Ratio { part: growth.queued_ns, whole: elapsed }),
                        CounterKind::Inflight => sample.unit == "requests"@ && sample.value == (
                        Reading::Count { n: growth.inflight as u64 }),
                        CounterKind::Queued => sample.unit == "requests"@ && sample.value == (
                        Reading::Count { n: growth.queued as u64 }),
                        CounterKind::MaxInflight => sample.unit == "requests"@ && sample.value == (
                        Reading::Count { n: growth.max_inflight as u64 }),
                        CounterKind::MaxQueued => sample.unit == "requests"@ && sample.value == (
                        Reading::Count { n: growth.max_queued as u64 }),
                        _ => false,
                    }
                }
        }),
{
}

/// Whether a counter value is the sample, at a time, of the series with an id.
pub open spec fn shows(
    value: CounterView,
    sample: CounterSampleView,
    id: u64,
    timestamp: u64,
) -> bool {
    &&& value.name == sample.name
    &&& value.value == sample.value
    &&& value.unit == Some(sample.unit)
    &&& value.timestamp == timestamp
    &&& value.track_id == TrackId::Counter { id }
}

/// Whether a track is that of a series under a device's track.
pub open spec fn announces(
    track: TrackView,
    sample: CounterSampleView,
    id: u64,
    device: u64,
) -> bool {
    &&& track.name == sample.name
    &&& track.track_type == TrackTypeView::Counter { id, unit: Some(sample.unit) }
    &&& track.parent == Some(TrackTypeView::Custom { id: device })
}

/// A sample that is taken adds exactly one value: the sample's, at the time of
/// sampling, for the id that its series keeps. A new series is announced right before,
/// and a series that has its id is not announced again. Other series and all tracks of
/// devices stay as they are.
pub proof fn law_sample_is_sent(
    before: Emission,
    dev: u32,
    device: u64,
    sample: CounterSampleView,
    timestamp: u64,
    after: Emission,
)
    requires
        series_emitted(before, dev, device, sample, timestamp, after, 0),
    ensures
        ({
            let key = SeriesKey { dev, operation: sample.operation, kind: sample.kind };
            &&& after.series.contains_key(key)
            &&& values_in(after.history).len() == values_in(before.history).len() + 1
            &&& values_in(after.history).drop_last() == values_in(before.history)
            &&& shows(values_in(after.history).last(), sample, after.series[key], timestamp)
            &&& before.series.contains_key(key) ==> after.series == before.series && tracks_in(
                after.history,
            ) == tracks_in(before.history)
            &&& !before.series.contains_key(key) ==> {
                &&& tracks_in(after.history).len() == tracks_in(before.history).len() + 1
                &&& tracks_in(after.history).drop_last() == tracks_in(before.history)
                &&& announces(
                    tracks_in(after.history).last(),
                    sample,
                    after.series[key],
                    device,
                )
            }
            &&& forall|k: SeriesKey|
                k != key ==> (#[trigger] after.series.contains_key(k)
                    == before.series.contains_key(k)) && (before.series.contains_key(k)
                    ==> after.series[k] == before.series[k])
            &&& after.tracks == before.tracks
        }),
{
    let key = series_of(dev, sample);
    if before.series.contains_key(key) {
        lemma_one_more(before.history, after.history.last().0, 0);
        assert(after.history.drop_last() =~= before.history);
        assert(after.history =~= before.history.push(after.history.last()));
        assert(values_in(after.history).drop_last() =~= values_in(before.history));
    } else {
        let (id, c) = choose|id: u64, c: i32|
            {
                let named = #[trigger] crate::bpf::blocktrack::series_announced(
                    before,
                    dev,
                    device,
                    sample,
                    id,
                    c,
                );
                if c != 0 {
                    after == named && 0 == c
                } else {
                    after == value_sent(named, sample, id, timestamp, 0)
                }
            };
        let named = crate::bpf::blocktrack::series_announced(before, dev, device, sample, id, c);
        assert(named.history.drop_last() =~= before.history);
        assert(after.history.drop_last() =~= named.history);
        lemma_one_more(before.history, named.history.last().0, c);
        lemma_one_more(named.history, after.history.last().0, 0);
        assert(named.history =~= before.history.push(named.history.last()));
        assert(after.history =~= named.history.push(after.history.last()));
        assert(values_in(after.history).drop_last() =~= values_in(before.history));
        assert(tracks_in(after.history).drop_last() =~= tracks_in(before.history));
    }
}

/// The track of a device is announced once, by the device's name and without a parent;
/// after that the device has the id it was announced under.
pub proof fn law_device_track_is_announced_once(
    before: Emission,
    dev: u32,
    name: Seq<char>,
    after: Emission,
    id: u64,
)
    requires
        track_ensured(before, dev, name, after, id, 0),
    ensures
        after.tracks.contains_key(dev) && after.tracks[dev] == id,
        values_in(after.history) == values_in(before.history),
        before.tracks.contains_key(dev) ==> after == before,
        !before.tracks.contains_key(dev) ==> {
            &&& tracks_in(after.history) == tracks_in(before.history).push(
                TrackView { name, track_type: TrackTypeView::Custom { id }, parent: None },
            )
            &&& after.series == before.series
        },
        forall|d: u32|
            d != dev ==> (#[trigger] after.tracks.contains_key(d) == before.tracks.contains_key(d))
                && (before.tracks.contains_key(d) ==> after.tracks[d] == before.tracks[d]),
{
    if !before.tracks.contains_key(dev) {
        lemma_one_more(before.history, after.history.last().0, 0);
        assert(after.history =~= before.history.push(after.history.last()));
    }
}

/// Samples that are all taken show exactly their values, in their order, at the time of
/// sampling.
pub proof fn law_samples_are_sent_in_order(
    before: Emission,
    dev: u32,
    name: Seq<char>,
    samples: Seq<CounterSampleView>,
    timestamp: u64,
    after: Emission,
)
    requires
        list_emitted(before, dev, name, samples, timestamp, after, false),
    ensures
        ({
            let shown = values_in(after.history);
            let n = values_in(before.history).len();
            &&& shown.len() == n + samples.len()
            &&& shown.take(n as int) == values_in(before.history)
            &&& forall|i: int|
                0 <= i < samples.len() ==> {
                    let value = #[trigger] shown[n + i];
                    &&& value.name == samples[i].name
                    &&& value.value == samples[i].value
                    &&& value.unit == Some(samples[i].unit)
                    &&& value.timestamp == timestamp
                }
        }),
    decreases samples.len(),
{
    let n = values_in(before.history).len();
    if samples.len() == 0 {
        assert(values_in(before.history).take(n as int) =~= values_in(before.history));
    } else {
        let rest = samples.drop_last();
        let (middle, code) = choose|middle: Emission, code: i32|
            {
                &&& list_emitted(before, dev, name, rest, timestamp, middle, false)
                &&& #[trigger] emitted(middle, dev, name, samples.last(), timestamp, after, code)
                &&& false == (code != 0)
            };
        law_samples_are_sent_in_order(before, dev, name, rest, timestamp, middle);
        let (ready, track, c) = choose|ready: Emission, track: u64, c: i32|
            {
                &&& #[trigger] track_ensured(middle, dev, name, ready, track, c)
                &&& if c != 0 {
                    after == ready && code == c
                } else {
                    series_emitted(ready, dev, track, samples.last(), timestamp, after, code)
                }
            };
        law_device_track_is_announced_once(middle, dev, name, ready, track);
        law_sample_is_sent(ready, dev, track, samples.last(), timestamp, after);
        let shown = values_in(after.history);
        let part = values_in(middle.history);
        assert(shown.drop_last() == part);
        assert(shown.take(n as int) =~= part.take(n as int));
        assert forall|i: int| 0 <= i < samples.len() implies {
            let value = #[trigger] shown[n + i];
            &&& value.name == samples[i].name
            &&& value.value == samples[i].value
            &&& value.unit == Some(samples[i].unit)
            &&& value.timestamp == timestamp
        } by {
            if i < rest.len() {
                assert(shown[n + i] == shown.drop_last()[n + i]);
                assert(part[n + i].name == rest[i].name);
            } else {
                assert(shown[n + i] == shown.last());
            }
        }
    }
}

/// What a device had at a sample is what its next growth is measured from: its counters
/// are remembered as they were read, and its queue as it was at the time. Nothing is
/// remembered of other devices anew.
pub proof fn law_sample_is_remembered(
    config: &BlockIoConfig,
    name: Seq<char>,
    before: SampleState,
    dev: u32,
    stats: Option<DeviceStats>,
    depth: Option<DeviceDepth>,
    elapsed: u64,
    now: u64,
    after: SampleState,
)
    requires
        device_sampled(config, name, before, dev, stats, depth, elapsed, now, after),
    ensures
        stats matches Some(current) ==> after.stats.contains_key(dev) && after.stats[dev]
            == current,
        stats is None ==> after.stats == before.stats,
        stats is None && depth is Some ==> after.depths.contains_key(dev) && after.depths[dev]
            == depth->0.at(now),
        forall|d: u32|
            d != dev ==> (#[trigger] after.stats.contains_key(d) == before.stats.contains_key(d))
                && (before.stats.contains_key(d) ==> after.stats[d] == before.stats[d]),
        forall|d: u32|
            d != dev ==> (#[trigger] after.depths.contains_key(d) == before.depths.contains_key(d))
                && (before.depths.contains_key(d) ==> after.depths[d] == before.depths[d]),
{
}

/// Sending a sample adds to what was submitted, and a refusal shows there.
proof fn lemma_emitted(
    before: Emission,
    dev: u32,
    name: Seq<char>,
    sample: CounterSampleView,
    timestamp: u64,
    after: Emission,
    code: i32,
)
    requires
        emitted(before, dev, name, sample, timestamp, after, code),
    ensures
        goes_on(before.history, after.history),
        code != 0 ==> !all_taken(before.history, after.history),
{
    let (middle, track, c) = choose|middle: Emission, track: u64, c: i32|
        {
            &&& #[trigger] track_ensured(before, dev, name, middle, track, c)
            &&& if c != 0 {
                after == middle && code == c
            } else {
                series_emitted(middle, dev, track, sample, timestamp, after, code)
            }
        };
    assert(goes_on(before.history, middle.history)) by {
        assert(middle.history.take(before.history.len() as int) =~= before.history);
    }
    if c != 0 {
        assert(middle.history[before.history.len() as int].1 == c);
    } else {
        lemma_series_emitted(middle, dev, track, sample, timestamp, after, code);
        lemma_goes_on(before.history, middle.history, after.history);
    }
}

proof fn lemma_series_emitted(
    before: Emission,
    dev: u32,
    track: u64,
    sample: CounterSampleView,
    timestamp: u64,
    after: Emission,
    code: i32,
)
    requires
        series_emitted(before, dev, track, sample, timestamp, after, code),
    ensures
        goes_on(before.history, after.history),
        code != 0 ==> !all_taken(before.history, after.history),
{
    let n = before.history.len() as int;
    let key = series_of(dev, sample);
    if before.series.contains_key(key) {
        assert(after.history.take(n) =~= before.history);
        assert(after.history[n].1 == code);
    } else {
        let (id, c) = choose|id: u64, c: i32|
            {
                let named = #[trigger] crate::bpf::blocktrack::series_announced(
                    before,
                    dev,
                    track,
                    sample,
                    id,
                    c,
                );
                if c != 0 {
                    after == named && code == c
                } else {
                    after == value_sent(named, sample, id, timestamp, code)
                }
            };
        assert(after.history.take(n) =~= before.history);
        if c != 0 {
            assert(after.history[n].1 == c);
        } else {
            assert(after.history[n + 1].1 == code);
        }
    }
}

proof fn lemma_list_emitted(
    before: Emission,
    dev: u32,
    name: Seq<char>,
    samples: Seq<CounterSampleView>,
    timestamp: u64,
    after: Emission,
    stopped: bool,
)
    requires
        list_emitted(before, dev, name, samples, timestamp, after, stopped),
    ensures
        goes_on(before.history, after.history),
        stopped ==> !all_taken(before.history, after.history),
    decreases samples.len(),
{
    if samples.len() == 0 {
        assert(before.history.take(before.history.len() as int) =~= before.history);
    } else {
        let rest = samples.drop_last();
        if stopped && list_emitted(before, dev, name, rest, timestamp, after, true) {
            lemma_list_emitted(before, dev, name, rest, timestamp, after, true);
        } else {
            let (middle, code) = choose|middle: Emission, code: i32|
                {
                    &&& list_emitted(before, dev, name, rest, timestamp, middle, false)
                    &&& #[trigger] emitted(
                        middle,
                        dev,
                        name,
                        samples.last(),
                        timestamp,
                        after,
                        code,
                    )
                    &&& stopped == (code != 0)
                };
            lemma_list_emitted(before, dev, name, rest, timestamp, middle, false);
            lemma_emitted(middle, dev, name, samples.last(), timestamp, after, code);
            lemma_goes_on(before.history, middle.history, after.history);
        }
    }
}

/// Lists, one behind the other.
pub open spec fn strung(lists: Seq<Seq<CounterSampleView>>) -> Seq<CounterSampleView>
    decreases lists.len(),
{
    if lists.len() == 0 {
        seq![]
    } else {
        strung(lists.drop_last()) + lists.last()
    }
}

/// Whether what was submitted since shows exactly these samples, in their order.
pub open spec fn samples_are_shown(
    before: Emission,
    samples: Seq<CounterSampleView>,
    timestamp: u64,
    after: Emission,
) -> bool {
    let shown = values_in(after.history);
    let n = values_in(before.history).len();
    &&& shown.len() == n + samples.len()
    &&& shown.take(n as int) == values_in(before.history)
    &&& forall|i: int|
        0 <= i < samples.len() ==> {
            let value = #[trigger] shown[n + i];
            &&& value.name == samples[i].name
            &&& value.value == samples[i].value
            &&& value.unit == Some(samples[i].unit)
            &&& value.timestamp == timestamp
        }
}

proof fn lemma_shown_together(
    a: Emission,
    first: Seq<CounterSampleView>,
    b: Emission,
    second: Seq<CounterSampleView>,
    timestamp: u64,
    c: Emission,
)
    requires
        samples_are_shown(a, first, timestamp, b),
        samples_are_shown(b, second, timestamp, c),
    ensures
        samples_are_shown(a, first + second, timestamp, c),
{
    let n = values_in(a.history).len();
    let m = values_in(b.history).len();
    let part = values_in(b.history);
    let shown = values_in(c.history);
    let all = first + second;
    assert forall|i: int| 0 <= i < m implies #[trigger] shown[i] == part[i] by {
        assert(shown.take(m as int)[i] == shown[i]);
    }
    assert(shown.take(n as int) =~= part.take(n as int));
    assert forall|i: int| 0 <= i < all.len() implies {
        let value = #[trigger] shown[n + i];
        &&& value.name == all[i].name
        &&& value.value == all[i].value
        &&& value.unit == Some(all[i].unit)
        &&& value.timestamp == timestamp
    } by {
        if i < first.len() {
            assert(shown[n + i] == part[n + i]);
        } else {
            assert(shown[m + (i - first.len())].name == second[i - first.len()].name);
        }
    }
}

proof fn lemma_lists_are_shown(
    before: Emission,
    dev: u32,
    name: Seq<char>,
    lists: Seq<Seq<CounterSampleView>>,
    timestamp: u64,
    after: Emission,
)
    requires
        lists_emitted(before, dev, name, lists, timestamp, after),
    ensures
        goes_on(before.history, after.history),
        all_taken(before.history, after.history) ==> samples_are_shown(
            before,
            strung(lists),
            timestamp,
            after,
        ),
    decreases lists.len(),
{
    if lists.len() == 0 {
        assert(before.history.take(before.history.len() as int) =~= before.history);
        assert(values_in(before.history).take(values_in(before.history).len() as int)
            =~= values_in(before.history));
    } else {
        let rest = lists.drop_last();
        let (middle, stopped) = choose|middle: Emission, stopped: bool|
            {
                &&& lists_emitted(before, dev, name, rest, timestamp, middle)
                &&& #[trigger] list_emitted(
                    middle,
                    dev,
                    name,
                    lists.last(),
                    timestamp,
                    after,
                    stopped,
                )
            };
        lemma_lists_are_shown(before, dev, name, rest, timestamp, middle);
        lemma_list_emitted(middle, dev, name, lists.last(), timestamp, after, stopped);
        lemma_goes_on(before.history, middle.history, after.history);
        if all_taken(before.history, after.history) {
            law_samples_are_sent_in_order(middle, dev, name, lists.last(), timestamp, after);
            lemma_shown_together(before, strung(rest), middle, lists.last(), timestamp, after);
        }
    }
}

/// What was remembered of a device.
pub open spec fn last_of<V>(map: Map<u32, V>, dev: u32) -> Option<V> {
    if map.contains_key(dev) {
        Some(map[dev])
    } else {
        None
    }
}

/// What is sent of the counters of a device, if all of it is taken, is how far they have
/// grown since its last sample: the lists of what has grown, one behind the other, and,
/// with a timeline, what the timeline lost.
pub proof fn law_growth_of_a_device_is_shown(
    config: &BlockIoConfig,
    name: Seq<char>,
    before: SampleState,
    dev: u32,
    current: DeviceStats,
    elapsed: u64,
    now: u64,
    after: Emission,
    code: i32,
)
    requires
        stats_sampled(config, name, before, dev, current, elapsed, now, after, code),
        all_taken(before.emission.history, after.history),
    ensures
        exists|growth: DeviceStats|
            {
                &&& #[trigger] current.grown(last_of(before.stats, dev), growth)
                &&& samples_are_shown(
                    before.emission,
                    strung(counter_lists(config, growth, elapsed)) + if config.timeline {
                        seq![drops_sample(growth)]
                    } else {
                        seq![]
                    },
                    now,
                    after,
                )
            },
{
    let (growth, middle) = choose|growth: DeviceStats, middle: Emission|
        {
            &&& #[trigger] current.grown(
                crate::bpf::blocktrack::held(before.stats, dev),
                growth,
            )
            &&& #[trigger] lists_emitted(
                before.emission,
                dev,
                name,
                counter_lists(config, growth, elapsed),
                now,
                middle,
            )
            &&& if config.timeline {
                emitted(middle, dev, name, drops_sample(growth), now, after, code)
            } else {
                after == middle && code == 0
            }
        };
    let lists = counter_lists(config, growth, elapsed);
    assert(current.grown(last_of(before.stats, dev), growth));
    lemma_lists_are_shown(before.emission, dev, name, lists, now, middle);
    if config.timeline {
        let one = seq![drops_sample(growth)];
        lemma_emitted(middle, dev, name, drops_sample(growth), now, after, code);
        lemma_goes_on(before.emission.history, middle.history, after.history);
        assert(one.drop_last() =~= seq![]);
        assert(list_emitted(middle, dev, name, one.drop_last(), now, middle, false));
        assert(list_emitted(middle, dev, name, one, now, after, false)) by {
            assert(emitted(middle, dev, name, one.last(), now, after, code));
        }
        law_samples_are_sent_in_order(middle, dev, name, one, now, after);
        lemma_shown_together(before.emission, strung(lists), middle, one, now, after);
    } else {
        assert(strung(lists) + seq![] =~= strung(lists));
    }
}

/// What is sent of the queue of a device, if all of it is taken, is how it stands and how
/// far its times have grown since its last sample.
pub proof fn law_growth_of_a_queue_is_shown(
    name: Seq<char>,
    before: SampleState,
    dev: u32,
    queue: DeviceDepth,
    elapsed: u64,
    now: u64,
    middle: Emission,
    stopped: bool,
    after: SampleState,
)
    requires
        depth_sampled(name, before, dev, Some(queue), elapsed, now, middle, stopped, after),
        all_taken(middle.history, after.emission.history),
    ensures
        samples_are_shown(
            middle,
            depth_list(
                queue.at(now).since(last_of(before.depths, dev)),
                elapsed,
            ),
            now,
            after.emission,
        ),
        after.depths == before.depths.insert(dev, queue.at(now)),
{
    let list = depth_list(
        queue.at(now).since(crate::bpf::blocktrack::held(before.depths, dev)),
        elapsed,
    );
    lemma_list_emitted(middle, dev, name, list, now, after.emission, stopped);
    law_samples_are_sent_in_order(middle, dev, name, list, now, after.emission);
}

/// Every device that is sampled is remembered with the counters that were read of it; of
/// a device that is not, nothing is remembered anew.
pub proof fn law_devices_are_remembered(
    config: &BlockIoConfig,
    registry: RegistryView,
    before: SampleState,
    devices: Seq<u32>,
    stats: Map<u32, DeviceStats>,
    depths: Map<u32, DeviceDepth>,
    elapsed: u64,
    now: u64,
    after: SampleState,
    dev: u32,
)
    requires
        devices_sampled(config, registry, before, devices, stats, depths, elapsed, now, after),
    ensures
        devices.contains(dev) && stats.contains_key(dev) ==> after.stats.contains_key(dev)
            && after.stats[dev] == stats[dev],
        !devices.contains(dev) || !stats.contains_key(dev) ==> after.stats.contains_key(dev)
            == before.stats.contains_key(dev) && (before.stats.contains_key(dev)
            ==> after.stats[dev] == before.stats[dev]),
        !devices.contains(dev) ==> after.depths.contains_key(dev) == before.depths.contains_key(
            dev,
        ) && (before.depths.contains_key(dev) ==> after.depths[dev] == before.depths[dev]),
    decreases devices.len(),
{
    if devices.len() > 0 {
        let rest = devices.drop_last();
        let last = devices.last();
        let middle = choose|middle: SampleState|
            {
                &&& devices_sampled(
                    config,
                    registry,
                    before,
                    rest,
                    stats,
                    depths,
                    elapsed,
                    now,
                    middle,
                )
                &&& #[trigger] device_sampled(
                    config,
                    registry.info(last).track_name(),
                    middle,
                    last,
                    crate::bpf::blocktrack::held(stats, last),
                    crate::bpf::blocktrack::held(depths, last),
                    elapsed,
                    now,
                    after,
                )
            };
        law_devices_are_remembered(
            config,
            registry,
            before,
            rest,
            stats,
            depths,
            elapsed,
            now,
            middle,
            dev,
        );
        law_sample_is_remembered(
            config,
            registry.info(last).track_name(),
            middle,
            last,
            crate::bpf::blocktrack::held(stats, last),
            crate::bpf::blocktrack::held(depths, last),
            elapsed,
            now,
            after,
        );
        assert(devices.contains(dev) <==> rest.contains(dev) || dev == last) by {
            if devices.contains(dev) {
                let i = choose|i: int| 0 <= i < devices.len() && devices[i] == dev;
                if i < rest.len() {
                    assert(rest[i] == dev);
                }
            }
            if rest.contains(dev) {
                let i = choose|i: int| 0 <= i < rest.len() && rest[i] == dev;
                assert(devices[i] == dev);
            }
            if dev == last {
                assert(devices[devices.len() - 1] == dev);
            }
        }
    }
}

/// A sample counts from its time on, covers each device with counters, and each whose
/// queue was ever used, once, and is measured over the time since the last one.
pub proof fn law_sample_covers_every_device(
    before: &BlockIo,
    old_history: Seq<(MessageView, i32)>,
    now: u64,
    stats: Map<u32, DeviceStats>,
    depths: Map<u32, DeviceDepth>,
    after: &BlockIo,
    history: Seq<(MessageView, i32)>,
)
    requires
        all_sampled(before, old_history, now, stats, depths, after, history),
    ensures
        after.last_sample() == now,
        after.spec_config() == before.spec_config(),
        after.devices().names == before.devices().names,
        after.devices().mounts == before.devices().mounts,
        forall|dev: u32|
            stats.contains_key(dev) ==> (#[trigger] after.stats().contains_key(dev))
                && after.stats()[dev] == stats[dev],
        forall|dev: u32|
            !stats.contains_key(dev) ==> (#[trigger] after.stats().contains_key(dev)
                == before.stats().contains_key(dev)) && (before.stats().contains_key(dev)
                ==> after.stats()[dev] == before.stats()[dev]),
        exists|devices: Seq<u32>|
            {
                &&& devices.no_duplicates()
                &&& forall|dev: u32| #[trigger]
                    devices.contains(dev) <==> stats.contains_key(dev) || (depths.contains_key(dev)
                        && was_used(depths[dev]))
                &&& #[trigger] devices_sampled(
                    &before.spec_config(),
                    before.devices(),
                    before.state(old_history),
                    devices,
                    stats,
                    depths,
                    passed_since(before.last_sample(), now),
                    now,
                    after.state(history),
                )
            },
{
    let elapsed = elapsed_since(before.last_sample(), now);
    assert(elapsed == passed_since(before.last_sample(), now));
    let devices = choose|devices: Seq<u32>| #[trigger]
        sampled_devices(stats, depths, devices) && devices_sampled(
            &before.spec_config(),
            before.devices(),
            before.state(old_history),
            devices,
            stats,
            depths,
            elapsed,
            now,
            after.state(history),
        );
    assert forall|dev: u32| stats.contains_key(dev) implies (
    #[trigger] after.stats().contains_key(dev)) && after.stats()[dev] == stats[dev] by {
        assert(devices.contains(dev));
        law_devices_are_remembered(
            &before.spec_config(),
            before.devices(),
            before.state(old_history),
            devices,
            stats,
            depths,
            elapsed,
            now,
            after.state(history),
            dev,
        );
    }
    assert forall|dev: u32| !stats.contains_key(dev) implies (
    #[trigger] after.stats().contains_key(dev) == before.stats().contains_key(dev)) && (
    before.stats().contains_key(dev) ==> after.stats()[dev] == before.stats()[dev]) by {
        law_devices_are_remembered(
            &before.spec_config(),
            before.devices(),
            before.state(old_history),
            devices,
            stats,
            depths,
            elapsed,
            now,
            after.state(history),
            dev,
        );
    }
}

/// The time that has passed, where none counts as one nanosecond.
pub open spec fn passed_since(last: u64, now: u64) -> u64 {
    if now > last {
        (now - last) as u64
    } else {
        1
    }
}

/// Whether anything was ever in a queue.
pub open spec fn was_used(depth: DeviceDepth) -> bool {
    !(depth.busy_ns == 0 && depth.saturated_ns == 0 && depth.inflight == 0 && depth.queued == 0
        && depth.max_inflight == 0 && depth.max_queued == 0)
}

/// A device whose track is refused has none, and is announced again the next time; a
/// series whose announcement is refused keeps its id, and its value is not sent.
pub proof fn law_refusals(
    before: Emission,
    dev: u32,
    name: Seq<char>,
    device: u64,
    sample: CounterSampleView,
    timestamp: u64,
    after: Emission,
    track: u64,
    known: Emission,
    code: i32,
)
    requires
        code != 0,
        track_ensured(before, dev, name, after, track, code),
        series_emitted(before, dev, device, sample, timestamp, known, code),
    ensures
        after.tracks == before.tracks && !after.tracks.contains_key(dev),
        after.series == before.series,
        after.history.len() == before.history.len() + 1,
        after.history.last().1 == code,
        ({
            let key = SeriesKey { dev, operation: sample.operation, kind: sample.kind };
            &&& known.series.contains_key(key)
            &&& before.series.contains_key(key) ==> known.series == before.series
            &&& known.tracks == before.tracks
            &&& known.history.last().1 == code
            &&& !before.series.contains_key(key) && known.history.len() == before.history.len() + 1
                ==> values_in(known.history) == values_in(before.history)
            &&& known.history.len() <= before.history.len() + 2
        }),
{
    let key = series_of(dev, sample);
    if !before.series.contains_key(key) {
        let (id, c) = choose|id: u64, c: i32|
            {
                let named = #[trigger] crate::bpf::blocktrack::series_announced(
                    before,
                    dev,
                    device,
                    sample,
                    id,
                    c,
                );
                if c != 0 {
                    known == named && code == c
                } else {
                    known == value_sent(named, sample, id, timestamp, code)
                }
            };
        let named = crate::bpf::blocktrack::series_announced(before, dev, device, sample, id, c);
        lemma_one_more(before.history, named.history.last().0, c);
        assert(named.history =~= before.history.push(named.history.last()));
    }
}

} // verus!

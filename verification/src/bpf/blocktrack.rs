//! Block I/O: counters per device and operation, and request timelines.

use super::blockdev::{
    distinct, distinct_numbers, DeviceInfo, DeviceInfoView, DeviceRegistry, RegistryView,
};
use super::error::{load_error, BpfError};
use super::wire::{
    bytes_of, capped, field_text, lemma_bytes_of_take, less, put_u32, put_u64, read_u32, read_u64,
    saturating_product, too_short, u32_at, u64_at, until_zero,
};
use crate::protocol::{
    label_put, no_labels, Counter, CounterView, Event, EventView, Labels, LabelsView, Message,
    MessageView, Reading, Span, SpanView, Track, TrackId, TrackType, TrackTypeView, TrackView,
};
use crate::random::random_u64;
use crate::sink::MessageSink;
use crate::text::{decimal, lossy_text, push_decimal};
use std::collections::HashMap;
use crate::power::{is_power_of_two, power_of_two};
use vstd::prelude::*;
use vstd::std_specs::hash::*;
use vstd::std_specs::iter::IteratorSpec;

verus! {

/// How many kinds of operations there are.
pub const OPERATION_COUNT: usize = 5;

/// The smallest ring buffer.
pub const MIN_RINGBUF_SIZE: usize = 4096;

#[derive(Debug, Clone, Copy, PartialEq, Eq, Structural, Hash)]
pub enum BlockOperation {
    Read,
    Write,
    Flush,
    Discard,
    Other,
}

impl BlockOperation {
    pub open spec fn spec_index(self) -> int {
        match self {
            BlockOperation::Read => 0,
            BlockOperation::Write => 1,
            BlockOperation::Flush => 2,
            BlockOperation::Discard => 3,
            BlockOperation::Other => 4,
        }
    }

    pub open spec fn spec_name(self) -> Seq<char> {
        match self {
            BlockOperation::Read => "read"@,
            BlockOperation::Write => "write"@,
            BlockOperation::Flush => "flush"@,
            BlockOperation::Discard => "discard"@,
            BlockOperation::Other => "other"@,
        }
    }

    pub fn index(self) -> (r: usize)
        ensures
            r == self.spec_index(),
            r < OPERATION_COUNT,
    {
        match self {
            BlockOperation::Read => 0,
            BlockOperation::Write => 1,
            BlockOperation::Flush => 2,
            BlockOperation::Discard => 3,
            BlockOperation::Other => 4,
        }
    }

    /// The operation of an index, if there is one.
    pub fn from_index(index: u8) -> (r: Option<Self>)
        ensures
            match r {
                Some(op) => op.spec_index() == index,
                None => index >= OPERATION_COUNT,
            },
    {
        match index {
            0 => Some(BlockOperation::Read),
            1 => Some(BlockOperation::Write),
            2 => Some(BlockOperation::Flush),
            3 => Some(BlockOperation::Discard),
            4 => Some(BlockOperation::Other),
            _ => None,
        }
    }

    pub fn name(self) -> (r: &'static str)
        ensures
            r@ == self.spec_name(),
    {
        match self {
            BlockOperation::Read => "read",
            BlockOperation::Write => "write",
            BlockOperation::Flush => "flush",
            BlockOperation::Discard => "discard",
            BlockOperation::Other => "other",
        }
    }
}

#[derive(Debug, Clone, Copy, PartialEq, Eq, Structural, Hash)]
pub enum BlockMetric {
    Throughput,
    Iops,
    Latency,
    Saturation,
    Errors,
}

/// What to track.
#[derive(Debug)]
pub struct BlockIoConfig {
    /// How many samples a second.
    pub frequency: u64,
    pub operations: Vec<BlockOperation>,
    pub metrics: Vec<BlockMetric>,
    /// Device names, paths of device nodes, or major and minor numbers. A partition
    /// stands for its disk, because requests are timed per hardware queue.
    pub devices: Vec<String>,
    pub max_devices: u32,
    pub max_requests: u32,
    pub timeline: bool,
    pub timeline_sample_every: u32,
    pub timeline_min_latency_us: u64,
    pub ringbuf: usize,
}

impl Default for BlockIoConfig {
    fn default() -> (r: Self)
        ensures
            r.frequency == 9,
            r.operations@ == seq![BlockOperation::Read, BlockOperation::Write],
            r.metrics@ == seq![
                BlockMetric::Throughput,
                BlockMetric::Iops,
                BlockMetric::Latency,
                BlockMetric::Saturation,
                BlockMetric::Errors,
            ],
            r.devices@.len() == 0,
            r.max_devices == 64,
            r.max_requests == 32768,
            !r.timeline,
            r.timeline_sample_every == 1,
            r.timeline_min_latency_us == 0,
            r.ringbuf == 8 * 1024 * 1024,
            r.problem() is None,
    {
        let mut operations: Vec<BlockOperation> = Vec::new();
        operations.push(BlockOperation::Read);
        operations.push(BlockOperation::Write);
        let mut metrics: Vec<BlockMetric> = Vec::new();
        metrics.push(BlockMetric::Throughput);
        metrics.push(BlockMetric::Iops);
        metrics.push(BlockMetric::Latency);
        metrics.push(BlockMetric::Saturation);
        metrics.push(BlockMetric::Errors);
        assert(operations@ =~= seq![BlockOperation::Read, BlockOperation::Write]);
        assert(metrics@ =~= seq![
            BlockMetric::Throughput,
            BlockMetric::Iops,
            BlockMetric::Latency,
            BlockMetric::Saturation,
            BlockMetric::Errors,
        ]);
        BlockIoConfig {
            frequency: 9,
            operations,
            metrics,
            devices: Vec::new(),
            max_devices: 64,
            max_requests: 32768,
            timeline: false,
            timeline_sample_every: 1,
            timeline_min_latency_us: 0,
            ringbuf: 8 * 1024 * 1024,
        }
    }
}

impl BlockIoConfig {
    pub open spec fn wants(&self, metric: BlockMetric) -> bool {
        self.metrics@.contains(metric)
    }

    pub open spec fn tracks(&self, operation: BlockOperation) -> bool {
        self.operations@.contains(operation)
    }

    /// What is wrong with the configuration, if anything is.
    pub open spec fn problem(&self) -> Option<Seq<char>> {
        if self.frequency == 0 {
            Some("block_io frequency must be greater than zero"@)
        } else if self.operations@.len() == 0 || self.metrics@.len() == 0 {
            Some("block_io operations and metrics must not be empty"@)
        } else if self.max_devices == 0 || self.max_requests == 0 {
            Some("block_io map limits must be greater than zero"@)
        } else if self.timeline_sample_every == 0 {
            Some("block_io timeline_sample_every must be greater than zero"@)
        } else if self.timeline && (self.ringbuf < MIN_RINGBUF_SIZE || self.ringbuf > u32::MAX
            || !is_power_of_two(self.ringbuf as int)) {
            Some("block_io ringbuf must be a power of two between 4096 and 4294967295 bytes"@)
        } else {
            None
        }
    }

    pub fn has_metric(&self, metric: BlockMetric) -> (r: bool)
        ensures
            r == self.wants(metric),
    {
        let mut i: usize = 0;
        while i < self.metrics.len()
            invariant
                i <= self.metrics@.len(),
                forall|j: int| 0 <= j < i ==> self.metrics@[j] != metric,
            decreases self.metrics@.len() - i,
        {
            if self.metrics[i] == metric {
                return true;
            }
            i += 1;
        }
        false
    }

    fn has_operation(&self, operation: BlockOperation) -> (r: bool)
        ensures
            r == self.tracks(operation),
    {
        let mut i: usize = 0;
        while i < self.operations.len()
            invariant
                i <= self.operations@.len(),
                forall|j: int| 0 <= j < i ==> self.operations@[j] != operation,
            decreases self.operations@.len() - i,
        {
            if self.operations[i] == operation {
                return true;
            }
            i += 1;
        }
        false
    }

    /// The tracked operations as bits: bit `i` for the operation of index `i`.
    pub open spec fn mask(&self) -> int {
        (if self.tracks(BlockOperation::Read) { 1int } else { 0 }) + (if self.tracks(
            BlockOperation::Write,
        ) { 2int } else { 0 }) + (if self.tracks(BlockOperation::Flush) { 4int } else { 0 }) + (
        if self.tracks(BlockOperation::Discard) { 8int } else { 0 }) + (if self.tracks(
            BlockOperation::Other,
        ) { 16int } else { 0 })
    }

    pub fn operation_mask(&self) -> (r: u32)
        ensures
            r == self.mask(),
    {
        let mut mask: u32 = 0;
        if self.has_operation(BlockOperation::Read) {
            mask += 1;
        }
        if self.has_operation(BlockOperation::Write) {
            mask += 2;
        }
        if self.has_operation(BlockOperation::Flush) {
            mask += 4;
        }
        if self.has_operation(BlockOperation::Discard) {
            mask += 8;
        }
        if self.has_operation(BlockOperation::Other) {
            mask += 16;
        }
        mask
    }

    pub fn validate(&self) -> (r: Result<(), BpfError>)
        ensures
            match r {
                Ok(_) => self.problem() is None,
                Err(e) => self.problem() matches Some(text) && e.is_load(text),
            },
    {
        if self.frequency == 0 {
            return Err(load_error("block_io frequency must be greater than zero"));
        }
        if self.operations.len() == 0 || self.metrics.len() == 0 {
            return Err(load_error("block_io operations and metrics must not be empty"));
        }
        if self.max_devices == 0 || self.max_requests == 0 {
            return Err(load_error("block_io map limits must be greater than zero"));
        }
        if self.timeline_sample_every == 0 {
            return Err(load_error("block_io timeline_sample_every must be greater than zero"));
        }
        if self.timeline && (self.ringbuf < MIN_RINGBUF_SIZE || self.ringbuf > u32::MAX as usize
            || !power_of_two(self.ringbuf)) {
            return Err(
                load_error(
                    "block_io ringbuf must be a power of two between 4096 and 4294967295 bytes",
                ),
            );
        }
        Ok(())
    }
}

/// What the kernel programs are loaded with.
#[derive(Debug)]
pub struct BlockIoPlan {
    pub device_stats_entries: u32,
    pub device_depths_entries: u32,
    pub requests_entries: u32,
    pub tracked_devices_entries: u32,
    pub events_size: u32,
    pub operation_mask: u32,
    pub timeline_sample_every: u32,
    pub timeline_min_latency_ns: u64,
    pub bytes_enabled: bool,
    pub operations_enabled: bool,
    pub latency_enabled: bool,
    pub saturation_enabled: bool,
    pub errors_enabled: bool,
    pub timeline_enabled: bool,
    pub filter_enabled: bool,
    pub request_tracking_enabled: bool,
    /// The devices whose queues are watched from the start.
    pub depth_devices: Vec<u32>,
    /// The devices that are tracked; all are, if there is none.
    pub device_filters: Vec<u32>,
}

impl BlockIoConfig {
    /// Whether single requests are followed.
    pub open spec fn follows_requests(&self) -> bool {
        self.wants(BlockMetric::Iops) || self.wants(BlockMetric::Latency) || self.wants(
            BlockMetric::Saturation,
        ) || self.timeline
    }
}

impl BlockIoPlan {
    /// Whether this is what `config` asks for with these devices filtered and
    /// watched.
    pub open spec fn is_for(
        &self,
        config: &BlockIoConfig,
        filters: Seq<u32>,
        depths: Seq<u32>,
    ) -> bool {
        &&& self.device_stats_entries == config.max_devices
        &&& self.device_depths_entries == (if config.wants(BlockMetric::Saturation) {
            config.max_devices
        } else {
            1
        })
        &&& self.requests_entries == (if config.follows_requests() {
            config.max_requests
        } else {
            1
        })
        &&& self.tracked_devices_entries == (if config.max_devices > 1 {
            config.max_devices
        } else {
            1
        })
        &&& self.events_size == (if config.timeline {
            config.ringbuf as u32
        } else {
            4096
        })
        &&& self.operation_mask == config.mask()
        &&& self.timeline_sample_every == config.timeline_sample_every
        &&& self.timeline_min_latency_ns == capped(config.timeline_min_latency_us * 1000)
        &&& self.bytes_enabled == config.wants(BlockMetric::Throughput)
        &&& self.operations_enabled == (config.wants(BlockMetric::Iops) || config.wants(
            BlockMetric::Latency,
        ))
        &&& self.latency_enabled == config.wants(BlockMetric::Latency)
        &&& self.saturation_enabled == config.wants(BlockMetric::Saturation)
        &&& self.errors_enabled == config.wants(BlockMetric::Errors)
        &&& self.timeline_enabled == config.timeline
        &&& self.filter_enabled == (filters.len() > 0)
        &&& self.request_tracking_enabled == config.follows_requests()
        &&& self.depth_devices@ == depths
        &&& self.device_filters@ == filters
    }
}

/// The devices that are watched: none without the metric, those that are filtered
/// if there are any, and else all that were found.
pub open spec fn watched(config: &BlockIoConfig, filters: Seq<u32>, found: Seq<u32>) -> Seq<u32> {
    if !config.wants(BlockMetric::Saturation) {
        seq![]
    } else if filters.len() == 0 {
        distinct(found)
    } else {
        filters
    }
}

/// Whether all devices have to be found before a plan can be made.
pub fn needs_discovery(config: &BlockIoConfig, filters: &Vec<u32>) -> (r: bool)
    ensures
        r == (config.wants(BlockMetric::Saturation) && filters@.len() == 0),
{
    config.has_metric(BlockMetric::Saturation) && filters.len() == 0
}

/// The text about too many filters.
pub open spec fn too_many_filters(n: int, max: int) -> Seq<char> {
    "block_io has "@ + decimal(n as nat) + " device filters but max_devices is "@ + decimal(
        max as nat,
    )
}

/// The text about too many devices.
pub open spec fn too_many_devices(n: int, max: int) -> Seq<char> {
    "block_io found "@ + decimal(n as nat) + " devices but max_devices is "@ + decimal(max as nat)
        + "; increase max_devices or configure devices"@
}

/// Makes the plan for a configuration, where `resolved` are the devices that it
/// names and `found` are all devices, if they had to be looked for.
pub fn plan_block_io(config: &BlockIoConfig, resolved: &Vec<u32>, found: &Vec<u32>) -> (r: Result<
    BlockIoPlan,
    BpfError,
>)
    ensures
        ({
            let filters = distinct(resolved@);
            let depths = watched(config, filters, found@);
            if filters.len() > config.max_devices {
                r matches Err(e) && e.is_load(
                    too_many_filters(filters.len() as int, config.max_devices as int),
                )
            } else if depths.len() > config.max_devices {
                r matches Err(e) && e.is_load(
                    too_many_devices(depths.len() as int, config.max_devices as int),
                )
            } else {
                r matches Ok(plan) && plan.is_for(config, filters, depths)
            }
        }),
{
    let device_filters: Vec<u32> = distinct_numbers(resolved);
    if device_filters.len() > config.max_devices as usize {
        let mut text: String = "block_io has ".to_owned();
        push_decimal(&mut text, device_filters.len() as u64);
        text.append(" device filters but max_devices is ");
        push_decimal(&mut text, config.max_devices as u64);
        return Err(BpfError::LoadError(text));
    }
    let saturation: bool = config.has_metric(BlockMetric::Saturation);
    let depth_devices: Vec<u32> = if saturation {
        if device_filters.len() == 0 {
            distinct_numbers(found)
        } else {
            copy_numbers(&device_filters)
        }
    } else {
        Vec::new()
    };
    assert(depth_devices@ =~= watched(config, device_filters@, found@));
    if depth_devices.len() > config.max_devices as usize {
        let mut text: String = "block_io found ".to_owned();
        push_decimal(&mut text, depth_devices.len() as u64);
        text.append(" devices but max_devices is ");
        push_decimal(&mut text, config.max_devices as u64);
        text.append("; increase max_devices or configure devices");
        return Err(BpfError::LoadError(text));
    }
    let iops: bool = config.has_metric(BlockMetric::Iops);
    let latency: bool = config.has_metric(BlockMetric::Latency);
    let request_tracking: bool = iops || latency || saturation || config.timeline;
    Ok(
        BlockIoPlan {
            device_stats_entries: config.max_devices,
            device_depths_entries: if saturation {
                config.max_devices
            } else {
                1
            },
            requests_entries: if request_tracking {
                config.max_requests
            } else {
                1
            },
            tracked_devices_entries: if config.max_devices > 1 {
                config.max_devices
            } else {
                1
            },
            events_size: if config.timeline {
                config.ringbuf as u32
            } else {
                4096
            },
            operation_mask: config.operation_mask(),
            timeline_sample_every: config.timeline_sample_every,
            timeline_min_latency_ns: saturating_product(config.timeline_min_latency_us, 1000),
            bytes_enabled: config.has_metric(BlockMetric::Throughput),
            operations_enabled: iops || latency,
            latency_enabled: latency,
            saturation_enabled: saturation,
            errors_enabled: config.has_metric(BlockMetric::Errors),
            timeline_enabled: config.timeline,
            filter_enabled: device_filters.len() > 0,
            request_tracking_enabled: request_tracking,
            depth_devices,
            device_filters,
        },
    )
}

fn copy_numbers(list: &Vec<u32>) -> (r: Vec<u32>)
    ensures
        r@ == list@,
{
    let mut r: Vec<u32> = Vec::new();
    let mut i: usize = 0;
    while i < list.len()
        invariant
            i <= list@.len(),
            r@ =~= list@.take(i as int),
        decreases list@.len() - i,
    {
        r.push(list[i]);
        i += 1;
    }
    assert(r@ =~= list@);
    r
}

/// The counters of one kind of operation.
#[derive(Debug, Clone, Copy)]
pub struct OperationStats {
    pub bytes: u64,
    pub operations: u64,
    pub errors: u64,
    pub queue_latency_ns: u64,
    pub service_latency_ns: u64,
    pub total_latency_ns: u64,
    pub service_histogram: [u64; 32],
    pub total_histogram: [u64; 32],
}

/// Whether `d` is how far a histogram has grown.
pub open spec fn histogram_grown(current: [u64; 32], previous: [u64; 32], d: [u64; 32]) -> bool {
    forall|i: int| 0 <= i < 32 ==> #[trigger] d@[i] == less(current@[i], previous@[i])
}

impl OperationStats {
    /// Whether nothing was counted.
    pub open spec fn is_zero(self) -> bool {
        &&& self.bytes == 0
        &&& self.operations == 0
        &&& self.errors == 0
        &&& self.queue_latency_ns == 0
        &&& self.service_latency_ns == 0
        &&& self.total_latency_ns == 0
        &&& forall|i: int| 0 <= i < 32 ==> self.service_histogram@[i] == 0
        &&& forall|i: int| 0 <= i < 32 ==> self.total_histogram@[i] == 0
    }

    /// Whether `d` is how far the counters have grown.
    pub open spec fn grown(self, previous: OperationStats, d: OperationStats) -> bool {
        &&& d.bytes == less(self.bytes, previous.bytes)
        &&& d.operations == less(self.operations, previous.operations)
        &&& d.errors == less(self.errors, previous.errors)
        &&& d.queue_latency_ns == less(self.queue_latency_ns, previous.queue_latency_ns)
        &&& d.service_latency_ns == less(self.service_latency_ns, previous.service_latency_ns)
        &&& d.total_latency_ns == less(self.total_latency_ns, previous.total_latency_ns)
        &&& histogram_grown(
            self.service_histogram,
            previous.service_histogram,
            d.service_histogram,
        )
        &&& histogram_grown(self.total_histogram, previous.total_histogram, d.total_histogram)
    }

    /// How far the counters have grown since `previous`.
    pub fn delta(self, previous: Self) -> (d: Self)
        ensures
            self.grown(previous, d),
    {
        OperationStats {
            bytes: self.bytes.saturating_sub(previous.bytes),
            operations: self.operations.saturating_sub(previous.operations),
            errors: self.errors.saturating_sub(previous.errors),
            queue_latency_ns: self.queue_latency_ns.saturating_sub(previous.queue_latency_ns),
            service_latency_ns: self.service_latency_ns.saturating_sub(
                previous.service_latency_ns,
            ),
            total_latency_ns: self.total_latency_ns.saturating_sub(previous.total_latency_ns),
            service_histogram: histogram_delta(
                self.service_histogram,
                previous.service_histogram,
            ),
            total_histogram: histogram_delta(self.total_histogram, previous.total_histogram),
        }
    }

    /// Reads the counters at `at`.
    fn read(data: &[u8], at: usize) -> (r: Self)
        requires
            at + 560 <= data@.len(),
        ensures
            r.lies_at(data@, at as int),
    {
        let len: usize = data.len();
        assert(at + 560 <= len);
        OperationStats {
            bytes: read_u64(data, at),
            operations: read_u64(data, at + 8),
            errors: read_u64(data, at + 16),
            queue_latency_ns: read_u64(data, at + 24),
            service_latency_ns: read_u64(data, at + 32),
            total_latency_ns: read_u64(data, at + 40),
            service_histogram: read_histogram(data, at + 48),
            total_histogram: read_histogram(data, at + 304),
        }
    }

    /// Whether the counters are those that lie at `at`.
    pub open spec fn lies_at(self, data: Seq<u8>, at: int) -> bool {
        &&& self.bytes == u64_at(data, at)
        &&& self.operations == u64_at(data, at + 8)
        &&& self.errors == u64_at(data, at + 16)
        &&& self.queue_latency_ns == u64_at(data, at + 24)
        &&& self.service_latency_ns == u64_at(data, at + 32)
        &&& self.total_latency_ns == u64_at(data, at + 40)
        &&& forall|i: int|
            0 <= i < 32 ==> #[trigger] self.service_histogram@[i] == u64_at(data, at + 48 + 8 * i)
        &&& forall|i: int|
            0 <= i < 32 ==> #[trigger] self.total_histogram@[i] == u64_at(data, at + 304 + 8 * i)
    }
}

impl Default for OperationStats {
    fn default() -> (r: Self)
        ensures
            r.is_zero(),
    {
        OperationStats {
            bytes: 0,
            operations: 0,
            errors: 0,
            queue_latency_ns: 0,
            service_latency_ns: 0,
            total_latency_ns: 0,
            service_histogram: [0u64; 32],
            total_histogram: [0u64; 32],
        }
    }
}

fn histogram_delta(current: [u64; 32], previous: [u64; 32]) -> (d: [u64; 32])
    ensures
        histogram_grown(current, previous, d),
{
    let mut d: [u64; 32] = [0u64; 32];
    let mut i: usize = 0;
    while i < 32
        invariant
            i <= 32,
            forall|j: int| 0 <= j < i ==> #[trigger] d@[j] == less(current@[j], previous@[j]),
        decreases 32 - i,
    {
        d[i] = current[i].saturating_sub(previous[i]);
        i += 1;
    }
    d
}

fn read_histogram(data: &[u8], at: usize) -> (r: [u64; 32])
    requires
        at + 256 <= data@.len(),
    ensures
        forall|i: int| 0 <= i < 32 ==> #[trigger] r@[i] == u64_at(data@, at + 8 * i),
{
    let len: usize = data.len();
    let mut r: [u64; 32] = [0u64; 32];
    let mut i: usize = 0;
    while i < 32
        invariant
            i <= 32,
            len == data@.len(),
            at + 256 <= len,
            forall|j: int| 0 <= j < i ==> #[trigger] r@[j] == u64_at(data@, at + 8 * j),
        decreases 32 - i,
    {
        r[i] = read_u64(data, at + 8 * i);
        i += 1;
    }
    r
}

/// The counters of a device.
#[derive(Debug, Clone, Copy)]
pub struct DeviceStats {
    pub operations: [OperationStats; 5],
    pub requeues: u64,
    pub lost_requests: u64,
    pub timeline_drops: u64,
    pub first_seen_ns: u64,
    pub last_seen_ns: u64,
}

impl Default for DeviceStats {
    fn default() -> (r: Self)
        ensures
            r.requeues == 0,
            r.lost_requests == 0,
            r.timeline_drops == 0,
            r.first_seen_ns == 0,
            r.last_seen_ns == 0,
            forall|i: int| 0 <= i < 5 ==> (#[trigger] r.operations@[i]).is_zero(),
    {
        let zero: OperationStats = OperationStats::default();
        DeviceStats {
            operations: [zero, zero, zero, zero, zero],
            requeues: 0,
            lost_requests: 0,
            timeline_drops: 0,
            first_seen_ns: 0,
            last_seen_ns: 0,
        }
    }
}

impl DeviceStats {
    /// Whether `d` is how far the counters have grown since `previous`; counters
    /// that were set up anew have grown from zero.
    pub open spec fn grown(self, previous: Option<DeviceStats>, d: DeviceStats) -> bool {
        match previous {
            Some(p) => if p.first_seen_ns == self.first_seen_ns {
                &&& forall|i: int|
                    0 <= i < 5 ==> self.operations@[i].grown(
                        p.operations@[i],
                        #[trigger] d.operations@[i],
                    )
                &&& d.requeues == less(self.requeues, p.requeues)
                &&& d.lost_requests == less(self.lost_requests, p.lost_requests)
                &&& d.timeline_drops == less(self.timeline_drops, p.timeline_drops)
                &&& d.first_seen_ns == self.first_seen_ns
                &&& d.last_seen_ns == self.last_seen_ns
            } else {
                d == self
            },
            None => d == self,
        }
    }

    pub fn delta(self, previous: Option<Self>) -> (d: Self)
        ensures
            self.grown(previous, d),
    {
        match previous {
            Some(p) => {
                if p.first_seen_ns != self.first_seen_ns {
                    return self;
                }
                DeviceStats {
                    operations: [
                        self.operations[0].delta(p.operations[0]),
                        self.operations[1].delta(p.operations[1]),
                        self.operations[2].delta(p.operations[2]),
                        self.operations[3].delta(p.operations[3]),
                        self.operations[4].delta(p.operations[4]),
                    ],
                    requeues: self.requeues.saturating_sub(p.requeues),
                    lost_requests: self.lost_requests.saturating_sub(p.lost_requests),
                    timeline_drops: self.timeline_drops.saturating_sub(p.timeline_drops),
                    first_seen_ns: self.first_seen_ns,
                    last_seen_ns: self.last_seen_ns,
                }
            },
            None => self,
        }
    }

    /// Whether the counters are those that lie in `data`.
    pub open spec fn lies_in(self, data: Seq<u8>) -> bool {
        &&& forall|i: int| 0 <= i < 5 ==> (#[trigger] self.operations@[i]).lies_at(data, 560 * i)
        &&& self.requeues == u64_at(data, 2800)
        &&& self.lost_requests == u64_at(data, 2808)
        &&& self.timeline_drops == u64_at(data, 2816)
        &&& self.first_seen_ns == u64_at(data, 2824)
        &&& self.last_seen_ns == u64_at(data, 2832)
    }

    pub fn from_bytes(data: &[u8]) -> (r: Result<Self, BpfError>)
        ensures
            match r {
                Ok(stats) => data@.len() >= 2840 && stats.lies_in(data@),
                Err(e) => data@.len() < 2840 && e.is_map(
                    "failed to parse block_io device stats: TooShort"@,
                ),
            },
    {
        if data.len() < 2840 {
            return Err(
                super::error::map_error("failed to parse block_io device stats: TooShort"),
            );
        }
        Ok(
            DeviceStats {
                operations: [
                    OperationStats::read(data, 0),
                    OperationStats::read(data, 560),
                    OperationStats::read(data, 1120),
                    OperationStats::read(data, 1680),
                    OperationStats::read(data, 2240),
                ],
                requeues: read_u64(data, 2800),
                lost_requests: read_u64(data, 2808),
                timeline_drops: read_u64(data, 2816),
                first_seen_ns: read_u64(data, 2824),
                last_seen_ns: read_u64(data, 2832),
            },
        )
    }
}

/// The state of a device's queue.
#[derive(Debug, Clone, Copy, PartialEq, Eq, Structural)]
pub struct DeviceDepth {
    pub first_seen_ns: u64,
    pub last_update_ns: u64,
    pub busy_ns: u64,
    pub saturated_ns: u64,
    pub inflight_ns: u64,
    pub queued_ns: u64,
    pub inflight: u32,
    pub queued: u32,
    pub max_inflight: u32,
    pub max_queued: u32,
}

impl Default for DeviceDepth {
    fn default() -> (r: Self)
        ensures
            r == (DeviceDepth {
                first_seen_ns: 0,
                last_update_ns: 0,
                busy_ns: 0,
                saturated_ns: 0,
                inflight_ns: 0,
                queued_ns: 0,
                inflight: 0,
                queued: 0,
                max_inflight: 0,
                max_queued: 0,
            }),
    {
        DeviceDepth {
            first_seen_ns: 0,
            last_update_ns: 0,
            busy_ns: 0,
            saturated_ns: 0,
            inflight_ns: 0,
            queued_ns: 0,
            inflight: 0,
            queued: 0,
            max_inflight: 0,
            max_queued: 0,
        }
    }
}

/// The state of a device's queue at some time.
#[derive(Debug, Clone, Copy, PartialEq, Eq, Structural)]
pub struct DepthSnapshot {
    pub first_seen_ns: u64,
    pub busy_ns: u64,
    pub saturated_ns: u64,
    pub inflight_ns: u64,
    pub queued_ns: u64,
    pub inflight: u32,
    pub queued: u32,
    pub max_inflight: u32,
    pub max_queued: u32,
}

impl DeviceDepth {
    /// The state at `now`, if nothing has happened since the last update.
    pub open spec fn at(self, now: u64) -> DepthSnapshot {
        let elapsed = less(now, self.last_update_ns);
        DepthSnapshot {
            first_seen_ns: self.first_seen_ns,
            busy_ns: capped(
                self.busy_ns + if self.inflight > 0 {
                    elapsed
                } else {
                    0
                },
            ),
            saturated_ns: capped(
                self.saturated_ns + if self.queued > 0 {
                    elapsed
                } else {
                    0
                },
            ),
            inflight_ns: capped(self.inflight_ns + capped(elapsed * self.inflight)),
            queued_ns: capped(self.queued_ns + capped(elapsed * self.queued)),
            inflight: self.inflight,
            queued: self.queued,
            max_inflight: self.max_inflight,
            max_queued: self.max_queued,
        }
    }

    pub fn snapshot(self, now: u64) -> (r: DepthSnapshot)
        ensures
            r == self.at(now),
    {
        let elapsed: u64 = now.saturating_sub(self.last_update_ns);
        let busy: u64 = if self.inflight > 0 {
            elapsed
        } else {
            0
        };
        let saturated: u64 = if self.queued > 0 {
            elapsed
        } else {
            0
        };
        DepthSnapshot {
            first_seen_ns: self.first_seen_ns,
            busy_ns: self.busy_ns.saturating_add(busy),
            saturated_ns: self.saturated_ns.saturating_add(saturated),
            inflight_ns: self.inflight_ns.saturating_add(
                saturating_product(elapsed, self.inflight as u64),
            ),
            queued_ns: self.queued_ns.saturating_add(
                saturating_product(elapsed, self.queued as u64),
            ),
            inflight: self.inflight,
            queued: self.queued,
            max_inflight: self.max_inflight,
            max_queued: self.max_queued,
        }
    }

    /// Whether there was ever anything in the queue.
    pub open spec fn used(self) -> bool {
        self.busy_ns > 0 || self.saturated_ns > 0 || self.inflight > 0 || self.queued > 0
            || self.max_inflight > 0 || self.max_queued > 0
    }

    pub fn is_used(&self) -> (r: bool)
        ensures
            r == self.used(),
    {
        self.busy_ns > 0 || self.saturated_ns > 0 || self.inflight > 0 || self.queued > 0
            || self.max_inflight > 0 || self.max_queued > 0
    }

    /// An empty queue, seen first at `now`.
    pub fn initial(now: u64) -> (r: Self)
        ensures
            r.first_seen_ns == now,
            r.last_update_ns == now,
            !r.used(),
            r.inflight_ns == 0,
            r.queued_ns == 0,
    {
        DeviceDepth {
            first_seen_ns: now,
            last_update_ns: now,
            busy_ns: 0,
            saturated_ns: 0,
            inflight_ns: 0,
            queued_ns: 0,
            inflight: 0,
            queued: 0,
            max_inflight: 0,
            max_queued: 0,
        }
    }

    /// Whether the state is the one that lies in `data`, behind a lock word and its
    /// padding.
    pub open spec fn lies_in(self, data: Seq<u8>) -> bool {
        self == (DeviceDepth {
            first_seen_ns: u64_at(data, 8),
            last_update_ns: u64_at(data, 16),
            busy_ns: u64_at(data, 24),
            saturated_ns: u64_at(data, 32),
            inflight_ns: u64_at(data, 40),
            queued_ns: u64_at(data, 48),
            inflight: u32_at(data, 56),
            queued: u32_at(data, 60),
            max_inflight: u32_at(data, 64),
            max_queued: u32_at(data, 68),
        })
    }

    /// The state as it lies in memory; the lock is free.
    pub fn to_bytes(&self) -> (r: Vec<u8>)
        ensures
            r@.len() == 72,
            u64_at(r@, 0) == 0,
            self.lies_in(r@),
    {
        let mut r: Vec<u8> = Vec::new();
        put_u64(&mut r, 0);
        put_u64(&mut r, self.first_seen_ns);
        let ghost a = r@;
        put_u64(&mut r, self.last_update_ns);
        let ghost b = r@;
        put_u64(&mut r, self.busy_ns);
        let ghost c = r@;
        put_u64(&mut r, self.saturated_ns);
        let ghost d = r@;
        put_u64(&mut r, self.inflight_ns);
        let ghost e = r@;
        put_u64(&mut r, self.queued_ns);
        let ghost f = r@;
        put_u32(&mut r, self.inflight);
        let ghost g = r@;
        put_u32(&mut r, self.queued);
        let ghost h = r@;
        put_u32(&mut r, self.max_inflight);
        let ghost i = r@;
        put_u32(&mut r, self.max_queued);
        proof {
            lemma_bytes_of_take(a, 8);
            lemma_bytes_of_take(b, 16);
            lemma_bytes_of_take(c, 24);
            lemma_bytes_of_take(d, 32);
            lemma_bytes_of_take(e, 40);
            lemma_bytes_of_take(f, 48);
            lemma_bytes_of_take(g, 56);
            lemma_bytes_of_take(h, 60);
            lemma_bytes_of_take(i, 64);
            lemma_bytes_of_take(r@, 68);
        }
        r
    }

    pub fn from_bytes(data: &[u8]) -> (r: Result<Self, BpfError>)
        ensures
            match r {
                Ok(depth) => data@.len() >= 72 && depth.lies_in(data@),
                Err(e) => data@.len() < 72 && e.is_map(
                    "failed to parse block_io depth stats: TooShort"@,
                ),
            },
    {
        if data.len() < 72 {
            return Err(
                super::error::map_error("failed to parse block_io depth stats: TooShort"),
            );
        }
        Ok(
            DeviceDepth {
                first_seen_ns: read_u64(data, 8),
                last_update_ns: read_u64(data, 16),
                busy_ns: read_u64(data, 24),
                saturated_ns: read_u64(data, 32),
                inflight_ns: read_u64(data, 40),
                queued_ns: read_u64(data, 48),
                inflight: read_u32(data, 56),
                queued: read_u32(data, 60),
                max_inflight: read_u32(data, 64),
                max_queued: read_u32(data, 68),
            },
        )
    }
}

impl DepthSnapshot {
    /// How far the times have grown since `previous`; the rest is as it is now. A
    /// queue that was set up anew has grown from zero.
    pub open spec fn since(self, previous: Option<DepthSnapshot>) -> DepthSnapshot {
        match previous {
            Some(p) => if p.first_seen_ns == self.first_seen_ns {
                DepthSnapshot {
                    busy_ns: less(self.busy_ns, p.busy_ns),
                    saturated_ns: less(self.saturated_ns, p.saturated_ns),
                    inflight_ns: less(self.inflight_ns, p.inflight_ns),
                    queued_ns: less(self.queued_ns, p.queued_ns),
                    ..self
                }
            } else {
                self
            },
            None => self,
        }
    }

    pub fn delta(self, previous: Option<Self>) -> (r: Self)
        ensures
            r == self.since(previous),
    {
        match previous {
            Some(p) => {
                if p.first_seen_ns != self.first_seen_ns {
                    return self;
                }
                DepthSnapshot {
                    first_seen_ns: self.first_seen_ns,
                    busy_ns: self.busy_ns.saturating_sub(p.busy_ns),
                    saturated_ns: self.saturated_ns.saturating_sub(p.saturated_ns),
                    inflight_ns: self.inflight_ns.saturating_sub(p.inflight_ns),
                    queued_ns: self.queued_ns.saturating_sub(p.queued_ns),
                    inflight: self.inflight,
                    queued: self.queued,
                    max_inflight: self.max_inflight,
                    max_queued: self.max_queued,
                }
            },
            None => self,
        }
    }
}

/// How many operations the first `n` buckets of a histogram count.
pub open spec fn counted(histogram: Seq<u64>, n: int) -> int
    decreases n,
{
    if n <= 0 {
        0
    } else {
        counted(histogram, n - 1) + histogram[n - 1]
    }
}

/// The upper bound of the latencies that a bucket counts.
pub open spec fn bucket_bound(bucket: int) -> u64 {
    if bucket == 0 {
        1
    } else if bucket >= 31 {
        0x1_0000_0000
    } else {
        vstd::arithmetic::power2::pow2((bucket + 1) as nat) as u64
    }
}

/// How many operations a histogram counts.
pub fn histogram_total(histogram: &[u64; 32]) -> (r: u64)
    requires
        counted(histogram@, 32) <= u64::MAX,
    ensures
        r == counted(histogram@, 32),
{
    let mut total: u64 = 0;
    let mut i: usize = 0;
    while i < 32
        invariant
            i <= 32,
            total == counted(histogram@, i as int),
            counted(histogram@, 32) <= u64::MAX,
        decreases 32 - i,
    {
        proof {
            lemma_counted_grows(histogram@, i + 1, 32);
        }
        total = total + histogram[i];
        i += 1;
    }
    total
}

proof fn lemma_counted_grows(histogram: Seq<u64>, m: int, n: int)
    requires
        0 <= m <= n,
    ensures
        counted(histogram, m) <= counted(histogram, n),
    decreases n - m,
{
    if m < n {
        lemma_counted_grows(histogram, m, n - 1);
    }
}

/// The latency bound of the `target`-th fastest operation that a histogram
/// counts: the bound of the first bucket by which so many are counted. Without any
/// operation it is zero.
pub fn histogram_percentile(histogram: &[u64; 32], target: u64) -> (r: u64)
    requires
        counted(histogram@, 32) <= u64::MAX,
    ensures
        counted(histogram@, 32) == 0 ==> r == 0,
        counted(histogram@, 32) > 0 && target > counted(histogram@, 32) ==> r == 0x1_0000_0000,
        counted(histogram@, 32) > 0 && target <= counted(histogram@, 32) ==> exists|b: int|
            0 <= b < 32 && target <= counted(histogram@, b + 1) && (forall|c: int|
                0 <= c < b ==> #[trigger] counted(histogram@, c + 1) < target) && r
                == #[trigger] bucket_bound(b),
{
    let total: u64 = histogram_total(histogram);
    if total == 0 {
        return 0;
    }
    let mut cumulative: u64 = 0;
    let mut bound: u64 = 2;
    let mut bucket: usize = 0;
    proof {
        vstd::arithmetic::power2::lemma2_to64();
    }
    while bucket < 32
        invariant
            bucket <= 32,
            cumulative == counted(histogram@, bucket as int),
            counted(histogram@, 32) <= u64::MAX,
            counted(histogram@, 32) > 0,
            bound == vstd::arithmetic::power2::pow2((bucket + 1) as nat),
            bound <= 0x2_0000_0000,
            bucket < 32 ==> bound <= 0x1_0000_0000,
            vstd::arithmetic::power2::pow2(32) == 0x1_0000_0000,
            forall|c: int| 0 <= c < bucket ==> #[trigger] counted(histogram@, c + 1) < target,
        decreases 32 - bucket,
    {
        proof {
            lemma_counted_grows(histogram@, bucket + 1, 32);
        }
        cumulative = cumulative + histogram[bucket];
        if cumulative >= target {
            let r: u64 = if bucket == 0 {
                1
            } else {
                bound
            };
            assert(r == bucket_bound(bucket as int));
            return r;
        }
        proof {
            vstd::arithmetic::power2::lemma_pow2_unfold((bucket + 2) as nat);
            if bucket + 1 < 32 {
                if bucket + 2 < 32 {
                    vstd::arithmetic::power2::lemma_pow2_strictly_increases(
                        (bucket + 2) as nat,
                        32,
                    );
                }
            }
        }
        bound = bound * 2;
        bucket += 1;
    }
    assert(counted(histogram@, 31int + 1) < target);
    0x1_0000_0000
}

/// What a counter counts.
#[derive(Debug, Clone, Copy, PartialEq, Eq, Structural, Hash)]
pub enum CounterKind {
    Throughput,
    Iops,
    QueueAverage,
    ServiceAverage,
    TotalAverage,
    ServiceP50,
    ServiceP95,
    ServiceP99,
    TotalP50,
    TotalP95,
    TotalP99,
    Errors,
    BusyPercent,
    SaturatedPercent,
    AverageInflight,
    AverageQueued,
    Inflight,
    Queued,
    MaxInflight,
    MaxQueued,
    Requeues,
    LostRequests,
    TimelineDrops,
}

impl CounterKind {
    pub open spec fn code(self) -> int {
        match self {
            CounterKind::Throughput => 0,
            CounterKind::Iops => 1,
            CounterKind::QueueAverage => 2,
            CounterKind::ServiceAverage => 3,
            CounterKind::TotalAverage => 4,
            CounterKind::ServiceP50 => 5,
            CounterKind::ServiceP95 => 6,
            CounterKind::ServiceP99 => 7,
            CounterKind::TotalP50 => 8,
            CounterKind::TotalP95 => 9,
            CounterKind::TotalP99 => 10,
            CounterKind::Errors => 11,
            CounterKind::BusyPercent => 12,
            CounterKind::SaturatedPercent => 13,
            CounterKind::AverageInflight => 14,
            CounterKind::AverageQueued => 15,
            CounterKind::Inflight => 16,
            CounterKind::Queued => 17,
            CounterKind::MaxInflight => 18,
            CounterKind::MaxQueued => 19,
            CounterKind::Requeues => 20,
            CounterKind::LostRequests => 21,
            CounterKind::TimelineDrops => 22,
        }
    }

    fn to_code(self) -> (r: u64)
        ensures
            r == self.code(),
    {
        match self {
            CounterKind::Throughput => 0,
            CounterKind::Iops => 1,
            CounterKind::QueueAverage => 2,
            CounterKind::ServiceAverage => 3,
            CounterKind::TotalAverage => 4,
            CounterKind::ServiceP50 => 5,
            CounterKind::ServiceP95 => 6,
            CounterKind::ServiceP99 => 7,
            CounterKind::TotalP50 => 8,
            CounterKind::TotalP95 => 9,
            CounterKind::TotalP99 => 10,
            CounterKind::Errors => 11,
            CounterKind::BusyPercent => 12,
            CounterKind::SaturatedPercent => 13,
            CounterKind::AverageInflight => 14,
            CounterKind::AverageQueued => 15,
            CounterKind::Inflight => 16,
            CounterKind::Queued => 17,
            CounterKind::MaxInflight => 18,
            CounterKind::MaxQueued => 19,
            CounterKind::Requeues => 20,
            CounterKind::LostRequests => 21,
            CounterKind::TimelineDrops => 22,
        }
    }
}

/// Names one series of values.
#[derive(Debug, Clone, Copy, PartialEq, Eq, Structural, Hash)]
pub struct SeriesKey {
    pub dev: u32,
    pub operation: Option<BlockOperation>,
    pub kind: CounterKind,
}

impl SeriesKey {
    /// The number under which a series is kept.
    pub open spec fn code(self) -> u64 {
        (self.dev * 0x400 + (match self.operation {
            Some(op) => op.spec_index() + 1,
            None => 0,
        }) * 0x40 + self.kind.code()) as u64
    }

    fn to_code(self) -> (r: u64)
        ensures
            r == self.code(),
    {
        let op: u64 = match self.operation {
            Some(op) => op.index() as u64 + 1,
            None => 0,
        };
        self.dev as u64 * 0x400 + op * 0x40 + self.kind.to_code()
    }
}

proof fn lemma_same_series(a: SeriesKey, b: SeriesKey)
    requires
        a.code() == b.code(),
    ensures
        a == b,
{
    assert(a.kind.code() == b.kind.code());
    assert(a.kind == b.kind);
}

/// One value of a series.
#[derive(Debug)]
pub struct CounterSample {
    pub operation: Option<BlockOperation>,
    pub kind: CounterKind,
    pub name: String,
    pub value: Reading,
    pub unit: &'static str,
}

pub struct CounterSampleView {
    pub operation: Option<BlockOperation>,
    pub kind: CounterKind,
    pub name: Seq<char>,
    pub value: Reading,
    pub unit: Seq<char>,
}

impl View for CounterSample {
    type V = CounterSampleView;

    open spec fn view(&self) -> CounterSampleView {
        CounterSampleView {
            operation: self.operation,
            kind: self.kind,
            name: self.name@,
            value: self.value,
            unit: self.unit@,
        }
    }
}

pub open spec fn counter(
    operation: Option<BlockOperation>,
    kind: CounterKind,
    name: Seq<char>,
    value: Reading,
    unit: Seq<char>,
) -> CounterSampleView {
    CounterSampleView { operation, kind, name, value, unit }
}

fn counter_sample(
    operation: Option<BlockOperation>,
    kind: CounterKind,
    name: String,
    value: Reading,
    unit: &'static str,
) -> (r: CounterSample)
    ensures
        r@ == counter(operation, kind, name@, value, unit@),
{
    CounterSample { operation, kind, name, value, unit }
}

/// A sample of an operation, named after it.
pub open spec fn of_operation(
    operation: BlockOperation,
    kind: CounterKind,
    suffix: Seq<char>,
    value: Reading,
    unit: Seq<char>,
) -> CounterSampleView {
    counter(Some(operation), kind, operation.spec_name() + suffix, value, unit)
}

/// The average, where no operation counts as one.
pub open spec fn average(total_ns: u64, operations: u64) -> Reading {
    Reading::AverageMicros {
        total_ns,
        operations: if operations > 1 {
            operations
        } else {
            1
        },
    }
}

/// The latency samples of an operation.
pub open spec fn latency_list(operation: BlockOperation, stats: OperationStats) -> Seq<
    CounterSampleView,
> {
    let ops = stats.operations;
    seq![
        of_operation(
            operation,
            CounterKind::QueueAverage,
            "_queue_latency_avg"@,
            average(stats.queue_latency_ns, ops),
            "us"@,
        ),
        of_operation(
            operation,
            CounterKind::ServiceAverage,
            "_service_latency_avg"@,
            average(stats.service_latency_ns, ops),
            "us"@,
        ),
        of_operation(
            operation,
            CounterKind::TotalAverage,
            "_total_latency_avg"@,
            average(stats.total_latency_ns, ops),
            "us"@,
        ),
        of_operation(
            operation,
            CounterKind::ServiceP50,
            "_service_latency_p50"@,
            Reading::LatencyQuantile { histogram: stats.service_histogram, percent: 50 },
            "us"@,
        ),
        of_operation(
            operation,
            CounterKind::ServiceP95,
            "_service_latency_p95"@,
            Reading::LatencyQuantile { histogram: stats.service_histogram, percent: 95 },
            "us"@,
        ),
        of_operation(
            operation,
            CounterKind::ServiceP99,
            "_service_latency_p99"@,
            Reading::LatencyQuantile { histogram: stats.service_histogram, percent: 99 },
            "us"@,
        ),
        of_operation(
            operation,
            CounterKind::TotalP50,
            "_total_latency_p50"@,
            Reading::LatencyQuantile { histogram: stats.total_histogram, percent: 50 },
            "us"@,
        ),
        of_operation(
            operation,
            CounterKind::TotalP95,
            "_total_latency_p95"@,
            Reading::LatencyQuantile { histogram: stats.total_histogram, percent: 95 },
            "us"@,
        ),
        of_operation(
            operation,
            CounterKind::TotalP99,
            "_total_latency_p99"@,
            Reading::LatencyQuantile { histogram: stats.total_histogram, percent: 99 },
            "us"@,
        ),
    ]
}

/// The samples of an operation, as far as the configuration asks for them.
pub open spec fn operation_list(
    config: &BlockIoConfig,
    operation: BlockOperation,
    stats: OperationStats,
    elapsed_ns: u64,
) -> Seq<CounterSampleView> {
    (if config.wants(BlockMetric::Throughput) {
        seq![
            of_operation(
                operation,
                CounterKind::Throughput,
                "_throughput"@,
                Reading::PerSecond { amount: stats.bytes, elapsed_ns },
                "bytes/s"@,
            ),
        ]
    } else {
        seq![]
    }) + (if config.wants(BlockMetric::Iops) {
        seq![
            of_operation(
                operation,
                CounterKind::Iops,
                "_iops"@,
                Reading::PerSecond { amount: stats.operations, elapsed_ns },
                "operations/s"@,
            ),
        ]
    } else {
        seq![]
    }) + (if config.wants(BlockMetric::Latency) {
        latency_list(operation, stats)
    } else {
        seq![]
    }) + (if config.wants(BlockMetric::Errors) {
        seq![
            of_operation(
                operation,
                CounterKind::Errors,
                "_errors"@,
                Reading::Count { n: stats.errors },
                "count"@,
            ),
        ]
    } else {
        seq![]
    })
}

/// The samples of a queue.
pub open spec fn depth_list(depth: DepthSnapshot, elapsed_ns: u64) -> Seq<CounterSampleView> {
    let whole = if elapsed_ns > 1 {
        elapsed_ns
    } else {
        1
    };
    seq![
        counter(
            None,
            CounterKind::BusyPercent,
            "busy_percent"@,
            Reading::ClampedPercent { part: depth.busy_ns, whole },
            "percent"@,
        ),
        counter(
            None,
            CounterKind::SaturatedPercent,
            "saturated_percent"@,
            Reading::ClampedPercent { part: depth.saturated_ns, whole },
            "percent"@,
        ),
        counter(
            None,
            CounterKind::AverageInflight,
            "average_inflight"@,
            Reading::Ratio { part: depth.inflight_ns, whole },
            "requests"@,
        ),
        counter(
            None,
            CounterKind::AverageQueued,
            "average_queued"@,
            Reading::Ratio { part: depth.queued_ns, whole },
            "requests"@,
        ),
        counter(
            None,
            CounterKind::Inflight,
            "inflight"@,
            Reading::Count { n: depth.inflight as u64 },
            "requests"@,
        ),
        counter(
            None,
            CounterKind::Queued,
            "queued"@,
            Reading::Count { n: depth.queued as u64 },
            "requests"@,
        ),
        counter(
            None,
            CounterKind::MaxInflight,
            "max_inflight"@,
            Reading::Count { n: depth.max_inflight as u64 },
            "requests"@,
        ),
        counter(
            None,
            CounterKind::MaxQueued,
            "max_queued"@,
            Reading::Count { n: depth.max_queued as u64 },
            "requests"@,
        ),
    ]
}

/// Samples by their views.
pub open spec fn sample_views(s: Seq<CounterSample>) -> Seq<CounterSampleView> {
    crate::protocol::views(s)
}

fn push_sample(list: &mut Vec<CounterSample>, sample: CounterSample)
    ensures
        sample_views(final(list)@) == sample_views(old(list)@) + seq![sample@],
{
    let ghost v = sample@;
    list.push(sample);
    assert(sample_views(list@) =~= sample_views(old(list)@) + seq![v]);
}

fn operation_sample(
    operation: BlockOperation,
    kind: CounterKind,
    suffix: &str,
    value: Reading,
    unit: &'static str,
) -> (r: CounterSample)
    ensures
        r@ == of_operation(operation, kind, suffix@, value, unit@),
{
    counter_sample(
        Some(operation),
        kind,
        operation.name().to_owned().concat(suffix),
        value,
        unit,
    )
}

fn average_reading(total_ns: u64, operations: u64) -> (r: Reading)
    ensures
        r == average(total_ns, operations),
{
    Reading::AverageMicros {
        total_ns,
        operations: if operations > 1 {
            operations
        } else {
            1
        },
    }
}

/// The samples of an operation.
pub fn operation_samples(
    config: &BlockIoConfig,
    operation: BlockOperation,
    stats: OperationStats,
    elapsed_ns: u64,
) -> (r: Vec<CounterSample>)
    ensures
        sample_views(r@) == operation_list(config, operation, stats, elapsed_ns),
{
    let mut samples: Vec<CounterSample> = Vec::new();
    assert(sample_views(samples@) =~= seq![]);
    if config.has_metric(BlockMetric::Throughput) {
        push_sample(
            &mut samples,
            operation_sample(
                operation,
                CounterKind::Throughput,
                "_throughput",
                Reading::PerSecond { amount: stats.bytes, elapsed_ns },
                "bytes/s",
            ),
        );
    }
    let ghost first = sample_views(samples@);
    if config.has_metric(BlockMetric::Iops) {
        push_sample(
            &mut samples,
            operation_sample(
                operation,
                CounterKind::Iops,
                "_iops",
                Reading::PerSecond { amount: stats.operations, elapsed_ns },
                "operations/s",
            ),
        );
    }
    let ghost second = sample_views(samples@);
    if config.has_metric(BlockMetric::Latency) {
        let ops: u64 = stats.operations;
        let service: [u64; 32] = stats.service_histogram;
        let total: [u64; 32] = stats.total_histogram;
        push_sample(
            &mut samples,
            operation_sample(
                operation,
                CounterKind::QueueAverage,
                "_queue_latency_avg",
                average_reading(stats.queue_latency_ns, ops),
                "us",
            ),
        );
        push_sample(
            &mut samples,
            operation_sample(
                operation,
                CounterKind::ServiceAverage,
                "_service_latency_avg",
                average_reading(stats.service_latency_ns, ops),
                "us",
            ),
        );
        push_sample(
            &mut samples,
            operation_sample(
                operation,
                CounterKind::TotalAverage,
                "_total_latency_avg",
                average_reading(stats.total_latency_ns, ops),
                "us",
            ),
        );
        push_sample(
            &mut samples,
            operation_sample(
                operation,
                CounterKind::ServiceP50,
                "_service_latency_p50",
                Reading::LatencyQuantile { histogram: service, percent: 50 },
                "us",
            ),
        );
        push_sample(
            &mut samples,
            operation_sample(
                operation,
                CounterKind::ServiceP95,
                "_service_latency_p95",
                Reading::LatencyQuantile { histogram: service, percent: 95 },
                "us",
            ),
        );
        push_sample(
            &mut samples,
            operation_sample(
                operation,
                CounterKind::ServiceP99,
                "_service_latency_p99",
                Reading::LatencyQuantile { histogram: service, percent: 99 },
                "us",
            ),
        );
        push_sample(
            &mut samples,
            operation_sample(
                operation,
                CounterKind::TotalP50,
                "_total_latency_p50",
                Reading::LatencyQuantile { histogram: total, percent: 50 },
                "us",
            ),
        );
        push_sample(
            &mut samples,
            operation_sample(
                operation,
                CounterKind::TotalP95,
                "_total_latency_p95",
                Reading::LatencyQuantile { histogram: total, percent: 95 },
                "us",
            ),
        );
        push_sample(
            &mut samples,
            operation_sample(
                operation,
                CounterKind::TotalP99,
                "_total_latency_p99",
                Reading::LatencyQuantile { histogram: total, percent: 99 },
                "us",
            ),
        );
        assert(sample_views(samples@) =~= second + latency_list(operation, stats));
    }
    if config.has_metric(BlockMetric::Errors) {
        push_sample(
            &mut samples,
            operation_sample(
                operation,
                CounterKind::Errors,
                "_errors",
                Reading::Count { n: stats.errors },
                "count",
            ),
        );
    }
    assert(sample_views(samples@) =~= operation_list(config, operation, stats, elapsed_ns));
    samples
}

/// The samples of a queue.
pub fn depth_samples(depth: DepthSnapshot, elapsed_ns: u64) -> (r: Vec<CounterSample>)
    ensures
        sample_views(r@) == depth_list(depth, elapsed_ns),
{
    let whole: u64 = if elapsed_ns > 1 {
        elapsed_ns
    } else {
        1
    };
    let mut samples: Vec<CounterSample> = Vec::new();
    push_sample(
        &mut samples,
        counter_sample(
            None,
            CounterKind::BusyPercent,
            "busy_percent".to_owned(),
            Reading::ClampedPercent { part: depth.busy_ns, whole },
            "percent",
        ),
    );
    push_sample(
        &mut samples,
        counter_sample(
            None,
            CounterKind::SaturatedPercent,
            "saturated_percent".to_owned(),
            Reading::ClampedPercent { part: depth.saturated_ns, whole },
            "percent",
        ),
    );
    push_sample(
        &mut samples,
        counter_sample(
            None,
            CounterKind::AverageInflight,
            "average_inflight".to_owned(),
            Reading::Ratio { part: depth.inflight_ns, whole },
            "requests",
        ),
    );
    push_sample(
        &mut samples,
        counter_sample(
            None,
            CounterKind::AverageQueued,
            "average_queued".to_owned(),
            Reading::Ratio { part: depth.queued_ns, whole },
            "requests",
        ),
    );
    push_sample(
        &mut samples,
        counter_sample(
            None,
            CounterKind::Inflight,
            "inflight".to_owned(),
            Reading::Count { n: depth.inflight as u64 },
            "requests",
        ),
    );
    push_sample(
        &mut samples,
        counter_sample(
            None,
            CounterKind::Queued,
            "queued".to_owned(),
            Reading::Count { n: depth.queued as u64 },
            "requests",
        ),
    );
    push_sample(
        &mut samples,
        counter_sample(
            None,
            CounterKind::MaxInflight,
            "max_inflight".to_owned(),
            Reading::Count { n: depth.max_inflight as u64 },
            "requests",
        ),
    );
    push_sample(
        &mut samples,
        counter_sample(
            None,
            CounterKind::MaxQueued,
            "max_queued".to_owned(),
            Reading::Count { n: depth.max_queued as u64 },
            "requests",
        ),
    );
    assert(sample_views(samples@) =~= depth_list(depth, elapsed_ns));
    samples
}

/// A number of bytes, in the largest unit that divides it.
pub open spec fn bytes_text(bytes: u32) -> Seq<char> {
    if bytes > 0 && bytes % 0x10_0000 == 0 {
        decimal((bytes / 0x10_0000) as nat) + " MiB"@
    } else if bytes > 0 && bytes % 1024 == 0 {
        decimal((bytes / 1024) as nat) + " KiB"@
    } else {
        decimal(bytes as nat) + " B"@
    }
}

pub fn format_bytes(bytes: u32) -> (r: String)
    ensures
        r@ == bytes_text(bytes),
{
    let mut r: String = String::new();
    if bytes > 0 && bytes % 0x10_0000 == 0 {
        push_decimal(&mut r, (bytes / 0x10_0000) as u64);
        r.append(" MiB");
    } else if bytes > 0 && bytes % 1024 == 0 {
        push_decimal(&mut r, (bytes / 1024) as u64);
        r.append(" KiB");
    } else {
        push_decimal(&mut r, bytes as u64);
        r.append(" B");
    }
    assert(r@ =~= bytes_text(bytes));
    r
}

/// What has been sent: the tracks of devices, the ids of series, and the
/// messages.
pub struct Emission {
    pub tracks: Map<u32, u64>,
    pub series: Map<SeriesKey, u64>,
    pub history: Seq<(MessageView, i32)>,
}

/// Announces the track of a device.
pub open spec fn device_message(name: Seq<char>, id: u64) -> MessageView {
    MessageView::Event(
        EventView::Track(
            TrackView { name, track_type: TrackTypeView::Custom { id }, parent: None },
        ),
    )
}

/// Announces a series.
pub open spec fn series_message(sample: CounterSampleView, id: u64, track: u64) -> MessageView {
    MessageView::Event(
        EventView::Track(
            TrackView {
                name: sample.name,
                track_type: TrackTypeView::Counter { id, unit: Some(sample.unit) },
                parent: Some(TrackTypeView::Custom { id: track }),
            },
        ),
    )
}

/// One value of a series.
pub open spec fn value_message(sample: CounterSampleView, id: u64, timestamp: u64) -> MessageView {
    MessageView::Event(
        EventView::Counter(
            CounterView {
                name: sample.name,
                value: sample.value,
                timestamp,
                track_id: TrackId::Counter { id },
                labels: no_labels(),
                unit: Some(sample.unit),
            },
        ),
    )
}

/// What making sure of a device's track does: a device without one is announced
/// under some id, which it keeps if the message was taken.
pub open spec fn track_ensured(
    before: Emission,
    dev: u32,
    name: Seq<char>,
    after: Emission,
    id: u64,
    code: i32,
) -> bool {
    if before.tracks.contains_key(dev) {
        after == before && id == before.tracks[dev] && code == 0
    } else {
        after == (Emission {
            tracks: if code == 0 {
                before.tracks.insert(dev, id)
            } else {
                before.tracks
            },
            history: before.history.push((device_message(name, id), code)),
            ..before
        })
    }
}

/// The series of a sample.
pub open spec fn series_of(dev: u32, sample: CounterSampleView) -> SeriesKey {
    SeriesKey { dev, operation: sample.operation, kind: sample.kind }
}

/// What announcing a new series under `id` does; the series keeps the id even if
/// the message was refused.
pub open spec fn series_announced(
    before: Emission,
    dev: u32,
    track: u64,
    sample: CounterSampleView,
    id: u64,
    code: i32,
) -> Emission {
    Emission {
        series: before.series.insert(series_of(dev, sample), id),
        history: before.history.push((series_message(sample, id, track), code)),
        ..before
    }
}

/// What sending a value does.
pub open spec fn value_sent(
    before: Emission,
    sample: CounterSampleView,
    id: u64,
    timestamp: u64,
    code: i32,
) -> Emission {
    Emission { history: before.history.push((value_message(sample, id, timestamp), code)), ..before }
}

/// What sending a sample does once the device has its track: a new series is
/// announced first, and the value is not sent if that was refused.
pub open spec fn series_emitted(
    before: Emission,
    dev: u32,
    track: u64,
    sample: CounterSampleView,
    timestamp: u64,
    after: Emission,
    code: i32,
) -> bool {
    let key = series_of(dev, sample);
    if before.series.contains_key(key) {
        after == value_sent(before, sample, before.series[key], timestamp, code)
    } else {
        exists|id: u64, c: i32|
            {
                let named = #[trigger] series_announced(before, dev, track, sample, id, c);
                if c != 0 {
                    after == named && code == c
                } else {
                    after == value_sent(named, sample, id, timestamp, code)
                }
            }
    }
}

/// What sending a sample does, and the number that came back last.
pub open spec fn emitted(
    before: Emission,
    dev: u32,
    name: Seq<char>,
    sample: CounterSampleView,
    timestamp: u64,
    after: Emission,
    code: i32,
) -> bool {
    exists|middle: Emission, track: u64, c: i32|
        {
            &&& #[trigger] track_ensured(before, dev, name, middle, track, c)
            &&& if c != 0 {
                after == middle && code == c
            } else {
                series_emitted(middle, dev, track, sample, timestamp, after, code)
            }
        }
}

/// What sending samples in turn does, up to the first that is refused.
pub open spec fn list_emitted(
    before: Emission,
    dev: u32,
    name: Seq<char>,
    samples: Seq<CounterSampleView>,
    timestamp: u64,
    after: Emission,
    stopped: bool,
) -> bool
    decreases samples.len(),
{
    if samples.len() == 0 {
        after == before && !stopped
    } else {
        ||| stopped && list_emitted(
            before,
            dev,
            name,
            samples.drop_last(),
            timestamp,
            after,
            true,
        )
        ||| exists|middle: Emission, code: i32|
            {
                &&& list_emitted(
                    before,
                    dev,
                    name,
                    samples.drop_last(),
                    timestamp,
                    middle,
                    false,
                )
                &&& #[trigger] emitted(
                    middle,
                    dev,
                    name,
                    samples.last(),
                    timestamp,
                    after,
                    code,
                )
                &&& stopped == (code != 0)
            }
    }
}

/// Once refused, nothing more is sent.
proof fn lemma_stopped(
    before: Emission,
    dev: u32,
    name: Seq<char>,
    samples: Seq<CounterSampleView>,
    n: int,
    timestamp: u64,
    after: Emission,
)
    requires
        0 <= n <= samples.len(),
        list_emitted(before, dev, name, samples.take(n), timestamp, after, true),
    ensures
        list_emitted(before, dev, name, samples, timestamp, after, true),
    decreases samples.len() - n,
{
    if n < samples.len() {
        assert(samples.take(n + 1).drop_last() =~= samples.take(n));
        assert(list_emitted(before, dev, name, samples.take(n + 1), timestamp, after, true));
        lemma_stopped(before, dev, name, samples, n + 1, timestamp, after);
    } else {
        assert(samples.take(n) =~= samples);
    }
}

/// What sending several lists does; a refusal ends the list, not the others.
pub open spec fn lists_emitted(
    before: Emission,
    dev: u32,
    name: Seq<char>,
    lists: Seq<Seq<CounterSampleView>>,
    timestamp: u64,
    after: Emission,
) -> bool
    decreases lists.len(),
{
    if lists.len() == 0 {
        after == before
    } else {
        exists|middle: Emission, stopped: bool|
            {
                &&& lists_emitted(before, dev, name, lists.drop_last(), timestamp, middle)
                &&& #[trigger] list_emitted(
                    middle,
                    dev,
                    name,
                    lists.last(),
                    timestamp,
                    after,
                    stopped,
                )
            }
    }
}

/// The lists of a device: one for each operation, and one of what went wrong.
pub open spec fn counter_lists(config: &BlockIoConfig, delta: DeviceStats, elapsed_ns: u64) -> Seq<
    Seq<CounterSampleView>,
> {
    Seq::new(
        config.operations@.len(),
        |i: int|
            operation_list(
                config,
                config.operations@[i],
                delta.operations@[config.operations@[i].spec_index()],
                elapsed_ns,
            ),
    ) + (if config.wants(BlockMetric::Errors) {
        seq![
            seq![
                counter(
                    None,
                    CounterKind::Requeues,
                    "requeues"@,
                    Reading::Count { n: delta.requeues },
                    "count"@,
                ),
                counter(
                    None,
                    CounterKind::LostRequests,
                    "lost_requests"@,
                    Reading::Count { n: delta.lost_requests },
                    "count"@,
                ),
            ],
        ]
    } else {
        seq![]
    })
}

/// The sample of lost timeline entries.
pub open spec fn drops_sample(delta: DeviceStats) -> CounterSampleView {
    counter(
        None,
        CounterKind::TimelineDrops,
        "timeline_drops"@,
        Reading::Count { n: delta.timeline_drops },
        "count"@,
    )
}

/// The state that samples are taken in.
pub struct SampleState {
    pub emission: Emission,
    pub stats: Map<u32, DeviceStats>,
    pub depths: Map<u32, DepthSnapshot>,
}

/// What a map holds for a key.
pub open spec fn held<V>(map: Map<u32, V>, key: u32) -> Option<V> {
    if map.contains_key(key) {
        Some(map[key])
    } else {
        None
    }
}

/// What sampling the counters of a device does: how far they have grown is sent,
/// and last what the timeline lost; `code` says whether that was refused.
pub open spec fn stats_sampled(
    config: &BlockIoConfig,
    name: Seq<char>,
    before: SampleState,
    dev: u32,
    current: DeviceStats,
    elapsed_ns: u64,
    now: u64,
    after: Emission,
    code: i32,
) -> bool {
    exists|delta: DeviceStats, middle: Emission|
        {
            &&& #[trigger] current.grown(held(before.stats, dev), delta)
            &&& #[trigger] lists_emitted(
                before.emission,
                dev,
                name,
                counter_lists(config, delta, elapsed_ns),
                now,
                middle,
            )
            &&& if config.timeline {
                emitted(middle, dev, name, drops_sample(delta), now, after, code)
            } else {
                after == middle && code == 0
            }
        }
}

/// What sampling a device does. The queue is left out, and its state not
/// remembered, if the sample of lost timeline entries was refused.
pub open spec fn device_sampled(
    config: &BlockIoConfig,
    name: Seq<char>,
    before: SampleState,
    dev: u32,
    stats: Option<DeviceStats>,
    depth: Option<DeviceDepth>,
    elapsed_ns: u64,
    now: u64,
    after: SampleState,
) -> bool {
    exists|middle: Emission, code: i32, stopped: bool|
        {
            &&& match stats {
                Some(current) => stats_sampled(
                    config,
                    name,
                    before,
                    dev,
                    current,
                    elapsed_ns,
                    now,
                    middle,
                    code,
                ) && after.stats == before.stats.insert(dev, current),
                None => middle == before.emission && code == 0 && after.stats == before.stats,
            }
            &&& #[trigger] depth_sampled(
                name,
                before,
                dev,
                unless_refused(code, depth),
                elapsed_ns,
                now,
                middle,
                stopped,
                after,
            )
        }
}

/// The queue, if what came before it was not refused.
pub open spec fn unless_refused(code: i32, depth: Option<DeviceDepth>) -> Option<DeviceDepth> {
    if code == 0 {
        depth
    } else {
        None
    }
}

/// What sampling the queue of a device does.
pub open spec fn depth_sampled(
    name: Seq<char>,
    before: SampleState,
    dev: u32,
    depth: Option<DeviceDepth>,
    elapsed_ns: u64,
    now: u64,
    middle: Emission,
    stopped: bool,
    after: SampleState,
) -> bool {
    match depth {
        Some(queue) => {
            &&& after.depths == before.depths.insert(dev, queue.at(now))
            &&& list_emitted(
                middle,
                dev,
                name,
                depth_list(queue.at(now).since(held(before.depths, dev)), elapsed_ns),
                now,
                after.emission,
                stopped,
            )
        },
        None => after.depths == before.depths && after.emission == middle,
    }
}

/// What sampling several devices in turn does.
pub open spec fn devices_sampled(
    config: &BlockIoConfig,
    registry: RegistryView,
    before: SampleState,
    devices: Seq<u32>,
    stats: Map<u32, DeviceStats>,
    depths: Map<u32, DeviceDepth>,
    elapsed_ns: u64,
    now: u64,
    after: SampleState,
) -> bool
    decreases devices.len(),
{
    if devices.len() == 0 {
        after == before
    } else {
        exists|middle: SampleState|
            {
                &&& devices_sampled(
                    config,
                    registry,
                    before,
                    devices.drop_last(),
                    stats,
                    depths,
                    elapsed_ns,
                    now,
                    middle,
                )
                &&& #[trigger] device_sampled(
                    config,
                    registry.info(devices.last()).track_name(),
                    middle,
                    devices.last(),
                    held(stats, devices.last()),
                    held(depths, devices.last()),
                    elapsed_ns,
                    now,
                    after,
                )
            }
    }
}

/// Whether `devices` are those to be sampled, each once: the ones with counters,
/// and the ones whose queue was ever used.
pub open spec fn sampled_devices(
    stats: Map<u32, DeviceStats>,
    depths: Map<u32, DeviceDepth>,
    devices: Seq<u32>,
) -> bool {
    &&& devices.no_duplicates()
    &&& forall|dev: u32| #[trigger]
        devices.contains(dev) <==> stats.contains_key(dev) || (depths.contains_key(dev)
            && depths[dev].used())
}

/// The state of a block I/O tracker.
pub struct BlockIo {
    config: BlockIoConfig,
    registry: DeviceRegistry,
    last_sample_ns: u64,
    previous_stats: HashMap<u32, DeviceStats>,
    previous_depth: HashMap<u32, DepthSnapshot>,
    series_ids: HashMap<u64, u64>,
}

impl BlockIo {
    pub closed spec fn spec_config(&self) -> BlockIoConfig {
        self.config
    }

    /// What is known of the devices.
    pub closed spec fn devices(&self) -> RegistryView {
        self.registry@
    }

    /// When the last sample was taken.
    pub closed spec fn last_sample(&self) -> u64 {
        self.last_sample_ns
    }

    /// The ids of the series.
    pub closed spec fn series(&self) -> Map<SeriesKey, u64> {
        Map::new(
            |k: SeriesKey| self.series_ids@.contains_key(k.code()),
            |k: SeriesKey| self.series_ids@[k.code()],
        )
    }

    /// What has been sent, with the messages of a sink.
    pub open spec fn emission(&self, history: Seq<(MessageView, i32)>) -> Emission {
        Emission { tracks: self.devices().tracks, series: self.series(), history }
    }

    /// The counters of the last sample.
    pub closed spec fn stats(&self) -> Map<u32, DeviceStats> {
        self.previous_stats@
    }

    /// The queues of the last sample.
    pub closed spec fn depths(&self) -> Map<u32, DepthSnapshot> {
        self.previous_depth@
    }

    /// The state that samples are taken in.
    pub open spec fn state(&self, history: Seq<(MessageView, i32)>) -> SampleState {
        SampleState {
            emission: self.emission(history),
            stats: self.stats(),
            depths: self.depths(),
        }
    }

    /// Whether nothing but what was sent has changed.
    pub open spec fn only_sent(&self, before: &BlockIo) -> bool {
        &&& self.spec_config() == before.spec_config()
        &&& self.devices() == (RegistryView {
            tracks: self.devices().tracks,
            ..before.devices()
        })
        &&& self.last_sample() == before.last_sample()
        &&& self.stats() == before.stats()
        &&& self.depths() == before.depths()
    }

    pub fn new(config: BlockIoConfig, registry: DeviceRegistry, now: u64) -> (r: Self)
        ensures
            r.spec_config() == config,
            r.devices() == registry@,
            r.last_sample() == now,
            r.stats() == Map::<u32, DeviceStats>::empty(),
            r.depths() == Map::<u32, DepthSnapshot>::empty(),
            r.series() == Map::<SeriesKey, u64>::empty(),
    {
        let r = BlockIo {
            config,
            registry,
            last_sample_ns: now,
            previous_stats: HashMap::new(),
            previous_depth: HashMap::new(),
            series_ids: HashMap::new(),
        };
        assert(r.series() =~= Map::<SeriesKey, u64>::empty());
        r
    }

    /// Sets the name of a device.
    pub fn set_name(&mut self, dev: u32, name: String)
        ensures
            final(self).devices() == (RegistryView {
                names: old(self).devices().names.insert(dev, name@),
                ..old(self).devices()
            }),
            final(self).spec_config() == old(self).spec_config(),
            final(self).last_sample() == old(self).last_sample(),
            final(self).stats() == old(self).stats(),
            final(self).depths() == old(self).depths(),
            final(self).series() == old(self).series(),
    {
        self.registry.set_name(dev, name);
    }

    /// Whether the name of a device was set.
    pub fn has_name(&self, dev: u32) -> (r: bool)
        ensures
            r == self.devices().names.contains_key(dev),
    {
        self.registry.has_name(dev)
    }

    /// Announces the track of a device under `id`.
    fn announce_track<S: MessageSink>(&mut self, dev: u32, id: u64, sink: &mut S) -> (code: i32)
        requires
            !old(self).devices().tracks.contains_key(dev),
        ensures
            final(self).only_sent(old(self)),
            track_ensured(
                old(self).emission(old(sink).history()),
                dev,
                old(self).devices().info(dev).track_name(),
                final(self).emission(final(sink).history()),
                id,
                code,
            ),
    {
        let info: DeviceInfo = self.registry.info(dev);
        let name: String = info.track_name();
        let code: i32 = sink.submit(
            Message::Event(
                Event::Track(Track { name, track_type: TrackType::Custom { id }, parent: None }),
            ),
        );
        if code == 0 {
            self.registry.set_track(dev, id);
        }
        code
    }

    /// The track of a device; one that has none is announced under a random id.
    pub fn ensure_track<S: MessageSink>(&mut self, dev: u32, sink: &mut S) -> (r: (u64, i32))
        ensures
            final(self).only_sent(old(self)),
            track_ensured(
                old(self).emission(old(sink).history()),
                dev,
                old(self).devices().info(dev).track_name(),
                final(self).emission(final(sink).history()),
                r.0,
                r.1,
            ),
    {
        match self.registry.track(dev) {
            Some(id) => (id, 0),
            None => {
                let id: u64 = random_u64();
                let code: i32 = self.announce_track(dev, id, sink);
                (id, code)
            },
        }
    }

    /// Sends a value of a series that has an id.
    fn send_value<S: MessageSink>(
        &self,
        sample: CounterSample,
        id: u64,
        timestamp: u64,
        sink: &mut S,
    ) -> (code: i32)
        ensures
            final(sink).history() == old(sink).history().push(
                (value_message(sample@, id, timestamp), code),
            ),
    {
        sink.submit(
            Message::Event(
                Event::Counter(
                    Counter {
                        name: sample.name,
                        value: sample.value,
                        timestamp,
                        track_id: TrackId::Counter { id },
                        labels: Labels::new(),
                        unit: Some(sample.unit.to_owned()),
                    },
                ),
            ),
        )
    }

    /// Announces a series under `id`, which it keeps.
    fn announce_series<S: MessageSink>(
        &mut self,
        dev: u32,
        track: u64,
        sample: &CounterSample,
        id: u64,
        sink: &mut S,
    ) -> (code: i32)
        ensures
            final(self).only_sent(old(self)),
            final(self).emission(final(sink).history()) == series_announced(
                old(self).emission(old(sink).history()),
                dev,
                track,
                sample@,
                id,
                code,
            ),
    {
        broadcast use group_hash_axioms;

        let key = SeriesKey { dev, operation: sample.operation, kind: sample.kind };
        self.series_ids.insert(key.to_code(), id);
        proof {
            assert forall|k: SeriesKey| k != key implies k.code() != key.code() by {
                if k.code() == key.code() {
                    lemma_same_series(k, key);
                }
            }
            assert(self.series() =~= old(self).series().insert(key, id));
        }
        sink.submit(
            Message::Event(
                Event::Track(
                    Track {
                        name: sample.name.clone(),
                        track_type: TrackType::Counter {
                            id,
                            unit: Some(sample.unit.to_owned()),
                        },
                        parent: Some(TrackType::Custom { id: track }),
                    },
                ),
            ),
        )
    }

    /// Sends a sample, after the track of its device and its series, where these
    /// are new. Returns the number that came back last.
    pub fn emit_counter<S: MessageSink>(
        &mut self,
        dev: u32,
        sample: CounterSample,
        timestamp: u64,
        sink: &mut S,
    ) -> (code: i32)
        ensures
            final(self).only_sent(old(self)),
            emitted(
                old(self).emission(old(sink).history()),
                dev,
                old(self).devices().info(dev).track_name(),
                sample@,
                timestamp,
                final(self).emission(final(sink).history()),
                code,
            ),
    {
        broadcast use group_hash_axioms;

        let ghost v = sample@;
        let ghost start = self.emission(sink.history());
        let ghost name = self.devices().info(dev).track_name();
        let (device_track, result): (u64, i32) = self.ensure_track(dev, sink);
        let ghost middle = self.emission(sink.history());
        assert(track_ensured(start, dev, name, middle, device_track, result));
        if result != 0 {
            return result;
        }
        let key = SeriesKey { dev, operation: sample.operation, kind: sample.kind };
        let known: Option<u64> = match self.series_ids.get(&key.to_code()) {
            Some(id) => Some(*id),
            None => None,
        };
        match known {
            Some(id) => {
                let code: i32 = self.send_value(sample, id, timestamp, sink);
                proof {
                    assert(self.emission(sink.history()) == value_sent(
                        middle,
                        v,
                        id,
                        timestamp,
                        code,
                    ));
                    assert(series_emitted(
                        middle,
                        dev,
                        device_track,
                        v,
                        timestamp,
                        self.emission(sink.history()),
                        code,
                    ));
                }
                code
            },
            None => {
                let id: u64 = random_u64();
                let result: i32 = self.announce_series(dev, device_track, &sample, id, sink);
                let ghost named = self.emission(sink.history());
                assert(named == series_announced(middle, dev, device_track, v, id, result));
                if result != 0 {
                    assert(series_emitted(
                        middle,
                        dev,
                        device_track,
                        v,
                        timestamp,
                        named,
                        result,
                    ));
                    return result;
                }
                let code: i32 = self.send_value(sample, id, timestamp, sink);
                proof {
                    assert(self.emission(sink.history()) == value_sent(
                        named,
                        v,
                        id,
                        timestamp,
                        code,
                    ));
                    assert(series_emitted(
                        middle,
                        dev,
                        device_track,
                        v,
                        timestamp,
                        self.emission(sink.history()),
                        code,
                    ));
                }
                code
            },
        }
    }

    /// Sends samples in turn, up to the first that is refused.
    fn emit_list<S: MessageSink>(
        &mut self,
        dev: u32,
        samples: Vec<CounterSample>,
        timestamp: u64,
        sink: &mut S,
    ) -> (stopped: bool)
        ensures
            final(self).only_sent(old(self)),
            list_emitted(
                old(self).emission(old(sink).history()),
                dev,
                old(self).devices().info(dev).track_name(),
                sample_views(samples@),
                timestamp,
                final(self).emission(final(sink).history()),
                stopped,
            ),
    {
        let ghost all = sample_views(samples@);
        let ghost start = self.emission(sink.history());
        let ghost name = self.devices().info(dev).track_name();
        let mut rest: Vec<CounterSample> = samples;
        let total: usize = rest.len();
        let mut done: usize = 0;
        assert(all.take(0) =~= seq![]);
        assert(all.skip(0) =~= all);
        while done < total
            invariant
                done <= total == all.len(),
                all == sample_views(samples@),
                sample_views(rest@) == all.skip(done as int),
                self.only_sent(old(self)),
                name == old(self).devices().info(dev).track_name(),
                start == old(self).emission(old(sink).history()),
                list_emitted(
                    start,
                    dev,
                    name,
                    all.take(done as int),
                    timestamp,
                    self.emission(sink.history()),
                    false,
                ),
            decreases total - done,
        {
            let ghost before = self.emission(sink.history());
            let ghost left = rest@;
            assert(sample_views(left).len() == total - done);
            let sample: CounterSample = rest.remove(0);
            proof {
                assert(sample@ == sample_views(left)[0]);
                assert(sample_views(rest@) =~= sample_views(left).drop_first());
                assert(all.skip(done as int).drop_first() =~= all.skip(done + 1));
                assert(all.take(done + 1).drop_last() =~= all.take(done as int));
                assert(all.take(done + 1).last() == sample@);
            }
            let code: i32 = self.emit_counter(dev, sample, timestamp, sink);
            let ghost after = self.emission(sink.history());
            done += 1;
            proof {
                assert(emitted(
                    before,
                    dev,
                    name,
                    all.take(done as int).last(),
                    timestamp,
                    after,
                    code,
                ));
                assert(list_emitted(
                    start,
                    dev,
                    name,
                    all.take(done as int),
                    timestamp,
                    after,
                    code != 0,
                ));
            }
            if code != 0 {
                proof {
                    lemma_stopped(start, dev, name, all, done as int, timestamp, after);
                }
                return true;
            }
        }
        assert(all.take(done as int) =~= all);
        false
    }

    /// Sends the lists of a device.
    fn emit_counters<S: MessageSink>(
        &mut self,
        dev: u32,
        delta: DeviceStats,
        elapsed_ns: u64,
        now: u64,
        sink: &mut S,
    )
        ensures
            final(self).only_sent(old(self)),
            lists_emitted(
                old(self).emission(old(sink).history()),
                dev,
                old(self).devices().info(dev).track_name(),
                counter_lists(&old(self).spec_config(), delta, elapsed_ns),
                now,
                final(self).emission(final(sink).history()),
            ),
    {
        let ghost config = self.spec_config();
        let ghost lists = counter_lists(&config, delta, elapsed_ns);
        let ghost start = self.emission(sink.history());
        let ghost name = self.devices().info(dev).track_name();
        let count: usize = self.config.operations.len();
        let mut i: usize = 0;
        assert(lists.take(0) =~= seq![]);
        while i < count
            invariant
                i <= count == self.config.operations@.len(),
                self.only_sent(old(self)),
                config == old(self).spec_config(),
                count <= lists.len(),
                lists == counter_lists(&config, delta, elapsed_ns),
                name == old(self).devices().info(dev).track_name(),
                lists_emitted(
                    start,
                    dev,
                    name,
                    lists.take(i as int),
                    now,
                    self.emission(sink.history()),
                ),
            decreases count - i,
        {
            let ghost before = self.emission(sink.history());
            let operation: BlockOperation = self.config.operations[i];
            let samples: Vec<CounterSample> = operation_samples(
                &self.config,
                operation,
                delta.operations[operation.index()],
                elapsed_ns,
            );
            proof {
                assert(sample_views(samples@) == lists[i as int]);
                assert(lists.take(i + 1).drop_last() =~= lists.take(i as int));
                assert(lists.take(i + 1).last() == lists[i as int]);
            }
            let stopped: bool = self.emit_list(dev, samples, now, sink);
            assert(list_emitted(
                before,
                dev,
                name,
                lists.take(i + 1).last(),
                now,
                self.emission(sink.history()),
                stopped,
            ));
            i += 1;
        }
        if self.config.has_metric(BlockMetric::Errors) {
            let ghost before = self.emission(sink.history());
            let mut samples: Vec<CounterSample> = Vec::new();
            push_sample(
                &mut samples,
                counter_sample(
                    None,
                    CounterKind::Requeues,
                    "requeues".to_owned(),
                    Reading::Count { n: delta.requeues },
                    "count",
                ),
            );
            push_sample(
                &mut samples,
                counter_sample(
                    None,
                    CounterKind::LostRequests,
                    "lost_requests".to_owned(),
                    Reading::Count { n: delta.lost_requests },
                    "count",
                ),
            );
            proof {
                assert(sample_views(samples@) =~= lists.last());
                assert(lists.drop_last() =~= lists.take(i as int));
            }
            let stopped: bool = self.emit_list(dev, samples, now, sink);
            assert(list_emitted(
                before,
                dev,
                name,
                lists.last(),
                now,
                self.emission(sink.history()),
                stopped,
            ));
        } else {
            assert(lists.take(i as int) =~= lists);
        }
    }

    /// Samples one device, of which there are counters, or a queue, or both.
    fn sample_device<S: MessageSink>(
        &mut self,
        dev: u32,
        stats: Option<DeviceStats>,
        depth: Option<DeviceDepth>,
        elapsed_ns: u64,
        now: u64,
        sink: &mut S,
    )
        ensures
            final(self).spec_config() == old(self).spec_config(),
            final(self).last_sample() == old(self).last_sample(),
            final(self).devices() == (RegistryView {
                tracks: final(self).devices().tracks,
                ..old(self).devices()
            }),
            device_sampled(
                &old(self).spec_config(),
                old(self).devices().info(dev).track_name(),
                old(self).state(old(sink).history()),
                dev,
                stats,
                depth,
                elapsed_ns,
                now,
                final(self).state(final(sink).history()),
            ),
    {
        broadcast use group_hash_axioms;

        let ghost config = self.spec_config();
        let ghost before = self.state(sink.history());
        let ghost name = self.devices().info(dev).track_name();
        let mut code: i32 = 0;
        if let Some(current) = stats {
            let previous: Option<DeviceStats> = match self.previous_stats.get(&dev) {
                Some(p) => Some(*p),
                None => None,
            };
            self.previous_stats.insert(dev, current);
            let delta: DeviceStats = current.delta(previous);
            assert(previous == held(before.stats, dev));
            assert(current.grown(held(before.stats, dev), delta));
            assert(self.emission(sink.history()) == before.emission);
            self.emit_counters(dev, delta, elapsed_ns, now, sink);
            let ghost middle = self.emission(sink.history());
            if self.config.timeline {
                code =
                self.emit_counter(
                    dev,
                    counter_sample(
                        None,
                        CounterKind::TimelineDrops,
                        "timeline_drops".to_owned(),
                        Reading::Count { n: delta.timeline_drops },
                        "count",
                    ),
                    now,
                    sink,
                );
            }
            assert(stats_sampled(
                &config,
                name,
                before,
                dev,
                current,
                elapsed_ns,
                now,
                self.emission(sink.history()),
                code,
            ));
        }
        let ghost middle = self.emission(sink.history());
        let queue: Option<DeviceDepth> = if code == 0 {
            depth
        } else {
            None
        };
        let mut stopped: bool = false;
        if let Some(current) = queue {
            let snapshot: DepthSnapshot = current.snapshot(now);
            let previous: Option<DepthSnapshot> = match self.previous_depth.get(&dev) {
                Some(p) => Some(*p),
                None => None,
            };
            self.previous_depth.insert(dev, snapshot);
            assert(previous == held(before.depths, dev));
            assert(self.emission(sink.history()) == middle);
            let delta: DepthSnapshot = snapshot.delta(previous);
            stopped = self.emit_list(dev, depth_samples(delta, elapsed_ns), now, sink);
        }
        assert(depth_sampled(
            name,
            before,
            dev,
            unless_refused(code, depth),
            elapsed_ns,
            now,
            middle,
            stopped,
            self.state(sink.history()),
        ));
    }

    /// Takes a sample at `now` of the counters and queues that the kernel reports;
    /// the devices in any order.
    pub fn sample<S: MessageSink>(
        &mut self,
        now: u64,
        stats: &HashMap<u32, DeviceStats>,
        depths: &HashMap<u32, DeviceDepth>,
        sink: &mut S,
    )
        ensures
            all_sampled(
                old(self),
                old(sink).history(),
                now,
                stats@,
                depths@,
                final(self),
                final(sink).history(),
            ),
    {
        broadcast use group_hash_axioms;

        let elapsed: u64 = now.saturating_sub(self.last_sample_ns);
        let elapsed_ns: u64 = if elapsed > 1 {
            elapsed
        } else {
            1
        };
        let devices: Vec<u32> = devices_to_sample(stats, depths);
        let ghost start = self.state(sink.history());
        let mut i: usize = 0;
        assert(devices@.take(0) =~= seq![]);
        while i < devices.len()
            invariant
                i <= devices@.len(),
                sampled_devices(stats@, depths@, devices@),
                self.spec_config() == old(self).spec_config(),
                self.last_sample() == old(self).last_sample(),
                self.devices() == (RegistryView {
                    tracks: self.devices().tracks,
                    ..old(self).devices()
                }),
                devices_sampled(
                    &old(self).spec_config(),
                    old(self).devices(),
                    start,
                    devices@.take(i as int),
                    stats@,
                    depths@,
                    elapsed_ns,
                    now,
                    self.state(sink.history()),
                ),
            decreases devices@.len() - i,
        {
            let dev: u32 = devices[i];
            let ghost before = self.state(sink.history());
            let current: Option<DeviceStats> = match stats.get(&dev) {
                Some(s) => Some(*s),
                None => None,
            };
            let queue: Option<DeviceDepth> = match depths.get(&dev) {
                Some(d) => Some(*d),
                None => None,
            };
            proof {
                assert(devices@.take(i + 1).drop_last() =~= devices@.take(i as int));
                assert(devices@.take(i + 1).last() == dev);
                assert(current == held(stats@, dev));
                assert(queue == held(depths@, dev));
                assert(self.devices().info(dev) == old(self).devices().info(dev));
            }
            self.sample_device(dev, current, queue, elapsed_ns, now, sink);
            proof {
                let list = devices@.take(i + 1);
                assert(device_sampled(
                    &old(self).spec_config(),
                    old(self).devices().info(list.last()).track_name(),
                    before,
                    list.last(),
                    held(stats@, list.last()),
                    held(depths@, list.last()),
                    elapsed_ns,
                    now,
                    self.state(sink.history()),
                ));
            }
            i += 1;
        }
        assert(devices@.take(i as int) =~= devices@);
        let ghost done = self.state(sink.history());
        self.last_sample_ns = now;
        assert(self.state(sink.history()) == done);
    }

    /// Whether a sample is due at `now`: it is forced, or the last one is at least
    /// one interval old.
    pub fn sample_due(&self, now: u64, force: bool) -> (r: bool)
        requires
            self.spec_config().frequency > 0,
        ensures
            r == is_due(self.last_sample(), self.spec_config().frequency, now, force),
    {
        let interval: u64 = 1_000_000_000u64 / self.config.frequency;
        force || now.saturating_sub(self.last_sample_ns) >= interval
    }

    /// Whether queues are to be read for a sample.
    pub fn wants_depths(&self) -> (r: bool)
        ensures
            r == self.spec_config().wants(BlockMetric::Saturation),
    {
        self.config.has_metric(BlockMetric::Saturation)
    }
}

/// What taking a sample does: the devices to be sampled are, in some order, over the
/// time since the last sample.
pub open spec fn all_sampled(
    before: &BlockIo,
    old_history: Seq<(MessageView, i32)>,
    now: u64,
    stats: Map<u32, DeviceStats>,
    depths: Map<u32, DeviceDepth>,
    after: &BlockIo,
    history: Seq<(MessageView, i32)>,
) -> bool {
    &&& after.spec_config() == before.spec_config()
    &&& after.last_sample() == now
    &&& after.devices() == (RegistryView { tracks: after.devices().tracks, ..before.devices() })
    &&& exists|devices: Seq<u32>| #[trigger]
        sampled_devices(stats, depths, devices) && devices_sampled(
            &before.spec_config(),
            before.devices(),
            before.state(old_history),
            devices,
            stats,
            depths,
            elapsed_since(before.last_sample(), now),
            now,
            after.state(history),
        )
}

/// Whether a sample is to be taken: on demand, and when its time has passed.
pub open spec fn is_due(last: u64, frequency: u64, now: u64, force: bool) -> bool {
    force || less(now, last) >= 1_000_000_000u64 / frequency
}

/// The time since the last sample, at least one nanosecond.
pub open spec fn elapsed_since(last: u64, now: u64) -> u64 {
    if less(now, last) > 1 {
        less(now, last)
    } else {
        1
    }
}

/// The devices to be sampled.
fn devices_to_sample(
    stats: &HashMap<u32, DeviceStats>,
    depths: &HashMap<u32, DeviceDepth>,
) -> (r: Vec<u32>)
    ensures
        sampled_devices(stats@, depths@, r@),
{
    broadcast use group_hash_axioms;

    let mut all: Vec<u32> = Vec::new();
    for (dev, current) in it: stats.iter()
        invariant
            it.seq() == stats.iter().remaining(),
            all@.len() == it.index(),
            forall|i: int| 0 <= i < all@.len() ==> all@[i] == *(#[trigger] it.seq()[i]).0,
    {
        all.push(*dev);
    }
    let ghost first = all@;
    proof {
        let v = stats.iter().remaining();
        assert forall|dev: u32| #[trigger] first.contains(dev) <==> stats@.contains_key(dev) by {
            if first.contains(dev) {
                let i = choose|i: int| 0 <= i < first.len() && first[i] == dev;
                assert(*v[i].0 == dev);
                assert(stats@.contains_key(*v[i].0));
            }
            if stats@.contains_key(dev) {
                assert(v.contains((&dev, &stats@[dev])));
                let i = choose|i: int| 0 <= i < v.len() && v[i] == (&dev, &stats@[dev]);
                assert(first[i] == *v[i].0);
            }
        }
    }
    for (dev, depth) in it: depths.iter()
        invariant
            it.seq() == depths.iter().remaining(),
            forall|d: u32|
                #[trigger] all@.contains(d) <==> first.contains(d) || exists|i: int|
                    0 <= i < it.index() && *(#[trigger] it.seq()[i]).0 == d && it.seq()[i].1.used(),
    {
        let ghost at = it.index();
        let ghost before = all@;
        if depth.is_used() {
            all.push(*dev);
            assert forall|d: u32| #[trigger] all@.contains(d) <==> before.contains(d) || d == *dev by {
                if before.contains(d) {
                    let k = choose|k: int| 0 <= k < before.len() && before[k] == d;
                    assert(all@[k] == d);
                }
                if d == *dev {
                    assert(all@[all@.len() - 1] == d);
                }
            }
        }
        proof {
            assert forall|d: u32| #[trigger] all@.contains(d) <==> first.contains(d) || exists|i: int|
                0 <= i < at + 1 && *(#[trigger] it.seq()[i]).0 == d && it.seq()[i].1.used() by {
                if all@.contains(d) && !before.contains(d) {
                    assert(*it.seq()[at].0 == d && it.seq()[at].1.used());
                }
                if before.contains(d) && !first.contains(d) {
                    let i = choose|i: int|
                        0 <= i < at && *(#[trigger] it.seq()[i]).0 == d && it.seq()[i].1.used();
                    assert(0 <= i < at + 1 && *it.seq()[i].0 == d);
                }
                if exists|i: int|
                    0 <= i < at + 1 && *(#[trigger] it.seq()[i]).0 == d && it.seq()[i].1.used() {
                    let i = choose|i: int|
                        0 <= i < at + 1 && *(#[trigger] it.seq()[i]).0 == d && it.seq()[i].1.used();
                    if i < at {
                        assert(before.contains(d));
                    }
                }
            }
        }
    }
    let r: Vec<u32> = distinct_numbers(&all);
    proof {
        super::blockdev::law_distinct(all@);
        let v = depths.iter().remaining();
        assert forall|d: u32| #[trigger] r@.contains(d) <==> stats@.contains_key(d) || (
        depths@.contains_key(d) && depths@[d].used()) by {
            assert(r@.contains(d) <==> all@.contains(d));
            if all@.contains(d) && !first.contains(d) {
                let i = choose|i: int|
                    0 <= i < v.len() && *(#[trigger] v[i]).0 == d && v[i].1.used();
                assert(depths@.contains_key(*v[i].0));
                assert(depths@[*v[i].0] == *v[i].1);
            }
            if depths@.contains_key(d) && depths@[d].used() {
                assert(v.contains((&d, &depths@[d])));
                let i = choose|i: int| 0 <= i < v.len() && v[i] == (&d, &depths@[d]);
                assert(*v[i].0 == d && v[i].1.used());
            }
        }
    }
    r
}

/// A finished or requeued request.
#[derive(Debug, Clone, Copy)]
pub struct RequestSpanEvent {
    pub request_id: u64,
    pub start_ns: u64,
    pub end_ns: u64,
    pub queue_ns: u64,
    pub service_ns: u64,
    pub total_ns: u64,
    pub sector: u64,
    pub dev: u32,
    pub partition_dev: u32,
    pub bytes: u32,
    pub tgid: u32,
    pub pid: u32,
    pub requeues: u32,
    pub error: i32,
    pub operation: u8,
    pub completed: u8,
    pub comm: [u8; 16],
}

impl RequestSpanEvent {
    /// Whether the event is the one that lies in `data`.
    pub open spec fn lies_in(self, data: Seq<u8>) -> bool {
        &&& self.request_id == u64_at(data, 0)
        &&& self.start_ns == u64_at(data, 8)
        &&& self.end_ns == u64_at(data, 16)
        &&& self.queue_ns == u64_at(data, 24)
        &&& self.service_ns == u64_at(data, 32)
        &&& self.total_ns == u64_at(data, 40)
        &&& self.sector == u64_at(data, 48)
        &&& self.dev == u32_at(data, 56)
        &&& self.partition_dev == u32_at(data, 60)
        &&& self.bytes == u32_at(data, 64)
        &&& self.tgid == u32_at(data, 68)
        &&& self.pid == u32_at(data, 72)
        &&& self.requeues == u32_at(data, 76)
        &&& self.error == u32_at(data, 80) as i32
        &&& self.operation == data[84]
        &&& self.completed == data[85]
        &&& self.comm@ == bytes_of(data, 92, 16)
    }

    /// Reads an event; a record that is too short holds none.
    pub fn from_bytes(data: &[u8]) -> (r: Option<Self>)
        ensures
            match r {
                Some(event) => data@.len() >= 112 && event.lies_in(data@),
                None => data@.len() < 112,
            },
    {
        if data.len() < 112 {
            return None;
        }
        let comm: [u8; 16] = read_comm(data, 92);
        Some(
            RequestSpanEvent {
                request_id: read_u64(data, 0),
                start_ns: read_u64(data, 8),
                end_ns: read_u64(data, 16),
                queue_ns: read_u64(data, 24),
                service_ns: read_u64(data, 32),
                total_ns: read_u64(data, 40),
                sector: read_u64(data, 48),
                dev: read_u32(data, 56),
                partition_dev: read_u32(data, 60),
                bytes: read_u32(data, 64),
                tgid: read_u32(data, 68),
                pid: read_u32(data, 72),
                requeues: read_u32(data, 76),
                error: read_u32(data, 80) as i32,
                operation: data[84],
                completed: data[85],
                comm,
            },
        )
    }

    /// The name of the command.
    pub open spec fn command(self) -> Seq<char> {
        lossy_text(until_zero(self.comm@))
    }

    /// The operation; one of an unknown index counts as another.
    pub open spec fn op(self) -> BlockOperation {
        if self.operation == 0 {
            BlockOperation::Read
        } else if self.operation == 1 {
            BlockOperation::Write
        } else if self.operation == 2 {
            BlockOperation::Flush
        } else if self.operation == 3 {
            BlockOperation::Discard
        } else {
            BlockOperation::Other
        }
    }

    /// The name of the span: what became of the request, and its size.
    pub open spec fn span_name(self) -> Seq<char> {
        (if self.completed != 0 {
            if self.error == 0 {
                self.op().spec_name()
            } else {
                "error"@
            }
        } else {
            "requeued"@
        }) + " "@ + bytes_text(self.bytes)
    }

    /// The labels of the span, given what is known of its partition.
    pub open spec fn labels(self, partition: DeviceInfoView) -> LabelsView {
        self.labels_with(partition, self.command())
    }

    /// The labels of the span with `command` for the name of the command.
    pub open spec fn labels_with(self, partition: DeviceInfoView, command: Seq<char>) -> LabelsView {
        let strings = label_put(
            label_put(
                label_put(seq![], "comm"@, command),
                "operation"@,
                self.op().spec_name(),
            ),
            "partition"@,
            partition.label(),
        );
        LabelsView {
            ints: label_put(
                label_put(
                    label_put(
                        label_put(
                            label_put(
                                label_put(seq![], "bytes"@, self.bytes as i64),
                                "sector"@,
                                self.sector as i64,
                            ),
                            "pid"@,
                            self.pid as i64,
                        ),
                        "tgid"@,
                        self.tgid as i64,
                    ),
                    "error"@,
                    self.error as i64,
                ),
                "requeues"@,
                self.requeues as i64,
            ),
            floats: label_put(
                label_put(
                    label_put(seq![], "queue_latency_us"@, Reading::Micros { ns: self.queue_ns }),
                    "service_latency_us"@,
                    Reading::Micros { ns: self.service_ns },
                ),
                "total_latency_us"@,
                Reading::Micros { ns: self.total_ns },
            ),
            bools: label_put(seq![], "completed"@, self.completed != 0),
            strings: if partition.mounts.len() > 0 {
                label_put(
                    label_put(
                        label_put(
                            strings,
                            "filesystems"@,
                            crate::text::joined(
                                super::blockdev::filesystems(partition.mounts),
                                ","@,
                            ),
                        ),
                        "mountpoints"@,
                        crate::text::joined(
                            super::blockdev::mountpoints(
                                partition.mounts,
                                partition.mounts.len() as int,
                            ),
                            ","@,
                        ),
                    ),
                    "sources"@,
                    crate::text::joined(super::blockdev::sources(partition.mounts), ","@),
                )
            } else {
                strings
            },
        }
    }
}

fn read_comm(data: &[u8], at: usize) -> (r: [u8; 16])
    requires
        at + 16 <= data@.len(),
    ensures
        r@ == bytes_of(data@, at as int, 16),
{
    let len: usize = data.len();
    let mut r: [u8; 16] = [0u8; 16];
    let mut i: usize = 0;
    while i < 16
        invariant
            i <= 16,
            len == data@.len(),
            at + 16 <= len,
            forall|j: int| 0 <= j < i ==> #[trigger] r@[j] == data@[at + j],
        decreases 16 - i,
    {
        r[i] = data[at + i];
        i += 1;
    }
    assert(r@ =~= bytes_of(data@, at as int, 16));
    r
}

/// The span of a request.
pub open spec fn span_message(
    event: RequestSpanEvent,
    track: u64,
    partition: DeviceInfoView,
) -> MessageView {
    MessageView::Event(
        EventView::Span(
            SpanView {
                name: event.span_name(),
                span_id: event.request_id ^ event.start_ns,
                start_timestamp: event.start_ns,
                end_timestamp: event.end_ns,
                track_id: TrackId::Custom { id: track },
                labels: event.labels(partition),
            },
        ),
    )
}

/// What sending the span of a request does: the track of its device is announced
/// first, if it is new, and the span is not sent if that was refused.
pub open spec fn request_sent(
    before: Emission,
    registry: RegistryView,
    event: RequestSpanEvent,
    after: Emission,
    code: i32,
) -> bool {
    exists|middle: Emission, track: u64, c: i32| #[trigger]
        track_ensured(before, event.dev, registry.info(event.dev).track_name(), middle, track, c)
            && (if c != 0 {
            after == middle && code == c
        } else {
            after == (Emission {
                history: middle.history.push(
                    (span_message(event, track, registry.info(event.partition_dev)), code),
                ),
                ..middle
            })
        })
}

/// The labels of a request's span, with `command` for the name of the command.
pub fn request_labels(
    event: &RequestSpanEvent,
    partition: &DeviceInfo,
    command: String,
) -> (r: Labels)
    ensures
        r@ == event.labels_with(partition@, command@),
{
    let mut labels: Labels = Labels::new();
    labels.set_int("bytes", event.bytes as i64);
    labels.set_int("sector", event.sector as i64);
    labels.set_int("pid", event.pid as i64);
    labels.set_int("tgid", event.tgid as i64);
    labels.set_int("error", event.error as i64);
    labels.set_int("requeues", event.requeues as i64);
    labels.set_float("queue_latency_us", Reading::Micros { ns: event.queue_ns });
    labels.set_float("service_latency_us", Reading::Micros { ns: event.service_ns });
    labels.set_float("total_latency_us", Reading::Micros { ns: event.total_ns });
    labels.set_bool("completed", event.completed != 0);
    labels.set_string("comm", command);
    let operation: BlockOperation = request_operation(event);
    labels.set_string("operation", operation.name().to_owned());
    labels.set_string("partition", partition.label());
    if partition.mounts.len() > 0 {
        labels.set_string("filesystems", partition.filesystems());
        labels.set_string("mountpoints", partition.mountpoints(partition.mounts.len()));
        labels.set_string("sources", partition.sources());
    }
    labels
}

fn request_operation(event: &RequestSpanEvent) -> (r: BlockOperation)
    ensures
        r == event.op(),
{
    match BlockOperation::from_index(event.operation) {
        Some(op) => op,
        None => BlockOperation::Other,
    }
}

/// The name of a request's span.
pub fn request_name(event: &RequestSpanEvent) -> (r: String)
    ensures
        r@ == event.span_name(),
{
    let status: &'static str = if event.completed != 0 {
        if event.error == 0 {
            request_operation(event).name()
        } else {
            "error"
        }
    } else {
        "requeued"
    };
    let size: String = format_bytes(event.bytes);
    status.to_owned().concat(" ").concat(size.as_str())
}

impl BlockIo {
    /// Sends the span of a request, after the track of its device, if that is new.
    pub fn emit_request_span<S: MessageSink>(&mut self, event: RequestSpanEvent, sink: &mut S) -> (
    code: i32)
        ensures
            final(self).only_sent(old(self)),
            request_sent(
                old(self).emission(old(sink).history()),
                old(self).devices(),
                event,
                final(self).emission(final(sink).history()),
                code,
            ),
    {
        let (track_id, result): (u64, i32) = self.ensure_track(event.dev, sink);
        if result != 0 {
            return result;
        }
        let partition: DeviceInfo = self.registry.info(event.partition_dev);
        let comm: [u8; 16] = event.comm;
        let command: String = field_text(comm.as_slice());
        let labels: Labels = request_labels(&event, &partition, command);
        sink.submit(
            Message::Event(
                Event::Span(
                    Span {
                        name: request_name(&event),
                        span_id: event.request_id ^ event.start_ns,
                        start_timestamp: event.start_ns,
                        end_timestamp: event.end_ns,
                        track_id: TrackId::Custom { id: track_id },
                        labels,
                    },
                ),
            ),
        )
    }
}

/// A record of the kernel's maps: its key and its value.
pub type MapEntry = (Vec<u8>, Vec<u8>);

/// Whether an entry is too short for a device and a value of `size` bytes.
pub open spec fn entry_short(entry: MapEntry, size: int) -> bool {
    entry.0@.len() < 4 || entry.1@.len() < size
}

/// The place of the first entry that is too short, or the number of entries.
pub open spec fn first_short(entries: Seq<MapEntry>, size: int) -> int
    decreases entries.len(),
{
    if entries.len() == 0 || entry_short(entries[0], size) {
        0
    } else {
        1 + first_short(entries.drop_first(), size)
    }
}

proof fn lemma_first_short(entries: Seq<MapEntry>, size: int, n: int)
    requires
        0 <= n <= entries.len(),
        forall|i: int| 0 <= i < n ==> !entry_short(#[trigger] entries[i], size),
        n < entries.len() ==> entry_short(entries[n], size),
    ensures
        first_short(entries, size) == n,
    decreases entries.len(),
{
    if n > 0 {
        assert(!entry_short(entries[0], size));
        let rest = entries.drop_first();
        assert forall|i: int| 0 <= i < n - 1 implies !entry_short(#[trigger] rest[i], size) by {
            assert(rest[i] == entries[i + 1]);
        }
        lemma_first_short(rest, size, n - 1);
    }
}

/// The text about an entry that is too short.
pub open spec fn short_text(entry: MapEntry, key: Seq<char>, value: Seq<char>) -> Seq<char> {
    "failed to parse "@ + (if entry.0@.len() < 4 {
        key
    } else {
        value
    }) + ": TooShort"@
}

/// The device of an entry.
pub open spec fn entry_device(entry: MapEntry) -> u32 {
    u32_at(entry.0@, 0)
}

/// Whether the entry `i` is the last of its device.
pub open spec fn last_of_device(entries: Seq<MapEntry>, i: int) -> bool {
    forall|j: int|
        i < j < entries.len() ==> entry_device(#[trigger] entries[j]) != entry_device(entries[i])
}

/// Reads the counters of all devices.
pub fn read_stats(entries: &Vec<MapEntry>) -> (r: Result<HashMap<u32, DeviceStats>, BpfError>)
    ensures
        match r {
            Ok(map) => {
                &&& first_short(entries@, 2840) == entries@.len()
                &&& forall|i: int|
                    0 <= i < entries@.len() ==> map@.contains_key(
                        entry_device(#[trigger] entries@[i]),
                    )
                &&& forall|i: int|
                    0 <= i < entries@.len() && last_of_device(entries@, i) ==> map@[entry_device(
                        #[trigger] entries@[i],
                    )].lies_in(entries@[i].1@)
                &&& forall|dev: u32| #[trigger]
                    map@.contains_key(dev) ==> exists|i: int|
                        0 <= i < entries@.len() && entry_device(#[trigger] entries@[i]) == dev
            },
            Err(e) => {
                let n = first_short(entries@, 2840);
                &&& 0 <= n < entries@.len()
                &&& e.is_map(
                    short_text(entries@[n], "block_io device key"@, "block_io device stats"@),
                )
            },
        },
{
    broadcast use group_hash_axioms;

    let mut map: HashMap<u32, DeviceStats> = HashMap::new();
    let mut i: usize = 0;
    while i < entries.len()
        invariant
            i <= entries@.len(),
            forall|j: int| 0 <= j < i ==> !entry_short(#[trigger] entries@[j], 2840),
            forall|j: int|
                0 <= j < i ==> map@.contains_key(entry_device(#[trigger] entries@[j])),
            forall|j: int|
                0 <= j < i && last_of_device(entries@.take(i as int), j) ==> map@[entry_device(
                    #[trigger] entries@[j],
                )].lies_in(entries@[j].1@),
            forall|dev: u32| #[trigger]
                map@.contains_key(dev) ==> exists|j: int|
                    0 <= j < i && entry_device(#[trigger] entries@[j]) == dev,
        decreases entries@.len() - i,
    {
        if entries[i].0.len() < 4 {
            proof {
                lemma_first_short(entries@, 2840, i as int);
            }
            return Err(too_short("block_io device key"));
        }
        let dev: u32 = read_u32(entries[i].0.as_slice(), 0);
        match DeviceStats::from_bytes(entries[i].1.as_slice()) {
            Err(_) => {
                proof {
                    lemma_first_short(entries@, 2840, i as int);
                }
                return Err(too_short("block_io device stats"));
            },
            Ok(stats) => {
                let ghost before = map@;
                map.insert(dev, stats);
                proof {
                    let upto = entries@.take(i as int);
                    let next = entries@.take(i + 1);
                    assert(dev == entry_device(entries@[i as int]));
                    assert forall|j: int| 0 <= j < i + 1 && last_of_device(next, j) implies map@[
                        entry_device(#[trigger] entries@[j])
                    ].lies_in(entries@[j].1@) by {
                        assert(next[j] == entries@[j]);
                        if j < i {
                            assert(next[i as int] == entries@[i as int]);
                            assert(entry_device(next[i as int]) != entry_device(next[j]));
                            assert(last_of_device(upto, j)) by {
                                assert forall|k: int| j < k < upto.len() implies entry_device(
                                    #[trigger] upto[k],
                                ) != entry_device(upto[j]) by {
                                    assert(next[k] == upto[k]);
                                }
                            }
                        }
                    }
                    assert forall|d: u32| #[trigger] map@.contains_key(d) implies exists|j: int|
                        0 <= j < i + 1 && entry_device(#[trigger] entries@[j]) == d by {
                        if before.contains_key(d) {
                            let j = choose|j: int|
                                0 <= j < i && entry_device(#[trigger] entries@[j]) == d;
                            assert(0 <= j < i + 1 && entry_device(entries@[j]) == d);
                        } else {
                            assert(entry_device(entries@[i as int]) == d);
                        }
                    }
                }
            },
        }
        i += 1;
    }
    proof {
        lemma_first_short(entries@, 2840, i as int);
        assert(entries@.take(i as int) =~= entries@);
    }
    Ok(map)
}

/// Reads the queues of all devices.
pub fn read_depth(entries: &Vec<MapEntry>) -> (r: Result<HashMap<u32, DeviceDepth>, BpfError>)
    ensures
        match r {
            Ok(map) => {
                &&& first_short(entries@, 72) == entries@.len()
                &&& forall|i: int|
                    0 <= i < entries@.len() ==> map@.contains_key(
                        entry_device(#[trigger] entries@[i]),
                    )
                &&& forall|i: int|
                    0 <= i < entries@.len() && last_of_device(entries@, i) ==> map@[entry_device(
                        #[trigger] entries@[i],
                    )].lies_in(entries@[i].1@)
                &&& forall|dev: u32| #[trigger]
                    map@.contains_key(dev) ==> exists|i: int|
                        0 <= i < entries@.len() && entry_device(#[trigger] entries@[i]) == dev
            },
            Err(e) => {
                let n = first_short(entries@, 72);
                &&& 0 <= n < entries@.len()
                &&& e.is_map(
                    short_text(entries@[n], "block_io depth key"@, "block_io depth stats"@),
                )
            },
        },
{
    broadcast use group_hash_axioms;

    let mut map: HashMap<u32, DeviceDepth> = HashMap::new();
    let mut i: usize = 0;
    while i < entries.len()
        invariant
            i <= entries@.len(),
            forall|j: int| 0 <= j < i ==> !entry_short(#[trigger] entries@[j], 72),
            forall|j: int|
                0 <= j < i ==> map@.contains_key(entry_device(#[trigger] entries@[j])),
            forall|j: int|
                0 <= j < i && last_of_device(entries@.take(i as int), j) ==> map@[entry_device(
                    #[trigger] entries@[j],
                )].lies_in(entries@[j].1@),
            forall|dev: u32| #[trigger]
                map@.contains_key(dev) ==> exists|j: int|
                    0 <= j < i && entry_device(#[trigger] entries@[j]) == dev,
        decreases entries@.len() - i,
    {
        if entries[i].0.len() < 4 {
            proof {
                lemma_first_short(entries@, 72, i as int);
            }
            return Err(too_short("block_io depth key"));
        }
        let dev: u32 = read_u32(entries[i].0.as_slice(), 0);
        match DeviceDepth::from_bytes(entries[i].1.as_slice()) {
            Err(_) => {
                proof {
                    lemma_first_short(entries@, 72, i as int);
                }
                return Err(too_short("block_io depth stats"));
            },
            Ok(depth) => {
                let ghost before = map@;
                map.insert(dev, depth);
                proof {
                    let upto = entries@.take(i as int);
                    let next = entries@.take(i + 1);
                    assert(dev == entry_device(entries@[i as int]));
                    assert forall|j: int| 0 <= j < i + 1 && last_of_device(next, j) implies map@[
                        entry_device(#[trigger] entries@[j])
                    ].lies_in(entries@[j].1@) by {
                        assert(next[j] == entries@[j]);
                        if j < i {
                            assert(next[i as int] == entries@[i as int]);
                            assert(entry_device(next[i as int]) != entry_device(next[j]));
                            assert(last_of_device(upto, j)) by {
                                assert forall|k: int| j < k < upto.len() implies entry_device(
                                    #[trigger] upto[k],
                                ) != entry_device(upto[j]) by {
                                    assert(next[k] == upto[k]);
                                }
                            }
                        }
                    }
                    assert forall|d: u32| #[trigger] map@.contains_key(d) implies exists|j: int|
                        0 <= j < i + 1 && entry_device(#[trigger] entries@[j]) == d by {
                        if before.contains_key(d) {
                            let j = choose|j: int|
                                0 <= j < i && entry_device(#[trigger] entries@[j]) == d;
                            assert(0 <= j < i + 1 && entry_device(entries@[j]) == d);
                        } else {
                            assert(entry_device(entries@[i as int]) == d);
                        }
                    }
                }
            },
        }
        i += 1;
    }
    proof {
        lemma_first_short(entries@, 72, i as int);
        assert(entries@.take(i as int) =~= entries@);
    }
    Ok(map)
}

/// A new series is announced before its first value, under the track of its
/// device, and keeps the id it was announced under.
pub proof fn law_series_is_announced_first(
    before: Emission,
    dev: u32,
    track: u64,
    sample: CounterSampleView,
    timestamp: u64,
    after: Emission,
    code: i32,
)
    requires
        series_emitted(before, dev, track, sample, timestamp, after, code),
    ensures
        ({
            let key = series_of(dev, sample);
            &&& after.series.contains_key(key)
            &&& before.history.is_prefix_of(after.history)
            &&& before.series.contains_key(key) ==> after.series == before.series
            &&& !before.series.contains_key(key) ==> after.history[before.history.len() as int].0
                == series_message(sample, after.series[key], track)
        }),
{
    let key = series_of(dev, sample);
    if !before.series.contains_key(key) {
        let (id, c) = choose|id: u64, c: i32|
            {
                let named = #[trigger] series_announced(before, dev, track, sample, id, c);
                if c != 0 {
                    after == named && code == c
                } else {
                    after == value_sent(named, sample, id, timestamp, code)
                }
            };
        assert(series_announced(before, dev, track, sample, id, c).series[key] == id);
    }
}

} // verus!

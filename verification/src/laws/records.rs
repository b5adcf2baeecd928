//! What is read of a record that the kernel programs wrote: its fields, one behind the
//! other.

use crate::bpf::address::network_value;
use crate::bpf::blocktrack::{
    entry_device, first_short, DeviceDepth, DeviceStats, OperationStats, RequestSpanEvent,
};
use crate::bpf::cpuutil::CpuEvent;
use crate::bpf::nettrack::{
    first_negative, none_short, peer_key_in, process_key_in, short_entry, PeerKey, ProcessKey,
    StatsValue,
};
use crate::bpf::perfcounter::PerfCounterEvent;
use crate::bpf::profiler::PerfEvent;
use crate::bpf::schedtrace::SchedSpanEvent;
use crate::bpf::wire::{bytes_of, capped, less, u16_at, u32_at, u64_at, until_zero};
use vstd::arithmetic::div_mod::lemma_div_denominator;
use vstd::arithmetic::power::{lemma_pow0, lemma_pow1, lemma_pow_adds, lemma_pow_positive, pow};
use vstd::bytes::{
    lemma_auto_spec_u16_to_from_le_bytes, lemma_auto_spec_u32_to_from_le_bytes,
    lemma_auto_spec_u64_to_from_le_bytes, spec_u16_to_le_bytes, spec_u32_to_le_bytes,
    spec_u64_to_le_bytes,
};
use vstd::prelude::*;

verus! {

/// A number of two bytes, the lowest first.
pub open spec fn half(n: u16) -> Seq<u8> {
    spec_u16_to_le_bytes(n)
}

/// A number of four bytes, the lowest first.
pub open spec fn word(n: u32) -> Seq<u8> {
    spec_u32_to_le_bytes(n)
}

/// A number of eight bytes, the lowest first.
pub open spec fn long(n: u64) -> Seq<u8> {
    spec_u64_to_le_bytes(n)
}

/// A list of numbers of eight bytes.
pub open spec fn longs(numbers: Seq<u64>) -> Seq<u8>
    decreases numbers.len(),
{
    if numbers.len() == 0 {
        seq![]
    } else {
        longs(numbers.drop_last()) + long(numbers.last())
    }
}

/// A number that was written is read back, whatever lies before and behind it.
pub proof fn law_numbers_are_read_back(
    before: Seq<u8>,
    a: u16,
    b: u32,
    c: u64,
    behind: Seq<u8>,
)
    ensures
        u16_at(before + half(a) + behind, before.len() as int) == a,
        u32_at(before + word(b) + behind, before.len() as int) == b,
        u64_at(before + long(c) + behind, before.len() as int) == c,
{
    lemma_auto_spec_u16_to_from_le_bytes();
    lemma_auto_spec_u32_to_from_le_bytes();
    lemma_auto_spec_u64_to_from_le_bytes();
    let at = before.len() as int;
    assert(bytes_of(before + half(a) + behind, at, 2) =~= half(a));
    assert(bytes_of(before + word(b) + behind, at, 4) =~= word(b));
    assert(bytes_of(before + long(c) + behind, at, 8) =~= long(c));
}

/// The numbers in a list of numbers are where they were written.
proof fn lemma_longs(before: Seq<u8>, numbers: Seq<u64>, behind: Seq<u8>)
    ensures
        longs(numbers).len() == 8 * numbers.len(),
        forall|i: int|
            0 <= i < numbers.len() ==> #[trigger] u64_at(
                before + longs(numbers) + behind,
                before.len() + 8 * i,
            ) == numbers[i],
    decreases numbers.len(),
{
    lemma_auto_spec_u64_to_from_le_bytes();
    if numbers.len() > 0 {
        let front = numbers.drop_last();
        let last = long(numbers.last());
        lemma_longs(before, front, last + behind);
        let data = before + longs(numbers) + behind;
        assert(data =~= before + longs(front) + (last + behind));
        assert forall|i: int| 0 <= i < numbers.len() implies #[trigger] u64_at(
            data,
            before.len() + 8 * i,
        ) == numbers[i] by {
            if i < front.len() {
                assert(u64_at(before + longs(front) + (last + behind), before.len() + 8 * i)
                    == front[i]);
            } else {
                assert(bytes_of(data, before.len() + 8 * i, 8) =~= last);
            }
        }
    }
}

/// An event of a thread on a processor is read back from its fields.
pub proof fn law_cpu_event_is_read_back(event: CpuEvent, flag: u8, behind: Seq<u8>)
    requires
        event.boundary == (flag != 0),
    ensures
        CpuEvent::in_bytes(
            word(event.tid) + word(event.tgid) + long(event.end_time) + long(event.kernel_time_ns)
                + long(event.start_time) + word(event.cpu) + seq![flag] + behind,
        ) == event,
{
    lemma_auto_spec_u32_to_from_le_bytes();
    lemma_auto_spec_u64_to_from_le_bytes();
    let data = word(event.tid) + word(event.tgid) + long(event.end_time) + long(
        event.kernel_time_ns,
    ) + long(event.start_time) + word(event.cpu) + seq![flag] + behind;
    assert(bytes_of(data, 0, 4) =~= word(event.tid));
    assert(bytes_of(data, 4, 4) =~= word(event.tgid));
    assert(bytes_of(data, 8, 8) =~= long(event.end_time));
    assert(bytes_of(data, 16, 8) =~= long(event.kernel_time_ns));
    assert(bytes_of(data, 24, 8) =~= long(event.start_time));
    assert(bytes_of(data, 32, 4) =~= word(event.cpu));
    assert(data[36] == flag);
}

/// A state of a thread is read back from its fields.
pub proof fn law_scheduler_event_is_read_back(event: SchedSpanEvent, behind: Seq<u8>)
    ensures
        SchedSpanEvent::in_bytes(
            word(event.pid) + word(event.tid) + long(event.start_time) + long(event.end_time)
                + word(event.cpu) + word(event.event_type) + long(event.frame) + word(event.reason)
                + word(event.task_state) + behind,
        ) == event,
{
    lemma_auto_spec_u32_to_from_le_bytes();
    lemma_auto_spec_u64_to_from_le_bytes();
    let data = word(event.pid) + word(event.tid) + long(event.start_time) + long(event.end_time)
        + word(event.cpu) + word(event.event_type) + long(event.frame) + word(event.reason)
        + word(event.task_state) + behind;
    assert(bytes_of(data, 0, 4) =~= word(event.pid));
    assert(bytes_of(data, 4, 4) =~= word(event.tid));
    assert(bytes_of(data, 8, 8) =~= long(event.start_time));
    assert(bytes_of(data, 16, 8) =~= long(event.end_time));
    assert(bytes_of(data, 24, 4) =~= word(event.cpu));
    assert(bytes_of(data, 28, 4) =~= word(event.event_type));
    assert(bytes_of(data, 32, 8) =~= long(event.frame));
    assert(bytes_of(data, 40, 4) =~= word(event.reason));
    assert(bytes_of(data, 44, 4) =~= word(event.task_state));
}

/// A sample of a thread is read back from its fields.
pub proof fn law_profiler_event_is_read_back(event: PerfEvent, behind: Seq<u8>)
    ensures
        PerfEvent::in_bytes(
            long(event.timestamp) + word(event.tgid) + word(event.pid) + word(event.cpu_id) + word(
                event.ustack_id as u32,
            ) + word(event.kstack_id as u32) + behind,
        ) == event,
{
    lemma_auto_spec_u32_to_from_le_bytes();
    lemma_auto_spec_u64_to_from_le_bytes();
    let user = event.ustack_id;
    let kernel = event.kstack_id;
    let data = long(event.timestamp) + word(event.tgid) + word(event.pid) + word(event.cpu_id)
        + word(user as u32) + word(kernel as u32) + behind;
    assert(bytes_of(data, 0, 8) =~= long(event.timestamp));
    assert(bytes_of(data, 8, 4) =~= word(event.tgid));
    assert(bytes_of(data, 12, 4) =~= word(event.pid));
    assert(bytes_of(data, 16, 4) =~= word(event.cpu_id));
    assert(bytes_of(data, 20, 4) =~= word(user as u32));
    assert(bytes_of(data, 24, 4) =~= word(kernel as u32));
    assert((user as u32) as i32 == user) by (bit_vector);
    assert((kernel as u32) as i32 == kernel) by (bit_vector);
}

/// The network counters are read back, in the order in which they were written.
pub proof fn law_network_counters_are_read_back(stats: StatsValue, behind: Seq<u8>)
    ensures
        StatsValue::in_bytes(
            longs(
                seq![
                    stats.send_bytes,
                    stats.recv_bytes,
                    stats.send_operations,
                    stats.recv_operations,
                    stats.send_errors,
                    stats.recv_errors,
                    stats.send_would_block,
                    stats.recv_would_block,
                    stats.tcp_recv_eof,
                    stats.udp_recv_truncated,
                    stats.first_seen_ns,
                    stats.last_seen_ns,
                ],
            ) + behind,
        ) == stats,
{
    let numbers = seq![
        stats.send_bytes,
        stats.recv_bytes,
        stats.send_operations,
        stats.recv_operations,
        stats.send_errors,
        stats.recv_errors,
        stats.send_would_block,
        stats.recv_would_block,
        stats.tcp_recv_eof,
        stats.udp_recv_truncated,
        stats.first_seen_ns,
        stats.last_seen_ns,
    ];
    let none: Seq<u8> = seq![];
    lemma_longs(none, numbers, behind);
    let data = none + longs(numbers) + behind;
    assert(data =~= longs(numbers) + behind);
    assert forall|i: int| 0 <= i < 12 implies #[trigger] u64_at(data, 8 * i) == numbers[i] by {
        assert(u64_at(data, none.len() + 8 * i) == numbers[i]);
    }
    assert(u64_at(data, 8 * 0int) == numbers[0]);
    assert(u64_at(data, 8 * 1int) == numbers[1]);
    assert(u64_at(data, 8 * 2int) == numbers[2]);
    assert(u64_at(data, 8 * 3int) == numbers[3]);
    assert(u64_at(data, 8 * 4int) == numbers[4]);
    assert(u64_at(data, 8 * 5int) == numbers[5]);
    assert(u64_at(data, 8 * 6int) == numbers[6]);
    assert(u64_at(data, 8 * 7int) == numbers[7]);
    assert(u64_at(data, 8 * 8int) == numbers[8]);
    assert(u64_at(data, 8 * 9int) == numbers[9]);
    assert(u64_at(data, 8 * 10int) == numbers[10]);
    assert(u64_at(data, 8 * 11int) == numbers[11]);
}

/// The process that network counters belong to is read back from its fields.
pub proof fn law_process_key_is_read_back(key: ProcessKey, behind: Seq<u8>)
    ensures
        process_key_in(
            word(key.tgid) + seq![
                key.protocol,
                key.padding.0,
                key.padding.1,
                key.padding.2,
            ] + behind,
        ) == key,
{
    lemma_auto_spec_u32_to_from_le_bytes();
    let data = word(key.tgid) + seq![
        key.protocol,
        key.padding.0,
        key.padding.1,
        key.padding.2,
    ] + behind;
    assert(bytes_of(data, 0, 4) =~= word(key.tgid));
    assert(data[4] == key.protocol);
    assert(data[5] == key.padding.0);
    assert(data[6] == key.padding.1);
    assert(data[7] == key.padding.2);
}

/// The peer that network counters belong to is read back from its fields.
pub proof fn law_peer_key_is_read_back(key: PeerKey, address: Seq<u8>, behind: Seq<u8>)
    requires
        address.len() == 16,
    ensures
        ({
            let read = peer_key_in(
                word(key.tgid) + seq![key.protocol, key.family] + half(key.local_port) + half(
                    key.remote_port,
                ) + half(key.padding) + address + behind,
            );
            &&& read.tgid == key.tgid
            &&& read.protocol == key.protocol
            &&& read.family == key.family
            &&& read.local_port == key.local_port
            &&& read.remote_port == key.remote_port
            &&& read.padding == key.padding
            &&& read.remote_addr == network_value(address)
        }),
{
    lemma_auto_spec_u16_to_from_le_bytes();
    lemma_auto_spec_u32_to_from_le_bytes();
    let data = word(key.tgid) + seq![key.protocol, key.family] + half(key.local_port) + half(
        key.remote_port,
    ) + half(key.padding) + address + behind;
    assert(bytes_of(data, 0, 4) =~= word(key.tgid));
    assert(data[4] == key.protocol);
    assert(data[5] == key.family);
    assert(bytes_of(data, 6, 2) =~= half(key.local_port));
    assert(bytes_of(data, 8, 2) =~= half(key.remote_port));
    assert(bytes_of(data, 10, 2) =~= half(key.padding));
    assert(bytes_of(data, 12, 16) =~= address);
    law_network_order(address);
    lemma_address_places();
}

proof fn lemma_address_places()
    ensures
        pow(256, 16) == 0x1_0000_0000_0000_0000_0000_0000_0000_0000,
{
    reveal_with_fuel(pow, 17);
}

/// The number that bytes write in network order holds each of them, the one that comes
/// first at the highest place, and is below the place above that.
pub proof fn law_network_order(bytes: Seq<u8>)
    ensures
        0 <= network_value(bytes) < pow(256, bytes.len()),
        forall|i: int|
            0 <= i < bytes.len() ==> #[trigger] bytes[i] == (network_value(bytes) / pow(
                256,
                (bytes.len() - 1 - i) as nat,
            )) % 256,
    decreases bytes.len(),
{
    lemma_pow0(256);
    if bytes.len() > 0 {
        let front = bytes.drop_last();
        let value = network_value(bytes);
        law_network_order(front);
        assert(value == network_value(front) * 256 + bytes.last());
        lemma_pow_adds(256, front.len(), 1);
        lemma_pow1(256);
        assert forall|i: int| 0 <= i < bytes.len() implies #[trigger] bytes[i] == (value / pow(
            256,
            (bytes.len() - 1 - i) as nat,
        )) % 256 by {
            let place = (bytes.len() - 1 - i) as nat;
            if i < front.len() {
                let below = (place - 1) as nat;
                lemma_pow_positive(256, below);
                lemma_pow_adds(256, 1, below);
                lemma_pow1(256);
                lemma_div_denominator(value, 256, pow(256, below));
                assert(value / 256 == network_value(front));
                assert(front[i] == (network_value(front) / pow(256, below)) % 256);
            }
        }
    }
}

/// A reading of the counters of a processor is read back from its fields.
pub proof fn law_counter_event_is_read_back(
    event: PerfCounterEvent,
    read: PerfCounterEvent,
    behind: Seq<u8>,
)
    requires
        read.lies_in(
            long(event.timestamp) + word(event.cpu_id) + word(event.padding) + longs(
                event.counters@,
            ) + behind,
        ),
    ensures
        read.timestamp == event.timestamp,
        read.cpu_id == event.cpu_id,
        read.padding == event.padding,
        read.counters@ == event.counters@,
{
    lemma_auto_spec_u32_to_from_le_bytes();
    lemma_auto_spec_u64_to_from_le_bytes();
    let head = long(event.timestamp) + word(event.cpu_id) + word(event.padding);
    let data = head + longs(event.counters@) + behind;
    lemma_longs(head, event.counters@, behind);
    assert(bytes_of(data, 0, 8) =~= long(event.timestamp));
    assert(bytes_of(data, 8, 4) =~= word(event.cpu_id));
    assert(bytes_of(data, 12, 4) =~= word(event.padding));
    assert forall|i: int| 0 <= i < 8 implies read.counters@[i] == event.counters@[i] by {
        assert(u64_at(data, head.len() + 8 * i) == event.counters@[i]);
        assert(read.counters@[i] == u64_at(data, 16 + 8 * i));
    }
    assert(read.counters@ =~= event.counters@);
}

/// A followed request is read back from its fields.
pub proof fn law_request_is_read_back(
    event: RequestSpanEvent,
    read: RequestSpanEvent,
    padding: Seq<u8>,
    behind: Seq<u8>,
)
    requires
        padding.len() == 6,
        read.lies_in(
            longs(
                seq![
                    event.request_id,
                    event.start_ns,
                    event.end_ns,
                    event.queue_ns,
                    event.service_ns,
                    event.total_ns,
                    event.sector,
                ],
            ) + (word(event.dev) + word(event.partition_dev) + word(event.bytes) + word(event.tgid)
                + word(event.pid) + word(event.requeues) + word(event.error as u32) + seq![
                event.operation,
                event.completed,
            ] + padding + event.comm@ + behind),
        ),
    ensures
        read.request_id == event.request_id,
        read.start_ns == event.start_ns,
        read.end_ns == event.end_ns,
        read.queue_ns == event.queue_ns,
        read.service_ns == event.service_ns,
        read.total_ns == event.total_ns,
        read.sector == event.sector,
        read.dev == event.dev,
        read.partition_dev == event.partition_dev,
        read.bytes == event.bytes,
        read.tgid == event.tgid,
        read.pid == event.pid,
        read.requeues == event.requeues,
        read.error == event.error,
        read.operation == event.operation,
        read.completed == event.completed,
        read.comm@ == event.comm@,
{
    lemma_auto_spec_u32_to_from_le_bytes();
    let numbers = seq![
        event.request_id,
        event.start_ns,
        event.end_ns,
        event.queue_ns,
        event.service_ns,
        event.total_ns,
        event.sector,
    ];
    let error = event.error;
    let tail = word(event.dev) + word(event.partition_dev) + word(event.bytes) + word(event.tgid)
        + word(event.pid) + word(event.requeues) + word(error as u32) + seq![
        event.operation,
        event.completed,
    ] + padding + event.comm@ + behind;
    let none: Seq<u8> = seq![];
    lemma_longs(none, numbers, tail);
    let data = longs(numbers) + tail;
    assert(data =~= none + longs(numbers) + tail);
    assert forall|i: int| 0 <= i < 7 implies #[trigger] u64_at(data, 8 * i) == numbers[i] by {
        assert(u64_at(none + longs(numbers) + tail, none.len() + 8 * i) == numbers[i]);
    }
    assert(u64_at(data, 8 * 0int) == numbers[0]);
    assert(u64_at(data, 8 * 1int) == numbers[1]);
    assert(u64_at(data, 8 * 2int) == numbers[2]);
    assert(u64_at(data, 8 * 3int) == numbers[3]);
    assert(u64_at(data, 8 * 4int) == numbers[4]);
    assert(u64_at(data, 8 * 5int) == numbers[5]);
    assert(u64_at(data, 8 * 6int) == numbers[6]);
    assert(data.len() == 56 + tail.len());
    assert(bytes_of(data, 56, 4) =~= word(event.dev));
    assert(bytes_of(data, 60, 4) =~= word(event.partition_dev));
    assert(bytes_of(data, 64, 4) =~= word(event.bytes));
    assert(bytes_of(data, 68, 4) =~= word(event.tgid));
    assert(bytes_of(data, 72, 4) =~= word(event.pid));
    assert(bytes_of(data, 76, 4) =~= word(event.requeues));
    assert(bytes_of(data, 80, 4) =~= word(error as u32));
    assert((error as u32) as i32 == error) by (bit_vector);
    assert(data[84] == event.operation);
    assert(data[85] == event.completed);
    assert(bytes_of(data, 92, 16) =~= event.comm@);
}

/// The numbers of an operation, in the order in which they are written.
pub open spec fn operation_numbers(stats: OperationStats) -> Seq<u64> {
    seq![
        stats.bytes,
        stats.operations,
        stats.errors,
        stats.queue_latency_ns,
        stats.service_latency_ns,
        stats.total_latency_ns,
    ] + stats.service_histogram@ + stats.total_histogram@
}

/// The numbers of a device, in the order in which they are written: those of the
/// operations, one behind the other, and those of the device as a whole.
pub open spec fn device_numbers(stats: DeviceStats) -> Seq<u64> {
    operation_numbers(stats.operations@[0]) + operation_numbers(stats.operations@[1])
        + operation_numbers(stats.operations@[2]) + operation_numbers(stats.operations@[3])
        + operation_numbers(stats.operations@[4]) + seq![
        stats.requeues,
        stats.lost_requests,
        stats.timeline_drops,
        stats.first_seen_ns,
        stats.last_seen_ns,
    ]
}

/// The counters of a device are the numbers that were written, in their order.
pub proof fn law_device_counters_are_read_back(
    stats: DeviceStats,
    numbers: Seq<u64>,
    behind: Seq<u8>,
)
    requires
        numbers.len() == 355,
        stats.lies_in(longs(numbers) + behind),
    ensures
        device_numbers(stats) == numbers,
{
    let none: Seq<u8> = seq![];
    lemma_longs(none, numbers, behind);
    let data = longs(numbers) + behind;
    assert(data =~= none + longs(numbers) + behind);
    assert forall|i: int| 0 <= i < 355 implies #[trigger] u64_at(data, 8 * i) == numbers[i] by {
        assert(u64_at(none + longs(numbers) + behind, none.len() + 8 * i) == numbers[i]);
    }
    lemma_operation_numbers(stats, 0, data);
    lemma_operation_numbers(stats, 1, data);
    lemma_operation_numbers(stats, 2, data);
    lemma_operation_numbers(stats, 3, data);
    lemma_operation_numbers(stats, 4, data);
    let all = device_numbers(stats);
    assert(all.len() == 355);
    assert(u64_at(data, 8 * 350int) == numbers[350]);
    assert(u64_at(data, 8 * 351int) == numbers[351]);
    assert(u64_at(data, 8 * 352int) == numbers[352]);
    assert(u64_at(data, 8 * 353int) == numbers[353]);
    assert(u64_at(data, 8 * 354int) == numbers[354]);
    assert forall|k: int| 0 <= k < 355 implies all[k] == numbers[k] by {
        assert(u64_at(data, 8 * k) == numbers[k]);
        if k < 70 {
            assert(operation_numbers(stats.operations@[0])[k] == u64_at(data, 8 * (70 * 0 + k)));
        } else if k < 140 {
            assert(operation_numbers(stats.operations@[1])[k - 70] == u64_at(
                data,
                8 * (70 * 1 + (k - 70)),
            ));
        } else if k < 210 {
            assert(operation_numbers(stats.operations@[2])[k - 140] == u64_at(
                data,
                8 * (70 * 2 + (k - 140)),
            ));
        } else if k < 280 {
            assert(operation_numbers(stats.operations@[3])[k - 210] == u64_at(
                data,
                8 * (70 * 3 + (k - 210)),
            ));
        } else if k < 350 {
            assert(operation_numbers(stats.operations@[4])[k - 280] == u64_at(
                data,
                8 * (70 * 4 + (k - 280)),
            ));
        }
    }
    assert(all =~= numbers);
}

proof fn lemma_operation_numbers(stats: DeviceStats, i: int, data: Seq<u8>)
    requires
        0 <= i < 5,
        stats.lies_in(data),
    ensures
        operation_numbers(stats.operations@[i]).len() == 70,
        forall|k: int|
            0 <= k < 70 ==> #[trigger] operation_numbers(stats.operations@[i])[k] == u64_at(
                data,
                8 * (70 * i + k),
            ),
{
    let op = stats.operations@[i];
    assert(op.lies_at(data, 560 * i));
    assert forall|k: int| 0 <= k < 70 implies #[trigger] operation_numbers(op)[k] == u64_at(
        data,
        8 * (70 * i + k),
    ) by {
        if 6 <= k < 38 {
            assert(op.service_histogram@[k - 6] == u64_at(data, 560 * i + 48 + 8 * (k - 6)));
        } else if k >= 38 {
            assert(op.total_histogram@[k - 38] == u64_at(data, 560 * i + 304 + 8 * (k - 38)));
        }
    }
}

/// The state of a queue is read back from its fields, behind its lock.
pub proof fn law_queue_is_read_back(
    depth: DeviceDepth,
    read: DeviceDepth,
    lock: Seq<u8>,
    behind: Seq<u8>,
)
    requires
        lock.len() == 8,
        read.lies_in(
            lock + longs(
                seq![
                    depth.first_seen_ns,
                    depth.last_update_ns,
                    depth.busy_ns,
                    depth.saturated_ns,
                    depth.inflight_ns,
                    depth.queued_ns,
                ],
            ) + (word(depth.inflight) + word(depth.queued) + word(depth.max_inflight) + word(
                depth.max_queued,
            ) + behind),
        ),
    ensures
        read == depth,
{
    lemma_auto_spec_u32_to_from_le_bytes();
    let numbers = seq![
        depth.first_seen_ns,
        depth.last_update_ns,
        depth.busy_ns,
        depth.saturated_ns,
        depth.inflight_ns,
        depth.queued_ns,
    ];
    let tail = word(depth.inflight) + word(depth.queued) + word(depth.max_inflight) + word(
        depth.max_queued,
    ) + behind;
    lemma_longs(lock, numbers, tail);
    let data = lock + longs(numbers) + tail;
    assert(u64_at(data, lock.len() + 8 * 0int) == numbers[0]);
    assert(u64_at(data, lock.len() + 8 * 1int) == numbers[1]);
    assert(u64_at(data, lock.len() + 8 * 2int) == numbers[2]);
    assert(u64_at(data, lock.len() + 8 * 3int) == numbers[3]);
    assert(u64_at(data, lock.len() + 8 * 4int) == numbers[4]);
    assert(u64_at(data, lock.len() + 8 * 5int) == numbers[5]);
    assert(data.len() == 56 + tail.len());
    assert(bytes_of(data, 56, 4) =~= word(depth.inflight));
    assert(bytes_of(data, 60, 4) =~= word(depth.queued));
    assert(bytes_of(data, 64, 4) =~= word(depth.max_inflight));
    assert(bytes_of(data, 68, 4) =~= word(depth.max_queued));
}

/// The text in a field ends before the first zero byte, or with the field.
pub proof fn law_text_of_a_field(text: Seq<u8>, behind: Seq<u8>)
    requires
        forall|i: int| 0 <= i < text.len() ==> #[trigger] text[i] != 0,
    ensures
        until_zero(text) == text,
        until_zero(text.push(0) + behind) == text,
    decreases text.len(),
{
    let all = text.push(0) + behind;
    if text.len() > 0 {
        let rest = text.drop_first();
        assert forall|i: int| 0 <= i < rest.len() implies #[trigger] rest[i] != 0 by {
            assert(rest[i] == text[i + 1]);
        }
        law_text_of_a_field(rest, behind);
        assert(all[0] == text[0]);
        assert(all.drop_first() =~= rest.push(0) + behind);
        assert(seq![text[0]] + rest =~= text);
    } else {
        assert(all[0] == 0);
        assert(until_zero(all) =~= text);
        assert(until_zero(text) =~= text);
    }
}

/// Differences do not go below zero, and sums and products not above the largest number.
pub proof fn law_saturation(a: u64, b: u64, n: int)
    requires
        0 <= n,
    ensures
        b <= a ==> b + less(a, b) == a,
        a <= b ==> less(a, b) == 0,
        n <= u64::MAX ==> capped(n) == n,
        n >= u64::MAX ==> capped(n) == u64::MAX,
{
}

/// The first entry of a kernel map that is too short for its device and its value is
/// found, if there is one.
pub proof fn law_first_short_entry(entries: Seq<(Vec<u8>, Vec<u8>)>, size: int)
    ensures
        0 <= first_short(entries, size) <= entries.len(),
        forall|i: int|
            0 <= i < first_short(entries, size) ==> (#[trigger] entries[i]).0@.len() >= 4
                && entries[i].1@.len() >= size,
        first_short(entries, size) < entries.len() ==> entries[first_short(
            entries,
            size,
        )].0@.len() < 4 || entries[first_short(entries, size)].1@.len() < size,
    decreases entries.len(),
{
    if entries.len() > 0 && !(entries[0].0@.len() < 4 || entries[0].1@.len() < size) {
        let rest = entries.drop_first();
        law_first_short_entry(rest, size);
        assert forall|i: int| 0 <= i < first_short(entries, size) implies (
        #[trigger] entries[i]).0@.len() >= 4 && entries[i].1@.len() >= size by {
            if i > 0 {
                assert(rest[i - 1] == entries[i]);
            }
        }
    }
}

/// The device of an entry is the number that its key begins with.
pub proof fn law_device_of_an_entry(entry: (Vec<u8>, Vec<u8>), dev: u32, behind: Seq<u8>)
    requires
        entry.0@ == word(dev) + behind,
    ensures
        entry_device(entry) == dev,
{
    let none: Seq<u8> = seq![];
    law_numbers_are_read_back(none, 0, dev, 0, behind);
    assert(none + word(dev) + behind =~= entry.0@);
}

/// A negative process id is found, if there is one, and is the first.
pub proof fn law_first_negative(pids: Seq<i32>)
    ensures
        0 <= first_negative(pids) <= pids.len(),
        forall|i: int| 0 <= i < first_negative(pids) ==> #[trigger] pids[i] >= 0,
        first_negative(pids) < pids.len() ==> pids[first_negative(pids)] < 0,
    decreases pids.len(),
{
    if pids.len() > 0 && pids[0] >= 0 {
        let rest = pids.drop_first();
        law_first_negative(rest);
        assert forall|i: int| 0 <= i < first_negative(pids) implies #[trigger] pids[i] >= 0 by {
            if i > 0 {
                assert(rest[i - 1] == pids[i]);
            }
        }
    }
}

/// Counters that count nothing are zero, all of them.
pub proof fn law_zero_counters(stats: OperationStats, k: int)
    requires
        stats.is_zero(),
        0 <= k < 70,
    ensures
        operation_numbers(stats).len() == 70,
        operation_numbers(stats)[k] == 0,
{
    if 6 <= k < 38 {
        assert(operation_numbers(stats)[k] == stats.service_histogram@[k - 6]);
    } else if k >= 38 {
        assert(operation_numbers(stats)[k] == stats.total_histogram@[k - 38]);
    }
}

/// No entry of a network map is too short exactly if each has its key and the numbers of
/// its counters; the first that is too short is named by what it lacks.
pub proof fn law_short_network_entries(
    entries: Seq<(Vec<u8>, Vec<u8>)>,
    key_size: int,
    n: int,
    text: Seq<char>,
    key: Seq<char>,
    value: Seq<char>,
)
    ensures
        none_short(entries, key_size) <==> forall|i: int|
            0 <= i < entries.len() ==> (#[trigger] entries[i]).0@.len() >= key_size
                && entries[i].1@.len() >= 96,
        short_entry(entries, key_size, n, text, key, value) ==> {
            &&& 0 <= n < entries.len()
            &&& forall|i: int|
                0 <= i < n ==> (#[trigger] entries[i]).0@.len() >= key_size
                    && entries[i].1@.len() >= 96
            &&& entries[n].0@.len() < key_size ==> text == "failed to parse "@ + key
                + ": TooShort"@
            &&& entries[n].0@.len() >= key_size ==> entries[n].1@.len() < 96 && text
                == "failed to parse "@ + value + ": TooShort"@
        },
{
    if short_entry(entries, key_size, n, text, key, value) {
        assert forall|i: int| 0 <= i < n implies (#[trigger] entries[i]).0@.len() >= key_size
            && entries[i].1@.len() >= 96 by {
            assert(entries.take(n)[i] == entries[i]);
            assert(!crate::bpf::nettrack::entry_short(entries.take(n)[i], key_size));
        }
    }
    if none_short(entries, key_size) {
        assert forall|i: int| 0 <= i < entries.len() implies (
        #[trigger] entries[i]).0@.len() >= key_size && entries[i].1@.len() >= 96 by {
            assert(!crate::bpf::nettrack::entry_short(entries[i], key_size));
        }
    }
}

} // verus!

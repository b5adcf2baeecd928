use kinetrace::mpscbuf::common::{round_up_to_8, RecordHeader, BUSY_FLAG, DISCARD_FLAG};
use kinetrace::mpscbuf::consumer::{plan_consume, ConsumeStep, Consumer};
use kinetrace::mpscbuf::error::MpscBufError;
use kinetrace::mpscbuf::producer::{plan_reserve, Producer, ReservedBuffer, WakeupStrategy};
use kinetrace::mpscbuf::ringbuf::{check_size, RingBuf};
use kinetrace::mpscbuf::sync::{SpinAttempt, SpinStep, SPIN_LIMIT};

fn send(producer: &Producer, ring: &mut RingBuf, data: &[u8]) -> Result<bool, MpscBufError> {
    let reserved = producer.reserve(ring, data.len())?;
    reserved.copy_from_slice(ring, data);
    Ok(reserved.commit(ring))
}

fn receive(consumer: &Consumer, ring: &mut RingBuf) -> Option<Vec<u8>> {
    let record = consumer.consume(ring)?;
    let data = record.as_slice().to_vec();
    consumer.release(ring, record);
    Some(data)
}

#[test]
fn test_four_producers() {
    let page_size = 4096;
    let size = page_size * 8;
    let mut ring = RingBuf::new(size);
    let consumer = Consumer::from_parts();
    let num_producers = 3;
    let msgs_per_producer = 2;
    let producers: Vec<Producer> = (0..num_producers)
        .map(|_| Producer::from_parts(WakeupStrategy::Forced))
        .collect();

    let mut count = 0;
    let mut producer_counts = vec![0; num_producers];
    let mut drain = |ring: &mut RingBuf, count: &mut usize| {
        while let Some(data) = receive(&consumer, ring) {
            let data = String::from_utf8(data).unwrap();
            for (producer_id, count) in producer_counts.iter_mut().enumerate() {
                if data.starts_with(&format!("p{}_", producer_id)) {
                    *count += 1;
                    break;
                }
            }
            *count += 1;
        }
    };
    for i in 0..msgs_per_producer {
        // All producers hold a reservation at once, and finish in reverse order.
        let mut held: Vec<(ReservedBuffer, String)> = Vec::new();
        for (producer_id, producer) in producers.iter().enumerate() {
            let data = format!("p{}_{}", producer_id, i);
            let reserved = producer.reserve(&mut ring, data.len()).unwrap();
            held.push((reserved, data));
        }
        while let Some((reserved, data)) = held.pop() {
            reserved.copy_from_slice(&mut ring, data.as_bytes());
            assert!(reserved.commit(&mut ring));
            drain(&mut ring, &mut count);
        }
    }
    drain(&mut ring, &mut count);

    assert_eq!(count, msgs_per_producer * num_producers);
    for (producer_id, count) in producer_counts.iter().enumerate() {
        assert_eq!(
            *count, msgs_per_producer,
            "Producer {} sent {} messages, expected {}",
            producer_id, *count, msgs_per_producer
        );
    }
}

#[test]
fn test_single_producer_single_consumer() {
    let page_size = 4096;
    let size = page_size * 4;
    let mut ring = RingBuf::new(size);
    let consumer = Consumer::from_parts();
    let producer = Producer::from_parts(WakeupStrategy::Forced);
    let num_messages = 3;
    let mut received = vec![];
    for i in 0..num_messages {
        let data = format!("message_{}", i);
        assert!(send(&producer, &mut ring, data.as_bytes()).is_ok());
    }
    while let Some(data) = receive(&consumer, &mut ring) {
        received.push(String::from_utf8(data).unwrap());
    }
    assert_eq!(received.len(), num_messages);
    for i in 0..num_messages {
        assert!(received.contains(&format!("message_{}", i)));
    }
}

#[test]
fn ring_starts_empty() {
    let mut ring = RingBuf::new(8192);
    assert_eq!(ring.data_size(), 8192);
    assert_eq!(ring.consumer_pos(), 0);
    assert_eq!(ring.producer_pos(), 0);
    assert_eq!(ring.dropped(), 0);
    assert_eq!(ring.size_mask(), 8191);
    ring.increment_dropped();
    Producer::from_parts(WakeupStrategy::NoWakeup).increment_dropped(&mut ring);
    assert_eq!(Consumer::from_parts().dropped(&ring), 2);
    assert!(Consumer::from_parts().consume(&mut ring).is_none());
}

#[test]
fn reservations_move_the_producer() {
    let mut ring = RingBuf::new(8192);
    let producer = Producer::from_parts(WakeupStrategy::Forced);
    let mut expected = 0u64;
    for size in [12usize, 8, 16, 32, 64, 128, 0] {
        send(&producer, &mut ring, &vec![1u8; size]).unwrap();
        expected += ((size + 8 + 7) & !7) as u64;
        assert_eq!(ring.producer_pos(), expected);
        assert_eq!(ring.consumer_pos(), 0);
    }
    assert_eq!(Consumer::from_parts().available_records(&ring), expected);
}

#[test]
fn oversized_records_are_refused() {
    let mut ring = RingBuf::new(8192);
    let producer = Producer::from_parts(WakeupStrategy::Forced);
    match producer.reserve(&mut ring, 8193) {
        Err(MpscBufError::InsufficientSpace(next, consumer, mask)) => {
            assert_eq!((next, consumer, mask), (8208, 0, 8191));
        }
        _ => panic!("reserved"),
    }
    let half = producer.reserve(&mut ring, 4096).unwrap();
    assert_eq!(half.size(), 4096);
    assert!(producer.reserve(&mut ring, 4096).is_err());
    assert_eq!(ring.producer_pos(), 4104);
    assert!(producer.reserve(&mut ring, 8192 - 4104 - 8).is_err());
    assert!(producer.reserve(&mut ring, 8192 - 4104 - 16).is_ok());
}

#[test]
fn discarded_records_are_passed_over_and_busy_ones_block() {
    let mut ring = RingBuf::new(4096);
    let consumer = Consumer::from_parts();
    let producer = Producer::from_parts(WakeupStrategy::NoWakeup);
    let first = producer.reserve(&mut ring, 3).unwrap();
    assert!(!send(&producer, &mut ring, b"second").unwrap());
    assert!(consumer.consume(&mut ring).is_none());
    assert!(!first.discard(&mut ring));
    let record = consumer.consume(&mut ring).unwrap();
    assert_eq!(record.as_slice(), b"second");
    assert_eq!(ring.consumer_pos(), 16);
    // A record that was not released is read again.
    assert_eq!(consumer.consume(&mut ring).unwrap().as_slice(), b"second");
    consumer.release(&mut ring, record);
    assert_eq!(ring.consumer_pos(), ring.producer_pos());
}

#[test]
fn records_wrap_around_the_memory() {
    let mut ring = RingBuf::new(64);
    let consumer = Consumer::from_parts();
    let producer = Producer::from_parts(WakeupStrategy::Forced);
    for round in 0..50u8 {
        let data: Vec<u8> = (0..29).map(|j| round.wrapping_mul(7).wrapping_add(j)).collect();
        assert!(send(&producer, &mut ring, &data).unwrap());
        assert_eq!(receive(&consumer, &mut ring), Some(data));
    }
    assert_eq!(consumer.data_size(&ring), 64);
}

#[test]
fn parts_of_a_record_can_be_written() {
    let mut ring = RingBuf::new(64);
    let producer = Producer::from_parts(WakeupStrategy::Forced);
    let reserved = producer.reserve(&mut ring, 6).unwrap();
    reserved.write(&mut ring, 0, b"abcdef");
    reserved.write(&mut ring, 2, b"XY");
    reserved.commit(&mut ring);
    assert_eq!(receive(&Consumer::from_parts(), &mut ring).unwrap(), b"abXYef");
}

#[test]
fn headers_hold_length_and_flags() {
    let mut header = RecordHeader::new(77);
    assert_eq!(header.len_and_flags(), (77, BUSY_FLAG));
    assert!(!header.is_discarded());
    header.discard();
    assert_eq!(header.len_and_flags(), (77, DISCARD_FLAG));
    assert!(header.is_discarded());
    header.commit();
    assert_eq!(header.len_and_flags(), (77, 0));
    assert_eq!(header.word, 77);
    assert_eq!(round_up_to_8(0), 0);
    assert_eq!(round_up_to_8(9), 16);
}

#[test]
fn plans_for_shared_memory() {
    assert!(matches!(plan_reserve(false, 0, 0, 63, 1), Err(MpscBufError::LockTimeout)));
    let plan = plan_reserve(true, 64, 64, 63, 10).unwrap();
    assert_eq!((plan.pos, plan.len, plan.next), (64, 10, 88));
    assert_eq!(plan_consume(8, 8, RecordHeader::new(1)), ConsumeStep::Empty);
    assert_eq!(plan_consume(0, 16, RecordHeader::new(1)), ConsumeStep::Busy);
    assert_eq!(
        plan_consume(0, 16, RecordHeader { word: 5 }),
        ConsumeStep::Deliver { len: 5, next: 16 }
    );
    let mut gone = RecordHeader::new(5);
    gone.discard();
    assert_eq!(plan_consume(0, 16, gone), ConsumeStep::Skip { next: 16 });
}

#[test]
fn the_lock_is_given_up_at_the_limit() {
    let mut attempt = SpinAttempt::new();
    assert_eq!(attempt.step, SpinStep::Exchange);
    attempt.advance(false);
    assert_eq!(attempt.step, SpinStep::Load);
    attempt.advance(true);
    assert_eq!(attempt.step, SpinStep::Exchange);
    attempt.advance(true);
    assert_eq!(attempt.step, SpinStep::Acquired);
    let mut attempt = SpinAttempt::new();
    let mut failures = 0;
    while attempt.step != SpinStep::TimedOut {
        attempt.advance(false);
        failures += 1;
    }
    assert_eq!(failures, SPIN_LIMIT);
}

#[test]
fn ring_errors_have_their_texts() {
    let text = |e: MpscBufError| e.to_text();
    assert_eq!(
        text(MpscBufError::SizeTooSmall(4096)),
        "size must be at least twice the page size (4096 bytes)"
    );
    assert_eq!(
        text(MpscBufError::SizeNotAligned(4096)),
        "size must be a multiple of page size (4096 bytes)"
    );
    assert_eq!(text(MpscBufError::MmapFailed(12)), "memory mapping failed: 12");
    assert_eq!(text(MpscBufError::MprotectFailed(-1)), "memory protection failed: -1");
    assert_eq!(
        text(MpscBufError::InsufficientSpace(1, 2, 3)),
        "insufficient space in ring buffer. producer position: 1, consumer position: 2, data size: 3"
    );
    assert_eq!(text(MpscBufError::InvalidRecordSize(0)), "invalid record size: 0");
    assert_eq!(
        text(MpscBufError::EventfdCreation("x".to_string())),
        "eventfd creation failed: x"
    );
    assert_eq!(text(MpscBufError::EventfdWrite("x".to_string())), "eventfd write failed: x");
    assert_eq!(text(MpscBufError::EventfdRead("x".to_string())), "eventfd read failed: x");
    assert_eq!(text(MpscBufError::IoError("x".to_string())), "I/O error: x");
    assert_eq!(text(MpscBufError::LockTimeout), "failed to acquire spinlock within timeout");
}

#[test]
fn a_ring_has_a_power_of_two_of_at_least_one_page() {
    assert!(check_size(4096, 4096).is_ok());
    assert!(check_size(1 << 33, 4096).is_ok());
    assert!(matches!(
        check_size(2048, 4096),
        Err(MpscBufError::SizeTooSmall(4096))
    ));
    assert!(matches!(
        check_size(12288, 4096),
        Err(MpscBufError::SizeNotAligned(4096))
    ));
    let (consumer, mut ring) = Consumer::new(8192, 4096).unwrap();
    assert_eq!(consumer.data_size(&ring), 8192);
    assert_eq!(consumer.memory_size(&ring, 4096), 12288);
    assert_eq!(consumer.available_records(&ring), 0);
    assert_eq!(consumer.dropped(&ring), 0);
    assert!(consumer.consume(&mut ring).is_none());
    assert!(matches!(
        Consumer::new(100, 4096),
        Err(MpscBufError::SizeTooSmall(4096))
    ));
}

#[test]
fn records_are_read_in_the_order_of_their_reservation() {
    let (consumer, mut ring) = Consumer::new(4096, 4096).unwrap();
    let producer = Producer::from_parts(WakeupStrategy::NoWakeup);
    let first = producer.reserve(&mut ring, 1).unwrap();
    let second = producer.reserve(&mut ring, 1).unwrap();
    send(&producer, &mut ring, b"c").unwrap();
    second.copy_from_slice(&mut ring, b"b");
    second.commit(&mut ring);
    assert!(receive(&consumer, &mut ring).is_none());
    first.copy_from_slice(&mut ring, b"a");
    first.commit(&mut ring);
    let held = producer.reserve(&mut ring, 1).unwrap();
    held.copy_from_slice(&mut ring, b"d");
    assert_eq!(receive(&consumer, &mut ring).unwrap(), b"a");
    assert_eq!(receive(&consumer, &mut ring).unwrap(), b"b");
    assert_eq!(receive(&consumer, &mut ring).unwrap(), b"c");
    assert!(receive(&consumer, &mut ring).is_none());
    held.commit(&mut ring);
    assert_eq!(receive(&consumer, &mut ring).unwrap(), b"d");
}

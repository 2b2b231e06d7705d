use exhibits::disruptor::{Barrier, DisruptorBuilder, Producer, RingBuffer, Sequence};

#[test]
fn builder_collects_barriers() {
    let mut builder = DisruptorBuilder::<u64>::new(128)
        .with_barrier(|b| {
            b.handle_event();
            b.handle_event();
        })
        .with_barrier(|b| {
            b.handle_event_mut();
        });
    let (_executor, mut producer) = builder.build();
    assert_eq!(producer.rb.size(), 128);
    assert_eq!(producer.barriers.len(), 2);
    assert!(producer.barriers[0].is_valid());
    assert!(producer.barriers[1].is_valid());
    assert_eq!(producer.send(5), None);
    assert_eq!(producer.rb.get(0), Some(&5));
}

#[test]
fn mutator_sharing_a_barrier_is_invalid() {
    let mut b = Barrier::new();
    b.handle_event().handle_event_mut();
    assert!(!b.is_valid());
    let mut alone = Barrier::new();
    alone.handle_event_mut();
    assert!(alone.is_valid());
    let mut readers = Barrier::new();
    readers.handle_event().handle_event().handle_event();
    assert!(readers.is_valid());
    assert!(Barrier::new().is_valid());
}

#[test]
fn sequence_reads_what_was_set() {
    let mut s = Sequence::new();
    assert_eq!(s.get(), 0);
    s.set(42);
    assert_eq!(s.get(), 42);
}

#[test]
fn ring_buffer_slots() {
    let mut rb = RingBuffer::<String>::new(4);
    assert_eq!(rb.size(), 4);
    assert_eq!(rb.get(2), None);
    rb.set(2, "x".to_string());
    assert_eq!(rb.get(2), Some(&"x".to_string()));
    assert_eq!(rb.get(4), None);
}

#[test]
fn producer_writes_at_masked_slot() {
    let mut rb = RingBuffer::<u32>::new(4);
    let barriers = vec![Barrier::new()];
    let mut p = Producer::new(&mut rb, &barriers);
    p.seq.set(5);
    assert_eq!(p.send(11), None);
    assert_eq!(rb.get(1), Some(&11));
    assert_eq!(rb.get(0), None);
}

#[test]
fn producer_a_ring_ahead_is_full() {
    let mut rb = RingBuffer::<u32>::new(8);
    let barriers = vec![Barrier::new(), Barrier::new()];
    let mut p = Producer::new(&mut rb, &barriers);
    p.seq.set(8);
    assert_eq!(p.send(3), Some(3));
    for i in 0..8 {
        assert_eq!(p.rb.get(i), None);
    }
}

#[test]
fn empty_ring_hands_event_back() {
    let mut rb = RingBuffer::<u32>::new(0);
    let barriers = vec![Barrier::new()];
    let mut p = Producer::new(&mut rb, &barriers);
    assert_eq!(p.send(5), Some(5));
    assert_eq!(p.rb.size(), 0);
}

#[test]
fn ring_size_survives_writes() {
    let mut rb = RingBuffer::<u8>::new(8);
    for i in 0..100usize {
        rb.set(i % 8, i as u8);
    }
    assert_eq!(rb.size(), 8);
    assert_eq!(rb.get(3), Some(&99));
}

use exhibits::spsc::SPSC;

#[test]
fn spsc_delivers_everything_in_order() {
    let mut spsc: SPSC<usize, 8> = SPSC::new().unwrap();
    let mut store = Vec::new();
    const N: usize = 100;
    let mut i = 0;
    while store.len() < N {
        if i < N && spsc.send(i).is_none() {
            i += 1;
            if i % 3 != 0 {
                continue;
            }
        }
        if let Some(data) = spsc.recv() {
            store.push(data);
        }
    }
    let res: Vec<usize> = (0..100).collect();
    assert_eq!(res, store);
}

#[test]
fn capacity_must_be_a_power_of_two() {
    assert!(SPSC::<u32, 0>::new().is_err());
    assert!(SPSC::<u32, 3>::new().is_err());
    assert!(SPSC::<u32, 6>::new().is_err());
    assert!(SPSC::<u32, 100>::new().is_err());
    assert!(SPSC::<u32, 1>::new().is_ok());
    assert!(SPSC::<u32, 2>::new().is_ok());
    assert!(SPSC::<u32, 64>::new().is_ok());
}

#[test]
fn full_queue_hands_data_back() {
    let mut q: SPSC<String, 2> = SPSC::new().unwrap();
    assert_eq!(q.send("a".to_string()), None);
    assert_eq!(q.send("b".to_string()), None);
    assert_eq!(q.send("c".to_string()), Some("c".to_string()));
    assert_eq!(q.recv(), Some("a".to_string()));
    assert_eq!(q.send("d".to_string()), None);
    assert_eq!(q.recv(), Some("b".to_string()));
    assert_eq!(q.recv(), Some("d".to_string()));
    assert_eq!(q.recv(), None);
}

#[test]
fn empty_queue_gives_nothing() {
    let mut q: SPSC<u8, 4> = SPSC::new().unwrap();
    assert_eq!(q.recv(), None);
    assert_eq!(q.send(9), None);
    assert_eq!(q.recv(), Some(9));
    assert_eq!(q.recv(), None);
}

#[test]
fn wraps_around_the_ring_many_times() {
    let mut q: SPSC<u64, 4> = SPSC::new().unwrap();
    for round in 0..50u64 {
        for k in 0..3u64 {
            assert_eq!(q.send(round * 10 + k), None);
        }
        for k in 0..3u64 {
            assert_eq!(q.recv(), Some(round * 10 + k));
        }
    }
    assert_eq!(q.recv(), None);
}

#[test]
fn counts_track_sends_and_receives() {
    let mut q: SPSC<u8, 4> = SPSC::new().unwrap();
    assert_eq!(q.len(), 0);
    assert_eq!(q.sent_count(), 0);
    for k in 0..6u8 {
        q.send(k);
    }
    assert_eq!(q.len(), 4);
    assert_eq!(q.sent_count(), 4);
    q.recv();
    assert_eq!(q.len(), 3);
    assert_eq!(q.sent_count(), 4);
}

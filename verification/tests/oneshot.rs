use exhibits::oneshot::OneShot;

#[test]
fn oneshot_hands_over_the_value() {
    let mut slot = OneShot::new();
    assert!(!slot.is_ready());
    slot.send(78);
    assert!(slot.is_ready());
    let data: i32 = slot.recv().unwrap();
    assert_eq!(data, 78);
    assert!(!slot.is_ready());
    assert_eq!(slot.recv(), None);
}

#[test]
fn receive_before_send_gets_nothing() {
    let mut slot: OneShot<String> = OneShot::new();
    assert_eq!(slot.recv(), None);
}

#[test]
fn later_send_replaces_waiting_value() {
    let mut slot = OneShot::new();
    slot.send(1u8);
    slot.send(2u8);
    assert_eq!(slot.recv(), Some(2));
}

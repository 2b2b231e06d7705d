use exhibits::{channel, Consumer, Inner, Producer};
use std::sync::Arc;

#[test]
fn it_works() {
    let (_producer, mut consumer) = channel::<u64>(16);
    assert_eq!(consumer.pop(), None);
}

#[test]
fn ends_share_one_empty_store() {
    let inner = Arc::new(Inner::<String>::new(4));
    let _producer = Producer::new(inner.clone());
    let mut consumer = Consumer::new(inner);
    assert_eq!(consumer.pop(), None);
    assert_eq!(consumer.pop(), None);
}

#[test]
fn zero_capacity_channel() {
    let (_producer, mut consumer) = channel::<u8>(0);
    assert!(consumer.pop().is_none());
}

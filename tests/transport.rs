use moonshot::transport::{Transport, TransportError};

#[test]
fn fifo_drain() {
    let mut t = Transport::new();
    let p1 = vec![1u8];
    let p2 = vec![2u8, 2];
    let p3 = vec![3u8, 3, 3];
    assert_eq!(t.send(p1.clone()), Ok(()));
    assert_eq!(t.send(p2.clone()), Ok(()));
    assert_eq!(t.send(p3.clone()), Ok(()));
    let drained: Vec<Vec<u8>> = t.drain_messages().iter().map(|m| m.payload().clone()).collect();
    assert_eq!(drained, vec![p1, p2, p3]);
    assert!(t.drain_messages().is_empty());
}

#[test]
fn drain_empty_queue() {
    let mut t = Transport::default();
    assert!(t.drain_messages().is_empty());
}

#[test]
fn oversize_payload_rejected_queue_unchanged() {
    let mut t = Transport::new();
    t.send(vec![1, 2]).unwrap();
    assert_eq!(t.send(vec![0u8; 65536]), Err(TransportError::PayloadTooLarge));
    let drained = t.drain_messages();
    assert_eq!(drained.len(), 1);
    assert_eq!(drained[0].payload(), &vec![1, 2]);
}

#[test]
fn largest_payload_accepted() {
    let mut t = Transport::new();
    assert_eq!(t.send(vec![0u8; 65535]), Ok(()));
    let drained = t.drain_messages();
    assert_eq!(drained[0].length(), 65535);
}

#[test]
fn message_length_and_frame() {
    let mut t = Transport::new();
    t.send(vec![4, 5, 6]).unwrap();
    let m = t.drain_messages().pop().unwrap();
    assert_eq!(m.length(), 3);
    assert_eq!(m.to_frame(), vec![0, 3, 4, 5, 6]);
}

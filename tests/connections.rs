use moonshot::codec::{decode_turn, CodecError, PlayerAction, ServerTurn, Vec2Bits};
use moonshot::connections::{broadcast_frame, AcceptOutcome, ConnectionManager};

#[test]
fn starts_after_expected_count_exactly_once() {
    let mut m = ConnectionManager::new(2);
    assert!(!m.is_ready());
    assert_eq!(m.on_accept(10), AcceptOutcome::Waiting);
    assert!(!m.is_ready());
    assert_eq!(m.on_accept(11), AcceptOutcome::Start);
    assert!(m.is_ready());
    assert_eq!(m.on_accept(12), AcceptOutcome::Refused);
    assert_eq!(m.active(), &vec![10, 11]);
}

#[test]
fn duplicate_identifier_refused() {
    let mut m = ConnectionManager::new(3);
    assert_eq!(m.on_accept(1), AcceptOutcome::Waiting);
    assert_eq!(m.on_accept(1), AcceptOutcome::Refused);
    assert_eq!(m.active(), &vec![1]);
}

#[test]
fn nothing_expected_is_ready_at_once() {
    let mut m = ConnectionManager::new(0);
    assert!(m.is_ready());
    assert_eq!(m.on_accept(1), AcceptOutcome::Refused);
}

#[test]
fn remove_failed_keeps_order() {
    let mut m = ConnectionManager::new(3);
    m.on_accept(1);
    m.on_accept(2);
    m.on_accept(3);
    m.remove(2);
    assert_eq!(m.active(), &vec![1, 3]);
    assert!(!m.holds(2));
    m.remove(7);
    assert_eq!(m.active(), &vec![1, 3]);
    assert!(m.is_ready());
}

#[test]
fn broadcast_frame_carries_encoded_turn() {
    let a = PlayerAction::ShootRocket {
        pos: Vec2Bits { x: 1.0f32.to_bits(), y: 1.0f32.to_bits() },
        dir: Vec2Bits { x: 5.0f32.to_bits(), y: 5.0f32.to_bits() },
    };
    let f = broadcast_frame(&ServerTurn::new(vec![a])).unwrap();
    assert_eq!(f.len(), 2 + 8 + 20);
    assert_eq!(&f[..2], &[0, 28]);
    assert_eq!(decode_turn(&f[2..]).unwrap().into_actions(), vec![a]);
}

#[test]
fn broadcast_frame_too_large() {
    let a = PlayerAction::ChangeAura { aura: None, planet: 0 };
    let turn = ServerTurn::new(vec![a; 8000]);
    assert_eq!(broadcast_frame(&turn), Err(CodecError::SerializationTooLarge));
}

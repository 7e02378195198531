use moonshot::aggregator::ActionAggregator;
use moonshot::receive::receive_turns;
use moonshot::codec::{encode_action, PlayerAction, Vec2Bits};
use moonshot::connections::{broadcast_frame, AcceptOutcome, ConnectionManager};
use moonshot::frame::{FrameReader, ReadOutcome};
use moonshot::transport::Transport;

fn vec2(x: f32, y: f32) -> Vec2Bits {
    Vec2Bits { x: x.to_bits(), y: y.to_bits() }
}

#[test]
fn rocket_travels_from_client_a_to_client_b() {
    let rocket = PlayerAction::ShootRocket { pos: vec2(1.0, 1.0), dir: vec2(5.0, 5.0) };

    // client A queues the action and writes the framed message
    let mut transport = Transport::new();
    transport.send(encode_action(&rocket)).unwrap();
    let wire: Vec<u8> = transport.drain_messages().iter().flat_map(|m| m.to_frame()).collect();

    // the server holds both players and batches what A sent
    let mut conns = ConnectionManager::new(2);
    assert_eq!(conns.on_accept(100), AcceptOutcome::Waiting);
    assert_eq!(conns.on_accept(200), AcceptOutcome::Start);
    let mut agg = ActionAggregator::new(2, 1);
    let mut from_a = FrameReader::new();
    let mut from_b = FrameReader::new();
    assert!(agg.ingest(0, 100, &mut from_a, ReadOutcome::Data(wire)));
    assert!(agg.ingest(1, 200, &mut from_b, ReadOutcome::WouldBlock));
    let turn = agg.flush().unwrap();
    assert_eq!(turn.actions().len(), 1);
    let frame = broadcast_frame(&turn).unwrap();
    assert_eq!(conns.active(), &vec![100, 200]);

    // client B reads the frame in two pieces
    let mut reader = FrameReader::new();
    let first = receive_turns(&mut reader, 1, ReadOutcome::Data(frame[..5].to_vec())).unwrap();
    assert!(first.is_empty());
    let turns = receive_turns(&mut reader, 1, ReadOutcome::Data(frame[5..].to_vec())).unwrap();
    assert_eq!(turns.len(), 1);
    let actions = turns[0].actions();
    assert_eq!(actions.len(), 1);
    match actions[0] {
        PlayerAction::ShootRocket { pos, dir } => {
            assert_eq!(f32::from_bits(pos.x), 1.0);
            assert_eq!(f32::from_bits(pos.y), 1.0);
            assert_eq!(f32::from_bits(dir.x), 5.0);
            assert_eq!(f32::from_bits(dir.y), 5.0);
        }
        other => panic!("unexpected action {:?}", other),
    }
}

#[test]
fn client_closes_on_garbage_frame() {
    let mut reader = FrameReader::new();
    assert!(receive_turns(&mut reader, 1, ReadOutcome::Data(vec![0, 2, 1, 2])).is_none());
    assert!(reader.closed());
    assert!(receive_turns(&mut reader, 1, ReadOutcome::WouldBlock).is_none());
}

#[test]
fn client_disconnect() {
    let mut reader = FrameReader::new();
    assert!(receive_turns(&mut reader, 1, ReadOutcome::Failed).is_none());
}

use moonshot::aggregator::ActionAggregator;
use moonshot::building::BuildingType;
use moonshot::codec::{encode_action, PlayerAction};
use moonshot::frame::{write_frame, FrameReader, ReadOutcome};

fn build(moon: u32) -> PlayerAction {
    PlayerAction::Build { building: BuildingType::Mining, moon }
}

#[test]
fn flush_orders_by_slot_then_arrival() {
    let mut agg = ActionAggregator::new(3, 1);
    agg.push(2, build(20));
    agg.push(0, build(1));
    agg.push(2, build(21));
    agg.push(1, build(10));
    agg.push(0, build(2));
    let turn = agg.flush().unwrap();
    assert_eq!(turn.actions(), &vec![build(1), build(2), build(10), build(20), build(21)]);
    assert!(agg.flush().is_none());
}

#[test]
fn zero_minimum_flushes_empty_turns() {
    let mut agg = ActionAggregator::new(2, 0);
    let turn = agg.flush().unwrap();
    assert!(turn.actions().is_empty());
}

#[test]
fn minimum_batch_size_holds_back() {
    let mut agg = ActionAggregator::new(1, 3);
    agg.push(0, build(1));
    agg.push(0, build(2));
    assert!(agg.flush().is_none());
    agg.push(0, build(3));
    assert_eq!(agg.flush().unwrap().into_actions(), vec![build(1), build(2), build(3)]);
    assert!(agg.flush().is_none());
}

#[test]
fn ingest_decodes_frames_into_slot() {
    let mut agg = ActionAggregator::new(2, 1);
    let mut reader = FrameReader::new();
    let mut bytes = write_frame(&encode_action(&build(4)));
    bytes.extend_from_slice(&write_frame(&encode_action(&build(5))));
    let split = bytes.len() - 3;
    assert!(agg.ingest(1, 9, &mut reader, ReadOutcome::Data(bytes[..split].to_vec())));
    assert!(agg.ingest(1, 9, &mut reader, ReadOutcome::WouldBlock));
    assert!(agg.ingest(1, 9, &mut reader, ReadOutcome::Data(bytes[split..].to_vec())));
    assert_eq!(agg.flush().unwrap().into_actions(), vec![build(4), build(5)]);
}

#[test]
fn ingest_closes_on_bad_frame() {
    let mut agg = ActionAggregator::new(1, 1);
    let mut reader = FrameReader::new();
    let mut bytes = write_frame(&encode_action(&build(4)));
    bytes.extend_from_slice(&write_frame(&[9, 9, 9, 9]));
    assert!(!agg.ingest(0, 1, &mut reader, ReadOutcome::Data(bytes)));
    assert!(reader.closed());
    assert!(agg.flush().is_none());
}

#[test]
fn ingest_disconnect() {
    let mut agg = ActionAggregator::new(1, 0);
    let mut reader = FrameReader::new();
    assert!(!agg.ingest(0, 1, &mut reader, ReadOutcome::Data(Vec::new())));
    let mut other = FrameReader::new();
    assert!(!agg.ingest(0, 2, &mut other, ReadOutcome::Failed));
    assert!(other.closed());
}

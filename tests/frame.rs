use moonshot::frame::{write_frame, FrameReader, NetworkSimulationEvent, ReadOutcome};

fn stream_of(payloads: &[Vec<u8>]) -> Vec<u8> {
    let mut s = Vec::new();
    for p in payloads {
        s.extend_from_slice(&write_frame(p));
    }
    s
}

fn payloads() -> Vec<Vec<u8>> {
    vec![vec![1, 2, 3], vec![], vec![9; 300], vec![42]]
}

#[test]
fn write_frame_prefixes_big_endian_length() {
    assert_eq!(write_frame(&[7, 8, 9]), vec![0, 3, 7, 8, 9]);
    let long = vec![5u8; 300];
    let f = write_frame(&long);
    assert_eq!(&f[..2], &[1, 44]);
    assert_eq!(f.len(), 302);
    assert_eq!(write_frame(&[]), vec![0, 0]);
}

#[test]
fn largest_payload_frame() {
    let p = vec![1u8; 65535];
    let f = write_frame(&p);
    assert_eq!(&f[..2], &[0xff, 0xff]);
    let mut r = FrameReader::new();
    assert_eq!(r.feed(&f), vec![p]);
}

#[test]
fn feed_in_one_piece() {
    let mut r = FrameReader::new();
    assert_eq!(r.feed(&stream_of(&payloads())), payloads());
}

#[test]
fn feed_byte_by_byte_gives_same_frames() {
    let stream = stream_of(&payloads());
    let mut r = FrameReader::new();
    let mut got = Vec::new();
    for b in &stream {
        got.extend(r.feed(&[*b]));
    }
    assert_eq!(got, payloads());
}

#[test]
fn feed_in_uneven_chunks_gives_same_frames() {
    let stream = stream_of(&payloads());
    for size in 1..12 {
        let mut r = FrameReader::new();
        let mut got = Vec::new();
        for chunk in stream.chunks(size) {
            got.extend(r.feed(chunk));
        }
        assert_eq!(got, payloads(), "chunk size {}", size);
    }
}

#[test]
fn partial_frame_waits_for_rest() {
    let mut r = FrameReader::new();
    assert!(r.feed(&[0]).is_empty());
    assert!(r.feed(&[2, 5]).is_empty());
    assert_eq!(r.feed(&[6, 0]), vec![vec![5, 6]]);
    assert_eq!(r.feed(&[1, 4]), vec![vec![4]]);
}

#[test]
fn read_events() {
    let mut r = FrameReader::new();
    let events = r.handle_read(3, ReadOutcome::Data(vec![0, 1, 7, 0]));
    assert_eq!(events.len(), 1);
    assert!(matches!(&events[0], NetworkSimulationEvent::Message(3, p) if p == &vec![7]));
    assert!(r.handle_read(3, ReadOutcome::WouldBlock).is_empty());
    let events = r.handle_read(3, ReadOutcome::Data(vec![2, 8, 9]));
    assert_eq!(events.len(), 1);
    assert!(matches!(&events[0], NetworkSimulationEvent::Message(3, p) if p == &vec![8, 9]));
    assert!(!r.closed());
}

#[test]
fn zero_byte_read_disconnects() {
    let mut r = FrameReader::new();
    let events = r.handle_read(5, ReadOutcome::Data(Vec::new()));
    assert_eq!(events.len(), 1);
    assert!(matches!(events[0], NetworkSimulationEvent::Disconnect(5)));
    assert!(r.closed());
    assert!(r.handle_read(5, ReadOutcome::Data(vec![0, 1, 1])).is_empty());
}

#[test]
fn failed_read_disconnects() {
    let mut r = FrameReader::new();
    let events = r.handle_read(6, ReadOutcome::Failed);
    assert_eq!(events.len(), 1);
    assert!(matches!(events[0], NetworkSimulationEvent::Disconnect(6)));
    assert!(r.closed());
}

#[test]
fn one_read_larger_than_the_buffer_bound() {
    let big: Vec<Vec<u8>> = vec![vec![1u8; 40000], vec![2u8; 65535], vec![3u8; 40000]];
    let mut stream = stream_of(&big);
    stream.extend_from_slice(&[0, 9, 1]);
    let mut r = FrameReader::new();
    assert_eq!(r.feed(&stream), big);
    assert_eq!(r.feed(&[2, 3, 4, 5, 6, 7, 8, 9]), vec![vec![1, 2, 3, 4, 5, 6, 7, 8, 9]]);
}

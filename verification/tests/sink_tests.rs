use file_sink::codec::{decode_frames, encode_frame, encode_frames};
use file_sink::sink::{FileRecord, FileSink, FileSinkBuilder, SinkEvent};

fn fresh_sink(max_size: u64, roll_interval_ms: u64, has_deposits: bool) -> FileSink {
    FileSink::create(Vec::new(), Vec::new(), max_size, roll_interval_ms, has_deposits, 0)
}

#[test]
fn encode_frame_prefixes_big_endian_length() {
    let frame = encode_frame(&b"hello".to_vec());
    assert_eq!(frame, vec![0u8, 0, 0, 5, b'h', b'e', b'l', b'l', b'o']);
}

#[test]
fn decode_recovers_payloads_in_order() {
    let payloads = vec![b"hello".to_vec(), b"".to_vec(), vec![1u8, 2, 3]];
    let bytes = encode_frames(&payloads);
    let (decoded, clean) = decode_frames(&bytes);
    assert!(clean);
    assert_eq!(decoded, payloads);
}

#[test]
fn decode_tolerates_truncated_tail() {
    let payloads = vec![b"alpha".to_vec(), b"beta".to_vec()];
    let mut bytes = encode_frames(&payloads);
    bytes.extend_from_slice(&[0, 0, 0, 9, 1, 2]);
    let (decoded, clean) = decode_frames(&bytes);
    assert!(!clean);
    assert_eq!(decoded, payloads);
}

#[test]
fn decode_empty_stream_is_clean_and_empty() {
    let (decoded, clean) = decode_frames(&Vec::new());
    assert!(clean);
    assert!(decoded.is_empty());
}

#[test]
fn writes_a_framed_file_and_promotes_on_roll() {
    let mut sink = fresh_sink(50_000_000, 100, true);
    sink.write(b"hello".to_vec(), 1_000);
    sink.maybe_roll(1_050);
    assert!(sink.promoted.is_empty(), "rolled before the interval elapsed");
    sink.maybe_roll(1_100);
    assert_eq!(sink.promoted.len(), 1);
    assert!(sink.active.is_none());
    let file = &sink.promoted[0];
    assert_eq!(file.name_ms, 1_000);
    assert_eq!(file.frames, vec![b"hello".to_vec()]);
    assert_eq!(sink.notifications, vec![1_000]);
}

#[test]
fn size_triggered_rollover_keeps_order_and_bound() {
    let mut sink = fresh_sink(1024, 3 * 60 * 1000, false);
    let inputs: Vec<Vec<u8>> = (0u8..32).map(|i| vec![i; 40]).collect();
    for (k, buf) in inputs.iter().enumerate() {
        sink.write(buf.clone(), 1_000 + k as u64);
    }
    sink.shutdown();
    assert!(sink.promoted.len() >= 2);
    let mut all: Vec<Vec<u8>> = Vec::new();
    let mut last_name = 0u64;
    for file in &sink.promoted {
        assert!(file.name_ms >= last_name, "names must not decrease");
        last_name = file.name_ms;
        let total: usize = file.frames.iter().map(|f| f.len()).sum();
        assert!(total < 1024 || file.frames.len() == 1);
        assert!(total <= 1024 + 40);
        all.extend(file.frames.iter().cloned());
    }
    assert_eq!(all, inputs);
}

#[test]
fn oversized_record_gets_a_file_of_its_own() {
    let mut sink = fresh_sink(100, 1_000, false);
    sink.write(vec![7u8; 250], 1);
    sink.write(vec![8u8; 10], 2);
    sink.shutdown();
    assert_eq!(sink.promoted.len(), 2);
    assert_eq!(sink.promoted[0].frames, vec![vec![7u8; 250]]);
    assert_eq!(sink.promoted[1].frames, vec![vec![8u8; 10]]);
}

#[test]
fn run_loop_round_trip() {
    let mut sink = fresh_sink(120, 100, true);
    let events = vec![
        SinkEvent::Msg(b"one".to_vec(), 10),
        SinkEvent::Tick(50),
        SinkEvent::Msg(b"two".to_vec(), 60),
        SinkEvent::Tick(200),
        SinkEvent::Msg(b"three".to_vec(), 210),
    ];
    sink.run(events);
    assert!(sink.active.is_none());
    let all: Vec<Vec<u8>> = sink.promoted.iter().flat_map(|f| f.frames.iter().cloned()).collect();
    assert_eq!(all, vec![b"one".to_vec(), b"two".to_vec(), b"three".to_vec()]);
    assert_eq!(sink.notifications.len(), sink.promoted.len());
}

#[test]
fn at_most_one_file_is_active() {
    let mut sink = fresh_sink(64, 1_000, false);
    for k in 0u8..10 {
        sink.write(vec![k; 30], k as u64);
        assert!(sink.active.is_some());
    }
    sink.shutdown();
    assert!(sink.active.is_none());
}

#[test]
fn recovery_promotes_tmp_files_and_notifies_once() {
    let leftover = FileRecord { name_ms: 123, frames: vec![b"partial".to_vec()] };
    let existing = FileRecord { name_ms: 50, frames: vec![b"old".to_vec()] };
    let sink = FileSink::create(vec![existing], vec![leftover], 1024, 1_000, true, 9_000);
    assert_eq!(sink.promoted.len(), 2);
    assert_eq!(sink.promoted[0].name_ms, 50);
    assert_eq!(sink.promoted[1].name_ms, 123);
    assert_eq!(sink.notifications, vec![50, 123]);
}

#[test]
fn recovery_twice_does_not_duplicate() {
    let leftover = FileRecord { name_ms: 123, frames: vec![b"partial".to_vec()] };
    let first = FileSink::create(Vec::new(), vec![leftover], 1024, 1_000, true, 9_000);
    assert_eq!(first.notifications, vec![123]);
    // A second creation finds an empty tmp directory and the same target
    // directory; it re-announces each target file exactly once.
    let second = FileSink::create(first.promoted, Vec::new(), 1024, 1_000, true, 9_500);
    assert_eq!(second.promoted.len(), 1);
    assert_eq!(second.promoted[0].name_ms, 123);
    assert_eq!(second.notifications, vec![123]);
}

#[test]
fn builder_defaults_match_the_documented_configuration() {
    let sink = FileSinkBuilder::new(Vec::new(), Vec::new()).create(5);
    assert_eq!(sink.max_size, 50_000_000);
    assert_eq!(sink.roll_interval_ms, 180_000);
    assert!(!sink.has_deposits);
    assert_eq!(sink.clock_ms, 5);
    let sink = FileSinkBuilder::new(Vec::new(), Vec::new())
        .max_size(1024)
        .roll_time(100)
        .deposits(true)
        .create(7);
    assert_eq!(sink.max_size, 1024);
    assert_eq!(sink.roll_interval_ms, 100);
    assert!(sink.has_deposits);
}

#[test]
fn wall_clock_writes_still_roll_and_keep_records() {
    let mut sink = fresh_sink(16, 60_000, false);
    sink.write_now(b"abcdefgh".to_vec());
    sink.write_now(b"ijklmnop".to_vec());
    sink.maybe_roll_now();
    sink.shutdown();
    let all: Vec<Vec<u8>> = sink.promoted.iter().flat_map(|f| f.frames.iter().cloned()).collect();
    assert_eq!(all, vec![b"abcdefgh".to_vec(), b"ijklmnop".to_vec()]);
}

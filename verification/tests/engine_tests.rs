use blowtorch::burn_buffer;
use blowtorch::BurnConfig;
use blowtorch::BurnEngine;
use blowtorch::BurnSetting;
use blowtorch::Progress;

fn to_hex(bytes: &[u8]) -> String {
    let mut s = String::new();
    for b in bytes {
        s.push_str(&format!("{:02x}", b));
    }
    s
}

const EMPTY_SHA256: &str = "e3b0c44298fc1c149afbf4c8996fb92427ae41e4649b934ca495991b7852b855";
const ABC_SHA256: &str = "ba7816bf8f01cfea414140de5dae2223b00361a396177a9cb410ff61f20015ad";

fn end_digest(p: &Progress) -> Option<Vec<u8>> {
    match p {
        Progress::End { digest } => digest.clone(),
        _ => panic!("expected End event"),
    }
}

#[test]
fn zero_length_image() {
    let image: Vec<u8> = Vec::new();
    let (events, out) = burn_buffer(&image, 4, true);
    assert_eq!(out.len(), 0);
    assert_eq!(events.len(), 2);
    assert!(matches!(events[0], Progress::Start { total: 0 }));
    let digest = end_digest(&events[1]).expect("verification requested");
    assert_eq!(to_hex(&digest), EMPTY_SHA256);
}

#[test]
fn digest_matches_whole_file_hash() {
    let image = b"abc".to_vec();
    let (events, _) = burn_buffer(&image, 4096, true);
    let digest = end_digest(events.last().unwrap()).expect("verification requested");
    assert_eq!(to_hex(&digest), ABC_SHA256);
}

#[test]
fn chunking_independence() {
    let image = b"abc".to_vec();
    let one = end_digest(burn_buffer(&image, 1, true).0.last().unwrap()).unwrap();
    let two = end_digest(burn_buffer(&image, 2, true).0.last().unwrap()).unwrap();
    let whole = end_digest(burn_buffer(&image, 4096, true).0.last().unwrap()).unwrap();
    assert_eq!(one, whole);
    assert_eq!(two, whole);
    assert_eq!(to_hex(&whole), ABC_SHA256);
}

#[test]
fn no_digest_without_verify() {
    let image = b"abc".to_vec();
    let (events, _) = burn_buffer(&image, 2, false);
    assert!(end_digest(events.last().unwrap()).is_none());
}

#[test]
fn round_trip() {
    let chunk: usize = 8;
    for n in [0usize, 1, 8, 9, 20, 24] {
        let image: Vec<u8> = (0..n).map(|i| (i * 7 + 3) as u8).collect();
        let (events, out) = burn_buffer(&image, chunk, false);
        assert_eq!(out, image, "destination differs for n = {}", n);
        let expected_chunks = n.div_ceil(chunk);
        assert_eq!(events.len(), expected_chunks + 2, "event count for n = {}", n);
        assert!(matches!(events[0], Progress::Start { total } if total == n as u64));
        assert!(matches!(events.last().unwrap(), Progress::End { .. }));
    }
}

#[test]
fn monotonic_progress() {
    let image: Vec<u8> = vec![5u8; 20];
    let (events, _) = burn_buffer(&image, 8, false);
    let mut last_count = 0u64;
    let mut progress_seen = 0;
    for e in &events {
        if let Progress::Progress { count, total } = e {
            assert_eq!(*total, 20);
            assert!(*count >= last_count);
            last_count = *count;
            progress_seen += 1;
        }
    }
    assert_eq!(progress_seen, 3);
    assert_eq!(last_count, 20);
}

#[test]
fn event_ordering() {
    let image: Vec<u8> = vec![1u8; 9];
    let (events, _) = burn_buffer(&image, 4, false);
    assert!(matches!(events[0], Progress::Start { .. }));
    for e in &events[1..events.len() - 1] {
        assert!(matches!(e, Progress::Progress { .. }));
    }
    assert!(matches!(events.last().unwrap(), Progress::End { .. }));
}

#[test]
fn error_on_mid_stream_failure() {
    let data = [9u8; 4];
    let mut engine = BurnEngine::new(10, false);
    let mut events = Vec::new();
    events.push(engine.start());
    events.push(engine.chunk_written(&data));
    events.push(engine.fail());
    assert_eq!(events.len(), 3);
    assert!(matches!(events[0], Progress::Start { total: 10 }));
    assert!(matches!(events[1], Progress::Progress { count: 4, total: 10 }));
    assert!(matches!(events[2], Progress::Error));
    assert!(!events.iter().any(|e| matches!(e, Progress::End { .. })));
    assert_eq!(engine.bytes_written(), 4);
}

#[test]
fn error_before_start() {
    let mut engine = BurnEngine::new(5, true);
    let only = engine.fail();
    assert!(matches!(only, Progress::Error));
}

#[test]
fn wants_verify_flag() {
    let with = BurnConfig {
        device: "/dev/null".to_string(),
        image: "/tmp/img".to_string(),
        settings: vec![BurnSetting::Verify],
    };
    assert!(with.wants_verify());
    let without = BurnConfig {
        device: "/dev/null".to_string(),
        image: "/tmp/img".to_string(),
        settings: Vec::new(),
    };
    assert!(!without.wants_verify());
}

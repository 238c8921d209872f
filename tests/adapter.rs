use mzdata_web::adapter::{PullOutcome, ReadAction, ReadError, StreamAdapter, Phase};
use mzdata_web::reply::{ChunkValue, ReplyError};

/// A scripted source: yields its chunks in order, then the terminal reply.
struct FakeSource {
    chunks: Vec<Vec<u8>>,
    next: usize,
    pulls: usize,
    fail_on: Option<usize>,
}

impl FakeSource {
    fn new(chunks: &[&[u8]]) -> Self {
        FakeSource {
            chunks: chunks.iter().map(|c| c.to_vec()).collect(),
            next: 0,
            pulls: 0,
            fail_on: None,
        }
    }

    fn pull(&mut self) -> PullOutcome {
        self.pulls += 1;
        if self.fail_on == Some(self.pulls) {
            return PullOutcome::Rejected("source failed".to_string());
        }
        if self.next < self.chunks.len() {
            let c = self.chunks[self.next].clone();
            self.next += 1;
            PullOutcome::Replied(Some(false), ChunkValue::Bytes(c))
        } else {
            PullOutcome::Replied(Some(true), ChunkValue::Absent)
        }
    }
}

/// Drives one read to its end, re-polling `repolls` times while a pull is pending.
fn read(
    a: &mut StreamAdapter,
    src: &mut FakeSource,
    dst_len: usize,
    repolls: usize,
) -> Result<Vec<u8>, ReadError> {
    let mut pending: Option<PullOutcome> = None;
    let mut waited = 0;
    loop {
        match a.poll_read(dst_len) {
            ReadAction::Data(b) => {
                assert!(b.len() <= dst_len);
                return Ok(b);
            }
            ReadAction::Eof => return Ok(Vec::new()),
            ReadAction::StartPull => {
                assert!(pending.is_none());
                pending = Some(src.pull());
            }
            ReadAction::AwaitPull => {
                if waited < repolls {
                    waited += 1;
                    continue;
                }
                let outcome = pending.take().expect("a pull is in flight");
                a.on_pull(outcome)?;
            }
        }
    }
}

fn read_all(chunks: &[&[u8]], dst_len: usize, repolls: usize) -> (Vec<u8>, usize) {
    let mut src = FakeSource::new(chunks);
    let mut a = StreamAdapter::new();
    let mut out = Vec::new();
    loop {
        let b = read(&mut a, &mut src, dst_len, repolls).unwrap();
        if b.is_empty() {
            break;
        }
        out.extend_from_slice(&b);
    }
    (out, src.pulls)
}

#[test]
fn literal_scenario_aaaa_bbb() {
    let mut src = FakeSource::new(&[b"AAAA", b"BBB"]);
    let mut a = StreamAdapter::new();

    let b = read(&mut a, &mut src, 3, 0).unwrap();
    assert_eq!(b, b"AAA".to_vec());
    assert_eq!(src.pulls, 1);
    assert_eq!(a.remaining(), 1);

    let b = read(&mut a, &mut src, 3, 0).unwrap();
    assert_eq!(b, b"A".to_vec());
    assert_eq!(src.pulls, 1);

    let b = read(&mut a, &mut src, 3, 0).unwrap();
    assert_eq!(b, b"BBB".to_vec());
    assert_eq!(src.pulls, 2);
    assert_eq!(a.remaining(), 0);

    let b = read(&mut a, &mut src, 3, 0).unwrap();
    assert!(b.is_empty());
    assert_eq!(src.pulls, 3);
    assert_eq!(a.phase_now(), Phase::Complete);

    let b = read(&mut a, &mut src, 3, 0).unwrap();
    assert!(b.is_empty());
    assert_eq!(src.pulls, 3);
}

#[test]
fn concatenation_matches_chunks_for_every_destination_size() {
    let chunks: [&[u8]; 5] = [b"hello", b"", b" ", b"wonderful world", b"!"];
    let expected = b"hello wonderful world!".to_vec();
    for dst_len in [1usize, 2, 3, 4, 7, 64] {
        let (out, pulls) = read_all(&chunks, dst_len, 0);
        assert_eq!(out, expected);
        assert_eq!(pulls, chunks.len() + 1);
    }
}

#[test]
fn repolling_never_starts_a_second_pull() {
    let chunks: [&[u8]; 3] = [b"ab", b"cde", b"f"];
    for repolls in [1usize, 2, 5] {
        let (out, pulls) = read_all(&chunks, 2, repolls);
        assert_eq!(out, b"abcdef".to_vec());
        assert_eq!(pulls, 4);
    }
}

#[test]
fn busy_adapter_answers_await_pull() {
    let mut a = StreamAdapter::new();
    assert!(matches!(a.poll_read(4), ReadAction::StartPull));
    assert_eq!(a.phase_now(), Phase::Busy);
    for _ in 0..3 {
        assert!(matches!(a.poll_read(4), ReadAction::AwaitPull));
    }
    a.on_pull(PullOutcome::Replied(Some(false), ChunkValue::Bytes(vec![9, 8])))
        .unwrap();
    assert_eq!(a.phase_now(), Phase::Idle);
    match a.poll_read(4) {
        ReadAction::Data(b) => assert_eq!(b, vec![9, 8]),
        other => panic!("unexpected {:?}", other),
    }
}

#[test]
fn small_destination_drains_one_chunk_exactly() {
    let mut src = FakeSource::new(&[b"0123456789"]);
    let mut a = StreamAdapter::new();
    let mut parts = Vec::new();
    for _ in 0..4 {
        parts.push(read(&mut a, &mut src, 3, 0).unwrap());
    }
    assert_eq!(
        parts,
        vec![b"012".to_vec(), b"345".to_vec(), b"678".to_vec(), b"9".to_vec()]
    );
    assert_eq!(src.pulls, 1);
}

#[test]
fn zero_length_destination_reads_nothing_and_pulls_nothing() {
    let mut a = StreamAdapter::new();
    match a.poll_read(0) {
        ReadAction::Data(b) => assert!(b.is_empty()),
        other => panic!("unexpected {:?}", other),
    }
    assert_eq!(a.phase_now(), Phase::Idle);
    let (out, pulls) = read_all(&[b"xy"], 1, 0);
    assert_eq!(out, b"xy".to_vec());
    assert_eq!(pulls, 2);
}

#[test]
fn eof_is_idempotent() {
    let mut src = FakeSource::new(&[]);
    let mut a = StreamAdapter::new();
    for _ in 0..5 {
        assert!(read(&mut a, &mut src, 8, 0).unwrap().is_empty());
    }
    assert_eq!(src.pulls, 1);
    assert!(a.is_stream_done());
    assert!(matches!(a.poll_read(8), ReadAction::Eof));
}

#[test]
fn failure_on_third_pull_keeps_earlier_bytes() {
    let mut src = FakeSource::new(&[b"AB", b"CD", b"EF"]);
    src.fail_on = Some(3);
    let mut a = StreamAdapter::new();
    assert_eq!(read(&mut a, &mut src, 8, 0).unwrap(), b"AB".to_vec());
    assert_eq!(read(&mut a, &mut src, 8, 0).unwrap(), b"CD".to_vec());
    let e = read(&mut a, &mut src, 8, 0).unwrap_err();
    assert_eq!(e, ReadError::Source("source failed".to_string()));
    assert_eq!(src.pulls, 3);
    assert_eq!(a.phase_now(), Phase::Idle);
    assert_eq!(a.remaining(), 0);
    // The next read pulls again: the failed pull is not retried by itself.
    assert_eq!(read(&mut a, &mut src, 8, 0).unwrap(), b"EF".to_vec());
    assert!(read(&mut a, &mut src, 8, 0).unwrap().is_empty());
    assert_eq!(src.pulls, 5);
}

#[test]
fn malformed_replies_are_protocol_errors() {
    let cases = vec![
        (PullOutcome::Replied(None, ChunkValue::Bytes(vec![1])), ReplyError::MissingDone),
        (PullOutcome::Replied(Some(false), ChunkValue::Absent), ReplyError::MissingValue),
        (PullOutcome::Replied(Some(false), ChunkValue::NotBytes), ReplyError::NotBytes),
        (PullOutcome::Replied(Some(true), ChunkValue::NotBytes), ReplyError::NotBytes),
    ];
    for (outcome, kind) in cases {
        let mut a = StreamAdapter::new();
        assert!(matches!(a.poll_read(4), ReadAction::StartPull));
        assert_eq!(a.on_pull(outcome), Err(ReadError::Protocol(kind)));
        assert_eq!(a.phase_now(), Phase::Idle);
        assert!(!a.is_stream_done());
        assert!(matches!(a.poll_read(4), ReadAction::StartPull));
    }
}

#[test]
fn last_chunk_with_done_is_delivered_before_eof() {
    let mut a = StreamAdapter::new();
    assert!(matches!(a.poll_read(2), ReadAction::StartPull));
    a.on_pull(PullOutcome::Replied(Some(true), ChunkValue::Bytes(b"xyz".to_vec())))
        .unwrap();
    assert!(a.is_stream_done());
    match a.poll_read(2) {
        ReadAction::Data(b) => assert_eq!(b, b"xy".to_vec()),
        other => panic!("unexpected {:?}", other),
    }
    match a.poll_read(2) {
        ReadAction::Data(b) => assert_eq!(b, b"z".to_vec()),
        other => panic!("unexpected {:?}", other),
    }
    assert!(matches!(a.poll_read(2), ReadAction::Eof));
    assert_eq!(a.phase_now(), Phase::Complete);
    assert!(matches!(a.poll_read(2), ReadAction::Eof));
}

use mzdata_web::adapter::{PullOutcome, ReadError};
use mzdata_web::pipe::{PipeRead, PumpAction, ReaderPipe, DEFAULT_PIPE_CAPACITY};
use mzdata_web::reply::ChunkValue;

fn chunk(b: &[u8]) -> PullOutcome {
    PullOutcome::Replied(Some(false), ChunkValue::Bytes(b.to_vec()))
}

fn end() -> PullOutcome {
    PullOutcome::Replied(Some(true), ChunkValue::Absent)
}

fn data(r: Result<PipeRead, ReadError>) -> Vec<u8> {
    match r {
        Ok(PipeRead::Data(b)) => b,
        Ok(other) => panic!("unexpected {:?}", other),
        Err(e) => panic!("unexpected error {:?}", e),
    }
}

#[test]
fn pump_and_reader_keep_bytes_in_order() {
    let chunks: [&[u8]; 4] = [b"abc", b"", b"defgh", b"ij"];
    let mut p = ReaderPipe::new(4);
    let mut next = 0;
    let mut pulls = 0;
    let mut out = Vec::new();
    loop {
        match p.pump_step() {
            PumpAction::Pull => {
                pulls += 1;
                if next < chunks.len() {
                    p.on_pull(chunk(chunks[next]));
                    next += 1;
                } else {
                    p.on_pull(end());
                }
            }
            PumpAction::AwaitPull => panic!("no pull is left in flight"),
            PumpAction::AwaitSpace | PumpAction::Finished => {}
        }
        assert!(p.buffered() <= 4);
        match p.read(3).unwrap() {
            PipeRead::Data(b) => out.extend_from_slice(&b),
            PipeRead::Eof => break,
            PipeRead::AwaitData => {}
        }
    }
    assert_eq!(out, b"abcdefghij".to_vec());
    assert_eq!(pulls, chunks.len() + 1);
}

#[test]
fn full_buffer_holds_the_pump_back() {
    let mut p = ReaderPipe::new(4);
    assert_eq!(p.pump_step(), PumpAction::Pull);
    assert_eq!(p.pump_step(), PumpAction::AwaitPull);
    p.on_pull(chunk(b"0123456789"));
    assert_eq!(p.pump_step(), PumpAction::AwaitSpace);
    assert_eq!(p.buffered(), 4);
    assert_eq!(p.pump_step(), PumpAction::AwaitSpace);
    assert_eq!(p.buffered(), 4);
    assert_eq!(data(p.read(3)), b"012".to_vec());
    assert_eq!(p.pump_step(), PumpAction::AwaitSpace);
    assert_eq!(data(p.read(10)), b"3456".to_vec());
    assert_eq!(p.pump_step(), PumpAction::Pull);
    assert_eq!(data(p.read(10)), b"789".to_vec());
    assert!(matches!(p.read(10), Ok(PipeRead::AwaitData)));
}

#[test]
fn empty_open_pipe_waits_and_closed_pipe_ends() {
    let mut p = ReaderPipe::new(DEFAULT_PIPE_CAPACITY);
    assert!(matches!(p.read(8), Ok(PipeRead::AwaitData)));
    assert_eq!(data(p.read(0)), Vec::<u8>::new());
    assert_eq!(p.pump_step(), PumpAction::Pull);
    p.on_pull(end());
    assert_eq!(p.pump_step(), PumpAction::Finished);
    assert!(matches!(p.read(8), Ok(PipeRead::Eof)));
    assert!(matches!(p.read(8), Ok(PipeRead::Eof)));
    assert_eq!(p.pump_step(), PumpAction::Finished);
}

#[test]
fn failure_is_reported_once_after_buffered_bytes() {
    let mut p = ReaderPipe::new(16);
    assert_eq!(p.pump_step(), PumpAction::Pull);
    p.on_pull(chunk(b"ok"));
    assert_eq!(p.pump_step(), PumpAction::Pull);
    p.on_pull(PullOutcome::Rejected("gone".to_string()));
    assert_eq!(p.pump_step(), PumpAction::Finished);
    assert_eq!(data(p.read(8)), b"ok".to_vec());
    assert_eq!(p.read(8).unwrap_err(), ReadError::Source("gone".to_string()));
    assert!(matches!(p.read(8), Ok(PipeRead::Eof)));
}

#[test]
fn last_chunk_with_done_is_written_then_closed() {
    let mut p = ReaderPipe::new(2);
    assert_eq!(p.pump_step(), PumpAction::Pull);
    p.on_pull(PullOutcome::Replied(Some(true), ChunkValue::Bytes(b"xyz".to_vec())));
    assert_eq!(p.pump_step(), PumpAction::AwaitSpace);
    assert_eq!(data(p.read(8)), b"xy".to_vec());
    assert_eq!(p.pump_step(), PumpAction::Finished);
    assert_eq!(data(p.read(8)), b"z".to_vec());
    assert!(matches!(p.read(8), Ok(PipeRead::Eof)));
}

#[test]
fn closed_reader_stops_the_pump() {
    let mut p = ReaderPipe::new(8);
    assert_eq!(p.pump_step(), PumpAction::Pull);
    p.on_pull(chunk(b"abc"));
    p.close_read();
    assert_eq!(p.pump_step(), PumpAction::Finished);
    assert_eq!(p.buffered(), 0);
    assert_eq!(p.pump_step(), PumpAction::Finished);
}

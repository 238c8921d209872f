//! Classifying what a pull on the chunk source resolved with.
use vstd::prelude::*;

verus! {

/// What the `value` field of a pull reply held.
pub enum ChunkValue {
    /// The field was missing, `null` or `undefined`.
    Absent,
    /// The field held a byte array.
    Bytes(Vec<u8>),
    /// The field held something that is not a byte array.
    NotBytes,
}

/// A pull reply, classified.
pub enum PullReply {
    /// More data: `done` was false and `value` held bytes.
    Chunk(Vec<u8>),
    /// The source is exhausted and sent no data with the signal.
    End,
    /// The source is exhausted; its last bytes came with the signal.
    LastChunk(Vec<u8>),
}

/// Why a pull reply could not be used.
#[derive(Debug, PartialEq, Eq)]
pub enum ReplyError {
    /// The `done` field was missing or not a boolean.
    MissingDone,
    /// `done` was false but no `value` came with it.
    MissingValue,
    /// The value was present but not a byte sequence.
    NotBytes,
}

/// Sorts the two fields of a pull reply into a usable reply or a protocol error.
pub fn classify_reply(done: Option<bool>, value: ChunkValue) -> (r: Result<PullReply, ReplyError>)
    ensures
        match (done, value) {
            (None, _) => r == Err::<PullReply, ReplyError>(ReplyError::MissingDone),
            (Some(_), ChunkValue::NotBytes) => r == Err::<PullReply, ReplyError>(ReplyError::NotBytes),
            (Some(false), ChunkValue::Absent) => r == Err::<PullReply, ReplyError>(ReplyError::MissingValue),
            (Some(false), ChunkValue::Bytes(b)) => r matches Ok(PullReply::Chunk(c)) && c@ == b@,
            (Some(true), ChunkValue::Absent) => r matches Ok(PullReply::End),
            (Some(true), ChunkValue::Bytes(b)) => r matches Ok(PullReply::LastChunk(c)) && c@ == b@,
        },
{
    match done {
        None => Err(ReplyError::MissingDone),
        Some(d) => match value {
            ChunkValue::NotBytes => Err(ReplyError::NotBytes),
            ChunkValue::Absent => if d {
                Ok(PullReply::End)
            } else {
                Err(ReplyError::MissingValue)
            },
            ChunkValue::Bytes(b) => if d {
                Ok(PullReply::LastChunk(b))
            } else {
                Ok(PullReply::Chunk(b))
            },
        },
    }
}

} // verus!

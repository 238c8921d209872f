//! Position arithmetic for a random-access reader over a blob of known size.
//!
//! Offsets travel to the blob API as JavaScript numbers, so every offset handed
//! out must be exactly representable there: at most `MAX_SAFE_INTEGER`.
use vstd::prelude::*;

verus! {

/// The largest integer a JavaScript number holds exactly: 2^53 - 1.
pub const MAX_SAFE_INTEGER: u64 = 9007199254740991;

/// Where a seek is measured from, with its offset.
#[derive(Clone, Copy, Debug, PartialEq, Eq, Structural)]
pub enum SeekFrom {
    /// From the start of the blob.
    Start(u64),
    /// From the end of the blob.
    End(i64),
    /// From the current position.
    Current(i64),
}

/// Why a seek was refused.
#[derive(Clone, Copy, Debug, PartialEq, Eq, Structural)]
pub enum SeekError {
    /// The target lies before the start of the blob.
    BeforeStart,
}

/// The size of `offset`, as an unsigned number.
pub open spec fn magnitude(offset: i64) -> int {
    if offset < 0 {
        -offset
    } else {
        offset as int
    }
}

/// Where a seek lands in a blob of `size` bytes read up to `position`, or
/// `None` when it would land before the start. Targets past the end stop at
/// the end.
pub open spec fn seek_target(size: u64, position: u64, pos: SeekFrom) -> Option<int> {
    match pos {
        SeekFrom::Start(offset) => Some(if offset <= size { offset as int } else { size as int }),
        SeekFrom::End(offset) => if offset >= 0 {
            Some(size as int)
        } else if magnitude(offset) > size {
            None
        } else {
            Some(size - magnitude(offset))
        },
        SeekFrom::Current(offset) => if offset >= 0 {
            let t = position + offset;
            Some(if t <= size { t } else { size as int })
        } else if magnitude(offset) > position {
            None
        } else {
            Some(position - magnitude(offset))
        },
    }
}

/// The size of `offset`, as an unsigned number.
fn unsigned_magnitude(offset: i64) -> (r: u64)
    ensures
        r == magnitude(offset),
{
    if offset < 0 {
        let m = -(offset + 1);
        (m as u64) + 1
    } else {
        offset as u64
    }
}

/// Moves a position within a blob of `size` bytes.
pub fn seek_position(size: u64, position: u64, pos: SeekFrom) -> (r: Result<u64, SeekError>)
    ensures
        match seek_target(size, position, pos) {
            Some(t) => r == Ok::<u64, SeekError>(t as u64),
            None => r == Err::<u64, SeekError>(SeekError::BeforeStart),
        },
{
    match pos {
        SeekFrom::Start(offset) => Ok(if offset <= size { offset } else { size }),
        SeekFrom::End(offset) => {
            if offset >= 0 {
                Ok(size)
            } else {
                let m = unsigned_magnitude(offset);
                if m > size {
                    Err(SeekError::BeforeStart)
                } else {
                    Ok(size - m)
                }
            }
        },
        SeekFrom::Current(offset) => {
            if offset >= 0 {
                let o = offset as u64;
                if o > size || position > size - o {
                    Ok(size)
                } else {
                    Ok(position + o)
                }
            } else {
                let m = unsigned_magnitude(offset);
                if m > position {
                    Err(SeekError::BeforeStart)
                } else {
                    Ok(position - m)
                }
            }
        },
    }
}

/// `v` when a JavaScript number holds it exactly, `None` otherwise.
pub fn safe_offset(v: u64) -> (r: Option<u64>)
    ensures
        v <= MAX_SAFE_INTEGER ==> r == Some(v),
        v > MAX_SAFE_INTEGER ==> r is None,
{
    if v <= MAX_SAFE_INTEGER {
        Some(v)
    } else {
        None
    }
}

/// The byte range `[start, end)` that a read of `len` bytes at `position`
/// asks the blob for, or `None` when either end is not a safe JavaScript
/// number. The end saturates at `u64::MAX` before that check.
pub fn read_range(position: u64, len: usize) -> (r: Option<(u64, u64)>)
    ensures
        ({
            let end = if position + len <= u64::MAX {
                position + len
            } else {
                u64::MAX as int
            };
            &&& position <= MAX_SAFE_INTEGER && end <= MAX_SAFE_INTEGER ==> r == Some((position, end as u64))
            &&& !(position <= MAX_SAFE_INTEGER && end <= MAX_SAFE_INTEGER) ==> r is None
        }),
{
    let l = len as u64;
    let end = if position > u64::MAX - l {
        u64::MAX
    } else {
        position + l
    };
    match safe_offset(position) {
        None => None,
        Some(s) => match safe_offset(end) {
            None => None,
            Some(e) => Some((s, e)),
        },
    }
}

/// The position after `n` more bytes were read at `position`, or `None` on
/// overflow.
pub fn advance(position: u64, n: usize) -> (r: Option<u64>)
    ensures
        position + n <= u64::MAX ==> r == Some((position + n) as u64),
        position + n > u64::MAX ==> r is None,
{
    let m = n as u64;
    if position > u64::MAX - m {
        None
    } else {
        Some(position + m)
    }
}

} // verus!

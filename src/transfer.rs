//! The decisions of a transfer: the count of bytes written, and the pauses
//! between the downloads of one source.
use vstd::prelude::*;

verus! {

/// Seconds to wait between two downloads from DAT-o-Matic.
pub const NOINTRO_PAUSE_SECONDS: u64 = 30;

/// Seconds to wait between two downloads from Redump.
pub const REDUMP_PAUSE_SECONDS: u64 = 30;

/// The count of bytes written once a chunk of `chunk_len` bytes follows
/// `written`; `None` where it would not fit in 64 bits.
pub fn add_written(written: u64, chunk_len: usize) -> (r: Option<u64>)
    ensures
        written + chunk_len <= u64::MAX ==> r == Some((written + chunk_len) as u64),
        written + chunk_len > u64::MAX ==> r is None,
{
    written.checked_add(chunk_len as u64)
}

/// The seconds to wait after the download at `index` of `count`: `pause`
/// between two downloads, none after the last one.
pub fn pause_after(index: usize, count: usize, pause: u64) -> (r: u64)
    ensures
        r == if index + 1 < count { pause } else { 0 },
{
    if index < count && index + 1 < count {
        pause
    } else {
        0
    }
}

/// The length to report for a response: the declared one, or 0 for unknown.
pub fn reported_length(declared: Option<u64>) -> (r: u64)
    ensures
        r == match declared {
            Some(n) => n,
            None => 0,
        },
{
    match declared {
        Some(n) => n,
        None => 0,
    }
}

} // verus!

//! How much may wait to be written.
use vstd::prelude::*;

verus! {

/// How many lines may wait to be written.
pub const MAX_QUEUED_LINES: usize = 1024;

/// How many bytes may wait to be written.
pub const MAX_QUEUED_BYTES: usize = 8_388_608;

/// The bytes that wait once another line does; none where they would be too
/// many, and the line is refused.
pub open spec fn enqueued(queued: int, line: int) -> Option<int> {
    if queued + line <= MAX_QUEUED_BYTES {
        Some(queued + line)
    } else {
        None
    }
}

/// The bytes that wait once another line does.
pub fn enqueue(queued_bytes: usize, line_bytes: usize) -> (result: Option<usize>)
    ensures
        match result {
            Some(total) => enqueued(queued_bytes as int, line_bytes as int) == Some(total as int),
            None => enqueued(queued_bytes as int, line_bytes as int) is None,
        },
{
    match queued_bytes.checked_add(line_bytes) {
        Some(total) => if total <= MAX_QUEUED_BYTES {
            Some(total)
        } else {
            None
        },
        None => None,
    }
}

/// What waits never takes more than its share, and a line that was taken and
/// then written leaves as many bytes as before.
pub proof fn law_queue_is_bounded(queued: int, line: int)
    requires
        0 <= queued <= MAX_QUEUED_BYTES,
        0 <= line,
    ensures
        match enqueued(queued, line) {
            Some(total) => queued <= total <= MAX_QUEUED_BYTES && total - line == queued,
            None => queued + line > MAX_QUEUED_BYTES,
        },
{
}

} // verus!

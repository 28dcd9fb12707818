//! Lines of a dump, before they are decoded.
//!
//! A dump is one JSON array, written with one record on each line. A line is
//! therefore a record followed by the comma that parts it from the next, or
//! by nothing; the lines that open and close the array hold no record.

use crate::text::{chars_of, string_of_range};
use vstd::prelude::*;
use vstd::utf8::encode_utf8;

verus! {

/// The least number of bytes that a line with a record has.
pub const MIN_RECORD_BYTES: usize = 5;

/// The text of the record on `line`: the line without the comma at its end,
/// if it has one. A line of fewer than `MIN_RECORD_BYTES` bytes holds no
/// record.
pub open spec fn framed(line: Seq<char>) -> Option<Seq<char>> {
    if encode_utf8(line).len() < MIN_RECORD_BYTES {
        None
    } else if line.len() > 0 && line.last() == ',' {
        Some(line.drop_last())
    } else {
        Some(line)
    }
}

/// The text of the record on `line`, or nothing where the line is too short
/// to hold one.
///
/// The length is that of the line as it was read, in bytes. At most one
/// comma is taken off.
pub fn frame_line(line: &str) -> (record: Option<String>)
    ensures
        record is None <==> encode_utf8(line@).len() < MIN_RECORD_BYTES,
        match record {
            Some(text) => framed(line@) == Some(text@),
            None => framed(line@) is None,
        },
{
    if line.as_bytes().len() < MIN_RECORD_BYTES {
        return None;
    }
    let v = chars_of(line);
    let n = v.len();
    if n > 0 && v[n - 1] == ',' {
        Some(string_of_range(&v, 0, n - 1))
    } else {
        assert(v@.subrange(0, n as int) == v@);
        Some(string_of_range(&v, 0, n))
    }
}

} // verus!

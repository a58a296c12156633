//! Bounds checks for the command line that the operating system reports for the client.
use vstd::prelude::*;
use crate::lcu::LcuError;

verus! {

/// Size of the `UNICODE_STRING` header that precedes the command line (64-bit layout).
pub const UNICODE_STRING_SIZE: usize = 16;

/// Whether the command line described by a `UNICODE_STRING` lies inside the buffer that the
/// query returned: a non-empty, even byte length within the maximum, a 2-byte aligned pointer
/// after the header, and an end within the returned bytes.
pub open spec fn spec_string_range(base: usize, bytes: usize, pointer: usize, length: usize, maximum: usize) -> Option<
    (int, int),
> {
    if pointer < base {
        None
    } else {
        let start = pointer - base;
        let end = start + length;
        if end > usize::MAX || length == 0 || length % 2 != 0 || maximum < length || pointer % 2 != 0
            || start < UNICODE_STRING_SIZE || end > bytes {
            None
        } else {
            Some((start, end))
        }
    }
}

/// The byte range of the command line inside the returned buffer.
pub fn string_range(base: usize, bytes: usize, pointer: usize, length: usize, maximum: usize) -> (r: Result<
    std::ops::Range<usize>,
    LcuError,
>)
    ensures
        match r {
            Ok(range) => spec_string_range(base, bytes, pointer, length, maximum) == Some(
                (range.start as int, range.end as int),
            ),
            Err(e) => spec_string_range(base, bytes, pointer, length, maximum) is None && e
                == LcuError::CommandLineUnavailable,
        },
{
    if pointer < base {
        return Err(LcuError::CommandLineUnavailable);
    }
    let start = pointer - base;
    let end = match start.checked_add(length) {
        Some(e) => e,
        None => return Err(LcuError::CommandLineUnavailable),
    };
    if length == 0 || length % 2 != 0 || maximum < length || pointer % 2 != 0 || start < UNICODE_STRING_SIZE
        || end > bytes {
        return Err(LcuError::CommandLineUnavailable);
    }
    Ok(start..end)
}

} // verus!

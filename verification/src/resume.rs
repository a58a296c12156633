//! Resuming an interrupted replay download with a byte range and a strong validator.
use vstd::prelude::*;
use vstd::utf8::encode_utf8;
use crate::text::{chars_of, find_char, has_prefix, owned, parse_decimal, position_of, slice_chars, spec_parse_decimal, starts_with, tail};

verus! {

/// Where an interrupted download stands: the bytes already on disk and the entity tag they
/// were fetched under.
pub struct Resume {
    pub offset: u64,
    pub validator: String,
}

/// A strong entity tag that may be sent back in `If-Range`: quoted, at most 1024 bytes,
/// and on one line.
pub open spec fn spec_valid_validator(value: Seq<char>) -> bool {
    &&& value.len() > 0
    &&& value[0] == '"'
    &&& value[value.len() - 1] == '"'
    &&& encode_utf8(value).len() <= 1024
    &&& forall|i: int| 0 <= i < value.len() ==> #[trigger] value[i] != '\r' && value[i] != '\n'
}

/// Whether `value` may be kept as the validator of a partial download.
#[verifier::loop_isolation(false)]
pub fn valid_validator(value: &str) -> (r: bool)
    ensures
        r == spec_valid_validator(value@),
{
    let chars = chars_of(value);
    let n = chars.len();
    if n == 0 || chars[0] != '"' || chars[n - 1] != '"' || value.as_bytes().len() > 1024 {
        return false;
    }
    let mut i: usize = 0;
    while i < n
        invariant
            n == chars@.len(),
            i <= n,
            forall|j: int| 0 <= j < i ==> #[trigger] chars@[j] != '\r' && chars@[j] != '\n',
        decreases n - i,
    {
        if chars[i] == '\r' || chars[i] == '\n' {
            return false;
        }
        i = i + 1;
    }
    true
}

/// A resumable download: something is already on disk and its validator is strong.
pub fn resume_from(offset: u64, validator: String) -> (r: Option<Resume>)
    ensures
        match r {
            Some(s) => offset > 0 && spec_valid_validator(validator@) && s.offset == offset
                && s.validator == validator,
            None => !(offset > 0 && spec_valid_validator(validator@)),
        },
{
    if offset > 0 && valid_validator(validator.as_str()) {
        Some(Resume { offset, validator })
    } else {
        None
    }
}

pub open spec fn bytes_prefix() -> Seq<char> {
    seq!['b', 'y', 't', 'e', 's', ' ']
}

/// The total size announced by a `Content-Range` value `bytes START-END/TOTAL`, accepted only
/// when the range starts at `offset` and runs to the last byte of the entity.
pub open spec fn spec_parse_range(value: Seq<char>, offset: u64) -> Option<u64> {
    if !has_prefix(value, bytes_prefix()) {
        None
    } else {
        let rest = value.subrange(6, value.len() as int);
        match position_of(rest, '/') {
            None => None,
            Some(p) => {
                let range = rest.subrange(0, p);
                let total = rest.subrange(p + 1, rest.len() as int);
                match position_of(range, '-') {
                    None => None,
                    Some(q) => {
                        let start = spec_parse_decimal(range.subrange(0, q), u64::MAX);
                        let end = spec_parse_decimal(range.subrange(q + 1, range.len() as int), u64::MAX);
                        let size = spec_parse_decimal(total, u64::MAX);
                        if start is Some && end is Some && size is Some && start->0 == offset
                            && start->0 <= end->0 && end->0 + 1 == size->0 {
                            Some(size->0)
                        } else {
                            None
                        }
                    },
                }
            },
        }
    }
}

/// Law: an accepted `Content-Range` announces more bytes than were already received: the
/// range starts at the resume offset and ends at the entity's last byte, so the total exceeds
/// the offset.
pub proof fn lemma_range_total_exceeds_offset(value: Seq<char>, offset: u64)
    ensures
        spec_parse_range(value, offset) matches Some(total) ==> total > offset,
{
}

/// Checks a `Content-Range` header value against the resume offset and returns the total size.
pub fn parse_range(value: &str, offset: u64) -> (r: Result<u64, String>)
    ensures
        match r {
            Ok(total) => spec_parse_range(value@, offset) == Some(total),
            Err(e) => spec_parse_range(value@, offset) is None && e@ == "replay.incomplete"@,
        },
{
    match parse_range_chars(chars_of(value).as_slice(), offset) {
        Some(total) => Ok(total),
        None => Err(owned("replay.incomplete")),
    }
}

fn parse_range_chars(v: &[char], offset: u64) -> (r: Option<u64>)
    ensures
        r == spec_parse_range(v@, offset),
{
    let prefix = vec!['b', 'y', 't', 'e', 's', ' '];
    assert(prefix@ =~= bytes_prefix());
    if !starts_with(v, prefix.as_slice()) {
        return None;
    }
    let rest = tail(v, 6);
    let p = match find_char(rest.as_slice(), '/') {
        Some(p) => p,
        None => return None,
    };
    let range = slice_chars(rest.as_slice(), 0, p);
    let total = tail(rest.as_slice(), p + 1);
    let q = match find_char(range.as_slice(), '-') {
        Some(q) => q,
        None => return None,
    };
    let start_text = slice_chars(range.as_slice(), 0, q);
    let end_text = tail(range.as_slice(), q + 1);
    let start = parse_decimal(start_text.as_slice(), u64::MAX);
    let end = parse_decimal(end_text.as_slice(), u64::MAX);
    let size = parse_decimal(total.as_slice(), u64::MAX);
    match (start, end, size) {
        (Some(a), Some(b), Some(t)) => {
            if a == offset && a <= b && b < u64::MAX && b + 1 == t {
                Some(t)
            } else {
                None
            }
        },
        _ => None,
    }
}

/// HTTP status codes that decide how a replay response is read.
pub const STATUS_OK: u16 = 200;
pub const STATUS_PARTIAL_CONTENT: u16 = 206;

/// How a replay download response continues: `(first byte, expected total)`.
pub open spec fn spec_response(
    status: u16,
    content_length: Option<u64>,
    content_range: Option<Seq<char>>,
    etag: Option<Seq<char>>,
    resume: Option<(u64, Seq<char>)>,
) -> Option<(u64, Option<u64>)> {
    if status == STATUS_OK {
        Some((0, content_length))
    } else if status != STATUS_PARTIAL_CONTENT {
        None
    } else {
        match (resume, content_range) {
            (Some((offset, validator)), Some(range)) => match spec_parse_range(range, offset) {
                Some(total) => if etag == Some(validator) {
                    Some((offset, Some(total)))
                } else {
                    None
                },
                None => None,
            },
            _ => None,
        }
    }
}

pub open spec fn resume_view(r: Option<&Resume>) -> Option<(u64, Seq<char>)> {
    match r {
        Some(s) => Some((s.offset, s.validator@)),
        None => None,
    }
}

pub open spec fn str_view(r: Option<&str>) -> Option<Seq<char>> {
    match r {
        Some(s) => Some(s@),
        None => None,
    }
}

/// Decides from a response's status and headers whether the download restarts from zero or
/// continues the partial file. A partial response must carry the range that continues the
/// file and the same validator; a header that is not text is passed as `None`.
pub fn response(
    status: u16,
    content_length: Option<u64>,
    content_range: Option<&str>,
    etag: Option<&str>,
    resume: Option<&Resume>,
) -> (r: Result<(u64, Option<u64>), String>)
    ensures
        match r {
            Ok(v) => spec_response(
                status,
                content_length,
                str_view(content_range),
                str_view(etag),
                resume_view(resume),
            ) == Some(v),
            Err(e) => spec_response(
                status,
                content_length,
                str_view(content_range),
                str_view(etag),
                resume_view(resume),
            ) is None && e@ == "replay.incomplete"@,
        },
{
    if status == STATUS_OK {
        return Ok((0, content_length));
    }
    if status != STATUS_PARTIAL_CONTENT {
        return Err(owned("replay.incomplete"));
    }
    let resume = match resume {
        Some(r) => r,
        None => return Err(owned("replay.incomplete")),
    };
    let range = match content_range {
        Some(r) => r,
        None => return Err(owned("replay.incomplete")),
    };
    let total = match parse_range(range, resume.offset) {
        Ok(t) => t,
        Err(e) => return Err(e),
    };
    let matches = match etag {
        Some(tag) => crate::text::str_eq(tag, resume.validator.as_str()),
        None => false,
    };
    if !matches {
        return Err(owned("replay.incomplete"));
    }
    Ok((resume.offset, Some(total)))
}

} // verus!

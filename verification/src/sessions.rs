//! Rules for editing play sessions: titles, moves, merges and splits.
use vstd::prelude::*;
use crate::domain::SessionSegment;
use crate::text::{chars_of, owned, slice_chars, str_eq, string_of};

verus! {

/// `char::is_whitespace`: the Unicode `White_Space` property.
pub open spec fn is_whitespace(c: char) -> bool {
    ||| '\u{9}' <= c <= '\u{d}'
    ||| c == ' '
    ||| c == '\u{85}'
    ||| c == '\u{a0}'
    ||| c == '\u{1680}'
    ||| '\u{2000}' <= c <= '\u{200a}'
    ||| c == '\u{2028}'
    ||| c == '\u{2029}'
    ||| c == '\u{202f}'
    ||| c == '\u{205f}'
    ||| c == '\u{3000}'
}

/// `char::is_control`: the Unicode general category `Cc`.
pub open spec fn is_control(c: char) -> bool {
    c <= '\u{1f}' || ('\u{7f}' <= c && c <= '\u{9f}')
}

fn whitespace(c: char) -> (r: bool)
    ensures
        r == is_whitespace(c),
{
    ('\u{9}' <= c && c <= '\u{d}') || c == ' ' || c == '\u{85}' || c == '\u{a0}' || c == '\u{1680}' || (
    '\u{2000}' <= c && c <= '\u{200a}') || c == '\u{2028}' || c == '\u{2029}' || c == '\u{202f}' || c
        == '\u{205f}' || c == '\u{3000}'
}

/// `s` without leading white space.
pub open spec fn trim_start(s: Seq<char>) -> Seq<char>
    decreases s.len(),
{
    if s.len() > 0 && is_whitespace(s[0]) {
        trim_start(s.subrange(1, s.len() as int))
    } else {
        s
    }
}

/// `s` without trailing white space.
pub open spec fn trim_end(s: Seq<char>) -> Seq<char>
    decreases s.len(),
{
    if s.len() > 0 && is_whitespace(s.last()) {
        trim_end(s.drop_last())
    } else {
        s
    }
}

/// `str::trim`.
pub open spec fn trim(s: Seq<char>) -> Seq<char> {
    trim_end(trim_start(s))
}

/// A session title: after trimming, 1 to 80 characters and no control character.
pub open spec fn valid_title(t: Seq<char>) -> bool {
    &&& 0 < t.len() <= 80
    &&& forall|i: int| 0 <= i < t.len() ==> !is_control(#[trigger] t[i])
}

/// A name that a player gives: not blank, at most 80 characters and no control character,
/// counted before trimming.
pub open spec fn valid_name(name: Seq<char>) -> bool {
    &&& trim(name).len() > 0
    &&& name.len() <= 80
    &&& forall|i: int| 0 <= i < name.len() ==> !is_control(#[trigger] name[i])
}

/// Whether `name` is a valid name.
pub fn name_ok(name: &str) -> (r: bool)
    ensures
        r == valid_name(name@),
{
    let v = chars_of(name);
    if trim_chars(v.as_slice()).len() == 0 || v.len() > 80 {
        return false;
    }
    let mut i: usize = 0;
    while i < v.len()
        invariant
            i <= v@.len(),
            v@ == name@,
            trim(name@).len() > 0 && v@.len() <= 80,
            forall|j: int| 0 <= j < i ==> !is_control(#[trigger] v@[j]),
        decreases v.len() - i,
    {
        let c = v[i];
        if c <= '\u{1f}' || ('\u{7f}' <= c && c <= '\u{9f}') {
            assert(is_control(v@[i as int]));
            return false;
        }
        i = i + 1;
    }
    true
}

pub(crate) fn trim_chars(s: &[char]) -> (r: Vec<char>)
    ensures
        r@ == trim(s@),
{
    let mut a: usize = 0;
    assert(s@.subrange(0, s@.len() as int) =~= s@);
    while a < s.len() && whitespace(s[a])
        invariant
            a <= s.len(),
            trim_start(s@.subrange(a as int, s@.len() as int)) == trim_start(s@),
        decreases s.len() - a,
    {
        assert(s@.subrange(a as int, s@.len() as int).subrange(1, s@.len() - a) =~= s@.subrange(a + 1, s@.len() as int));
        a = a + 1;
    }
    assert(trim_start(s@) == s@.subrange(a as int, s@.len() as int));
    let mut b: usize = s.len();
    while b > a && whitespace(s[b - 1])
        invariant
            a <= b <= s.len(),
            trim_end(s@.subrange(a as int, b as int)) == trim(s@),
            trim_start(s@) == s@.subrange(a as int, s@.len() as int),
        decreases b,
    {
        assert(s@.subrange(a as int, b as int).drop_last() =~= s@.subrange(a as int, b - 1));
        b = b - 1;
    }
    slice_chars(s, a, b)
}

#[verifier::loop_isolation(false)]
/// The title a session is saved under: the trimmed text, when it is a valid title.
pub fn title(value: &str) -> (r: Result<String, String>)
    ensures
        match r {
            Ok(t) => valid_title(trim(value@)) && t@ == trim(value@),
            Err(e) => !valid_title(trim(value@)) && e@ == "session.invalidTitle"@,
        },
{
    let t = trim_chars(chars_of(value).as_slice());
    if t.len() == 0 || t.len() > 80 {
        return Err(owned("session.invalidTitle"));
    }
    let mut i: usize = 0;
    while i < t.len()
        invariant
            i <= t@.len(),
            forall|j: int| 0 <= j < i ==> !is_control(#[trigger] t@[j]),
        decreases t.len() - i,
    {
        let c = t[i];
        if c <= '\u{1f}' || ('\u{7f}' <= c && c <= '\u{9f}') {
            return Err(owned("session.invalidTitle"));
        }
        i = i + 1;
    }
    Ok(string_of(t.as_slice()))
}

/// `items` holds 1 to `limit` names, none of them twice.
pub open spec fn distinct_batch(items: Seq<String>, limit: int) -> bool {
    &&& 0 < items.len() <= limit
    &&& forall|i: int, j: int|
        0 <= i < items.len() && 0 <= j < items.len() && i != j ==> #[trigger] items[i]@ != #[trigger] items[j]@
}

/// Whether `items` holds 1 to `limit` names, none of them twice.
pub fn is_distinct_batch(items: &[String], limit: usize) -> (r: bool)
    ensures
        r == distinct_batch(items@, limit as int),
{
    if items.len() == 0 || items.len() > limit {
        return false;
    }
    let mut i: usize = 0;
    while i < items.len()
        invariant
            i <= items@.len(),
            forall|a: int, b: int|
                0 <= a < i && 0 <= b < items@.len() && a != b ==> #[trigger] items@[a]@ != #[trigger] items@[b]@,
        decreases items.len() - i,
    {
        let mut j: usize = 0;
        while j < items.len()
            invariant
                i < items@.len(),
                j <= items@.len(),
                forall|b: int| 0 <= b < j && b != i ==> items@[i as int]@ != #[trigger] items@[b]@,
            decreases items.len() - j,
        {
            if j != i && str_eq(items[i].as_str(), items[j].as_str()) {
                return false;
            }
            j = j + 1;
        }
        i = i + 1;
    }
    true
}

/// The most matches one move takes.
pub const MOVE_LIMIT: usize = 500;

/// Refuses a move request that names no match, more than `MOVE_LIMIT`, or one match twice.
pub fn check_batch(observations: &[String]) -> (r: Result<(), String>)
    ensures
        r is Ok <==> distinct_batch(observations@, MOVE_LIMIT as int),
        r matches Err(e) ==> e@ == "session.changed"@,
{
    if is_distinct_batch(observations, MOVE_LIMIT) {
        Ok(())
    } else {
        Err(owned("session.changed"))
    }
}

/// A session's clock: when it started, its last activity, and when it ended (open when `None`).
#[derive(Clone, Copy, PartialEq, Eq, Structural, Debug)]
pub struct SessionClock {
    pub started_at: i64,
    pub last_activity: i64,
    pub ended_at: Option<i64>,
}

pub open spec fn max(a: i64, b: i64) -> i64 {
    if a >= b {
        a
    } else {
        b
    }
}

pub open spec fn min(a: i64, b: i64) -> i64 {
    if a <= b {
        a
    } else {
        b
    }
}

/// The clock of the session that absorbs `source` into `destination`: it starts with the
/// earlier start; it stays open if either was open, keeping the open one's activity clock,
/// and otherwise ends and was last active at the later of the two.
pub open spec fn spec_merged(source: SessionClock, destination: SessionClock) -> SessionClock {
    SessionClock {
        started_at: min(source.started_at, destination.started_at),
        last_activity: match (source.ended_at, destination.ended_at) {
            (None, _) => source.last_activity,
            (_, None) => destination.last_activity,
            _ => max(source.last_activity, destination.last_activity),
        },
        ended_at: match (source.ended_at, destination.ended_at) {
            (Some(x), Some(y)) => Some(max(x, y)),
            _ => None,
        },
    }
}

pub fn merged(source: SessionClock, destination: SessionClock) -> (r: SessionClock)
    ensures
        r == spec_merged(source, destination),
{
    let started_at = if source.started_at <= destination.started_at {
        source.started_at
    } else {
        destination.started_at
    };
    let last_activity = match (source.ended_at, destination.ended_at) {
        (None, _) => source.last_activity,
        (_, None) => destination.last_activity,
        _ => if source.last_activity >= destination.last_activity {
            source.last_activity
        } else {
            destination.last_activity
        },
    };
    let ended_at = match (source.ended_at, destination.ended_at) {
        (Some(x), Some(y)) => Some(if x >= y {
            x
        } else {
            y
        }),
        _ => None,
    };
    SessionClock { started_at, last_activity, ended_at }
}

/// Law: the merged session starts at the earlier start; when both parts have ended it was
/// last active at the later of their activities and ended at the later end, each the value of
/// one of the parts; when a part is still open the merged session stays open with that part's
/// activity clock (the source's when both are open).
pub proof fn lemma_merge_clock(source: SessionClock, destination: SessionClock)
    ensures
        ({
            let m = spec_merged(source, destination);
            &&& m.started_at <= source.started_at && m.started_at <= destination.started_at
            &&& (m.started_at == source.started_at || m.started_at == destination.started_at)
            &&& (source.ended_at is Some && destination.ended_at is Some) ==> {
                &&& m.last_activity >= source.last_activity && m.last_activity >= destination.last_activity
                &&& (m.last_activity == source.last_activity || m.last_activity == destination.last_activity)
                &&& m.ended_at matches Some(e) && e >= source.ended_at->0 && e >= destination.ended_at->0
                    && (e == source.ended_at->0 || e == destination.ended_at->0)
            }
            &&& source.ended_at is None ==> m.last_activity == source.last_activity && m.ended_at is None
            &&& (source.ended_at is Some && destination.ended_at is None) ==> m.last_activity
                == destination.last_activity && m.ended_at is None
        }),
{
}

/// Law: merging never opens a closed pair nor closes an open one, and a merged session starts
/// no later than either part and, when closed, ends no earlier than either.
pub proof fn lemma_merge_bounds(source: SessionClock, destination: SessionClock)
    ensures
        ({
            let m = spec_merged(source, destination);
            &&& m.started_at <= source.started_at && m.started_at <= destination.started_at
            &&& (m.ended_at is None <==> (source.ended_at is None || destination.ended_at is None))
            &&& m.ended_at matches Some(e) ==> e >= source.ended_at->0 && e >= destination.ended_at->0
            &&& m.started_at == spec_merged(destination, source).started_at
            &&& m.ended_at == spec_merged(destination, source).ended_at
        }),
{
}

/// `i` is the first position of segment `id`.
pub open spec fn first_segment(segments: Seq<SessionSegment>, id: Seq<char>, i: int) -> bool {
    &&& 0 <= i < segments.len()
    &&& segments[i].id@ == id
    &&& forall|j: int| 0 <= j < i ==> segments[j].id@ != id
}

/// Where a session is split: the first position of `from_segment`, which must not be the
/// first segment. While the session is open, the segment that automatic recording last
/// touched (`latest`) must stay in the tail, so new play keeps flowing to the open session.
pub open spec fn spec_split_point(
    segments: Seq<SessionSegment>,
    from_segment: Seq<char>,
    open: bool,
    latest: Option<Seq<char>>,
) -> Result<int, Seq<char>> {
    if !(exists|i: int| first_segment(segments, from_segment, i)) {
        Err("session.changed"@)
    } else {
        let i = choose|i: int| first_segment(segments, from_segment, i);
        if i == 0 {
            Err("session.changed"@)
        } else if open && (latest matches Some(l) && exists|j: int| 0 <= j < i && #[trigger] segments[j].id@ == l) {
            Err("session.activePrefix"@)
        } else {
            Ok(i)
        }
    }
}

proof fn lemma_first_segment_unique(segments: Seq<SessionSegment>, id: Seq<char>, a: int, b: int)
    requires
        first_segment(segments, id, a),
        first_segment(segments, id, b),
    ensures
        a == b,
{
    if a < b {
        assert(segments[a].id@ != id);
    }
    if b < a {
        assert(segments[b].id@ != id);
    }
}

/// Finds where a session is split; see `spec_split_point`.
#[verifier::loop_isolation(false)]
pub fn split_point(segments: &[SessionSegment], from_segment: &str, open: bool, latest: Option<&str>) -> (r:
    Result<usize, String>)
    ensures
        match r {
            Ok(i) => spec_split_point(segments@, from_segment@, open, crate::resume::str_view(latest))
                == Ok::<int, Seq<char>>(i as int),
            Err(e) => spec_split_point(segments@, from_segment@, open, crate::resume::str_view(latest))
                == Err::<int, Seq<char>>(e@),
        },
{
    let mut index: usize = 0;
    while index < segments.len()
        invariant
            index <= segments@.len(),
            forall|j: int| 0 <= j < index ==> (#[trigger] segments@[j]).id@ != from_segment@,
        decreases segments.len() - index,
    {
        if crate::text::str_eq(segments[index].id.as_str(), from_segment) {
            break;
        }
        index = index + 1;
    }
    if index == segments.len() {
        return Err(owned("session.changed"));
    }
    proof {
        assert(first_segment(segments@, from_segment@, index as int));
        let k = choose|i: int| first_segment(segments@, from_segment@, i);
        lemma_first_segment_unique(segments@, from_segment@, k, index as int);
    }
    if index == 0 {
        return Err(owned("session.changed"));
    }
    if open {
        if let Some(last) = latest {
            let mut j: usize = 0;
            while j < index
                invariant
                    j <= index,
                    forall|m: int| 0 <= m < j ==> (#[trigger] segments@[m]).id@ != last@,
                decreases index - j,
            {
                if crate::text::str_eq(segments[j].id.as_str(), last) {
                    return Err(owned("session.activePrefix"));
                }
                j = j + 1;
            }
        }
    }
    Ok(index)
}

} // verus!

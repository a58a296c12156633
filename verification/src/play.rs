//! Paging the play history: which page a request gets, how its filters are named, and which
//! matches a keyword search finds.
use vstd::prelude::*;
use crate::domain::{PlaySource, SessionScope};
use crate::sessions::{trim, trim_chars};
use crate::text::{chars_of, decimal, decimal_text, owned, str_eq, string_of};

verus! {

/// Sessions per page of play history.
pub const PAGE_SIZE: u32 = 20;

/// The last page that holds sessions (the first when there are none).
pub open spec fn last_page(total_sessions: u32) -> u32 {
    if total_sessions == 0 {
        0
    } else {
        ((total_sessions - 1) / (PAGE_SIZE as int)) as u32
    }
}

/// The page a request gets: the one it asks for, or the last page when it asks for a later
/// one (after sessions were removed, say).
pub fn page_index(requested: u32, total_sessions: u32) -> (r: u32)
    ensures
        r == if requested <= last_page(total_sessions) {
            requested
        } else {
            last_page(total_sessions)
        },
{
    let last = if total_sessions == 0 {
        0
    } else {
        (total_sessions - 1) / PAGE_SIZE
    };
    if requested <= last {
        requested
    } else {
        last
    }
}

/// The number of sessions before a page.
pub fn page_offset(page: u32) -> (r: i64)
    ensures
        r == page * PAGE_SIZE,
{
    assert(0 <= page * 20 <= 4294967295 * 20) by (nonlinear_arith)
        requires
            0 <= page <= 4294967295,
    ;
    page as i64 * PAGE_SIZE as i64
}

/// How the scope filter is named in queries.
pub fn scope_name(scope: SessionScope) -> (r: &'static str)
    ensures
        r@ == match scope {
            SessionScope::All => "all"@,
            SessionScope::Current => "current"@,
            SessionScope::History => "history"@,
        },
{
    match scope {
        SessionScope::All => "all",
        SessionScope::Current => "current",
        SessionScope::History => "history",
    }
}

/// How the source filter is named in queries.
pub fn source_name(source: PlaySource) -> (r: &'static str)
    ensures
        r@ == match source {
            PlaySource::All => "all"@,
            PlaySource::Automatic => "automatic"@,
            PlaySource::Manual => "manual"@,
        },
{
    match source {
        PlaySource::All => "all",
        PlaySource::Automatic => "automatic",
        PlaySource::Manual => "manual",
    }
}

/// A page that a request gets starts at a session that exists, unless there are none; and a
/// request for an existing page gets that page.
pub proof fn lemma_page_exists(requested: u32, total_sessions: u32)
    ensures
        ({
            let page = if requested <= last_page(total_sessions) {
                requested
            } else {
                last_page(total_sessions)
            };
            total_sessions > 0 ==> page * PAGE_SIZE < total_sessions
        }),
        requested * PAGE_SIZE < total_sessions ==> requested <= last_page(total_sessions),
{
    if total_sessions > 0 {
        let last = last_page(total_sessions);
        assert(last * 20 <= total_sessions - 1) by (nonlinear_arith)
            requires
                last == (total_sessions - 1) / 20,
                total_sessions > 0,
        ;
        assert(requested <= last ==> requested * 20 <= last * 20) by (nonlinear_arith);
    }
    if requested * 20 < total_sessions {
        assert(requested <= (total_sessions - 1) / 20) by (nonlinear_arith)
            requires
                requested * 20 < total_sessions,
                total_sessions > 0,
        ;
    }
}

/// `str::to_lowercase`: the full Unicode lower-case mapping of a text.
pub uninterp spec fn unicode_lower(s: Seq<char>) -> Seq<char>;

/// Lower-cases a text with `str::to_lowercase`; the result is `unicode_lower` of the text.
#[verifier::external_body]
fn to_lowercase(s: &str) -> (r: String)
    ensures
        r@ == unicode_lower(s@),
{
    s.to_lowercase()
}

/// `parts` joined with `sep` between each two.
pub open spec fn join(parts: Seq<Seq<char>>, sep: Seq<char>) -> Seq<char>
    decreases parts.len(),
{
    if parts.len() == 0 {
        Seq::empty()
    } else if parts.len() == 1 {
        parts[0]
    } else {
        join(parts.drop_last(), sep) + sep + parts.last()
    }
}

/// `needle` occurs in `hay`.
pub open spec fn contains(hay: Seq<char>, needle: Seq<char>) -> bool {
    exists|i: int| 0 <= i <= hay.len() - needle.len() && #[trigger] hay.subrange(i, i + needle.len()) == needle
}

fn join_chars(parts: &Vec<String>, sep: char) -> (r: Vec<char>)
    ensures
        r@ == join(parts@.map_values(|p: String| p@), seq![sep]),
{
    let ghost views = parts@.map_values(|p: String| p@);
    let mut out: Vec<char> = Vec::new();
    let mut i: usize = 0;
    assert(views.take(0) =~= Seq::<Seq<char>>::empty());
    while i < parts.len()
        invariant
            i <= parts@.len(),
            views == parts@.map_values(|p: String| p@),
            out@ == join(views.take(i as int), seq![sep]),
        decreases parts.len() - i,
    {
        let ghost before = out@;
        if i > 0 {
            out.push(sep);
        }
        let c = chars_of(parts[i].as_str());
        let mut k: usize = 0;
        while k < c.len()
            invariant
                k <= c@.len(),
                out@ == (if i > 0 {
                    before + seq![sep]
                } else {
                    before
                }) + c@.take(k as int),
            decreases c.len() - k,
        {
            out.push(c[k]);
            proof {
                assert(c@.take(k + 1) =~= c@.take(k as int).push(c@[k as int]));
            }
            k = k + 1;
        }
        proof {
            assert(c@.take(c@.len() as int) =~= c@);
            assert(views.take(i + 1).drop_last() =~= views.take(i as int));
            assert(views.take(i + 1).last() == c@);
            if i == 0 {
                assert(views.take(1).len() == 1);
                assert(out@ =~= join(views.take(1), seq![sep]));
            } else {
                assert(out@ =~= join(views.take(i + 1), seq![sep]));
            }
        }
        i = i + 1;
    }
    assert(views.take(parts@.len() as int) =~= views);
    out
}

pub(crate) fn contains_chars(hay: &[char], needle: &[char]) -> (r: bool)
    ensures
        r == contains(hay@, needle@),
{
    let n = hay.len();
    if needle.len() > n {
        return false;
    }
    let mut i: usize = 0;
    while i <= hay.len() - needle.len()
        invariant
            n == hay@.len(),
            needle@.len() <= hay@.len(),
            i <= hay@.len() - needle@.len() + 1,
            forall|j: int| 0 <= j < i ==> #[trigger] hay@.subrange(j, j + needle@.len()) != needle@,
        decreases hay.len() - needle.len() + 1 - i,
    {
        let mut k: usize = 0;
        while k < needle.len()
            invariant
                n == hay@.len(),
                needle@.len() <= hay@.len(),
                i <= hay@.len() - needle@.len(),
                k <= needle@.len(),
                forall|m: int| 0 <= m < k ==> hay@[i + m] == needle@[m],
            ensures
                k <= needle@.len(),
                forall|m: int| 0 <= m < k ==> hay@[i + m] == needle@[m],
                k == needle@.len() || hay@[i + k] != needle@[k as int],
            decreases needle.len() - k,
        {
            let at = i + k;
            if hay[at] != needle[k] {
                break;
            }
            k = k + 1;
        }
        if k == needle.len() {
            assert(hay@.subrange(i as int, i + needle@.len()) =~= needle@);
            return true;
        }
        assert(hay@.subrange(i as int, i + needle@.len())[k as int] != needle@[k as int]);
        i = i + 1;
    }
    false
}

/// The text a keyword search looks for: the query, trimmed and lower-cased.
pub fn search_text(query: &str) -> (r: String)
    ensures
        r@ == unicode_lower(trim(query@)),
{
    let t = string_of(trim_chars(chars_of(query).as_slice()).as_slice());
    to_lowercase(t.as_str())
}

/// The text that a note contributes to the search: its body and its tags.
pub fn note_text(body: &str, tags: &Vec<String>) -> (r: String)
    ensures
        r@ == body@ + " "@ + join(tags@.map_values(|t: String| t@), " "@),
{
    let mut r = owned(body);
    r.append(" ");
    let joined = join_chars(tags, ' ');
    proof {
        reveal_strlit(" ");
        assert(seq![' '] =~= " "@);
    }
    r.append(string_of(joined.as_slice()).as_str());
    r
}

/// The fields a match is searched in: its id, queue, account, session title, the champion's
/// name (its number when the name is unknown) and the texts of its notes.
pub fn match_fields(
    game_id: &str,
    queue_name: &str,
    riot_id: &str,
    title: &str,
    champion: u32,
    champion_name: Option<&str>,
    notes: &Vec<String>,
) -> (r: Vec<String>)
    ensures
        r@.map_values(|f: String| f@) == seq![
            game_id@,
            queue_name@,
            riot_id@,
            title@,
            match champion_name {
                Some(n) => n@,
                None => decimal(champion as nat),
            },
            join(notes@.map_values(|n: String| n@), " "@),
        ],
{
    let mut r: Vec<String> = Vec::new();
    r.push(owned(game_id));
    r.push(owned(queue_name));
    r.push(owned(riot_id));
    r.push(owned(title));
    r.push(
        match champion_name {
            Some(n) => owned(n),
            None => decimal_text(champion as u64),
        },
    );
    let joined = join_chars(notes, ' ');
    proof {
        reveal_strlit(" ");
        assert(seq![' '] =~= " "@);
    }
    r.push(string_of(joined.as_slice()));
    assert(r@.map_values(|f: String| f@) =~= seq![
        game_id@,
        queue_name@,
        riot_id@,
        title@,
        match champion_name {
            Some(n) => n@,
            None => decimal(champion as nat),
        },
        join(notes@.map_values(|n: String| n@), " "@),
    ]);
    r
}

/// Whether the keyword search `text` finds a match whose lower-cased, joined fields are
/// `lowered`: an empty search finds every match.
pub fn found_in(text: &str, lowered: &str) -> (r: bool)
    ensures
        r == (text@.len() == 0 || contains(lowered@, text@)),
{
    let needle = chars_of(text);
    if needle.len() == 0 {
        return true;
    }
    contains_chars(chars_of(lowered).as_slice(), needle.as_slice())
}

/// A match is found by the keyword search `text` (trimmed and lower-cased, see
/// `search_text`) when there is none, or when its fields, joined by spaces and lower-cased,
/// contain it.
pub fn text_matches(text: &str, fields: &Vec<String>) -> (r: bool)
    ensures
        r == (text@.len() == 0 || contains(unicode_lower(join(fields@.map_values(|f: String| f@), " "@)), text@)),
{
    let joined = string_of(join_chars(fields, ' ').as_slice());
    proof {
        reveal_strlit(" ");
        assert(seq![' '] =~= " "@);
    }
    let lower = to_lowercase(joined.as_str());
    found_in(text, lower.as_str())
}

/// The filters of a play-history request, with what needs floating point or a match
/// document already decided per row (see `PlayRow`).
#[derive(Debug)]
pub struct PlayFilter {
    pub page: u32,
    pub scope: SessionScope,
    /// Only matches of this account.
    pub account: Option<String>,
    /// Only won (or only lost) matches; a match without a result is neither.
    pub win: Option<bool>,
    pub source: PlaySource,
    /// A keyword search is set (its result per row is `PlayRow::text_match`).
    pub text: bool,
    /// A player filter is set (its result per row is `PlayRow::player_match`).
    pub player: bool,
}

/// A recorded match as the play history filters it.
#[derive(Debug)]
pub struct PlayRow {
    pub session_id: String,
    pub account_id: String,
    /// The match's result for the account, once its data is in.
    pub win: Option<bool>,
    pub automatic: bool,
    pub manual: bool,
    /// The match started within the requested time range (or none was given).
    pub in_range: bool,
    /// The match is found by the keyword search.
    pub text_match: bool,
    /// The match is found by the player filter.
    pub player_match: bool,
}

/// A session as the play history lists it.
#[derive(Debug)]
pub struct SessionRow {
    pub id: String,
    pub open: bool,
}

/// A match passes every filter of the request.
pub open spec fn row_passes(f: PlayFilter, r: PlayRow) -> bool {
    &&& (f.account matches Some(a) ==> r.account_id@ == a@)
    &&& (f.win matches Some(w) ==> r.win == Some(w))
    &&& match f.source {
        PlaySource::All => true,
        PlaySource::Automatic => r.automatic,
        PlaySource::Manual => r.manual,
    }
    &&& r.in_range
    &&& (f.text ==> r.text_match)
    &&& (f.player ==> r.player_match)
}

/// Some match of session `id` passes the filters.
pub open spec fn has_passing(f: PlayFilter, rows: Seq<PlayRow>, id: Seq<char>) -> bool {
    exists|k: int| 0 <= k < rows.len() && row_passes(f, #[trigger] rows[k]) && rows[k].session_id@ == id
}

/// A session is listed: it is in the requested scope, and it is open or has a match that
/// passes the filters (an open session stays visible when every match is filtered out).
pub open spec fn listed_session(f: PlayFilter, rows: Seq<PlayRow>, s: SessionRow) -> bool {
    &&& match f.scope {
        SessionScope::All => true,
        SessionScope::Current => s.open,
        SessionScope::History => !s.open,
    }
    &&& (s.open || has_passing(f, rows, s.id@))
}

/// The positions of the listed sessions among the first `n`, in order.
pub open spec fn listed_sessions(f: PlayFilter, sessions: Seq<SessionRow>, rows: Seq<PlayRow>, n: int) -> Seq<int>
    decreases n,
{
    if n <= 0 {
        Seq::empty()
    } else if listed_session(f, rows, sessions[n - 1]) {
        listed_sessions(f, sessions, rows, n - 1).push(n - 1)
    } else {
        listed_sessions(f, sessions, rows, n - 1)
    }
}

/// The positions of the matches among the first `n` that pass the filters and belong to one
/// of the sessions at positions `shown`, in order.
pub open spec fn shown_matches(f: PlayFilter, sessions: Seq<SessionRow>, shown: Seq<int>, rows: Seq<PlayRow>, n: int) -> Seq<int>
    decreases n,
{
    if n <= 0 {
        Seq::empty()
    } else if row_passes(f, rows[n - 1]) && exists|j: int| 0 <= j < shown.len() && sessions[#[trigger] shown[j]].id@ == rows[n - 1].session_id@ {
        shown_matches(f, sessions, shown, rows, n - 1).push(n - 1)
    } else {
        shown_matches(f, sessions, shown, rows, n - 1)
    }
}

/// One page of play history, by positions in the lists it was built from.
#[derive(Debug)]
pub struct PlayPageRows {
    pub page: u32,
    pub total_sessions: u32,
    /// The sessions on the page.
    pub sessions: Vec<usize>,
    /// Their matches that pass the filters.
    pub matches: Vec<usize>,
}

/// The sessions a page shows: the listed ones from the page's first position, at most
/// `PAGE_SIZE`.
pub open spec fn page_window(listed: Seq<int>, page: u32) -> Seq<int> {
    let start = page * PAGE_SIZE;
    let end = if start + PAGE_SIZE <= listed.len() { start + PAGE_SIZE } else { listed.len() as int };
    if start <= listed.len() {
        listed.subrange(start, end)
    } else {
        Seq::empty()
    }
}

fn passes(f: &PlayFilter, r: &PlayRow) -> (b: bool)
    ensures
        b == row_passes(*f, *r),
{
    let account_ok = match &f.account {
        Some(a) => str_eq(r.account_id.as_str(), a.as_str()),
        None => true,
    };
    let win_ok = match f.win {
        Some(w) => match r.win {
            Some(x) => x == w,
            None => false,
        },
        None => true,
    };
    let source_ok = match f.source {
        PlaySource::All => true,
        PlaySource::Automatic => r.automatic,
        PlaySource::Manual => r.manual,
    };
    account_ok && win_ok && source_ok && r.in_range && (!f.text || r.text_match) && (!f.player || r.player_match)
}

fn session_listed(f: &PlayFilter, rows: &Vec<PlayRow>, s: &SessionRow) -> (b: bool)
    ensures
        b == listed_session(*f, rows@, *s),
{
    let scope_ok = match f.scope {
        SessionScope::All => true,
        SessionScope::Current => s.open,
        SessionScope::History => !s.open,
    };
    if !scope_ok {
        return false;
    }
    if s.open {
        return true;
    }
    let mut k: usize = 0;
    while k < rows.len()
        invariant
            k <= rows@.len(),
            match f.scope {
                SessionScope::All => true,
                SessionScope::Current => s.open,
                SessionScope::History => !s.open,
            },
            forall|m: int| 0 <= m < k ==> !(row_passes(*f, #[trigger] rows@[m]) && rows@[m].session_id@ == s.id@),
        decreases rows.len() - k,
    {
        if passes(f, &rows[k]) && str_eq(rows[k].session_id.as_str(), s.id.as_str()) {
            assert(row_passes(*f, rows@[k as int]) && rows@[k as int].session_id@ == s.id@);
            assert(has_passing(*f, rows@, s.id@));
            return true;
        }
        k = k + 1;
    }
    false
}

/// One page of play history: the sessions listed under the request's filters (as ordered in
/// `sessions`), the page clamped to the last one that holds sessions, its sessions, and their
/// matches that pass the filters (as ordered in `rows`).
pub fn play_page(f: &PlayFilter, sessions: &Vec<SessionRow>, rows: &Vec<PlayRow>) -> (r: PlayPageRows)
    requires
        sessions@.len() <= u32::MAX,
    ensures
        ({
            let listed = listed_sessions(*f, sessions@, rows@, sessions@.len() as int);
            &&& r.total_sessions == listed.len()
            &&& r.page == (if f.page <= last_page(r.total_sessions) { f.page } else { last_page(r.total_sessions) })
            &&& r.sessions@.map_values(|k: usize| k as int) == page_window(listed, r.page)
            &&& r.matches@.map_values(|k: usize| k as int) == shown_matches(
                *f,
                sessions@,
                page_window(listed, r.page),
                rows@,
                rows@.len() as int,
            )
        }),
{
    let mut listed: Vec<usize> = Vec::new();
    let mut i: usize = 0;
    while i < sessions.len()
        invariant
            i <= sessions@.len(),
            listed@.map_values(|k: usize| k as int) == listed_sessions(*f, sessions@, rows@, i as int),
            forall|m: int| 0 <= m < listed@.len() ==> (#[trigger] listed@[m]) < i,
            listed@.len() <= i,
        decreases sessions.len() - i,
    {
        let ghost before = listed@.map_values(|k: usize| k as int);
        if session_listed(f, rows, &sessions[i]) {
            listed.push(i);
            assert(listed@.map_values(|k: usize| k as int) =~= before.push(i as int));
        }
        i = i + 1;
    }
    let ghost lv = listed@.map_values(|k: usize| k as int);
    let total = listed.len() as u32;
    let page = page_index(f.page, total);
    let start: usize = page as usize * 20;
    let mut shown: Vec<usize> = Vec::new();
    if start <= listed.len() {
        let end: usize = if listed.len() - start >= 20 { start + 20 } else { listed.len() };
        let mut j: usize = start;
        while j < end
            invariant
                start <= j <= end <= listed@.len(),
                lv == listed@.map_values(|k: usize| k as int),
                shown@.map_values(|k: usize| k as int) == lv.subrange(start as int, j as int),
                forall|m: int| 0 <= m < listed@.len() ==> (#[trigger] listed@[m]) < sessions@.len(),
                forall|m: int| 0 <= m < shown@.len() ==> (#[trigger] shown@[m]) < sessions@.len(),
            decreases end - j,
        {
            assert(lv[j as int] == listed@[j as int] as int);
            let ghost before = shown@.map_values(|k: usize| k as int);
            shown.push(listed[j]);
            assert(shown@.map_values(|k: usize| k as int) =~= before.push(lv[j as int]));
            assert(lv.subrange(start as int, j + 1) =~= lv.subrange(start as int, j as int).push(lv[j as int]));
            j = j + 1;
            assert(shown@.map_values(|k: usize| k as int) =~= lv.subrange(start as int, j as int));
        }
        assert(page * PAGE_SIZE == start);
    } else {
        assert(shown@.map_values(|k: usize| k as int) =~= Seq::<int>::empty());
    }
    let ghost sv = shown@.map_values(|k: usize| k as int);
    assert(sv == page_window(lv, page));
    let mut matches: Vec<usize> = Vec::new();
    let mut k: usize = 0;
    while k < rows.len()
        invariant
            k <= rows@.len(),
            sv == shown@.map_values(|x: usize| x as int),
            forall|m: int| 0 <= m < shown@.len() ==> (#[trigger] shown@[m]) < sessions@.len(),
            matches@.map_values(|x: usize| x as int) == shown_matches(*f, sessions@, sv, rows@, k as int),
        decreases rows.len() - k,
    {
        let ghost before = matches@.map_values(|x: usize| x as int);
        if passes(f, &rows[k]) {
            let mut found = false;
            let mut j: usize = 0;
            while j < shown.len()
                invariant
                    j <= shown@.len(),
                    k < rows@.len(),
                    sv == shown@.map_values(|x: usize| x as int),
                    forall|m: int| 0 <= m < shown@.len() ==> (#[trigger] shown@[m]) < sessions@.len(),
                    found == exists|q: int| 0 <= q < j && sessions@[#[trigger] sv[q]].id@ == rows@[k as int].session_id@,
                decreases shown.len() - j,
            {
                assert(sv[j as int] == shown@[j as int] as int);
                if str_eq(sessions[shown[j]].id.as_str(), rows[k].session_id.as_str()) {
                    found = true;
                }
                j = j + 1;
            }
            if found {
                matches.push(k);
                assert(matches@.map_values(|x: usize| x as int) =~= before.push(k as int));
            }
        }
        k = k + 1;
    }
    PlayPageRows { page, total_sessions: total, sessions: shown, matches }
}

/// Law: a page shows at most `PAGE_SIZE` sessions, and every match it shows passes the
/// filters and belongs to a session on the page.
pub proof fn lemma_page_contents(f: PlayFilter, sessions: Seq<SessionRow>, listed: Seq<int>, page: u32, rows: Seq<PlayRow>, n: int)
    requires
        0 <= n <= rows.len(),
    ensures
        page_window(listed, page).len() <= PAGE_SIZE,
        forall|k: int| 0 <= k < shown_matches(f, sessions, page_window(listed, page), rows, n).len() ==> {
            let m = #[trigger] shown_matches(f, sessions, page_window(listed, page), rows, n)[k];
            &&& 0 <= m < n
            &&& row_passes(f, rows[m])
            &&& exists|j: int| 0 <= j < page_window(listed, page).len() && sessions[#[trigger] page_window(listed, page)[j]].id@ == rows[m].session_id@
        },
    decreases n,
{
    let w = page_window(listed, page);
    if n > 0 {
        lemma_page_contents(f, sessions, listed, page, rows, n - 1);
        let prev = shown_matches(f, sessions, w, rows, n - 1);
        let all = shown_matches(f, sessions, w, rows, n);
        assert forall|k: int| 0 <= k < all.len() implies {
            let m = #[trigger] all[k];
            &&& 0 <= m < n
            &&& row_passes(f, rows[m])
            &&& exists|j: int| 0 <= j < w.len() && sessions[#[trigger] w[j]].id@ == rows[m].session_id@
        } by {
            if k < prev.len() {
                assert(all[k] == prev[k]);
            }
        }
    }
}

/// Every filter of the request holds of the match: its account, its result, how it was
/// recorded (automatically or by hand), its time, the keyword search and the player filter.
pub open spec fn meets_filters(f: PlayFilter, r: PlayRow) -> bool {
    &&& (f.account matches Some(a) ==> r.account_id@ == a@)
    &&& (f.win matches Some(w) ==> r.win == Some(w))
    &&& (f.source == PlaySource::Automatic ==> r.automatic)
    &&& (f.source == PlaySource::Manual ==> r.manual)
    &&& r.in_range
    &&& (f.text ==> r.text_match)
    &&& (f.player ==> r.player_match)
}

/// Law: every match a page of play history shows meets every filter of the request; with
/// the automatic source only matches recorded automatically are shown, with the manual
/// source only those added by hand.
pub proof fn lemma_shown_matches_meet_filters(f: PlayFilter, sessions: Seq<SessionRow>, shown: Seq<int>, rows: Seq<PlayRow>, n: int)
    requires
        0 <= n <= rows.len(),
    ensures
        forall|k: int| 0 <= k < shown_matches(f, sessions, shown, rows, n).len() ==> {
            let m = #[trigger] shown_matches(f, sessions, shown, rows, n)[k];
            0 <= m < n && meets_filters(f, rows[m])
        },
    decreases n,
{
    if n > 0 {
        lemma_shown_matches_meet_filters(f, sessions, shown, rows, n - 1);
        let prev = shown_matches(f, sessions, shown, rows, n - 1);
        let all = shown_matches(f, sessions, shown, rows, n);
        assert forall|k: int| 0 <= k < all.len() implies {
            let m = #[trigger] all[k];
            0 <= m < n && meets_filters(f, rows[m])
        } by {
            if k < prev.len() {
                assert(all[k] == prev[k]);
            }
        }
    }
}

/// Law: a listed session is in the requested scope (open for the current session, closed for
/// history), and a closed one has a match that meets every filter.
pub proof fn lemma_listed_sessions_in_scope(f: PlayFilter, sessions: Seq<SessionRow>, rows: Seq<PlayRow>, n: int)
    requires
        0 <= n <= sessions.len(),
    ensures
        forall|k: int| 0 <= k < listed_sessions(f, sessions, rows, n).len() ==> {
            let i = #[trigger] listed_sessions(f, sessions, rows, n)[k];
            &&& 0 <= i < n
            &&& (f.scope == SessionScope::Current ==> sessions[i].open)
            &&& (f.scope == SessionScope::History ==> !sessions[i].open)
            &&& (!sessions[i].open ==> exists|j: int|
                0 <= j < rows.len() && meets_filters(f, #[trigger] rows[j]) && rows[j].session_id@ == sessions[i].id@)
        },
    decreases n,
{
    if n > 0 {
        lemma_listed_sessions_in_scope(f, sessions, rows, n - 1);
        let prev = listed_sessions(f, sessions, rows, n - 1);
        let all = listed_sessions(f, sessions, rows, n);
        assert forall|k: int| 0 <= k < all.len() implies {
            let i = #[trigger] all[k];
            &&& 0 <= i < n
            &&& (f.scope == SessionScope::Current ==> sessions[i].open)
            &&& (f.scope == SessionScope::History ==> !sessions[i].open)
            &&& (!sessions[i].open ==> exists|j: int|
                0 <= j < rows.len() && meets_filters(f, #[trigger] rows[j]) && rows[j].session_id@ == sessions[i].id@)
        } by {
            if k < prev.len() {
                assert(all[k] == prev[k]);
            } else {
                let i = n - 1;
                if !sessions[i].open {
                    assert(has_passing(f, rows, sessions[i].id@));
                    let j = choose|j: int| 0 <= j < rows.len() && row_passes(f, #[trigger] rows[j]) && rows[j].session_id@ == sessions[i].id@;
                    assert(meets_filters(f, rows[j]));
                }
            }
        }
    }
}

/// Law: a page misses no match: every match that meets every filter and belongs to a session
/// on the page is shown.
pub proof fn lemma_shown_matches_complete(f: PlayFilter, sessions: Seq<SessionRow>, shown: Seq<int>, rows: Seq<PlayRow>, n: int)
    requires
        0 <= n <= rows.len(),
    ensures
        forall|m: int| 0 <= m < n && meets_filters(f, #[trigger] rows[m]) && (exists|j: int|
            0 <= j < shown.len() && sessions[#[trigger] shown[j]].id@ == rows[m].session_id@)
            ==> shown_matches(f, sessions, shown, rows, n).contains(m),
    decreases n,
{
    if n > 0 {
        lemma_shown_matches_complete(f, sessions, shown, rows, n - 1);
        let prev = shown_matches(f, sessions, shown, rows, n - 1);
        let all = shown_matches(f, sessions, shown, rows, n);
        assert forall|m: int| 0 <= m < n && meets_filters(f, #[trigger] rows[m]) && (exists|j: int|
            0 <= j < shown.len() && sessions[#[trigger] shown[j]].id@ == rows[m].session_id@)
            implies all.contains(m) by {
            if m < n - 1 {
                assert(prev.contains(m));
                let q = choose|q: int| 0 <= q < prev.len() && prev[q] == m;
                assert(all[q] == prev[q]);
            } else {
                assert(row_passes(f, rows[m]));
                assert(all[all.len() - 1] == m);
            }
        }
    }
}

} // verus!

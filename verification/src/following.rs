//! Following other players: the rules for a subscription's label and number, the checks that
//! every page of a followed player's history passes before it is cached, and the steps of a
//! sync and of a history backfill.
use vstd::prelude::*;
use crate::domain::{Account, HistoryPage};
use crate::json::{Json, field, json_u64, field_u64};
use crate::matches::{spec_validate_detail, validate_detail};
use crate::sessions::{is_control, trim, trim_chars};
use crate::text::{chars_of, decimal, decimal_text, has_prefix, owned, starts_with, str_eq, string_of};

verus! {

/// How many players can be followed at once.
pub const FOLLOW_LIMIT: usize = 50;

/// A label: after trimming, at most 80 characters and no control character.
pub open spec fn valid_label(t: Seq<char>) -> bool {
    &&& t.len() <= 80
    &&& forall|i: int| 0 <= i < t.len() ==> !is_control(#[trigger] t[i])
}

/// The label a subscription is saved under: the trimmed text, when it is a valid label.
pub fn check_label(label: &str) -> (r: Result<String, String>)
    ensures
        match r {
            Ok(l) => valid_label(trim(label@)) && l@ == trim(label@),
            Err(e) => !valid_label(trim(label@)) && e@ == "following.invalidLabel"@,
        },
{
    let t = trim_chars(chars_of(label).as_slice());
    if t.len() > 80 {
        return Err(owned("following.invalidLabel"));
    }
    let mut i: usize = 0;
    while i < t.len()
        invariant
            i <= t@.len(),
            t@ == trim(label@),
            forall|j: int| 0 <= j < i ==> !is_control(#[trigger] t@[j]),
        decreases t.len() - i,
    {
        let c = t[i];
        if c <= '\u{1f}' || ('\u{7f}' <= c && c <= '\u{9f}') {
            return Err(owned("following.invalidLabel"));
        }
        i = i + 1;
    }
    Ok(string_of(t.as_slice()))
}

/// A new subscription is refused once `count` players are followed and the limit is reached.
pub fn check_follow_limit(count: usize) -> (r: Result<(), String>)
    ensures
        r is Ok <==> count < FOLLOW_LIMIT,
        r matches Err(e) ==> e@ == "following.limit"@,
{
    if count >= FOLLOW_LIMIT {
        Err(owned("following.limit"))
    } else {
        Ok(())
    }
}

/// The feed of followed games is paged by offsets up to ten thousand.
pub fn check_feed_start(start: u32) -> (r: Result<(), String>)
    ensures
        r is Ok <==> start <= 10000,
        r matches Err(e) ==> e@ == "query.invalidPage"@,
{
    if start > 10000 {
        Err(owned("query.invalidPage"))
    } else {
        Ok(())
    }
}

/// The archive id and number of a game on a page of `account`'s history: the page's game must
/// be that account's finished game (`PLATFORM_NUMBER`).
pub open spec fn spec_followed_game(
    account: (Seq<char>, Seq<char>, Seq<char>, Seq<char>, Seq<char>),
    detail: Json,
) -> Result<(Seq<char>, u64), Seq<char>> {
    match json_u64(field(detail, "gameId"@)) {
        None => Err("game.invalidData"@),
        Some(n) => {
            let id = account.1 + "_"@ + decimal(n as nat);
            if spec_validate_detail(id, account.1, account.2, detail) is Ok {
                Ok((id, n))
            } else {
                Err("game.invalidData"@)
            }
        },
    }
}

/// The ids and numbers of the games of a page, in order; or the error of its first game that
/// is not the account's finished game.
pub open spec fn spec_page_games(
    account: (Seq<char>, Seq<char>, Seq<char>, Seq<char>, Seq<char>),
    games: Seq<Json>,
) -> Result<Seq<(Seq<char>, u64)>, Seq<char>>
    decreases games.len(),
{
    if games.len() == 0 {
        Ok(Seq::empty())
    } else {
        match spec_page_games(account, games.drop_last()) {
            Err(e) => Err(e),
            Ok(s) => match spec_followed_game(account, games.last()) {
                Err(e) => Err(e),
                Ok(g) => Ok(s.push(g)),
            },
        }
    }
}

/// The plain view of a list of game ids and numbers.
pub open spec fn ids_view(v: Seq<(String, u64)>) -> Seq<(Seq<char>, u64)> {
    v.map_values(|p: (String, u64)| (p.0@, p.1))
}

/// An error on a prefix of a page is the error of the whole page.
proof fn lemma_page_games_error(
    account: (Seq<char>, Seq<char>, Seq<char>, Seq<char>, Seq<char>),
    games: Seq<Json>,
    k: int,
)
    requires
        0 <= k <= games.len(),
        spec_page_games(account, games.take(k)) is Err,
    ensures
        spec_page_games(account, games) == spec_page_games(account, games.take(k)),
    decreases games.len(),
{
    if k == games.len() {
        assert(games.take(k) =~= games);
    } else {
        assert(games.drop_last().take(k) =~= games.take(k));
        lemma_page_games_error(account, games.drop_last(), k);
    }
}

fn followed_game(account: &Account, detail: &Json) -> (r: Result<(String, u64), String>)
    ensures
        match r {
            Ok(g) => spec_followed_game(account@, *detail) == Ok::<(Seq<char>, u64), Seq<char>>((g.0@, g.1)),
            Err(e) => spec_followed_game(account@, *detail) == Err::<(Seq<char>, u64), Seq<char>>(e@),
        },
{
    let n = match field_u64(detail, "gameId") {
        Some(n) => n,
        None => return Err(owned("game.invalidData")),
    };
    let mut id = owned(account.platform.as_str());
    id.append("_");
    let number = decimal_text(n);
    id.append(number.as_str());
    match validate_detail(id.as_str(), account, detail) {
        Ok(_) => Ok((id, n)),
        Err(_) => Err(owned("game.invalidData")),
    }
}

/// The archive ids and numbers of the games of a page, each checked to be the account's
/// finished game; the error of the first that is not.
pub fn page_games(page: &HistoryPage) -> (r: Result<Vec<(String, u64)>, String>)
    ensures
        match r {
            Ok(v) => spec_page_games(page.account@, page.games@) == Ok::<Seq<(Seq<char>, u64)>, Seq<char>>(
                ids_view(v@),
            ),
            Err(e) => spec_page_games(page.account@, page.games@) == Err::<Seq<(Seq<char>, u64)>, Seq<char>>(e@),
        },
{
    let mut out: Vec<(String, u64)> = Vec::new();
    let mut i: usize = 0;
    proof {
        assert(page.games@.take(0) =~= Seq::<Json>::empty());
        assert(ids_view(out@) =~= Seq::<(Seq<char>, u64)>::empty());
    }
    while i < page.games.len()
        invariant
            i <= page.games@.len(),
            spec_page_games(page.account@, page.games@.take(i as int)) == Ok::<Seq<(Seq<char>, u64)>, Seq<char>>(
                ids_view(out@),
            ),
        decreases page.games.len() - i,
    {
        proof {
            assert(page.games@.take(i + 1).drop_last() =~= page.games@.take(i as int));
            assert(page.games@.take(i + 1).last() == page.games@[i as int]);
        }
        let g = match followed_game(&page.account, &page.games[i]) {
            Ok(g) => g,
            Err(e) => {
                proof {
                    lemma_page_games_error(page.account@, page.games@, i + 1);
                }
                return Err(e);
            },
        };
        let ghost before = out@;
        out.push(g);
        proof {
            assert(ids_view(out@) =~= ids_view(before).push((g.0@, g.1)));
        }
        i = i + 1;
    }
    proof {
        assert(page.games@.take(page.games@.len() as int) =~= page.games@);
    }
    Ok(out)
}

/// Some page of a sync skipped rows it could not read.
pub open spec fn partial(pages: Seq<HistoryPage>) -> bool {
    exists|i: int| 0 <= i < pages.len() && (#[trigger] pages[i]).skipped_games > 0
}

/// The error a finished sync records: the failure that stopped it, or else the gap of a
/// partial page; and whether the subscription's history is limited.
pub fn sync_outcome(pages: &Vec<HistoryPage>, failure: Option<String>, limited: bool) -> (r: (
    Option<String>,
    bool,
))
    ensures
        failure is Some ==> r.0 == failure,
        failure is None ==> (r.0 is Some <==> partial(pages@)),
        failure is None && partial(pages@) ==> (r.0 matches Some(f) && f@ == "game.partialHistory"@),
        r.1 == (limited || partial(pages@)),
{
    let mut any = false;
    let mut i: usize = 0;
    while i < pages.len()
        invariant
            i <= pages@.len(),
            any == exists|j: int| 0 <= j < i && (#[trigger] pages@[j]).skipped_games > 0,
        decreases pages.len() - i,
    {
        if pages[i].skipped_games > 0 {
            any = true;
        }
        i = i + 1;
    }
    let failure = match failure {
        Some(f) => Some(f),
        None => if any {
            Some(owned("game.partialHistory"))
        } else {
            None
        },
    };
    (failure, limited || any)
}

/// The games of every page of a sync, each page checked to be of the followed account and
/// server and each game to be its finished game; the first error otherwise.
pub open spec fn spec_sync_pages(account_id: Seq<char>, server: Seq<char>, pages: Seq<HistoryPage>) -> Result<
    Seq<Seq<(Seq<char>, u64)>>,
    Seq<char>,
>
    decreases pages.len(),
{
    if pages.len() == 0 {
        Ok(Seq::empty())
    } else {
        match spec_sync_pages(account_id, server, pages.drop_last()) {
            Err(e) => Err(e),
            Ok(s) => {
                let p = pages.last();
                if p.account.id@ != account_id || p.server@ != server {
                    Err("game.identityMismatch"@)
                } else {
                    match spec_page_games(p.account@, p.games@) {
                        Err(e) => Err(e),
                        Ok(g) => Ok(s.push(g)),
                    }
                }
            },
        }
    }
}

/// The plain view of the games of several pages.
pub open spec fn pages_view(v: Seq<Vec<(String, u64)>>) -> Seq<Seq<(Seq<char>, u64)>> {
    v.map_values(|x: Vec<(String, u64)>| ids_view(x@))
}

proof fn lemma_sync_pages_error(account_id: Seq<char>, server: Seq<char>, pages: Seq<HistoryPage>, k: int)
    requires
        0 <= k <= pages.len(),
        spec_sync_pages(account_id, server, pages.take(k)) is Err,
    ensures
        spec_sync_pages(account_id, server, pages) == spec_sync_pages(account_id, server, pages.take(k)),
    decreases pages.len(),
{
    if k == pages.len() {
        assert(pages.take(k) =~= pages);
    } else {
        assert(pages.drop_last().take(k) =~= pages.take(k));
        lemma_sync_pages_error(account_id, server, pages.drop_last(), k);
    }
}

/// Checks the pages of a finished sync against the subscription's account and server, and
/// gives the games of each page to cache.
pub fn check_sync_pages(account_id: &str, server: &str, pages: &Vec<HistoryPage>) -> (r: Result<
    Vec<Vec<(String, u64)>>,
    String,
>)
    ensures
        match r {
            Ok(v) => spec_sync_pages(account_id@, server@, pages@) == Ok::<Seq<Seq<(Seq<char>, u64)>>, Seq<char>>(
                pages_view(v@),
            ),
            Err(e) => spec_sync_pages(account_id@, server@, pages@) == Err::<Seq<Seq<(Seq<char>, u64)>>, Seq<char>>(
                e@,
            ),
        },
{
    let mut out: Vec<Vec<(String, u64)>> = Vec::new();
    let mut i: usize = 0;
    proof {
        assert(pages@.take(0) =~= Seq::<HistoryPage>::empty());
        assert(pages_view(out@) =~= Seq::<Seq<(Seq<char>, u64)>>::empty());
    }
    while i < pages.len()
        invariant
            i <= pages@.len(),
            spec_sync_pages(account_id@, server@, pages@.take(i as int)) == Ok::<Seq<Seq<(Seq<char>, u64)>>, Seq<char>>(
                pages_view(out@),
            ),
        decreases pages.len() - i,
    {
        proof {
            assert(pages@.take(i + 1).drop_last() =~= pages@.take(i as int));
            assert(pages@.take(i + 1).last() == pages@[i as int]);
        }
        let page = &pages[i];
        if !str_eq(page.account.id.as_str(), account_id) || !str_eq(page.server.as_str(), server) {
            proof {
                lemma_sync_pages_error(account_id@, server@, pages@, i + 1);
            }
            return Err(owned("game.identityMismatch"));
        }
        let games = match page_games(page) {
            Ok(g) => g,
            Err(e) => {
                proof {
                    lemma_sync_pages_error(account_id@, server@, pages@, i + 1);
                }
                return Err(e);
            },
        };
        let ghost before = out@;
        out.push(games);
        proof {
            assert(pages_view(out@) =~= pages_view(before).push(ids_view(games@)));
        }
        i = i + 1;
    }
    proof {
        assert(pages@.take(pages@.len() as int) =~= pages@);
    }
    Ok(out)
}

/// What a page of a history backfill commits: its games, the offset to continue from, the
/// number of its last game as the boundary to check on the next attempt, and whether the
/// history is complete.
#[derive(Debug)]
pub struct HistoryCommit {
    pub games: Vec<(String, u64)>,
    pub next_start: u32,
    pub anchor: Option<String>,
    pub done: bool,
}

/// The commit of one page of a history backfill. A page with a gap is refused: the backfill
/// does not advance past rows it could not read, and a later attempt revisits the page.
pub fn history_commit(page: &HistoryPage) -> (r: Result<HistoryCommit, String>)
    requires
        page.start <= u32::MAX - 20,
    ensures
        match r {
            Ok(c) => {
                &&& page.skipped_games == 0
                &&& spec_page_games(page.account@, page.games@) == Ok::<Seq<(Seq<char>, u64)>, Seq<char>>(
                    ids_view(c.games@),
                )
                &&& c.next_start == page.start + 20
                &&& c.done == !page.has_more
                &&& match c.anchor {
                    Some(a) => c.games@.len() > 0 && a@ == decimal(c.games@.last().1 as nat),
                    None => c.games@.len() == 0,
                }
            },
            Err(e) => if page.skipped_games > 0 {
                e@ == "game.partialHistory"@
            } else {
                spec_page_games(page.account@, page.games@) == Err::<Seq<(Seq<char>, u64)>, Seq<char>>(e@)
            },
        },
{
    if page.skipped_games > 0 {
        return Err(owned("game.partialHistory"));
    }
    let games = page_games(page)?;
    let anchor = if games.len() > 0 {
        Some(decimal_text(games[games.len() - 1].1))
    } else {
        None
    };
    Ok(HistoryCommit { games, next_start: page.start + 20, anchor, done: !page.has_more })
}

/// The archive ids of the games on a page that a sync compares with the games it already
/// follows; `game.invalidData` for a game without a number.
pub open spec fn spec_page_game_ids(platform: Seq<char>, games: Seq<Json>) -> Option<Seq<Seq<char>>>
    decreases games.len(),
{
    if games.len() == 0 {
        Some(Seq::empty())
    } else {
        match (spec_page_game_ids(platform, games.drop_last()), json_u64(field(games.last(), "gameId"@))) {
            (Some(s), Some(n)) => Some(s.push(platform + "_"@ + decimal(n as nat))),
            _ => None,
        }
    }
}

proof fn lemma_page_game_ids_none(platform: Seq<char>, games: Seq<Json>, k: int)
    requires
        0 <= k <= games.len(),
        spec_page_game_ids(platform, games.take(k)) is None,
    ensures
        spec_page_game_ids(platform, games) is None,
    decreases games.len(),
{
    if k == games.len() {
        assert(games.take(k) =~= games);
    } else {
        assert(games.drop_last().take(k) =~= games.take(k));
        lemma_page_game_ids_none(platform, games.drop_last(), k);
    }
}

/// The archive ids of a page's games, `PLATFORM_NUMBER`.
pub fn page_game_ids(platform: &str, page: &HistoryPage) -> (r: Result<Vec<String>, String>)
    ensures
        match r {
            Ok(v) => spec_page_game_ids(platform@, page.games@) == Some(v@.map_values(|s: String| s@)),
            Err(e) => spec_page_game_ids(platform@, page.games@) is None && e@ == "game.invalidData"@,
        },
{
    let mut out: Vec<String> = Vec::new();
    let mut i: usize = 0;
    proof {
        assert(page.games@.take(0) =~= Seq::<Json>::empty());
        assert(out@.map_values(|s: String| s@) =~= Seq::<Seq<char>>::empty());
    }
    while i < page.games.len()
        invariant
            i <= page.games@.len(),
            spec_page_game_ids(platform@, page.games@.take(i as int)) == Some(out@.map_values(|s: String| s@)),
        decreases page.games.len() - i,
    {
        proof {
            assert(page.games@.take(i + 1).drop_last() =~= page.games@.take(i as int));
            assert(page.games@.take(i + 1).last() == page.games@[i as int]);
        }
        let n = match field_u64(&page.games[i], "gameId") {
            Some(n) => n,
            None => {
                proof {
                    lemma_page_game_ids_none(platform@, page.games@, i + 1);
                }
                return Err(owned("game.invalidData"));
            },
        };
        let mut id = owned(platform);
        id.append("_");
        let number = decimal_text(n);
        id.append(number.as_str());
        let ghost before = out@;
        out.push(id);
        proof {
            assert(out@.map_values(|s: String| s@) =~= before.map_values(|s: String| s@).push(id@));
        }
        i = i + 1;
    }
    proof {
        assert(page.games@.take(page.games@.len() as int) =~= page.games@);
    }
    Ok(out)
}

/// A sync of all subscriptions stops at the first failure of the local client itself; other
/// failures concern one subscription only.
pub fn stops_sync(failure: &Option<String>) -> (r: bool)
    ensures
        r == (failure matches Some(f) && has_prefix(f@, "client."@)),
{
    match failure {
        Some(f) => {
            let prefix = chars_of("client.");
            starts_with(chars_of(f.as_str()).as_slice(), prefix.as_slice())
        },
        None => false,
    }
}

/// One subscription's sync: it reads its history page by page from the newest game, at most
/// five pages, and stops at a page with a gap, at a page with a game it already follows, at
/// the end of the history, or at a failure.
#[derive(Debug)]
pub struct SyncRun {
    /// The offset of the next page to read.
    pub next: u32,
    /// The pages read so far.
    pub pages: Vec<HistoryPage>,
    /// The failure that stopped the sync.
    pub failure: Option<String>,
    /// The last page was full and more games may be missing than a sync reads.
    pub limited: bool,
    pub done: bool,
}

impl SyncRun {
    /// Offsets are whole pages below one hundred rows while the sync reads on, one page per
    /// offset read; so a sync reads at most five pages.
    pub open spec fn wf(&self) -> bool {
        &&& self.next % 20 == 0
        &&& self.next <= 100
        &&& !self.done ==> self.next < 100 && self.pages@.len() * 20 == self.next
        &&& self.pages@.len() <= 5
    }

    pub fn new() -> (r: SyncRun)
        ensures
            r.wf(),
            r.next == 0 && r.pages@.len() == 0 && r.failure is None && !r.limited && !r.done,
    {
        SyncRun { next: 0, pages: Vec::new(), failure: None, limited: false, done: false }
    }

    /// The offset of the page to read next; none once the sync is over.
    pub fn next_start(&self) -> (r: Option<u32>)
        ensures
            r == if self.done {
                None
            } else {
                Some(self.next)
            },
    {
        if self.done {
            None
        } else {
            Some(self.next)
        }
    }

    /// Takes the page read at the current offset; `known` tells whether it holds a game that
    /// the subscription already follows.
    pub fn accept_page(&mut self, page: HistoryPage, known: bool)
        requires
            old(self).wf(),
            !old(self).done,
        ensures
            final(self).wf(),
            final(self).pages@ == old(self).pages@.push(page),
            final(self).failure == old(self).failure,
            if page.skipped_games > 0 {
                final(self).done && final(self).next == old(self).next && final(self).limited == old(self).limited
            } else {
                let done = known || !page.has_more;
                &&& final(self).limited == (!done && old(self).next == 80)
                &&& done ==> final(self).done && final(self).next == old(self).next
                &&& !done ==> final(self).next == old(self).next + 20 && final(self).done == (old(self).next + 20 >= 100)
            },
    {
        if page.skipped_games > 0 {
            self.pages.push(page);
            self.done = true;
            return;
        }
        let done = known || !page.has_more;
        self.limited = !done && self.next == 80;
        self.pages.push(page);
        if done {
            self.done = true;
        } else {
            self.next = self.next + 20;
            if self.next >= 100 {
                self.done = true;
            }
        }
    }

    /// Takes the failure of reading the current page; the sync ends.
    pub fn accept_failure(&mut self, error: String)
        requires
            old(self).wf(),
        ensures
            final(self).wf(),
            final(self).done,
            final(self).failure == Some(error),
            final(self).pages@ == old(self).pages@,
            final(self).next == old(self).next,
            final(self).limited == old(self).limited,
    {
        self.failure = Some(error);
        self.done = true;
    }
}

/// A page names the game `anchor` by its number.
pub open spec fn names_anchor(games: Seq<Json>, anchor: Seq<char>) -> bool {
    exists|i: int| 0 <= i < games.len() && (json_u64(field(#[trigger] games[i], "gameId"@)) matches Some(n) && decimal(n as nat) == anchor)
}

/// `offset - 20`, or zero.
pub open spec fn back_one_page(offset: u32) -> u32 {
    if offset >= 20 {
        (offset - 20) as u32
    } else {
        0
    }
}

/// A backfill of a followed player's older history: up to five pages, resuming one page
/// before the stored offset to check the previous boundary.
#[derive(Debug)]
pub struct FillRun {
    /// The offset of the next page.
    pub start: u32,
    /// How many games the committed pages held.
    pub count: u32,
    /// How many pages were committed.
    pub step: u32,
    /// The number of the last game of the previous backfill.
    pub anchor: Option<String>,
    pub done: bool,
}

impl FillRun {
    pub open spec fn wf(&self) -> bool {
        &&& self.step <= 5
        &&& !self.done ==> self.step < 5
    }

    /// A backfill that resumes from the stored cursor.
    pub fn new(offset: u32, anchor: Option<String>) -> (r: FillRun)
        ensures
            r.wf(),
            r.start == back_one_page(offset) && r.count == 0 && r.step == 0 && r.anchor == anchor && !r.done,
    {
        let start = if offset >= 20 {
            offset - 20
        } else {
            0
        };
        FillRun { start, count: 0, step: 0, anchor, done: false }
    }

    /// The offset of the page to read next; none when the backfill is complete;
    /// `following.historyLimit` past ten thousand rows.
    pub fn next_start(&self) -> (r: Result<Option<u32>, String>)
        ensures
            match r {
                Ok(None) => self.done,
                Ok(Some(s)) => !self.done && s == self.start && self.start <= 10000,
                Err(e) => !self.done && self.start > 10000 && e@ == "following.historyLimit"@,
            },
    {
        if self.done {
            Ok(None)
        } else if self.start > 10000 {
            Err(owned("following.historyLimit"))
        } else {
            Ok(Some(self.start))
        }
    }

    /// The first page of a resumed backfill must still show the game where the previous one
    /// stopped; otherwise the history moved and the backfill restarts from the newest game.
    pub fn needs_rewind(&self, page: &HistoryPage) -> (r: bool)
        ensures
            r == (self.step == 0 && self.start > 0 && (self.anchor matches Some(a) && !names_anchor(page.games@, a@))),
    {
        if self.step != 0 || self.start == 0 {
            return false;
        }
        let anchor = match &self.anchor {
            Some(a) => a,
            None => return false,
        };
        assert(self.anchor == Some(*anchor));
        let mut i: usize = 0;
        while i < page.games.len()
            invariant
                i <= page.games@.len(),
                self.anchor == Some(*anchor),
                forall|j: int| 0 <= j < i ==> !(json_u64(field(#[trigger] page.games@[j], "gameId"@)) matches Some(n)
                    && decimal(n as nat) == anchor@),
            decreases page.games.len() - i,
        {
            if let Some(n) = field_u64(&page.games[i], "gameId") {
                let number = decimal_text(n);
                if str_eq(number.as_str(), anchor.as_str()) {
                    assert(json_u64(field(page.games@[i as int], "gameId"@)) == Some(n));
                    assert(names_anchor(page.games@, anchor@));
                    return false;
                }
            }
            i = i + 1;
        }
        true
    }

    /// Restarts the backfill from the newest game.
    pub fn rewind(&mut self)
        requires
            old(self).wf(),
        ensures
            final(self).wf(),
            final(self).start == 0,
            final(self).count == old(self).count && final(self).step == old(self).step,
            final(self).anchor == old(self).anchor && final(self).done == old(self).done,
    {
        self.start = 0;
    }

    /// Takes a committed page: counts its games and moves to the next page, or completes the
    /// backfill at the end of the history or after five pages.
    pub fn accept(&mut self, page: &HistoryPage)
        requires
            old(self).wf(),
            !old(self).done,
            old(self).start <= 10000,
            old(self).count + page.games@.len() <= u32::MAX,
        ensures
            final(self).wf(),
            final(self).count == old(self).count + page.games@.len(),
            final(self).anchor == old(self).anchor,
            !page.has_more ==> final(self).done && final(self).start == old(self).start && final(self).step
                == old(self).step,
            page.has_more ==> final(self).start == old(self).start + 20 && final(self).step == old(self).step + 1
                && final(self).done == (old(self).step + 1 >= 5),
    {
        self.count = self.count + page.games.len() as u32;
        if !page.has_more {
            self.done = true;
        } else {
            self.start = self.start + 20;
            self.step = self.step + 1;
            if self.step >= 5 {
                self.done = true;
            }
        }
    }
}

} // verus!

//! Accounts, observed games and the identifiers shared across the archive.
use vstd::prelude::*;
use crate::text::{all_digits, chars_of, decimal, digit_char, digits_value, lemma_decimal, owned};

verus! {

/// A canonical game number: decimal digits without a sign or leading zero, positive and
/// within `u64`, so that it prints back to the same text.
pub open spec fn spec_valid_game_id(s: Seq<char>) -> bool {
    &&& s.len() > 0
    &&& all_digits(s)
    &&& s[0] != '0'
    &&& digits_value(s) <= u64::MAX
}

pub fn valid_game_id_chars(s: &[char]) -> (r: bool)
    ensures
        r == spec_valid_game_id(s@),
{
    if s.len() == 0 || s[0] == '0' || s[0] == '+' {
        return false;
    }
    let parsed = crate::text::parse_decimal(s, u64::MAX);
    parsed.is_some()
}

/// A string of decimal digits without a leading zero is the decimal text of its value, and
/// that value is positive.
proof fn lemma_canonical_digits(s: Seq<char>)
    requires
        s.len() > 0,
        all_digits(s),
        s[0] != '0',
    ensures
        digits_value(s) > 0,
        decimal(digits_value(s)) == s,
    decreases s.len(),
{
    let t = s.drop_last();
    let d = s.last();
    let dv = (d as int) - ('0' as int);
    assert(0 <= dv < 10) by {
        assert(crate::text::is_ascii_digit(s[s.len() - 1]));
    }
    assert(digit_char(dv as nat) == d);
    if s.len() == 1 {
        assert(digits_value(t) == 0);
        assert(digits_value(s) == dv);
        assert(decimal(dv as nat) =~= s);
    } else {
        assert(all_digits(t)) by {
            assert forall|i: int| 0 <= i < t.len() implies crate::text::is_ascii_digit(#[trigger] t[i]) by {
                assert(t[i] == s[i]);
            }
        }
        assert(t[0] == s[0]);
        lemma_canonical_digits(t);
        let v = digits_value(s);
        assert(v == digits_value(t) * 10 + dv);
        assert(v / 10 == digits_value(t) && v % 10 == dv);
        assert(decimal(v) == decimal(v / 10).push(digit_char(v % 10)));
        assert(decimal(v) =~= s);
    }
}

/// A game id is valid exactly when it is how some positive `u64` prints.
pub proof fn lemma_game_id_prints(s: Seq<char>)
    ensures
        spec_valid_game_id(s) <==> exists|n: u64| n > 0 && #[trigger] decimal(n as nat) == s,
{
    if spec_valid_game_id(s) {
        lemma_canonical_digits(s);
        let n = digits_value(s) as u64;
        assert(decimal(n as nat) == s);
    }
    if exists|n: u64| n > 0 && #[trigger] decimal(n as nat) == s {
        let n = choose|n: u64| n > 0 && #[trigger] decimal(n as nat) == s;
        lemma_decimal(n as nat);
    }
}

/// Accepts only canonical positive game numbers.
pub fn validate_game_id(value: &str) -> (r: Result<(), String>)
    ensures
        r is Ok <==> spec_valid_game_id(value@),
        r matches Err(e) ==> e@ == "game.invalidId"@,
{
    if valid_game_id_chars(chars_of(value).as_slice()) {
        Ok(())
    } else {
        Err(owned("game.invalidId"))
    }
}

} // verus!

verus! {

#[derive(Clone, Debug)]
pub struct Account {
    pub id: String,
    pub platform: String,
    pub puuid: String,
    pub summoner_id: String,
    pub riot_id: String,
}

impl View for Account {
    /// The id, platform, PUUID, summoner id and Riot ID.
    type V = (Seq<char>, Seq<char>, Seq<char>, Seq<char>, Seq<char>);

    open spec fn view(&self) -> Self::V {
        (self.id@, self.platform@, self.puuid@, self.summoner_id@, self.riot_id@)
    }
}

#[derive(Debug)]
pub struct SavedAccount {
    pub account: Account,
    pub server: String,
}

#[derive(Debug)]
pub struct ObservedGame {
    pub id: String,
    pub game_id: String,
    pub champion_id: u32,
    pub queue_name: String,
}

impl View for ObservedGame {
    /// The id, game number, champion and queue name.
    type V = (Seq<char>, Seq<char>, u32, Seq<char>);

    open spec fn view(&self) -> Self::V {
        (self.id@, self.game_id@, self.champion_id, self.queue_name@)
    }
}

/// A copy of an account.
pub fn copy_account(a: &Account) -> (r: Account)
    ensures
        r@ == a@,
{
    Account {
        id: crate::text::owned(a.id.as_str()),
        platform: crate::text::owned(a.platform.as_str()),
        puuid: crate::text::owned(a.puuid.as_str()),
        summoner_id: crate::text::owned(a.summoner_id.as_str()),
        riot_id: crate::text::owned(a.riot_id.as_str()),
    }
}

/// What the interface shows about the local client: a state and its sentence, the phase, the
/// signed-in account, the game being recorded, and when the client was last checked (in
/// milliseconds since the Unix epoch).
#[derive(Debug)]
pub struct ClientStatus {
    pub state: String,
    pub message: String,
    pub phase: Option<String>,
    pub account: Option<Account>,
    pub active_game_id: Option<String>,
    pub last_checked_at: i64,
}

impl ClientStatus {
    /// The status of a client that cannot be read.
    pub fn unavailable(state: &str, message: &str, now: i64) -> (r: ClientStatus)
        ensures
            r.state@ == state@ && r.message@ == message@ && r.phase is None && r.account is None
                && r.active_game_id is None && r.last_checked_at == now,
    {
        ClientStatus {
            state: crate::text::owned(state),
            message: crate::text::owned(message),
            phase: None,
            account: None,
            active_game_id: None,
            last_checked_at: now,
        }
    }
}

/// One reading of the local client: who is signed in, the game flow phase and the game it
/// reports.
pub struct Sample {
    pub account: Account,
    pub phase: String,
    pub observed_game: Option<ObservedGame>,
    pub queue_active: bool,
}

/// A sample counts as play while a game is reported and the client is in it.
pub open spec fn spec_is_playing(s: Sample) -> bool {
    s.observed_game is Some && (s.phase@ == "InProgress"@ || s.phase@ == "Reconnect"@)
}

impl Sample {
    pub fn is_playing(&self) -> (r: bool)
        ensures
            r == spec_is_playing(*self),
    {
        self.observed_game.is_some() && (crate::text::str_eq(self.phase.as_str(), "InProgress")
            || crate::text::str_eq(self.phase.as_str(), "Reconnect"))
    }
}

#[derive(Debug)]
pub struct SessionSegment {
    pub id: String,
    pub account_id: String,
    pub match_ids: Vec<String>,
}

#[derive(Debug)]
pub struct PlayerProfile {
    pub id: String,
    pub name: String,
    pub account_ids: Vec<String>,
}

impl View for PlayerProfile {
    /// The id, the name and the ids of the player's accounts.
    type V = (Seq<char>, Seq<char>, Seq<Seq<char>>);

    open spec fn view(&self) -> Self::V {
        (self.id@, self.name@, self.account_ids@.map_values(|a: String| a@))
    }
}

#[derive(Debug)]
pub struct PremadeMark {
    pub match_id: String,
    pub account_id: String,
}

#[derive(Clone, Copy, Debug, PartialEq, Eq, Structural)]
pub enum SessionScope {
    All,
    Current,
    History,
}

impl Default for SessionScope {
    fn default() -> (r: Self)
        ensures
            r == SessionScope::All,
    {
        SessionScope::All
    }
}

#[derive(Clone, Copy, Debug, PartialEq, Eq, Structural)]
pub enum PlaySource {
    All,
    Automatic,
    Manual,
}

impl Default for PlaySource {
    fn default() -> (r: Self)
        ensures
            r == PlaySource::All,
    {
        PlaySource::All
    }
}

#[derive(Debug)]
pub struct PlaySummary {
    pub sessions: u32,
    pub games: u32,
    pub account_ids: Vec<String>,
    pub settled: u32,
    pub wins: u32,
    pub note_count: u32,
}

#[derive(Debug)]
pub struct GameParticipant {
    pub id: u32,
    pub puuid: Option<String>,
    pub name: Option<String>,
    pub team: u32,
    pub placement: Option<u32>,
    pub champion_id: u32,
    pub role: String,
    pub win: Option<bool>,
    pub kills: u32,
    pub deaths: u32,
    pub assists: u32,
    pub cs: u32,
    pub gold: u32,
    pub damage: u32,
    pub items: Vec<u32>,
    pub double_kills: u32,
    pub triple_kills: u32,
    pub quadra_kills: u32,
    pub penta_kills: u32,
}

/// The summary of one game.
#[derive(Debug)]
pub struct GameSummary {
    /// When the game was created, in milliseconds since the Unix epoch.
    pub started_at: i64,
    pub duration: u32,
    pub queue_id: u32,
    pub version: String,
    pub participants: Vec<GameParticipant>,
}

/// One page of a player's match history, as the service returned it.
#[derive(Debug)]
pub struct HistoryPage {
    pub account: Account,
    pub server: String,
    pub games: Vec<crate::json::Json>,
    pub start: u32,
    pub has_more: bool,
    pub skipped_games: u32,
    pub source: String,
}

#[derive(Debug)]
pub struct SearchGame {
    pub game_id: String,
    pub game: GameSummary,
}

#[derive(Debug)]
pub struct SearchResult {
    pub account: Account,
    pub server: String,
    pub games: Vec<SearchGame>,
    pub start: u32,
    pub has_more: bool,
    pub skipped_games: u32,
    pub source: String,
}

#[derive(Clone, Copy, Debug, PartialEq, Eq, Structural)]
pub enum EventKind {
    Purchase,
    Sale,
    Undo,
    Destroy,
    Kill,
    Objective,
}

#[derive(Clone, Copy, Debug, PartialEq, Eq, Structural)]
pub enum EventLabel {
    Purchase,
    Sale,
    UndoSale,
    UndoPurchase,
    Undo,
    Destroy,
    Kill,
    Objective,
}

#[derive(Debug)]
pub struct ReviewEvent {
    pub id: String,
    pub at: u32,
    pub participant_id: u32,
    pub kind: EventKind,
    pub item_id: Option<u32>,
    pub restored_item_id: Option<u32>,
    pub label: EventLabel,
    pub monster: String,
}

impl View for ReviewEvent {
    /// The id, time in seconds, participant, kind, label, item, restored item and monster.
    type V = (Seq<char>, u32, u32, EventKind, EventLabel, Option<u32>, Option<u32>, Seq<char>);

    open spec fn view(&self) -> Self::V {
        (
            self.id@,
            self.at,
            self.participant_id,
            self.kind,
            self.label,
            self.item_id,
            self.restored_item_id,
            self.monster@,
        )
    }
}

/// A stored match with its documents, as the archive keeps it for review.
#[derive(Debug)]
pub struct StoredReview {
    pub id: String,
    pub server: String,
    pub account: Account,
    pub detail: crate::json::Json,
    pub timeline: Option<crate::json::Json>,
    pub source: String,
    pub timeline_error: Option<String>,
    pub bookmarked: bool,
}

/// A game of the review library as the library lists it.
#[derive(Debug)]
pub struct LibraryEntry {
    pub id: String,
    pub server: String,
    pub account: Account,
    pub champion_id: u32,
    /// When the game was created, in milliseconds since the Unix epoch.
    pub started_at: i64,
    pub duration: u32,
    pub win: bool,
    pub kills: u32,
    pub deaths: u32,
    pub assists: u32,
    pub version: String,
    pub bookmarked: bool,
    /// The seven item slots, empty ones as 0.
    pub items: Vec<u32>,
    pub queue_id: u32,
}

#[derive(Debug)]
pub struct ReviewGame {
    pub id: String,
    pub game_id: String,
    pub server: String,
    pub account: Account,
    pub game: GameSummary,
    pub queue_name: String,
    pub timeline: Option<Vec<ReviewEvent>>,
    pub source: String,
    pub timeline_error: Option<String>,
    pub bookmarked: bool,
}

/// `SystemTime::now().duration_since(UNIX_EPOCH)`: the time since the Unix epoch by the
/// system clock, as whole seconds and the nanoseconds beyond them, or `None` when the clock is
/// set before the epoch. Which time comes back is up to the clock; a `Duration` always keeps
/// its nanoseconds below one second.
#[verifier::external_body]
fn since_epoch() -> (r: Option<(u64, u32)>)
    ensures
        r matches Some(t) ==> t.1 < 1000000000,
{
    match std::time::SystemTime::now().duration_since(std::time::UNIX_EPOCH) {
        Ok(d) => Some((d.as_secs(), d.subsec_nanos())),
        Err(_) => None,
    }
}

/// Whole milliseconds of a time since the epoch, cast to `i64` as `as` casts; a clock before
/// the epoch counts as 0.
pub open spec fn epoch_millis_of(since: Option<(u64, u32)>) -> i64 {
    match since {
        Some((s, n)) => (s * 1000 + n / 1000000) as i64,
        None => 0,
    }
}

/// Whole milliseconds of a time since the epoch; see `epoch_millis_of`.
pub fn epoch_millis(since: Option<(u64, u32)>) -> (r: i64)
    ensures
        r == epoch_millis_of(since),
{
    match since {
        Some((s, n)) => {
            let ms: u128 = (s as u128) * 1000 + (n / 1000000) as u128;
            ms as i64
        },
        None => 0,
    }
}

/// Milliseconds since the Unix epoch by the system clock (0 before the epoch).
pub fn now() -> (r: i64)
    ensures
        r == 0 || exists|s: u64, n: u32| n < 1000000000 && r == #[trigger] epoch_millis_of(Some((s, n))),
{
    let since = since_epoch();
    let r = epoch_millis(since);
    proof {
        if let Some((s, n)) = since {
            assert(r == epoch_millis_of(Some((s, n))));
        }
    }
    r
}

} // verus!

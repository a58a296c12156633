//! Looking up players in other regions.
use vstd::prelude::*;
use crate::domain::{Account, HistoryPage, StoredReview};
use crate::json::{Json, field, first_match, lemma_first_match_some, lemma_lookup_at, lemma_same_field, lemma_same_reads, member_of, members, same, same_member, json_items, json_text, json_u64, field_items, as_items, field_text, member};
use crate::lcu::{LcuError, client_error, parse_account};
use crate::sessions::{distinct_batch, is_distinct_batch, trim, trim_chars};
use crate::matches::{game_of, identity_for, participant_for, player_for, spec_validate_detail, validate_detail, account_in_game, find_player, plays_as, spec_account_in_game, spec_summary_checks, summary, summary_of};
use crate::projection::{pid, project, roster_ok, spec_project_ok};
use crate::regions::{ServerConfig, ServerEntry, servers_of, spec_platform};
use crate::text::{chars_of, eq_ignore_ascii_case, is_ascii_alphanumeric, owned, same_ignoring_ascii_case, slice_chars, str_eq, string_of, utf8_len};

verus! {

pub open spec fn nil_uuid() -> Seq<char> {
    "00000000-0000-0000-0000-000000000000"@
}

/// An opaque player identifier: 1 to 128 ASCII letters, digits, `-` or `_`, and not the nil UUID.
pub open spec fn spec_valid_puuid(v: Seq<char>) -> bool {
    &&& 0 < v.len() <= 128
    &&& forall|i: int| 0 <= i < v.len() ==> is_ascii_alphanumeric(#[trigger] v[i]) || v[i] == '-' || v[i] == '_'
    &&& v != nil_uuid()
}

#[verifier::loop_isolation(false)]
pub fn validate_puuid(value: &str) -> (r: Result<(), String>)
    ensures
        r is Ok <==> spec_valid_puuid(value@),
        r matches Err(e) ==> e@ == "player.invalidId"@,
{
    let v = chars_of(value);
    let mut ok = v.len() > 0 && v.len() <= 128;
    let mut i: usize = 0;
    while i < v.len()
        invariant
            i <= v@.len(),
            ok ==> forall|j: int| 0 <= j < i ==> is_ascii_alphanumeric(#[trigger] v@[j]) || v@[j] == '-'
                || v@[j] == '_',
            ok ==> 0 < v@.len() <= 128,
            !ok ==> !(0 < v@.len() <= 128 && forall|j: int| 0 <= j < v@.len() ==> is_ascii_alphanumeric(
                #[trigger] v@[j],
            ) || v@[j] == '-' || v@[j] == '_'),
        decreases v.len() - i,
    {
        let c = v[i];
        if !(('0' <= c && c <= '9') || ('A' <= c && c <= 'Z') || ('a' <= c && c <= 'z') || c == '-' || c
            == '_') {
            ok = false;
        }
        i = i + 1;
    }
    if ok && !crate::text::str_eq(value, "00000000-0000-0000-0000-000000000000") {
        Ok(())
    } else {
        Err(owned("player.invalidId"))
    }
}

/// The account a query addresses: `PLATFORM:PUUID` on the platform of `server`. This identity
/// does not assert membership in a region; only returned match rows do.
pub fn query_account(server: &str, puuid: &str) -> (r: Result<Account, String>)
    ensures
        match r {
            Ok(a) => spec_valid_puuid(puuid@) && crate::regions::spec_platform(server@) == Some(a.platform@)
                && a.id@ == a.platform@ + ":"@ + puuid@ && a.puuid@ == puuid@ && a.summoner_id@.len() == 0
                && a.riot_id@ == puuid@,
            Err(e) => if !spec_valid_puuid(puuid@) {
                e@ == "player.invalidId"@
            } else {
                crate::regions::spec_platform(server@) is None && e@ == "region.unsupported"@
            },
        },
{
    validate_puuid(puuid)?;
    let platform = crate::regions::platform(server)?;
    let mut id = platform.clone();
    id.append(":");
    id.append(puuid);
    Ok(Account { id, platform, puuid: owned(puuid), summoner_id: String::new(), riot_id: owned(puuid) })
}

/// The most games one backfill imports.
pub const BACKFILL_LIMIT: usize = 50;

/// Refuses a backfill that names no game, more than `BACKFILL_LIMIT`, or one game twice.
pub fn check_backfill(game_ids: &[String]) -> (r: Result<(), String>)
    ensures
        r is Ok <==> distinct_batch(game_ids@, BACKFILL_LIMIT as int),
        r matches Err(e) ==> e@ == "game.invalidId"@,
{
    if is_distinct_batch(game_ids, BACKFILL_LIMIT) {
        Ok(())
    } else {
        Err(owned("game.invalidId"))
    }
}

/// History is read in pages of twenty rows from offsets up to ten thousand.
pub fn check_history_start(start: u32) -> (r: Result<(), String>)
    ensures
        r is Ok <==> start <= 10000 && start % 20 == 0,
        r matches Err(e) ==> e@ == "query.invalidPage"@,
{
    if start > 10000 || start % 20 != 0 {
        Err(owned("query.invalidPage"))
    } else {
        Ok(())
    }
}

/// A match document names the player `puuid` among its identities.
pub open spec fn belongs(game: Json, puuid: Seq<char>) -> bool {
    json_items(field(game, "participantIdentities"@)) matches Some(ids) && first_match(ids, plays_as(puuid)) is Some
}

/// The stored form of a history row names the player `puuid`: among the row's own
/// identities, or, when it lists none, among the roster that its identities are rebuilt from.
pub open spec fn row_names_player(row: Json, puuid: Seq<char>, people: Seq<Json>) -> bool {
    match json_items(field(game_of(row), "participantIdentities"@)) {
        Some(ids) => first_match(ids, plays_as(puuid)) is Some,
        None => exists|i: int| 0 <= i < people.len() && json_text(field(#[trigger] people[i], "puuid"@)) == Some(puuid),
    }
}

/// `game` is what a page keeps of the history row `row`: the row is a game of `server`, `game`
/// is its stored form, it names the player and its roster can be projected.
pub open spec fn row_kept(servers: Seq<ServerEntry>, server: Seq<char>, puuid: Seq<char>, row: Json, game: Json) -> bool {
    &&& spec_summary_checks(servers, server, row) matches Ok((platform, people))
    &&& summary_of(game, row, platform, people)
    &&& row_names_player(row, puuid, people)
    &&& roster_ok(people)
}

/// A page skips the history row `row`: it is no game of `server`, or it does not name the
/// player, or its roster cannot be projected.
pub open spec fn row_skipped(servers: Seq<ServerEntry>, server: Seq<char>, puuid: Seq<char>, row: Json) -> bool {
    match spec_summary_checks(servers, server, row) {
        Err(_) => true,
        Ok((platform, people)) => !(row_names_player(row, puuid, people) && roster_ok(people)),
    }
}

proof fn lemma_same_lists_name(ids: Seq<Json>, other: Seq<Json>, puuid: Seq<char>)
    requires
        ids.len() == other.len(),
        forall|i: int| 0 <= i < ids.len() ==> same(#[trigger] ids[i], other[i]),
    ensures
        first_match(ids, plays_as(puuid)) is Some <==> first_match(other, plays_as(puuid)) is Some,
{
    lemma_first_match_some(ids, plays_as(puuid));
    lemma_first_match_some(other, plays_as(puuid));
    assert forall|i: int| 0 <= i < ids.len() implies #[trigger] plays_as(puuid)(ids[i]) == plays_as(puuid)(other[i]) by {
        lemma_same_field(ids[i], other[i], "player"@);
        lemma_same_field(field(ids[i], "player"@), field(other[i], "player"@), "puuid"@);
        lemma_same_reads(field(field(ids[i], "player"@), "puuid"@), field(field(other[i], "player"@), "puuid"@));
    }
    if first_match(ids, plays_as(puuid)) is Some {
        let w = choose|i: int| 0 <= i < ids.len() && #[trigger] plays_as(puuid)(ids[i]);
        assert(plays_as(puuid)(other[w]));
    }
    if first_match(other, plays_as(puuid)) is Some {
        let w = choose|i: int| 0 <= i < other.len() && #[trigger] plays_as(puuid)(other[i]);
        assert(plays_as(puuid)(ids[w]));
    }
}

proof fn lemma_same_rosters(ps: Seq<Json>, other: Seq<Json>)
    requires
        ps.len() == other.len(),
        forall|i: int| 0 <= i < ps.len() ==> pid(#[trigger] ps[i]) == pid(other[i]),
    ensures
        roster_ok(ps) <==> roster_ok(other),
{
    if roster_ok(ps) {
        assert forall|i: int, j: int| 0 <= i < j < other.len() implies pid(#[trigger] other[i]) != pid(#[trigger] other[j]) by {
            assert(pid(ps[i]) != pid(ps[j]));
        }
        assert forall|i: int| 0 <= i < other.len() implies pid(#[trigger] other[i]) != 0 by {
            assert(pid(ps[i]) != 0);
        }
    }
    if roster_ok(other) {
        assert forall|i: int, j: int| 0 <= i < j < ps.len() implies pid(#[trigger] ps[i]) != pid(#[trigger] ps[j]) by {
            assert(pid(other[i]) != pid(other[j]));
        }
        assert forall|i: int| 0 <= i < ps.len() implies pid(#[trigger] ps[i]) != 0 by {
            assert(pid(other[i]) != 0);
        }
    }
}

/// What the stored form of a history row shows: it names the player exactly when the row
/// does, and it can be projected exactly when the row's roster can.
pub proof fn lemma_stored_form(
    servers: Seq<ServerEntry>,
    server: Seq<char>,
    row: Json,
    result: Json,
    platform: Seq<char>,
    people: Seq<Json>,
    puuid: Seq<char>,
)
    requires
        spec_summary_checks(servers, server, row) == Ok::<(Seq<char>, Seq<Json>), Seq<char>>((platform, people)),
        summary_of(result, row, platform, people),
    ensures
        belongs(result, puuid) == row_names_player(row, puuid, people),
        spec_project_ok(result) == roster_ok(people),
{
    let game = game_of(row);
    reveal_strlit("participantIdentities");
    reveal_strlit("participants");
    reveal_strlit("platformId");
    reveal_strlit("player");
    reveal_strlit("puuid");
    reveal_strlit("participantId");
    reveal_strlit("championId");
    reveal_strlit("gameName");
    assert(json_items(field(game, "participants"@)) == Some(people));
    match json_items(field(game, "participantIdentities"@)) {
        Some(ids) => {
            assert(member_of(result, "participantIdentities"@) == member_of(result, "participantIdentities"@));
            assert(same_member(member_of(result, "participantIdentities"@), member_of(game, "participantIdentities"@)));
            assert(same_member(member_of(result, "participants"@), member_of(game, "participants"@)));
            assert(same(field(result, "participantIdentities"@), field(game, "participantIdentities"@)));
            assert(same(field(result, "participants"@), field(game, "participants"@)));
            lemma_same_reads(field(result, "participantIdentities"@), field(game, "participantIdentities"@));
            lemma_same_reads(field(result, "participants"@), field(game, "participants"@));
            let mine = json_items(field(result, "participantIdentities"@))->Some_0;
            lemma_same_lists_name(mine, ids, puuid);
            let ps = json_items(field(result, "participants"@))->Some_0;
            assert forall|i: int| 0 <= i < ps.len() implies pid(#[trigger] ps[i]) == pid(people[i]) by {
                lemma_same_field(ps[i], people[i], "participantId"@);
                lemma_same_reads(field(ps[i], "participantId"@), field(people[i], "participantId"@));
            }
            lemma_same_rosters(ps, people);
        },
        None => {
            let ids = json_items(field(result, "participantIdentities"@))->Some_0;
            let ps = json_items(field(result, "participants"@))->Some_0;
            assert forall|i: int| 0 <= i < ids.len() implies #[trigger] plays_as(puuid)(ids[i]) == (json_text(
                field(people[i], "puuid"@),
            ) == Some(puuid)) by {
                assert(identity_for(ids[i], people[i], platform));
                let m = members(ids[i]);
                assert(m[0].0@.len() != "player"@.len());
                lemma_lookup_at(m, "player"@, 1);
                let player = m[1].1;
                assert(player_for(player, people[i], platform));
                let n = members(player);
                assert(n[0].0@.len() != "puuid"@.len());
                assert(n[1].0@.len() != "puuid"@.len());
                lemma_lookup_at(n, "puuid"@, 2);
                lemma_same_reads(n[2].1, field(people[i], "puuid"@));
            }
            lemma_first_match_some(ids, plays_as(puuid));
            if belongs(result, puuid) {
                let w = choose|i: int| 0 <= i < ids.len() && #[trigger] plays_as(puuid)(ids[i]);
                assert(json_text(field(people[w], "puuid"@)) == Some(puuid));
            }
            if row_names_player(row, puuid, people) {
                let w = choose|i: int| 0 <= i < people.len() && json_text(field(#[trigger] people[i], "puuid"@)) == Some(puuid);
                assert(plays_as(puuid)(ids[w]));
            }
            assert forall|i: int| 0 <= i < ps.len() implies pid(#[trigger] ps[i]) == pid(people[i]) by {
                assert(participant_for(ps[i], people[i]));
                let m = members(ps[i]);
                assert(m[0].0@.len() != "participantId"@.len());
                lemma_lookup_at(m, "participantId"@, 1);
                lemma_same_reads(m[1].1, field(people[i], "participantId"@));
            }
            lemma_same_rosters(ps, people);
        },
    }
}

/// `games` are the rows of `rows` that a page keeps, in order, each skipped row left out.
pub open spec fn kept_rows(
    servers: Seq<ServerEntry>,
    server: Seq<char>,
    puuid: Seq<char>,
    rows: Seq<Json>,
    games: Seq<Json>,
) -> bool
    decreases rows.len(),
{
    if rows.len() == 0 {
        games.len() == 0
    } else {
        ||| games.len() > 0 && row_kept(servers, server, puuid, rows.last(), games.last()) && kept_rows(
            servers,
            server,
            puuid,
            rows.drop_last(),
            games.drop_last(),
        )
        ||| row_skipped(servers, server, puuid, rows.last()) && kept_rows(servers, server, puuid, rows.drop_last(), games)
    }
}

/// The account of the player in the first of `games` that names it.
pub open spec fn first_account(platform: Seq<char>, puuid: Seq<char>, games: Seq<Json>) -> Option<
    (Seq<char>, Seq<char>, Seq<char>, Seq<char>, Seq<char>),
>
    decreases games.len(),
{
    if games.len() == 0 {
        None
    } else {
        match spec_account_in_game(platform, puuid, games[0]) {
            Ok(a) => Some(a),
            Err(_) => first_account(platform, puuid, games.drop_first()),
        }
    }
}

/// A PUUID-only identity completed from the games of a page: its summoner id, and its Riot ID
/// where it had none but the PUUID. Empty pages invent no profile.
pub open spec fn enriched(
    account: (Seq<char>, Seq<char>, Seq<char>, Seq<char>, Seq<char>),
    games: Seq<Json>,
) -> (Seq<char>, Seq<char>, Seq<char>, Seq<char>, Seq<char>) {
    if account.3.len() != 0 {
        account
    } else {
        match first_account(account.1, account.2, games) {
            None => account,
            Some(found) => (
                account.0,
                account.1,
                account.2,
                found.3,
                if account.4 == account.2 {
                    found.4
                } else {
                    account.4
                },
            ),
        }
    }
}

proof fn lemma_first_account_step(platform: Seq<char>, puuid: Seq<char>, games: Seq<Json>, j: int)
    requires
        0 <= j < games.len(),
        spec_account_in_game(platform, puuid, games[j]) is Err,
    ensures
        first_account(platform, puuid, games.skip(j)) == first_account(platform, puuid, games.skip(j + 1)),
{
    assert(games.skip(j).drop_first() =~= games.skip(j + 1));
}

/// One page of a player's match history, read from the raw rows that `source` returned from
/// offset `start`: the rows that are games of `server` naming the player and that can be
/// projected, in order. Server offsets count every returned row, the skipped ones too, and a
/// full page of twenty rows may have a successor.
pub fn history_page(
    config: &ServerConfig,
    server: &str,
    account: Account,
    start: u32,
    source: &str,
    raw: &Vec<Json>,
) -> (r: Result<HistoryPage, String>)
    ensures
        match r {
            Ok(page) => {
                &&& spec_platform(server@) == Some(account.platform@)
                &&& kept_rows(servers_of(*config), server@, account.puuid@, raw@, page.games@)
                &&& raw@.len() > 0 ==> page.games@.len() > 0
                &&& page.games@.len() <= raw@.len()
                &&& page.skipped_games == #[verifier::truncate] ((raw@.len() - page.games@.len()) as u32)
                &&& page.has_more == (raw@.len() >= 20)
                &&& page.start == start && page.server@ == server@ && page.source@ == source@
                &&& page.account@ == enriched(account@, page.games@)
            },
            Err(e) => match spec_platform(server@) {
                None => e@ == "region.unsupported"@,
                Some(p) => if p != account.platform@ {
                    e@ == "game.identityMismatch"@
                } else {
                    &&& raw@.len() > 0
                    &&& kept_rows(servers_of(*config), server@, account.puuid@, raw@, Seq::empty())
                    &&& e@ == "game.historyUnreadable"@
                },
            },
        },
{
    let platform = crate::regions::platform(server)?;
    if !str_eq(platform.as_str(), account.platform.as_str()) {
        return Err(owned("game.identityMismatch"));
    }
    let ghost servers = servers_of(*config);
    let mut games: Vec<Json> = Vec::new();
    let mut i: usize = 0;
    while i < raw.len()
        invariant
            i <= raw@.len(),
            games@.len() <= i,
            spec_platform(server@) == Some(account.platform@),
            servers == servers_of(*config),
            kept_rows(servers, server@, account.puuid@, raw@.take(i as int), games@),
        decreases raw.len() - i,
    {
        let row = &raw[i];
        proof {
            assert(raw@.take(i + 1).drop_last() =~= raw@.take(i as int));
            assert(raw@.take(i + 1).last() == raw@[i as int]);
        }
        match summary(config, server, row) {
            Ok(game) => {
                let belongs_here = match field_items(&game, "participantIdentities") {
                    Some(ids) => find_player(ids, account.puuid.as_str()).is_some(),
                    None => false,
                };
                let projectable = project(&game).is_ok();
                proof {
                    let (pl, people) = spec_summary_checks(servers, server@, raw@[i as int])->Ok_0;
                    lemma_stored_form(servers, server@, raw@[i as int], game, pl, people, account.puuid@);
                }
                if belongs_here && projectable {
                    let ghost before = games@;
                    games.push(game);
                    proof {
                        assert(games@.drop_last() =~= before);
                    }
                }
            },
            Err(_) => {},
        }
        i = i + 1;
    }
    proof {
        assert(raw@.take(raw@.len() as int) =~= raw@);
    }
    if raw.len() > 0 && games.len() == 0 {
        proof {
            assert(games@ =~= Seq::<Json>::empty());
        }
        return Err(owned("game.historyUnreadable"));
    }
    let skipped = #[verifier::truncate] ((raw.len() - games.len()) as u32);
    let mut account = account;
    let ghost original = account@;
    if chars_of(account.summoner_id.as_str()).len() == 0 {
        let mut j: usize = 0;
        let mut found: Option<Account> = None;
        proof {
            assert(games@.skip(0) =~= games@);
        }
        while j < games.len()
            invariant_except_break
                found is None,
            invariant
                j <= games@.len(),
                account@ == original,
                original.3.len() == 0,
                first_account(original.1, original.2, games@) == first_account(
                    original.1,
                    original.2,
                    games@.skip(j as int),
                ),
            ensures
                match found {
                    Some(a) => first_account(original.1, original.2, games@) == Some(a@),
                    None => first_account(original.1, original.2, games@) is None,
                },
            decreases games.len() - j,
        {
            match account_in_game(account.platform.as_str(), account.puuid.as_str(), &games[j]) {
                Ok(a) => {
                    proof {
                        assert(games@.skip(j as int)[0] == games@[j as int]);
                    }
                    found = Some(a);
                    break;
                },
                Err(_) => {
                    proof {
                        lemma_first_account_step(original.1, original.2, games@, j as int);
                    }
                },
            }
            j = j + 1;
        }
        if let Some(a) = found {
            if str_eq(account.riot_id.as_str(), account.puuid.as_str()) {
                account.riot_id = a.riot_id;
            }
            account.summoner_id = a.summoner_id;
        }
    }
    Ok(HistoryPage {
        account,
        server: owned(server),
        games,
        start,
        has_more: raw.len() >= 20,
        skipped_games: skipped,
        source: owned(source),
    })
}

/// The last position of `c` in `s`.
pub open spec fn last_position(s: Seq<char>, c: char) -> Option<int>
    decreases s.len(),
{
    if s.len() == 0 {
        None
    } else if s.last() == c {
        Some(s.len() - 1)
    } else {
        last_position(s.drop_last(), c)
    }
}

/// A Riot ID `name#tag`, split at its last `#` after trimming: a name and a tag that are not
/// blank, of at most 128 and 32 bytes.
pub open spec fn spec_riot_id(riot_id: Seq<char>) -> Option<(Seq<char>, Seq<char>)> {
    let t = trim(riot_id);
    match last_position(t, '#') {
        None => None,
        Some(k) => {
            let name = t.subrange(0, k);
            let tag = t.subrange(k + 1, t.len() as int);
            if trim(name).len() > 0 && trim(tag).len() > 0 && vstd::utf8::encode_utf8(name).len() <= 128
                && vstd::utf8::encode_utf8(tag).len() <= 32 {
                Some((name, tag))
            } else {
                None
            }
        },
    }
}

proof fn lemma_last_position(s: Seq<char>, c: char)
    ensures
        last_position(s, c) matches Some(k) ==> 0 <= k < s.len() && s[k] == c && forall|j: int| k < j < s.len() ==> s[j] != c,
        last_position(s, c) is None ==> forall|j: int| 0 <= j < s.len() ==> s[j] != c,
    decreases s.len(),
{
    if s.len() > 0 {
        lemma_last_position(s.drop_last(), c);
        if s.last() != c {
            assert forall|j: int| 0 <= j < s.len() - 1 implies s[j] == s.drop_last()[j] by {}
        }
    }
}

/// Law: a Riot ID is split at its last `#`: after trimming, the text is the name, `#` and the
/// tag; the tag holds no `#`, and neither part is blank.
pub proof fn lemma_riot_id_parts(riot_id: Seq<char>)
    ensures
        spec_riot_id(riot_id) matches Some((name, tag)) ==> {
            &&& name + seq!['#'] + tag == trim(riot_id)
            &&& forall|j: int| 0 <= j < tag.len() ==> tag[j] != '#'
            &&& trim(name).len() > 0 && trim(tag).len() > 0
        },
{
    let t = trim(riot_id);
    lemma_last_position(t, '#');
    if let Some((name, tag)) = spec_riot_id(riot_id) {
        let k = last_position(t, '#')->0;
        assert(name + seq!['#'] + tag =~= t);
        assert forall|j: int| 0 <= j < tag.len() implies tag[j] != '#' by {
            assert(tag[j] == t[k + 1 + j]);
        }
    }
}

fn last_hash(s: &Vec<char>) -> (r: Option<usize>)
    ensures
        match r {
            Some(k) => last_position(s@, '#') == Some(k as int) && k < s@.len(),
            None => last_position(s@, '#') is None,
        },
{
    let mut n: usize = s.len();
    assert(s@.subrange(0, n as int) =~= s@);
    while n > 0
        invariant
            n <= s@.len(),
            last_position(s@, '#') == last_position(s@.subrange(0, n as int), '#'),
        decreases n,
    {
        if s[n - 1] == '#' {
            return Some(n - 1);
        }
        assert(s@.subrange(0, n as int).drop_last() =~= s@.subrange(0, n - 1));
        n = n - 1;
    }
    None
}

/// The name and tag of a Riot ID; `player.enterRiotId` when it is not one.
pub fn parse_riot_id(riot_id: &str) -> (r: Result<(String, String), String>)
    ensures
        match r {
            Ok((name, tag)) => spec_riot_id(riot_id@) == Some((name@, tag@)),
            Err(e) => spec_riot_id(riot_id@) is None && e@ == "player.enterRiotId"@,
        },
{
    let t = trim_chars(chars_of(riot_id).as_slice());
    let k = match last_hash(&t) {
        Some(k) => k,
        None => return Err(owned("player.enterRiotId")),
    };
    let name = slice_chars(t.as_slice(), 0, k);
    let tag = slice_chars(t.as_slice(), k + 1, t.len());
    if trim_chars(name.as_slice()).len() > 0 && trim_chars(tag.as_slice()).len() > 0 && utf8_len(name.as_slice())
        <= 128 && utf8_len(tag.as_slice()) <= 32 {
        Ok((string_of(name.as_slice()), string_of(tag.as_slice())))
    } else {
        Err(owned("player.enterRiotId"))
    }
}

/// An entry of the Riot Client's alias lookup that carries the Riot ID `name#tag`, ignoring
/// ASCII case.
pub open spec fn alias_matches(v: Json, name: Seq<char>, tag: Seq<char>) -> bool {
    &&& json_text(field(field(v, "alias"@), "game_name"@)) matches Some(g) && eq_ignore_ascii_case(g, name)
    &&& json_text(field(field(v, "alias"@), "tag_line"@)) matches Some(t) && eq_ignore_ascii_case(t, tag)
}

/// The entries of `s` that carry the Riot ID, in order.
pub open spec fn matching_aliases(s: Seq<Json>, name: Seq<char>, tag: Seq<char>) -> Seq<Json>
    decreases s.len(),
{
    if s.len() == 0 {
        Seq::empty()
    } else if alias_matches(s.last(), name, tag) {
        matching_aliases(s.drop_last(), name, tag).push(s.last())
    } else {
        matching_aliases(s.drop_last(), name, tag)
    }
}

/// The PUUID that an alias lookup gives for `name#tag`: that of its one matching entry.
pub open spec fn spec_select_alias(aliases: Json, name: Seq<char>, tag: Seq<char>) -> Result<Seq<char>, Seq<char>> {
    match json_items(aliases) {
        None => Err("game.invalidData"@),
        Some(items) => {
            let found = matching_aliases(items, name, tag);
            if found.len() > 1 {
                Err("player.ambiguous"@)
            } else if found.len() == 0 {
                Err("player.notFound"@)
            } else {
                match json_text(field(found[0], "puuid"@)) {
                    Some(p) => if spec_valid_puuid(p) {
                        Ok(p)
                    } else {
                        Err("player.invalidId"@)
                    },
                    None => Err("player.invalidId"@),
                }
            }
        },
    }
}

fn alias_matches_exec(v: &Json, name: &str, tag: &str) -> (r: bool)
    ensures
        r == alias_matches(*v, name@, tag@),
{
    let alias = match member(v, "alias") {
        Some(a) => a,
        None => &Json::Null,
    };
    let game_name = match field_text(alias, "game_name") {
        Some(g) => g,
        None => return false,
    };
    let tag_line = match field_text(alias, "tag_line") {
        Some(t) => t,
        None => return false,
    };
    same_ignoring_ascii_case(game_name, name) && same_ignoring_ascii_case(tag_line, tag)
}

/// The PUUID of the one entry of an alias lookup that carries the Riot ID `name#tag`.
pub fn select_alias(aliases: &Json, name: &str, tag: &str) -> (r: Result<String, String>)
    ensures
        match r {
            Ok(p) => spec_select_alias(*aliases, name@, tag@) == Ok::<Seq<char>, Seq<char>>(p@),
            Err(e) => spec_select_alias(*aliases, name@, tag@) == Err::<Seq<char>, Seq<char>>(e@),
        },
{
    let items = match as_items(aliases) {
        Some(items) => items,
        None => return Err(owned("game.invalidData")),
    };
    let mut count: usize = 0;
    let mut first: usize = 0;
    let mut i: usize = 0;
    while i < items.len()
        invariant
            i <= items@.len(),
            count <= i,
            count == matching_aliases(items@.take(i as int), name@, tag@).len(),
            count > 0 ==> first < items@.len() && matching_aliases(items@.take(i as int), name@, tag@)[0]
                == items@[first as int],
        decreases items.len() - i,
    {
        proof {
            assert(items@.take(i + 1).drop_last() =~= items@.take(i as int));
            assert(items@.take(i + 1).last() == items@[i as int]);
        }
        if alias_matches_exec(&items[i], name, tag) {
            if count == 0 {
                first = i;
            }
            count = count + 1;
        }
        i = i + 1;
    }
    assert(items@.take(items@.len() as int) =~= items@);
    if count > 1 {
        return Err(owned("player.ambiguous"));
    }
    if count == 0 {
        return Err(owned("player.notFound"));
    }
    let puuid = match field_text(&items[first], "puuid") {
        Some(p) => p,
        None => return Err(owned("player.invalidId")),
    };
    validate_puuid(puuid)?;
    Ok(owned(puuid))
}

/// What a failed alias lookup is reported as when the player is looked up in another region:
/// a missing Riot Client endpoint is reported as such.
pub fn alias_error(error: LcuError) -> (r: String)
    ensures
        r@ == if error == LcuError::NotFound {
            "player.riotClientUnavailable"@
        } else {
            "client."@ + crate::lcu::error_name(error)
        },
{
    if error == LcuError::NotFound {
        owned("player.riotClientUnavailable")
    } else {
        client_error(error)
    }
}

/// The account that the local client's summoner alias lookup gives: its one entry, read as a
/// profile on `platform`; `player.notFound` when it gives no list of exactly one entry.
pub fn alias_account(platform: &str, raw: &Json) -> (r: Result<Account, String>)
    ensures
        match r {
            Ok(a) => json_items(*raw) matches Some(players) && players.len() == 1
                && crate::matches::spec_account_from_profile(platform@, players[0]) == Some(a@),
            Err(e) => match json_items(*raw) {
                Some(players) => if players.len() == 1 {
                    crate::matches::spec_account_from_profile(platform@, players[0]) is None && e@ == "client.InvalidData"@
                } else {
                    e@ == "player.notFound"@
                },
                None => e@ == "player.notFound"@,
            },
        },
{
    let players = match as_items(raw) {
        Some(p) => p,
        None => return Err(owned("player.notFound")),
    };
    if players.len() != 1 {
        return Err(owned("player.notFound"));
    }
    match parse_account(platform, &players[0]) {
        Ok(a) => Ok(a),
        Err(e) => {
            let r = client_error(e);
            proof {
                reveal_strlit("client.");
                reveal_strlit("InvalidData");
                reveal_strlit("client.InvalidData");
                assert(r@ =~= "client.InvalidData"@);
            }
            Err(r)
        },
    }
}

/// The account of a player found in another region by Riot ID: the query account of its PUUID,
/// named `name#tag`.
pub fn named_account(server: &str, puuid: &str, name: &str, tag: &str) -> (r: Result<Account, String>)
    ensures
        match r {
            Ok(a) => spec_valid_puuid(puuid@) && spec_platform(server@) == Some(a.platform@) && a.id@ == a.platform@
                + ":"@ + puuid@ && a.puuid@ == puuid@ && a.summoner_id@.len() == 0 && a.riot_id@ == name@ + "#"@
                + tag@,
            Err(e) => if !spec_valid_puuid(puuid@) {
                e@ == "player.invalidId"@
            } else {
                spec_platform(server@) is None && e@ == "region.unsupported"@
            },
        },
{
    let mut account = query_account(server, puuid)?;
    let mut riot_id = owned(name);
    riot_id.append("#");
    riot_id.append(tag);
    account.riot_id = riot_id;
    Ok(account)
}

/// A game fetched for review from `source`: the summary's number must be the requested game,
/// the player must take part in it on `platform`, and it must be that account's finished game.
/// A failed timeline is kept as the review's timeline error.
pub open spec fn spec_fetched_review(platform: Seq<char>, game_id: Seq<char>, puuid: Seq<char>, detail: Json) -> Result<
    (Seq<char>, (Seq<char>, Seq<char>, Seq<char>, Seq<char>, Seq<char>)),
    Seq<char>,
> {
    if !(json_u64(field(detail, "gameId"@)) matches Some(n) && crate::text::decimal(n as nat) == game_id) {
        Err("game.identityMismatch"@)
    } else {
        match spec_account_in_game(platform, puuid, detail) {
            Err(e) => Err(e),
            Ok(a) => {
                let id = platform + "_"@ + game_id;
                if spec_validate_detail(id, a.1, a.2, detail) is Ok {
                    Ok((id, a))
                } else {
                    Err("game.invalidData"@)
                }
            },
        }
    }
}

/// The review of a game fetched from the client or the match-history gateway; see
/// `spec_fetched_review`.
pub fn fetched_review(
    server: &str,
    platform: &str,
    game_id: &str,
    puuid: &str,
    detail: Json,
    timeline: Result<Json, String>,
    source: &str,
) -> (r: Result<StoredReview, String>)
    ensures
        match r {
            Ok(game) => {
                &&& spec_fetched_review(platform@, game_id@, puuid@, detail) == Ok::<
                    (Seq<char>, (Seq<char>, Seq<char>, Seq<char>, Seq<char>, Seq<char>)),
                    Seq<char>,
                >((game.id@, game.account@))
                &&& game.server@ == server@ && game.detail == detail && game.source@ == source@ && !game.bookmarked
                &&& match timeline {
                    Ok(t) => game.timeline == Some(t) && game.timeline_error is None,
                    Err(e) => game.timeline is None && game.timeline_error == Some(e),
                }
            },
            Err(e) => spec_fetched_review(platform@, game_id@, puuid@, detail) == Err::<
                (Seq<char>, (Seq<char>, Seq<char>, Seq<char>, Seq<char>, Seq<char>)),
                Seq<char>,
            >(e@),
        },
{
    let same_game = match crate::json::field_u64(&detail, "gameId") {
        Some(n) => str_eq(crate::text::decimal_text(n).as_str(), game_id),
        None => false,
    };
    if !same_game {
        return Err(owned("game.identityMismatch"));
    }
    let account = account_in_game(platform, puuid, &detail)?;
    let mut id = owned(platform);
    id.append("_");
    id.append(game_id);
    if validate_detail(id.as_str(), &account, &detail).is_err() {
        return Err(owned("game.invalidData"));
    }
    let (timeline, timeline_error) = match timeline {
        Ok(t) => (Some(t), None),
        Err(e) => (None, Some(e)),
    };
    Ok(StoredReview {
        id,
        server: owned(server),
        account,
        detail,
        timeline,
        source: owned(source),
        timeline_error,
        bookmarked: false,
    })
}

} // verus!

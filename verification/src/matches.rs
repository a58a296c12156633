//! Players, games and timelines read out of the match documents that the local client and
//! the match history service return.
use vstd::prelude::*;
use crate::domain::Account;
use crate::json::{
    Json, field, first_match, json_bool, json_items, json_text, json_u64, lemma_first_match,
    lemma_no_match, member_of, field_bool, field_items, field_text, field_u64, member, same, json_eq,
    json_clone, members, same_member, set_member, lemma_same_members,
};
use crate::domain::{spec_valid_game_id, validate_game_id};
use crate::text::{eq_ignore_ascii_case, same_ignoring_ascii_case, str_eq};
use crate::regions::{ServerConfig, ServerEntry, path_alias, servers_of, spec_platform};
use crate::library::nil_uuid;
use crate::resume::str_view;
use crate::text::{decimal, decimal_text, owned, parse_decimal, chars_of, spec_parse_decimal};

verus! {

/// A text that is present and not empty.
pub open spec fn nonempty(t: Option<Seq<char>>) -> Option<Seq<char>> {
    match t {
        Some(s) => if s.len() > 0 {
            Some(s)
        } else {
            None
        },
        None => None,
    }
}

/// A PUUID that an account can carry: not empty, at most 128 bytes, not the nil UUID.
pub open spec fn account_puuid(p: Seq<char>) -> bool {
    p.len() > 0 && vstd::utf8::encode_utf8(p).len() <= 128 && p != nil_uuid()
}

/// The account that a player's values describe: a usable PUUID, a positive summoner id, and
/// `gameName#tagLine` for a Riot ID when both are given, else the display name.
pub open spec fn spec_account_of(
    platform: Seq<char>,
    puuid: Option<Seq<char>>,
    summoner: Option<u64>,
    game_name: Option<Seq<char>>,
    tag: Option<Seq<char>>,
    display: Option<Seq<char>>,
) -> Option<(Seq<char>, Seq<char>, Seq<char>, Seq<char>, Seq<char>)> {
    let riot = match (nonempty(game_name), nonempty(tag)) {
        (Some(n), Some(t)) => Some(n + "#"@ + t),
        _ => nonempty(display),
    };
    match (puuid, summoner, riot) {
        (Some(p), Some(s), Some(r)) => if account_puuid(p) && s > 0 {
            Some((platform + ":"@ + p, platform, p, decimal(s as nat), r))
        } else {
            None
        },
        _ => None,
    }
}

/// The account of a player profile (`puuid`, `summonerId`, `gameName`, `tagLine`,
/// `displayName`) on `platform`.
pub open spec fn spec_account_from_profile(platform: Seq<char>, v: Json) -> Option<
    (Seq<char>, Seq<char>, Seq<char>, Seq<char>, Seq<char>),
> {
    spec_account_of(
        platform,
        json_text(field(v, "puuid"@)),
        json_u64(field(v, "summonerId"@)),
        json_text(field(v, "gameName"@)),
        json_text(field(v, "tagLine"@)),
        json_text(field(v, "displayName"@)),
    )
}

/// The account of a match participant's `player` object: as a profile, where a summoner id
/// may also be given as decimal text, and the display name is the summoner name.
pub open spec fn spec_participant_account(platform: Seq<char>, player: Json) -> Option<
    (Seq<char>, Seq<char>, Seq<char>, Seq<char>, Seq<char>),
> {
    if !(player is Object) {
        None
    } else {
        let sid = field(player, "summonerId"@);
        let summoner = match json_text(sid) {
            Some(t) => spec_parse_decimal(t, u64::MAX),
            None => json_u64(sid),
        };
        spec_account_of(
            platform,
            json_text(field(player, "puuid"@)),
            summoner,
            json_text(field(player, "gameName"@)),
            json_text(field(player, "tagLine"@)),
            json_text(field(player, "summonerName"@)),
        )
    }
}

pub(crate) fn nonempty_text(t: Option<&str>) -> (r: Option<&str>)
    ensures
        str_view(r) == nonempty(str_view(t)),
{
    match t {
        Some(s) => if s.is_empty() {
            None
        } else {
            Some(s)
        },
        None => None,
    }
}

fn account_of(
    platform: &str,
    puuid: Option<&str>,
    summoner: Option<u64>,
    game_name: Option<&str>,
    tag: Option<&str>,
    display: Option<&str>,
) -> (r: Result<Account, String>)
    ensures
        match r {
            Ok(a) => spec_account_of(
                platform@,
                str_view(puuid),
                summoner,
                str_view(game_name),
                str_view(tag),
                str_view(display),
            ) == Some(a@),
            Err(e) => spec_account_of(
                platform@,
                str_view(puuid),
                summoner,
                str_view(game_name),
                str_view(tag),
                str_view(display),
            ) is None && e@ == "game.invalidData"@,
        },
{
    let p = match puuid {
        Some(p) => p,
        None => return Err(owned("game.invalidData")),
    };
    if p.is_empty() || p.as_bytes().len() > 128 || crate::text::str_eq(p, "00000000-0000-0000-0000-000000000000") {
        return Err(owned("game.invalidData"));
    }
    let s = match summoner {
        Some(s) => s,
        None => return Err(owned("game.invalidData")),
    };
    if s == 0 {
        return Err(owned("game.invalidData"));
    }
    let riot = match (nonempty_text(game_name), nonempty_text(tag)) {
        (Some(n), Some(t)) => {
            let mut r = owned(n);
            r.append("#");
            r.append(t);
            r
        },
        _ => match nonempty_text(display) {
            Some(d) => owned(d),
            None => return Err(owned("game.invalidData")),
        },
    };
    let mut id = owned(platform);
    id.append(":");
    id.append(p);
    Ok(Account {
        id,
        platform: owned(platform),
        puuid: owned(p),
        summoner_id: decimal_text(s),
        riot_id: riot,
    })
}

/// The account that a player profile describes on `platform`.
pub fn account_from_profile(platform: &str, value: &Json) -> (r: Result<Account, String>)
    ensures
        match r {
            Ok(a) => spec_account_from_profile(platform@, *value) == Some(a@),
            Err(e) => spec_account_from_profile(platform@, *value) is None && e@ == "game.invalidData"@,
        },
{
    account_of(
        platform,
        field_text(value, "puuid"),
        field_u64(value, "summonerId"),
        field_text(value, "gameName"),
        field_text(value, "tagLine"),
        field_text(value, "displayName"),
    )
}

fn participant_account(platform: &str, player: &Json) -> (r: Result<Account, String>)
    ensures
        match r {
            Ok(a) => spec_participant_account(platform@, *player) == Some(a@),
            Err(e) => spec_participant_account(platform@, *player) is None && e@ == "game.invalidData"@,
        },
{
    if !(match player {
        Json::Object(_) => true,
        _ => false,
    }) {
        return Err(owned("game.invalidData"));
    }
    let summoner = match member(player, "summonerId") {
        Some(Json::Text(t)) => parse_decimal(chars_of(t.as_str()).as_slice(), u64::MAX),
        Some(v) => crate::json::as_u64(v),
        None => None,
    };
    account_of(
        platform,
        field_text(player, "puuid"),
        summoner,
        field_text(player, "gameName"),
        field_text(player, "tagLine"),
        field_text(player, "summonerName"),
    )
}

/// The `participantIdentities` of a match, or none.
pub open spec fn identities(detail: Json) -> Seq<Json> {
    match json_items(field(detail, "participantIdentities"@)) {
        Some(s) => s,
        None => Seq::empty(),
    }
}

/// The accounts of the identities, in order, leaving out those that describe no account.
pub open spec fn spec_participant_accounts(platform: Seq<char>, ids: Seq<Json>) -> Seq<
    (Seq<char>, Seq<char>, Seq<char>, Seq<char>, Seq<char>),
>
    decreases ids.len(),
{
    if ids.len() == 0 {
        Seq::empty()
    } else {
        let rest = spec_participant_accounts(platform, ids.drop_last());
        match spec_participant_account(platform, field(ids.last(), "player"@)) {
            Some(a) => rest.push(a),
            None => rest,
        }
    }
}

/// The accounts of every participant of a match whose identity describes one.
pub fn participant_accounts(platform: &str, detail: &Json) -> (r: Vec<Account>)
    ensures
        r@.map_values(|a: Account| a@) == spec_participant_accounts(platform@, identities(*detail)),
{
    let mut out: Vec<Account> = Vec::new();
    let ids = match field_items(detail, "participantIdentities") {
        Some(ids) => ids,
        None => return out,
    };
    let mut i: usize = 0;
    while i < ids.len()
        invariant
            i <= ids@.len(),
            ids@ == identities(*detail),
            out@.map_values(|a: Account| a@) == spec_participant_accounts(platform@, ids@.take(i as int)),
        decreases ids.len() - i,
    {
        assert(ids@.take(i + 1).drop_last() =~= ids@.take(i as int));
        let player = match member(&ids[i], "player") {
            Some(p) => p,
            None => &Json::Null,
        };
        match participant_account(platform, player) {
            Ok(a) => {
                out.push(a);
            },
            Err(_) => {},
        }
        i = i + 1;
        assert(out@.map_values(|a: Account| a@) =~= spec_participant_accounts(platform@, ids@.take(i as int)));
    }
    assert(ids@.take(i as int) =~= ids@);
    out
}

/// The identity plays as `puuid`.
pub open spec fn plays_as(puuid: Seq<char>) -> spec_fn(Json) -> bool {
    |identity: Json| json_text(field(field(identity, "player"@), "puuid"@)) == Some(puuid)
}

/// The account of the player `puuid` in a match: the first identity with that PUUID.
pub open spec fn spec_account_in_game(platform: Seq<char>, puuid: Seq<char>, detail: Json) -> Result<
    (Seq<char>, Seq<char>, Seq<char>, Seq<char>, Seq<char>),
    Seq<char>,
> {
    match json_items(field(detail, "participantIdentities"@)) {
        None => Err("game.playerMissing"@),
        Some(ids) => match first_match(ids, plays_as(puuid)) {
            None => Err("game.playerMissing"@),
            Some(i) => match spec_participant_account(platform, field(ids[i], "player"@)) {
                Some(a) => Ok(a),
                None => Err("game.invalidData"@),
            },
        },
    }
}

/// The first identity of a list that plays as `puuid`.
pub(crate) fn find_player<'a>(ids: &'a Vec<Json>, puuid: &str) -> (r: Option<usize>)
    ensures
        match r {
            Some(i) => first_match(ids@, plays_as(puuid@)) == Some(i as int),
            None => first_match(ids@, plays_as(puuid@)) is None,
        },
{
    let mut i: usize = 0;
    while i < ids.len()
        invariant
            i <= ids@.len(),
            forall|j: int| 0 <= j < i ==> !plays_as(puuid@)(#[trigger] ids@[j]),
        decreases ids.len() - i,
    {
        let player = member(&ids[i], "player");
        let found = match player {
            Some(p) => match field_text(p, "puuid") {
                Some(t) => crate::text::str_eq(t, puuid),
                None => false,
            },
            None => false,
        };
        if found {
            proof {
                lemma_first_match(ids@, plays_as(puuid@), i as int);
            }
            return Some(i);
        }
        i = i + 1;
    }
    proof {
        lemma_no_match(ids@, plays_as(puuid@));
    }
    None
}

/// The account of the player `puuid` as a match document describes it.
pub fn account_in_game(platform: &str, puuid: &str, detail: &Json) -> (r: Result<Account, String>)
    ensures
        match r {
            Ok(a) => spec_account_in_game(platform@, puuid@, *detail) == Ok::<
                (Seq<char>, Seq<char>, Seq<char>, Seq<char>, Seq<char>),
                Seq<char>,
            >(a@),
            Err(e) => spec_account_in_game(platform@, puuid@, *detail) == Err::<
                (Seq<char>, Seq<char>, Seq<char>, Seq<char>, Seq<char>),
                Seq<char>,
            >(e@),
        },
{
    let ids = match field_items(detail, "participantIdentities") {
        Some(ids) => ids,
        None => return Err(owned("game.playerMissing")),
    };
    let i = match find_player(ids, puuid) {
        Some(i) => i,
        None => return Err(owned("game.playerMissing")),
    };
    let player = match member(&ids[i], "player") {
        Some(p) => p,
        None => &Json::Null,
    };
    participant_account(platform, player)
}

/// The value's member `key` equals `wanted`.
pub open spec fn has_value(key: Seq<char>, wanted: Json) -> spec_fn(Json) -> bool {
    |x: Json| same(field(x, key), wanted)
}

/// The participant whose `participantId` equals that of `identity`.
pub open spec fn same_participant(identity: Json) -> spec_fn(Json) -> bool {
    has_value("participantId"@, field(identity, "participantId"@))
}

/// Whether a match document is the finished game `game` (`PLATFORM_NUMBER`) of the account
/// (`platform`, `puuid`), and if so the account's participant: the game number is canonical,
/// the platform matches ignoring ASCII case, the game has a duration, the account has an
/// identity and a participant, and that participant has a result.
pub open spec fn spec_validate_detail(game: Seq<char>, platform: Seq<char>, puuid: Seq<char>, detail: Json) -> Result<
    Json,
    Seq<char>,
> {
    match json_u64(field(detail, "gameId"@)) {
        None => Err("game.invalidId"@),
        Some(n) => if !spec_valid_game_id(decimal(n as nat)) {
            Err("game.invalidId"@)
        } else {
            match json_text(field(detail, "platformId"@)) {
                None => Err("game.invalidData"@),
                Some(pl) => if !eq_ignore_ascii_case(pl, platform) || platform + "_"@ + decimal(n as nat) != game {
                    Err("game.identityMismatch"@)
                } else if match json_u64(field(detail, "gameDuration"@)) {
                    Some(d) => d == 0,
                    None => true,
                } {
                    Err("game.notFinished"@)
                } else {
                    match json_items(field(detail, "participantIdentities"@)) {
                        None => Err("game.playerMissing"@),
                        Some(ids) => match first_match(ids, plays_as(puuid)) {
                            None => Err("game.playerMissing"@),
                            Some(i) => match json_items(field(detail, "participants"@)) {
                                None => Err("game.playerMissing"@),
                                Some(ps) => match first_match(ps, same_participant(ids[i])) {
                                    None => Err("game.playerMissing"@),
                                    Some(j) => if json_bool(field(field(ps[j], "stats"@), "win"@)) is None {
                                        Err("game.notFinished"@)
                                    } else {
                                        Ok(ps[j])
                                    },
                                },
                            },
                        },
                    }
                },
            }
        },
    }
}

/// The first value of a list whose member `key` equals `wanted`.
pub fn find_same(list: &Vec<Json>, key: &str, wanted: &Json) -> (r: Option<usize>)
    ensures
        match r {
            Some(j) => first_match(list@, has_value(key@, *wanted)) == Some(j as int),
            None => first_match(list@, has_value(key@, *wanted)) is None,
        },
{
    let mut j: usize = 0;
    while j < list.len()
        invariant
            j <= list@.len(),
            forall|k: int| 0 <= k < j ==> !has_value(key@, *wanted)(#[trigger] list@[k]),
        decreases list.len() - j,
    {
        let id = match member(&list[j], key) {
            Some(v) => v,
            None => &Json::Null,
        };
        if json_eq(id, wanted) {
            proof {
                lemma_first_match(list@, has_value(key@, *wanted), j as int);
            }
            return Some(j);
        }
        j = j + 1;
    }
    proof {
        lemma_no_match(list@, has_value(key@, *wanted));
    }
    None
}

/// Checks that a match document is the finished game `game` of `account`, and gives the
/// account's participant.
pub fn validate_detail<'a>(game: &str, account: &Account, detail: &'a Json) -> (r: Result<&'a Json, String>)
    ensures
        match r {
            Ok(p) => spec_validate_detail(game@, account.platform@, account.puuid@, *detail) == Ok::<
                Json,
                Seq<char>,
            >(*p),
            Err(e) => spec_validate_detail(game@, account.platform@, account.puuid@, *detail) == Err::<
                Json,
                Seq<char>,
            >(e@),
        },
{
    let n = match field_u64(detail, "gameId") {
        Some(n) => n,
        None => return Err(owned("game.invalidId")),
    };
    let number = decimal_text(n);
    validate_game_id(number.as_str())?;
    let platform = match field_text(detail, "platformId") {
        Some(p) => p,
        None => return Err(owned("game.invalidData")),
    };
    let mut expected = owned(account.platform.as_str());
    expected.append("_");
    expected.append(number.as_str());
    if !same_ignoring_ascii_case(platform, account.platform.as_str()) || !str_eq(expected.as_str(), game) {
        return Err(owned("game.identityMismatch"));
    }
    let finished = match field_u64(detail, "gameDuration") {
        Some(d) => d != 0,
        None => false,
    };
    if !finished {
        return Err(owned("game.notFinished"));
    }
    let ids = match field_items(detail, "participantIdentities") {
        Some(ids) => ids,
        None => return Err(owned("game.playerMissing")),
    };
    let i = match find_player(ids, account.puuid.as_str()) {
        Some(i) => i,
        None => return Err(owned("game.playerMissing")),
    };
    let ps = match field_items(detail, "participants") {
        Some(ps) => ps,
        None => return Err(owned("game.playerMissing")),
    };
    let wanted = match member(&ids[i], "participantId") {
        Some(v) => v,
        None => &Json::Null,
    };
    let j = match find_same(ps, "participantId", wanted) {
        Some(j) => j,
        None => return Err(owned("game.playerMissing")),
    };
    let stats = match member(&ps[j], "stats") {
        Some(s) => s,
        None => &Json::Null,
    };
    if field_bool(stats, "win").is_none() {
        return Err(owned("game.notFinished"));
    }
    Ok(&ps[j])
}

/// A timeline frame: an object with a list of events.
pub open spec fn frame_ok(f: Json) -> bool {
    f is Object && json_items(field(f, "events"@)) is Some
}

/// Every frame is an object with a list of events.
pub open spec fn frames_ok(frames: Seq<Json>) -> bool {
    forall|i: int| 0 <= i < frames.len() ==> frame_ok(#[trigger] frames[i])
}

/// `payload.metadata.match_id`, when both members are there.
pub open spec fn match_identity(payload: Json) -> Option<Json> {
    match member_of(payload, "metadata"@) {
        Some(m) => member_of(m, "match_id"@),
        None => None,
    }
}

/// `id` names `game_id` on `server`: as `SUB_N`, `PLATFORM_N` or `SERVER_N`, ignoring ASCII
/// case.
pub open spec fn names_game(servers: Seq<ServerEntry>, server: Seq<char>, game_id: Seq<char>, id: Seq<char>) -> bool {
    ||| eq_ignore_ascii_case(id, path_alias(servers, server) + "_"@ + game_id)
    ||| eq_ignore_ascii_case(id, spec_platform(server)->0 + "_"@ + game_id)
    ||| eq_ignore_ascii_case(id, server + "_"@ + game_id)
}

/// A timeline `value` (found in `payload`) is one of game `game_id` on `server`: a canonical
/// game number that `value.gameId` repeats when it is required or given, frames that are
/// objects with event lists, and a match identity, when the payload has one, that names the
/// game.
pub open spec fn spec_validate_timeline(
    servers: Seq<ServerEntry>,
    server: Seq<char>,
    game_id: Seq<char>,
    payload: Json,
    value: Json,
    require_id: bool,
) -> Result<(), Seq<char>> {
    if !spec_valid_game_id(game_id) {
        Err("game.invalidId"@)
    } else if (require_id || member_of(value, "gameId"@) is Some) && match json_u64(field(value, "gameId"@)) {
        Some(n) => decimal(n as nat) != game_id,
        None => true,
    } {
        Err("game.invalidTimeline"@)
    } else {
        match json_items(field(value, "frames"@)) {
            None => Err("game.invalidTimeline"@),
            Some(frames) => if !frames_ok(frames) {
                Err("game.invalidTimeline"@)
            } else {
                match match_identity(payload) {
                    None => Ok(()),
                    Some(identity) => match json_text(identity) {
                        None => Err("game.identityMismatch"@),
                        Some(id) => if spec_platform(server) is None {
                            Err("region.unsupported"@)
                        } else if !names_game(servers, server, game_id, id) {
                            Err("game.identityMismatch"@)
                        } else {
                            Ok(())
                        },
                    },
                }
            },
        }
    }
}

fn frame_ok_of(f: &Json) -> (r: bool)
    ensures
        r == frame_ok(*f),
{
    match f {
        Json::Object(_) => field_items(f, "events").is_some(),
        _ => false,
    }
}

#[verifier::loop_isolation(false)]
fn validate_timeline(
    config: &ServerConfig,
    server: &str,
    game_id: &str,
    payload: &Json,
    value: &Json,
    require_id: bool,
) -> (r: Result<(), String>)
    ensures
        match r {
            Ok(()) => spec_validate_timeline(servers_of(*config), server@, game_id@, *payload, *value, require_id)
                is Ok,
            Err(e) => spec_validate_timeline(servers_of(*config), server@, game_id@, *payload, *value, require_id)
                == Err::<(), Seq<char>>(e@),
        },
{
    validate_game_id(game_id)?;
    if require_id || member(value, "gameId").is_some() {
        let same_id = match field_u64(value, "gameId") {
            Some(n) => str_eq(decimal_text(n).as_str(), game_id),
            None => false,
        };
        if !same_id {
            return Err(owned("game.invalidTimeline"));
        }
    }
    let frames = match field_items(value, "frames") {
        Some(f) => f,
        None => return Err(owned("game.invalidTimeline")),
    };
    let mut i: usize = 0;
    while i < frames.len()
        invariant
            i <= frames@.len(),
            forall|j: int| 0 <= j < i ==> frame_ok(#[trigger] frames@[j]),
        decreases frames.len() - i,
    {
        if !frame_ok_of(&frames[i]) {
            assert(!frame_ok(frames@[i as int]));
            return Err(owned("game.invalidTimeline"));
        }
        i = i + 1;
    }
    let identity = match member(payload, "metadata") {
        Some(m) => member(m, "match_id"),
        None => None,
    };
    if let Some(identity) = identity {
        let id = match crate::json::as_text(identity) {
            Some(id) => id,
            None => return Err(owned("game.identityMismatch")),
        };
        let sub = config.path_region(server)?;
        let platform = crate::regions::platform(server)?;
        let mut a = sub;
        a.append("_");
        a.append(game_id);
        let mut b = platform;
        b.append("_");
        b.append(game_id);
        let mut c = owned(server);
        c.append("_");
        c.append(game_id);
        if !(same_ignoring_ascii_case(id, a.as_str()) || same_ignoring_ascii_case(id, b.as_str())
            || same_ignoring_ascii_case(id, c.as_str())) {
            return Err(owned("game.identityMismatch"));
        }
    }
    Ok(())
}

/// A timeline as the local client returns it, `{ frames }`: checked against the game that was
/// requested, and returned unchanged.
pub fn lcu_timeline(config: &ServerConfig, server: &str, game_id: &str, payload: Json) -> (r: Result<Json, String>)
    ensures
        match r {
            Ok(t) => t == payload && member_of(payload, "json"@) is None && spec_validate_timeline(
                servers_of(*config),
                server@,
                game_id@,
                payload,
                payload,
                false,
            ) is Ok,
            Err(e) => if member_of(payload, "json"@) is Some {
                e@ == "game.invalidTimeline"@
            } else {
                spec_validate_timeline(servers_of(*config), server@, game_id@, payload, payload, false) == Err::<
                    (),
                    Seq<char>,
                >(e@)
            },
        },
{
    if member(&payload, "json").is_some() {
        return Err(owned("game.invalidTimeline"));
    }
    validate_timeline(config, server, game_id, &payload, &payload, false)?;
    Ok(payload)
}

/// A timeline as the match history service returns it, `{ metadata, json }`: its `json`
/// member, checked against the game that was requested, which it must name.
pub fn sgp_timeline(config: &ServerConfig, server: &str, game_id: &str, payload: Json) -> (r: Result<Json, String>)
    ensures
        match r {
            Ok(t) => member_of(payload, "json"@) == Some(t) && spec_validate_timeline(
                servers_of(*config),
                server@,
                game_id@,
                payload,
                t,
                true,
            ) is Ok,
            Err(e) => match member_of(payload, "json"@) {
                None => e@ == "game.invalidTimeline"@,
                Some(v) => spec_validate_timeline(servers_of(*config), server@, game_id@, payload, v, true)
                    == Err::<(), Seq<char>>(e@),
            },
        },
{
    match member(&payload, "json") {
        Some(value) => validate_timeline(config, server, game_id, &payload, value, true)?,
        None => return Err(owned("game.invalidTimeline")),
    }
    match crate::json::take_member(payload, "json") {
        Some(v) => Ok(v),
        None => Err(owned("game.invalidTimeline")),
    }
}

/// The document of a history row: its `json` member, or the row itself.
pub open spec fn game_of(payload: Json) -> Json {
    match member_of(payload, "json"@) {
        Some(g) => g,
        None => payload,
    }
}

/// What a history row must show to be a game of `server`: a platform that is the server's
/// (its platform, path alias or id, ignoring ASCII case), a positive game number, a roster,
/// and a match identity, when the row has one, that names the game. Gives the server's
/// platform and the roster.
pub open spec fn spec_summary_checks(servers: Seq<ServerEntry>, server: Seq<char>, payload: Json) -> Result<
    (Seq<char>, Seq<Json>),
    Seq<char>,
> {
    let game = game_of(payload);
    match spec_platform(server) {
        None => Err("region.unsupported"@),
        Some(platform) => match json_text(field(game, "platformId"@)) {
            None => Err("game.invalidData"@),
            Some(actual) => if !(eq_ignore_ascii_case(actual, platform) || eq_ignore_ascii_case(
                actual,
                path_alias(servers, server),
            ) || eq_ignore_ascii_case(actual, server)) {
                Err("game.identityMismatch"@)
            } else {
                match json_u64(field(game, "gameId"@)) {
                    None => Err("game.invalidData"@),
                    Some(n) => if n == 0 {
                        Err("game.invalidData"@)
                    } else {
                        match json_items(field(game, "participants"@)) {
                            None => Err("game.invalidData"@),
                            Some(people) => if people.len() == 0 {
                                Err("game.invalidData"@)
                            } else if json_text(field(field(payload, "metadata"@), "match_id"@)) matches Some(id)
                                && !names_game(servers, server, decimal(n as nat), id) {
                                Err("game.identityMismatch"@)
                            } else {
                                Ok((platform, people))
                            },
                        }
                    },
                }
            },
        },
    }
}

/// The identity given to a roster entry: its participant id, and a player with its PUUID,
/// summoner id, Riot ID and summoner name on `platform`.
pub open spec fn identity_for(e: Json, p: Json, platform: Seq<char>) -> bool {
    let m = members(e);
    &&& e is Object && m.len() == 2
    &&& m[0].0@ == "participantId"@ && same(m[0].1, field(p, "participantId"@))
    &&& m[1].0@ == "player"@ && player_for(m[1].1, p, platform)
}

/// The player of a roster entry's identity.
pub open spec fn player_for(e: Json, p: Json, platform: Seq<char>) -> bool {
    let m = members(e);
    &&& e is Object && m.len() == 6
    &&& m[0].0@ == "gameName"@ && same(m[0].1, field(p, "riotIdGameName"@))
    &&& m[1].0@ == "platformId"@ && json_text(m[1].1) == Some(platform)
    &&& m[2].0@ == "puuid"@ && same(m[2].1, field(p, "puuid"@))
    &&& m[3].0@ == "summonerId"@ && same(m[3].1, field(p, "summonerId"@))
    &&& m[4].0@ == "summonerName"@ && same(m[4].1, field(p, "summonerName"@))
    &&& m[5].0@ == "tagLine"@ && same(m[5].1, field(p, "riotIdTagline"@))
}

/// A roster entry in the shape that stored matches use: its champion, id, spells, team and
/// lane and role, with the whole entry as its statistics.
pub open spec fn participant_for(e: Json, p: Json) -> bool {
    let m = members(e);
    &&& e is Object && m.len() == 7
    &&& m[0].0@ == "championId"@ && same(m[0].1, field(p, "championId"@))
    &&& m[1].0@ == "participantId"@ && same(m[1].1, field(p, "participantId"@))
    &&& m[2].0@ == "spell1Id"@ && same(m[2].1, field(p, "summoner1Id"@))
    &&& m[3].0@ == "spell2Id"@ && same(m[3].1, field(p, "summoner2Id"@))
    &&& m[4].0@ == "stats"@ && same(m[4].1, p)
    &&& m[5].0@ == "teamId"@ && same(m[5].1, field(p, "teamId"@))
    &&& m[6].0@ == "timeline"@ && timeline_for(m[6].1, p)
}

/// The timeline of a roster entry: its lane and role.
pub open spec fn timeline_for(e: Json, p: Json) -> bool {
    let m = members(e);
    &&& e is Object && m.len() == 2
    &&& m[0].0@ == "lane"@ && same(m[0].1, field(p, "teamPosition"@))
    &&& m[1].0@ == "role"@ && same(m[1].1, field(p, "role"@))
}

/// The stored form of a history row: its document with the server's platform, and, when it
/// lists no identities, identities and participants rebuilt from its roster.
pub open spec fn summary_of(result: Json, payload: Json, platform: Seq<char>, people: Seq<Json>) -> bool {
    let game = game_of(payload);
    let rebuilt = json_items(field(game, "participantIdentities"@)) is None;
    &&& json_text(field(result, "platformId"@)) == Some(platform)
    &&& forall|k: Seq<char>|
        k != "platformId"@ && !(rebuilt && (k == "participantIdentities"@ || k == "participants"@)) ==> same_member(
            #[trigger] member_of(result, k),
            member_of(game, k),
        )
    &&& rebuilt ==> (json_items(field(result, "participantIdentities"@)) matches Some(ids) && ids.len() == people.len()
        && forall|i: int| 0 <= i < people.len() ==> identity_for(#[trigger] ids[i], people[i], platform))
    &&& rebuilt ==> (json_items(field(result, "participants"@)) matches Some(ps) && ps.len() == people.len()
        && forall|i: int| 0 <= i < people.len() ==> participant_for(#[trigger] ps[i], people[i]))
}

pub(crate) fn copy_field(v: &Json, key: &str) -> (r: Json)
    ensures
        same(r, field(*v, key@)),
{
    match member(v, key) {
        Some(x) => json_clone(x),
        None => Json::Null,
    }
}

fn identity_entry(p: &Json, platform: &str) -> (e: Json)
    ensures
        identity_for(e, *p, platform@),
{
    let mut player: Vec<(String, Json)> = Vec::new();
    player.push((owned("gameName"), copy_field(p, "riotIdGameName")));
    player.push((owned("platformId"), Json::Text(owned(platform))));
    player.push((owned("puuid"), copy_field(p, "puuid")));
    player.push((owned("summonerId"), copy_field(p, "summonerId")));
    player.push((owned("summonerName"), copy_field(p, "summonerName")));
    player.push((owned("tagLine"), copy_field(p, "riotIdTagline")));
    let mut m: Vec<(String, Json)> = Vec::new();
    m.push((owned("participantId"), copy_field(p, "participantId")));
    m.push((owned("player"), Json::Object(player)));
    Json::Object(m)
}

fn participant_entry(p: &Json) -> (e: Json)
    ensures
        participant_for(e, *p),
{
    let mut timeline: Vec<(String, Json)> = Vec::new();
    timeline.push((owned("lane"), copy_field(p, "teamPosition")));
    timeline.push((owned("role"), copy_field(p, "role")));
    let mut m: Vec<(String, Json)> = Vec::new();
    m.push((owned("championId"), copy_field(p, "championId")));
    m.push((owned("participantId"), copy_field(p, "participantId")));
    m.push((owned("spell1Id"), copy_field(p, "summoner1Id")));
    m.push((owned("spell2Id"), copy_field(p, "summoner2Id")));
    m.push((owned("stats"), json_clone(p)));
    m.push((owned("teamId"), copy_field(p, "teamId")));
    m.push((owned("timeline"), Json::Object(timeline)));
    Json::Object(m)
}

/// A row of match history as the archive stores it, checked to be a game of `server`; see
/// `spec_summary_checks` and `summary_of`.
pub fn summary(config: &ServerConfig, server: &str, payload: &Json) -> (r: Result<Json, String>)
    ensures
        match r {
            Ok(result) => spec_summary_checks(servers_of(*config), server@, *payload) matches Ok((platform, people))
                && summary_of(result, *payload, platform, people),
            Err(e) => spec_summary_checks(servers_of(*config), server@, *payload) == Err::<(Seq<char>, Seq<Json>), Seq<char>>(
                e@,
            ),
        },
{
    let game = match member(payload, "json") {
        Some(g) => g,
        None => payload,
    };
    let platform = crate::regions::platform(server)?;
    let actual = match field_text(game, "platformId") {
        Some(a) => a,
        None => return Err(owned("game.invalidData")),
    };
    let sub = config.path_region(server)?;
    if !(same_ignoring_ascii_case(actual, platform.as_str()) || same_ignoring_ascii_case(actual, sub.as_str())
        || same_ignoring_ascii_case(actual, server)) {
        return Err(owned("game.identityMismatch"));
    }
    let n = match field_u64(game, "gameId") {
        Some(n) => if n == 0 {
            return Err(owned("game.invalidData"));
        } else {
            n
        },
        None => return Err(owned("game.invalidData")),
    };
    let people = match field_items(game, "participants") {
        Some(p) => if p.len() == 0 {
            return Err(owned("game.invalidData"));
        } else {
            p
        },
        None => return Err(owned("game.invalidData")),
    };
    let identity = match member(payload, "metadata") {
        Some(m) => field_text(m, "match_id"),
        None => None,
    };
    if let Some(id) = identity {
        let number = decimal_text(n);
        let mut a = sub.clone();
        a.append("_");
        a.append(number.as_str());
        let mut b = platform.clone();
        b.append("_");
        b.append(number.as_str());
        let mut c = owned(server);
        c.append("_");
        c.append(number.as_str());
        if !(same_ignoring_ascii_case(id, a.as_str()) || same_ignoring_ascii_case(id, b.as_str())
            || same_ignoring_ascii_case(id, c.as_str())) {
            return Err(owned("game.identityMismatch"));
        }
    }
    let ghost g = *game;
    let mut normalized = json_clone(game);
    let ghost cloned = normalized;
    proof {
        reveal_strlit("platformId");
        reveal_strlit("participantIdentities");
        reveal_strlit("participants");
        assert("platformId"@.len() == 10 && "participantIdentities"@.len() == 21 && "participants"@.len() == 12);
    }
    set_member(&mut normalized, "platformId", Json::Text(platform.clone()));
    let ghost after_platform = normalized;
    let rebuild = field_items(game, "participantIdentities").is_none();
    if rebuild {
        let mut identities: Vec<Json> = Vec::new();
        let mut participants: Vec<Json> = Vec::new();
        let mut i: usize = 0;
        while i < people.len()
            invariant
                i <= people@.len(),
                identities@.len() == i,
                participants@.len() == i,
                forall|j: int| 0 <= j < i ==> identity_for(#[trigger] identities@[j], people@[j], platform@),
                forall|j: int| 0 <= j < i ==> participant_for(#[trigger] participants@[j], people@[j]),
            decreases people.len() - i,
        {
            identities.push(identity_entry(&people[i], platform.as_str()));
            participants.push(participant_entry(&people[i]));
            i = i + 1;
        }
        let ghost ids = identities@;
        let ghost ps = participants@;
        set_member(&mut normalized, "participantIdentities", Json::Array(identities));
        let ghost after_ids = normalized;
        set_member(&mut normalized, "participants", Json::Array(participants));
        proof {
            assert(member_of(normalized, "participantIdentities"@) == member_of(after_ids, "participantIdentities"@));
            assert(json_items(field(normalized, "participantIdentities"@)) == Some(ids));
            assert(json_items(field(normalized, "participants"@)) == Some(ps));
            assert(member_of(normalized, "platformId"@) == member_of(after_ids, "platformId"@));
            assert(member_of(after_ids, "platformId"@) == member_of(after_platform, "platformId"@));
            assert forall|k: Seq<char>|
                k != "platformId"@ && k != "participantIdentities"@ && k != "participants"@ implies member_of(normalized, k)
                == member_of(after_platform, k) by {
                assert(member_of(normalized, k) == member_of(after_ids, k));
            }
        }
    }
    proof {
        assert(json_items(field(g, "participantIdentities"@)) is None <==> rebuild);
        assert forall|k: Seq<char>|
            k != "platformId"@ && !(rebuild && (k == "participantIdentities"@ || k == "participants"@)) implies same_member(
            #[trigger] member_of(normalized, k),
            member_of(g, k),
        ) by {
            assert(member_of(after_platform, k) == member_of(cloned, k));
            assert(member_of(normalized, k) == member_of(after_platform, k));
            lemma_same_members(cloned, g, k);
        }
    }
    Ok(normalized)
}

} // verus!

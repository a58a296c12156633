//! Reading one sample of the local client: who is signed in, its game flow phase, and the
//! game it reports the account to be playing.
use vstd::prelude::*;
use crate::domain::{Account, ObservedGame, Sample};
use crate::json::{Json, field, json_bool, json_items, json_text, json_u64, field_bool, field_items, field_text, field_u64, member, first_match, lemma_first_match, lemma_no_match};
use crate::lcu::{LcuError, parse_account, spec_has_game};
use crate::matches::{nonempty, nonempty_text};
use crate::text::{decimal, decimal_text, owned, str_eq};

verus! {

/// Phases in which the account queues or plays: its session stays active.
pub open spec fn queue_phase(phase: Seq<char>) -> bool {
    ||| phase == "Matchmaking"@
    ||| phase == "ReadyCheck"@
    ||| phase == "ChampSelect"@
    ||| phase == "GameStart"@
    ||| phase == "InProgress"@
    ||| phase == "Reconnect"@
    ||| phase == "WaitingForStats"@
    ||| phase == "PreEndOfGame"@
}

/// The players of both teams of a session's game data, team one first.
pub open spec fn players_of(data: Json) -> Seq<Json> {
    let one = match json_items(field(data, "teamOne"@)) {
        Some(s) => s,
        None => Seq::empty(),
    };
    let two = match json_items(field(data, "teamTwo"@)) {
        Some(s) => s,
        None => Seq::empty(),
    };
    one + two
}

/// The player has this PUUID.
pub open spec fn has_puuid(puuid: Seq<char>) -> spec_fn(Json) -> bool {
    |player: Json| json_text(field(player, "puuid"@)) == Some(puuid)
}

/// The game a client session shows the account in: the session must be of this phase (and,
/// in game, with its client running), the account must be on one of the teams, and the game
/// number and the account's champion must be positive. Gives the game's id, number,
/// champion and queue name.
pub open spec fn spec_parse_game(platform: Seq<char>, puuid: Seq<char>, phase: Seq<char>, session: Option<Json>) -> Result<
    (Seq<char>, Seq<char>, u32, Seq<char>),
    LcuError,
> {
    match session {
        None => Err(LcuError::InvalidData),
        Some(s) => if json_text(field(s, "phase"@)) != Some(phase) || (phase == "InProgress"@ && json_bool(
            field(field(s, "gameClient"@), "running"@),
        ) != Some(true)) {
            Err(LcuError::IdentityChanged)
        } else {
            let data = field(s, "gameData"@);
            match first_match(players_of(data), has_puuid(puuid)) {
                None => Err(LcuError::InvalidData),
                Some(i) => match json_u64(field(data, "gameId"@)) {
                    Some(n) => if n == 0 {
                        Err(LcuError::InvalidData)
                    } else {
                        match json_u64(field(players_of(data)[i], "championId"@)) {
                            Some(c) => if c == 0 || c > u32::MAX {
                                Err(LcuError::InvalidData)
                            } else {
                                Ok((
                                    platform + "_"@ + decimal(n as nat),
                                    decimal(n as nat),
                                    c as u32,
                                    match nonempty(json_text(field(field(data, "queue"@), "name"@))) {
                                        Some(q) => q,
                                        None => "客户端对局"@,
                                    },
                                ))
                            },
                            None => Err(LcuError::InvalidData),
                        }
                    },
                    None => Err(LcuError::InvalidData),
                },
            }
        },
    }
}

/// The champion of the account's player, when the account is on a team.
fn player_champion(data: &Json, puuid: &str) -> (r: Option<Option<u64>>)
    ensures
        match r {
            Some(c) => first_match(players_of(*data), has_puuid(puuid@)) matches Some(i) && c == json_u64(
                field(players_of(*data)[i], "championId"@),
            ),
            None => first_match(players_of(*data), has_puuid(puuid@)) is None,
        },
{
    let ghost all = players_of(*data);
    let empty: Vec<Json> = Vec::new();
    let one = match field_items(data, "teamOne") {
        Some(t) => t,
        None => &empty,
    };
    let two = match field_items(data, "teamTwo") {
        Some(t) => t,
        None => &empty,
    };
    assert(all == one@ + two@);
    let mut i: usize = 0;
    while i < one.len()
        invariant
            i <= one@.len(),
            all == one@ + two@,
            all == players_of(*data),
            forall|j: int| 0 <= j < i ==> !has_puuid(puuid@)(#[trigger] all[j]),
        decreases one.len() - i,
    {
        let found = match field_text(&one[i], "puuid") {
            Some(t) => str_eq(t, puuid),
            None => false,
        };
        assert(all[i as int] == one@[i as int]);
        if found {
            proof {
                lemma_first_match(all, has_puuid(puuid@), i as int);
            }
            return Some(field_u64(&one[i], "championId"));
        }
        i = i + 1;
    }
    let mut k: usize = 0;
    while k < two.len()
        invariant
            k <= two@.len(),
            all == one@ + two@,
            all == players_of(*data),
            forall|j: int| 0 <= j < one@.len() + k ==> !has_puuid(puuid@)(#[trigger] all[j]),
        decreases two.len() - k,
    {
        let found = match field_text(&two[k], "puuid") {
            Some(t) => str_eq(t, puuid),
            None => false,
        };
        assert(all[one@.len() + k] == two@[k as int]);
        if found {
            proof {
                lemma_first_match(all, has_puuid(puuid@), one@.len() + k);
            }
            return Some(field_u64(&two[k], "championId"));
        }
        k = k + 1;
    }
    proof {
        lemma_no_match(all, has_puuid(puuid@));
    }
    None
}

/// The game a client session shows the account in; see `spec_parse_game`.
pub fn parse_game(account: &Account, phase: &str, session: Option<&Json>) -> (r: Result<ObservedGame, LcuError>)
    ensures
        match r {
            Ok(g) => spec_parse_game(
                account.platform@,
                account.puuid@,
                phase@,
                match session {
                    Some(s) => Some(*s),
                    None => None,
                },
            ) == Ok::<(Seq<char>, Seq<char>, u32, Seq<char>), LcuError>(g@),
            Err(e) => spec_parse_game(
                account.platform@,
                account.puuid@,
                phase@,
                match session {
                    Some(s) => Some(*s),
                    None => None,
                },
            ) == Err::<(Seq<char>, Seq<char>, u32, Seq<char>), LcuError>(e),
        },
{
    let session = match session {
        Some(s) => s,
        None => return Err(LcuError::InvalidData),
    };
    let same_phase = match field_text(session, "phase") {
        Some(p) => str_eq(p, phase),
        None => false,
    };
    let running = match member(session, "gameClient") {
        Some(c) => field_bool(c, "running"),
        None => None,
    };
    let client_running = match running {
        Some(b) => b,
        None => false,
    };
    if !same_phase || (str_eq(phase, "InProgress") && !client_running) {
        return Err(LcuError::IdentityChanged);
    }
    let data = match member(session, "gameData") {
        Some(d) => d,
        None => &Json::Null,
    };
    let champion = match player_champion(data, account.puuid.as_str()) {
        Some(c) => c,
        None => return Err(LcuError::InvalidData),
    };
    let n = match field_u64(data, "gameId") {
        Some(n) => if n == 0 {
            return Err(LcuError::InvalidData);
        } else {
            n
        },
        None => return Err(LcuError::InvalidData),
    };
    let champion = match champion {
        Some(c) => if c == 0 || c > 4294967295u64 {
            return Err(LcuError::InvalidData);
        } else {
            c as u32
        },
        None => return Err(LcuError::InvalidData),
    };
    let queue = match member(data, "queue") {
        Some(q) => field_text(q, "name"),
        None => None,
    };
    let queue_name = match nonempty_text(queue) {
        Some(q) => owned(q),
        None => owned("客户端对局"),
    };
    let game_id = decimal_text(n);
    let mut id = account.platform.clone();
    id.append("_");
    id.append(game_id.as_str());
    Ok(ObservedGame { id, game_id, champion_id: champion, queue_name })
}

/// A sample of the local client from two reads of the signed-in summoner around the phase
/// and the session: both reads must describe the same account, which an in-game sample must
/// show in its game; after a game, a game that cannot be shown is left out.
pub open spec fn sample_ok(
    platform: Seq<char>,
    before: Json,
    after: Json,
    phase: Seq<char>,
    session: Option<Json>,
    s: Sample,
) -> bool {
    &&& crate::matches::spec_account_from_profile(platform, before) == Some(s.account@)
    &&& crate::matches::spec_account_from_profile(platform, after) matches Some(c) && c.0 == s.account@.0
        && c.3 == s.account@.3
    &&& s.phase@ == phase
    &&& s.queue_active == queue_phase(phase)
    &&& if phase == "InProgress"@ || spec_has_game(phase) {
        match spec_parse_game(platform, s.account@.2, phase, session) {
            Ok(g) => s.observed_game matches Some(o) && o@ == g,
            Err(_) => phase != "InProgress"@ && s.observed_game is None,
        }
    } else {
        s.observed_game is None
    }
}

/// Reads one sample of the local client; see `sample_ok`. Fails with `InvalidData` when a
/// read describes no account, with `IdentityChanged` when the account changed between the
/// reads, and, in game, with the error of the game it cannot show.
pub fn parse_sample(platform: &str, before: &Json, after: &Json, phase: &str, session: Option<&Json>) -> (r: Result<
    Sample,
    LcuError,
>)
    ensures
        match r {
            Ok(s) => sample_ok(
                platform@,
                *before,
                *after,
                phase@,
                match session {
                    Some(x) => Some(*x),
                    None => None,
                },
                s,
            ),
            Err(e) => {
                ||| crate::matches::spec_account_from_profile(platform@, *before) is None && e == LcuError::InvalidData
                ||| crate::matches::spec_account_from_profile(platform@, *after) is None && e == LcuError::InvalidData
                ||| e == LcuError::IdentityChanged && (crate::matches::spec_account_from_profile(platform@, *before)
                    matches Some(a) && (crate::matches::spec_account_from_profile(platform@, *after) matches Some(c)
                    && (a.0 != c.0 || a.3 != c.3)))
                ||| phase@ == "InProgress"@ && (crate::matches::spec_account_from_profile(platform@, *before)
                    matches Some(a) && spec_parse_game(
                    platform@,
                    a.2,
                    phase@,
                    match session {
                        Some(x) => Some(*x),
                        None => None,
                    },
                ) == Err::<(Seq<char>, Seq<char>, u32, Seq<char>), LcuError>(e))
            },
        },
{
    let account = parse_account(platform, before)?;
    let confirmed = parse_account(platform, after)?;
    if !str_eq(account.id.as_str(), confirmed.id.as_str()) || !str_eq(
        account.summoner_id.as_str(),
        confirmed.summoner_id.as_str(),
    ) {
        return Err(LcuError::IdentityChanged);
    }
    let in_game = str_eq(phase, "InProgress");
    let observed_game = if in_game {
        Some(parse_game(&account, phase, session)?)
    } else if crate::lcu::has_game(phase) {
        match parse_game(&account, phase, session) {
            Ok(g) => Some(g),
            Err(_) => None,
        }
    } else {
        None
    };
    let queue_active = str_eq(phase, "Matchmaking") || str_eq(phase, "ReadyCheck") || str_eq(phase, "ChampSelect")
        || str_eq(phase, "GameStart") || str_eq(phase, "InProgress") || str_eq(phase, "Reconnect") || str_eq(
        phase,
        "WaitingForStats",
    ) || str_eq(phase, "PreEndOfGame");
    Ok(Sample { account, phase: owned(phase), observed_game, queue_active })
}

} // verus!

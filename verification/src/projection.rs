//! The summary of a game that the library shows, projected from a stored match document.
use vstd::prelude::*;
use crate::domain::{GameParticipant, GameSummary, HistoryPage, SearchGame, SearchResult};
use crate::json::{
    Json, field, first_match, json_bool, json_items, json_small, json_text, json_u64, member,
    field_bool, field_items, field_small, field_text, field_u64, JsonNumber,
};
use crate::library::nil_uuid;
use crate::matches::{find_same, has_value, nonempty, nonempty_text};
use crate::regions::opt_view;
use crate::resume::str_view;
use crate::text::{decimal, decimal_text, owned, str_eq};

verus! {

/// The `player` of the identity that shares the participant's `participantId`, or null.
pub open spec fn player_of(person: Json, ids: Seq<Json>) -> Json {
    match first_match(ids, has_value("participantId"@, field(person, "participantId"@))) {
        Some(i) => field(ids[i], "player"@),
        None => Json::Null,
    }
}

/// `gameName#tagLine`, or the game name alone, or else the summoner name.
pub open spec fn display_name(player: Json) -> Option<Seq<char>> {
    match nonempty(json_text(field(player, "gameName"@))) {
        Some(name) => match nonempty(json_text(field(player, "tagLine"@))) {
            Some(tag) => Some(name + "#"@ + tag),
            None => Some(name),
        },
        None => nonempty(json_text(field(player, "summonerName"@))),
    }
}

/// The player's PUUID, unless it is missing, empty or the nil UUID that bots carry.
pub open spec fn player_puuid(player: Json) -> Option<Seq<char>> {
    match nonempty(json_text(field(player, "puuid"@))) {
        Some(p) => if p != nil_uuid() {
            Some(p)
        } else {
            None
        },
        None => None,
    }
}

/// `teamPosition` when it is given, else the timeline's lane, else nothing.
pub open spec fn role_of(person: Json) -> Seq<char> {
    match nonempty(json_text(field(person, "teamPosition"@))) {
        Some(r) => r,
        None => match json_text(field(field(person, "timeline"@), "lane"@)) {
            Some(l) => l,
            None => Seq::empty(),
        },
    }
}

/// The placement in a subteam mode, else the overall placement; 0 when neither is given.
pub open spec fn placement_of(stats: Json) -> u32 {
    if json_small(field(stats, "subteamPlacement"@)) == 0 {
        json_small(field(stats, "placement"@))
    } else {
        json_small(field(stats, "subteamPlacement"@))
    }
}

/// The subteam when the mode has subteams, else the team.
pub open spec fn team_of(person: Json) -> u32 {
    let sub = json_small(field(field(person, "stats"@), "playerSubteamId"@));
    if sub > 0 {
        sub
    } else {
        json_small(field(person, "teamId"@))
    }
}

/// `a + b`, or the largest `u32` when that overflows.
pub open spec fn saturating_sum(a: u32, b: u32) -> u32 {
    if a + b > u32::MAX {
        u32::MAX
    } else {
        (a + b) as u32
    }
}

/// The values of `s` that are not 0, in order.
pub open spec fn positives(s: Seq<u32>) -> Seq<u32>
    decreases s.len(),
{
    if s.len() == 0 {
        Seq::empty()
    } else if s.last() > 0 {
        positives(s.drop_last()).push(s.last())
    } else {
        positives(s.drop_last())
    }
}

/// The item slots `item0` to `item6` that hold an item.
pub open spec fn items_of(stats: Json) -> Seq<u32> {
    positives(Seq::new(7, |i: int| json_small(field(stats, "item"@ + decimal(i as nat)))))
}

/// `p` is the projection of the participant `person`, whose identity is among `ids`.
#[verifier::opaque]
pub open spec fn projected(p: GameParticipant, person: Json, ids: Seq<Json>) -> bool {
    let player = player_of(person, ids);
    let stats = field(person, "stats"@);
    let placement = placement_of(stats);
    &&& p.id == json_small(field(person, "participantId"@))
    &&& opt_view(p.puuid) == player_puuid(player)
    &&& opt_view(p.name) == display_name(player)
    &&& p.team == team_of(person)
    &&& p.placement == (if placement > 0 {
        Some(placement)
    } else {
        None
    })
    &&& p.champion_id == json_small(field(person, "championId"@))
    &&& p.role@ == role_of(person)
    &&& p.win == json_bool(field(stats, "win"@))
    &&& p.kills == json_small(field(stats, "kills"@))
    &&& p.deaths == json_small(field(stats, "deaths"@))
    &&& p.assists == json_small(field(stats, "assists"@))
    &&& p.cs == saturating_sum(
        json_small(field(stats, "totalMinionsKilled"@)),
        json_small(field(stats, "neutralMinionsKilled"@)),
    )
    &&& p.gold == json_small(field(stats, "goldEarned"@))
    &&& p.damage == json_small(field(stats, "totalDamageDealtToChampions"@))
    &&& p.items@ == items_of(stats)
    &&& p.double_kills == json_small(field(stats, "doubleKills"@))
    &&& p.triple_kills == json_small(field(stats, "tripleKills"@))
    &&& p.quadra_kills == json_small(field(stats, "quadraKills"@))
    &&& p.penta_kills == json_small(field(stats, "pentaKills"@))
}

fn text_of(t: Option<&str>) -> (r: Option<String>)
    ensures
        opt_view(r) == str_view(t),
{
    match t {
        Some(s) => Some(owned(s)),
        None => None,
    }
}

fn items(stats: &Json) -> (r: Vec<u32>)
    ensures
        r@ == items_of(*stats),
{
    let ghost all = Seq::new(7, |i: int| json_small(field(*stats, "item"@ + decimal(i as nat))));
    let mut out: Vec<u32> = Vec::new();
    let mut i: u64 = 0;
    while i < 7
        invariant
            i <= 7,
            all == Seq::new(7, |i: int| json_small(field(*stats, "item"@ + decimal(i as nat)))),
            out@ == positives(all.take(i as int)),
        decreases 7 - i,
    {
        let mut key = owned("item");
        key.append(decimal_text(i).as_str());
        let v = field_small(stats, key.as_str());
        assert(all.take(i + 1).drop_last() =~= all.take(i as int));
        assert(all.take(i + 1).last() == v);
        if v > 0 {
            out.push(v);
        }
        i = i + 1;
    }
    assert(all.take(7) =~= all);
    out
}

/// The participant `person` as the library shows it.
fn project_one(person: &Json, ids: &Vec<Json>) -> (p: GameParticipant)
    ensures
        projected(p, *person, ids@),
{
    reveal(projected);
    let wanted = match member(person, "participantId") {
        Some(v) => v,
        None => &Json::Null,
    };
    let player = match find_same(ids, "participantId", wanted) {
        Some(i) => match member(&ids[i], "player") {
            Some(p) => p,
            None => &Json::Null,
        },
        None => &Json::Null,
    };
    let stats = match member(person, "stats") {
        Some(s) => s,
        None => &Json::Null,
    };
    let name = match nonempty_text(field_text(player, "gameName")) {
        Some(n) => match nonempty_text(field_text(player, "tagLine")) {
            Some(t) => {
                let mut full = owned(n);
                full.append("#");
                full.append(t);
                Some(full)
            },
            None => Some(owned(n)),
        },
        None => text_of(nonempty_text(field_text(player, "summonerName"))),
    };
    let puuid = match nonempty_text(field_text(player, "puuid")) {
        Some(p) => if str_eq(p, "00000000-0000-0000-0000-000000000000") {
            None
        } else {
            Some(owned(p))
        },
        None => None,
    };
    let subteam = field_small(stats, "playerSubteamId");
    let team = if subteam > 0 {
        subteam
    } else {
        field_small(person, "teamId")
    };
    let placement = match field_small(stats, "subteamPlacement") {
        0 => field_small(stats, "placement"),
        p => p,
    };
    let role = match nonempty_text(field_text(person, "teamPosition")) {
        Some(r) => owned(r),
        None => {
            let timeline = match member(person, "timeline") {
                Some(t) => t,
                None => &Json::Null,
            };
            match field_text(timeline, "lane") {
                Some(l) => owned(l),
                None => String::new(),
            }
        },
    };
    let minions = field_small(stats, "totalMinionsKilled");
    let monsters = field_small(stats, "neutralMinionsKilled");
    let cs = match minions.checked_add(monsters) {
        Some(c) => c,
        None => 4294967295u32,
    };
    GameParticipant {
        id: field_small(person, "participantId"),
        puuid,
        name,
        team,
        placement: if placement > 0 {
            Some(placement)
        } else {
            None
        },
        champion_id: field_small(person, "championId"),
        role,
        win: field_bool(stats, "win"),
        kills: field_small(stats, "kills"),
        deaths: field_small(stats, "deaths"),
        assists: field_small(stats, "assists"),
        cs,
        gold: field_small(stats, "goldEarned"),
        damage: field_small(stats, "totalDamageDealtToChampions"),
        items: items(stats),
        double_kills: field_small(stats, "doubleKills"),
        triple_kills: field_small(stats, "tripleKills"),
        quadra_kills: field_small(stats, "quadraKills"),
        penta_kills: field_small(stats, "pentaKills"),
    }
}

/// The participant id of a roster entry.
pub open spec fn pid(person: Json) -> u32 {
    json_small(field(person, "participantId"@))
}

/// A roster that can be projected: not empty, and every participant has a nonzero id of its
/// own.
pub open spec fn roster_ok(ps: Seq<Json>) -> bool {
    &&& ps.len() > 0
    &&& forall|i: int| 0 <= i < ps.len() ==> pid(#[trigger] ps[i]) != 0
    &&& forall|i: int, j: int| 0 <= i < j < ps.len() ==> pid(#[trigger] ps[i]) != pid(#[trigger] ps[j])
}

/// A match document that can be projected: it lists identities, and a roster as above.
pub open spec fn spec_project_ok(detail: Json) -> bool {
    &&& json_items(field(detail, "participantIdentities"@)) is Some
    &&& json_items(field(detail, "participants"@)) matches Some(ps) && roster_ok(ps)
}

/// Participants are listed by team, then by id.
pub open spec fn listed_before(a: GameParticipant, b: GameParticipant) -> bool {
    a.team < b.team || (a.team == b.team && a.id < b.id)
}

/// The creation time of a game when it is given as an integer that fits `i64`, else 0.
pub open spec fn creation_time(v: Json) -> i64 {
    match v {
        Json::Number(JsonNumber::Unsigned(n)) => if n <= i64::MAX {
            n as i64
        } else {
            0
        },
        Json::Number(JsonNumber::Negative(n)) => n,
        _ => 0,
    }
}

/// `p` is the projection of one of the first `n` roster entries.
pub open spec fn projects_one_of(p: GameParticipant, ps: Seq<Json>, ids: Seq<Json>, n: int) -> bool {
    exists|j: int| 0 <= j < n && projected(p, #[trigger] ps[j], ids)
}

/// Some participant of `out` is the projection of `person`.
pub open spec fn projected_in(out: Seq<GameParticipant>, person: Json, ids: Seq<Json>) -> bool {
    exists|k: int| 0 <= k < out.len() && projected(#[trigger] out[k], person, ids)
}

/// `g` is the summary of the match document `detail`: its creation time, duration, queue and
/// version, and every participant projected once, listed by team and then by id.
pub open spec fn summary_of(g: GameSummary, detail: Json) -> bool {
    let ps = json_items(field(detail, "participants"@))->0;
    let ids = json_items(field(detail, "participantIdentities"@))->0;
    &&& g.started_at == creation_time(field(detail, "gameCreation"@))
    &&& g.duration == json_small(field(detail, "gameDuration"@))
    &&& g.queue_id == json_small(field(detail, "queueId"@))
    &&& g.version@ == (match json_text(field(detail, "gameVersion"@)) {
        Some(v) => v,
        None => Seq::empty(),
    })
    &&& g.participants@.len() == ps.len()
    &&& forall|k: int|
        0 <= k < g.participants@.len() ==> projects_one_of(#[trigger] g.participants@[k], ps, ids, ps.len() as int)
    &&& forall|i: int| 0 <= i < ps.len() ==> projected_in(g.participants@, #[trigger] ps[i], ids)
    &&& forall|k: int, m: int|
        0 <= k < m < g.participants@.len() ==> listed_before(
            #[trigger] g.participants@[k],
            #[trigger] g.participants@[m],
        )
}

fn creation_time_of(v: Option<&Json>) -> (r: i64)
    ensures
        r == creation_time(match v {
            Some(x) => *x,
            None => Json::Null,
        }),
{
    match v {
        Some(Json::Number(JsonNumber::Unsigned(n))) => if *n <= 9223372036854775807u64 {
            *n as i64
        } else {
            0
        },
        Some(Json::Number(JsonNumber::Negative(n))) => *n,
        _ => 0,
    }
}

/// Where `key` goes among participants listed by team and id: after every entry listed before
/// it.
fn position(out: &Vec<GameParticipant>, team: u32, id: u32) -> (pos: usize)
    ensures
        pos <= out@.len(),
        forall|k: int| 0 <= k < pos ==> !(team < out@[k].team || (team == out@[k].team && id < out@[k].id)),
        pos < out@.len() ==> (team < out@[pos as int].team || (team == out@[pos as int].team && id < out@[pos as int].id)),
{
    let mut k: usize = 0;
    while k < out.len()
        invariant
            k <= out@.len(),
            forall|j: int| 0 <= j < k ==> !(team < out@[j].team || (team == out@[j].team && id < out@[j].id)),
        decreases out.len() - k,
    {
        if team < out[k].team || (team == out[k].team && id < out[k].id) {
            return k;
        }
        k = k + 1;
    }
    k
}

pub proof fn lemma_projected_id(p: GameParticipant, person: Json, ids: Seq<Json>)
    requires
        projected(p, person, ids),
    ensures
        p.id == pid(person),
{
    reveal(projected);
}

/// Some participant of `out` has the id `id`.
pub open spec fn lists_id(out: Seq<GameParticipant>, id: u32) -> bool {
    exists|k: int| 0 <= k < out.len() && (#[trigger] out[k]).id == id
}

/// Some roster entry has the id `id`.
pub open spec fn roster_has_id(ps: Seq<Json>, id: u32) -> bool {
    exists|j: int| 0 <= j < ps.len() && pid(#[trigger] ps[j]) == id
}

/// A projected game lists exactly the roster's participants: as many, each listed id is the
/// id of a roster entry, and each roster entry's id is listed.
pub proof fn lemma_summary_ids(g: GameSummary, detail: Json)
    requires
        spec_project_ok(detail),
        summary_of(g, detail),
    ensures
        g.participants@.len() == json_items(field(detail, "participants"@))->0.len(),
        forall|k: int| 0 <= k < g.participants@.len() ==> roster_has_id(
            json_items(field(detail, "participants"@))->0,
            (#[trigger] g.participants@[k]).id,
        ),
        forall|j: int| 0 <= j < json_items(field(detail, "participants"@))->0.len() ==> lists_id(
            g.participants@,
            pid(#[trigger] json_items(field(detail, "participants"@))->0[j]),
        ),
{
    let ps = json_items(field(detail, "participants"@))->0;
    let ids = json_items(field(detail, "participantIdentities"@))->0;
    let out = g.participants@;
    assert forall|k: int| 0 <= k < out.len() implies roster_has_id(ps, (#[trigger] out[k]).id) by {
        assert(projects_one_of(out[k], ps, ids, ps.len() as int));
        let j = choose|j: int| 0 <= j < ps.len() && projected(out[k], #[trigger] ps[j], ids);
        lemma_projected_id(out[k], ps[j], ids);
    }
    assert forall|j: int| 0 <= j < ps.len() implies lists_id(out, pid(#[trigger] ps[j])) by {
        assert(projected_in(out, ps[j], ids));
        let k = choose|k: int| 0 <= k < out.len() && projected(#[trigger] out[k], ps[j], ids);
        lemma_projected_id(out[k], ps[j], ids);
    }
}

/// Two participants that agree in every field, texts and lists compared by their contents.
pub open spec fn same_participant(a: GameParticipant, b: GameParticipant) -> bool {
    &&& a.id == b.id
    &&& opt_view(a.puuid) == opt_view(b.puuid)
    &&& opt_view(a.name) == opt_view(b.name)
    &&& a.team == b.team
    &&& a.placement == b.placement
    &&& a.champion_id == b.champion_id
    &&& a.role@ == b.role@
    &&& a.win == b.win
    &&& a.kills == b.kills
    &&& a.deaths == b.deaths
    &&& a.assists == b.assists
    &&& a.cs == b.cs
    &&& a.gold == b.gold
    &&& a.damage == b.damage
    &&& a.items@ == b.items@
    &&& a.double_kills == b.double_kills
    &&& a.triple_kills == b.triple_kills
    &&& a.quadra_kills == b.quadra_kills
    &&& a.penta_kills == b.penta_kills
}

proof fn lemma_projected_same(p: GameParticipant, q: GameParticipant, person: Json, ids: Seq<Json>)
    requires
        projected(p, person, ids),
        projected(q, person, ids),
    ensures
        same_participant(p, q),
{
    reveal(projected);
}

proof fn lemma_projected_team(p: GameParticipant, person: Json, ids: Seq<Json>)
    requires
        projected(p, person, ids),
    ensures
        p.team == team_of(person),
        p.id == pid(person),
{
    reveal(projected);
}

proof fn lemma_same_prefix(g1: GameSummary, g2: GameSummary, detail: Json, k: int)
    requires
        spec_project_ok(detail),
        summary_of(g1, detail),
        summary_of(g2, detail),
        0 <= k <= g1.participants@.len(),
    ensures
        forall|m: int| 0 <= m < k ==> same_participant(#[trigger] g1.participants@[m], g2.participants@[m]),
    decreases k,
{
    if k > 0 {
        lemma_same_prefix(g1, g2, detail, k - 1);
        let ps = json_items(field(detail, "participants"@))->0;
        let ids = json_items(field(detail, "participantIdentities"@))->0;
        let a = g1.participants@;
        let b = g2.participants@;
        let i = k - 1;
        assert(projects_one_of(a[i], ps, ids, ps.len() as int));
        let j1 = choose|j: int| 0 <= j < ps.len() && projected(a[i], #[trigger] ps[j], ids);
        assert(projected_in(b, ps[j1], ids));
        let m2 = choose|m: int| 0 <= m < b.len() && projected(#[trigger] b[m], ps[j1], ids);
        lemma_projected_team(a[i], ps[j1], ids);
        lemma_projected_team(b[m2], ps[j1], ids);
        if m2 < i {
            assert(same_participant(a[m2], b[m2]));
            assert(listed_before(a[m2], a[i]));
            assert(false);
        } else if m2 > i {
            assert(listed_before(b[i], b[m2]));
            assert(projects_one_of(b[i], ps, ids, ps.len() as int));
            let j2 = choose|j: int| 0 <= j < ps.len() && projected(b[i], #[trigger] ps[j], ids);
            assert(projected_in(a, ps[j2], ids));
            let m1 = choose|m: int| 0 <= m < a.len() && projected(#[trigger] a[m], ps[j2], ids);
            lemma_projected_team(b[i], ps[j2], ids);
            lemma_projected_team(a[m1], ps[j2], ids);
            if m1 > i {
                assert(listed_before(a[i], a[m1]));
                assert(false);
            } else if m1 == i {
                assert(false);
            } else {
                assert(same_participant(a[m1], b[m1]));
                assert(listed_before(b[m1], b[i]));
                assert(false);
            }
        }
        assert(m2 == i);
        lemma_projected_same(a[i], b[i], ps[j1], ids);
    }
}

/// Law: a match document has one summary. Two summaries of a projectable document agree in
/// every field, participant by participant; so a page of match history shows each game as
/// `project` gives it.
pub proof fn lemma_summary_unique(g1: GameSummary, g2: GameSummary, detail: Json)
    requires
        spec_project_ok(detail),
        summary_of(g1, detail),
        summary_of(g2, detail),
    ensures
        g1.started_at == g2.started_at,
        g1.duration == g2.duration,
        g1.queue_id == g2.queue_id,
        g1.version@ == g2.version@,
        g1.participants@.len() == g2.participants@.len(),
        forall|m: int| 0 <= m < g1.participants@.len() ==> same_participant(#[trigger] g1.participants@[m], g2.participants@[m]),
{
    lemma_same_prefix(g1, g2, detail, g1.participants@.len() as int);
}

/// `p` shows the statistics that `person` records under their own keys: champion, kills,
/// deaths, assists, gold, damage to champions, each kind of multi-kill, the result, the
/// minions and monsters killed together (capped at the largest `u32`), the subteam or else
/// the team, and the subteam placement or else the placement when one is given.
pub open spec fn shows_own_stats(p: GameParticipant, person: Json) -> bool {
    let stats = field(person, "stats"@);
    &&& p.id == json_small(field(person, "participantId"@))
    &&& p.champion_id == json_small(field(person, "championId"@))
    &&& p.kills == json_small(field(stats, "kills"@))
    &&& p.deaths == json_small(field(stats, "deaths"@))
    &&& p.assists == json_small(field(stats, "assists"@))
    &&& p.gold == json_small(field(stats, "goldEarned"@))
    &&& p.damage == json_small(field(stats, "totalDamageDealtToChampions"@))
    &&& p.double_kills == json_small(field(stats, "doubleKills"@))
    &&& p.triple_kills == json_small(field(stats, "tripleKills"@))
    &&& p.quadra_kills == json_small(field(stats, "quadraKills"@))
    &&& p.penta_kills == json_small(field(stats, "pentaKills"@))
    &&& p.win == json_bool(field(stats, "win"@))
    &&& p.cs as int == (if json_small(field(stats, "totalMinionsKilled"@)) + json_small(field(stats, "neutralMinionsKilled"@))
        <= u32::MAX {
        json_small(field(stats, "totalMinionsKilled"@)) + json_small(field(stats, "neutralMinionsKilled"@))
    } else {
        u32::MAX as int
    })
    &&& (json_small(field(stats, "playerSubteamId"@)) > 0 ==> p.team == json_small(field(stats, "playerSubteamId"@)))
    &&& (json_small(field(stats, "playerSubteamId"@)) == 0 ==> p.team == json_small(field(person, "teamId"@)))
    &&& p.placement == (if json_small(field(stats, "subteamPlacement"@)) > 0 {
        Some(json_small(field(stats, "subteamPlacement"@)))
    } else if json_small(field(stats, "placement"@)) > 0 {
        Some(json_small(field(stats, "placement"@)))
    } else {
        None
    })
}

/// Some roster entry is the participant `p` shows, with its own statistics.
pub open spec fn from_own_entry(p: GameParticipant, ps: Seq<Json>) -> bool {
    exists|j: int| 0 <= j < ps.len() && shows_own_stats(p, #[trigger] ps[j])
}

/// Law: every participant of a projected game shows the statistics of its own roster entry,
/// each from its own key (double kills from `doubleKills`, quadra kills from `quadraKills`,
/// and so on).
pub proof fn lemma_participants_show_own_stats(g: GameSummary, detail: Json)
    requires
        spec_project_ok(detail),
        summary_of(g, detail),
    ensures
        forall|k: int| 0 <= k < g.participants@.len() ==> from_own_entry(
            #[trigger] g.participants@[k],
            json_items(field(detail, "participants"@))->0,
        ),
{
    let ps = json_items(field(detail, "participants"@))->0;
    let ids = json_items(field(detail, "participantIdentities"@))->0;
    let out = g.participants@;
    assert forall|k: int| 0 <= k < out.len() implies from_own_entry(#[trigger] out[k], ps) by {
        assert(projects_one_of(out[k], ps, ids, ps.len() as int));
        let j = choose|j: int| 0 <= j < ps.len() && projected(out[k], #[trigger] ps[j], ids);
        reveal(projected);
        assert(shows_own_stats(out[k], ps[j]));
    }
}

/// Law: a projected game reads each of its own fields from its own key of the document: the
/// duration from `gameDuration`, the queue from `queueId`, the version from `gameVersion`, and
/// the start from an integer `gameCreation` (0 when there is none).
pub proof fn lemma_summary_reads_own_keys(g: GameSummary, detail: Json)
    requires
        summary_of(g, detail),
    ensures
        g.duration == json_small(field(detail, "gameDuration"@)),
        g.queue_id == json_small(field(detail, "queueId"@)),
        json_text(field(detail, "gameVersion"@)) matches Some(v) ==> g.version@ == v,
        json_text(field(detail, "gameVersion"@)) is None ==> g.version@.len() == 0,
        match field(detail, "gameCreation"@) {
            Json::Number(JsonNumber::Unsigned(n)) => g.started_at == (if n <= i64::MAX { n as int } else { 0 }),
            Json::Number(JsonNumber::Negative(n)) => g.started_at == n,
            _ => g.started_at == 0,
        },
{
}

/// Every participant in `out` is the projection of one of the first `n` roster entries.
#[verifier::opaque]
pub open spec fn from_roster(out: Seq<GameParticipant>, ps: Seq<Json>, ids: Seq<Json>, n: int) -> bool {
    forall|k: int| 0 <= k < out.len() ==> projects_one_of(#[trigger] out[k], ps, ids, n)
}

/// Each of the first `n` roster entries has its projection in `out`.
#[verifier::opaque]
pub open spec fn covers_roster(out: Seq<GameParticipant>, ps: Seq<Json>, ids: Seq<Json>, n: int) -> bool {
    forall|j: int| 0 <= j < n ==> projected_in(out, #[trigger] ps[j], ids)
}

/// Participants listed by team and then by id.
#[verifier::opaque]
pub open spec fn listed(out: Seq<GameParticipant>) -> bool {
    forall|k: int, m: int| 0 <= k < m < out.len() ==> listed_before(#[trigger] out[k], #[trigger] out[m])
}

/// The first `n` roster entries have nonzero ids of their own.
#[verifier::opaque]
pub open spec fn distinct_ids(ps: Seq<Json>, n: int) -> bool {
    &&& forall|j: int| 0 <= j < n ==> pid(#[trigger] ps[j]) != 0
    &&& forall|j: int, l: int| 0 <= j < l < n ==> pid(#[trigger] ps[j]) != pid(#[trigger] ps[l])
}

proof fn lemma_insert_from(old_out: Seq<GameParticipant>, p: GameParticipant, pos: int, ps: Seq<Json>, ids: Seq<Json>, i: int)
    requires
        0 <= i < ps.len(),
        0 <= pos <= old_out.len(),
        from_roster(old_out, ps, ids, i),
        projected(p, ps[i], ids),
    ensures
        from_roster(old_out.insert(pos, p), ps, ids, i + 1),
{
    reveal(from_roster);
    let out = old_out.insert(pos, p);
    old_out.insert_ensures(pos, p);
    assert forall|k: int| 0 <= k < out.len() implies projects_one_of(#[trigger] out[k], ps, ids, i + 1) by {
        if k < pos {
            assert(out[k] == old_out[k]);
            assert(projects_one_of(old_out[k], ps, ids, i));
            let j = choose|j: int| 0 <= j < i && projected(old_out[k], #[trigger] ps[j], ids);
            assert(projected(out[k], ps[j], ids));
        } else if k == pos {
            assert(projected(out[k], ps[i], ids));
        } else {
            assert(out[k] == old_out[k - 1]);
            assert(projects_one_of(old_out[k - 1], ps, ids, i));
            let j = choose|j: int| 0 <= j < i && projected(old_out[k - 1], #[trigger] ps[j], ids);
            assert(projected(out[k], ps[j], ids));
        }
    }
}

proof fn lemma_insert_covers(old_out: Seq<GameParticipant>, p: GameParticipant, pos: int, ps: Seq<Json>, ids: Seq<Json>, i: int)
    requires
        0 <= i < ps.len(),
        0 <= pos <= old_out.len(),
        covers_roster(old_out, ps, ids, i),
        projected(p, ps[i], ids),
    ensures
        covers_roster(old_out.insert(pos, p), ps, ids, i + 1),
{
    reveal(covers_roster);
    let out = old_out.insert(pos, p);
    old_out.insert_ensures(pos, p);
    assert forall|j: int| 0 <= j < i + 1 implies projected_in(out, #[trigger] ps[j], ids) by {
        if j == i {
            assert(projected(out[pos], ps[j], ids));
        } else {
            assert(projected_in(old_out, ps[j], ids));
            let k = choose|k: int| 0 <= k < old_out.len() && projected(#[trigger] old_out[k], ps[j], ids);
            if k < pos {
                assert(out[k] == old_out[k]);
                assert(projected(out[k], ps[j], ids));
            } else {
                assert(out[k + 1] == old_out[k]);
                assert(projected(out[k + 1], ps[j], ids));
            }
        }
    }
}

proof fn lemma_insert_listed(old_out: Seq<GameParticipant>, p: GameParticipant, pos: int)
    requires
        0 <= pos <= old_out.len(),
        listed(old_out),
        forall|k: int| 0 <= k < old_out.len() ==> (#[trigger] old_out[k]).id != p.id,
        forall|k: int| 0 <= k < pos ==> !listed_before(p, #[trigger] old_out[k]),
        pos < old_out.len() ==> listed_before(p, old_out[pos]),
    ensures
        listed(old_out.insert(pos, p)),
{
    reveal(listed);
    let out = old_out.insert(pos, p);
    old_out.insert_ensures(pos, p);
    assert forall|k: int, m: int| 0 <= k < m < out.len() implies listed_before(
        #[trigger] out[k],
        #[trigger] out[m],
    ) by {
        if m < pos {
            assert(out[k] == old_out[k] && out[m] == old_out[m]);
        } else if m == pos {
            assert(out[k] == old_out[k]);
            assert(old_out[k].id != p.id);
            assert(!listed_before(p, old_out[k]));
        } else if k > pos {
            assert(out[k] == old_out[k - 1] && out[m] == old_out[m - 1]);
        } else if k == pos {
            assert(out[m] == old_out[m - 1]);
            if m - 1 > pos {
                assert(listed_before(old_out[pos], old_out[m - 1]));
            }
        } else {
            assert(out[k] == old_out[k] && out[m] == old_out[m - 1]);
        }
    }
}

proof fn lemma_repeated_id(out: Seq<GameParticipant>, ps: Seq<Json>, ids: Seq<Json>, i: int, k: int)
    requires
        0 <= i < ps.len(),
        0 <= k < out.len(),
        from_roster(out, ps, ids, i),
        out[k].id == pid(ps[i]),
    ensures
        !roster_ok(ps),
{
    reveal(from_roster);
    assert(projects_one_of(out[k], ps, ids, i));
    let j = choose|j: int| 0 <= j < i && projected(out[k], #[trigger] ps[j], ids);
    lemma_projected_id(out[k], ps[j], ids);
    assert(pid(ps[j]) == pid(ps[i]));
}

proof fn lemma_fresh_id(out: Seq<GameParticipant>, ps: Seq<Json>, ids: Seq<Json>, i: int)
    requires
        0 <= i < ps.len(),
        covers_roster(out, ps, ids, i),
        distinct_ids(ps, i),
        pid(ps[i]) != 0,
        forall|k: int| 0 <= k < out.len() ==> (#[trigger] out[k]).id != pid(ps[i]),
    ensures
        distinct_ids(ps, i + 1),
{
    reveal(covers_roster);
    reveal(distinct_ids);
    assert forall|j: int| 0 <= j < i implies pid(ps[j]) != pid(ps[i]) by {
        assert(projected_in(out, ps[j], ids));
        let k = choose|k: int| 0 <= k < out.len() && projected(#[trigger] out[k], ps[j], ids);
        lemma_projected_id(out[k], ps[j], ids);
        assert(out[k].id != pid(ps[i]));
    }
}

proof fn lemma_projection_done(g: GameSummary, detail: Json, ps: Seq<Json>, ids: Seq<Json>)
    requires
        json_items(field(detail, "participantIdentities"@)) == Some(ids),
        json_items(field(detail, "participants"@)) == Some(ps),
        ps.len() > 0,
        distinct_ids(ps, ps.len() as int),
        g.participants@.len() == ps.len(),
        from_roster(g.participants@, ps, ids, ps.len() as int),
        covers_roster(g.participants@, ps, ids, ps.len() as int),
        listed(g.participants@),
        g.started_at == creation_time(field(detail, "gameCreation"@)),
        g.duration == json_small(field(detail, "gameDuration"@)),
        g.queue_id == json_small(field(detail, "queueId"@)),
        g.version@ == (match json_text(field(detail, "gameVersion"@)) {
            Some(v) => v,
            None => Seq::empty(),
        }),
    ensures
        spec_project_ok(detail),
        summary_of(g, detail),
{
    reveal(from_roster);
    reveal(covers_roster);
    reveal(listed);
    reveal(distinct_ids);
    assert(g.participants@.len() == ps.len());
    assert(forall|k: int, m: int|
        0 <= k < m < g.participants@.len() ==> listed_before(
            #[trigger] g.participants@[k],
            #[trigger] g.participants@[m],
        ));
}

fn index_of_id(out: &Vec<GameParticipant>, id: u32) -> (r: Option<usize>)
    ensures
        match r {
            Some(k) => k < out@.len() && out@[k as int].id == id,
            None => forall|k: int| 0 <= k < out@.len() ==> (#[trigger] out@[k]).id != id,
        },
{
    let mut k: usize = 0;
    while k < out.len()
        invariant
            k <= out@.len(),
            forall|m: int| 0 <= m < k ==> (#[trigger] out@[m]).id != id,
        decreases out.len() - k,
    {
        if out[k].id == id {
            return Some(k);
        }
        k = k + 1;
    }
    None
}

/// The library's summary of a stored match document. Fails with `game.invalidData` when the
/// document lists no identities, no participants, or a participant without an id of its own.
pub fn project(detail: &Json) -> (r: Result<GameSummary, String>)
    ensures
        match r {
            Ok(g) => spec_project_ok(*detail) && summary_of(g, *detail),
            Err(e) => !spec_project_ok(*detail) && e@ == "game.invalidData"@,
        },
{
    let ids = match field_items(detail, "participantIdentities") {
        Some(ids) => ids,
        None => return Err(owned("game.invalidData")),
    };
    let ps = match field_items(detail, "participants") {
        Some(ps) => ps,
        None => return Err(owned("game.invalidData")),
    };
    if ps.len() == 0 {
        return Err(owned("game.invalidData"));
    }
    let mut out: Vec<GameParticipant> = Vec::new();
    let mut i: usize = 0;
    proof {
        reveal(distinct_ids);
        reveal(from_roster);
        reveal(covers_roster);
        reveal(listed);
    }
    while i < ps.len()
        invariant
            i <= ps@.len(),
            ps@.len() > 0,
            json_items(field(*detail, "participants"@)) == Some(ps@),
            json_items(field(*detail, "participantIdentities"@)) == Some(ids@),
            out@.len() == i,
            distinct_ids(ps@, i as int),
            from_roster(out@, ps@, ids@, i as int),
            covers_roster(out@, ps@, ids@, i as int),
            listed(out@),
        decreases ps.len() - i,
    {
        let id = field_small(&ps[i], "participantId");
        if id == 0 {
            assert(pid(ps@[i as int]) == 0);
            assert(!roster_ok(ps@));
            return Err(owned("game.invalidData"));
        }
        match index_of_id(&out, id) {
            Some(k) => {
                proof {
                    lemma_repeated_id(out@, ps@, ids@, i as int, k as int);
                }
                return Err(owned("game.invalidData"));
            },
            None => {},
        }
        proof {
            lemma_fresh_id(out@, ps@, ids@, i as int);
        }
        let p = project_one(&ps[i], ids);
        proof {
            lemma_projected_id(p, ps@[i as int], ids@);
        }
        let pos = position(&out, p.team, p.id);
        let ghost old_out = out@;
        proof {
            lemma_insert_from(old_out, p, pos as int, ps@, ids@, i as int);
            lemma_insert_covers(old_out, p, pos as int, ps@, ids@, i as int);
            lemma_insert_listed(old_out, p, pos as int);
        }
        out.insert(pos, p);
        i = i + 1;
    }
    let version = match field_text(detail, "gameVersion") {
        Some(v) => owned(v),
        None => String::new(),
    };
    let g = GameSummary {
        started_at: creation_time_of(member(detail, "gameCreation")),
        duration: field_small(detail, "gameDuration"),
        queue_id: field_small(detail, "queueId"),
        version,
        participants: out,
    };
    proof {
        lemma_projection_done(g, *detail, ps@, ids@);
    }
    Ok(g)
}

/// What stops a page of match history at this game: a missing or zero `gameId`, else a
/// roster that cannot be projected.
pub open spec fn game_error(detail: Json) -> Option<Seq<char>> {
    match json_u64(field(detail, "gameId"@)) {
        Some(n) => if n == 0 {
            Some("game.invalidId"@)
        } else if !spec_project_ok(detail) {
            Some("game.invalidData"@)
        } else {
            None
        },
        None => Some("game.invalidId"@),
    }
}

/// `g` shows the match document `detail`: its game number in decimal, and its summary.
pub open spec fn search_game_of(g: SearchGame, detail: Json) -> bool {
    &&& json_u64(field(detail, "gameId"@)) matches Some(n) && g.game_id@ == decimal(n as nat)
    &&& summary_of(g.game, detail)
}

/// A page of match history as the library shows it: every game with its number and summary,
/// in order; or the error of the first game that cannot be shown.
pub fn search_result(page: HistoryPage) -> (r: Result<SearchResult, String>)
    ensures
        match r {
            Ok(res) => {
                &&& forall|k: int| 0 <= k < page.games@.len() ==> game_error(#[trigger] page.games@[k]) is None
                &&& res.games@.len() == page.games@.len()
                &&& forall|k: int| 0 <= k < page.games@.len() ==> search_game_of(#[trigger] res.games@[k], page.games@[k])
                &&& res.account == page.account && res.server == page.server && res.start == page.start
                &&& res.has_more == page.has_more && res.skipped_games == page.skipped_games && res.source == page.source
            },
            Err(e) => exists|k: int|
                0 <= k < page.games@.len() && (forall|j: int| 0 <= j < k ==> game_error(#[trigger] page.games@[j]) is None)
                    && game_error(#[trigger] page.games@[k]) == Some(e@),
        },
{
    let mut games: Vec<SearchGame> = Vec::new();
    let mut k: usize = 0;
    while k < page.games.len()
        invariant
            k <= page.games@.len(),
            games@.len() == k,
            forall|j: int| 0 <= j < k ==> game_error(#[trigger] page.games@[j]) is None,
            forall|j: int| 0 <= j < k ==> search_game_of(#[trigger] games@[j], page.games@[j]),
        decreases page.games.len() - k,
    {
        let detail = &page.games[k];
        let n = match field_u64(detail, "gameId") {
            Some(n) => n,
            None => {
                assert(game_error(page.games@[k as int]) == Some("game.invalidId"@));
                return Err(owned("game.invalidId"));
            },
        };
        if n == 0 {
            assert(game_error(page.games@[k as int]) == Some("game.invalidId"@));
            return Err(owned("game.invalidId"));
        }
        let game = match project(detail) {
            Ok(g) => g,
            Err(e) => {
                assert(game_error(page.games@[k as int]) == Some(e@));
                return Err(e);
            },
        };
        games.push(SearchGame { game_id: decimal_text(n), game });
        k = k + 1;
    }
    Ok(SearchResult {
        account: page.account,
        server: page.server,
        games,
        start: page.start,
        has_more: page.has_more,
        skipped_games: page.skipped_games,
        source: page.source,
    })
}

} // verus!

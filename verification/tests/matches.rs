use league_replay::domain::{Account, EventKind, EventLabel, HistoryPage, StoredReview};
use league_replay::json::{Json, JsonNumber};
use league_replay::matches::{
    account_from_profile, account_in_game, lcu_timeline, participant_accounts, sgp_timeline, summary, validate_detail,
};
use league_replay::projection::{project, search_result};
use league_replay::regions::{ServerConfig, ServerEntry, ServerName};
use league_replay::review::review_game;

/// The library's value for a JSON text.
fn json(text: &str) -> Json {
    convert(serde_json::from_str(text).expect("test JSON"))
}

fn convert(v: serde_json::Value) -> Json {
    match v {
        serde_json::Value::Null => Json::Null,
        serde_json::Value::Bool(b) => Json::Bool(b),
        serde_json::Value::Number(n) => match (n.as_u64(), n.as_i64(), n.as_f64()) {
            (Some(u), _, _) => Json::Number(JsonNumber::Unsigned(u)),
            (None, Some(i), _) => Json::Number(JsonNumber::Negative(i)),
            (_, _, Some(f)) => Json::Number(JsonNumber::Float(f.to_bits())),
            _ => Json::Null,
        },
        serde_json::Value::String(s) => Json::Text(s),
        serde_json::Value::Array(a) => Json::Array(a.into_iter().map(convert).collect()),
        serde_json::Value::Object(m) => Json::Object(m.into_iter().map(|(k, v)| (k, convert(v))).collect()),
    }
}

fn same(a: &Json, b: &Json) -> bool {
    league_replay::json::json_eq(a, b)
}

fn entry(id: &str, history: Option<&str>, alias: Option<&str>) -> ServerEntry {
    ServerEntry {
        id: id.to_string(),
        match_history: history.map(str::to_string),
        common: history.map(str::to_string),
        region_path_param: alias.map(str::to_string),
    }
}

fn config() -> ServerConfig {
    ServerConfig::new(
        vec![
            entry("TENCENT_HN1", Some("https://hn1-k8s-sgp.lol.qq.com:21019"), Some("HN1")),
            entry("TENCENT_HN10", Some("https://hn10-k8s-sgp.lol.qq.com:21019"), Some("HN10")),
        ],
        vec![ServerName { id: "TENCENT_HN1".into(), name: "艾欧尼亚".into() }],
        vec![ServerName { id: "TENCENT_HN1".into(), name: "Ionia".into() }],
    )
    .expect("valid routing table")
}

fn account(platform: &str, puuid: &str) -> Account {
    Account {
        id: format!("{platform}:{puuid}"),
        platform: platform.into(),
        puuid: puuid.into(),
        summoner_id: "1".into(),
        riot_id: "A#TEST".into(),
    }
}

#[test]
fn timeline_sources_have_distinct_contracts_and_verify_supplied_identities() {
    let config = config();
    let raw = r#"{"frames":[{"events":[{"type":"ITEM_PURCHASED","timestamp":42000,"participantId":1,"itemId":1001}]}]}"#;
    let sgp = r#"{"metadata":{"match_id":"HN1_42"},"json":{"gameId":42,"frames":[{"events":[{"type":"ITEM_PURCHASED","timestamp":42000,"participantId":1,"itemId":1001}]}]}}"#;
    assert!(same(&lcu_timeline(&config, "TENCENT_HN1", "42", json(raw)).unwrap(), &json(raw)));
    let inner = r#"{"gameId":42,"frames":[{"events":[{"type":"ITEM_PURCHASED","timestamp":42000,"participantId":1,"itemId":1001}]}]}"#;
    assert!(same(&sgp_timeline(&config, "TENCENT_HN1", "42", json(sgp)).unwrap(), &json(inner)));
    assert!(lcu_timeline(&config, "TENCENT_HN1", "42", json(r#"{"frames":[]}"#)).is_ok());
    assert!(sgp_timeline(&config, "TENCENT_HN1", "42", json(raw)).is_err());
    assert!(lcu_timeline(&config, "TENCENT_HN1", "42", json(sgp)).is_err());
    for invalid in [
        r#"{"gameId":43,"frames":[]}"#,
        r#"{"gameId":null,"frames":[]}"#,
        r#"{"metadata":{"match_id":null},"frames":[]}"#,
        r#"{"json":{"frames":[]}}"#,
        r#"{"metadata":{"match_id":"HN10_42"},"json":{"gameId":42,"frames":[]}}"#,
        r#"{"frames":{}}"#,
        r#"{"frames":[null]}"#,
        r#"{"frames":[{"events":{}}]}"#,
        r#"{}"#,
    ] {
        assert!(lcu_timeline(&config, "TENCENT_HN1", "42", json(invalid)).is_err());
        assert!(sgp_timeline(&config, "TENCENT_HN1", "42", json(invalid)).is_err());
    }
    for value in [r#"{"frames":[]}"#, r#"{"gameId":43,"frames":[]}"#, r#"{"gameId":42,"frames":[null]}"#] {
        let wrapped = format!(r#"{{"json":{value}}}"#);
        assert!(sgp_timeline(&config, "TENCENT_HN1", "42", json(&wrapped)).is_err());
    }
}

#[test]
fn participant_identity_normalization_is_shared_and_skips_incomplete_players() {
    let game = json(
        r#"{"participantIdentities":[
            {"player":{"puuid":"a","summonerId":"12","gameName":"Player","tagLine":"TEST"}},
            {"player":{"puuid":"b","summonerId":13,"summonerName":"Previous name"}},
            {"player":{"puuid":"missing-id","gameName":"Incomplete","tagLine":"TEST"}},
            {"player":{"puuid":"00000000-0000-0000-0000-000000000000","summonerId":14,"summonerName":"Invalid"}},
            {"player":null},{"player":[]},{"player":"invalid"}
        ]}"#,
    );
    let accounts = participant_accounts("HN1", &game);
    assert_eq!(accounts.len(), 2);
    assert_eq!(accounts[0].id, "HN1:a");
    assert_eq!(accounts[0].summoner_id, "12");
    assert_eq!(accounts[0].riot_id, "Player#TEST");
    assert_eq!(accounts[1].riot_id, "Previous name");
    assert_eq!(account_in_game("HN1", "a", &game).unwrap().id, accounts[0].id);
    assert_ne!(participant_accounts("HN10", &game)[0].id, accounts[0].id);
    assert!(account_in_game("HN1", "missing-id", &game).is_err());
}

const PROJECTED: &str = r#"{
    "gameCreation": 1000, "gameDuration": 1800, "queueId": 1700, "gameVersion": "16.18",
    "participantIdentities": [
        {"participantId": 1, "player": {"puuid": "a", "gameName": "Alice", "tagLine": "TEST"}},
        {"participantId": 2, "player": {"puuid": "00000000-0000-0000-0000-000000000000", "summonerName": "Bot"}}
    ],
    "participants": [
        {"participantId": 1, "teamId": 100, "championId": 103, "teamPosition": "MIDDLE", "stats": {
            "playerSubteamId": 3, "subteamPlacement": 2, "placement": 8,
            "win": true, "kills": 12, "deaths": 3, "assists": 8,
            "totalMinionsKilled": 100, "neutralMinionsKilled": 20,
            "goldEarned": 14000, "totalDamageDealtToChampions": 25000,
            "item0": 1001, "item1": 0, "item6": 3363, "tripleKills": 1
        }},
        {"participantId": 2, "teamId": 200, "timeline": {"lane": "TOP"}, "stats": {}}
    ]
}"#;

#[test]
fn projects_identity_stats_and_subteams_without_inventing_results() {
    let result = project(&json(PROJECTED)).unwrap();
    assert_eq!(result.started_at, 1000);
    assert_eq!(result.duration, 1800);
    assert_eq!(result.queue_id, 1700);
    assert_eq!(result.version, "16.18");
    let a = &result.participants[0];
    assert_eq!(a.name.as_deref(), Some("Alice#TEST"));
    assert_eq!(a.puuid.as_deref(), Some("a"));
    assert_eq!((a.team, a.placement, a.champion_id), (3, Some(2), 103));
    assert_eq!((a.kills, a.deaths, a.assists, a.cs), (12, 3, 8, 120));
    assert_eq!((a.gold, a.damage, a.triple_kills), (14000, 25000, 1));
    assert_eq!(a.items, vec![1001, 3363]);
    assert_eq!(a.role, "MIDDLE");
    assert_eq!(a.win, Some(true));
    let bot = &result.participants[1];
    assert_eq!(bot.name.as_deref(), Some("Bot"));
    assert!(bot.puuid.is_none());
    assert!(bot.win.is_none());
    assert_eq!(bot.role, "TOP");
}

#[test]
fn rejects_missing_empty_or_ambiguous_rosters() {
    for value in [
        r#"{}"#,
        r#"{"participantIdentities": [], "participants": []}"#,
        r#"{"participantIdentities": [], "participants": [{"participantId": 0}]}"#,
        r#"{"participantIdentities": [], "participants": [{"participantId": 1}, {"participantId": 1}]}"#,
    ] {
        assert_eq!(project(&json(value)).err().unwrap(), "game.invalidData");
    }
}

#[test]
fn participants_are_listed_by_team_then_id() {
    let detail = json(
        r#"{"participantIdentities": [], "participants": [
            {"participantId": 4, "teamId": 200}, {"participantId": 3, "teamId": 100},
            {"participantId": 2, "teamId": 200}, {"participantId": 1, "teamId": 100}
        ]}"#,
    );
    let order: Vec<(u32, u32)> = project(&detail).unwrap().participants.iter().map(|p| (p.team, p.id)).collect();
    assert_eq!(order, vec![(100, 1), (100, 3), (200, 2), (200, 4)]);
    let saturated = json(
        r#"{"participantIdentities": [], "participants": [{"participantId": 1, "stats": {"totalMinionsKilled": 4294967295, "neutralMinionsKilled": 1}}]}"#,
    );
    assert_eq!(project(&saturated).unwrap().participants[0].cs, u32::MAX);
}

fn fixture() -> StoredReview {
    StoredReview {
        id: "HN1_1".into(),
        server: "TENCENT_HN1".into(),
        account: account("HN1", "a"),
        detail: json(
            r#"{"gameId":1,"gameDuration":100,"gameMode":"CLASSIC",
            "participantIdentities":[{"participantId":1,"player":{"puuid":"a"}}],
            "participants":[{"participantId":1,"stats":{"win":true,"tripleKills":1,"playerSubteamId":3,"subteamPlacement":2}}]}"#,
        ),
        timeline: None,
        source: "archive".into(),
        timeline_error: None,
        bookmarked: true,
    }
}

#[test]
fn projects_real_events_and_undo_direction_without_fabricating_multikills() {
    let mut raw = fixture();
    raw.timeline = Some(json(
        r#"{"frames":[{"events":[
        {"type":"ITEM_PURCHASED","timestamp":42001,"participantId":1,"itemId":1001},
        {"type":"ITEM_SOLD","timestamp":43000,"participantId":1,"itemId":1001},
        {"type":"ITEM_UNDO","timestamp":44000,"participantId":1,"beforeId":0,"afterId":1001},
        {"type":"ITEM_UNDO","timestamp":45000,"participantId":1,"beforeId":1001,"afterId":0},
        {"type":"ITEM_DESTROYED","timestamp":46000,"participantId":1,"itemId":1001},
        {"type":"CHAMPION_KILL","timestamp":47000,"killerId":1},
        {"type":"ELITE_MONSTER_KILL","timestamp":48000,"killerId":1,"monsterType":"DRAGON"},
        {"type":"BUILDING_KILL","timestamp":49000,"killerId":1},
        {"type":"CHAMPION_KILL","timestamp":50000,"killerId":0},
        {"type":"CHAMPION_KILL","timestamp":101000,"killerId":1},
        {"type":"CHAMPION_KILL","killerId":1},
        {"type":"CHAMPION_KILL","timestamp":-1,"killerId":1},
        {"type":"OTHER","timestamp":0,"participantId":1}
    ]}]}"#,
    ));
    let result = review_game(raw).unwrap();
    assert_eq!(result.game_id, "1");
    assert_eq!(result.queue_name, "CLASSIC");
    assert_eq!(result.game.participants[0].triple_kills, 1);
    assert_eq!((result.game.participants[0].team, result.game.participants[0].placement), (3, Some(2)));
    let events = result.timeline.unwrap();
    assert_eq!(events.len(), 8);
    assert_eq!(events[0].at, 42);
    assert_eq!(events[0].id, "HN1_1:0:0");
    assert_eq!(events[2].label, EventLabel::UndoSale);
    assert_eq!(events[2].restored_item_id, Some(1001));
    assert_eq!(events[3].label, EventLabel::UndoPurchase);
    assert_eq!(events[3].restored_item_id, Some(0));
    assert_eq!(events[6].monster, "DRAGON");
    assert_eq!(events[7].kind, EventKind::Objective);
    assert_eq!(events[0].item_id, Some(1001));
    assert_eq!(events[5].item_id, None);
    assert_eq!(events[7].id, "HN1_1:0:7");
}

#[test]
fn distinguishes_missing_timeline_from_a_valid_empty_timeline() {
    assert!(review_game(fixture()).unwrap().timeline.is_none());
    let mut raw = fixture();
    raw.timeline = Some(json(r#"{"frames":[]}"#));
    assert!(review_game(raw).unwrap().timeline.unwrap().is_empty());
    let mut raw = fixture();
    raw.timeline = Some(json(r#"{}"#));
    assert!(review_game(raw).unwrap().timeline.is_none());
}

#[test]
fn review_reports_an_unreadable_roster_before_a_missing_game_number() {
    let mut raw = fixture();
    raw.detail = json(r#"{"gameId":0,"participantIdentities":[],"participants":[{"participantId":1}]}"#);
    assert_eq!(review_game(raw).err().unwrap(), "game.invalidId");
    let mut raw = fixture();
    raw.detail = json(r#"{"gameId":0,"participants":[]}"#);
    assert_eq!(review_game(raw).err().unwrap(), "game.invalidData");
}

#[test]
fn profiles_become_accounts_only_with_a_usable_identity() {
    let a = account_from_profile(
        "KR",
        &json(r#"{"puuid":"p-1","summonerId":77,"gameName":"Name","tagLine":"KR1","displayName":"Old"}"#),
    )
    .unwrap();
    assert_eq!((a.id.as_str(), a.summoner_id.as_str(), a.riot_id.as_str()), ("KR:p-1", "77", "Name#KR1"));
    let b = account_from_profile("KR", &json(r#"{"puuid":"p-2","summonerId":5,"gameName":"","displayName":"Shown"}"#))
        .unwrap();
    assert_eq!(b.riot_id, "Shown");
    for invalid in [
        r#"{"summonerId":1,"displayName":"x"}"#,
        r#"{"puuid":"","summonerId":1,"displayName":"x"}"#,
        r#"{"puuid":"00000000-0000-0000-0000-000000000000","summonerId":1,"displayName":"x"}"#,
        r#"{"puuid":"p","summonerId":0,"displayName":"x"}"#,
        r#"{"puuid":"p","summonerId":"1","displayName":"x"}"#,
        r#"{"puuid":"p","summonerId":1,"gameName":"n"}"#,
    ] {
        assert_eq!(account_from_profile("KR", &json(invalid)).err().unwrap(), "game.invalidData");
    }
    let long = format!(r#"{{"puuid":"{}","summonerId":1,"displayName":"x"}}"#, "a".repeat(129));
    assert!(account_from_profile("KR", &json(&long)).is_err());
}

#[test]
fn a_stored_detail_must_be_the_accounts_finished_game() {
    let owner = account("HN1", "a");
    let detail = json(
        r#"{"gameId":42,"platformId":"hn1","gameDuration":100,
        "participantIdentities":[{"participantId":7,"player":{"puuid":"a"}}],
        "participants":[{"participantId":6,"stats":{}},{"participantId":7,"stats":{"win":false}}]}"#,
    );
    let participant = validate_detail("HN1_42", &owner, &detail).unwrap();
    assert!(same(participant, &json(r#"{"participantId":7,"stats":{"win":false}}"#)));
    assert_eq!(validate_detail("HN1_43", &owner, &detail).err().unwrap(), "game.identityMismatch");
    assert_eq!(validate_detail("HN1_42", &account("HN1", "b"), &detail).err().unwrap(), "game.playerMissing");
    let cases = [
        (r#"{"platformId":"HN1"}"#, "game.invalidId"),
        (r#"{"gameId":0,"platformId":"HN1"}"#, "game.invalidId"),
        (r#"{"gameId":42}"#, "game.invalidData"),
        (r#"{"gameId":42,"platformId":"HN10"}"#, "game.identityMismatch"),
        (r#"{"gameId":42,"platformId":"HN1","gameDuration":0}"#, "game.notFinished"),
        (r#"{"gameId":42,"platformId":"HN1","gameDuration":5}"#, "game.playerMissing"),
        (
            r#"{"gameId":42,"platformId":"HN1","gameDuration":5,"participantIdentities":[{"participantId":1,"player":{"puuid":"a"}}],"participants":[{"participantId":2}]}"#,
            "game.playerMissing",
        ),
        (
            r#"{"gameId":42,"platformId":"HN1","gameDuration":5,"participantIdentities":[{"participantId":1,"player":{"puuid":"a"}}],"participants":[{"participantId":1,"stats":{}}]}"#,
            "game.notFinished",
        ),
    ];
    for (text, error) in cases {
        assert_eq!(validate_detail("HN1_42", &owner, &json(text)).err().unwrap(), error);
    }
}

#[test]
fn history_pages_show_every_game_or_the_first_that_cannot_be_shown() {
    let page = |games: Vec<Json>| HistoryPage {
        account: account("HN1", "a"),
        server: "TENCENT_HN1".into(),
        games,
        start: 20,
        has_more: true,
        skipped_games: 1,
        source: "sgp".into(),
    };
    let game = |id: u64| {
        json(&format!(
            r#"{{"gameId":{id},"participantIdentities":[],"participants":[{{"participantId":1}}]}}"#
        ))
    };
    let result = search_result(page(vec![game(5), game(6)])).unwrap();
    assert_eq!(result.games.len(), 2);
    assert_eq!(result.games[1].game_id, "6");
    assert_eq!((result.start, result.has_more, result.skipped_games), (20, true, 1));
    let bad_roster = json(r#"{"gameId":7,"participants":[]}"#);
    assert_eq!(search_result(page(vec![game(5), bad_roster, game(0)])).err().unwrap(), "game.invalidData");
    assert_eq!(search_result(page(vec![game(0), json(r#"{"gameId":7}"#)])).err().unwrap(), "game.invalidId");
}

#[test]
fn projection_preserves_stats_and_checks_region_and_identity() {
    let config = config();
    let raw = json(
        r#"{"metadata":{"match_id":"HN1_42"},"json":{"platformId":"HN1","gameId":42,"participants":[{"participantId":1,"teamId":100,"championId":103,"summonerId":"12","puuid":"a","riotIdGameName":"Player","riotIdTagline":"TEST","win":true,"doubleKills":2}]}}"#,
    );
    let detail = summary(&config, "TENCENT_HN1", &raw).unwrap();
    let participants = match league_replay::json::member(&detail, "participants") {
        Some(Json::Array(p)) => p,
        _ => panic!("participants"),
    };
    let stats = league_replay::json::member(&participants[0], "stats").unwrap();
    assert!(same(league_replay::json::member(stats, "doubleKills").unwrap(), &json("2")));
    assert_eq!(account_in_game("HN1", "a", &detail).unwrap().summoner_id, "12");
    assert!(summary(&config, "TENCENT_HN10", &raw).is_err());
    assert!(account_in_game("HN1", "someone-else", &detail).is_err());
    assert!(sgp_timeline(&config, "TENCENT_HN1", "42", json(r#"{"json":{"gameId":43,"frames":[]}}"#)).is_err());
}

use league_replay::domain::Account;
use league_replay::json::{json_clone, Json, JsonNumber};
use league_replay::lcu::LcuError;
use league_replay::library::{check_backfill, fetched_review, alias_account, alias_error, history_page, named_account, parse_riot_id, query_account, select_alias};
use league_replay::projection::search_result;
use league_replay::regions::{ServerConfig, ServerEntry, ServerName};

fn json(text: &str) -> Json {
    convert(serde_json::from_str(text).expect("test JSON"))
}

fn convert(v: serde_json::Value) -> Json {
    match v {
        serde_json::Value::Null => Json::Null,
        serde_json::Value::Bool(b) => Json::Bool(b),
        serde_json::Value::Number(n) => match (n.as_u64(), n.as_i64(), n.as_f64()) {
            (Some(u), _, _) => Json::Number(JsonNumber::Unsigned(u)),
            (None, Some(i), _) => Json::Number(JsonNumber::Negative(i)),
            (_, _, Some(f)) => Json::Number(JsonNumber::Float(f.to_bits())),
            _ => Json::Null,
        },
        serde_json::Value::String(s) => Json::Text(s),
        serde_json::Value::Array(a) => Json::Array(a.into_iter().map(convert).collect()),
        serde_json::Value::Object(m) => Json::Object(m.into_iter().map(|(k, v)| (k, convert(v))).collect()),
    }
}

fn config() -> ServerConfig {
    ServerConfig::new(
        vec![ServerEntry {
            id: "EUN1".into(),
            match_history: Some("https://eun1.example".into()),
            common: Some("https://eun1.example".into()),
            region_path_param: None,
        }],
        vec![ServerName { id: "EUN1".into(), name: "Europe Nordic & East".into() }],
        vec![ServerName { id: "EUN1".into(), name: "Europe Nordic & East".into() }],
    )
    .expect("valid routing table")
}

fn account() -> Account {
    Account {
        id: "EUN1:player".into(),
        platform: "EUN1".into(),
        puuid: "player".into(),
        summoner_id: "1".into(),
        riot_id: "Player#TEST".into(),
    }
}

fn row_text(id: u32, platform: &str, puuid: &str, participant: u32) -> String {
    format!(
        r#"{{"platformId":"{platform}","gameId":{id},"gameDuration":1200,"gameCreation":1000,
        "participantIdentities":[{{"participantId":1,"player":{{"puuid":"{puuid}","summonerId":1,"gameName":"Player","tagLine":"TEST"}}}}],
        "participants":[{{"participantId":{participant},"championId":103,"stats":{{"win":true}}}}]}}"#
    )
}

fn row(id: u32) -> Json {
    json(&row_text(id, "EUN1", "player", 1))
}

#[test]
fn cross_region_history_needs_no_profile_and_preserves_empty_results() {
    let config = config();
    let game = json(&row_text(1, "KR", "player", 1));
    let account = query_account("KR", "player").unwrap();
    let empty = history_page(&config, "KR", account.clone(), 20, "sgp", &vec![]).unwrap();
    assert!(empty.games.is_empty() && !empty.has_more);
    assert_eq!(empty.account.id, "KR:player");
    assert!(empty.account.summoner_id.is_empty());
    let found = history_page(&config, "KR", account.clone(), 0, "sgp", &vec![json_clone(&game)]).unwrap();
    assert_eq!(found.account.riot_id, "Player#TEST");
    assert_eq!(found.account.summoner_id, "1");
    let mut named = account;
    named.riot_id = "CurrentName#TEST".into();
    let found = history_page(&config, "KR", named, 0, "sgp", &vec![game]).unwrap();
    assert_eq!(found.account.riot_id, "CurrentName#TEST");
    // A shared host returning another region's match must not relabel it as Korea.
    assert!(history_page(&config, "KR", query_account("KR", "player").unwrap(), 0, "sgp", &vec![row(1)]).is_err());
}

#[test]
fn partial_history_keeps_server_pagination_and_valid_local_games() {
    let config = config();
    let mut rows: Vec<Json> = (1..=20).map(row).collect();
    rows[3] = Json::Null;
    let page = history_page(&config, "EUN1", account(), 20, "lcu", &rows).unwrap();
    assert_eq!((page.games.len(), page.skipped_games, page.start), (19, 1, 20));
    assert!(page.has_more);
    let result = search_result(page).unwrap();
    assert_eq!((result.start, result.skipped_games), (20, 1));
    assert!(result.has_more);
    assert_eq!(result.source, "lcu");
    assert_eq!(result.account.puuid, "player");
    assert_eq!(result.games[0].game_id, "1");
    let first = &result.games[0].game.participants[0];
    assert_eq!(first.puuid.as_deref(), Some("player"));
    assert_eq!(first.champion_id, 103);
}

#[test]
fn history_skips_unprojectable_rosters_without_shifting_server_offsets() {
    let config = config();
    let invalid = json(&row_text(2, "EUN1", "player", 0));
    let page = history_page(&config, "EUN1", account(), 40, "lcu", &vec![row(1), json_clone(&invalid)]).unwrap();
    let result = search_result(page).unwrap();
    assert_eq!((result.start, result.skipped_games, result.games.len()), (40, 1, 1));
    assert_eq!(result.games[0].game_id, "1");
    assert!(matches!(history_page(&config, "EUN1", account(), 40, "lcu", &vec![invalid]),
        Err(error) if error == "game.historyUnreadable"));
}

#[test]
fn history_rejects_wrong_identities_and_distinguishes_empty_from_unreadable() {
    let config = config();
    let wrong_region = json(&row_text(2, "NA1", "player", 1));
    let wrong_player = json(&row_text(3, "EUN1", "someone-else", 1));
    let wrapped = json(&format!(r#"{{"metadata":{{"match_id":"EUN1_1"}},"json":{}}}"#, row_text(1, "EUN1", "player", 1)));
    let page = history_page(
        &config,
        "EUN1",
        account(),
        0,
        "sgp",
        &vec![wrapped, wrong_region, wrong_player, json(r#"{"metadata":{"match_id":"EUN1_4"}}"#)],
    )
    .unwrap();
    assert_eq!((page.games.len(), page.skipped_games), (1, 3));
    assert!(!page.has_more);
    assert!(matches!(history_page(&config, "EUN1", account(), 0, "lcu", &vec![Json::Null]),
        Err(e) if e == "game.historyUnreadable"));
    let empty = history_page(&config, "EUN1", account(), 0, "lcu", &vec![]).unwrap();
    assert!(empty.games.is_empty() && !empty.has_more && empty.skipped_games == 0);
    assert!(history_page(&config, "NA1", account(), 0, "lcu", &vec![row(1)]).is_err());
}

#[test]
fn a_page_for_another_platform_is_refused_before_reading_rows() {
    let config = config();
    assert!(matches!(history_page(&config, "KR", account(), 0, "lcu", &vec![row(1)]),
        Err(e) if e == "game.identityMismatch"));
    assert!(matches!(history_page(&config, "no such server!", account(), 0, "lcu", &vec![row(1)]),
        Err(e) if e == "region.unsupported"));
}

#[test]
fn riot_ids_split_at_the_last_hash_after_trimming() {
    assert_eq!(parse_riot_id("  Player#TEST ").unwrap(), ("Player".to_string(), "TEST".to_string()));
    assert_eq!(parse_riot_id("a#b#c").unwrap(), ("a#b".to_string(), "c".to_string()));
    for invalid in ["Player", "#TEST", "Player#", "  #  ", " Player#   "] {
        assert_eq!(parse_riot_id(invalid).unwrap_err(), "player.enterRiotId");
    }
    assert!(parse_riot_id(&format!("{}#TAG", "n".repeat(128))).is_ok());
    assert!(parse_riot_id(&format!("{}#TAG", "n".repeat(129))).is_err());
    assert!(parse_riot_id(&format!("name#{}", "t".repeat(32))).is_ok());
    assert!(parse_riot_id(&format!("name#{}", "t".repeat(33))).is_err());
    // Lengths count bytes: 43 three-byte characters are 129 bytes.
    assert!(parse_riot_id(&format!("{}#TAG", "艾".repeat(43))).is_err());
    assert!(parse_riot_id(&format!("{}#TAG", "艾".repeat(42))).is_ok());
}

#[test]
fn alias_lookups_need_exactly_one_matching_entry() {
    let one = json(r#"[{"alias":{"game_name":"player","tag_line":"test"},"puuid":"p-1"},
        {"alias":{"game_name":"Other","tag_line":"TEST"},"puuid":"p-2"}]"#);
    assert_eq!(select_alias(&one, "Player", "TEST").unwrap(), "p-1");
    assert_eq!(select_alias(&one, "Nobody", "TEST").unwrap_err(), "player.notFound");
    let two = json(r#"[{"alias":{"game_name":"Player","tag_line":"TEST"},"puuid":"p-1"},
        {"alias":{"game_name":"PLAYER","tag_line":"test"},"puuid":"p-2"}]"#);
    assert_eq!(select_alias(&two, "Player", "TEST").unwrap_err(), "player.ambiguous");
    let bad = json(r#"[{"alias":{"game_name":"Player","tag_line":"TEST"},"puuid":"00000000-0000-0000-0000-000000000000"}]"#);
    assert_eq!(select_alias(&bad, "Player", "TEST").unwrap_err(), "player.invalidId");
    let missing = json(r#"[{"alias":{"game_name":"Player","tag_line":"TEST"}}]"#);
    assert_eq!(select_alias(&missing, "Player", "TEST").unwrap_err(), "player.invalidId");
    assert_eq!(select_alias(&json("{}"), "Player", "TEST").unwrap_err(), "game.invalidData");
}

#[test]
fn alias_failures_and_local_lookups_map_to_player_errors() {
    assert_eq!(alias_error(LcuError::NotFound), "player.riotClientUnavailable");
    assert_eq!(alias_error(LcuError::Unauthorized), "client.Unauthorized");
    let profile = r#"{"puuid":"p-1","summonerId":7,"gameName":"Player","tagLine":"TEST"}"#;
    let account = alias_account("EUN1", &json(&format!("[{profile}]"))).unwrap();
    assert_eq!((account.id.as_str(), account.puuid.as_str()), ("EUN1:p-1", "p-1"));
    assert_eq!(account.riot_id, "Player#TEST");
    assert_eq!(alias_account("EUN1", &json("[]")).unwrap_err(), "player.notFound");
    assert_eq!(alias_account("EUN1", &json(&format!("[{profile},{profile}]"))).unwrap_err(), "player.notFound");
    assert_eq!(alias_account("EUN1", &json("{}")).unwrap_err(), "player.notFound");
    assert_eq!(alias_account("EUN1", &json("[{}]")).unwrap_err(), "client.InvalidData");
    let named = named_account("KR", "p-1", "Player", "TEST").unwrap();
    assert_eq!((named.id.as_str(), named.riot_id.as_str()), ("KR:p-1", "Player#TEST"));
    assert!(named.summoner_id.is_empty());
    assert_eq!(named_account("KR", "", "Player", "TEST").unwrap_err(), "player.invalidId");
}

#[test]
fn fetched_games_must_be_the_requested_finished_game_of_the_player() {
    let detail = json(&row_text(7, "EUN1", "player", 1));
    let game = fetched_review("EUN1", "EUN1", "7", "player", detail, Ok(json(r#"{"frames":[]}"#)), "sgp").unwrap();
    assert_eq!((game.id.as_str(), game.server.as_str(), game.source.as_str()), ("EUN1_7", "EUN1", "sgp"));
    assert_eq!(game.account.puuid, "player");
    assert!(game.timeline.is_some() && game.timeline_error.is_none() && !game.bookmarked);
    let late = fetched_review("EUN1", "EUN1", "7", "player", json(&row_text(7, "EUN1", "player", 1)), Err("gateway.network".into()), "lcu").unwrap();
    assert!(late.timeline.is_none());
    assert_eq!(late.timeline_error.as_deref(), Some("gateway.network"));
    assert_eq!(
        fetched_review("EUN1", "EUN1", "8", "player", json(&row_text(7, "EUN1", "player", 1)), Err(String::new()), "lcu").unwrap_err(),
        "game.identityMismatch"
    );
    assert_eq!(
        fetched_review("EUN1", "EUN1", "7", "nobody", json(&row_text(7, "EUN1", "player", 1)), Err(String::new()), "lcu").unwrap_err(),
        "game.playerMissing"
    );
    let unfinished = json(r#"{"platformId":"EUN1","gameId":7,"gameDuration":0,
        "participantIdentities":[{"participantId":1,"player":{"puuid":"player","summonerId":1,"gameName":"P","tagLine":"T"}}],
        "participants":[{"participantId":1,"stats":{"win":true}}]}"#);
    assert_eq!(fetched_review("EUN1", "EUN1", "7", "player", unfinished, Err(String::new()), "lcu").unwrap_err(), "game.invalidData");
}

#[test]
fn a_backfill_names_one_to_fifty_distinct_games() {
    let ids = |n: usize| -> Vec<String> { (0..n).map(|i| format!("{}", 1000 + i)).collect() };
    assert!(check_backfill(&ids(1)).is_ok());
    assert!(check_backfill(&ids(50)).is_ok());
    assert_eq!(check_backfill(&ids(0)).unwrap_err(), "game.invalidId");
    assert_eq!(check_backfill(&ids(51)).unwrap_err(), "game.invalidId");
    assert_eq!(check_backfill(&["7".to_string(), "8".to_string(), "7".to_string()]).unwrap_err(), "game.invalidId");
}

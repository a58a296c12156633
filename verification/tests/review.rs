use league_replay::domain::{Account, StoredReview};
use league_replay::json::{Json, JsonNumber};
use league_replay::review::{archived_review, check_library_query, library_entry, review_account};

fn json(text: &str) -> Json {
    convert(serde_json::from_str(text).expect("test JSON"))
}

fn convert(v: serde_json::Value) -> Json {
    match v {
        serde_json::Value::Null => Json::Null,
        serde_json::Value::Bool(b) => Json::Bool(b),
        serde_json::Value::Number(n) => match (n.as_u64(), n.as_i64(), n.as_f64()) {
            (Some(u), _, _) => Json::Number(JsonNumber::Unsigned(u)),
            (None, Some(i), _) => Json::Number(JsonNumber::Negative(i)),
            (_, _, Some(f)) => Json::Number(JsonNumber::Float(f.to_bits())),
            _ => Json::Null,
        },
        serde_json::Value::String(s) => Json::Text(s),
        serde_json::Value::Array(a) => Json::Array(a.into_iter().map(convert).collect()),
        serde_json::Value::Object(m) => Json::Object(m.into_iter().map(|(k, v)| (k, convert(v))).collect()),
    }
}

fn account(puuid: &str) -> Account {
    Account {
        id: format!("HN1:{puuid}"),
        platform: "HN1".into(),
        puuid: puuid.into(),
        summoner_id: "1".into(),
        riot_id: "A#TEST".into(),
    }
}

const DETAIL: &str = r#"{"platformId":"HN1","gameId":1,"gameDuration":1800,"gameCreation":1700000000000,"queueId":420,
    "gameVersion":"14.23.1.1","participantIdentities":[
        {"participantId":1,"player":{"puuid":"a","summonerId":1,"gameName":"A","tagLine":"TEST"}},
        {"participantId":2,"player":{"puuid":"b","summonerId":2,"gameName":"B","tagLine":"TEST"}}],
    "participants":[
        {"participantId":1,"championId":103,"stats":{"win":true,"kills":5,"deaths":2,"assists":9,"item0":3031,"item6":3340}},
        {"participantId":2,"championId":1,"stats":{"win":false,"kills":4294967301}}]}"#;

fn stored(detail: &str) -> StoredReview {
    StoredReview {
        id: "HN1_1".into(),
        server: "TENCENT_HN1".into(),
        account: account("a"),
        detail: json(detail),
        timeline: None,
        source: "lcu".into(),
        timeline_error: None,
        bookmarked: true,
    }
}

#[test]
fn library_entries_show_the_accounts_participant() {
    let entry = library_entry(stored(DETAIL)).unwrap();
    assert_eq!((entry.id.as_str(), entry.server.as_str(), entry.account.puuid.as_str()), ("HN1_1", "TENCENT_HN1", "a"));
    assert_eq!((entry.champion_id, entry.win, entry.kills, entry.deaths, entry.assists), (103, true, 5, 2, 9));
    assert_eq!(entry.items, vec![3031, 0, 0, 0, 0, 0, 3340]);
    assert_eq!((entry.duration, entry.queue_id, entry.started_at), (1800, 420, 1700000000000));
    assert_eq!(entry.version, "14.23.1.1");
    assert!(entry.bookmarked);
    let mut other = stored(DETAIL);
    other.account = account("b");
    // Counts are cut to 32 bits as the original cast does.
    assert_eq!(library_entry(other).unwrap().kills, 5);
    let mut unfinished = stored(DETAIL);
    unfinished.detail = json(r#"{"platformId":"HN1","gameId":1,"gameDuration":0}"#);
    assert_eq!(library_entry(unfinished).unwrap_err(), "library.invalidData");
    let mut foreign = stored(DETAIL);
    foreign.account = account("c");
    assert_eq!(library_entry(foreign).unwrap_err(), "library.invalidData");
}

#[test]
fn archived_games_are_read_from_the_requested_observed_or_first_perspective() {
    let requested = archived_review("HN1_1", "HN1", json(DETAIL), None, Some("game.timeout".into()), Some("b"), Some("a")).unwrap();
    assert_eq!(requested.account.puuid, "b");
    assert_eq!(requested.server, "TENCENT_HN1");
    assert_eq!(requested.source, "archive");
    assert_eq!(requested.timeline_error.as_deref(), Some("game.timeout"));
    assert!(!requested.bookmarked);
    let observed = archived_review("HN1_1", "HN1", json(DETAIL), Some(json(r#"{"frames":[]}"#)), Some("x".into()), None, Some("b")).unwrap();
    assert_eq!(observed.account.puuid, "b");
    assert!(observed.timeline_error.is_none());
    let first = archived_review("HN1_1", "HN1", json(DETAIL), None, None, None, None).unwrap();
    assert_eq!(first.account.puuid, "a");
    assert_eq!(archived_review("HN1_1", "HN1", json("{}"), None, None, None, None).unwrap_err(), "game.playerMissing");
    assert_eq!(archived_review("HN1_1", "HN1", json(DETAIL), None, None, Some("z"), None).unwrap_err(), "game.playerMissing");
}

#[test]
fn saved_reviews_switch_perspective_only_on_request() {
    let detail = json(DETAIL);
    assert_eq!(review_account(account("a"), None, &detail).unwrap().puuid, "a");
    assert_eq!(review_account(account("a"), Some("b"), &detail).unwrap().riot_id, "B#TEST");
    assert!(review_account(account("a"), Some("z"), &detail).is_err());
}

#[test]
fn library_queries_are_bounded() {
    assert!(check_library_query(0, "recent", "").is_ok());
    assert!(check_library_query(10000, "saved", &"字".repeat(200)).is_ok());
    assert!(check_library_query(0, "downloaded", "ahri").is_ok());
    for (start, filter, query) in [(10001, "recent", ""), (0, "all", ""), (0, "recent", &"q".repeat(201)[..])] {
        assert_eq!(check_library_query(start, filter, query).unwrap_err(), "query.invalidPage");
    }
}

use league_replay::domain::{Account, HistoryPage};
use league_replay::following::{
    check_feed_start, check_follow_limit, check_label, check_sync_pages, history_commit, page_game_ids, page_games,
    stops_sync, sync_outcome, FillRun, SyncRun,
};
use league_replay::json::{Json, JsonNumber};
use league_replay::library::check_history_start;

fn json(text: &str) -> Json {
    convert(serde_json::from_str(text).expect("test JSON"))
}

fn convert(v: serde_json::Value) -> Json {
    match v {
        serde_json::Value::Null => Json::Null,
        serde_json::Value::Bool(b) => Json::Bool(b),
        serde_json::Value::Number(n) => match (n.as_u64(), n.as_i64(), n.as_f64()) {
            (Some(u), _, _) => Json::Number(JsonNumber::Unsigned(u)),
            (None, Some(i), _) => Json::Number(JsonNumber::Negative(i)),
            (_, _, Some(f)) => Json::Number(JsonNumber::Float(f.to_bits())),
            _ => Json::Null,
        },
        serde_json::Value::String(s) => Json::Text(s),
        serde_json::Value::Array(a) => Json::Array(a.into_iter().map(convert).collect()),
        serde_json::Value::Object(m) => Json::Object(m.into_iter().map(|(k, v)| (k, convert(v))).collect()),
    }
}

fn account() -> Account {
    Account {
        id: "TENCENT_HN1:a".into(),
        platform: "HN1".into(),
        puuid: "a".into(),
        summoner_id: "1".into(),
        riot_id: "a#TEST".into(),
    }
}

fn detail(number: u32) -> Json {
    json(&format!(
        r#"{{"platformId":"HN1","gameId":{number},"gameDuration":1200,"gameCreation":1000,
        "participantIdentities":[{{"participantId":1,"player":{{"puuid":"a","summonerId":1,"gameName":"a","tagLine":"TEST"}}}}],
        "participants":[{{"participantId":1,"championId":103,"stats":{{"win":true}}}}]}}"#
    ))
}

fn page(numbers: &[u32], start: u32, has_more: bool, skipped: u32) -> HistoryPage {
    HistoryPage {
        account: account(),
        server: "TENCENT_HN1".into(),
        games: numbers.iter().map(|n| detail(*n)).collect(),
        start,
        has_more,
        skipped_games: skipped,
        source: "lcu".into(),
    }
}

#[test]
fn labels_limits_and_offsets_are_checked() {
    assert_eq!(check_label("  study  ").unwrap(), "study");
    assert_eq!(check_label("   ").unwrap(), "");
    assert_eq!(check_label(&"x".repeat(80)).unwrap().len(), 80);
    assert_eq!(check_label(&"x".repeat(81)).unwrap_err(), "following.invalidLabel");
    assert_eq!(check_label("a\u{7}b").unwrap_err(), "following.invalidLabel");
    assert!(check_follow_limit(49).is_ok());
    assert_eq!(check_follow_limit(50).unwrap_err(), "following.limit");
    assert!(check_feed_start(10000).is_ok());
    assert_eq!(check_feed_start(10001).unwrap_err(), "query.invalidPage");
    assert!(check_history_start(40).is_ok());
    assert_eq!(check_history_start(30).unwrap_err(), "query.invalidPage");
    assert_eq!(check_history_start(10020).unwrap_err(), "query.invalidPage");
}

#[test]
fn cached_pages_hold_only_the_accounts_finished_games() {
    let games = page_games(&page(&[7, 8], 0, false, 0)).unwrap();
    assert_eq!(games, vec![("HN1_7".to_string(), 7), ("HN1_8".to_string(), 8)]);
    let mut other = page(&[7], 0, false, 0);
    other.games.push(json(r#"{"platformId":"HN1","gameDuration":1}"#));
    assert_eq!(page_games(&other).unwrap_err(), "game.invalidData");
    let mut unfinished = page(&[], 0, false, 0);
    unfinished.games.push(json(
        r#"{"platformId":"HN1","gameId":9,"gameDuration":0,"participantIdentities":[],"participants":[]}"#,
    ));
    assert_eq!(page_games(&unfinished).unwrap_err(), "game.invalidData");
    assert_eq!(page_game_ids("HN1", &page(&[3, 4], 0, false, 0)).unwrap(), vec!["HN1_3", "HN1_4"]);
    assert_eq!(page_game_ids("HN1", &other).unwrap_err(), "game.invalidData");
}

#[test]
fn sync_pages_must_belong_to_the_subscription() {
    let pages = vec![page(&[1], 0, true, 0), page(&[2], 20, false, 0)];
    let checked = check_sync_pages("TENCENT_HN1:a", "TENCENT_HN1", &pages).unwrap();
    assert_eq!(checked.len(), 2);
    assert_eq!(checked[1], vec![("HN1_2".to_string(), 2)]);
    assert_eq!(check_sync_pages("TENCENT_HN1:b", "TENCENT_HN1", &pages).unwrap_err(), "game.identityMismatch");
    assert_eq!(check_sync_pages("TENCENT_HN1:a", "TENCENT_HN10", &pages).unwrap_err(), "game.identityMismatch");
    assert!(check_sync_pages("x", "y", &vec![]).unwrap().is_empty());
}

#[test]
fn partial_pages_are_recorded_as_gaps_unless_a_failure_came_first() {
    let pages = vec![page(&[1], 0, true, 0), page(&[2], 20, true, 1)];
    assert_eq!(sync_outcome(&pages, None, false), (Some("game.partialHistory".to_string()), true));
    assert_eq!(sync_outcome(&pages, Some("client.Offline".into()), false), (Some("client.Offline".to_string()), true));
    assert_eq!(sync_outcome(&vec![page(&[1], 0, false, 0)], None, false), (None, false));
    assert_eq!(sync_outcome(&vec![], None, true), (None, true));
    assert!(stops_sync(&Some("client.Offline".into())));
    assert!(!stops_sync(&Some("game.invalidData".into())));
    assert!(!stops_sync(&None));
}

#[test]
fn a_sync_reads_at_most_five_pages_and_stops_at_known_games() {
    let mut run = SyncRun::new();
    let mut offsets = Vec::new();
    while let Some(start) = run.next_start() {
        offsets.push(start);
        run.accept_page(page(&[start + 1], start, true, 0), false);
    }
    assert_eq!(offsets, vec![0, 20, 40, 60, 80]);
    assert_eq!(run.pages.len(), 5);
    assert!(run.limited && run.failure.is_none());

    let mut run = SyncRun::new();
    run.accept_page(page(&[1], 0, true, 0), false);
    run.accept_page(page(&[2], 20, true, 0), true);
    assert!(run.done && !run.limited && run.next_start().is_none());
    assert_eq!(run.pages.len(), 2);

    let mut run = SyncRun::new();
    run.accept_page(page(&[1], 0, true, 1), false);
    assert!(run.done && run.pages.len() == 1);

    let mut run = SyncRun::new();
    run.accept_page(page(&[1], 0, true, 0), false);
    run.accept_failure("client.Offline".into());
    assert!(run.done && run.pages.len() == 1 && run.failure.as_deref() == Some("client.Offline"));
}

#[test]
fn history_backfill_rewinds_when_the_boundary_moved_and_refuses_gaps() {
    let mut run = FillRun::new(60, Some("5".into()));
    assert_eq!(run.next_start().unwrap(), Some(40));
    assert!(!run.needs_rewind(&page(&[5, 6], 40, true, 0)));
    assert!(run.needs_rewind(&page(&[6, 7], 40, true, 0)));
    run.rewind();
    assert_eq!(run.next_start().unwrap(), Some(0));
    let first = page(&[1, 2], 0, true, 0);
    let commit = history_commit(&first).unwrap();
    assert_eq!((commit.next_start, commit.anchor.as_deref(), commit.done), (20, Some("2"), false));
    run.accept(&first);
    assert_eq!((run.start, run.count, run.step), (20, 2, 1));
    let last = page(&[3], 20, false, 0);
    run.accept(&last);
    assert!(run.done && run.count == 3);
    assert_eq!(run.next_start().unwrap(), None);
    assert_eq!(history_commit(&page(&[1], 0, true, 1)).unwrap_err(), "game.partialHistory");
    let empty = history_commit(&page(&[], 40, false, 0)).unwrap();
    assert!(empty.anchor.is_none() && empty.done && empty.next_start == 60);

    let fresh = FillRun::new(0, None);
    assert_eq!(fresh.start, 0);
    assert!(!fresh.needs_rewind(&page(&[], 0, false, 0)));
    let mut far = FillRun::new(10040, None);
    assert_eq!(far.next_start().unwrap_err(), "following.historyLimit");
    far.rewind();
    assert_eq!(far.next_start().unwrap(), Some(0));
    let mut run = FillRun::new(0, None);
    for step in 0..5u32 {
        assert_eq!(run.next_start().unwrap(), Some(step * 20));
        run.accept(&page(&[step + 1], step * 20, true, 0));
    }
    assert!(run.done && run.count == 5);
}

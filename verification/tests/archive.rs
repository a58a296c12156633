use league_replay::domain::{Account, ObservedGame, PlaySource, Sample, SessionScope, StoredReview};
use league_replay::json::{Json, JsonNumber};
use league_replay::lcu::LcuError;
use league_replay::observe::{
    batch_start, check_import_batch, client_status, storage_failed, import_span, import_title, plan_observation, segment_for, ObservedState, IDLE_MS,
};
use league_replay::play::{play_page, PlayFilter, PlayRow, SessionRow, found_in, match_fields, note_text, page_index, page_offset, scope_name, search_text, source_name, text_matches};
use league_replay::queue::{
    accept_chunk, cancel_step, check_complete, check_progress, check_removal, check_saved_job, failed_job,
    list_jobs, restart_state, should_start, CancelStep, JobView,
};
use league_replay::stream::{
    check_header, count_line, merge_columns, merge_row, merged_game, restore_session, settle_participation, stored_values, Column, RowReader, SqlValue,
};

fn json(text: &str) -> Json {
    convert(serde_json::from_str(text).expect("test JSON"))
}

fn convert(v: serde_json::Value) -> Json {
    match v {
        serde_json::Value::Null => Json::Null,
        serde_json::Value::Bool(b) => Json::Bool(b),
        serde_json::Value::Number(n) => match (n.as_u64(), n.as_i64(), n.as_f64()) {
            (Some(u), _, _) => Json::Number(JsonNumber::Unsigned(u)),
            (None, Some(i), _) => Json::Number(JsonNumber::Negative(i)),
            (_, _, Some(f)) => Json::Number(JsonNumber::Float(f.to_bits())),
            _ => Json::Null,
        },
        serde_json::Value::String(s) => Json::Text(s),
        serde_json::Value::Array(a) => Json::Array(a.into_iter().map(convert).collect()),
        serde_json::Value::Object(m) => Json::Object(m.into_iter().map(|(k, v)| (k, convert(v))).collect()),
    }
}

fn sample(phase: &str, game: bool, queue_active: bool) -> Sample {
    Sample {
        account: Account {
            id: "KR:a".into(),
            platform: "KR".into(),
            puuid: "a".into(),
            summoner_id: "1".into(),
            riot_id: "A#KR1".into(),
        },
        phase: phase.into(),
        observed_game: game.then(|| ObservedGame {
            id: "KR_42".into(),
            game_id: "42".into(),
            champion_id: 103,
            queue_name: "Ranked".into(),
        }),
        queue_active,
    }
}

#[test]
fn idle_boundary_and_same_game_resume_are_distinct() {
    let open = Some(("s1".to_string(), 1_000));
    let now = 1_000 + IDLE_MS;
    let idle = plan_observation(None, open.clone(), None, now);
    assert_eq!(idle.end_idle_session, Some(("s1".to_string(), 1_000 + IDLE_MS)));
    let resumed = plan_observation(
        Some(&sample("InProgress", true, false)),
        open.clone(),
        Some(("p1".into(), "s1".into())),
        now,
    );
    assert_eq!(resumed.end_idle_session, None);
    assert_eq!(resumed.state, Some(ObservedState::Playing));
    assert_eq!(resumed.refresh.as_deref(), Some("p1"));
    let other_session =
        plan_observation(Some(&sample("InProgress", true, false)), open.clone(), Some(("p1".into(), "s0".into())), now);
    assert!(other_session.end_idle_session.is_some());
    let early = plan_observation(None, open, None, now - 1);
    assert_eq!(early.end_idle_session, None);
}

#[test]
fn a_settled_sample_resets_retries_and_marks_the_game_pending() {
    let plan = plan_observation(Some(&sample("EndOfGame", true, true)), None, None, 5);
    assert!(plan.reset_retry && plan.record_account && plan.touch_activity);
    assert_eq!(plan.state, Some(ObservedState::Pending));
    assert_eq!(plan.state.unwrap().name(), "pending");
    assert!(plan.refresh.is_none());
    let lobby = plan_observation(Some(&sample("Lobby", false, false)), None, None, 5);
    assert!(!lobby.reset_retry && lobby.state.is_none() && !lobby.touch_activity);
    assert_eq!(segment_for(Some(("g1".into(), "KR:a".into())), "KR:a").as_deref(), Some("g1"));
    assert_eq!(segment_for(Some(("g1".into(), "KR:b".into())), "KR:a"), None);
    assert_eq!(segment_for(None, "KR:a"), None);
}

#[test]
fn imported_games_need_a_start_time_and_span_their_duration() {
    assert_eq!(import_span(&json(r#"{"gameCreation":1000,"gameDuration":60}"#)).unwrap(), (1000, 61000));
    assert_eq!(import_span(&json(r#"{"gameCreation":1000}"#)).unwrap(), (1000, 1000));
    assert_eq!(
        import_span(&json(r#"{"gameCreation":9223372036854775000,"gameDuration":60}"#)).unwrap().1,
        i64::MAX
    );
    for bad in [r#"{}"#, r#"{"gameCreation":0}"#, r#"{"gameCreation":-5}"#, r#"{"gameCreation":"1"}"#] {
        assert_eq!(import_span(&json(bad)).unwrap_err(), "game.missingStartTime");
    }
}

#[test]
fn pages_have_stable_boundaries_and_clamp_stale_page_numbers() {
    assert_eq!(page_index(0, 0), 0);
    assert_eq!(page_index(3, 0), 0);
    assert_eq!(page_index(1, 20), 0);
    assert_eq!(page_index(1, 21), 1);
    assert_eq!(page_index(7, 45), 2);
    assert_eq!(page_offset(2), 40);
    assert_eq!(scope_name(SessionScope::Current), "current");
    assert_eq!(source_name(PlaySource::Manual), "manual");
}

#[test]
fn queued_tasks_follow_their_states() {
    assert_eq!(restart_state("downloading"), "waiting");
    assert_eq!(restart_state("cancelling"), "cancelled");
    assert_eq!(restart_state("ready"), "ready");
    assert!(check_saved_job("HN1_42", "HN1_42").is_ok());
    assert_eq!(check_saved_job("HN1_42", "HN1_43").unwrap_err(), "replay.storageError");
    assert_eq!(check_saved_job("../HN1_42", "../HN1_42").unwrap_err(), "game.invalidId");
    assert!(should_start(false, None));
    assert!(should_start(false, Some("error")));
    assert!(!should_start(false, Some("validating")));
    assert!(!should_start(true, Some("ready")));
    assert_eq!(check_progress(Some("cancelling")).unwrap_err(), "replay.cancelled");
    assert_eq!(check_progress(None).unwrap_err(), "replay.unavailable");
    assert!(check_progress(Some("queued")).is_ok());
    assert_eq!(cancel_step(Some("waiting")).unwrap(), CancelStep::Cancelled);
    assert_eq!(cancel_step(Some("downloading")).unwrap(), CancelStep::Signal);
    assert_eq!(cancel_step(Some("ready")).unwrap_err(), "replay.notCancellable");
    assert_eq!(cancel_step(None).unwrap_err(), "replay.missing");
    assert_eq!(check_removal(false, Some("queued")).unwrap_err(), "replay.notCancellable");
    assert!(check_removal(false, Some("ready")).is_ok());
    assert_eq!(failed_job("replay.cancelled".into()), ("cancelled".to_string(), None));
    assert_eq!(failed_job("gateway.network".into()), ("error".to_string(), Some("gateway.network".to_string())));
    assert_eq!(accept_chunk(10, 5).unwrap(), 15);
    assert_eq!(accept_chunk(512 * 1024 * 1024, 1).unwrap_err(), "replay.tooLarge");
    assert_eq!(accept_chunk(u64::MAX, 1).unwrap_err(), "replay.tooLarge");
    assert_eq!(check_complete(Some(10), 9).unwrap_err(), "replay.incomplete");
    assert!(check_complete(None, 9).is_ok());
}

fn column(name: &str, kind: &str, required: bool) -> Column {
    Column { name: name.into(), kind: kind.into(), required }
}

fn schemas() -> Vec<Vec<Column>> {
    let mut all: Vec<Vec<Column>> = (0..10).map(|_| Vec::new()).collect();
    all[0] = vec![column("id", "TEXT", true), column("platform", "TEXT", true)];
    all[5] = vec![column("id", "INTEGER", true), column("data", "TEXT", true), column("revision", "INTEGER", true)];
    all
}

#[test]
fn rejects_truncation_unknown_columns_wrong_types_and_trailing_content() {
    let names: Vec<String> = [
        "accounts", "games", "sessions", "segments", "participations", "user_state", "review_games", "replay_files",
        "subscriptions", "followed_games",
    ]
    .iter()
    .map(|s| s.to_string())
    .collect();
    assert!(check_header("LeagueReplay archive", 1, &names).is_ok());
    assert_eq!(check_header("LeagueReplay archive", 99, &names).unwrap_err(), "backup.version");
    assert_eq!(check_header("LeagueReplay archive", 1, &names[..9].to_vec()).unwrap_err(), "backup.invalid");
    let schemas = schemas();
    let mut reader = RowReader::new();
    let ui = json(r#"{"id":1,"data":"{}","revision":0}"#);
    let (index, row) = reader.accept_row("user_state", &ui, &schemas).unwrap();
    assert_eq!(index, 5);
    assert_eq!(row, vec![SqlValue::Integer(1), SqlValue::Text("{}".into()), SqlValue::Integer(0)]);
    for bad in [r#"{"id":1,"data":"{}","revision":"0"}"#, r#"{"id":1,"data":"{}","revision":0,"unknown":null}"#] {
        let mut reader = RowReader::new();
        assert_eq!(reader.accept_row("user_state", &json(bad), &schemas).unwrap_err(), "backup.invalid");
    }
    let account = json(r#"{"id":"KR:a","platform":"KR"}"#);
    assert_eq!(reader.accept_row("accounts", &account, &schemas).unwrap_err(), "backup.invalid");
    assert_eq!(reader.accept_row("unknown", &account, &schemas).unwrap_err(), "backup.invalid");
    assert!(reader.finish(1, true).is_ok());
    assert!(reader.finish(1, false).is_err());
    assert!(reader.finish(2, true).is_err());
    assert_eq!(count_line(0, 10, true).unwrap(), 10);
    assert_eq!(count_line(0, 67108864 + 2, true).unwrap_err(), "backup.tooLarge");
    assert!(count_line(0, 67108864 + 1, true).is_ok());
}

#[test]
fn merged_rows_close_open_sessions_and_settle_played_games() {
    let mut session = stored_values(&vec![
        json(r#""s1""#),
        json(r#""t""#),
        json("5"),
        json("9"),
        Json::Null,
        Json::Null,
    ])
    .unwrap();
    restore_session(&mut session);
    assert_eq!(session[4], SqlValue::Integer(9));
    assert_eq!(session[5], SqlValue::Text("restored".into()));
    let mut participation: Vec<SqlValue> = (0..11).map(|_| SqlValue::Null).collect();
    participation[8] = SqlValue::Text("playing".into());
    settle_participation(&mut participation);
    assert_eq!(participation[8], SqlValue::Text("pending".into()));
    assert!(stored_values(&vec![json("1.5")]).is_err());
    assert!(stored_values(&vec![json("true")]).is_err());
    assert_eq!(stored_values(&vec![json("-3")]).unwrap(), vec![SqlValue::Integer(-3)]);
}

fn stored(detail: &str) -> StoredReview {
    StoredReview {
        id: "HN1_1".into(),
        server: "TENCENT_HN1".into(),
        account: Account {
            id: "HN1:a".into(),
            platform: "HN1".into(),
            puuid: "a".into(),
            summoner_id: "1".into(),
            riot_id: "a#TEST".into(),
        },
        detail: json(detail),
        timeline: None,
        source: "lcu".into(),
        timeline_error: None,
        bookmarked: false,
    }
}

#[test]
fn batch_imports_name_one_new_session_from_their_earliest_game() {
    assert!(check_import_batch(1).is_ok() && check_import_batch(50).is_ok());
    assert_eq!(check_import_batch(0).unwrap_err(), "session.changed");
    assert_eq!(check_import_batch(51).unwrap_err(), "session.changed");
    assert_eq!(import_title("  周末补录 ").unwrap(), "周末补录");
    assert_eq!(import_title("   ").unwrap_err(), "session.invalidTitle");
    assert_eq!(import_title(&"x".repeat(81)).unwrap_err(), "session.invalidTitle");
    // Length and control characters count before trimming.
    assert_eq!(import_title(&format!(" {}", "x".repeat(80))).unwrap_err(), "session.invalidTitle");
    assert_eq!(import_title("title\n").unwrap_err(), "session.invalidTitle");
    let games = vec![
        stored(r#"{"gameCreation":3000}"#),
        stored(r#"{"gameId":2}"#),
        stored(r#"{"gameCreation":1000}"#),
        stored(r#"{"gameCreation":2000}"#),
    ];
    assert_eq!(batch_start(&games).unwrap(), 1000);
    assert_eq!(batch_start(&vec![stored(r#"{"gameCreation":"1000"}"#)]).unwrap_err(), "game.invalidData");
    assert_eq!(batch_start(&vec![stored(r#"{"gameCreation":-5}"#)]).unwrap(), -5);
}

#[test]
fn the_client_status_follows_each_sample() {
    let playing = client_status(&Ok(sample("InProgress", true, false)), 5);
    assert_eq!((playing.state.as_str(), playing.message.as_str()), ("connected", "正在记录游玩"));
    assert_eq!(playing.active_game_id.as_deref(), Some("KR_42"));
    assert_eq!(playing.phase.as_deref(), Some("InProgress"));
    assert_eq!(playing.account.as_ref().unwrap().id, "KR:a");
    assert_eq!(playing.last_checked_at, 5);
    let lobby = client_status(&Ok(sample("Lobby", true, true)), 6);
    assert_eq!(lobby.message, "客户端已连接");
    assert!(lobby.active_game_id.is_none());
    let offline = client_status(&Err(LcuError::Offline), 7);
    assert_eq!((offline.state.as_str(), offline.message.as_str()), ("offline", "等待游戏客户端"));
    assert!(offline.phase.is_none() && offline.account.is_none());
    let mut failed = client_status(&Ok(sample("InProgress", true, false)), 8);
    storage_failed(&mut failed, "library.storageError".into());
    assert_eq!((failed.state.as_str(), failed.message.as_str()), ("storage-error", "library.storageError"));
    assert_eq!(failed.active_game_id.as_deref(), Some("KR_42"));
}

#[test]
fn keyword_search_is_unicode_aware() {
    let note = note_text("Étude de la lane", &vec!["中文笔记".to_string(), "练习".to_string()]);
    assert_eq!(note, "Étude de la lane 中文笔记 练习");
    let fields = match_fields("HN1_1", "队列 420", "A#TEST", "场次 1", 103, None, &vec![note]);
    assert_eq!(fields[4], "103");
    for query in ["  étude  ", "中文笔记", "练习", "场次 1 ", "hn1_1", "a#test"] {
        assert!(text_matches(&search_text(query), &fields), "{query}");
    }
    assert!(text_matches(&search_text("   "), &fields));
    assert!(!text_matches(&search_text("阿狸"), &fields));
    let named = match_fields("HN1_1", "q", "A#TEST", "t", 103, Some("阿狸"), &vec![]);
    assert!(text_matches(&search_text("阿狸"), &named));
    assert!(!text_matches(&search_text("ahri"), &named));
    assert_eq!(search_text("  ÉTUDE "), "étude");
    // The field separator is part of the searched text.
    assert!(text_matches(&search_text("hn1_1 q"), &named));
    assert!(found_in("", "anything") && found_in("lane", "mid lane") && !found_in("top", "mid lane"));
    assert!(!found_in("x", ""));
}

fn job_view(id: &str, state: &str, file_present: bool) -> JobView {
    JobView { id: id.to_string(), state: state.to_string(), file_present }
}

#[test]
fn the_replay_list_prefers_the_queue_and_marks_missing_files() {
    let saved = vec![
        job_view("HN1_1", "ready", true),
        job_view("HN1_2", "ready", false),
        job_view("HN1_3", "ready", true),
    ];
    let live = vec![job_view("HN1_3", "downloading", false), job_view("HN1_4", "ready", false), job_view("HN1_5", "ready", true)];
    let lines: Vec<(bool, usize, String)> = list_jobs(&saved, &live).into_iter().map(|l| (l.live, l.index, l.state)).collect();
    assert_eq!(
        lines,
        vec![
            (false, 0, "ready".to_string()),
            (false, 1, "missing".to_string()),
            (true, 0, "downloading".to_string()),
            (true, 1, "missing".to_string()),
            (true, 2, "ready".to_string()),
        ]
    );
}

fn text(t: &str) -> SqlValue {
    SqlValue::Text(t.to_string())
}

#[test]
fn merging_reuses_the_subscription_an_account_has_and_moves_its_followed_games() {
    let mut remap: Vec<(String, String)> = Vec::new();
    let mut followed = vec![text("sub-b"), text("a"), text("T"), text("")];
    let original: Vec<SqlValue> = followed.clone();
    let mut sub = vec![text("sub-b"), text("acc"), text("HN1"), text(""), SqlValue::Integer(0), SqlValue::Integer(3), SqlValue::Null, SqlValue::Integer(99)];
    assert_eq!(merge_row("subscriptions", &mut sub, Some("sub-a"), "fresh", &mut remap), Ok(false));
    assert_eq!(sub[5], SqlValue::Integer(3));
    assert_eq!(remap, vec![("sub-b".to_string(), "sub-a".to_string())]);
    assert_eq!(merge_row("followed_games", &mut followed, None, "fresh", &mut remap), Ok(true));
    assert_eq!(followed[0], text("sub-a"));
    assert_eq!(followed[1..], original[1..]);
    let mut other = vec![text("sub-c"), text("G")];
    assert_eq!(merge_row("followed_games", &mut other, None, "fresh", &mut remap), Ok(true));
    assert_eq!(other[0], text("sub-c"));
}

#[test]
fn merging_a_new_subscription_starts_a_new_generation() {
    let mut remap: Vec<(String, String)> = Vec::new();
    let mut sub = vec![text("sub-b"), text("acc"), text("HN1"), text(""), SqlValue::Integer(0), SqlValue::Integer(3), SqlValue::Null, SqlValue::Integer(99)];
    assert_eq!(merge_row("subscriptions", &mut sub, None, "gen-1", &mut remap), Ok(true));
    assert_eq!(sub[5], text("gen-1"));
    assert_eq!(sub[7], SqlValue::Integer(0));
    assert_eq!(sub[0], text("sub-b"));
    assert!(remap.is_empty());
    let mut bad = vec![SqlValue::Integer(1), text("acc"), text("HN1"), text(""), SqlValue::Integer(0), SqlValue::Integer(3), SqlValue::Null, SqlValue::Integer(99)];
    assert_eq!(merge_row("subscriptions", &mut bad, None, "gen-1", &mut remap), Err("backup.invalid".to_string()));
}

#[test]
fn merging_rows_of_other_tables() {
    let mut remap: Vec<(String, String)> = Vec::new();
    let mut ui = vec![SqlValue::Integer(1), text("{}"), SqlValue::Integer(0)];
    assert_eq!(merge_row("user_state", &mut ui, None, "x", &mut remap), Ok(false));
    let mut session = vec![text("s"), text("t"), SqlValue::Integer(1), SqlValue::Integer(5), SqlValue::Null, SqlValue::Null];
    assert_eq!(merge_row("sessions", &mut session, None, "x", &mut remap), Ok(true));
    assert_eq!(session[4], SqlValue::Integer(5));
    assert_eq!(session[5], text("restored"));
    let mut account = vec![text("a"), text("HN1")];
    assert_eq!(merge_row("accounts", &mut account, None, "x", &mut remap), Ok(true));
    assert_eq!(account, vec![text("a"), text("HN1")]);
    assert_eq!(merge_columns("participations"), 9);
    assert_eq!(merge_columns("accounts"), 0);
}

#[test]
fn merging_a_known_game_keeps_its_documents() {
    let current = vec![text("HN1_1"), text("HN1"), text("1"), text("{\"a\":1}"), SqlValue::Null, SqlValue::Null, SqlValue::Integer(0)];
    let imported = vec![text("HN1_1"), text("HN1"), text("1"), text("{\"b\":2}"), text("{}"), text("e"), SqlValue::Integer(7)];
    let merged = merged_game(Some(&current), &imported);
    assert_eq!(merged[3], text("{\"a\":1}"));
    assert_eq!(merged[4], text("{}"));
    assert_eq!(merged[5], SqlValue::Null);
    assert_eq!(merged[6], SqlValue::Integer(0));
    assert_eq!(merged_game(None, &imported), imported);
}

#[test]
fn a_new_game_after_an_idle_hour_opens_a_second_session() {
    let open = Some(("s1".to_string(), 1_000 + IDLE_MS));
    let later = plan_observation(Some(&sample("InProgress", true, false)), open.clone(), None, 1_000 + 2 * IDLE_MS);
    assert_eq!(later.end_idle_session, Some(("s1".to_string(), 1_000 + 2 * IDLE_MS)));
    assert!(later.new_session);
    let soon = plan_observation(Some(&sample("InProgress", true, false)), open.clone(), None, 1_000 + IDLE_MS + 5);
    assert!(soon.end_idle_session.is_none() && !soon.new_session);
    let first = plan_observation(Some(&sample("InProgress", true, false)), None, None, 5);
    assert!(first.new_session);
    let known = plan_observation(Some(&sample("InProgress", true, false)), None, Some(("p1".into(), "s0".into())), 5);
    assert!(!known.new_session);
    let nothing = plan_observation(None, None, None, 5);
    assert!(!nothing.new_session);
}

#[test]
fn clock_readings_become_whole_milliseconds() {
    assert_eq!(league_replay::domain::epoch_millis(Some((1, 500_000_000))), 1500);
    assert_eq!(league_replay::domain::epoch_millis(Some((5, 999_999))), 5000);
    assert_eq!(league_replay::domain::epoch_millis(None), 0);
    assert!(league_replay::domain::now() > 1_600_000_000_000);
}

fn filter(page: u32) -> PlayFilter {
    PlayFilter { page, scope: SessionScope::All, account: None, win: None, source: PlaySource::All, text: false, player: false }
}

fn play_row(session: &str, account: &str, win: Option<bool>) -> PlayRow {
    PlayRow {
        session_id: session.to_string(),
        account_id: account.to_string(),
        win,
        automatic: true,
        manual: false,
        in_range: true,
        text_match: true,
        player_match: true,
    }
}

fn session_row(id: &str, open: bool) -> SessionRow {
    SessionRow { id: id.to_string(), open }
}

#[test]
fn play_pages_keep_open_sessions_and_filter_matches() {
    let sessions = vec![session_row("open", true), session_row("s1", false), session_row("s2", false)];
    let rows = vec![play_row("s1", "a", Some(true)), play_row("s2", "b", Some(false)), play_row("s1", "b", None)];
    let page = play_page(&filter(0), &sessions, &rows);
    assert_eq!((page.page, page.total_sessions), (0, 3));
    assert_eq!(page.sessions, vec![0, 1, 2]);
    assert_eq!(page.matches, vec![0, 1, 2]);
    let mut wins = filter(0);
    wins.win = Some(true);
    let page = play_page(&wins, &sessions, &rows);
    assert_eq!(page.sessions, vec![0, 1]);
    assert_eq!(page.matches, vec![0]);
    let mut history = filter(0);
    history.scope = SessionScope::History;
    history.account = Some("b".to_string());
    let page = play_page(&history, &sessions, &rows);
    assert_eq!(page.sessions, vec![1, 2]);
    assert_eq!(page.matches, vec![1, 2]);
    let mut manual = filter(0);
    manual.source = PlaySource::Manual;
    manual.scope = SessionScope::Current;
    let page = play_page(&manual, &sessions, &rows);
    assert_eq!((page.total_sessions, page.sessions.clone(), page.matches.clone()), (1, vec![0], vec![]));
}

#[test]
fn a_page_past_the_end_shows_the_last_page() {
    let sessions: Vec<SessionRow> = (0..45).map(|i| session_row(&format!("s{i}"), false)).collect();
    let rows: Vec<PlayRow> = (0..45).map(|i| play_row(&format!("s{i}"), "a", None)).collect();
    let page = play_page(&filter(9), &sessions, &rows);
    assert_eq!((page.page, page.total_sessions), (2, 45));
    assert_eq!(page.sessions, (40..45).collect::<Vec<usize>>());
    assert_eq!(page.matches, (40..45).collect::<Vec<usize>>());
    let page = play_page(&filter(1), &sessions, &rows);
    assert_eq!(page.sessions.len(), 20);
    assert_eq!(page.sessions[0], 20);
    let empty = play_page(&filter(3), &Vec::new(), &Vec::new());
    assert_eq!((empty.page, empty.total_sessions, empty.sessions.len()), (0, 0, 0));
}

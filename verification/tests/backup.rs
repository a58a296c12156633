use league_replay::backup::{check_backup_revision, check_backup_accounts, check_backup_game, check_backup_link, check_backup_subscription};
use league_replay::domain::{Account, PlayerProfile, PremadeMark, SavedAccount};
use league_replay::json::{Json, JsonNumber};
use league_replay::merge::{plan_note_merge, NoteKey, 
    check_link_targets, check_linked_accounts, check_match_overlaps, check_player_names, LinkTarget, check_theme, check_ui_size, distinct_player_ids, merge_accounts,
    merge_players, merge_premades, merge_reviewed, note_body_ok, validate_saved_accounts,
};

fn json(text: &str) -> Json {
    convert(serde_json::from_str(text).expect("test JSON"))
}

fn convert(v: serde_json::Value) -> Json {
    match v {
        serde_json::Value::Null => Json::Null,
        serde_json::Value::Bool(b) => Json::Bool(b),
        serde_json::Value::Number(n) => match (n.as_u64(), n.as_i64(), n.as_f64()) {
            (Some(u), _, _) => Json::Number(JsonNumber::Unsigned(u)),
            (None, Some(i), _) => Json::Number(JsonNumber::Negative(i)),
            (_, _, Some(f)) => Json::Number(JsonNumber::Float(f.to_bits())),
            _ => Json::Null,
        },
        serde_json::Value::String(s) => Json::Text(s),
        serde_json::Value::Array(a) => Json::Array(a.into_iter().map(convert).collect()),
        serde_json::Value::Object(m) => Json::Object(m.into_iter().map(|(k, v)| (k, convert(v))).collect()),
    }
}

fn account(platform: &str, puuid: &str) -> Account {
    Account {
        id: format!("{platform}:{puuid}"),
        platform: platform.into(),
        puuid: puuid.into(),
        summoner_id: "1".into(),
        riot_id: "Player#TEST".into(),
    }
}

fn saved(server: &str, platform: &str, puuid: &str) -> SavedAccount {
    SavedAccount { account: account(platform, puuid), server: server.into() }
}

fn player(id: &str, accounts: &[&str]) -> PlayerProfile {
    PlayerProfile { id: id.into(), name: id.to_uppercase(), account_ids: accounts.iter().map(|a| a.to_string()).collect() }
}

#[test]
fn importing_user_state_adds_only_what_is_missing() {
    let mut accounts = vec![saved("KR", "KR", "a")];
    merge_accounts(&mut accounts, vec![saved("KR", "KR", "a"), saved("KR", "KR", "b"), saved("KR", "KR", "b")]);
    assert_eq!(accounts.iter().map(|s| s.account.id.as_str()).collect::<Vec<_>>(), vec!["KR:a", "KR:b"]);

    let mut reviewed = vec!["KR_1".to_string()];
    merge_reviewed(&mut reviewed, vec!["KR_2".into(), "KR_1".into(), "KR_2".into()]);
    assert_eq!(reviewed, vec!["KR_1", "KR_2"]);

    let mark = |m: &str, a: &str| PremadeMark { match_id: m.into(), account_id: a.into() };
    let mut marks = vec![mark("KR_1", "KR:a")];
    merge_premades(&mut marks, vec![mark("KR_1", "KR:a"), mark("KR_1", "KR:b"), mark("KR_2", "KR:a")]);
    assert_eq!(marks.len(), 3);
    assert_eq!((marks[1].match_id.as_str(), marks[1].account_id.as_str()), ("KR_1", "KR:b"));
}

#[test]
fn imported_players_never_take_accounts_from_listed_players() {
    let mut players = vec![player("p1", &["KR:a"])];
    merge_players(&mut players, vec![player("p1", &["KR:z"]), player("p2", &["KR:a", "KR:b"]), player("p3", &["KR:b", "KR:c"])]);
    assert_eq!(players.len(), 3);
    assert_eq!(players[0].account_ids, vec!["KR:a"]);
    assert_eq!(players[1].id, "p2");
    assert_eq!(players[1].account_ids, vec!["KR:b"]);
    assert_eq!(players[2].account_ids, vec!["KR:c"]);
    assert!(distinct_player_ids(&players));
    let before = players.len();
    merge_players(&mut players, vec![player("p2", &["KR:d"])]);
    assert_eq!(players.len(), before);
    assert!(!distinct_player_ids(&vec![player("x", &[]), player("x", &[])]));
}

#[test]
fn importing_the_same_state_twice_changes_nothing_more() {
    let import = || vec![saved("KR", "KR", "b"), saved("KR", "KR", "c")];
    let mut once = vec![saved("KR", "KR", "a")];
    merge_accounts(&mut once, import());
    let ids: Vec<String> = once.iter().map(|s| s.account.id.clone()).collect();
    merge_accounts(&mut once, import());
    assert_eq!(once.iter().map(|s| s.account.id.clone()).collect::<Vec<_>>(), ids);
}

#[test]
fn saved_accounts_must_describe_their_server_and_identity() {
    assert!(validate_saved_accounts(&vec![saved("TENCENT_HN1", "HN1", "abc-1"), saved("KR", "KR", "b")]).is_ok());
    let cases = vec![
        vec![saved("KR", "KR", "a"), saved("KR", "KR", "a")],
        vec![saved("TENCENT_HN1", "KR", "a")],
        vec![saved("KR", "KR", "")],
        vec![saved("KR", "KR", "a/b")],
        vec![saved("KR", "KR", &"a".repeat(129))],
    ];
    for accounts in cases {
        assert_eq!(validate_saved_accounts(&accounts).unwrap_err(), "accounts.invalid");
    }
    let mut blank = saved("KR", "KR", "a");
    blank.account.riot_id = "  ".into();
    assert!(validate_saved_accounts(&vec![blank]).is_err());
    let mut control = saved("KR", "KR", "a");
    control.account.riot_id = "a\u{7}b".into();
    assert!(validate_saved_accounts(&vec![control]).is_err());
    let mut wrong_id = saved("KR", "KR", "a");
    wrong_id.account.id = "KR:b".into();
    assert!(validate_saved_accounts(&vec![wrong_id]).is_err());
}

#[test]
fn backup_rows_must_be_consistent() {
    assert!(check_backup_accounts(&vec![account("KR", "a")]).is_ok());
    let mut broken = account("KR", "a");
    broken.id = "KR_a".into();
    assert_eq!(check_backup_accounts(&vec![broken]).unwrap_err(), "backup.invalid");
    assert!(check_backup_accounts(&vec![account("KR", "")]).is_err());

    let detail = json(r#"{"gameId":42,"platformId":"KR"}"#);
    let timeline = json(r#"{"frames":[]}"#);
    assert!(check_backup_game("KR_42", "KR", "42", Some(&detail), Some(&timeline)).is_ok());
    assert!(check_backup_game("KR_42", "KR", "42", None, None).is_ok());
    assert!(check_backup_game("KR_042", "KR", "042", None, None).is_err());
    assert!(check_backup_game("KR_43", "KR", "42", None, None).is_err());
    assert!(check_backup_game("KR_42", "KR", "42", Some(&json(r#"{"gameId":43,"platformId":"KR"}"#)), None).is_err());
    assert!(check_backup_game("KR_42", "KR", "42", Some(&json(r#"{"gameId":42,"platformId":"kr"}"#)), None).is_err());
    assert!(check_backup_game("KR_42", "KR", "42", None, Some(&json(r#"{"frames":{}}"#))).is_err());

    assert!(check_backup_subscription("TENCENT_HN1", "HN1", "friend").is_ok());
    assert_eq!(check_backup_subscription("TENCENT_HN1", "KR", "friend").unwrap_err(), "backup.invalid");
    assert_eq!(check_backup_subscription("TENCENT_HN1", "HN1", &"字".repeat(81)).unwrap_err(), "backup.invalid");
    assert!(check_backup_subscription("TENCENT_HN1", "HN1", &"字".repeat(80)).is_ok());
    assert_eq!(check_backup_subscription("nowhere", "HN1", "x").unwrap_err(), "region.unsupported");
}

#[test]
fn linked_games_must_be_the_accounts_finished_games() {
    let accounts = vec![account("KR", "a")];
    let detail = json(
        r#"{"gameId":42,"platformId":"KR","gameDuration":100,
        "participantIdentities":[{"participantId":1,"player":{"puuid":"a"}}],
        "participants":[{"participantId":1,"stats":{"win":true}}]}"#,
    );
    assert!(check_backup_link("KR_42", "KR:a", &accounts, Some(&detail)).is_ok());
    assert!(check_backup_link("KR_42", "KR:b", &accounts, Some(&detail)).is_err());
    assert!(check_backup_link("KR_42", "KR:b", &accounts, None).is_ok());
    assert_eq!(check_backup_link("KR_43", "KR:a", &accounts, Some(&detail)).unwrap_err(), "backup.invalid");
}

#[test]
fn saved_user_state_keeps_names_themes_and_links_valid() {
    assert!(check_theme(None).is_ok());
    for theme in ["dark", "light", "system"] {
        assert!(check_theme(Some(theme)).is_ok());
    }
    assert_eq!(check_theme(Some("blue")).unwrap_err(), "ui.invalidTheme");
    assert!(check_player_names(&vec![player("a", &[]), player("b", &[])]).is_ok());
    let mut blank = player("c", &[]);
    blank.name = "   ".into();
    assert_eq!(check_player_names(&vec![player("a", &[]), blank]).unwrap_err(), "ui.invalidPlayerName");
    let mut long = player("d", &[]);
    long.name = "n".repeat(81);
    assert!(check_player_names(&vec![long]).is_err());
    let mut control = player("e", &[]);
    control.name = "a\tb".into();
    assert!(check_player_names(&vec![control]).is_err());
    assert!(check_linked_accounts(&vec![player("a", &["HN1:x", "HN1:y"]), player("b", &["HN1:z"])]).is_ok());
    assert_eq!(
        check_linked_accounts(&vec![player("a", &["HN1:x"]), player("b", &["HN1:y", "HN1:x"])]).unwrap_err(),
        "identity.alreadyLinked"
    );
    assert!(check_linked_accounts(&vec![player("a", &["HN1:x", "HN1:x"])]).is_err());
    assert!(note_body_ok(" note ") && !note_body_ok(" \n "));
    assert!(check_ui_size(2 * 1024 * 1024).is_ok());
    assert_eq!(check_ui_size(2 * 1024 * 1024 + 1).unwrap_err(), "ui.tooLarge");
}

#[test]
fn importing_reviewed_games_premades_and_players_twice_changes_nothing_more() {
    let mut reviewed = vec!["HN1_1".to_string()];
    merge_reviewed(&mut reviewed, vec!["HN1_2".to_string(), "HN1_1".to_string()]);
    let once = reviewed.clone();
    merge_reviewed(&mut reviewed, vec!["HN1_2".to_string(), "HN1_1".to_string()]);
    assert_eq!(reviewed, once);
    assert_eq!(once, vec!["HN1_1".to_string(), "HN1_2".to_string()]);

    let mark = |m: &str, a: &str| PremadeMark { match_id: m.into(), account_id: a.into() };
    let mut marks = vec![mark("HN1_1", "HN1:a")];
    merge_premades(&mut marks, vec![mark("HN1_1", "HN1:b"), mark("HN1_1", "HN1:a")]);
    assert_eq!(marks.len(), 2);
    merge_premades(&mut marks, vec![mark("HN1_1", "HN1:b"), mark("HN1_1", "HN1:a")]);
    assert_eq!(marks.len(), 2);

    let mut players = vec![player("p1", &["HN1:a"])];
    merge_players(&mut players, vec![player("p2", &["HN1:a", "HN1:b"])]);
    assert_eq!(players[1].account_ids, vec!["HN1:b".to_string()]);
    merge_players(&mut players, vec![player("p2", &["HN1:a", "HN1:b"])]);
    assert_eq!(players.len(), 2);
    assert_eq!(players[1].account_ids, vec!["HN1:b".to_string()]);
}

fn link(id: &str, player: &str, account: &str, game: Option<&str>, timed: bool) -> LinkTarget {
    LinkTarget {
        id: id.into(),
        player_id: player.into(),
        account_id: account.into(),
        match_id: game.map(str::to_string),
        timed,
    }
}

#[test]
fn player_aliases_are_explicit_and_cannot_overlap() {
    // Two players may not claim one account.
    assert!(check_linked_accounts(&vec![player("1", &["HN1:a", "HN1:b"]), player("2", &["HN1:a"])]).is_err());
    assert!(check_linked_accounts(&vec![player("1", &["HN1:a", "HN1:b"])]).is_ok());
    let players = vec![player("1", &["HN1:a"]), player("2", &[])];
    let links = vec![link("l1", "1", "HN1:c", Some("HN1_7"), false), link("l2", "2", "HN1:c", None, true)];
    assert!(check_link_targets(&players, &links).is_ok());
    for bad in [
        vec![link("l1", "1", "HN1:c", None, true), link("l1", "2", "HN1:d", None, true)],
        vec![link("l1", "3", "HN1:c", None, true)],
        vec![link("l1", "1", "no-colon", None, true)],
        vec![link("l1", "1", &format!("HN1:{}", "x".repeat(509)), None, true)],
        vec![link("l1", "1", "HN1:c", Some("HN1_7"), true)],
        vec![link("l1", "1", "HN1:c", Some("HN17"), false)],
    ] {
        assert_eq!(check_link_targets(&players, &bad).unwrap_err(), "identity.invalidLink");
    }
    assert!(check_link_targets(&players, &vec![link("l1", "1", &format!("HN1:{}", "x".repeat(508)), None, true)]).is_ok());
    assert!(check_match_overlaps(&links).is_ok());
    let twice = vec![link("l1", "1", "HN1:c", Some("HN1_7"), false), link("l2", "2", "HN1:c", Some("HN1_7"), false)];
    assert_eq!(check_match_overlaps(&twice).unwrap_err(), "identity.overlap");
    let other_game = vec![link("l1", "1", "HN1:c", Some("HN1_7"), false), link("l2", "2", "HN1:c", Some("HN1_8"), false)];
    assert!(check_match_overlaps(&other_game).is_ok());
}

#[test]
fn a_restored_revision_must_leave_room_for_one_more_save() {
    assert_eq!(check_backup_revision(0), Ok(0));
    assert_eq!(check_backup_revision(4294967294), Ok(4294967294));
    assert_eq!(check_backup_revision(4294967295), Err("backup.invalid".to_string()));
    assert_eq!(check_backup_revision(-1), Err("backup.invalid".to_string()));
}

fn note(id: &str, body: &str, at: Option<u64>) -> NoteKey {
    NoteKey {
        id: id.to_string(),
        match_id: "HN1_42".to_string(),
        body: body.to_string(),
        at,
        participant_id: None,
        tags: vec![],
    }
}

fn fresh(n: usize) -> Vec<String> {
    (0..n).map(|i| format!("fresh-{i}")).collect()
}

#[test]
fn merged_notes_keep_both_versions_under_distinct_ids() {
    let current = vec![note("note", "first", None)];
    let imported = vec![note("note", "second", None), note("other", "first", None), note("x", "third", Some(5))];
    let plan = plan_note_merge(&current, &imported, &fresh(3));
    assert_eq!(plan, vec![Some("fresh-0".to_string()), None, Some("x".to_string())]);
}

#[test]
fn importing_the_same_notes_twice_adds_nothing() {
    let current = vec![note("note", "first", None)];
    let imported = vec![note("note", "second", None)];
    let plan = plan_note_merge(&current, &imported, &fresh(1));
    let mut merged = vec![note("note", "first", None)];
    merged.push(note(plan[0].as_deref().unwrap(), "second", None));
    assert_eq!(plan_note_merge(&merged, &imported, &fresh(1)), vec![None]);
}

#[test]
fn notes_differing_in_time_tags_or_participant_are_distinct() {
    let current = vec![note("a", "x", Some(1))];
    let mut tagged = note("b", "x", Some(1));
    tagged.tags = vec!["t".to_string()];
    let mut about = note("c", "x", Some(1));
    about.participant_id = Some(3);
    let imported = vec![note("d", "x", Some(2)), tagged, about, note("e", "x", Some(1))];
    assert_eq!(
        plan_note_merge(&current, &imported, &fresh(4)),
        vec![Some("d".to_string()), Some("b".to_string()), Some("c".to_string()), None]
    );
}

#[test]
fn a_note_whose_id_is_taken_by_an_earlier_import_is_renamed() {
    let imported = vec![note("n", "one", None), note("n", "two", None)];
    assert_eq!(plan_note_merge(&Vec::new(), &imported, &fresh(2)), vec![Some("n".to_string()), Some("fresh-1".to_string())]);
}

use league_replay::json::{Json, JsonNumber};
use league_replay::lcu::{
    accept_answer_chunk, answer_status, check_app_process, check_game_number, client_error, local_detail, connection_of, current, has_game, parse_account, parse_args, single_client, LcuError,
};
use league_replay::library::{query_account, validate_puuid};
use league_replay::playback::{
    check_client_version, check_idle, launch_arguments, metadata_request, official_step, replay_process_id, uses_official_route, OfficialStep,
};
use league_replay::sgp::url_segment;
use league_replay::windows::string_range;
use league_replay::sample::parse_sample;

fn json(text: &str) -> Json {
    convert(serde_json::from_str(text).expect("test JSON"))
}

fn convert(v: serde_json::Value) -> Json {
    match v {
        serde_json::Value::Null => Json::Null,
        serde_json::Value::Bool(b) => Json::Bool(b),
        serde_json::Value::Number(n) => match (n.as_u64(), n.as_i64(), n.as_f64()) {
            (Some(u), _, _) => Json::Number(JsonNumber::Unsigned(u)),
            (None, Some(i), _) => Json::Number(JsonNumber::Negative(i)),
            (_, _, Some(f)) => Json::Number(JsonNumber::Float(f.to_bits())),
            _ => Json::Null,
        },
        serde_json::Value::String(s) => Json::Text(s),
        serde_json::Value::Array(a) => Json::Array(a.into_iter().map(convert).collect()),
        serde_json::Value::Object(m) => Json::Object(m.into_iter().map(|(k, v)| (k, convert(v))).collect()),
    }
}

fn strings(args: &[&str]) -> Vec<String> {
    args.iter().map(|a| a.to_string()).collect()
}

#[test]
fn riot_region_aliases_work_without_a_platform_argument() {
    for (region, expected) in [("LAN", "LA1"), ("LAS", "LA2"), ("OCE", "OC1"), ("eune", "EUN1")] {
        let args = vec![
            "--app-port=5000".to_string(),
            "--app-pid=10".to_string(),
            "--remoting-auth-token=test".to_string(),
            format!("--region={region}"),
        ];
        assert_eq!(parse_args(&args).unwrap().2, expected);
    }
}

#[test]
fn unsafe_or_ambiguous_connection_arguments_are_rejected() {
    let args = strings(&["--app-port=5000", "--app-pid=10", "--remoting-auth-token=secret", "--rso-platform-id=HN1"]);
    assert!(parse_args(&args).is_ok());
    let mut duplicate = args.clone();
    duplicate.push("--app-port=6000".into());
    assert!(parse_args(&duplicate).is_err());
    let mut alias = args.clone();
    alias.push("--rso_platform_id=HN2".into());
    assert!(parse_args(&alias).is_err());
    let mut underscore = args.clone();
    underscore[3] = "--rso_platform_id=HN1".into();
    assert!(parse_args(&underscore).is_ok());
    let mut injected = args;
    injected[3] = "--rso-platform-id=../../evil".into();
    assert!(parse_args(&injected).is_err());
}

#[test]
fn connection_arguments_give_port_token_platform_and_process() {
    let args = strings(&["--app-port=5000", "--app-pid=10", "--remoting-auth-token=secret", "--rso-platform-id=hn1"]);
    let (port, token, platform, pid) = parse_args(&args).unwrap();
    assert_eq!((port, token.as_str(), platform.as_str(), pid), (5000, "secret", "HN1", 10));
    let zero = strings(&["--app-port=0", "--app-pid=10", "--remoting-auth-token=secret", "--rso-platform-id=HN1"]);
    assert_eq!(parse_args(&zero).err(), Some(LcuError::InvalidArguments));
}

#[test]
fn the_current_server_follows_the_client_region() {
    assert_eq!(current("HN1", "TENCENT"), "TENCENT_HN1");
    assert_eq!(current("TENCENT_TENCENT_HN1", "TENCENT"), "TENCENT_HN1");
    assert_eq!(current("EUW1", "EUW"), "EUW");
    assert_eq!(current("JP1", "JP"), "JP");
    assert_eq!(current("PBE1", "PBE"), "PBE");
    assert_eq!(current("KR", "KR"), "KR");
}

#[test]
fn client_failures_cross_the_boundary_as_codes() {
    assert_eq!(client_error(LcuError::AccessDenied), "client.AccessDenied");
    assert_eq!(client_error(LcuError::IdentityChanged), "client.IdentityChanged");
    assert_eq!(LcuError::Offline.public_message().0, "offline");
    assert!(has_game("InProgress") && has_game("EndOfGame") && has_game("WaitingForStats"));
    assert!(!has_game("Lobby") && !has_game("None"));
}

#[test]
fn rejects_out_of_bounds_or_misaligned_native_strings() {
    assert_eq!(string_range(0x1000, 64, 0x1010, 10, 12).unwrap(), 16..26);
    for (pointer, length, maximum) in [
        (0xFFF, 10, 10),
        (0x1000, 10, 10),
        (0x1011, 10, 10),
        (0x1010, 9, 10),
        (0x1010, 50, 50),
        (0x1010, 10, 8),
        (usize::MAX - 1, 10, 10),
    ] {
        assert!(string_range(0x1000, 64, pointer, length, maximum).is_err());
    }
}

#[test]
fn signed_out_client_is_allowed_but_queue_patch_and_unknown_active_state_are_not() {
    let signed_out = json(r#"{"isLoggedIn":false,"isReplaysEnabled":false,"isPatching":false}"#);
    assert!(check_idle(None, None).is_ok());
    assert!(check_idle(Some(&json(r#""None""#)), Some(&signed_out)).is_ok());
    for phase in ["Matchmaking", "ReadyCheck", "ChampSelect", "InProgress", "Reconnect", "WatchInProgress", "Unknown"] {
        let phase = Json::Text(phase.to_string());
        assert!(check_idle(Some(&phase), Some(&signed_out)).is_err());
    }
    assert!(check_idle(None, Some(&json(r#"{"isPatching":true}"#))).is_err());
    assert!(check_idle(None, Some(&json(r#"{"isLoggedIn":true}"#))).is_err());
    assert_eq!(check_idle(None, Some(&json(r#"{"isLoggedIn":true}"#))).unwrap_err(), "replay.clientNotReady");
    assert_eq!(check_idle(Some(&json("3")), None).unwrap_err(), "replay.clientBusy");
    assert!(check_idle(Some(&json(r#""Lobby""#)), Some(&json(r#"{"isLoggedIn":true}"#))).is_ok());
}

#[test]
fn playback_arguments_name_the_base_region_platform_and_locale() {
    let args = launch_arguments("C:/Riot Games/League of Legends/Game", "KR", "ko_KR").unwrap();
    assert!(args.iter().any(|a| a == "-Region=KR"));
    assert!(args.iter().any(|a| a == "-Locale=ko_KR"));
    assert!(launch_arguments("C:/Game", "../NA1", "en_US").is_err());
}

#[test]
fn the_signed_in_profile_becomes_an_account() {
    let account = parse_account(
        "KR",
        &json(r#"{"puuid":"abc","summonerId":9,"gameName":"Player","tagLine":"KR1"}"#),
    )
    .unwrap();
    assert_eq!(account.id, "KR:abc");
    assert_eq!(parse_account("KR", &json(r#"{"puuid":"abc"}"#)).err(), Some(LcuError::InvalidData));
}

#[test]
fn player_ids_are_encoded_as_one_path_segment() {
    assert_eq!(url_segment("abc-_.~"), "abc-_.~");
    assert_eq!(url_segment("a/b c"), "a%2Fb%20c");
    assert_eq!(url_segment("é"), "%C3%A9");
}

#[test]
fn queried_players_are_addressed_on_the_servers_platform() {
    let account = query_account("TENCENT_HN1", "abc-1").unwrap();
    assert_eq!((account.id.as_str(), account.platform.as_str(), account.riot_id.as_str()), ("HN1:abc-1", "HN1", "abc-1"));
    assert_eq!(query_account("TENCENT_HN1", "bad/id").unwrap_err(), "player.invalidId");
    assert_eq!(query_account("nowhere", "abc").unwrap_err(), "region.unsupported");
    assert!(validate_puuid("00000000-0000-0000-0000-000000000000").is_err());
    assert!(validate_puuid(&"a".repeat(128)).is_ok());
    assert!(validate_puuid(&"a".repeat(129)).is_err());
}

#[test]
fn reconnect_and_post_game_recover_only_an_identified_local_participant() {
    let account = json(r#"{"puuid":"borrowed-account","summonerId":1,"gameName":"Borrowed","tagLine":"TEST"}"#);
    for phase in ["Reconnect", "WaitingForStats", "PreEndOfGame", "EndOfGame"] {
        let session = json(&format!(
            r#"{{"phase":"{phase}","gameClient":{{"running":false}},"gameData":{{"gameId":91,"teamOne":[{{"puuid":"borrowed-account","championId":103}}],"teamTwo":[]}}}}"#
        ));
        let sample = parse_sample("HN1", &account, &account, phase, Some(&session)).unwrap();
        assert_eq!(sample.observed_game.as_ref().unwrap().id, "HN1_91");
        assert_eq!(sample.is_playing(), phase == "Reconnect");
        for invalid in [
            "{}".to_string(),
            format!(r#"{{"phase":"{phase}","gameData":{{"gameId":91,"teamOne":[{{"puuid":"someone-else","championId":103}}]}}}}"#),
            r#"{"phase":"Lobby","gameData":{"gameId":91,"teamOne":[{"puuid":"borrowed-account","championId":103}],"teamTwo":[]}}"#.to_string(),
            format!(r#"{{"phase":"{phase}","gameData":{{"gameId":0,"teamOne":[{{"puuid":"borrowed-account","championId":103}}]}}}}"#),
        ] {
            assert!(parse_sample("HN1", &account, &account, phase, Some(&json(&invalid))).unwrap().observed_game.is_none());
        }
        assert!(parse_sample("HN1", &account, &account, phase, None).unwrap().observed_game.is_none());
        let switched = json(r#"{"puuid":"other-account","summonerId":2,"gameName":"Other","tagLine":"TEST"}"#);
        assert!(matches!(
            parse_sample("HN1", &account, &switched, phase, Some(&session)),
            Err(LcuError::IdentityChanged)
        ));
    }
}

#[test]
fn only_confirmed_membership_records_play_and_rejects_switch_races() {
    let a = json(r#"{"puuid":"player-a","summonerId":1,"gameName":"A","tagLine":"TEST"}"#);
    let b = json(r#"{"puuid":"player-b","summonerId":2,"gameName":"B","tagLine":"TEST"}"#);
    let game = json(
        r#"{"phase":"InProgress","gameClient":{"running":true},"gameData":{"gameId":91,"teamOne":[{"puuid":"player-a","championId":103}],"teamTwo":[],"queue":{"name":"排位"}}}"#,
    );
    let observed = parse_sample("HN1", &a, &a, "InProgress", Some(&game)).unwrap().observed_game.unwrap();
    assert_eq!(observed.id, "HN1_91");
    assert_eq!((observed.game_id.as_str(), observed.champion_id, observed.queue_name.as_str()), ("91", 103, "排位"));
    assert!(matches!(parse_sample("HN1", &a, &b, "InProgress", Some(&game)), Err(LcuError::IdentityChanged)));
    assert!(parse_sample("HN1", &b, &b, "InProgress", Some(&game)).is_err());
    for phase in ["WatchInProgress", "ChampSelect", "Lobby", "GameStart"] {
        assert!(parse_sample("HN1", &a, &a, phase, Some(&game)).unwrap().observed_game.is_none());
    }
    assert!(parse_sample("HN1", &a, &a, "ChampSelect", None).unwrap().queue_active);
    assert!(!parse_sample("HN1", &a, &a, "Lobby", None).unwrap().queue_active);
}

#[test]
fn the_connection_names_the_request_platform_and_the_riot_client() {
    let tencent = strings(&[
        "--app-port=5000",
        "--app-pid=10",
        "--remoting-auth-token=secret",
        "--rso-platform-id=HN1",
        "--region=tencent",
        "--riotclient-app-port=6000",
        "--riotclient-auth-token=riot",
    ]);
    let c = connection_of(&tencent).unwrap();
    assert_eq!((c.port, c.pid, c.token.as_str()), (5000, 10, "secret"));
    assert_eq!((c.platform.as_str(), c.region.as_str(), c.wire_platform.as_str()), ("HN1", "TENCENT", "HN1"));
    assert_eq!(c.riot, Some((6000, "riot".to_string())));
    let euw = strings(&["--app-port=5000", "--app-pid=10", "--remoting-auth-token=t", "--rso-platform-id=euw", "--riotclient-app-port=0", "--riotclient-auth-token=riot"]);
    let c = connection_of(&euw).unwrap();
    assert_eq!((c.platform.as_str(), c.region.as_str(), c.wire_platform.as_str()), ("EUW1", "", "EUW"));
    assert!(c.riot.is_none());
    let jp = strings(&["--app-port=5000", "--app-pid=10", "--remoting-auth-token=t", "--region=JP"]);
    assert_eq!(connection_of(&jp).unwrap().platform, "JP1");
    let new_realm = strings(&["--app-port=5000", "--app-pid=10", "--remoting-auth-token=t", "--rso-platform-id=ZZ9", "--region=TENCENT"]);
    assert_eq!(connection_of(&new_realm).unwrap().platform, "TENCENT_ZZ9");
    let twice = strings(&["--app-port=5000", "--app-pid=10", "--remoting-auth-token=t", "--region=KR", "--riotclient-app-port=1", "--riotclient-app-port=2"]);
    assert!(matches!(connection_of(&twice), Err(LcuError::InvalidArguments)));
    assert!(matches!(single_client(0), Err(LcuError::Offline)));
    assert!(single_client(1).is_ok());
    assert!(matches!(single_client(2), Err(LcuError::MultipleClients)));
    assert!(check_app_process(Some("leagueclient.EXE")).is_ok());
    assert!(matches!(check_app_process(Some("LeagueClientUx.exe")), Err(LcuError::AppProcessUnavailable)));
    assert!(matches!(check_app_process(None), Err(LcuError::AppProcessUnavailable)));
}

#[test]
fn client_answers_and_game_requests_are_checked() {
    assert!(answer_status(200).is_ok() && answer_status(204).is_ok());
    assert!(matches!(answer_status(401), Err(LcuError::Unauthorized)));
    assert!(matches!(answer_status(403), Err(LcuError::Unauthorized)));
    assert!(matches!(answer_status(404), Err(LcuError::NotFound)));
    assert!(matches!(answer_status(500), Err(LcuError::Unavailable)));
    assert!(matches!(answer_status(302), Err(LcuError::Unavailable)));
    assert_eq!(accept_answer_chunk(8 * 1024 * 1024 - 2, 2).unwrap(), 8 * 1024 * 1024);
    assert!(matches!(accept_answer_chunk(8 * 1024 * 1024, 1), Err(LcuError::InvalidData)));
    assert!(check_game_number("123").is_ok() && check_game_number("0").is_ok());
    assert!(check_game_number("").is_err() && check_game_number("12a").is_err() && check_game_number("../1").is_err());
    let detail = local_detail(json(r#"{"platformId":"euw1","gameId":1}"#), "EUW", "EUW1").unwrap();
    assert_eq!(league_replay::json::field_text(&detail, "platformId"), Some("EUW1"));
    assert_eq!(league_replay::json::field_u64(&detail, "gameId"), Some(1));
    assert!(local_detail(json(r#"{"platformId":"EUW","gameId":1}"#), "EUW", "EUW1").is_ok());
    assert!(matches!(local_detail(json(r#"{"platformId":"NA1"}"#), "EUW", "EUW1"), Err(LcuError::InvalidData)));
    assert!(matches!(local_detail(json(r#"{"gameId":1}"#), "EUW", "EUW1"), Err(LcuError::InvalidData)));
}

#[test]
fn the_clients_own_replay_route_is_used_only_when_it_can_play() {
    let ready = json(r#"{"isLoggedIn":true,"isReplaysEnabled":true,"gameVersion":"14.23.1.1"}"#);
    assert!(uses_official_route("KR", "KR", Some(&ready)));
    assert!(!uses_official_route("NA1", "KR", Some(&ready)));
    assert!(!uses_official_route("KR", "KR", Some(&json(r#"{"isLoggedIn":true,"isReplaysEnabled":false}"#))));
    assert!(!uses_official_route("KR", "KR", None));
    assert!(check_client_version("KR", "14.23.500.1", &ready).is_ok());
    assert_eq!(check_client_version("KR", "14.22.1", &ready).unwrap_err(), "replay.versionMismatch");
    assert!(check_client_version("TENCENT_HN1", "14.22.1", &ready).is_ok());
    let watch = json(r#"{"state":"watch"}"#);
    assert_eq!(official_step("KR", "14.23.1", &ready, Some(&watch)), OfficialStep::Watch);
    assert_eq!(official_step("KR", "14.22.1", &ready, Some(&watch)), OfficialStep::Prepare);
    assert_eq!(official_step("KR", "14.23.1", &ready, Some(&json(r#"{"state":"lost"}"#))), OfficialStep::Prepare);
    assert_eq!(official_step("TENCENT_HN1", "14.23.1", &ready, None), OfficialStep::Direct);
    let request = metadata_request(&json(r#"{"gameCreation":1000,"gameDuration":30,"gameType":"MATCHED_GAME","queueId":420}"#));
    let expected = json(r#"{"gameEnd":31000,"gameType":"MATCHED_GAME","gameVersion":null,"queueId":420}"#);
    assert!(league_replay::json::json_eq(&request, &expected));
}

#[test]
fn replay_api_names_its_process() {
    assert_eq!(replay_process_id(&json(r#"{"processID":4242}"#)).unwrap(), 4242);
    assert_eq!(replay_process_id(&json(r#"{"processID":4294967295}"#)).unwrap(), u32::MAX);
    for bad in [r#"{"processID":4294967296}"#, r#"{"processID":-1}"#, r#"{"processID":"12"}"#, r#"{}"#, "[]"] {
        assert_eq!(replay_process_id(&json(bad)).unwrap_err(), "replay.apiUnavailable", "{bad}");
    }
}

fn percent_decode(s: &str) -> Vec<u8> {
    let b = s.as_bytes();
    let mut out = Vec::new();
    let mut i = 0;
    while i < b.len() {
        if b[i] == b'%' {
            out.push(u8::from_str_radix(std::str::from_utf8(&b[i + 1..i + 3]).unwrap(), 16).unwrap());
            i += 3;
        } else {
            out.push(b[i]);
            i += 1;
        }
    }
    out
}

#[test]
fn url_segments_decode_back_to_their_input() {
    for input in ["puuid-1_2.3~x", "a/b c", "é ü?#&=", ""] {
        assert_eq!(percent_decode(&url_segment(input)), input.as_bytes(), "{input}");
    }
}

#[test]
fn game_ids_are_how_positive_numbers_print() {
    for n in [1u64, 9, 10, 42, 7_000_000_123, u64::MAX] {
        assert!(league_replay::domain::validate_game_id(&n.to_string()).is_ok());
    }
    for bad in ["0", "007", "+5", "-5", "", " 5", "18446744073709551616"] {
        assert!(league_replay::domain::validate_game_id(bad).is_err(), "{bad}");
    }
}

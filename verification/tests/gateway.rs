use league_replay::json::{Json, JsonNumber};
use league_replay::regions::{ServerConfig, ServerEntry, ServerName};
use league_replay::sgp::{
    accept_answer_chunk, access_token, game_path, gateway_status, history_path, range_header, replay_path, replay_status,
    request_url,
};

fn json(text: &str) -> Json {
    convert(serde_json::from_str(text).expect("test JSON"))
}

fn convert(v: serde_json::Value) -> Json {
    match v {
        serde_json::Value::Null => Json::Null,
        serde_json::Value::Bool(b) => Json::Bool(b),
        serde_json::Value::Number(n) => match (n.as_u64(), n.as_i64(), n.as_f64()) {
            (Some(u), _, _) => Json::Number(JsonNumber::Unsigned(u)),
            (None, Some(i), _) => Json::Number(JsonNumber::Negative(i)),
            (_, _, Some(f)) => Json::Number(JsonNumber::Float(f.to_bits())),
            _ => Json::Null,
        },
        serde_json::Value::String(s) => Json::Text(s),
        serde_json::Value::Array(a) => Json::Array(a.into_iter().map(convert).collect()),
        serde_json::Value::Object(m) => Json::Object(m.into_iter().map(|(k, v)| (k, convert(v))).collect()),
    }
}

fn config() -> ServerConfig {
    ServerConfig::new(
        vec![
            ServerEntry {
                id: "TENCENT_HN1".into(),
                match_history: Some("https://hn1-k8s-sgp.lol.qq.com:21019".into()),
                common: Some("https://hn1-k8s-sgp.lol.qq.com:21019".into()),
                region_path_param: Some("HN1".into()),
            },
            ServerEntry {
                id: "PBE".into(),
                match_history: None,
                common: Some("https://usw2-red.pp.sgp.pvp.net".into()),
                region_path_param: Some("PBE1".into()),
            },
        ],
        vec![ServerName { id: "TENCENT_HN1".into(), name: "艾欧尼亚".into() }],
        vec![ServerName { id: "TENCENT_HN1".into(), name: "Ionia".into() }],
    )
    .expect("valid routing table")
}

#[test]
fn answers_map_their_status_to_gateway_errors() {
    assert!(gateway_status(200).is_ok() && gateway_status(206).is_ok());
    assert_eq!(gateway_status(401).unwrap_err(), "gateway.unauthorized");
    assert_eq!(gateway_status(403).unwrap_err(), "gateway.forbidden");
    assert_eq!(gateway_status(404).unwrap_err(), "gateway.dataNotFound");
    assert_eq!(gateway_status(429).unwrap_err(), "gateway.rateLimited");
    assert_eq!(gateway_status(416).unwrap_err(), "gateway.unavailable");
    assert_eq!(gateway_status(302).unwrap_err(), "gateway.unavailable");
    assert_eq!(replay_status(404).unwrap_err(), "gateway.notFound");
    assert!(replay_status(416).is_ok());
    assert_eq!(replay_status(500).unwrap_err(), "gateway.unavailable");
}

#[test]
fn requests_go_to_the_configured_host_with_the_region_alias() {
    let config = config();
    let path = game_path("42", false).unwrap();
    assert_eq!(path, "/match-history-query/v1/products/lol/{region}_42/SUMMARY");
    assert_eq!(
        request_url(&config, "TENCENT_HN1", &path).unwrap(),
        "https://hn1-k8s-sgp.lol.qq.com:21019/match-history-query/v1/products/lol/HN1_42/SUMMARY"
    );
    assert_eq!(game_path("42", true).unwrap(), "/match-history-query/v1/products/lol/{region}_42/DETAILS");
    assert_eq!(game_path("042", true).unwrap_err(), "game.invalidId");
    assert_eq!(
        request_url(&config, "TENCENT_HN1", &replay_path("7").unwrap()).unwrap(),
        "https://hn1-k8s-sgp.lol.qq.com:21019/match-history-query/v3/product/lol/matchId/HN1_7/infoType/replay"
    );
    assert_eq!(
        history_path("a b/c"),
        "/match-history-query/v1/products/lol/player/a%20b%2Fc/SUMMARY"
    );
    assert_eq!(request_url(&config, "PBE", "/x").unwrap_err(), "region.unsupported");
    assert_eq!(request_url(&config, "KR", "/x").unwrap_err(), "region.unsupported");
    assert_eq!(request_url(&config, "TENCENT_HN1", "/{region}/{region}{regio").unwrap(),
        "https://hn1-k8s-sgp.lol.qq.com:21019/HN1/HN1{regio");
    assert_eq!(range_header(1024), "bytes=1024-");
}

#[test]
fn the_gateway_token_must_be_present_and_answers_stay_small() {
    assert_eq!(access_token(&json(r#"{"accessToken":"abc"}"#)).unwrap(), "abc");
    for invalid in [r#"{"accessToken":""}"#, r#"{}"#, r#"{"accessToken":1}"#, r#"[]"#] {
        assert_eq!(access_token(&json(invalid)).unwrap_err(), "gateway.tokenNotReady");
    }
    assert_eq!(accept_answer_chunk(1, 2).unwrap(), 3);
    assert_eq!(accept_answer_chunk(16 * 1024 * 1024, 1).unwrap_err(), "gateway.invalidData");
}

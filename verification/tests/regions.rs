use league_replay::regions::{platform, server_for_platform, ServerConfig, ServerEntry, ServerName};

fn entry(id: &str, history: Option<&str>, common: Option<&str>, alias: Option<&str>) -> ServerEntry {
    ServerEntry {
        id: id.to_string(),
        match_history: history.map(str::to_string),
        common: common.map(str::to_string),
        region_path_param: alias.map(str::to_string),
    }
}

fn name(id: &str, text: &str) -> ServerName {
    ServerName { id: id.to_string(), name: text.to_string() }
}

/// A routing table holding the servers these scenarios name.
fn config() -> ServerConfig {
    ServerConfig::new(
        vec![
            entry("BR1", Some("https://br-red.lol.sgp.pvp.net"), Some("https://br-red.lol.sgp.pvp.net"), Some("BR1")),
            entry("JP", Some("https://jp-red.lol.sgp.pvp.net"), Some("https://jp-red.lol.sgp.pvp.net"), Some("JP1")),
            entry("KR", Some("https://kr-blue.lol.sgp.pvp.net"), Some("https://kr-blue.lol.sgp.pvp.net"), Some("KR")),
            entry("NA1", Some("https://usw2-red.pp.sgp.pvp.net"), Some("https://usw2-red.pp.sgp.pvp.net"), Some("NA1")),
            entry("PBE", None, Some("https://usw2-red.pp.sgp.pvp.net"), Some("PBE1")),
            entry("TENCENT_HN1", Some("https://hn1-k8s-sgp.lol.qq.com:21019"), Some("https://hn1-k8s-sgp.lol.qq.com:21019"), Some("HN1")),
            entry("TENCENT_HN10", Some("https://hn10-k8s-sgp.lol.qq.com:21019"), Some("https://hn10-k8s-sgp.lol.qq.com:21019"), Some("HN10")),
        ],
        vec![name("TENCENT_HN1", "艾欧尼亚"), name("KR", "韩国")],
        vec![name("TENCENT_HN1", "Ionia"), name("KR", "Korea")],
    )
    .expect("valid routing table")
}

#[test]
fn local_identity_and_current_region_do_not_require_sgp_routes() {
    let config = config();
    for id in ["EUN1", "ME1", "TENCENT_HN20", "TENCENT_NEWREALM"] {
        let p = platform(id).unwrap();
        assert_eq!(server_for_platform(&p).unwrap(), id);
        assert!(config.endpoint(id, true).is_err());
        assert!(config.check_history_access(id, id).is_err());
        let items = config.list_for_source(id);
        let local = items.iter().find(|r| r.id == id).unwrap();
        assert!(local.current && local.available);
        assert!(items.iter().filter(|r| r.id != id).all(|r| !r.available));
    }
    for id in ["BR1", "JP", "KR", "NA1", "PBE", "TENCENT_HN1", "TENCENT_HN10"] {
        assert_eq!(server_for_platform(&platform(id).unwrap()).unwrap(), id);
    }
    for invalid in ["", "https://example.com", "../NA1", "na1", "TENCENT_", "EUW1"] {
        assert!(platform(invalid).is_err());
    }
    assert_eq!(platform("TENCENT_HN1").unwrap(), "HN1");
    assert_eq!(platform("TENCENT_PBE").unwrap(), "TENCENT_PBE");
    assert_eq!(platform("PBE").unwrap(), "PBE1");
}

#[test]
fn history_access_preserves_operator_and_configuration_boundaries() {
    let config = config();
    for (source, target) in [("TENCENT_HN1", "TENCENT_HN10"), ("NA1", "KR"), ("JP", "BR1")] {
        assert!(config.check_history_access(source, target).is_ok());
        assert!(
            config
                .list_for_source(source)
                .iter()
                .find(|r| r.id == target)
                .unwrap()
                .available
        );
    }
    for (source, target) in [("TENCENT_HN1", "KR"), ("KR", "TENCENT_HN1")] {
        assert_eq!(
            config.check_history_access(source, target),
            Err("region.operatorMismatch".into())
        );
        assert!(
            !config
                .list_for_source(source)
                .iter()
                .find(|r| r.id == target)
                .unwrap()
                .available
        );
    }
    for (source, target) in [("NA1", "UNKNOWN"), ("UNKNOWN", "NA1"), ("TENCENT_UNKNOWN", "TENCENT_HN1")] {
        assert_eq!(
            config.check_history_access(source, target),
            Err("region.unsupported".into())
        );
    }
    assert_eq!(config.check_history_access("", "KR"), Err("client.Offline".into()));
    assert!(config.list_for_source("").iter().all(|r| !r.available));
    assert!(config.endpoint("https://example.com", true).is_err());
    assert_ne!(platform("PBE").unwrap(), platform("TENCENT_PBE").unwrap());
}

#[test]
fn server_identifiers_map_to_platforms_and_back() {
    assert_eq!(server_for_platform("EUW1").unwrap(), "EUW");
    assert_eq!(server_for_platform("JP1").unwrap(), "JP");
    assert_eq!(server_for_platform("PBE1").unwrap(), "PBE");
    assert_eq!(server_for_platform("HN1").unwrap(), "TENCENT_HN1");
    assert_eq!(server_for_platform("BGP2").unwrap(), "TENCENT_BGP2");
    assert_eq!(server_for_platform("NA1").unwrap(), "NA1");
    assert_eq!(server_for_platform("na1"), Err("region.unsupported".into()));
    assert_eq!(platform("EUW").unwrap(), "EUW1");
    assert_eq!(platform("JP").unwrap(), "JP1");
    assert_eq!(platform("TENCENT_HN10").unwrap(), "HN10");
    assert!(platform("HN1").is_err());
    assert!(platform("TENCENT_HN").is_err() == false);
    assert_eq!(platform("TENCENT_HN").unwrap(), "TENCENT_HN");
}

#[test]
fn paths_and_endpoints_come_from_the_table() {
    let config = config();
    assert_eq!(config.path_region("JP").unwrap(), "JP1");
    assert_eq!(config.path_region("TENCENT_HN20").unwrap(), "HN20");
    assert_eq!(config.path_region("EUN1").unwrap(), "EUN1");
    assert_eq!(config.path_region("eun1"), Err("region.unsupported".into()));
    assert_eq!(
        config.endpoint("TENCENT_HN1", true).unwrap(),
        ("https://hn1-k8s-sgp.lol.qq.com:21019".to_string(), "HN1".to_string())
    );
    assert!(config.endpoint("PBE", true).is_err());
    assert_eq!(config.endpoint("PBE", false).unwrap().1, "PBE1");
    let list = config.list_for_source("TENCENT_HN1");
    assert_eq!(list.len(), 7);
    let ionia = list.iter().find(|r| r.id == "TENCENT_HN1").unwrap();
    assert_eq!((ionia.name.as_str(), ionia.english_name.as_str(), ionia.platform.as_str()), ("艾欧尼亚", "Ionia", "HN1"));
    let br = list.iter().find(|r| r.id == "BR1").unwrap();
    assert_eq!((br.name.as_str(), br.english_name.as_str()), ("BR1", "BR1"));
    assert_eq!(config.list_for_source("TENCENT_HN20").len(), 8);
}

#[test]
fn routing_tables_with_duplicate_or_invalid_servers_are_refused() {
    assert!(ServerConfig::new(vec![entry("KR", None, None, None), entry("KR", None, None, None)], vec![], vec![]).is_none());
    assert!(ServerConfig::new(vec![entry("EUW1", None, None, None)], vec![], vec![]).is_none());
    assert!(ServerConfig::new(vec![entry("KR", None, None, None)], vec![name("KR", "a"), name("KR", "b")], vec![]).is_none());
}

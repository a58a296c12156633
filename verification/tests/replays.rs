use league_replay::domain::{Account, StoredReview};
use league_replay::files::{check_identity, check_size, managed_file, patch, path, plan_root_copy, RootEntry};
use league_replay::install::{select, select_marked, Installation};
use league_replay::json::{Json, JsonNumber};
use league_replay::package::{check_export_sizes, notes_markdown, validate_entries, PackageEntry, ShareNote};
use league_replay::regions::{ServerConfig, ServerEntry, ServerName};
use league_replay::rofl::{
    finish, inspect_container, InspectErrorKind, InspectOptions, MetadataFields, ReplayGeneration,
    LEGACY_HEADER_FIELDS_OFFSET, LEGACY_MIN_HEADER_LEN, LEGACY_PAYLOAD_PREFIX_LEN, ROFL2_VERSION_LENGTH_OFFSET,
    ROFL2_VERSION_OFFSET,
};
use std::path::Path;

fn json(text: &str) -> Json {
    convert(serde_json::from_str(text).expect("test JSON"))
}

fn convert(v: serde_json::Value) -> Json {
    match v {
        serde_json::Value::Null => Json::Null,
        serde_json::Value::Bool(b) => Json::Bool(b),
        serde_json::Value::Number(n) => match (n.as_u64(), n.as_i64(), n.as_f64()) {
            (Some(u), _, _) => Json::Number(JsonNumber::Unsigned(u)),
            (None, Some(i), _) => Json::Number(JsonNumber::Negative(i)),
            (_, _, Some(f)) => Json::Number(JsonNumber::Float(f.to_bits())),
            _ => Json::Null,
        },
        serde_json::Value::String(s) => Json::Text(s),
        serde_json::Value::Array(a) => Json::Array(a.into_iter().map(convert).collect()),
        serde_json::Value::Object(m) => Json::Object(m.into_iter().map(|(k, v)| (k, convert(v))).collect()),
    }
}

const METADATA: &[u8] = br#"{"gameLength":1234,"gameVersion":"14.8.1","lastGameChunkId":7,"lastKeyFrameId":3,"statsJson":"[{\"NAME\":\"player\"} ]"}"#;

/// The fields that the metadata document above holds.
fn fields(version: Option<&str>) -> MetadataFields {
    MetadataFields {
        game_length_ms: 1234,
        game_version: version.map(str::to_string),
        last_game_chunk_id: 7,
        last_keyframe_id: 3,
        participants: vec![json(r#"{"NAME":"player"}"#)],
    }
}

fn rofl2(version: &[u8], metadata: &[u8]) -> Vec<u8> {
    let version_len = u8::try_from(version.len()).expect("bounded test version");
    let content_offset = ROFL2_VERSION_OFFSET as usize + version.len();
    let mut bytes = vec![0; content_offset];
    bytes[..6].copy_from_slice(b"RIOT\x02\x00");
    bytes[ROFL2_VERSION_LENGTH_OFFSET as usize] = version_len;
    bytes[ROFL2_VERSION_OFFSET as usize..content_offset].copy_from_slice(version);
    bytes.extend_from_slice(metadata);
    bytes.extend_from_slice(&(metadata.len() as u32).to_le_bytes());
    bytes
}

fn legacy(metadata: &[u8]) -> Vec<u8> {
    let metadata_offset = LEGACY_MIN_HEADER_LEN as usize;
    let payload_header_offset = metadata_offset + metadata.len();
    let payload_header_len = LEGACY_PAYLOAD_PREFIX_LEN as usize + 4;
    let payload_offset = payload_header_offset + payload_header_len;
    let mut bytes = vec![0; payload_offset + 1];
    let file_len = bytes.len() as u32;
    bytes[..6].copy_from_slice(b"RIOT\0\0");
    let f = LEGACY_HEADER_FIELDS_OFFSET as usize;
    bytes[f..f + 2].copy_from_slice(&(LEGACY_MIN_HEADER_LEN as u16).to_le_bytes());
    bytes[f + 2..f + 6].copy_from_slice(&file_len.to_le_bytes());
    bytes[f + 6..f + 10].copy_from_slice(&(metadata_offset as u32).to_le_bytes());
    bytes[f + 10..f + 14].copy_from_slice(&(metadata.len() as u32).to_le_bytes());
    bytes[f + 14..f + 18].copy_from_slice(&(payload_header_offset as u32).to_le_bytes());
    bytes[f + 18..f + 22].copy_from_slice(&(payload_header_len as u32).to_le_bytes());
    bytes[f + 22..f + 26].copy_from_slice(&(payload_offset as u32).to_le_bytes());
    bytes[metadata_offset..payload_header_offset].copy_from_slice(metadata);
    bytes[payload_header_offset..payload_header_offset + 8].copy_from_slice(&42_u64.to_le_bytes());
    bytes[payload_header_offset + 8..payload_header_offset + 12].copy_from_slice(&1234_u32.to_le_bytes());
    bytes[payload_header_offset + 32..payload_header_offset + 34].copy_from_slice(&4_u16.to_le_bytes());
    bytes
}

#[test]
fn inspects_rofl2_using_the_declared_game_version_length() {
    let version = b"15.8.675.0448";
    let bytes = rofl2(version, METADATA);
    let options = InspectOptions::default();
    let container = inspect_container(&bytes, &options).expect("valid ROFL2");
    let inspection = finish(&bytes, &options, container, Ok(fields(Some("14.8.1")))).expect("valid ROFL2");
    assert_eq!(inspection.generation, ReplayGeneration::Rofl2);
    assert_eq!(inspection.game_version, "15.8.675.0448");
    assert_eq!(inspection.metadata.last_game_chunk_id, 7);
    assert_eq!(inspection.metadata.game_length_ms, 1234);
    assert_eq!(inspection.metadata.participants.len(), 1);
    assert_eq!(inspection.layout.header.length, ROFL2_VERSION_OFFSET + version.len() as u64);
    assert_eq!(inspection.layout.metadata.length, METADATA.len() as u64);
    assert_eq!(inspection.legacy_payload, None);
}

#[test]
fn inspects_legacy_layout_without_exposing_the_encryption_key() {
    let bytes = legacy(METADATA);
    let options = InspectOptions::default();
    let container = inspect_container(&bytes, &options).expect("valid legacy");
    let inspection = finish(&bytes, &options, container, Ok(fields(Some("14.8.1")))).expect("valid legacy");
    assert_eq!(inspection.generation, ReplayGeneration::Legacy);
    assert_eq!(inspection.game_version, "14.8.1");
    let payload = inspection.legacy_payload.expect("payload summary");
    assert_eq!(payload.game_id, 42);
    assert_eq!(payload.encryption_key_length, 4);
    assert_eq!(inspection.layout.header.length, LEGACY_MIN_HEADER_LEN);
    assert_eq!(inspection.layout.metadata.length, METADATA.len() as u64);
}

#[test]
fn legacy_metadata_without_a_version_is_refused() {
    let bytes = legacy(METADATA);
    let options = InspectOptions::default();
    let container = inspect_container(&bytes, &options).unwrap();
    let error = finish(&bytes, &options, container, Ok(fields(None))).err().unwrap();
    assert_eq!(error.kind(), InspectErrorKind::InvalidGameVersion);
}

#[test]
fn rejects_unknown_generations_explicitly() {
    let error = inspect_container(b"RIOT\x03\x00", &InspectOptions::default()).err().unwrap();
    assert_eq!(error.kind(), InspectErrorKind::UnsupportedGeneration);
}

#[test]
fn rejects_declared_metadata_before_allocating_it() {
    let mut bytes = rofl2(b"16.13.1", METADATA);
    let footer = bytes.len() - 4;
    bytes[footer..].copy_from_slice(&u32::MAX.to_le_bytes());
    let error = inspect_container(&bytes, &InspectOptions { max_metadata_bytes: 1024 }).err().unwrap();
    assert_eq!(error.kind(), InspectErrorKind::MetadataTooLarge);
}

#[test]
fn rejects_a_rofl2_version_length_that_overlaps_the_footer() {
    let mut bytes = rofl2(b"16.13.1", METADATA);
    bytes[ROFL2_VERSION_LENGTH_OFFSET as usize] = u8::MAX;
    let error = inspect_container(&bytes, &InspectOptions::default()).err().unwrap();
    assert_eq!(error.kind(), InspectErrorKind::InvalidLayout);
}

#[test]
fn file_identity_cannot_escape_managed_root_and_size_is_bounded() {
    for id in ["../HN1_42", "C:\\tmp_42", "HN1_../42", "HN1_0", "HN1_042"] {
        assert!(path(Path::new("replays"), id).is_err());
    }
    assert!(path(Path::new("replays"), "TENCENT_PBE_42").is_ok());
    assert_eq!(path(Path::new("replays"), "HN1_42").unwrap(), Path::new("replays").join("HN1_42.rofl"));
    assert!(check_size(512 * 1024 * 1024 + 1).is_err());
    assert!(check_size(512 * 1024 * 1024).is_ok());
    assert_ne!(patch("16.18.1"), patch("16.19.1"));
    assert_eq!(patch("16.18.1"), Some((16, 18)));
    assert_eq!(patch("invalid"), None);
}

fn config() -> ServerConfig {
    let entry = |id: &str, host: &str, alias: &str| ServerEntry {
        id: id.into(),
        match_history: Some(host.into()),
        common: Some(host.into()),
        region_path_param: Some(alias.into()),
    };
    ServerConfig::new(
        vec![
            entry("TENCENT_HN1", "https://hn1-k8s-sgp.lol.qq.com:21019", "HN1"),
            entry("TENCENT_HN10", "https://hn10-k8s-sgp.lol.qq.com:21019", "HN10"),
        ],
        vec![ServerName { id: "TENCENT_HN1".into(), name: "艾欧尼亚".into() }],
        vec![ServerName { id: "TENCENT_HN1".into(), name: "Ionia".into() }],
    )
    .unwrap()
}

#[test]
fn downloaded_container_must_match_requested_game_region_and_patch() {
    let config = config();
    let version = b"16.18.1";
    let metadata = r#"{"gameId":42,"platformId":"HN1","gameLength":120000,"lastGameChunkId":2,"lastKeyFrameId":1,"statsJson":"[]"}"#;
    let mut bytes = vec![0u8; 15];
    bytes[..6].copy_from_slice(b"RIOT\x02\x00");
    bytes[14] = version.len() as u8;
    bytes.extend_from_slice(version);
    bytes.extend_from_slice(&[1, 2, 3]);
    bytes.extend_from_slice(metadata.as_bytes());
    bytes.extend_from_slice(&(metadata.len() as u32).to_le_bytes());
    let options = InspectOptions::default();
    let container = inspect_container(&bytes, &options).unwrap();
    let decoded = MetadataFields { game_length_ms: 120000, game_version: None, last_game_chunk_id: 2, last_keyframe_id: 1, participants: Vec::new() };
    let inspection = finish(&bytes, &options, container, Ok(decoded)).unwrap();
    let raw = json(metadata);
    let mut game = StoredReview {
        id: "HN1_42".into(),
        server: "TENCENT_HN1".into(),
        account: Account {
            id: "HN1:a".into(),
            puuid: "a".into(),
            platform: "HN1".into(),
            summoner_id: "1".into(),
            riot_id: "A#TEST".into(),
        },
        detail: json(r#"{"gameId":42,"gameVersion":"16.18.2"}"#),
        timeline: None,
        source: "sgp".into(),
        timeline_error: None,
        bookmarked: false,
    };
    assert!(check_identity(&config, &game, &inspection, &raw).is_ok());
    game.detail = json(r#"{"gameId":43,"gameVersion":"16.18.2"}"#);
    assert_eq!(check_identity(&config, &game, &inspection, &raw).unwrap_err(), "game.identityMismatch");
    game.detail = json(r#"{"gameId":42,"gameVersion":"16.18.2"}"#);
    game.server = "TENCENT_HN10".into();
    game.account.platform = "HN10".into();
    assert_eq!(check_identity(&config, &game, &inspection, &raw).unwrap_err(), "game.identityMismatch");
    game.server = "TENCENT_HN1".into();
    game.account.platform = "HN1".into();
    game.detail = json(r#"{"gameId":42,"gameVersion":"16.19.1"}"#);
    assert_eq!(check_identity(&config, &game, &inspection, &raw).unwrap_err(), "replay.versionMismatch");
    let truncated = inspect_container(&bytes[..12], &options);
    assert!(truncated.is_err());
}

fn install(version: &str, tencent: bool) -> Installation {
    Installation {
        root: "C:/WeGameApps/英雄联盟/Game".into(),
        executable: "C:/WeGameApps/英雄联盟/Game/League of Legends.exe".into(),
        version: version.into(),
        tencent,
        locale: "zh_CN".into(),
        running: false,
    }
}

#[test]
fn selection_rejects_wrong_family_and_incompatible_installs() {
    let found = install("16.18.8191953+branch.releases-16-18.code.publictencent", true);
    let chosen = select(vec![found], true, "16.18.819.1953", None).unwrap();
    assert_eq!(chosen.locale, "zh_CN");
    let found = install("16.18.8191953+branch.releases-16-18.code.publictencent", true);
    assert_eq!(select(vec![found], false, "16.18.819.1953", None).unwrap_err(), "replay.installMissing");
    let found = install("16.18.8191953+branch.releases-16-18.code.publictencent", true);
    assert_eq!(select(vec![found], true, "16.17.1", None).unwrap_err(), "replay.versionMismatch");
    let mut other = install("16.18.1", true);
    other.root = "D:/Game".into();
    let found = install("16.18.8191953+branch.releases-16-18.code.publictencent", true);
    assert_eq!(select(vec![found, other], true, "16.18.1", None).unwrap_err(), "replay.installAmbiguous");
}

fn entry(name: &str, size: u64) -> Option<PackageEntry> {
    Some(PackageEntry { name: name.into(), size, symlink: false })
}

#[test]
fn backup_packages_refuse_extra_paths_before_extracting() {
    assert!(validate_entries(&[entry("archive.json", 2), entry("../outside.txt", 3)]).is_err());
    assert!(validate_entries(&[entry("archive.jsonl", 2)]).is_ok());
    assert!(validate_entries(&[entry("archive.jsonl", 2), entry("../outside.txt", 3)]).is_err());
    assert!(validate_entries(&[entry("archive.jsonl", 2), entry("replays/HN1_42.rofl", 10)]).is_ok());
    assert_eq!(
        validate_entries(&[entry("archive.jsonl", 2), entry("replays/HN1_042.rofl", 10)]).unwrap_err(),
        "game.invalidId"
    );
    assert!(validate_entries(&[entry("archive.jsonl", 2), entry("archive.jsonl", 2)]).is_err());
    assert!(validate_entries(&[None]).is_err());
}

#[test]
fn only_named_replay_files_are_moved_with_the_storage() {
    assert_eq!(managed_file("HN1_42.rofl").unwrap(), "HN1_42");
    assert_eq!(managed_file("KR_7.part").unwrap(), "KR_7");
    assert_eq!(managed_file("EUW1_9.resume.json").unwrap(), "EUW1_9");
    for other in ["queue.json", "HN1_042.rofl", "../HN1_42.rofl", "HN1_42.rofl.tmp", ".rofl", "HN1_42"] {
        assert!(managed_file(other).is_none(), "{other}");
    }
}

fn root_entry(name: &str, is_file: bool, target_exists: bool, identical: bool) -> RootEntry {
    RootEntry { name: name.to_string(), is_file, target_exists, identical }
}

#[test]
fn moving_storage_copies_only_missing_managed_files() {
    let entries = vec![
        root_entry("HN1_42.rofl", true, false, false),
        root_entry("queue.json", true, false, false),
        root_entry("KR_7.part", true, true, true),
        root_entry("EUW1_9.resume.json", true, false, false),
        root_entry("NA1_5.rofl", false, false, false),
        root_entry("notes.txt", true, true, false),
    ];
    assert_eq!(
        plan_root_copy(&entries).unwrap(),
        vec!["HN1_42.rofl".to_string(), "EUW1_9.resume.json".to_string()]
    );
}

#[test]
fn moving_storage_onto_a_different_file_is_refused() {
    let entries = vec![
        root_entry("HN1_42.rofl", true, false, false),
        root_entry("KR_7.rofl", true, true, false),
    ];
    assert_eq!(plan_root_copy(&entries).unwrap_err(), "replay.destinationExists");
}

#[test]
fn share_notes_read_as_markdown() {
    let notes = vec![
        ShareNote { at_seconds: Some(65), body: "ward".to_string(), tags: vec!["vision".to_string(), "early".to_string()] },
        ShareNote { at_seconds: None, body: "good game".to_string(), tags: Vec::new() },
        ShareNote { at_seconds: Some(6000), body: "late".to_string(), tags: vec!["end".to_string()] },
    ];
    assert_eq!(
        notes_markdown("HN1_42", "Name#TAG", "HN1", &notes),
        "# HN1_42\n\nName#TAG \u{b7} HN1\n\n## 01:05\n\nward\n\nvision, early\n\n## Match\n\ngood game\n\n\n\n## 100:00\n\nlate\n\nend"
    );
    assert_eq!(notes_markdown("KR_7", "A#B", "KR", &Vec::new()), "# KR_7\n\nA#B \u{b7} KR\n\n");
}

#[test]
fn full_backups_are_bounded() {
    assert!(check_export_sizes(&vec![1, 2, 3]).is_ok());
    assert!(check_export_sizes(&vec![20 * 1024 * 1024 * 1024]).is_ok());
    assert_eq!(check_export_sizes(&vec![20 * 1024 * 1024 * 1024, 1]).unwrap_err(), "backup.tooLarge");
    assert!(check_export_sizes(&vec![1; 10000]).is_ok());
    assert_eq!(check_export_sizes(&vec![1; 10001]).unwrap_err(), "backup.tooLarge");
    assert_eq!(check_export_sizes(&vec![u64::MAX, u64::MAX]).unwrap_err(), "backup.tooLarge");
}

#[test]
fn the_preferred_directory_wins_as_paths_compare() {
    let mut other = install("16.18.1", true);
    other.root = "D:/Game".into();
    let found = install("16.18.1", true);
    let chosen = select(vec![found, other], true, "16.18.1", Some("D:/Game")).unwrap();
    assert_eq!(chosen.root, "D:/Game");
    let mut other = install("16.18.1", true);
    other.root = "D:/Game".into();
    let found = install("16.18.1", true);
    let chosen = select(vec![found, other], true, "16.18.1", Some("D:/Game/")).unwrap();
    assert_eq!(chosen.root, "D:/Game");
    let mut other = install("16.18.1", true);
    other.root = "D:/Game".into();
    let found = install("16.18.1", true);
    let chosen = select_marked(vec![found, other], vec![true, true], true, "16.18.1").unwrap();
    assert_eq!(chosen.root, "C:/WeGameApps/英雄联盟/Game");
    let mut running = install("16.18.1", true);
    running.root = "E:/Game".into();
    running.running = true;
    let found = install("16.18.1", true);
    let chosen = select_marked(vec![found, running], vec![false, false], true, "16.18.1").unwrap();
    assert_eq!(chosen.root, "E:/Game");
}

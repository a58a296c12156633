use league_replay::json::{Json, JsonNumber};
use league_replay::resources::{accept_document_chunk, catalog_of, language_data, latest_version, names_of};

fn json(text: &str) -> Json {
    convert(serde_json::from_str(text).expect("test JSON"))
}

fn convert(v: serde_json::Value) -> Json {
    match v {
        serde_json::Value::Null => Json::Null,
        serde_json::Value::Bool(b) => Json::Bool(b),
        serde_json::Value::Number(n) => match (n.as_u64(), n.as_i64(), n.as_f64()) {
            (Some(u), _, _) => Json::Number(JsonNumber::Unsigned(u)),
            (None, Some(i), _) => Json::Number(JsonNumber::Negative(i)),
            (_, _, Some(f)) => Json::Number(JsonNumber::Float(f.to_bits())),
            _ => Json::Null,
        },
        serde_json::Value::String(s) => Json::Text(s),
        serde_json::Value::Array(a) => Json::Array(a.into_iter().map(convert).collect()),
        serde_json::Value::Object(m) => Json::Object(m.into_iter().map(|(k, v)| (k, convert(v))).collect()),
    }
}

#[test]
fn the_newest_listed_version_must_have_three_numeric_parts() {
    assert_eq!(latest_version(&json(r#"["14.23.1","14.22.1"]"#)).unwrap(), "14.23.1");
    for invalid in [r#"[]"#, r#"{}"#, r#"["14.23"]"#, r#"["14.23.1.2"]"#, r#"["14.23.x"]"#, r#"[14]"#, r#"["lolpatch_3.7"]"#] {
        assert_eq!(latest_version(&json(invalid)).unwrap_err(), "game.invalidData");
    }
    let long = format!("1.1.{}", "1".repeat(27));
    assert_eq!(long.len(), 31);
    assert!(latest_version(&json(&format!(r#"["{long}"]"#))).is_ok());
    let longer = format!("1.1.{}", "1".repeat(28));
    assert!(latest_version(&json(&format!(r#"["{longer}"]"#))).is_err());
}

#[test]
fn catalog_entries_need_numeric_keys_names_and_costs() {
    let champions = json(r#"{"data":{"Ahri":{"key":"103","name":"阿狸"},"Annie":{"key":"+1","name":"安妮"}}}"#);
    let items = json(r#"{"data":{"1001":{"name":"鞋子","gold":{"total":300},"into":["3006"]},
        "3031":{"name":"无尽之刃","gold":{"total":3400},"into":[]},
        "3089":{"name":"灭世者的死亡之帽","gold":{"total":3600}},
        "1055":{"name":"多兰之剑","gold":{"total":450}}}}"#);
    let (c, i) = language_data(&champions, &items).unwrap();
    let catalog = catalog_of("14.23.1", c, i).unwrap();
    assert_eq!(catalog.version, "14.23.1");
    let ahri = &catalog.champions[0];
    assert_eq!((ahri.0.as_str(), ahri.1.key, ahri.1.name.as_str(), ahri.1.title.as_str()), ("Ahri", 103, "阿狸", "阿狸"));
    assert_eq!(catalog.champions[1].1.key, 1);
    assert!(!ahri.1.bundled);
    let finished: Vec<_> = catalog.items.iter().map(|(id, item)| (id.as_str(), item.gold, item.finished)).collect();
    assert_eq!(finished, vec![("1001", 300, false), ("1055", 450, false), ("3031", 3400, true), ("3089", 3600, true)]);

    let bad_key = json(r#"{"data":{"Ahri":{"key":null,"name":"Ahri"}}}"#);
    let (c, i) = language_data(&bad_key, &items).unwrap();
    assert_eq!(catalog_of("14.23.1", c, i).unwrap_err(), "game.invalidData");
    let too_big = json(r#"{"data":{"Ahri":{"key":"4294967296","name":"Ahri"}}}"#);
    let (c, i) = language_data(&too_big, &items).unwrap();
    assert!(catalog_of("14.23.1", c, i).is_err());
    let no_cost = json(r#"{"data":{"1001":{"name":"Boots","gold":{}}}}"#);
    let (c, i) = language_data(&champions, &no_cost).unwrap();
    assert!(catalog_of("14.23.1", c, i).is_err());
}

#[test]
fn other_languages_contribute_names_only() {
    let champions = json(r#"{"data":{"Ahri":{"key":"103","name":"Ahri"}}}"#);
    let items = json(r#"{"data":{"1001":{"name":"Boots"}}}"#);
    let (c, i) = language_data(&champions, &items).unwrap();
    let names = names_of(c, i).unwrap();
    assert_eq!(names.champions, vec![("Ahri".to_string(), "Ahri".to_string())]);
    assert_eq!(names.items, vec![("1001".to_string(), "Boots".to_string())]);
    let unnamed = json(r#"{"data":{"1001":{"gold":{"total":1}}}}"#);
    let (c, i) = language_data(&champions, &unnamed).unwrap();
    assert_eq!(names_of(c, i).unwrap_err(), "game.invalidData");
}

#[test]
fn documents_need_nonempty_data_and_stay_under_the_size_limit() {
    let some = json(r#"{"data":{"Ahri":{}}}"#);
    assert!(language_data(&json(r#"{"data":{}}"#), &some).is_err());
    assert!(language_data(&some, &json(r#"{"data":[]}"#)).is_err());
    assert!(language_data(&json("{}"), &some).is_err());
    assert_eq!(accept_document_chunk(16 * 1024 * 1024 - 1, 1).unwrap(), 16 * 1024 * 1024);
    assert_eq!(accept_document_chunk(16 * 1024 * 1024, 1).unwrap_err(), "game.invalidData");
    assert!(accept_document_chunk(usize::MAX, 1).is_err());
}

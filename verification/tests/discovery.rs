use league_replay::discovery::{
    choose_locale, install_path, installation_profile, installed_version, is_tencent, locale_of_file,
};
use league_replay::json::{Json, JsonNumber};

fn json(text: &str) -> Json {
    convert(serde_json::from_str(text).expect("test JSON"))
}

fn convert(v: serde_json::Value) -> Json {
    match v {
        serde_json::Value::Null => Json::Null,
        serde_json::Value::Bool(b) => Json::Bool(b),
        serde_json::Value::Number(n) => match (n.as_u64(), n.as_i64(), n.as_f64()) {
            (Some(u), _, _) => Json::Number(JsonNumber::Unsigned(u)),
            (None, Some(i), _) => Json::Number(JsonNumber::Negative(i)),
            (_, _, Some(f)) => Json::Number(JsonNumber::Float(f.to_bits())),
            _ => Json::Null,
        },
        serde_json::Value::String(s) => Json::Text(s),
        serde_json::Value::Array(a) => Json::Array(a.into_iter().map(convert).collect()),
        serde_json::Value::Object(m) => Json::Object(m.into_iter().map(|(k, v)| (k, convert(v))).collect()),
    }
}

fn names(list: &[&str]) -> Vec<String> {
    list.iter().map(|s| s.to_string()).collect()
}

#[test]
fn tencent_installs_are_recognised_by_their_code_metadata() {
    let code = json(r#"{"version":"16.18.8191953+branch.releases-16-18.code.publictencent"}"#);
    let locales = names(&["Global.zh_CN.wad.client", "readme.txt"]);
    let (version, tencent, locale) = installation_profile(Some(&code), None, false, false, &locales).unwrap();
    assert_eq!(version, "16.18.8191953+branch.releases-16-18.code.publictencent");
    assert!(tencent);
    assert_eq!(locale, "zh_CN");
    // A non-Tencent product needs its top-level client executable.
    let riot = json(r#"{"version":"14.23.1.1"}"#);
    assert!(installation_profile(None, Some(&riot), false, false, &names(&["Global.en_US.wad.client"])).is_none());
    let (_, tencent, locale) =
        installation_profile(None, Some(&riot), false, true, &names(&["Global.ko_KR.wad.client", "Global.en_US.wad.client"]))
            .unwrap();
    assert!(!tencent);
    assert_eq!(locale, "en_US");
    assert!(installation_profile(None, Some(&riot), false, true, &names(&["notes.txt"])).is_none());
    assert!(installation_profile(Some(&json(r#"{"version":"beta"}"#)), Some(&riot), false, true, &locales).is_none());
}

#[test]
fn versions_families_and_locales_follow_the_metadata() {
    let code = json(r#"{"version":"16.18.1"}"#);
    let compat = json(r#"{"version":"15.1.1"}"#);
    assert_eq!(installed_version(Some(&code), Some(&compat)).unwrap(), "16.18.1");
    assert_eq!(installed_version(Some(&json("{}")), Some(&compat)).unwrap(), "15.1.1");
    assert!(installed_version(None, None).is_none());
    assert!(is_tencent("16.18.1+PublicTENCENT", false));
    assert!(is_tencent("16.18.1", true));
    assert!(!is_tencent("16.18.1", false));
    assert_eq!(locale_of_file("Global.zh_CN.wad.client").unwrap(), "zh_CN");
    for invalid in ["Global..wad.client", "Global.zh-CN.wad.client", "Global.zh_CN.wad", "zh_CN.wad.client", &format!("Global.{}.wad.client", "a".repeat(17))] {
        assert!(locale_of_file(invalid).is_none(), "{invalid}");
    }
    assert_eq!(choose_locale(&names(&["ko_KR", "ZH_CN", "zh_CN"]), true).unwrap(), "ZH_CN");
    assert_eq!(choose_locale(&names(&["ko_KR", "ja_JP"]), true).unwrap(), "ja_JP");
    assert_eq!(choose_locale(&names(&["ko_KR", "en_US"]), false).unwrap(), "en_US");
    assert!(choose_locale(&names(&[]), false).is_none());
}

#[test]
fn product_settings_record_the_install_path() {
    let settings = "product_install_root: 'C:/Riot Games'\r\n  product_install_full_path: \"C:/Riot Games/League of Legends\"\r\nother: 1\n";
    assert_eq!(install_path(settings).unwrap(), "C:/Riot Games/League of Legends");
    assert_eq!(install_path("product_install_full_path:'D:/Games/LoL'").unwrap(), "D:/Games/LoL");
    assert_eq!(install_path("a: 1\nproduct_install_full_path: x\nproduct_install_full_path: y").unwrap(), "x");
    assert!(install_path("product_install_root: x\n").is_none());
    assert!(install_path("").is_none());
    assert_eq!(install_path("product_install_full_path:").unwrap(), "");
}

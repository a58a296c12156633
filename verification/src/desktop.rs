//! Desktop preferences: tray behaviour and interface language.
use vstd::prelude::*;
use crate::text::owned;

verus! {

pub struct Preferences {
    pub close_to_tray: bool,
    pub language: String,
}

impl Default for Preferences {
    fn default() -> (r: Self)
        ensures
            r.close_to_tray,
            r.language@ == "zh-CN"@,
    {
        Preferences { close_to_tray: true, language: owned("zh-CN") }
    }
}

/// What the settings page shows.
pub struct Settings {
    pub preferences: Preferences,
    pub autostart: bool,
}

/// Interface languages that preferences may select.
pub open spec fn supported_language(language: Seq<char>) -> bool {
    language == "zh-CN"@ || language == "en"@ || language == "ja"@ || language == "ko"@
}

/// Refuses preferences whose language the interface does not offer.
pub fn check_preferences(preferences: &Preferences) -> (r: Result<(), String>)
    ensures
        r is Ok <==> supported_language(preferences.language@),
        r matches Err(e) ==> e@ == "desktop.settingsError"@,
{
    let l = preferences.language.as_str();
    if crate::text::str_eq(l, "zh-CN") || crate::text::str_eq(l, "en") || crate::text::str_eq(l, "ja")
        || crate::text::str_eq(l, "ko") {
        Ok(())
    } else {
        Err(owned("desktop.settingsError"))
    }
}

/// The tray menu labels `(open, quit)` in a language; Chinese for any other language.
pub open spec fn spec_menu_labels(language: Seq<char>) -> (Seq<char>, Seq<char>) {
    if language == "en"@ {
        ("Open LeagueReplay"@, "Quit LeagueReplay"@)
    } else if language == "ja"@ {
        ("LeagueReplay を開く"@, "LeagueReplay を終了"@)
    } else if language == "ko"@ {
        ("LeagueReplay 열기"@, "LeagueReplay 종료"@)
    } else {
        ("打开 LeagueReplay"@, "退出 LeagueReplay"@)
    }
}

pub fn menu_labels(language: &str) -> (r: (&'static str, &'static str))
    ensures
        (r.0@, r.1@) == spec_menu_labels(language@),
{
    if crate::text::str_eq(language, "en") {
        ("Open LeagueReplay", "Quit LeagueReplay")
    } else if crate::text::str_eq(language, "ja") {
        ("LeagueReplay を開く", "LeagueReplay を終了")
    } else if crate::text::str_eq(language, "ko") {
        ("LeagueReplay 열기", "LeagueReplay 종료")
    } else {
        ("打开 LeagueReplay", "退出 LeagueReplay")
    }
}

/// Whether pixel `(x, y)` of the tray icon is drawn: a letter L with a pennant, inside a
/// margin of the 32 by 32 square.
pub open spec fn icon_lit(x: int, y: int) -> bool {
    &&& 4 <= y < 28
    &&& 5 <= x < 27
    &&& (x < 12 || y > 21 || (x > 17 && y < 19 && x - 17 < (if 19 - y <= y - 3 { 19 - y } else { y - 3 })))
}

/// Byte `i` of the tray icon's RGBA buffer, row by row: a drawn pixel is opaque gold
/// (201, 172, 112), any other pixel fully transparent.
pub open spec fn icon_byte(i: int) -> u8 {
    let p = i / 4;
    let c = i % 4;
    if icon_lit(p % 32, p / 32) {
        if c == 0 {
            201
        } else if c == 1 {
            172
        } else if c == 2 {
            112
        } else {
            255
        }
    } else {
        0
    }
}

/// The RGBA pixels of the tray icon; see `icon_byte`.
pub fn tray_icon() -> (r: Vec<u8>)
    ensures
        r@.len() == 4096,
        forall|i: int| 0 <= i < 4096 ==> r@[i] == icon_byte(i),
{
    let mut r: Vec<u8> = Vec::new();
    let mut p: usize = 0;
    while p < 1024
        invariant
            p <= 1024,
            r@.len() == 4 * p,
            forall|i: int| 0 <= i < 4 * p ==> r@[i] == icon_byte(i),
        decreases 1024 - p,
    {
        let x = p % 32;
        let y = p / 32;
        let lit = 4 <= y && y < 28 && 5 <= x && x < 27
            && (x < 12 || y > 21 || (x > 17 && y < 19 && x - 17 < (if 19 - y <= y - 3 { 19 - y } else { y - 3 })));
        assert(lit == icon_lit(x as int, y as int));
        let ghost before = r@;
        if lit {
            r.push(201);
            r.push(172);
            r.push(112);
            r.push(255);
        } else {
            r.push(0);
            r.push(0);
            r.push(0);
            r.push(0);
        }
        assert forall|i: int| 0 <= i < 4 * p + 4 implies r@[i] == icon_byte(i) by {
            if i >= 4 * p {
                assert(i / 4 == p && i % 4 == i - 4 * p);
            } else {
                assert(r@[i] == before[i]);
            }
        }
        p = p + 1;
    }
    r
}

} // verus!

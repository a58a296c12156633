use league_replay::desktop::{check_preferences, menu_labels, tray_icon, Preferences};

#[test]
fn the_tray_icon_draws_its_mark_in_gold() {
    let mut expected = vec![0u8; 32 * 32 * 4];
    for y in 4..28usize {
        for x in 5..27usize {
            if x < 12 || y > 21 || (x > 17 && y < 19 && x - 17 < (19 - y).min(y - 3)) {
                expected[(y * 32 + x) * 4..(y * 32 + x) * 4 + 4].copy_from_slice(&[201, 172, 112, 255]);
            }
        }
    }
    let icon = tray_icon();
    assert_eq!(icon, expected);
    assert_eq!(&icon[(4 * 32 + 5) * 4..(4 * 32 + 5) * 4 + 4], &[201, 172, 112, 255]);
    assert_eq!(&icon[0..4], &[0, 0, 0, 0]);
    assert_eq!(&icon[(10 * 32 + 15) * 4..(10 * 32 + 15) * 4 + 4], &[0, 0, 0, 0]);
}

#[test]
fn preferences_offer_four_languages() {
    let default = Preferences::default();
    assert!(default.close_to_tray);
    assert_eq!(default.language, "zh-CN");
    for language in ["zh-CN", "en", "ja", "ko"] {
        assert!(check_preferences(&Preferences { close_to_tray: false, language: language.to_string() }).is_ok());
    }
    assert_eq!(
        check_preferences(&Preferences { close_to_tray: true, language: "fr".to_string() }).unwrap_err(),
        "desktop.settingsError"
    );
    assert_eq!(menu_labels("en"), ("Open LeagueReplay", "Quit LeagueReplay"));
    assert_eq!(menu_labels("fr"), ("打开 LeagueReplay", "退出 LeagueReplay"));
}

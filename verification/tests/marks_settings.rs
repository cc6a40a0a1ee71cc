use bibledesk::marks::{drag_continues, drag_starts, toggle_marker};
use bibledesk::marks::{mark_color, mark_color_opaque, mark_text_color, should_apply_mark, word_mark_action, Rgba, WordMarkAction};
use bibledesk::settings::{Language, Settings};

fn rgb(r: u8, g: u8, b: u8) -> Rgba {
    Rgba { r, g, b, a: 255 }
}

#[test]
fn mark_colors() {
    assert_eq!(mark_color("yellow"), rgb(255, 220, 40));
    assert_eq!(mark_color("green"), rgb(50, 190, 70));
    assert_eq!(mark_color("blue"), rgb(80, 150, 255));
    assert_eq!(mark_color("pink"), rgb(255, 110, 170));
    assert_eq!(mark_color("purple"), Rgba { r: 0, g: 0, b: 0, a: 0 });
    assert_eq!(mark_text_color("yellow"), rgb(30, 20, 0));
    assert_eq!(mark_text_color("blue"), rgb(255, 255, 255));
    assert_eq!(mark_text_color("pink"), rgb(0, 0, 0));
    assert_eq!(mark_text_color("other"), rgb(0, 0, 0));
    assert_eq!(mark_color_opaque("pink"), rgb(240, 90, 150));
    assert_eq!(mark_color_opaque("none"), Rgba { r: 0, g: 0, b: 0, a: 0 });
}

#[test]
fn marker_toggles() {
    assert_eq!(word_mark_action(Some("yellow"), None, true), WordMarkAction::Mark);
    assert_eq!(word_mark_action(Some("yellow"), Some("yellow"), true), WordMarkAction::Clear);
    assert_eq!(word_mark_action(Some("yellow"), Some("blue"), true), WordMarkAction::Mark);
    assert_eq!(word_mark_action(None, Some("blue"), true), WordMarkAction::Keep);
    assert_eq!(word_mark_action(Some("yellow"), None, false), WordMarkAction::Keep);
}

#[test]
fn marker_application() {
    assert!(should_apply_mark(true, false, false, false, false));
    assert!(should_apply_mark(false, true, true, true, true));
    assert!(!should_apply_mark(false, true, true, false, true));
    assert!(!should_apply_mark(false, true, false, true, true));
}

#[test]
fn default_settings() {
    let s = Settings::default();
    assert_eq!(s.language, Language::English);
    assert_eq!(s.default_translation, "kjv");
    assert!(s.dark_mode);
    assert_eq!(s.dark_mode_value(), "true");
}

#[test]
fn stored_settings() {
    let s = Settings::from_stored(Some("de".to_string()), Some("luther1912".to_string()), Some("false".to_string()));
    assert_eq!(s.language, Language::German);
    assert_eq!(s.default_translation, "luther1912");
    assert!(!s.dark_mode);
    let s = Settings::from_stored(Some("xx".to_string()), None, Some("yes".to_string()));
    assert_eq!(s.language, Language::English);
    assert_eq!(s.default_translation, "kjv");
    assert!(!s.dark_mode);
    let s = Settings::from_stored(None, None, None);
    assert!(s.dark_mode);
}

#[test]
fn settings_round_trip() {
    for (l, t, d) in [(Language::German, "asv", false), (Language::English, "kjv", true)] {
        let s = Settings { language: l, default_translation: t.to_string(), dark_mode: d };
        let back = Settings::from_stored(
            Some(s.language.code().to_string()),
            Some(s.default_translation.clone()),
            Some(s.dark_mode_value().to_string()),
        );
        assert_eq!(back.language, s.language);
        assert_eq!(back.default_translation, s.default_translation);
        assert_eq!(back.dark_mode, s.dark_mode);
    }
    assert_eq!(Language::from_code(Language::German.code()), Language::German);
    assert_eq!(Language::German.name(), "Deutsch");
    assert_eq!(Language::English.name(), "English");
}

#[test]
fn marker_toolbar_and_drag() {
    assert_eq!(toggle_marker(None, "pink"), Some("pink"));
    assert_eq!(toggle_marker(Some("pink"), "pink"), None);
    assert_eq!(toggle_marker(Some("blue"), "pink"), Some("pink"));
    assert!(drag_continues(true, true));
    assert!(!drag_continues(true, false));
    assert!(!drag_continues(false, true));
    assert!(drag_starts(true, true));
    assert!(!drag_starts(true, false));
}

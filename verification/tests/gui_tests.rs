use musicdb::filter::{Filter, FilterType, GeneralData};
use musicdb::gui_model::{
    default_filter_presets, hotkey_deselect_all, hotkey_select_albums, hotkey_select_all, hotkey_select_songs,
    check_font, key_watch_ctrl, ConfigError, FontCheck, GuiConfig, Key, KeyActionId, Modifiers,
};
use musicdb::labels::{fmt_dur, get_label_text, selection_counter_text, QueueDuration};
use musicdb::textcfg::TextBuilderParseError;
use musicdb::updatable::Updatable;

fn m(ctrl: bool, shift: bool, alt: bool, logo: bool) -> Modifiers {
    Modifiers { logo, alt, ctrl, shift }
}

#[test]
fn hotkeys() {
    assert!(hotkey_deselect_all(&m(true, false, false, false), Some(Key::S)));
    assert!(!hotkey_deselect_all(&m(true, true, false, false), Some(Key::S)));
    assert!(hotkey_select_all(&m(true, false, false, false), Some(Key::A)));
    assert!(!hotkey_select_all(&m(true, false, true, false), Some(Key::A)));
    assert!(hotkey_select_albums(&m(true, true, false, false), Some(Key::A)));
    assert!(hotkey_select_songs(&m(true, true, false, false), Some(Key::S)));
    assert!(!hotkey_select_songs(&m(true, true, false, false), None));
    assert!(!hotkey_select_songs(&m(false, true, false, false), Some(Key::S)));
}

#[test]
fn ctrl_watch() {
    assert!(key_watch_ctrl(&m(false, false, false, false), true, Some(Key::LControl)));
    assert!(!key_watch_ctrl(&m(true, false, false, false), false, Some(Key::RControl)));
    assert!(key_watch_ctrl(&m(true, false, false, false), false, Some(Key::A)));
    assert!(!key_watch_ctrl(&m(false, false, false, false), true, None));
}

#[test]
fn key_action_ids() {
    assert_eq!(KeyActionId(4).get_index(), 4);
}

#[test]
fn config_texts() {
    let cfg = GuiConfig::from_text_section(Some((Some("\\t"), Some("x"), Some(""), Some("\\A")))).ok().unwrap();
    assert_eq!(cfg.filter_presets_song.len(), 2);
    assert_eq!(cfg.filter_presets_album[1].1, FilterType::TagWithValueInt("Year=".to_string(), 1990, 2000));
    assert!(matches!(GuiConfig::from_text_section(None), Err(ConfigError::MissingTextSection)));
    assert!(matches!(
        GuiConfig::from_text_section(Some((Some("a"), None, Some("b"), None))),
        Err(ConfigError::MissingText(n)) if n == "idle_top"
    ));
    match GuiConfig::from_text_section(Some((Some("a"), Some("b"), Some("%"), Some("d")))) {
        Err(ConfigError::BadText(n, e)) => {
            assert_eq!(n, "idle_side1");
            assert_eq!(e, TextBuilderParseError::UnclosedPercent);
        },
        _ => panic!("expected a parse error"),
    }
    assert_eq!(ConfigError::MissingTextSection.exit_code(), 30);
    let p = default_filter_presets();
    assert_eq!(p[0].0, "Fav");
    assert_eq!(p[0].1, FilterType::TagEq("Fav".to_string()));
}

#[test]
fn queue_durations() {
    let d = |infinite, millis, random_counter| QueueDuration { infinite, millis, random_counter };
    assert_eq!(fmt_dur(d(true, 5, 5)), "\u{221e}");
    assert_eq!(fmt_dur(d(false, 65_000, 0)), "01:05");
    assert_eq!(fmt_dur(d(false, 3_725_000, 0)), "1:02:05");
    assert_eq!(fmt_dur(d(false, 65_000, 2)), "01:05 + 2 random songs");
    assert_eq!(fmt_dur(d(false, 0, 3)), "3 random songs");
}

#[test]
fn loop_labels() {
    assert_eq!(get_label_text(Some(0)), "repeat forever");
    assert_eq!(get_label_text(Some(1)), "repeat 1 time");
    assert_eq!(get_label_text(Some(12)), "repeat 12 times");
    assert_eq!(get_label_text(None), "[???]");
}

#[test]
fn selection_texts() {
    assert_eq!(selection_counter_text(0, 0, 0), None);
    assert_eq!(selection_counter_text(0, 0, 1).unwrap(), "1 song selected");
    assert_eq!(selection_counter_text(0, 2, 0).unwrap(), "2 albums selected");
    assert_eq!(selection_counter_text(1, 0, 3).unwrap(), "3 songs and 1 artist selected");
    assert_eq!(selection_counter_text(2, 1, 0).unwrap(), "1 album and 2 artists selected");
    assert_eq!(selection_counter_text(1, 1, 1).unwrap(), "1 song, 1 album and 1 artist selected");
    assert_eq!(selection_counter_text(3, 2, 1).unwrap(), "1 song, 2 albums and 3 artist selected");
    assert_eq!(selection_counter_text(3, 2, 4).unwrap(), "4 songs, 2 albums and 3 artists selected");
}

#[test]
fn updatable_value_taken_once() {
    let mut u: Updatable<u32> = Updatable::new();
    assert_eq!(u.take_val(), None);
    u.update(5);
    u.update(6);
    assert_eq!(u.take_val(), Some(6));
    assert_eq!(u.take_val(), None);
    let r = u.modify(|v| (v + 1, v * 10));
    assert_eq!(r, 0);
    assert_eq!(u.take_val(), Some(1));
}

fn gd(t: &[&str]) -> GeneralData {
    GeneralData { tags: t.iter().map(|s| s.to_string()).collect() }
}

#[test]
fn filters() {
    let year = FilterType::TagWithValueInt("Year=".to_string(), 1990, 2000);
    assert!(year.passes(&gd(&["Year=1995"])));
    assert!(year.passes(&gd(&["Year=2000"])));
    assert!(!year.passes(&gd(&["Year=2001"])));
    assert!(!year.passes(&gd(&["Year=19x5"])));
    assert!(year.passes(&gd(&["Year=abc", "Year=+1990"])));
    let f = Filter { and: false, filters: vec![FilterType::TagEq("a".to_string()), FilterType::TagStartsWith("b".to_string())] };
    assert!(f.passes(&gd(&["bc"])));
    assert!(!f.passes(&gd(&["c"])));
    let g = Filter { and: true, filters: vec![FilterType::TagEq("a".to_string()), FilterType::Not(Filter { and: true, filters: vec![FilterType::TagEq("b".to_string())] })] };
    assert!(g.passes(&gd(&["a"])));
    assert!(!g.passes(&gd(&["a", "b"])));
    assert!(Filter { and: true, filters: vec![] }.passes(&gd(&[])));
    assert!(Filter { and: false, filters: vec![] }.passes(&gd(&[])));
}

#[test]
fn filter_paths() {
    let mut f = Filter { and: true, filters: vec![FilterType::Nested(Filter { and: false, filters: vec![FilterType::TagEq("x".to_string())] })] };
    match f.get_mut(&[0, 0]) {
        Some(Ok(FilterType::TagEq(v))) => *v = "y".to_string(),
        _ => panic!(),
    }
    assert!(matches!(f.get_mut(&[0]), Some(Ok(FilterType::Nested(_)))));
    assert!(matches!(f.get_mut(&[]), Some(Err(_))));
    assert!(f.get_mut(&[1]).is_none());
    assert!(f.get_mut(&[0, 0, 0]).is_none());
    let mut t = FilterType::Not(Filter { and: true, filters: vec![] });
    assert!(t.inner_filter().is_some());
    assert!(FilterType::TagEq("x".to_string()).inner_filter().is_none());
    assert_eq!(f.filters[0], FilterType::Nested(Filter { and: false, filters: vec![FilterType::TagEq("y".to_string())] }));
}

#[test]
fn modify_starts_from_the_default() {
    let mut u: Updatable<i32> = Updatable::new();
    let r = u.modify(|x| (x + 5, (x + 5) * 2));
    assert_eq!(r, 10);
    assert_eq!(u.take_val(), Some(5));
}

const CONFIG: &str = "font = '/fonts/a.ttf'\nline_height = 30.0\n\n[text]\nstatus_bar = 'x'\nidle_top = '\\t'\nidle_side1 = ''\nidle_side2 = 'y'\n";

#[test]
fn config_text_is_read_as_toml() {
    let (font, texts) = GuiConfig::from_config_text(CONFIG).ok().unwrap();
    assert_eq!(font.as_deref(), Some("/fonts/a.ttf"));
    let cfg = texts.ok().unwrap();
    assert_eq!(cfg.filter_presets_artist.len(), 2);
    assert!(matches!(GuiConfig::from_config_text("font = = 'x'"), Err(ConfigError::NotToml)));
    assert!(matches!(GuiConfig::from_config_text("[text]\n[text]\n"), Err(ConfigError::NotToml)));
    assert_eq!(ConfigError::NotToml.exit_code(), 30);
}

#[test]
fn config_text_values_that_are_not_strings_count_as_missing() {
    let (font, texts) = GuiConfig::from_config_text("font = 3\n").ok().unwrap();
    assert_eq!(font, None);
    assert!(matches!(texts, Err(ConfigError::MissingTextSection)));
    let (font, texts) = GuiConfig::from_config_text("text = 'no table'\n").ok().unwrap();
    assert_eq!(font, None);
    assert!(matches!(texts, Err(ConfigError::MissingTextSection)));
    let (_, texts) =
        GuiConfig::from_config_text("[text]\nstatus_bar = 'a'\nidle_top = 2\nidle_side1 = 'b'\nidle_side2 = 'c'\n")
            .ok()
            .unwrap();
    assert!(matches!(texts, Err(ConfigError::MissingText(n)) if n == "idle_top"));
    let (_, texts) =
        GuiConfig::from_config_text("[text]\nstatus_bar = 'a'\nidle_top = 'b'\nidle_side1 = '%'\nidle_side2 = 'c'\n")
            .ok()
            .unwrap();
    assert!(matches!(texts, Err(ConfigError::BadText(n, TextBuilderParseError::UnclosedPercent)) if n == "idle_side1"));
}

#[test]
fn a_font_is_required() {
    assert_eq!(check_font(None), FontCheck::Unreadable);
    assert_eq!(check_font(Some(b"not a font".as_slice())), FontCheck::Unloadable);
    assert_eq!(check_font(Some(&[])), FontCheck::Unloadable);
    let cfg = || GuiConfig::from_config_text(CONFIG).ok().unwrap().1;
    assert!(GuiConfig::require_font(cfg(), Some(FontCheck::Loaded)).is_ok());
    for font in [None, Some(FontCheck::Unreadable), Some(FontCheck::Unloadable)] {
        let r = GuiConfig::require_font(cfg(), font);
        assert!(matches!(r, Err(ConfigError::MissingFont)));
    }
    let missing = GuiConfig::require_font(Err(ConfigError::MissingTextSection), Some(FontCheck::Loaded));
    assert!(matches!(missing, Err(ConfigError::MissingTextSection)));
    assert_eq!(ConfigError::MissingFont.exit_code(), 30);
}

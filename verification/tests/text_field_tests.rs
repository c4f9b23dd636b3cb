use musicdb::gui_model::Modifiers;
use musicdb::keys::{captured_binding, space_command, Hotkey, KeyBinding, PlaybackCommand};
use musicdb::text_field::{key_into, type_char, type_into};

fn mods(ctrl: bool, alt: bool, shift: bool, logo: bool) -> Modifiers {
    Modifiers { logo, alt, ctrl, shift }
}

fn none() -> Modifiers {
    mods(false, false, false, false)
}

#[test]
fn typing_appends_plain_characters() {
    assert_eq!(type_char("ab", &none(), 'c').as_deref(), Some("abc"));
    assert_eq!(type_char("", &mods(false, false, true, false), 'Ä').as_deref(), Some("Ä"));
    assert_eq!(type_char("ab", &mods(true, false, false, false), 'c'), None);
    assert_eq!(type_char("ab", &mods(false, true, false, false), 'c'), None);
    assert_eq!(type_char("ab", &mods(false, false, false, true), 'c'), None);
    assert_eq!(type_char("ab", &none(), '\n'), None);
    assert_eq!(type_char("ab", &none(), '\u{7f}'), None);
    assert_eq!(type_into("ab", &none(), 'x', true), None);
    assert_eq!(type_into("ab", &none(), 'x', false).as_deref(), Some("abx"));
}

#[test]
fn backspace_erases_a_character() {
    assert_eq!(key_into("abc", &none(), true, true).as_deref(), Some("ab"));
    assert_eq!(key_into("a", &mods(false, false, true, false), true, true).as_deref(), Some(""));
    assert_eq!(key_into("", &none(), true, true), None);
    assert_eq!(key_into("abc", &none(), false, true), None);
    assert_eq!(key_into("abc", &none(), true, false), None);
    assert_eq!(key_into("abc", &mods(false, true, false, false), true, true), None);
    assert_eq!(key_into("abc", &mods(false, false, false, true), true, true), None);
}

#[test]
fn ctrl_backspace_erases_a_word() {
    let ctrl = mods(true, false, false, false);
    assert_eq!(key_into("foo bar", &ctrl, true, true).as_deref(), Some("foo"));
    assert_eq!(key_into("foo bar  ", &ctrl, true, true).as_deref(), Some("foo"));
    assert_eq!(key_into("foo  bar", &ctrl, true, true).as_deref(), Some("foo"));
    assert_eq!(key_into("word", &ctrl, true, true).as_deref(), Some(""));
    assert_eq!(key_into("   ", &ctrl, true, true).as_deref(), Some(""));
}

#[test]
fn hotkeys_follow_their_modifier_bits() {
    let esc = 9u32;
    let h = Hotkey::new_noshift(esc);
    assert!(h.triggered(&none(), false, Some(esc)));
    assert!(!h.triggered(&none(), true, Some(esc)));
    assert!(!h.triggered(&none(), false, Some(10)));
    assert!(!h.triggered(&none(), false, None));
    assert!(!h.triggered(&mods(false, false, true, false), false, Some(esc)));
    assert!(!h.triggered(&mods(true, false, false, false), false, Some(esc)));
    let k = Hotkey::new_key(esc);
    assert!(k.triggered(&none(), false, Some(esc)));
    assert!(k.triggered(&mods(false, false, true, false), false, Some(esc)));
    assert!(!k.triggered(&mods(false, true, false, false), false, Some(esc)));
    let c = Hotkey::new_ctrl_shift(esc);
    assert!(c.triggered(&mods(true, false, true, false), false, Some(esc)));
    assert!(!c.triggered(&mods(true, false, false, false), false, Some(esc)));
    let a = Hotkey::new_ctrl_alt(esc);
    assert!(a.triggered(&mods(true, true, false, false), false, Some(esc)));
    assert!(!a.triggered(&mods(true, true, true, false), false, Some(esc)));
    assert!(!Hotkey::new(255, esc).triggered(&none(), false, Some(esc)));
    assert_eq!(Hotkey::new_alt_shift(3).modifiers, 0b010100);
    assert_eq!(Hotkey::new_ctrl_alt_shift(3).modifiers, 0b010101);
    assert_eq!(Hotkey::new_shift(3).modifiers, 0b0100);
    assert_eq!(Hotkey::new_ctrl(3).modifiers, 0b01);
    assert_eq!(Hotkey::new_alt(3).modifiers, 0b010000);
}

#[test]
fn binding_capture_skips_modifier_keys() {
    let m = mods(true, false, true, false);
    assert_eq!(captured_binding(true, &m, true, Some(38), false), Some(KeyBinding { modifiers: 5, key: 38 }));
    assert_eq!(captured_binding(true, &m, true, Some(29), true), None);
    assert_eq!(captured_binding(false, &m, true, Some(38), false), None);
    assert_eq!(captured_binding(true, &m, false, Some(38), false), None);
    assert_eq!(captured_binding(true, &m, true, None, false), None);
}

#[test]
fn space_pauses_or_resumes() {
    assert_eq!(space_command(&none(), ' ', true), Some(PlaybackCommand::Pause));
    assert_eq!(space_command(&mods(false, false, true, false), ' ', false), Some(PlaybackCommand::Resume));
    assert_eq!(space_command(&mods(true, false, false, false), ' ', true), None);
    assert_eq!(space_command(&none(), 'x', true), None);
}

#[test]
fn control_codes_are_the_c0_and_c1_ranges() {
    for c in ['\u{0}', '\u{1f}', '\u{7f}', '\u{85}', '\u{9f}'] {
        assert_eq!(type_char("", &none(), c), None);
    }
    for c in [' ', '~', '\u{a0}', '\u{200b}'] {
        assert_eq!(type_char("", &none(), c), Some(c.to_string()));
    }
}

#[test]
fn control_codes_agree_with_std() {
    for c in '\0'..=char::MAX {
        let expected = if c.is_control() { None } else { Some(c.to_string()) };
        assert_eq!(type_char("", &none(), c), expected);
    }
}

use std::collections::HashMap;

use musicdb::filter::GeneralData;
use musicdb::gui_model::{KeyActionId, Modifiers};
use musicdb::keys::{KeyActionInfo, KeyActions, KeyBinding, KeyRelease, Keybinds};
use musicdb::library::{Artist, Library};
use musicdb::name_search::{contains_text, matching_artists, matching_playlists, ArtistPicker};

#[test]
fn binding_modifiers() {
    let b = KeyBinding::new(&Modifiers { logo: false, alt: true, ctrl: true, shift: false }, 30);
    assert_eq!(b.modifiers, 3);
    assert!(b.get_ctrl() && b.get_alt() && !b.get_shift() && !b.get_meta());
    let b = KeyBinding::new(&Modifiers { logo: true, alt: false, ctrl: false, shift: true }, 1);
    assert_eq!(b.modifiers, 12);
    assert_eq!(KeyBinding::ctrl(5), KeyBinding { modifiers: 1, key: 5 });
    assert_eq!(KeyBinding::ctrl_shift(5), KeyBinding { modifiers: 5, key: 5 });
}

fn info(enabled: bool) -> KeyActionInfo {
    KeyActionInfo { category: "c".into(), title: "t".into(), description: "d".into(), enabled }
}

#[test]
fn actions_and_binds() {
    let mut actions = KeyActions::new();
    let a = actions.add(info(true));
    let b = actions.add(info(false));
    assert_eq!((a.get_index(), b.get_index()), (0, 1));
    assert!(actions.actions[0].runs());
    assert!(!actions.actions[1].runs());
    let mut binds = Keybinds::new();
    binds.bind(Some(KeyBinding::ctrl(10)), a);
    binds.bind(None, b);
    binds.bind(Some(KeyBinding::ctrl(11)), a);
    assert_eq!(binds.get(KeyBinding::ctrl(10)), Some(KeyActionId(0)));
    assert_eq!(binds.get(KeyBinding::ctrl(12)), None);
    // rebinding drops every earlier binding of the action
    binds.set(a, Some(KeyBinding::ctrl_shift(10)));
    assert_eq!(binds.get(KeyBinding::ctrl(10)), None);
    assert_eq!(binds.get(KeyBinding::ctrl(11)), None);
    assert_eq!(binds.get(KeyBinding::ctrl_shift(10)), Some(KeyActionId(0)));
    binds.bind(Some(KeyBinding::ctrl(1)), b);
    binds.set(a, None);
    assert_eq!(binds.map.len(), 1);
    assert_eq!(binds.get(KeyBinding::ctrl(1)), Some(KeyActionId(1)));
}

#[test]
fn substring_search() {
    assert!(contains_text("hello world", "o w"));
    assert!(contains_text("abc", ""));
    assert!(!contains_text("abc", "abcd"));
    assert!(!contains_text("abc", "ac"));
    assert!(contains_text("aab", "ab"));
}

#[test]
fn playlist_search() {
    let names = vec!["Morning".to_string(), "Evening".to_string(), "Party MIX".to_string()];
    assert_eq!(matching_playlists(&names, "ning"), vec![0, 1]);
    assert_eq!(matching_playlists(&names, "MiX"), vec![2]);
    assert_eq!(matching_playlists(&names, ""), vec![0, 1, 2]);
    assert!(matching_playlists(&names, "zzz").is_empty());
}

#[test]
fn artist_picker() {
    let mut artists = HashMap::new();
    for (id, name) in [(1u64, "ABBA"), (2, "Black Sabbath"), (3, "Queen")] {
        artists.insert(id, Artist { name: name.into(), cover: None, general: GeneralData { tags: vec![] }, albums: vec![], singles: vec![] });
    }
    let db = Library { artists, albums: HashMap::new(), songs: HashMap::new() };
    let mut found: Vec<u64> = matching_artists(&db, "abb").into_iter().map(|(_, id)| id).collect();
    found.sort();
    assert_eq!(found, vec![1, 2]);
    let mut p = ArtistPicker { last_search: String::new(), chosen: Some(3) };
    assert!(!p.take_search(""));
    assert_eq!(p.chosen, Some(3));
    assert!(p.take_search("AB"));
    assert_eq!(p.last_search, "ab");
    assert_eq!(p.chosen, None);
    p.pick("ABBA", 1);
    assert_eq!(p.chosen, Some(1));
    assert!(!p.take_search("Abba"));
    assert_eq!(p.chosen, Some(1));
}

fn info_in(category: &str) -> KeyActionInfo {
    KeyActionInfo { category: category.into(), title: "t".into(), description: "d".into(), enabled: true }
}

#[test]
fn settings_list_by_category() {
    let mut actions = KeyActions::new();
    let general = actions.add(info_in("General"));
    let library = actions.add(info_in("Library"));
    let quit = actions.add(info_in("General"));
    let mut binds = Keybinds::new();
    binds.bind(Some(KeyBinding { modifiers: 1, key: 24 }), general);
    binds.bind(Some(KeyBinding { modifiers: 5, key: 30 }), quit);
    binds.bind(Some(KeyBinding { modifiers: 1, key: 30 }), quit);
    assert_eq!(library.get_index(), 1);
    let list = binds.settings_entries(&actions);
    assert_eq!(
        list,
        vec![
            (0, Some(KeyBinding { modifiers: 1, key: 24 })),
            (2, Some(KeyBinding { modifiers: 5, key: 30 })),
            (1, None)
        ]
    );
}

#[test]
fn releasing_a_bound_key() {
    let mut actions = KeyActions::new();
    let on = actions.add(info(true));
    let off = actions.add(info(false));
    let mut binds = Keybinds::new();
    binds.bind(Some(KeyBinding::ctrl(10)), on);
    binds.bind(Some(KeyBinding::ctrl(11)), off);
    let ctrl = Modifiers { logo: false, alt: false, ctrl: true, shift: false };
    let plain = Modifiers { logo: false, alt: false, ctrl: false, shift: false };
    assert_eq!(binds.on_release(&actions, false, &ctrl, Some(10)), KeyRelease::Run(KeyActionId(0)));
    assert_eq!(binds.on_release(&actions, false, &ctrl, Some(11)), KeyRelease::Swallowed);
    assert_eq!(binds.on_release(&actions, false, &ctrl, Some(12)), KeyRelease::PassOn);
    assert_eq!(binds.on_release(&actions, false, &plain, Some(10)), KeyRelease::PassOn);
    assert_eq!(binds.on_release(&actions, true, &ctrl, Some(10)), KeyRelease::PassOn);
    assert_eq!(binds.on_release(&actions, false, &ctrl, None), KeyRelease::PassOn);
}

use musicdb::filter::GeneralData;
use musicdb::library::{Album, Song};
use musicdb::tag_edit::{
    add_tag, add_tag_row, bundle, collect_tags, edit_album, edit_song, editing_label, new_title, remove_tag, rename_tags,
    title_hint, remove_tag_rows, Changes, TagRow,
};

fn gd(t: &[&str]) -> GeneralData {
    GeneralData { tags: t.iter().map(|s| s.to_string()).collect() }
}

#[test]
fn tags_listed_once_in_order() {
    let items = vec![gd(&["a", "b"]), gd(&["b", "c", "a"]), gd(&[])];
    assert_eq!(collect_tags(&items), vec!["a", "b", "c"]);
    assert!(collect_tags(&vec![]).is_empty());
}

#[test]
fn adding_a_tag() {
    let mut items = vec![gd(&["a"]), gd(&["x"])];
    add_tag(&mut items, &"a".to_string());
    assert_eq!(items[0].tags, vec!["a"]);
    assert_eq!(items[1].tags, vec!["x", "a"]);
    add_tag(&mut items, &"a".to_string());
    assert_eq!(items[1].tags, vec!["x", "a"]);
}

#[test]
fn removing_a_tag_removes_every_copy() {
    let mut items = vec![gd(&["a", "b", "a"]), gd(&["c"])];
    remove_tag(&mut items, "a");
    assert_eq!(items[0].tags, vec!["b"]);
    assert_eq!(items[1].tags, vec!["c"]);
}

#[test]
fn renaming_tags_in_order() {
    let mut items = vec![gd(&["x", "y", "z"])];
    let edits = vec![("x".to_string(), "y".to_string()), ("y".to_string(), "w".to_string())];
    rename_tags(&mut items, &edits);
    // x became y, then both y became w
    assert_eq!(items[0].tags, vec!["w", "w", "z"]);
}

#[test]
fn title_is_trimmed() {
    assert_eq!(new_title("  Hello World \t"), Some("Hello World".to_string()));
    assert_eq!(new_title("\u{3000}x\u{a0}"), Some("x".to_string()));
    assert_eq!(new_title("   "), None);
    assert_eq!(new_title(""), None);
    for t in [" a ", "b", "\n c\r\n", "  "] {
        let expected = if t.trim().is_empty() { None } else { Some(t.trim().to_string()) };
        assert_eq!(new_title(t), expected);
    }
}

#[test]
fn hints_and_labels() {
    assert_eq!(title_hint("Title", &vec!["a".to_string(), "b".to_string(), "c".to_string()]), "Title (a, b, c)");
    assert_eq!(title_hint("Name", &vec!["x".to_string()]), "Name (x)");
    assert_eq!(title_hint("Name", &vec![]), "Name ()");
    assert_eq!(editing_label(3, "songs"), "Editing 3 songs");
    assert_eq!(editing_label(0, "albums"), "Editing 0 albums");
}

#[test]
fn changes_are_bundled() {
    assert!(bundle::<u8>(vec![]).is_none());
    assert!(matches!(bundle(vec![5u8]), Some(Changes::One(5))));
    assert!(matches!(bundle(vec![1u8, 2]), Some(Changes::Many(v)) if v == vec![1, 2]));
}

#[test]
fn song_and_album_edits() {
    let s = Song { title: "t".into(), album: Some(3), artist: 1, cover: Some(4), general: gd(&["k"]), duration_millis: 9 };
    let e = edit_song(&s, &Some("New".to_string()), Some(2));
    assert_eq!(e.title, "New");
    assert_eq!(e.artist, 2);
    assert_eq!(e.album, None);
    assert_eq!(e.cover, Some(4));
    assert_eq!(e.general.tags, vec!["k"]);
    let e = edit_song(&s, &None, None);
    assert_eq!(e.title, "t");
    assert_eq!(e.album, Some(3));
    let a = Album { name: "n".into(), artist: 1, cover: None, general: gd(&[]), songs: vec![1, 2] };
    let e = edit_album(&a, &None, Some(8));
    assert_eq!(e.name, "n");
    assert_eq!(e.artist, 8);
    assert_eq!(e.songs, vec![1, 2]);
}

fn rows(tags: &[&str]) -> Vec<TagRow> {
    tags.iter().enumerate().map(|(i, t)| TagRow { tag: t.to_string(), index: i }).collect()
}

fn row_view(r: &[TagRow]) -> Vec<(String, usize)> {
    r.iter().map(|x| (x.tag.clone(), x.index)).collect()
}

#[test]
fn tag_rows_lose_a_removed_tag_and_renumber() {
    let mut r = rows(&["a", "b", "a", "c"]);
    assert!(remove_tag_rows(&mut r, "a"));
    assert_eq!(row_view(&r), vec![("b".to_string(), 0), ("c".to_string(), 1)]);
    let mut r = rows(&["a", "b", "c"]);
    assert!(!remove_tag_rows(&mut r, "c"));
    assert_eq!(row_view(&r), vec![("a".to_string(), 0), ("b".to_string(), 1)]);
    let mut r = rows(&["a"]);
    assert!(!remove_tag_rows(&mut r, "x"));
    assert_eq!(row_view(&r), vec![("a".to_string(), 0)]);
}

#[test]
fn tag_rows_gain_an_added_tag() {
    let mut r = rows(&["a"]);
    assert!(add_tag_row(&mut r, "b".to_string()));
    assert_eq!(row_view(&r), vec![("a".to_string(), 0), ("b".to_string(), 1)]);
}

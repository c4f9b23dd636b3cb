use std::collections::HashMap;

use musicdb::browser::{LibraryBrowser, SearchInput};
use musicdb::filter::{Filter, GeneralData};
use musicdb::library::{Album, Artist, Library, LibrarySearch, Song};
use musicdb::search::SearchField;

fn gd() -> GeneralData {
    GeneralData { tags: vec![] }
}

fn db() -> Library {
    let mut artists = HashMap::new();
    artists.insert(1, Artist { name: "B".into(), cover: None, general: gd(), albums: vec![21], singles: vec![] });
    artists.insert(2, Artist { name: "A".into(), cover: None, general: gd(), albums: vec![22], singles: vec![] });
    let mut albums = HashMap::new();
    albums.insert(21, Album { name: "First".into(), artist: 1, cover: None, general: gd(), songs: vec![11] });
    albums.insert(22, Album { name: "Second".into(), artist: 2, cover: None, general: gd(), songs: vec![12] });
    let mut songs = HashMap::new();
    songs.insert(11, Song { title: "one".into(), album: Some(21), artist: 1, cover: None, general: gd(), duration_millis: 0 });
    songs.insert(12, Song { title: "two".into(), album: Some(22), artist: 2, cover: None, general: gd(), duration_millis: 0 });
    Library { artists, albums, songs }
}

fn browser() -> LibraryBrowser {
    let f = || SearchField::new(String::new(), false, Filter { and: true, filters: vec![] });
    LibraryBrowser::new(LibrarySearch { prefer_start: true, artist: f(), album: f(), song: f() }, false)
}

fn input(text: &str, edited: bool) -> SearchInput<'_> {
    SearchInput { text, edited }
}

#[test]
fn first_refresh_sorts_and_filters() {
    let db = db();
    let mut b = browser();
    let changed = b.update_search(false, false, true, &input("", false), &input("", false), &input("", false));
    assert!(!changed);
    assert_eq!(b.refresh(&db, changed), None);
    assert!(!b.library_updated);
    assert_eq!(b.sorted.iter().map(|e| e.id).collect::<Vec<_>>(), vec![2, 1]);
    assert_eq!(b.filtered.iter().map(|e| e.id).collect::<Vec<_>>(), vec![2, 1]);
}

#[test]
fn typing_narrows_the_view() {
    let db = db();
    let mut b = browser();
    b.refresh(&db, false);
    let changed = b.update_search(false, false, true, &input("", false), &input("", false), &input("two", true));
    assert!(changed);
    assert_eq!(b.search.song.text, "two");
    b.refresh(&db, changed);
    assert_eq!(b.filtered.iter().map(|e| e.id).collect::<Vec<_>>(), vec![2]);
    // the same text again is no change
    let changed = b.update_search(false, false, true, &input("", false), &input("", false), &input("two", true));
    assert!(!changed);
}

#[test]
fn case_change_recompiles() {
    let db = db();
    let mut b = browser();
    b.refresh(&db, false);
    b.update_search(false, false, true, &input("", false), &input("", false), &input("TWO", true));
    b.refresh(&db, true);
    assert_eq!(b.filtered.len(), 1);
    let changed = b.update_search(true, true, true, &input("", false), &input("", false), &input("TWO", false));
    assert!(changed);
    assert!(b.case_sensitive);
    b.refresh(&db, changed);
    assert!(b.filtered.is_empty());
}

#[test]
fn selection_counter() {
    let db = db();
    let mut b = browser();
    b.refresh(&db, false);
    b.selected.insert_song(11);
    let changed = b.update_search(false, false, true, &input("", false), &input("", false), &input("", false));
    assert!(changed);
    assert!(!b.selected.changed);
    assert_eq!(b.refresh(&db, changed), Some("1 song selected".to_string()));
    assert_eq!(b.selected_counts, (0, 0, 1));
    assert_eq!(b.refresh(&db, true), None);
    b.selected.clear();
    let changed = b.update_search(false, false, true, &input("", false), &input("", false), &input("", false));
    assert_eq!(b.refresh(&db, changed), None);
    assert_eq!(b.selected_counts, (0, 0, 0));
}

#[test]
fn library_update_resorts() {
    let mut db = db();
    let mut b = browser();
    b.refresh(&db, false);
    db.artists.insert(3, Artist { name: "0".into(), cover: None, general: gd(), albums: vec![], singles: vec![] });
    b.updated_library();
    assert!(b.library_updated);
    b.refresh(&db, false);
    assert_eq!(b.sorted.iter().map(|e| e.id).collect::<Vec<_>>(), vec![3, 2, 1]);
    // an artist without songs is not shown
    assert_eq!(b.filtered.iter().map(|e| e.id).collect::<Vec<_>>(), vec![2, 1]);
}

use std::collections::{HashMap, HashSet};

use musicdb::filter::{Filter, GeneralData};
use musicdb::library::{
    filter_local_library, update_local_library, Album, Artist, Library, LibrarySearch, Song,
};
use musicdb::search::SearchField;
use musicdb::selection::{QueueItem, Selected};

fn gd() -> GeneralData {
    GeneralData { tags: vec![] }
}

fn sample() -> Library {
    let mut artists = HashMap::new();
    artists.insert(1, Artist { name: "Zed".into(), cover: None, general: gd(), albums: vec![11], singles: vec![103] });
    artists.insert(2, Artist { name: "Abba".into(), cover: None, general: gd(), albums: vec![10], singles: vec![102] });
    let mut albums = HashMap::new();
    albums.insert(10, Album { name: "Gold".into(), artist: 2, cover: None, general: gd(), songs: vec![100, 101] });
    albums.insert(11, Album { name: "Zed Album".into(), artist: 1, cover: None, general: gd(), songs: vec![104] });
    let mut songs = HashMap::new();
    for (id, title, album) in [(100, "Waterloo", Some(10)), (101, "Mamma Mia", Some(10)), (102, "Dancing Queen", None)] {
        songs.insert(id, Song { title: title.into(), album, artist: 2, cover: None, general: gd(), duration_millis: 0 });
    }
    songs.insert(103, Song { title: "Zed Song".into(), album: None, artist: 1, cover: None, general: gd(), duration_millis: 0 });
    songs.insert(104, Song { title: "Zed Tune".into(), album: Some(11), artist: 1, cover: None, general: gd(), duration_millis: 0 });
    Library { artists, albums, songs }
}

fn empty_search() -> LibrarySearch {
    let f = || SearchField::new(String::new(), false, Filter { and: true, filters: vec![] });
    LibrarySearch { prefer_start: true, artist: f(), album: f(), song: f() }
}

fn set(v: &[u64]) -> HashSet<u64> {
    v.iter().copied().collect()
}

#[test]
fn insert_and_remove() {
    let mut s = Selected::new();
    assert!(!s.changed);
    assert!(s.insert_artist(1));
    assert!(!s.insert_artist(1));
    assert!(s.contains_artist(1));
    assert!(s.changed);
    assert!(s.insert_album(10));
    assert!(s.insert_song(100));
    assert_eq!(s.counts(), (1, 1, 1));
    assert!(s.remove_artist(1));
    assert!(!s.remove_artist(1));
    assert!(!s.contains_artist(1));
    assert!(s.remove_album(10));
    assert!(s.remove_song(100));
    assert_eq!(s.counts(), (0, 0, 0));
}

#[test]
fn clear_and_set() {
    let mut s = Selected::new();
    s.set_to(set(&[1]), set(&[10, 11]), set(&[5]));
    assert_eq!(s.counts(), (1, 2, 1));
    s.clear();
    assert_eq!(s.counts(), (0, 0, 0));
    assert!(s.changed);
}

#[test]
fn add_all_songs_albums() {
    let db = sample();
    let sorted = update_local_library(&db);
    let view = filter_local_library(&db, &empty_search(), &sorted);
    let mut s = Selected::new();
    s.add_all(&view);
    assert_eq!(s.artists, set(&[1, 2]));
    assert_eq!(s.albums, set(&[10, 11]));
    assert_eq!(s.songs, set(&[100, 101, 102, 103, 104]));
    let mut s = Selected::new();
    s.add_songs(&view);
    assert!(s.artists.is_empty());
    assert!(s.albums.is_empty());
    assert_eq!(s.songs, set(&[100, 101, 102, 103, 104]));
    let mut s = Selected::new();
    s.add_albums(&view);
    assert!(s.artists.is_empty());
    assert_eq!(s.albums, set(&[10, 11]));
    assert_eq!(s.songs, set(&[100, 101, 104]));
}

#[test]
fn queue_of_songs_only() {
    let db = sample();
    let sorted = update_local_library(&db);
    let mut s = Selected::new();
    s.insert_song(101);
    s.insert_song(103);
    let q = s.as_queue(&sorted, &db);
    assert_eq!(q.len(), 2);
    assert!(matches!(q[0], QueueItem::Song(101)));
    assert!(matches!(q[1], QueueItem::Song(103)));
}

#[test]
fn queue_of_album_and_artist() {
    let db = sample();
    let sorted = update_local_library(&db);
    let mut s = Selected::new();
    s.insert_album(10);
    s.insert_song(100);
    s.insert_artist(1);
    s.insert_song(103);
    let q = s.as_queue(&sorted, &db);
    assert_eq!(q.len(), 2);
    match &q[0] {
        QueueItem::Folder(0, content, name) => {
            assert_eq!(name, "Gold");
            assert_eq!(content.len(), 1);
            assert!(matches!(content[0], QueueItem::Song(100)));
        },
        _ => panic!("expected the album folder"),
    }
    match &q[1] {
        QueueItem::Folder(0, content, name) => {
            assert_eq!(name, "Zed");
            assert_eq!(content.len(), 1);
            assert!(matches!(content[0], QueueItem::Song(103)));
        },
        _ => panic!("expected the artist folder"),
    }
}

#[test]
fn selected_folder_without_songs_is_empty_folder() {
    let db = sample();
    let sorted = update_local_library(&db);
    let mut s = Selected::new();
    s.insert_album(10);
    let q = s.as_queue(&sorted, &db);
    assert_eq!(q.len(), 1);
    assert!(matches!(&q[0], QueueItem::Folder(0, c, n) if c.is_empty() && n == "Gold"));
}

#[test]
fn contains_checks() {
    let mut s = Selected::new();
    s.insert_album(3);
    s.insert_song(4);
    assert!(s.contains_album(3));
    assert!(!s.contains_album(4));
    assert!(s.contains_song(4));
    assert!(!s.contains_song(3));
}

use std::collections::HashMap;

use musicdb::filter::{Filter, FilterType, GeneralData};
use musicdb::library::{
    filter_local_library, update_local_library, Album, Artist, FilteredArtist, Library, LibrarySearch, Song,
};
use musicdb::search::SearchField;

fn gd(t: &[&str]) -> GeneralData {
    GeneralData { tags: t.iter().map(|s| s.to_string()).collect() }
}

fn artist(name: &str, albums: Vec<u64>, singles: Vec<u64>) -> Artist {
    Artist { name: name.to_string(), cover: None, general: gd(&[]), albums, singles }
}

fn album(name: &str, artist: u64, songs: Vec<u64>) -> Album {
    Album { name: name.to_string(), artist, cover: None, general: gd(&[]), songs }
}

fn song(title: &str, artist: u64, album: Option<u64>, tags: &[&str]) -> Song {
    Song { title: title.to_string(), album, artist, cover: None, general: gd(tags), duration_millis: 1000 }
}

/// Artists 1 "Zed" and 2 "Abba"; Abba has album 10 "Gold" (songs 100, 101)
/// and single 102; Zed has album 11 "Zed Album" (song 104) and single 103.
fn sample() -> Library {
    let mut artists = HashMap::new();
    artists.insert(1, artist("Zed", vec![11], vec![103]));
    artists.insert(2, artist("Abba", vec![10], vec![102]));
    let mut albums = HashMap::new();
    albums.insert(10, album("Gold", 2, vec![100, 101]));
    albums.insert(11, album("Zed Album", 1, vec![104]));
    let mut songs = HashMap::new();
    songs.insert(100, song("Waterloo", 2, Some(10), &["Fav"]));
    songs.insert(101, song("Mamma Mia", 2, Some(10), &[]));
    songs.insert(102, song("Dancing Queen", 2, None, &[]));
    songs.insert(103, song("Zed Song", 1, None, &["Fav"]));
    songs.insert(104, song("Zed Tune", 1, Some(11), &["Fav"]));
    Library { artists, albums, songs }
}

fn field(text: &str, filter: Filter) -> SearchField {
    SearchField::new(text.to_string(), false, filter)
}

fn none() -> Filter {
    Filter { and: true, filters: vec![] }
}

fn search(artist: &str, album: &str, song: &str) -> LibrarySearch {
    LibrarySearch { prefer_start: true, artist: field(artist, none()), album: field(album, none()), song: field(song, none()) }
}

fn ids(v: &[FilteredArtist]) -> Vec<u64> {
    v.iter().map(|a| a.id).collect()
}

#[test]
fn library_is_sorted_by_artist_name() {
    let db = sample();
    let sorted = update_local_library(&db);
    assert_eq!(sorted.iter().map(|e| e.id).collect::<Vec<_>>(), vec![2, 1]);
    assert_eq!(sorted[0].singles, vec![102]);
    assert_eq!(sorted[0].albums, vec![(10, vec![100, 101])]);
    assert_eq!(sorted[1].singles, vec![103]);
    assert_eq!(sorted[1].albums, vec![(11, vec![104])]);
}

#[test]
fn unknown_album_has_no_songs() {
    let mut db = sample();
    db.artists.insert(3, artist("Mid", vec![99], vec![]));
    let sorted = update_local_library(&db);
    assert_eq!(sorted.iter().map(|e| e.id).collect::<Vec<_>>(), vec![2, 3, 1]);
    assert_eq!(sorted[1].albums, vec![(99, vec![])]);
}

#[test]
fn empty_search_shows_everything() {
    let db = sample();
    let sorted = update_local_library(&db);
    let view = filter_local_library(&db, &search("", "", ""), &sorted);
    assert_eq!(ids(&view), vec![2, 1]);
    let abba = &view[0];
    assert_eq!(abba.score, 1);
    assert_eq!(abba.singles, vec![(102, 1)]);
    assert_eq!(abba.albums.len(), 1);
    assert_eq!(abba.albums[0].id, 10);
    assert_eq!(abba.albums[0].songs, vec![(100, 1), (101, 1)]);
    assert_eq!(abba.albums[0].score, 1);
    assert_eq!(view[1].singles, vec![(103, 1)]);
}

#[test]
fn song_search_ranks_and_hides() {
    let db = sample();
    let sorted = update_local_library(&db);
    // "mia" matches "Mamma Mia" as a whole word at the end (5)
    let view = filter_local_library(&db, &search("", "", "mia"), &sorted);
    assert_eq!(ids(&view), vec![2]);
    let abba = &view[0];
    assert!(abba.singles.is_empty());
    assert_eq!(abba.albums[0].songs, vec![(101, 5)]);
    assert_eq!(abba.albums[0].score, 5);
    assert_eq!(abba.score, 5);
}

#[test]
fn better_matches_come_first() {
    let db = sample();
    let sorted = update_local_library(&db);
    // "zed" is the whole name of artist Zed (6) and the start of "Zed Song";
    // Abba does not match and is hidden
    let view = filter_local_library(&db, &search("", "", "^"), &sorted);
    // every song matches at its start: 4 each, equal scores keep the name order
    assert_eq!(ids(&view), vec![2, 1]);
    let view = filter_local_library(&db, &search("zed", "", ""), &sorted);
    assert_eq!(ids(&view), vec![1]);
    assert_eq!(view[0].score, 6);
    // an album song that matches better puts its artist first
    let view = filter_local_library(&db, &search("", "", "mia|zed tune"), &sorted);
    assert_eq!(ids(&view), vec![1, 2]);
    assert_eq!(view[0].score, 6);
    assert_eq!(view[1].score, 5);
    // singles are listed but do not count: matching only singles hides both
    let view = filter_local_library(&db, &search("", "", "queen|zed song"), &sorted);
    assert!(view.is_empty());
}

#[test]
fn an_artist_with_only_singles_is_hidden() {
    let mut db = sample();
    db.artists.insert(3, artist("Solo", vec![], vec![105]));
    db.songs.insert(105, song("Alone", 3, None, &[]));
    let sorted = update_local_library(&db);
    let view = filter_local_library(&db, &search("", "", ""), &sorted);
    assert_eq!(ids(&view), vec![2, 1]);
}

#[test]
fn album_search_hides_singles() {
    let db = sample();
    let sorted = update_local_library(&db);
    let view = filter_local_library(&db, &search("", "gold", ""), &sorted);
    assert_eq!(ids(&view), vec![2]);
    assert!(view[0].singles.is_empty());
    assert_eq!(view[0].albums[0].score, 6);
    assert_eq!(view[0].albums[0].songs, vec![(100, 1), (101, 1)]);
}

#[test]
fn filters_apply_to_songs() {
    let db = sample();
    let sorted = update_local_library(&db);
    let s = LibrarySearch {
        prefer_start: true,
        artist: field("", none()),
        album: field("", none()),
        song: field("", Filter { and: true, filters: vec![FilterType::TagEq("Fav".to_string())] }),
    };
    let view = filter_local_library(&db, &s, &sorted);
    assert_eq!(ids(&view), vec![2, 1]);
    assert!(view[0].singles.is_empty());
    assert_eq!(view[0].albums[0].songs, vec![(100, 1)]);
    assert_eq!(view[1].singles, vec![(103, 1)]);
}

#[test]
fn no_match_shows_nothing() {
    let db = sample();
    let sorted = update_local_library(&db);
    let view = filter_local_library(&db, &search("", "", "xyz"), &sorted);
    assert!(view.is_empty());
    let view = filter_local_library(&db, &search("(", "", ""), &sorted);
    assert!(view.is_empty());
}

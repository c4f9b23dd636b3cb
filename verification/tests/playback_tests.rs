use std::collections::HashMap;

use musicdb::filter::GeneralData;
use musicdb::library::{Album, Artist, Library, Song};
use musicdb::playback::{artist_image_file, get_cover, is_fav, song_cover, CoverAction, CoverLookup, CoverState, CurrentInfo};

fn gd() -> GeneralData {
    GeneralData { tags: vec![] }
}

fn db() -> Library {
    let mut artists = HashMap::new();
    artists.insert(1, Artist { name: "A".into(), cover: Some(7), general: gd(), albums: vec![10], singles: vec![] });
    let mut albums = HashMap::new();
    albums.insert(10, Album { name: "Al".into(), artist: 1, cover: Some(8), general: gd(), songs: vec![100, 101] });
    let mut songs = HashMap::new();
    songs.insert(100, Song { title: "s".into(), album: Some(10), artist: 1, cover: Some(9), general: gd(), duration_millis: 0 });
    songs.insert(101, Song { title: "t".into(), album: Some(10), artist: 1, cover: None, general: gd(), duration_millis: 0 });
    songs.insert(102, Song { title: "u".into(), album: None, artist: 1, cover: None, general: gd(), duration_millis: 0 });
    Library { artists, albums, songs }
}

#[test]
fn cover_fallbacks() {
    let db = db();
    assert_eq!(song_cover(&db, 100), Some(9));
    assert_eq!(song_cover(&db, 101), Some(8));
    assert_eq!(song_cover(&db, 102), Some(7));
    assert_eq!(song_cover(&db, 999), None);
}

#[test]
fn notification_cover_skips_artist() {
    let db = db();
    assert_eq!(get_cover(100, &db), Some(9));
    assert_eq!(get_cover(101, &db), Some(8));
    assert_eq!(get_cover(102, &db), None);
    assert_eq!(get_cover(999, &db), None);
}

#[test]
fn loading_then_loaded() {
    let mut ci = CurrentInfo::new();
    assert_eq!(ci.update(Some(100), Some(9), CoverLookup::Absent), CoverAction::Request(9));
    assert!(ci.new_song);
    assert!(ci.new_cover);
    assert_eq!(ci.current_song, Some(100));
    assert_eq!(ci.current_cover, Some((9, CoverState::Loading)));
    assert!(ci.update);
    ci.new_cover = false;
    assert_eq!(ci.update(Some(100), Some(9), CoverLookup::Loading), CoverAction::Nothing);
    assert!(!ci.new_cover);
    assert!(ci.update);
    assert_eq!(ci.update(Some(100), Some(9), CoverLookup::Loaded), CoverAction::Nothing);
    assert!(ci.new_cover);
    assert_eq!(ci.current_cover, Some((9, CoverState::Loaded)));
    assert!(!ci.update);
}

#[test]
fn no_update_requested_does_nothing() {
    let mut ci = CurrentInfo::new();
    ci.update = false;
    assert_eq!(ci.update(Some(1), Some(2), CoverLookup::Failed), CoverAction::Nothing);
    assert_eq!(ci.current_song, None);
    assert_eq!(ci.current_cover, None);
}

#[test]
fn missing_cover_reported_once() {
    let mut ci = CurrentInfo::new();
    assert_eq!(ci.update(Some(1), Some(2), CoverLookup::Failed), CoverAction::NotifyMissing);
    assert_eq!(ci.current_cover, Some((2, CoverState::Missing)));
    ci.update = true;
    assert_eq!(ci.update(Some(1), Some(2), CoverLookup::Failed), CoverAction::Nothing);
}

#[test]
fn no_song_clears_cover() {
    let mut ci = CurrentInfo::new();
    ci.update(Some(1), Some(2), CoverLookup::Loaded);
    ci.new_cover = false;
    ci.new_song = false;
    ci.update = true;
    assert_eq!(ci.update(None, None, CoverLookup::Absent), CoverAction::Nothing);
    assert!(ci.new_song);
    assert!(ci.new_cover);
    assert_eq!(ci.current_cover, None);
    assert_eq!(ci.current_song, None);
}

#[test]
fn fav_mark() {
    let mut db = db();
    assert!(!is_fav(&db, Some(100)));
    db.songs.get_mut(&100).unwrap().general.tags.push("Fav".to_string());
    assert!(is_fav(&db, Some(100)));
    assert!(!is_fav(&db, None));
    assert!(!is_fav(&db, Some(999)));
}

#[test]
fn artist_images() {
    let mut db = db();
    assert_eq!(artist_image_file(&db, 1), None);
    db.artists.get_mut(&1).unwrap().general.tags = vec!["X".into(), "ImageExt=png".into(), "ImageExt=jpg".into()];
    assert_eq!(artist_image_file(&db, 1), Some("A.png".to_string()));
    assert_eq!(artist_image_file(&db, 2), None);
}

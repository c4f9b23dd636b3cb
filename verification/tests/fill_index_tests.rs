use musicdb::fill_index::{blank, song_album_name, song_artist_name, song_order, song_title, FillIndex, Filing, SongKey};

#[test]
fn blank_values() {
    assert!(blank(""));
    assert!(blank(" \t\u{a0}"));
    assert!(!blank(" x "));
}

#[test]
fn artist_album_title_choice() {
    assert_eq!(song_artist_name(Some("AA"), Some("A")), Some("AA"));
    assert_eq!(song_artist_name(Some("  "), Some("A")), Some("A"));
    assert_eq!(song_artist_name(None, Some(" ")), None);
    assert_eq!(song_artist_name(None, None), None);
    assert_eq!(song_album_name(Some(" ")), None);
    assert_eq!(song_album_name(Some("Gold")), Some("Gold"));
    assert_eq!(song_title(Some("T"), "file"), "T");
    assert_eq!(song_title(Some(""), "file"), "file");
    assert_eq!(song_title(None, "file"), "file");
}

#[test]
fn filing_songs() {
    let mut idx = FillIndex::new();
    assert!(matches!(idx.file_song("A", Some("X"), Some("/m/a")), Filing::NewArtist));
    let i = idx.add_artist("A".to_string(), 1);
    assert_eq!(idx.add_album(i, "X".to_string(), 2, Some("/m/a".to_string())), 0);
    assert!(matches!(idx.file_song("A", Some("X"), Some("/m/a")), Filing::Known { artist: 0, album: Some(0) }));
    assert_eq!(idx.artists[0].albums[0].dir.as_deref(), Some("/m/a"));
    assert!(matches!(idx.file_song("A", None, None), Filing::Known { artist: 0, album: None }));
    assert!(matches!(idx.file_song("A", Some("Y"), None), Filing::NewAlbum { artist: 0 }));
    // a song of album X in another directory makes the directory unknown
    assert!(matches!(idx.file_song("A", Some("X"), Some("/m/b")), Filing::Known { artist: 0, album: Some(0) }));
    assert_eq!(idx.artists[0].albums[0].dir, None);
    assert_eq!(idx.artists[0].albums[0].id, 2);
    assert!(matches!(idx.file_song("B", None, None), Filing::NewArtist));
}

fn key(disc: Option<u32>, track: Option<u32>, path: &[&str]) -> SongKey {
    SongKey { disc, track, path: path.iter().map(|s| s.to_string()).collect() }
}

#[test]
fn songs_are_filed_by_disc_track_and_path() {
    let keys = vec![
        key(Some(2), Some(1), &["lib", "a.mp3"]),
        key(Some(1), Some(2), &["lib", "b.mp3"]),
        key(Some(1), None, &["lib", "c.mp3"]),
        key(None, Some(9), &["lib", "d.mp3"]),
        key(Some(1), Some(2), &["lib", "a.mp3"]),
        key(Some(1), Some(2), &["lib", "a", "z.mp3"]),
        key(Some(1), Some(2), &["lib", "a.mp3"]),
    ];
    assert_eq!(song_order(&keys), vec![3, 2, 5, 4, 6, 1, 0]);
    assert!(song_order(&vec![]).is_empty());
}

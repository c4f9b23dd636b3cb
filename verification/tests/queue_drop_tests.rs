use std::collections::HashMap;

use musicdb::filter::GeneralData;
use musicdb::library::{Album, Artist, Library, Song};
use musicdb::queue_drop::{
    album_queue_entry, artist_queue_entry, drop_on_queue, DropTarget, Dragging, QueueChange,
};
use musicdb::selection::QueueItem;

fn gd() -> GeneralData {
    GeneralData { tags: vec![] }
}

fn db() -> Library {
    let mut artists = HashMap::new();
    artists.insert(1, Artist { name: "Art".into(), cover: None, general: gd(), albums: vec![10, 11, 12], singles: vec![5] });
    let mut albums = HashMap::new();
    albums.insert(10, Album { name: "First".into(), artist: 1, cover: None, general: gd(), songs: vec![1, 2] });
    albums.insert(12, Album { name: "Third".into(), artist: 1, cover: None, general: gd(), songs: vec![3] });
    let songs: HashMap<u64, Song> = HashMap::new();
    Library { artists, albums, songs }
}

fn song_ids(v: &[QueueItem]) -> Vec<Option<u64>> {
    v.iter().map(|q| if let QueueItem::Song(id) = q { Some(*id) } else { None }).collect()
}

#[test]
fn album_becomes_folder() {
    let db = db();
    match album_queue_entry(&db, 10) {
        Some(QueueItem::Folder(0, content, name)) => {
            assert_eq!(name, "First");
            assert_eq!(song_ids(&content), vec![Some(1), Some(2)]);
        },
        _ => panic!("expected a folder"),
    }
    assert!(album_queue_entry(&db, 11).is_none());
}

#[test]
fn artist_becomes_folder_of_albums() {
    let db = db();
    match artist_queue_entry(&db, 1) {
        Some(QueueItem::Folder(0, content, name)) => {
            assert_eq!(name, "Art");
            // the single, then the two known albums
            assert_eq!(content.len(), 3);
            assert!(matches!(content[0], QueueItem::Song(5)));
            assert!(matches!(&content[1], QueueItem::Folder(0, c, n) if n == "First" && c.len() == 2));
            assert!(matches!(&content[2], QueueItem::Folder(0, c, n) if n == "Third" && c.len() == 1));
        },
        _ => panic!("expected a folder"),
    }
    assert!(artist_queue_entry(&db, 2).is_none());
}

#[test]
fn song_dropped_below_a_song_is_inserted_after_it() {
    let db = db();
    let t = DropTarget::Song { path: vec![2, 3], insert_below: true };
    let r = drop_on_queue(&db, &None, Dragging::Song(7), &t).unwrap();
    assert!(r.saved.is_none());
    match r.change {
        QueueChange::Insert(p, i, q) => {
            assert_eq!(p, vec![2]);
            assert_eq!(i, 4);
            assert_eq!(song_ids(&q), vec![Some(7)]);
        },
        _ => panic!("expected an insert"),
    }
    let t = DropTarget::Song { path: vec![2, 3], insert_below: false };
    let r = drop_on_queue(&db, &Some("list".to_string()), Dragging::Song(7), &t).unwrap();
    assert_eq!(r.saved.as_deref(), Some("list"));
    assert!(matches!(r.change, QueueChange::Insert(ref p, 3, _) if *p == vec![2]));
}

#[test]
fn drop_targets_for_adding() {
    let db = db();
    let r = drop_on_queue(&db, &None, Dragging::Song(7), &DropTarget::EmptySpace).unwrap();
    assert!(matches!(r.change, QueueChange::Add(ref p, _) if p.is_empty()));
    let r = drop_on_queue(&db, &None, Dragging::Song(7), &DropTarget::FolderInto { path: vec![1] }).unwrap();
    assert!(matches!(r.change, QueueChange::Add(ref p, _) if *p == vec![1]));
    let r = drop_on_queue(&db, &None, Dragging::Song(7), &DropTarget::FolderBefore { path: vec![1, 4] }).unwrap();
    assert!(matches!(r.change, QueueChange::Insert(ref p, 4, _) if *p == vec![1]));
    let r = drop_on_queue(&db, &None, Dragging::Song(7), &DropTarget::FolderBefore { path: vec![] }).unwrap();
    assert!(matches!(r.change, QueueChange::Insert(ref p, 0, _) if p.is_empty()));
    let r = drop_on_queue(&db, &None, Dragging::Song(7), &DropTarget::IndentEnd { path: vec![1], index: 6 }).unwrap();
    assert!(matches!(r.change, QueueChange::Insert(ref p, 6, _) if *p == vec![1]));
    let r = drop_on_queue(&db, &None, Dragging::Song(7), &DropTarget::Loop { path: vec![3] }).unwrap();
    assert!(matches!(r.change, QueueChange::Add(ref p, _) if *p == vec![3, 0]));
    let r = drop_on_queue(&db, &None, Dragging::Song(7), &DropTarget::Song { path: vec![], insert_below: true }).unwrap();
    assert!(matches!(r.change, QueueChange::Add(ref p, _) if p.is_empty()));
}

#[test]
fn unknown_artist_or_album_asks_nothing() {
    let db = db();
    assert!(drop_on_queue(&db, &None, Dragging::Artist(9), &DropTarget::EmptySpace).is_none());
    assert!(drop_on_queue(&db, &None, Dragging::Album(11), &DropTarget::EmptySpace).is_none());
    let r = drop_on_queue(&db, &None, Dragging::Album(12), &DropTarget::EmptySpace).unwrap();
    assert!(matches!(r.change, QueueChange::Add(_, ref q) if q.len() == 1));
}

#[test]
fn entry_moved_within_a_queue() {
    let db = db();
    let d = Dragging::Queue(QueueItem::Song(4), Some((Some("list".to_string()), vec![0, 1])));
    let t = DropTarget::Song { path: vec![2, 3], insert_below: true };
    let r = drop_on_queue(&db, &Some("list".to_string()), d, &t).unwrap();
    assert!(matches!(r.change, QueueChange::Move(ref a, ref b) if *a == vec![0, 1] && *b == vec![2, 4]));
    // from another queue: copied
    let d = Dragging::Queue(QueueItem::Song(4), Some((None, vec![0, 1])));
    let r = drop_on_queue(&db, &Some("list".to_string()), d, &t).unwrap();
    assert!(matches!(r.change, QueueChange::Insert(ref p, 4, ref q) if *p == vec![2] && q.len() == 1));
    let d = Dragging::Queue(QueueItem::Song(4), Some((None, vec![5])));
    let r = drop_on_queue(&db, &None, d, &DropTarget::EmptySpace).unwrap();
    assert!(matches!(r.change, QueueChange::MoveInto(ref a, ref b) if *a == vec![5] && b.is_empty()));
    let d = Dragging::Queue(QueueItem::Song(4), Some((None, vec![5])));
    let r = drop_on_queue(&db, &None, d, &DropTarget::IndentEnd { path: vec![1], index: 2 }).unwrap();
    assert!(matches!(r.change, QueueChange::Move(ref a, ref b) if *a == vec![5] && *b == vec![1, 2]));
    let d = Dragging::Queues(vec![QueueItem::Song(1), QueueItem::Song(2)]);
    let r = drop_on_queue(&db, &None, d, &DropTarget::EmptySpace).unwrap();
    assert!(matches!(r.change, QueueChange::Add(_, ref q) if q.len() == 2));
}

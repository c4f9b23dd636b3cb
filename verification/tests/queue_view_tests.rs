use std::collections::HashMap;

use musicdb::filter::GeneralData;
use musicdb::library::{Library, Song};
use musicdb::queue_view::{queue_rows, repeats_after_scroll, QueueRow, RowHeight, RowKind};
use musicdb::selection::QueueItem;

fn song(title: &str) -> Song {
    Song {
        title: title.into(),
        album: None,
        artist: 1,
        cover: None,
        general: GeneralData { tags: vec![] },
        duration_millis: 1000,
    }
}

fn db() -> Library {
    let mut songs = HashMap::new();
    for id in 1..=4u64 {
        songs.insert(id, song(&format!("s{id}")));
    }
    Library { artists: HashMap::new(), albums: HashMap::new(), songs }
}

fn sample_queue(root_index: usize, inner_index: usize) -> QueueItem {
    QueueItem::Folder(
        root_index,
        vec![
            QueueItem::Song(1),
            QueueItem::Folder(inner_index, vec![QueueItem::Song(2), QueueItem::Song(3)], "f".into()),
            QueueItem::Loop(2, 0, Box::new(QueueItem::Song(4))),
            QueueItem::Song(99),
        ],
        "root".into(),
    )
}

fn summary(r: &QueueRow) -> (Vec<usize>, usize, bool) {
    (r.path.clone(), r.depth, r.current)
}

#[test]
fn queue_rows_flatten_the_tree() {
    let (rows, heights) = queue_rows(&sample_queue(0, 0), &db());
    assert_eq!(rows.len(), 7);
    assert_eq!(
        heights,
        vec![
            RowHeight::Folder,
            RowHeight::Song,
            RowHeight::Folder,
            RowHeight::Song,
            RowHeight::Song,
            RowHeight::IndentEnd,
            RowHeight::Song
        ]
    );
    assert_eq!(summary(&rows[0]), (vec![], 0, true));
    assert!(matches!(&rows[0].kind, RowKind::Folder { index: 0, name, no_ins_before: true } if name == "root"));
    assert_eq!(summary(&rows[1]), (vec![0], 1, true));
    assert!(matches!(rows[1].kind, RowKind::Song(1)));
    assert_eq!(summary(&rows[2]), (vec![1], 1, false));
    assert!(matches!(&rows[2].kind, RowKind::Folder { index: 0, name, no_ins_before: false } if name == "f"));
    assert_eq!(summary(&rows[3]), (vec![1, 0], 2, false));
    assert!(matches!(rows[3].kind, RowKind::Song(2)));
    assert_eq!(summary(&rows[4]), (vec![1, 1], 2, false));
    assert!(matches!(rows[4].kind, RowKind::Song(3)));
    assert_eq!(summary(&rows[5]), (vec![1], 1, false));
    match &rows[5].kind {
        RowKind::IndentEnd { parent, next } => {
            assert!(parent.is_empty());
            assert_eq!(*next, 2);
        }
        _ => panic!("expected the end of the folder"),
    }
    assert_eq!(summary(&rows[6]), (vec![2], 1, false));
    match &rows[6].kind {
        RowKind::Loop { total: 2, done: 0, inner: Some(inner) } => {
            assert_eq!(summary(inner), (vec![2, 0], 1, false));
            assert!(matches!(inner.kind, RowKind::Song(4)));
        }
        _ => panic!("expected the loop with its song"),
    }
}

#[test]
fn queue_rows_mark_the_playing_path() {
    let (rows, _) = queue_rows(&sample_queue(1, 1), &db());
    let current: Vec<bool> = rows.iter().map(|r| r.current).collect();
    assert_eq!(current, vec![true, false, true, false, true, false, false]);
    let (rows, _) = queue_rows(&sample_queue(2, 0), &db());
    match &rows[6].kind {
        RowKind::Loop { inner: Some(inner), .. } => {
            assert!(rows[6].current);
            assert!(inner.current);
        }
        _ => panic!("expected the loop with its song"),
    }
}

#[test]
fn queue_rows_of_a_loop_over_a_folder() {
    let q = QueueItem::Folder(
        0,
        vec![QueueItem::Loop(0, 1, Box::new(QueueItem::Folder(0, vec![QueueItem::Song(1)], "in".into())))],
        "root".into(),
    );
    let (rows, heights) = queue_rows(&q, &db());
    assert_eq!(heights, vec![RowHeight::Folder, RowHeight::Folder, RowHeight::Song, RowHeight::IndentEnd]);
    assert_eq!(rows.len(), 4);
    match &rows[1].kind {
        RowKind::Loop { total: 0, done: 1, inner: Some(inner) } => {
            assert_eq!(summary(inner), (vec![0, 0], 1, true));
            assert!(matches!(&inner.kind, RowKind::Folder { no_ins_before: true, .. }));
        }
        _ => panic!("expected the loop with its folder"),
    }
    assert_eq!(summary(&rows[2]), (vec![0, 0, 0], 2, true));
    match &rows[3].kind {
        RowKind::IndentEnd { parent, next } => {
            assert_eq!(parent, &vec![0]);
            assert_eq!(*next, 1);
        }
        _ => panic!("expected the end of the folder"),
    }
}

#[test]
fn queue_rows_skip_unknown_songs() {
    let q = QueueItem::Folder(0, vec![QueueItem::Song(50), QueueItem::Song(2)], "root".into());
    let (rows, heights) = queue_rows(&q, &db());
    assert_eq!(rows.len(), 2);
    assert_eq!(heights, vec![RowHeight::Folder, RowHeight::Song]);
    assert_eq!(summary(&rows[1]), (vec![1], 1, false));
}

#[test]
fn scrolling_over_a_loop_template() {
    assert_eq!(repeats_after_scroll(3, true, false), 4);
    assert_eq!(repeats_after_scroll(3, false, true), 2);
    assert_eq!(repeats_after_scroll(0, false, true), 0);
    assert_eq!(repeats_after_scroll(5, false, false), 5);
}

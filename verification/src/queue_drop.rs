//! Dropping something on a queue view: the queue entries an artist, album
//! or song becomes, and the change to the queue that a drop asks the server
//! for.
use vstd::prelude::*;
use crate::library::Library;
use crate::selection::{lemma_queue_models_push, queue_model, queue_models, QueueItem, QueueModel};
use crate::strings::str_eq;

verus! {

broadcast use {vstd::std_specs::hash::group_hash_axioms, vstd::string::group_string_axioms};

/// The songs with these ids, as queue entries.
pub open spec fn song_entries(ids: Seq<u64>) -> Seq<QueueModel>
    decreases ids.len(),
{
    if ids.len() == 0 {
        Seq::empty()
    } else {
        song_entries(ids.drop_last()).push(QueueModel::Song(ids.last()))
    }
}

/// An album as a queue entry: a folder named after it with its songs.
pub open spec fn album_entry(db: Library, id: u64) -> Option<QueueModel> {
    if db.albums@.contains_key(id) {
        Some(QueueModel::Folder(0, song_entries(db.albums@[id].songs@), db.albums@[id].name@))
    } else {
        None
    }
}

/// The albums with these ids that the database knows, as queue entries.
pub open spec fn album_entries(db: Library, ids: Seq<u64>) -> Seq<QueueModel>
    decreases ids.len(),
{
    if ids.len() == 0 {
        Seq::empty()
    } else {
        let rest = album_entries(db, ids.drop_last());
        match album_entry(db, ids.last()) {
            Some(q) => rest.push(q),
            None => rest,
        }
    }
}

/// An artist as a queue entry: a folder named after it with its singles,
/// then its albums.
pub open spec fn artist_entry(db: Library, id: u64) -> Option<QueueModel> {
    if db.artists@.contains_key(id) {
        let a = db.artists@[id];
        Some(QueueModel::Folder(0, song_entries(a.singles@) + album_entries(db, a.albums@), a.name@))
    } else {
        None
    }
}

fn push_songs(out: &mut Vec<QueueItem>, ids: &Vec<u64>)
    ensures
        queue_models(final(out)@) == queue_models(old(out)@) + song_entries(ids@),
{
    let mut k: usize = 0;
    while k < ids.len()
        invariant
            k <= ids@.len(),
            queue_models(out@) == queue_models(old(out)@) + song_entries(ids@.take(k as int)),
        decreases ids.len() - k,
    {
        assert(ids@.take(k + 1).drop_last() =~= ids@.take(k as int));
        proof { lemma_queue_models_push(out@, QueueItem::Song(ids@[k as int])); }
        out.push(QueueItem::Song(ids[k]));
        k = k + 1;
        assert(queue_models(out@) =~= queue_models(old(out)@) + song_entries(ids@.take(k as int)));
    }
    assert(ids@.take(ids@.len() as int) =~= ids@);
}

/// The queue entry for an album, if the database knows it.
pub fn album_queue_entry(db: &Library, id: u64) -> (r: Option<QueueItem>)
    ensures
        match album_entry(*db, id) {
            Some(q) => r matches Some(item) && queue_model(item) == q,
            None => r is None,
        },
{
    match db.albums.get(&id) {
        Some(album) => {
            let mut songs: Vec<QueueItem> = Vec::new();
            assert(queue_models(songs@) =~= Seq::<QueueModel>::empty());
            push_songs(&mut songs, &album.songs);
            assert(queue_models(songs@) =~= song_entries(album.songs@));
            Some(QueueItem::Folder(0, songs, album.name.clone()))
        },
        None => None,
    }
}

/// The queue entry for an artist, if the database knows it.
pub fn artist_queue_entry(db: &Library, id: u64) -> (r: Option<QueueItem>)
    ensures
        match artist_entry(*db, id) {
            Some(q) => r matches Some(item) && queue_model(item) == q,
            None => r is None,
        },
{
    match db.artists.get(&id) {
        Some(artist) => {
            let mut content: Vec<QueueItem> = Vec::new();
            assert(queue_models(content@) =~= Seq::<QueueModel>::empty());
            push_songs(&mut content, &artist.singles);
            let ghost mid = queue_models(content@);
            let mut k: usize = 0;
            while k < artist.albums.len()
                invariant
                    k <= artist.albums@.len(),
                    queue_models(content@) == mid + album_entries(*db, artist.albums@.take(k as int)),
                decreases artist.albums.len() - k,
            {
                assert(artist.albums@.take(k + 1).drop_last() =~= artist.albums@.take(k as int));
                match album_queue_entry(db, artist.albums[k]) {
                    Some(q) => {
                        proof { lemma_queue_models_push(content@, q); }
                        content.push(q);
                    },
                    None => {},
                }
                k = k + 1;
                assert(queue_models(content@) =~= mid + album_entries(*db, artist.albums@.take(k as int)));
            }
            assert(artist.albums@.take(artist.albums@.len() as int) =~= artist.albums@);
            assert(queue_models(content@) =~= song_entries(artist.singles@) + album_entries(*db, artist.albums@));
            Some(QueueItem::Folder(0, content, artist.name.clone()))
        },
        None => None,
    }
}

/// What is dragged onto a queue.
pub enum Dragging {
    Artist(u64),
    Album(u64),
    Song(u64),
    /// A queue entry, with where it was taken from when it comes from a
    /// queue: that queue (its name, or `None` for the active queue) and the
    /// entry's path in it.
    Queue(QueueItem, Option<(Option<String>, Vec<usize>)>),
    Queues(Vec<QueueItem>),
}

/// Where in a queue view something is dropped.
pub enum DropTarget {
    /// The empty space below the queue.
    EmptySpace,
    /// A song, in its upper or lower half.
    Song { path: Vec<usize>, insert_below: bool },
    /// Into a folder.
    FolderInto { path: Vec<usize> },
    /// Just before a folder.
    FolderBefore { path: Vec<usize> },
    /// The end marker of a folder: position `index` of the folder at `path`.
    IndentEnd { path: Vec<usize>, index: usize },
    /// Into a loop.
    Loop { path: Vec<usize> },
}

/// A change to a queue, by path.
pub enum QueueChange {
    /// Append the entries to the folder at the path.
    Add(Vec<usize>, Vec<QueueItem>),
    /// Insert the entries at a position of the folder at the path.
    Insert(Vec<usize>, usize, Vec<QueueItem>),
    /// Move the entry at the first path to the second.
    Move(Vec<usize>, Vec<usize>),
    /// Move the entry at the first path into the folder at the second.
    MoveInto(Vec<usize>, Vec<usize>),
}

/// A change to the active queue (`saved` is `None`) or to a saved one.
pub struct QueueRequest {
    pub saved: Option<String>,
    pub change: QueueChange,
}

pub enum ChangeModel {
    Add(Seq<usize>, Seq<QueueModel>),
    Insert(Seq<usize>, int, Seq<QueueModel>),
    Move(Seq<usize>, Seq<usize>),
    MoveInto(Seq<usize>, Seq<usize>),
}

pub open spec fn change_model(c: QueueChange) -> ChangeModel {
    match c {
        QueueChange::Add(p, q) => ChangeModel::Add(p@, queue_models(q@)),
        QueueChange::Insert(p, i, q) => ChangeModel::Insert(p@, i as int, queue_models(q@)),
        QueueChange::Move(a, b) => ChangeModel::Move(a@, b@),
        QueueChange::MoveInto(a, b) => ChangeModel::MoveInto(a@, b@),
    }
}

pub open spec fn name_model(o: Option<String>) -> Option<Seq<char>> {
    match o {
        Some(s) => Some(s@),
        None => None,
    }
}

/// The change that adds entries at a drop target.
pub open spec fn add_change(t: DropTarget, qs: Seq<QueueModel>) -> ChangeModel {
    match t {
        DropTarget::EmptySpace => ChangeModel::Add(Seq::empty(), qs),
        DropTarget::Song { path, insert_below } => if path@.len() > 0 {
            ChangeModel::Insert(path@.drop_last(), if insert_below { path@.last() + 1 } else { path@.last() as int }, qs)
        } else {
            ChangeModel::Add(path@, qs)
        },
        DropTarget::FolderInto { path } => ChangeModel::Add(path@, qs),
        DropTarget::FolderBefore { path } => if path@.len() > 0 {
            ChangeModel::Insert(path@.drop_last(), path@.last() as int, qs)
        } else {
            ChangeModel::Insert(path@, 0, qs)
        },
        DropTarget::IndentEnd { path, index } => ChangeModel::Insert(path@, index as int, qs),
        DropTarget::Loop { path } => ChangeModel::Add(path@.push(0), qs),
    }
}

/// The change that moves the entry at `from` to a drop target.
pub open spec fn move_change(t: DropTarget, from: Seq<usize>) -> ChangeModel {
    match t {
        DropTarget::EmptySpace => ChangeModel::MoveInto(from, Seq::empty()),
        DropTarget::Song { path, insert_below } => ChangeModel::Move(
            from,
            if insert_below && path@.len() > 0 { path@.update(path@.len() - 1, (path@.last() + 1) as usize) } else { path@ },
        ),
        DropTarget::FolderInto { path } => ChangeModel::MoveInto(from, path@),
        DropTarget::FolderBefore { path } => ChangeModel::Move(from, path@),
        DropTarget::IndentEnd { path, index } => ChangeModel::Move(from, path@.push(index)),
        DropTarget::Loop { path } => ChangeModel::MoveInto(from, path@.push(0)),
    }
}

/// The position after a song's is still a position.
pub open spec fn target_ok(t: DropTarget) -> bool {
    t matches DropTarget::Song { path, insert_below } ==> (insert_below && path@.len() > 0 ==> path@.last() < usize::MAX)
}

fn copy_path(p: &Vec<usize>) -> (r: Vec<usize>)
    ensures
        r@ == p@,
{
    let r = p.clone();
    assert(r@ =~= p@);
    r
}

fn add_request(t: &DropTarget, qs: Vec<QueueItem>) -> (r: QueueChange)
    requires
        target_ok(*t),
    ensures
        change_model(r) == add_change(*t, queue_models(qs@)),
{
    match t {
        DropTarget::EmptySpace => QueueChange::Add(Vec::new(), qs),
        DropTarget::Song { path, insert_below } => {
            let mut p = copy_path(path);
            match p.pop() {
                Some(j) => {
                    let k = if *insert_below { j + 1 } else { j };
                    QueueChange::Insert(p, k, qs)
                },
                None => QueueChange::Add(p, qs),
            }
        },
        DropTarget::FolderInto { path } => QueueChange::Add(copy_path(path), qs),
        DropTarget::FolderBefore { path } => {
            let mut p = copy_path(path);
            let j = match p.pop() {
                Some(j) => j,
                None => 0,
            };
            QueueChange::Insert(p, j, qs)
        },
        DropTarget::IndentEnd { path, index } => QueueChange::Insert(copy_path(path), *index, qs),
        DropTarget::Loop { path } => {
            let mut p = copy_path(path);
            p.push(0);
            QueueChange::Add(p, qs)
        },
    }
}

fn move_request(t: &DropTarget, from: Vec<usize>) -> (r: QueueChange)
    requires
        target_ok(*t),
    ensures
        change_model(r) == move_change(*t, from@),
{
    match t {
        DropTarget::EmptySpace => QueueChange::MoveInto(from, Vec::new()),
        DropTarget::Song { path, insert_below } => {
            let mut p = copy_path(path);
            if *insert_below && p.len() > 0 {
                let last = p.len() - 1;
                let v = p[last] + 1;
                p.set(last, v);
            }
            QueueChange::Move(from, p)
        },
        DropTarget::FolderInto { path } => QueueChange::MoveInto(from, copy_path(path)),
        DropTarget::FolderBefore { path } => QueueChange::Move(from, copy_path(path)),
        DropTarget::IndentEnd { path, index } => {
            let mut p = copy_path(path);
            p.push(*index);
            QueueChange::Move(from, p)
        },
        DropTarget::Loop { path } => {
            let mut p = copy_path(path);
            p.push(0);
            QueueChange::MoveInto(from, p)
        },
    }
}

fn copy_name(o: &Option<String>) -> (r: Option<String>)
    ensures
        name_model(r) == name_model(*o),
{
    match o {
        Some(s) => Some(s.clone()),
        None => None,
    }
}

fn same_queue(a: &Option<String>, b: &Option<String>) -> (r: bool)
    ensures
        r == (name_model(*a) == name_model(*b)),
{
    match (a, b) {
        (Some(x), Some(y)) => str_eq(x.as_str(), y.as_str()),
        (None, None) => true,
        _ => false,
    }
}

fn one(q: QueueItem) -> (r: Vec<QueueItem>)
    ensures
        queue_models(r@) == seq![queue_model(q)],
{
    let mut v: Vec<QueueItem> = Vec::new();
    proof { lemma_queue_models_push(v@, q); }
    v.push(q);
    assert(queue_models(Seq::<QueueItem>::empty()) =~= Seq::<QueueModel>::empty());
    assert(queue_models(v@) =~= seq![queue_model(q)]);
    v
}

/// What dropping onto a queue view (of the saved queue `saved`, or of the
/// active queue) asks of the server: an artist or album the database knows
/// is added as a folder, a song as a song, queue entries as they are; an
/// entry dragged within the same queue is moved there instead. Nothing is
/// asked for an artist or album the database does not know.
pub fn drop_on_queue(db: &Library, saved: &Option<String>, dragged: Dragging, target: &DropTarget) -> (r: Option<QueueRequest>)
    requires
        target_ok(*target),
    ensures
        r matches Some(req) ==> name_model(req.saved) == name_model(*saved),
        match dragged {
            Dragging::Artist(id) => match artist_entry(*db, id) {
                Some(q) => r matches Some(req) && change_model(req.change) == add_change(*target, seq![q]),
                None => r is None,
            },
            Dragging::Album(id) => match album_entry(*db, id) {
                Some(q) => r matches Some(req) && change_model(req.change) == add_change(*target, seq![q]),
                None => r is None,
            },
            Dragging::Song(id) => r matches Some(req) && change_model(req.change) == add_change(*target, seq![QueueModel::Song(id)]),
            Dragging::Queue(q, None) => r matches Some(req) && change_model(req.change) == add_change(*target, seq![queue_model(q)]),
            Dragging::Queue(q, Some((src, path))) => if name_model(src) == name_model(*saved) {
                r matches Some(req) && change_model(req.change) == move_change(*target, path@)
            } else {
                r matches Some(req) && change_model(req.change) == add_change(*target, seq![queue_model(q)])
            },
            Dragging::Queues(qs) => r matches Some(req) && change_model(req.change) == add_change(*target, queue_models(qs@)),
        },
{
    let change = match dragged {
        Dragging::Artist(id) => match artist_queue_entry(db, id) {
            Some(q) => add_request(target, one(q)),
            None => return None,
        },
        Dragging::Album(id) => match album_queue_entry(db, id) {
            Some(q) => add_request(target, one(q)),
            None => return None,
        },
        Dragging::Song(id) => add_request(target, one(QueueItem::Song(id))),
        Dragging::Queue(q, None) => add_request(target, one(q)),
        Dragging::Queue(q, Some((src, path))) => if same_queue(&src, saved) {
            move_request(target, path)
        } else {
            add_request(target, one(q))
        },
        Dragging::Queues(qs) => add_request(target, qs),
    };
    Some(QueueRequest { saved: copy_name(saved), change })
}

proof fn lemma_song_entries(ids: Seq<u64>)
    ensures
        song_entries(ids).len() == ids.len(),
        forall|k: int| 0 <= k < ids.len() ==> #[trigger] song_entries(ids)[k] == QueueModel::Song(ids[k]),
    decreases ids.len(),
{
    if ids.len() > 0 {
        lemma_song_entries(ids.drop_last());
    }
}

proof fn lemma_album_entries_contains(db: Library, ids: Seq<u64>, k: int)
    requires
        0 <= k < ids.len(),
        db.albums@.contains_key(ids[k]),
    ensures
        album_entries(db, ids).contains(album_entry(db, ids[k])->0),
    decreases ids.len(),
{
    let rest = album_entries(db, ids.drop_last());
    if k < ids.len() - 1 {
        lemma_album_entries_contains(db, ids.drop_last(), k);
        let i = choose|i: int| 0 <= i < rest.len() && rest[i] == album_entry(db, ids[k])->0;
        match album_entry(db, ids.last()) {
            Some(q) => assert(rest.push(q)[i] == rest[i]),
            None => {},
        }
    } else {
        let q = album_entry(db, ids.last())->0;
        assert(rest.push(q)[rest.len() as int] == q);
    }
}

/// Adding an album adds one folder, named after the album, holding its
/// songs in order.
pub proof fn lemma_album_is_folder(db: Library, id: u64)
    requires
        db.albums@.contains_key(id),
    ensures
        album_entry(db, id) matches Some(QueueModel::Folder(0, content, name)) && name == db.albums@[id].name@
            && content.len() == db.albums@[id].songs@.len()
            && forall|k: int| 0 <= k < content.len() ==> #[trigger] content[k] == QueueModel::Song(db.albums@[id].songs@[k]),
{
    lemma_song_entries(db.albums@[id].songs@);
}

/// Adding an artist adds one folder, named after the artist, holding its
/// singles in order and then a folder for each of its albums that the
/// database knows.
pub proof fn lemma_artist_is_folder_of_albums(db: Library, id: u64)
    requires
        db.artists@.contains_key(id),
    ensures
        artist_entry(db, id) matches Some(QueueModel::Folder(0, content, name)) && name == db.artists@[id].name@
            && (forall|k: int| 0 <= k < db.artists@[id].singles@.len() ==> #[trigger] content[k] == QueueModel::Song(db.artists@[id].singles@[k]))
            && (forall|k: int| 0 <= k < db.artists@[id].albums@.len() && db.albums@.contains_key(db.artists@[id].albums@[k])
                ==> content.contains(#[trigger] album_entry(db, db.artists@[id].albums@[k])->0)),
{
    let a = db.artists@[id];
    lemma_song_entries(a.singles@);
    let content = song_entries(a.singles@) + album_entries(db, a.albums@);
    assert forall|k: int| 0 <= k < a.albums@.len() && db.albums@.contains_key(a.albums@[k])
        implies content.contains(#[trigger] album_entry(db, a.albums@[k])->0) by {
        lemma_album_entries_contains(db, a.albums@, k);
        let rest = album_entries(db, a.albums@);
        let i = choose|i: int| 0 <= i < rest.len() && rest[i] == album_entry(db, a.albums@[k])->0;
        assert(content[song_entries(a.singles@).len() + i] == rest[i]);
    }
}

/// A song, or a folder to drop before, is named by a non-empty path (the
/// empty path is the queue itself).
pub open spec fn target_has_path(t: DropTarget) -> bool {
    match t {
        DropTarget::Song { path, .. } => path@.len() > 0,
        DropTarget::FolderBefore { path } => path@.len() > 0,
        _ => true,
    }
}

/// An entry dragged within its own queue lands where the same entry dropped
/// from elsewhere would be added: where that appends to a folder, the entry
/// is moved into that folder; where that inserts at a position of a folder,
/// the entry is moved to that position.
pub proof fn lemma_move_lands_where_add_puts(t: DropTarget, from: Seq<usize>, qs: Seq<QueueModel>)
    requires
        target_ok(t),
        target_has_path(t),
    ensures
        match add_change(t, qs) {
            ChangeModel::Add(p, _) => move_change(t, from) == ChangeModel::MoveInto(from, p),
            ChangeModel::Insert(p, i, _) => 0 <= i <= usize::MAX
                && move_change(t, from) == ChangeModel::Move(from, p.push(i as usize)),
            _ => false,
        },
{
    match t {
        DropTarget::Song { path, insert_below } => {
            let p = path@;
            let i = if insert_below { p.last() + 1 } else { p.last() as int };
            assert(p.drop_last().push(i as usize) =~= (if insert_below { p.update(p.len() - 1, (p.last() + 1) as usize) } else { p }));
        },
        DropTarget::FolderBefore { path } => {
            assert(path@.drop_last().push(path@.last()) =~= path@);
        },
        _ => {},
    }
}

/// Dropping onto a folder adds to the end of that folder, and an entry
/// dragged there within its own queue is moved into that folder; dropping
/// just before a folder never puts anything into it.
pub proof fn lemma_drop_into_folder(path: Vec<usize>, from: Seq<usize>, qs: Seq<QueueModel>)
    ensures
        add_change(DropTarget::FolderInto { path }, qs) == ChangeModel::Add(path@, qs),
        move_change(DropTarget::FolderInto { path }, from) == ChangeModel::MoveInto(from, path@),
        path@.len() > 0 ==> add_change(DropTarget::FolderBefore { path }, qs)
            == ChangeModel::Insert(path@.drop_last(), path@.last() as int, qs),
        move_change(DropTarget::FolderBefore { path }, from) == ChangeModel::Move(from, path@),
{
}

} // verus!

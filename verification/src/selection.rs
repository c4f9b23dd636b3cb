//! The selection in the library view: which artists, albums and songs are
//! selected, and the queue a selection is dragged out as.
use std::collections::HashSet;
use vstd::prelude::*;
use crate::library::{albums_model, artists_model, FilteredAlbum, FilteredAlbumModel, FilteredArtist, FilteredArtistModel, Library, SortedArtist};

verus! {

broadcast use vstd::std_specs::hash::group_hash_axioms;

/// The selected artists, albums and songs (by id); `changed` is raised by
/// every change, for the view to redraw.
pub struct Selected {
    pub artists: HashSet<u64>,
    pub albums: HashSet<u64>,
    pub songs: HashSet<u64>,
    pub changed: bool,
}

impl View for Selected {
    type V = (Set<u64>, Set<u64>, Set<u64>);

    open spec fn view(&self) -> (Set<u64>, Set<u64>, Set<u64>) {
        (self.artists@, self.albums@, self.songs@)
    }
}

impl Selected {
    /// Nothing selected.
    pub fn new() -> (r: Selected)
        ensures
            r@ == (Set::<u64>::empty(), Set::<u64>::empty(), Set::<u64>::empty()),
            !r.changed,
    {
        Selected { artists: HashSet::new(), albums: HashSet::new(), songs: HashSet::new(), changed: false }
    }

    /// Deselects everything.
    pub fn clear(&mut self)
        ensures
            final(self)@ == (Set::<u64>::empty(), Set::<u64>::empty(), Set::<u64>::empty()),
            final(self).changed,
    {
        self.set_to(HashSet::new(), HashSet::new(), HashSet::new());
    }

    /// Replaces the selection.
    pub fn set_to(&mut self, artists: HashSet<u64>, albums: HashSet<u64>, songs: HashSet<u64>)
        ensures
            final(self)@ == (artists@, albums@, songs@),
            final(self).changed,
    {
        self.artists = artists;
        self.albums = albums;
        self.songs = songs;
        self.changed = true;
    }

    pub fn contains_artist(&self, id: u64) -> (r: bool)
        ensures
            r == self.artists@.contains(id),
    {
        self.artists.contains(&id)
    }

    pub fn contains_album(&self, id: u64) -> (r: bool)
        ensures
            r == self.albums@.contains(id),
    {
        self.albums.contains(&id)
    }

    pub fn contains_song(&self, id: u64) -> (r: bool)
        ensures
            r == self.songs@.contains(id),
    {
        self.songs.contains(&id)
    }

    /// Selects an artist; true when it was not selected before.
    pub fn insert_artist(&mut self, id: u64) -> (r: bool)
        ensures
            final(self)@ == (old(self)@.0.insert(id), old(self)@.1, old(self)@.2),
            r == !old(self)@.0.contains(id),
            final(self).changed,
    {
        self.changed = true;
        self.artists.insert(id)
    }

    /// Selects an album; true when it was not selected before.
    pub fn insert_album(&mut self, id: u64) -> (r: bool)
        ensures
            final(self)@ == (old(self)@.0, old(self)@.1.insert(id), old(self)@.2),
            r == !old(self)@.1.contains(id),
            final(self).changed,
    {
        self.changed = true;
        self.albums.insert(id)
    }

    /// Selects a song; true when it was not selected before.
    pub fn insert_song(&mut self, id: u64) -> (r: bool)
        ensures
            final(self)@ == (old(self)@.0, old(self)@.1, old(self)@.2.insert(id)),
            r == !old(self)@.2.contains(id),
            final(self).changed,
    {
        self.changed = true;
        self.songs.insert(id)
    }

    /// Deselects an artist; true when it was selected.
    pub fn remove_artist(&mut self, id: u64) -> (r: bool)
        ensures
            final(self)@ == (old(self)@.0.remove(id), old(self)@.1, old(self)@.2),
            r == old(self)@.0.contains(id),
            final(self).changed,
    {
        self.changed = true;
        self.artists.remove(&id)
    }

    /// Deselects an album; true when it was selected.
    pub fn remove_album(&mut self, id: u64) -> (r: bool)
        ensures
            final(self)@ == (old(self)@.0, old(self)@.1.remove(id), old(self)@.2),
            r == old(self)@.1.contains(id),
            final(self).changed,
    {
        self.changed = true;
        self.albums.remove(&id)
    }

    /// Deselects a song; true when it was selected.
    pub fn remove_song(&mut self, id: u64) -> (r: bool)
        ensures
            final(self)@ == (old(self)@.0, old(self)@.1, old(self)@.2.remove(id)),
            r == old(self)@.2.contains(id),
            final(self).changed,
    {
        self.changed = true;
        self.songs.remove(&id)
    }

    /// How many artists, albums and songs are selected.
    pub fn counts(&self) -> (r: (usize, usize, usize))
        ensures
            r.0 == self.artists@.len(),
            r.1 == self.albums@.len(),
            r.2 == self.songs@.len(),
    {
        (self.artists.len(), self.albums.len(), self.songs.len())
    }
}

/// The ids of these (song, score) entries.
pub open spec fn song_ids(s: Seq<(u64, u32)>) -> Set<u64>
    decreases s.len(),
{
    if s.len() == 0 {
        Set::empty()
    } else {
        song_ids(s.drop_last()).insert(s.last().0)
    }
}

/// The ids of these albums.
pub open spec fn album_ids(s: Seq<FilteredAlbumModel>) -> Set<u64>
    decreases s.len(),
{
    if s.len() == 0 {
        Set::empty()
    } else {
        album_ids(s.drop_last()).insert(s.last().id)
    }
}

/// The ids of the songs shown in these albums.
pub open spec fn album_song_ids(s: Seq<FilteredAlbumModel>) -> Set<u64>
    decreases s.len(),
{
    if s.len() == 0 {
        Set::empty()
    } else {
        album_song_ids(s.drop_last()) + song_ids(s.last().songs)
    }
}

/// The artists shown in the library view.
pub open spec fn view_artists(v: Seq<FilteredArtistModel>) -> Set<u64>
    decreases v.len(),
{
    if v.len() == 0 {
        Set::empty()
    } else {
        view_artists(v.drop_last()).insert(v.last().id)
    }
}

/// The albums shown in the library view.
pub open spec fn view_albums(v: Seq<FilteredArtistModel>) -> Set<u64>
    decreases v.len(),
{
    if v.len() == 0 {
        Set::empty()
    } else {
        view_albums(v.drop_last()) + album_ids(v.last().albums)
    }
}

/// The singles shown in the library view.
pub open spec fn view_singles(v: Seq<FilteredArtistModel>) -> Set<u64>
    decreases v.len(),
{
    if v.len() == 0 {
        Set::empty()
    } else {
        view_singles(v.drop_last()) + song_ids(v.last().singles)
    }
}

/// The songs shown in the albums of the library view.
pub open spec fn view_album_songs(v: Seq<FilteredArtistModel>) -> Set<u64>
    decreases v.len(),
{
    if v.len() == 0 {
        Set::empty()
    } else {
        view_album_songs(v.drop_last()) + album_song_ids(v.last().albums)
    }
}

fn insert_song_ids(set: &mut HashSet<u64>, s: &Vec<(u64, u32)>)
    ensures
        final(set)@ == old(set)@ + song_ids(s@),
{
    let mut k: usize = 0;
    while k < s.len()
        invariant
            k <= s@.len(),
            set@ == old(set)@ + song_ids(s@.take(k as int)),
        decreases s.len() - k,
    {
        assert(s@.take(k + 1).drop_last() =~= s@.take(k as int));
        set.insert(s[k].0);
        k = k + 1;
        assert(set@ =~= old(set)@ + song_ids(s@.take(k as int)));
    }
    assert(s@.take(s@.len() as int) =~= s@);
}

/// Inserts the ids of the albums (when `with_ids`) and of their songs.
fn insert_albums(albums_set: &mut HashSet<u64>, songs_set: &mut HashSet<u64>, s: &Vec<FilteredAlbum>, with_ids: bool)
    ensures
        with_ids ==> final(albums_set)@ == old(albums_set)@ + album_ids(albums_model(s@)),
        !with_ids ==> final(albums_set)@ == old(albums_set)@,
        final(songs_set)@ == old(songs_set)@ + album_song_ids(albums_model(s@)),
{
    let ghost m = albums_model(s@);
    let mut k: usize = 0;
    while k < s.len()
        invariant
            k <= s@.len(),
            m == albums_model(s@),
            with_ids ==> albums_set@ == old(albums_set)@ + album_ids(m.take(k as int)),
            !with_ids ==> albums_set@ == old(albums_set)@,
            songs_set@ == old(songs_set)@ + album_song_ids(m.take(k as int)),
        decreases s.len() - k,
    {
        assert(m.take(k + 1).drop_last() =~= m.take(k as int));
        assert(m.take(k + 1).last() == s@[k as int]@);
        if with_ids {
            albums_set.insert(s[k].id);
        }
        insert_song_ids(songs_set, &s[k].songs);
        k = k + 1;
        assert(albums_set@ =~= old(albums_set)@ + album_ids(m.take(k as int)) || !with_ids);
        assert(songs_set@ =~= old(songs_set)@ + album_song_ids(m.take(k as int)));
    }
    assert(m.take(m.len() as int) =~= m);
}

impl Selected {
    /// Selects everything the library view shows: its artists, albums and
    /// songs.
    pub fn add_all(&mut self, view: &Vec<FilteredArtist>)
        ensures
            final(self)@.0 == old(self)@.0 + view_artists(artists_model(view@)),
            final(self)@.1 == old(self)@.1 + view_albums(artists_model(view@)),
            final(self)@.2 == old(self)@.2 + view_singles(artists_model(view@)) + view_album_songs(artists_model(view@)),
            final(self).changed,
    {
        let ghost m = artists_model(view@);
        let ghost start = self@;
        let mut i: usize = 0;
        while i < view.len()
            invariant
                i <= view@.len(),
                m == artists_model(view@),
                self@.0 == start.0 + view_artists(m.take(i as int)),
                self@.1 == start.1 + view_albums(m.take(i as int)),
                self@.2 == start.2 + view_singles(m.take(i as int)) + view_album_songs(m.take(i as int)),
            decreases view.len() - i,
        {
            assert(m.take(i + 1).drop_last() =~= m.take(i as int));
            assert(m.take(i + 1).last() == view@[i as int]@);
            let a = &view[i];
            self.artists.insert(a.id);
            insert_song_ids(&mut self.songs, &a.singles);
            insert_albums(&mut self.albums, &mut self.songs, &a.albums, true);
            i = i + 1;
            assert(self@.0 =~= start.0 + view_artists(m.take(i as int)));
            assert(self@.1 =~= start.1 + view_albums(m.take(i as int)));
            assert(self@.2 =~= start.2 + view_singles(m.take(i as int)) + view_album_songs(m.take(i as int)));
        }
        assert(m.take(m.len() as int) =~= m);
        self.changed = true;
    }

    /// Selects every song the library view shows.
    pub fn add_songs(&mut self, view: &Vec<FilteredArtist>)
        ensures
            final(self)@.0 == old(self)@.0,
            final(self)@.1 == old(self)@.1,
            final(self)@.2 == old(self)@.2 + view_singles(artists_model(view@)) + view_album_songs(artists_model(view@)),
            final(self).changed,
    {
        let ghost m = artists_model(view@);
        let ghost start = self@;
        let mut i: usize = 0;
        while i < view.len()
            invariant
                i <= view@.len(),
                m == artists_model(view@),
                self@.0 == start.0,
                self@.1 == start.1,
                self@.2 == start.2 + view_singles(m.take(i as int)) + view_album_songs(m.take(i as int)),
            decreases view.len() - i,
        {
            assert(m.take(i + 1).drop_last() =~= m.take(i as int));
            assert(m.take(i + 1).last() == view@[i as int]@);
            let a = &view[i];
            insert_song_ids(&mut self.songs, &a.singles);
            insert_albums(&mut self.albums, &mut self.songs, &a.albums, false);
            i = i + 1;
            assert(self@.2 =~= start.2 + view_singles(m.take(i as int)) + view_album_songs(m.take(i as int)));
        }
        assert(m.take(m.len() as int) =~= m);
        self.changed = true;
    }

    /// Selects every album the library view shows, with its shown songs.
    pub fn add_albums(&mut self, view: &Vec<FilteredArtist>)
        ensures
            final(self)@.0 == old(self)@.0,
            final(self)@.1 == old(self)@.1 + view_albums(artists_model(view@)),
            final(self)@.2 == old(self)@.2 + view_album_songs(artists_model(view@)),
            final(self).changed,
    {
        let ghost m = artists_model(view@);
        let ghost start = self@;
        let mut i: usize = 0;
        while i < view.len()
            invariant
                i <= view@.len(),
                m == artists_model(view@),
                self@.0 == start.0,
                self@.1 == start.1 + view_albums(m.take(i as int)),
                self@.2 == start.2 + view_album_songs(m.take(i as int)),
            decreases view.len() - i,
        {
            assert(m.take(i + 1).drop_last() =~= m.take(i as int));
            assert(m.take(i + 1).last() == view@[i as int]@);
            insert_albums(&mut self.albums, &mut self.songs, &view[i].albums, true);
            i = i + 1;
            assert(self@.1 =~= start.1 + view_albums(m.take(i as int)));
            assert(self@.2 =~= start.2 + view_album_songs(m.take(i as int)));
        }
        assert(m.take(m.len() as int) =~= m);
        self.changed = true;
    }
}

/// An entry of a queue: a song, a named folder of entries with the
/// position it plays from, or an entry repeated a number of times (0:
/// forever), with the number of rounds done.
pub enum QueueItem {
    Song(u64),
    Folder(usize, Vec<QueueItem>, String),
    Loop(usize, usize, Box<QueueItem>),
}

pub enum QueueModel {
    Song(u64),
    Folder(usize, Seq<QueueModel>, Seq<char>),
    Loop(usize, usize, Box<QueueModel>),
}

pub open spec fn queue_model(q: QueueItem) -> QueueModel
    decreases q,
{
    match q {
        QueueItem::Song(id) => QueueModel::Song(id),
        QueueItem::Folder(i, v, name) => QueueModel::Folder(i, queue_models(v@), name@),
        QueueItem::Loop(total, done, inner) => QueueModel::Loop(total, done, Box::new(queue_model(*inner))),
    }
}

pub open spec fn queue_models(s: Seq<QueueItem>) -> Seq<QueueModel>
    decreases s,
{
    if s.len() == 0 {
        Seq::empty()
    } else {
        queue_models(s.drop_last()).push(queue_model(s.last()))
    }
}

/// The selected songs among these, as queue entries, in order.
pub open spec fn selected_songs(sel: Set<u64>, ids: Seq<u64>) -> Seq<QueueModel>
    decreases ids.len(),
{
    if ids.len() == 0 {
        Seq::empty()
    } else {
        let rest = selected_songs(sel, ids.drop_last());
        if sel.contains(ids.last()) { rest.push(QueueModel::Song(ids.last())) } else { rest }
    }
}

pub open spec fn album_name(db: Library, id: u64) -> Seq<char> {
    if db.albums@.contains_key(id) { db.albums@[id].name@ } else { "< unknown album >"@ }
}

pub open spec fn artist_name(db: Library, id: u64) -> Seq<char> {
    if db.artists@.contains_key(id) { db.artists@[id].name@ } else { "< unknown artist >"@ }
}

/// What a selection queues of an album: a folder named after the album with
/// its selected songs when the album is selected (even with none), else
/// just its selected songs.
pub open spec fn album_queue(db: Library, sel: (Set<u64>, Set<u64>, Set<u64>), album: u64, songs: Seq<u64>) -> Seq<QueueModel> {
    if sel.1.contains(album) {
        seq![QueueModel::Folder(0, selected_songs(sel.2, songs), album_name(db, album))]
    } else {
        selected_songs(sel.2, songs)
    }
}

pub open spec fn albums_queue(db: Library, sel: (Set<u64>, Set<u64>, Set<u64>), albums: Seq<(u64, Vec<u64>)>) -> Seq<QueueModel>
    decreases albums.len(),
{
    if albums.len() == 0 {
        Seq::empty()
    } else {
        albums_queue(db, sel, albums.drop_last()) + album_queue(db, sel, albums.last().0, albums.last().1@)
    }
}

/// What a selection queues of an artist: its selected singles, then what it
/// queues of each album; in a folder named after the artist when the artist
/// is selected.
pub open spec fn artist_queue(db: Library, sel: (Set<u64>, Set<u64>, Set<u64>), e: SortedArtist) -> Seq<QueueModel> {
    let inner = selected_songs(sel.2, e.singles@) + albums_queue(db, sel, e.albums@);
    if sel.0.contains(e.id) {
        seq![QueueModel::Folder(0, inner, artist_name(db, e.id))]
    } else {
        inner
    }
}

pub open spec fn library_queue(db: Library, sel: (Set<u64>, Set<u64>, Set<u64>), sorted: Seq<SortedArtist>) -> Seq<QueueModel>
    decreases sorted.len(),
{
    if sorted.len() == 0 {
        Seq::empty()
    } else {
        library_queue(db, sel, sorted.drop_last()) + artist_queue(db, sel, sorted.last())
    }
}

/// The model of a queue with one more entry is the model with one more entry.
pub proof fn lemma_queue_models_push(s: Seq<QueueItem>, x: QueueItem)
    ensures
        queue_models(s.push(x)) == queue_models(s).push(queue_model(x)),
{
    assert(s.push(x).drop_last() =~= s);
}

impl Selected {
    fn push_selected_songs(&self, dest: &mut Vec<QueueItem>, ids: &Vec<u64>)
        ensures
            queue_models(final(dest)@) == queue_models(old(dest)@) + selected_songs(self@.2, ids@),
    {
        let mut k: usize = 0;
        while k < ids.len()
            invariant
                k <= ids@.len(),
                queue_models(dest@) == queue_models(old(dest)@) + selected_songs(self@.2, ids@.take(k as int)),
            decreases ids.len() - k,
        {
            assert(ids@.take(k + 1).drop_last() =~= ids@.take(k as int));
            let id = ids[k];
            if self.songs.contains(&id) {
                proof { lemma_queue_models_push(dest@, QueueItem::Song(id)); }
                dest.push(QueueItem::Song(id));
            }
            k = k + 1;
            assert(queue_models(dest@) =~= queue_models(old(dest)@) + selected_songs(self@.2, ids@.take(k as int)));
        }
        assert(ids@.take(ids@.len() as int) =~= ids@);
    }

    fn push_albums(&self, db: &Library, dest: &mut Vec<QueueItem>, albums: &Vec<(u64, Vec<u64>)>)
        ensures
            queue_models(final(dest)@) == queue_models(old(dest)@) + albums_queue(*db, self@, albums@),
    {
        let mut k: usize = 0;
        while k < albums.len()
            invariant
                k <= albums@.len(),
                queue_models(dest@) == queue_models(old(dest)@) + albums_queue(*db, self@, albums@.take(k as int)),
            decreases albums.len() - k,
        {
            assert(albums@.take(k + 1).drop_last() =~= albums@.take(k as int));
            assert(albums@.take(k + 1).last() == albums@[k as int]);
            let album = albums[k].0;
            if self.albums.contains(&album) {
                let mut inner: Vec<QueueItem> = Vec::new();
                self.push_selected_songs(&mut inner, &albums[k].1);
                assert(queue_models(Seq::<QueueItem>::empty()) =~= Seq::<QueueModel>::empty());
                let name = match db.albums.get(&album) {
                    Some(a) => a.name.clone(),
                    None => "< unknown album >".to_string(),
                };
                let item = QueueItem::Folder(0, inner, name);
                proof { lemma_queue_models_push(dest@, item); }
                dest.push(item);
            } else {
                self.push_selected_songs(dest, &albums[k].1);
            }
            k = k + 1;
            assert(queue_models(dest@) =~= queue_models(old(dest)@) + albums_queue(*db, self@, albums@.take(k as int)));
        }
        assert(albums@.take(albums@.len() as int) =~= albums@);
    }

    fn push_artist_content(&self, db: &Library, dest: &mut Vec<QueueItem>, e: &SortedArtist)
        ensures
            queue_models(final(dest)@) == queue_models(old(dest)@) + selected_songs(self@.2, e.singles@) + albums_queue(*db, self@, e.albums@),
    {
        self.push_selected_songs(dest, &e.singles);
        self.push_albums(db, dest, &e.albums);
        assert(queue_models(dest@) =~= queue_models(old(dest)@) + selected_songs(self@.2, e.singles@) + albums_queue(*db, self@, e.albums@));
    }

    /// The queue a drag of the selection carries: the library in its order,
    /// each selected song once in place, selected albums and artists as
    /// folders named after them.
    pub fn as_queue(&self, sorted: &Vec<SortedArtist>, db: &Library) -> (r: Vec<QueueItem>)
        ensures
            queue_models(r@) == library_queue(*db, self@, sorted@),
    {
        let mut out: Vec<QueueItem> = Vec::new();
        assert(queue_models(out@) =~= library_queue(*db, self@, sorted@.take(0)));
        let mut i: usize = 0;
        while i < sorted.len()
            invariant
                i <= sorted@.len(),
                queue_models(out@) == library_queue(*db, self@, sorted@.take(i as int)),
            decreases sorted.len() - i,
        {
            assert(sorted@.take(i + 1).drop_last() =~= sorted@.take(i as int));
            assert(sorted@.take(i + 1).last() == sorted@[i as int]);
            let e = &sorted[i];
            if self.artists.contains(&e.id) {
                let mut local: Vec<QueueItem> = Vec::new();
                assert(queue_models(local@) =~= Seq::<QueueModel>::empty());
                self.push_artist_content(db, &mut local, e);
                let name = match db.artists.get(&e.id) {
                    Some(a) => a.name.clone(),
                    None => "< unknown artist >".to_string(),
                };
                let item = QueueItem::Folder(0, local, name);
                proof { lemma_queue_models_push(out@, item); }
                out.push(item);
            } else {
                self.push_artist_content(db, &mut out, e);
            }
            i = i + 1;
            assert(queue_models(out@) =~= library_queue(*db, self@, sorted@.take(i as int)));
        }
        assert(sorted@.take(sorted@.len() as int) =~= sorted@);
        out
    }
}

} // verus!

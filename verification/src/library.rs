//! The library view: the database's artists, albums and songs, narrowed by
//! the search fields and ordered by how well they match.
use std::collections::HashMap;
use vstd::prelude::*;
use vstd::std_specs::iter::IteratorSpec;
use crate::filter::{filter_passes, Filter, GeneralData};
use crate::ranking::{insert_ranked, lemma_rank_sort_contains, lemma_rank_sort_sorted, rank_sorted, rank_insert, lemma_rank_insert_map, max_rank, rank_sort, Ranked};
use crate::search::{field_score, lemma_field_score_bound, SearchField};
use crate::textgen::strings_model;
use crate::strings::{lemma_lex_le_total, lemma_lex_le_trans, lex_le, str_le};

verus! {

broadcast use vstd::std_specs::hash::group_hash_axioms;

pub struct Artist {
    pub name: String,
    pub cover: Option<u64>,
    pub general: GeneralData,
    pub albums: Vec<u64>,
    pub singles: Vec<u64>,
}

pub struct Album {
    pub name: String,
    pub artist: u64,
    pub cover: Option<u64>,
    pub general: GeneralData,
    pub songs: Vec<u64>,
}

pub struct Song {
    pub title: String,
    pub album: Option<u64>,
    pub artist: u64,
    pub cover: Option<u64>,
    pub general: GeneralData,
    pub duration_millis: u64,
}

/// The entries of the database, by id.
pub struct Library {
    pub artists: HashMap<u64, Artist>,
    pub albums: HashMap<u64, Album>,
    pub songs: HashMap<u64, Song>,
}

/// What is searched for, in each kind of entry.
pub struct LibrarySearch {
    /// Rank matches at the start of a name or word above others.
    pub prefer_start: bool,
    pub artist: SearchField,
    pub album: SearchField,
    pub song: SearchField,
}

/// Songs without an album are shown only while albums are not searched for
/// or filtered.
pub open spec fn allow_singles(search: LibrarySearch) -> bool {
    search.album.text@.len() == 0 && search.album.filter.filters@.len() == 0
}

/// A song's score: its search field's score, or 0 for a song without an
/// album while singles are hidden.
pub open spec fn song_score(search: LibrarySearch, song: Song) -> nat {
    if song.album is Some || allow_singles(search) {
        field_score(search.prefer_start, search.song, song.title@, song.general)
    } else {
        0
    }
}

/// The songs with these ids that are in the database and score above 0,
/// with their scores, in the order of the ids.
pub open spec fn scored_songs(songs: Map<u64, Song>, search: LibrarySearch, ids: Seq<u64>) -> Seq<(u64, u32)>
    decreases ids.len(),
{
    if ids.len() == 0 {
        Seq::empty()
    } else {
        let rest = scored_songs(songs, search, ids.drop_last());
        let id = ids.last();
        if songs.contains_key(id) && song_score(search, songs[id]) > 0 {
            rest.push((id, song_score(search, songs[id]) as u32))
        } else {
            rest
        }
    }
}

impl LibrarySearch {
    /// Scores a song.
    pub fn song_score(&self, song: &Song) -> (r: u32)
        ensures
            r == song_score(*self, *song),
            r <= 6,
    {
        let singles = self.album.text.as_str().is_empty() && self.album.filter.filters.len() == 0;
        if song.album.is_some() || singles {
            self.song.score(self.prefer_start, song.title.as_str(), &song.general)
        } else {
            0
        }
    }
}

/// The songs with these ids that are shown, best first, with the best
/// score among them.
fn score_songs(db: &Library, search: &LibrarySearch, ids: &Vec<u64>) -> (r: (Vec<(u64, u32)>, u32))
    ensures
        r.0@ == rank_sort(scored_songs(db.songs@, *search, ids@)),
        r.1 == max_rank(scored_songs(db.songs@, *search, ids@)),
        r.1 <= 6,
{
    let mut out: Vec<(u64, u32)> = Vec::new();
    let mut best: u32 = 0;
    let mut i: usize = 0;
    while i < ids.len()
        invariant
            i <= ids@.len(),
            out@ == rank_sort(scored_songs(db.songs@, *search, ids@.take(i as int))),
            best == max_rank(scored_songs(db.songs@, *search, ids@.take(i as int))),
            best <= 6,
        decreases ids.len() - i,
    {
        let id = ids[i];
        let ghost prev = scored_songs(db.songs@, *search, ids@.take(i as int));
        assert(ids@.take(i + 1).drop_last() =~= ids@.take(i as int));
        match db.songs.get(&id) {
            Some(song) => {
                let s = search.song_score(song);
                if s > 0 {
                    if s > best {
                        best = s;
                    }
                    assert(prev.push((id, s)).drop_last() =~= prev);
                    insert_ranked(&mut out, (id, s));
                }
            },
            None => {},
        }
        i = i + 1;
    }
    assert(ids@.take(ids@.len() as int) =~= ids@);
    (out, best)
}

/// An album shown in the library view: its shown songs, best first, and its
/// score.
pub struct FilteredAlbum {
    pub id: u64,
    pub songs: Vec<(u64, u32)>,
    pub score: u32,
}

pub struct FilteredAlbumModel {
    pub id: u64,
    pub songs: Seq<(u64, u32)>,
    pub score: u32,
}

impl View for FilteredAlbum {
    type V = FilteredAlbumModel;

    open spec fn view(&self) -> FilteredAlbumModel {
        FilteredAlbumModel { id: self.id, songs: self.songs@, score: self.score }
    }
}

impl Ranked for FilteredAlbum {
    open spec fn rank(&self) -> nat {
        self.score as nat
    }

    fn rank_exec(&self) -> (r: u64) {
        self.score as u64
    }
}

impl Ranked for FilteredAlbumModel {
    open spec fn rank(&self) -> nat {
        self.score as nat
    }

    fn rank_exec(&self) -> (r: u64) {
        self.score as u64
    }
}

pub open spec fn albums_model(s: Seq<FilteredAlbum>) -> Seq<FilteredAlbumModel> {
    s.map_values(|a: FilteredAlbum| a@)
}

/// An album of the library, as the view shows it, if it does: its score is
/// its search field's score times the best score of its shown songs, and it
/// is shown when that is above 0.
pub open spec fn album_entry(db: Library, search: LibrarySearch, id: u64, song_ids: Seq<u64>) -> Option<FilteredAlbumModel> {
    if db.albums@.contains_key(id) {
        let album = db.albums@[id];
        let songs = scored_songs(db.songs@, search, song_ids);
        let score = field_score(search.prefer_start, search.album, album.name@, album.general) * max_rank(songs);
        if score > 0 {
            Some(FilteredAlbumModel { id, songs: rank_sort(songs), score: score as u32 })
        } else {
            None
        }
    } else {
        None
    }
}

/// The shown albums among these (album id, song ids) entries, in order.
pub open spec fn kept_albums(db: Library, search: LibrarySearch, albums: Seq<(u64, Vec<u64>)>) -> Seq<FilteredAlbumModel>
    decreases albums.len(),
{
    if albums.len() == 0 {
        Seq::empty()
    } else {
        let rest = kept_albums(db, search, albums.drop_last());
        match album_entry(db, search, albums.last().0, albums.last().1@) {
            Some(a) => rest.push(a),
            None => rest,
        }
    }
}

proof fn lemma_max_rank_bound<T: Ranked>(s: Seq<T>, b: nat)
    requires
        forall|i: int| 0 <= i < s.len() ==> #[trigger] s[i].rank() <= b,
    ensures
        max_rank(s) <= b,
    decreases s.len(),
{
    if s.len() > 0 {
        lemma_max_rank_bound(s.drop_last(), b);
    }
}

/// The shown albums, best first, with the best album score.
fn filter_albums(db: &Library, search: &LibrarySearch, albums: &Vec<(u64, Vec<u64>)>) -> (r: (Vec<FilteredAlbum>, u32))
    ensures
        albums_model(r.0@) == rank_sort(kept_albums(*db, *search, albums@)),
        r.1 == max_rank(kept_albums(*db, *search, albums@)),
        r.1 <= 36,
{
    let mut out: Vec<FilteredAlbum> = Vec::new();
    let mut best: u32 = 0;
    let mut i: usize = 0;
    while i < albums.len()
        invariant
            i <= albums@.len(),
            albums_model(out@) == rank_sort(kept_albums(*db, *search, albums@.take(i as int))),
            best == max_rank(kept_albums(*db, *search, albums@.take(i as int))),
            best <= 36,
        decreases albums.len() - i,
    {
        let id = albums[i].0;
        let ghost prev = kept_albums(*db, *search, albums@.take(i as int));
        let ghost next = kept_albums(*db, *search, albums@.take(i + 1));
        assert(albums@.take(i + 1).drop_last() =~= albums@.take(i as int));
        assert(albums@.take(i + 1).last() == albums@[i as int]);
        match db.albums.get(&id) {
            Some(album) => {
                let fs = search.album.score(search.prefer_start, album.name.as_str(), &album.general);
                let ghost mx_spec = max_rank(scored_songs(db.songs@, *search, albums@[i as int].1@));
                if fs > 0 {
                    let (songs, mx) = score_songs(db, search, &albums[i].1);
                    assert(fs * mx <= 36) by (nonlinear_arith)
                        requires
                            fs <= 6,
                            mx <= 6,
                    ;
                    let score = fs * mx;
                    if score > 0 {
                        if score > best {
                            best = score;
                        }
                        let entry = FilteredAlbum { id, songs, score };
                        let ghost before = out@;
                        let ghost e = entry;
                        insert_ranked(&mut out, entry);
                        proof {
                            let f = |a: FilteredAlbum| a@;
                            assert(prev.push(e@).drop_last() =~= prev);
                            assert(next == prev.push(e@));
                            lemma_rank_insert_map(before, e, f);
                            assert(albums_model(out@) =~= out@.map_values(f));
                            assert(albums_model(before) =~= before.map_values(f));
                        }
                    } else {
                        assert(next == prev);
                    }
                } else {
                    assert(0 * mx_spec == 0);
                    assert(next == prev);
                }
            },
            None => {
                assert(next == prev);
            },
        }
        i = i + 1;
    }
    assert(albums@.take(albums@.len() as int) =~= albums@);
    (out, best)
}

/// An artist of the library as the view keeps it: the artist's singles,
/// and its albums with their songs, in the order of the view.
pub struct SortedArtist {
    pub id: u64,
    pub singles: Vec<u64>,
    pub albums: Vec<(u64, Vec<u64>)>,
}

/// An artist shown in the library view: its shown singles and albums, best
/// first, and its score.
pub struct FilteredArtist {
    pub id: u64,
    pub singles: Vec<(u64, u32)>,
    pub albums: Vec<FilteredAlbum>,
    pub score: u32,
}

pub struct FilteredArtistModel {
    pub id: u64,
    pub singles: Seq<(u64, u32)>,
    pub albums: Seq<FilteredAlbumModel>,
    pub score: u32,
}

impl View for FilteredArtist {
    type V = FilteredArtistModel;

    open spec fn view(&self) -> FilteredArtistModel {
        FilteredArtistModel {
            id: self.id,
            singles: self.singles@,
            albums: albums_model(self.albums@),
            score: self.score,
        }
    }
}

impl Ranked for FilteredArtist {
    open spec fn rank(&self) -> nat {
        self.score as nat
    }

    fn rank_exec(&self) -> (r: u64) {
        self.score as u64
    }
}

impl Ranked for FilteredArtistModel {
    open spec fn rank(&self) -> nat {
        self.score as nat
    }

    fn rank_exec(&self) -> (r: u64) {
        self.score as u64
    }
}

pub open spec fn artists_model(s: Seq<FilteredArtist>) -> Seq<FilteredArtistModel> {
    s.map_values(|a: FilteredArtist| a@)
}

/// An artist of the library, as the view shows it, if it does: its score is
/// its search field's score times the best score among its shown albums
/// (its singles are listed, but do not count), and it is shown when that is
/// above 0.
pub open spec fn artist_entry(db: Library, search: LibrarySearch, e: SortedArtist) -> Option<FilteredArtistModel> {
    if db.artists@.contains_key(e.id) {
        let artist = db.artists@[e.id];
        let singles = scored_songs(db.songs@, search, e.singles@);
        let albums = kept_albums(db, search, e.albums@);
        let best = max_rank(albums);
        let score = field_score(search.prefer_start, search.artist, artist.name@, artist.general) * best;
        if score > 0 {
            Some(FilteredArtistModel {
                id: e.id,
                singles: rank_sort(singles),
                albums: rank_sort(albums),
                score: score as u32,
            })
        } else {
            None
        }
    } else {
        None
    }
}

/// The shown artists among these, in order.
pub open spec fn kept_artists(db: Library, search: LibrarySearch, sorted: Seq<SortedArtist>) -> Seq<FilteredArtistModel>
    decreases sorted.len(),
{
    if sorted.len() == 0 {
        Seq::empty()
    } else {
        let rest = kept_artists(db, search, sorted.drop_last());
        match artist_entry(db, search, sorted.last()) {
            Some(a) => rest.push(a),
            None => rest,
        }
    }
}

/// The library view: the shown artists, best first, each with its shown
/// singles and albums, best first.
pub open spec fn filtered_library(db: Library, search: LibrarySearch, sorted: Seq<SortedArtist>) -> Seq<FilteredArtistModel> {
    rank_sort(kept_artists(db, search, sorted))
}

/// Narrows the library to what the search shows and orders it by score:
/// an entry scores 0 (hidden) when its filter rejects it or its pattern does
/// not match; an album's score is multiplied by its best song's, an artist's
/// by its best album's; entries with equal scores keep the
/// order of `sorted`.
pub fn filter_local_library(db: &Library, search: &LibrarySearch, sorted: &Vec<SortedArtist>) -> (r: Vec<FilteredArtist>)
    ensures
        artists_model(r@) == filtered_library(*db, *search, sorted@),
{
    let mut out: Vec<FilteredArtist> = Vec::new();
    let mut i: usize = 0;
    while i < sorted.len()
        invariant
            i <= sorted@.len(),
            artists_model(out@) == rank_sort(kept_artists(*db, *search, sorted@.take(i as int))),
        decreases sorted.len() - i,
    {
        let entry = &sorted[i];
        let id = entry.id;
        let ghost prev = kept_artists(*db, *search, sorted@.take(i as int));
        let ghost next = kept_artists(*db, *search, sorted@.take(i + 1));
        assert(sorted@.take(i + 1).drop_last() =~= sorted@.take(i as int));
        assert(sorted@.take(i + 1).last() == sorted@[i as int]);
        match db.artists.get(&id) {
            Some(artist) => {
                let fs = search.artist.score(search.prefer_start, artist.name.as_str(), &artist.general);
                let ghost best_spec = {
                    max_rank(kept_albums(*db, *search, entry.albums@))
                };
                if fs > 0 {
                    let (singles, _) = score_songs(db, search, &entry.singles);
                    let (albums, best) = filter_albums(db, search, &entry.albums);
                    assert(fs * best <= 216) by (nonlinear_arith)
                        requires
                            fs <= 6,
                            best <= 36,
                    ;
                    let score = fs * best;
                    if score > 0 {
                        let item = FilteredArtist { id, singles, albums, score };
                        let ghost before = out@;
                        let ghost e = item;
                        insert_ranked(&mut out, item);
                        proof {
                            let f = |a: FilteredArtist| a@;
                            assert(prev.push(e@).drop_last() =~= prev);
                            assert(next == prev.push(e@));
                            lemma_rank_insert_map(before, e, f);
                            assert(artists_model(out@) =~= out@.map_values(f));
                            assert(artists_model(before) =~= before.map_values(f));
                        }
                    } else {
                        assert(next == prev);
                    }
                } else {
                    assert(0 * best_spec == 0);
                    assert(next == prev);
                }
            },
            None => {
                assert(next == prev);
            },
        }
        i = i + 1;
    }
    assert(sorted@.take(sorted@.len() as int) =~= sorted@);
    out
}

/// The ids of the artists in the database, each once, in the map's order.
pub fn artist_ids(db: &Library) -> (r: Vec<u64>)
    ensures
        r@.to_set() == db.artists@.dom(),
        r@.no_duplicates(),
{
    let mut ids: Vec<u64> = Vec::new();
    for id in it: db.artists.keys()
        invariant
            ids@ == it.seq().take(it.index()).map_values(|k: &u64| *k),
            it.seq() == vstd::std_specs::hash::spec_keys_iter(&db.artists).remaining(),
    {
        ids.push(*id);
    }
    let ghost keys = vstd::std_specs::hash::spec_keys_iter(&db.artists).remaining();
    assert(ids@ =~= keys.unref());
    ids
}

/// The artists with these ids are in order of their names.
pub open spec fn names_sorted(artists: Map<u64, Artist>, ids: Seq<u64>) -> bool {
    forall|i: int, j: int| 0 <= i < j < ids.len() ==> lex_le(artists[#[trigger] ids[i]].name@, artists[#[trigger] ids[j]].name@)
}

proof fn lemma_insert_sorted(m: Map<u64, Artist>, s: Seq<u64>, p: int, x: u64)
    requires
        names_sorted(m, s),
        0 <= p <= s.len(),
        forall|q: int| 0 <= q < p ==> lex_le(m[#[trigger] s[q]].name@, m[x].name@),
        p < s.len() ==> !lex_le(m[s[p]].name@, m[x].name@),
    ensures
        names_sorted(m, s.insert(p, x)),
{
    let t = s.insert(p, x);
    assert forall|i: int, j: int| 0 <= i < j < t.len() implies lex_le(m[#[trigger] t[i]].name@, m[#[trigger] t[j]].name@) by {
        if j < p {
            assert(t[i] == s[i] && t[j] == s[j]);
        } else if j == p {
            assert(t[i] == s[i] && t[j] == x);
        } else {
            assert(t[j] == s[j - 1]);
            if i < p {
                assert(t[i] == s[i]);
            } else if i == p {
                assert(t[i] == x);
                lemma_lex_le_total(m[s[p]].name@, m[x].name@);
                if j - 1 > p {
                    lemma_lex_le_trans(m[x].name@, m[s[p]].name@, m[s[j - 1]].name@);
                }
            } else {
                assert(t[i] == s[i - 1]);
            }
        }
    }
}

/// Orders artist ids by the artists' names.
fn sort_by_name(db: &Library, ids: &Vec<u64>) -> (r: Vec<u64>)
    requires
        forall|k: int| 0 <= k < ids@.len() ==> db.artists@.contains_key(#[trigger] ids@[k]),
    ensures
        r@.to_multiset() == ids@.to_multiset(),
        names_sorted(db.artists@, r@),
        forall|k: int| 0 <= k < r@.len() ==> db.artists@.contains_key(#[trigger] r@[k]),
{
    let mut out: Vec<u64> = Vec::new();
    let mut i: usize = 0;
    assert(ids@.take(0) =~= out@);
    while i < ids.len()
        invariant
            i <= ids@.len(),
            forall|k: int| 0 <= k < ids@.len() ==> db.artists@.contains_key(#[trigger] ids@[k]),
            out@.to_multiset() == ids@.take(i as int).to_multiset(),
            names_sorted(db.artists@, out@),
            forall|k: int| 0 <= k < out@.len() ==> db.artists@.contains_key(#[trigger] out@[k]),
        decreases ids.len() - i,
    {
        let x = ids[i];
        assert(db.artists@.contains_key(ids@[i as int]));
        let name_x = &db.artists.get(&x).unwrap().name;
        let mut p: usize = 0;
        while p < out.len() && str_le(db.artists.get(&out[p]).unwrap().name.as_str(), name_x.as_str())
            invariant
                p <= out@.len(),
                forall|k: int| 0 <= k < out@.len() ==> db.artists@.contains_key(#[trigger] out@[k]),
                db.artists@.contains_key(x),
                *name_x == db.artists@[x].name,
                forall|q: int| 0 <= q < p ==> lex_le(db.artists@[#[trigger] out@[q]].name@, db.artists@[x].name@),
            decreases out.len() - p,
        {
            assert(db.artists@.contains_key(out@[p as int]));
            p = p + 1;
        }
        proof {
            if p < out@.len() {
                assert(db.artists@.contains_key(out@[p as int]));
            }
            lemma_insert_sorted(db.artists@, out@, p as int, x);
            assert(ids@.take(i + 1) =~= ids@.take(i as int).insert(i as int, x));
        }
        let ghost before = out@;
        out.insert(p, x);
        proof {
            vstd::seq_lib::to_multiset_insert(before, p as int, x);
            vstd::seq_lib::to_multiset_insert(ids@.take(i as int), i as int, x);
            assert forall|k: int| 0 <= k < out@.len() implies db.artists@.contains_key(#[trigger] out@[k]) by {
                if k < p {
                    assert(out@[k] == before[k]);
                } else if k > p {
                    assert(out@[k] == before[k - 1]);
                }
            }
        }
        i = i + 1;
    }
    assert(ids@.take(ids@.len() as int) =~= ids@);
    out
}

/// The songs the database lists for an album, none for an album it does
/// not know.
pub open spec fn album_songs(db: Library, id: u64) -> Seq<u64> {
    if db.albums@.contains_key(id) {
        db.albums@[id].songs@
    } else {
        Seq::empty()
    }
}

/// What the view keeps of an artist of the database: its singles, and its
/// albums with their songs.
pub open spec fn sorted_entry_of(db: Library, e: SortedArtist) -> bool {
    let artist = db.artists@[e.id];
    &&& db.artists@.contains_key(e.id)
    &&& e.singles@ == artist.singles@
    &&& e.albums@.len() == artist.albums@.len()
    &&& forall|k: int| 0 <= k < e.albums@.len() ==> (#[trigger] e.albums@[k]).0 == artist.albums@[k] && e.albums@[k].1@ == album_songs(db, artist.albums@[k])
}

pub open spec fn entry_ids(s: Seq<SortedArtist>) -> Seq<u64> {
    s.map_values(|e: SortedArtist| e.id)
}

/// `s` is the library as the view keeps it: every artist of the database
/// once, ordered by name, each with its singles and its albums' songs.
pub open spec fn sorted_from(db: Library, s: Seq<SortedArtist>) -> bool {
    &&& entry_ids(s).no_duplicates()
    &&& entry_ids(s).to_set() == db.artists@.dom()
    &&& names_sorted(db.artists@, entry_ids(s))
    &&& forall|i: int| 0 <= i < s.len() ==> sorted_entry_of(db, #[trigger] s[i])
}

fn copy_ids(v: &Vec<u64>) -> (r: Vec<u64>)
    ensures
        r@ == v@,
{
    let r = v.clone();
    assert(r@ =~= v@);
    r
}

/// The library as the view keeps it: every artist of the database once,
/// ordered by name, with its singles and its albums' songs.
pub fn update_local_library(db: &Library) -> (r: Vec<SortedArtist>)
    ensures
        sorted_from(*db, r@),
{
    let ids = artist_ids(db);
    assert forall|k: int| 0 <= k < ids@.len() implies db.artists@.contains_key(#[trigger] ids@[k]) by {
        assert(ids@.to_set().contains(ids@[k]));
    }
    let order = sort_by_name(db, &ids);
    let mut out: Vec<SortedArtist> = Vec::new();
    let mut i: usize = 0;
    while i < order.len()
        invariant
            i <= order@.len(),
            forall|k: int| 0 <= k < order@.len() ==> db.artists@.contains_key(#[trigger] order@[k]),
            entry_ids(out@) == order@.take(i as int),
            forall|k: int| 0 <= k < out@.len() ==> sorted_entry_of(*db, #[trigger] out@[k]),
        decreases order.len() - i,
    {
        let id = order[i];
        assert(db.artists@.contains_key(order@[i as int]));
        let artist = db.artists.get(&id).unwrap();
        let singles = copy_ids(&artist.singles);
        let mut albums: Vec<(u64, Vec<u64>)> = Vec::new();
        let mut k: usize = 0;
        while k < artist.albums.len()
            invariant
                k <= artist.albums@.len(),
                albums@.len() == k,
                forall|j: int| 0 <= j < k ==> (#[trigger] albums@[j]).0 == artist.albums@[j] && albums@[j].1@ == album_songs(*db, artist.albums@[j]),
            decreases artist.albums.len() - k,
        {
            let aid = artist.albums[k];
            let songs = match db.albums.get(&aid) {
                Some(album) => copy_ids(&album.songs),
                None => Vec::new(),
            };
            albums.push((aid, songs));
            k = k + 1;
        }
        let entry = SortedArtist { id, singles, albums };
        let ghost before = out@;
        out.push(entry);
        proof {
            assert(order@.take(i + 1) =~= order@.take(i as int).push(id));
            assert(entry_ids(out@) =~= entry_ids(before).push(id));
            assert(sorted_entry_of(*db, entry));
        }
        i = i + 1;
    }
    proof {
        assert(order@.take(order@.len() as int) =~= order@);
        ids@.to_multiset_ensures();
        order@.to_multiset_ensures();
        assert forall|x: u64| order@.contains(x) <==> ids@.contains(x) by {
            vstd::seq_lib::to_multiset_contains(order@, x);
            vstd::seq_lib::to_multiset_contains(ids@, x);
        }
        assert(order@.to_set() =~= ids@.to_set());
        ids@.lemma_multiset_has_no_duplicates();
        order@.lemma_multiset_has_no_duplicates_conv();
    }
    out
}

/// A shown song entry: a song of the database that its filter lets pass,
/// with a score above 0.
pub open spec fn song_shown_ok(db: Library, search: LibrarySearch, e: (u64, u32)) -> bool {
    &&& db.songs@.contains_key(e.0)
    &&& filter_passes(search.song.filter, strings_model(db.songs@[e.0].general.tags@))
    &&& e.1 > 0
}

/// A shown album: an album of the database that its filter lets pass, with
/// a score above 0, showing only songs as above.
pub open spec fn album_shown_ok(db: Library, search: LibrarySearch, a: FilteredAlbumModel) -> bool {
    &&& db.albums@.contains_key(a.id)
    &&& filter_passes(search.album.filter, strings_model(db.albums@[a.id].general.tags@))
    &&& a.score > 0
    &&& forall|j: int| 0 <= j < a.songs.len() ==> song_shown_ok(db, search, #[trigger] a.songs[j])
}

/// A shown artist: an artist of the database that its filter lets pass,
/// with a score above 0, showing only singles and albums as above.
pub open spec fn artist_shown_ok(db: Library, search: LibrarySearch, a: FilteredArtistModel) -> bool {
    &&& db.artists@.contains_key(a.id)
    &&& filter_passes(search.artist.filter, strings_model(db.artists@[a.id].general.tags@))
    &&& a.score > 0
    &&& forall|j: int| 0 <= j < a.singles.len() ==> song_shown_ok(db, search, #[trigger] a.singles[j])
    &&& forall|j: int| 0 <= j < a.albums.len() ==> album_shown_ok(db, search, #[trigger] a.albums[j])
}

proof fn lemma_product_pos(a: nat, b: nat)
    requires
        a * b > 0,
    ensures
        a > 0,
        b > 0,
{
    assert(a > 0 && b > 0) by (nonlinear_arith)
        requires
            a * b > 0,
    ;
}

proof fn lemma_scored_songs_ok(db: Library, search: LibrarySearch, ids: Seq<u64>)
    ensures
        forall|j: int| 0 <= j < scored_songs(db.songs@, search, ids).len() ==> song_shown_ok(db, search, #[trigger] scored_songs(db.songs@, search, ids)[j]),
    decreases ids.len(),
{
    if ids.len() > 0 {
        lemma_scored_songs_ok(db, search, ids.drop_last());
        let rest = scored_songs(db.songs@, search, ids.drop_last());
        let id = ids.last();
        if db.songs@.contains_key(id) && song_score(search, db.songs@[id]) > 0 {
            let song = db.songs@[id];
            lemma_field_score_bound(search.prefer_start, search.song, song.title@, song.general);
            let x = (id, song_score(search, song) as u32);
            assert(song_shown_ok(db, search, x));
            assert forall|j: int| 0 <= j < rest.push(x).len() implies song_shown_ok(db, search, #[trigger] rest.push(x)[j]) by {
                if j < rest.len() {
                    assert(rest.push(x)[j] == rest[j]);
                }
            }
        }
    }
}

proof fn lemma_sorted_all<T: Ranked>(s: Seq<T>, p: spec_fn(T) -> bool)
    requires
        forall|j: int| 0 <= j < s.len() ==> #[trigger] p(s[j]),
    ensures
        forall|j: int| 0 <= j < rank_sort(s).len() ==> #[trigger] p(rank_sort(s)[j]),
{
    assert forall|j: int| 0 <= j < rank_sort(s).len() implies #[trigger] p(rank_sort(s)[j]) by {
        let x = rank_sort(s)[j];
        assert(rank_sort(s).contains(x));
        lemma_rank_sort_contains(s, x);
        let k = choose|k: int| 0 <= k < s.len() && s[k] == x;
        assert(p(s[k]));
    }
}

proof fn lemma_kept_albums_ok(db: Library, search: LibrarySearch, albums: Seq<(u64, Vec<u64>)>)
    ensures
        forall|j: int| 0 <= j < kept_albums(db, search, albums).len() ==> album_shown_ok(db, search, #[trigger] kept_albums(db, search, albums)[j]),
    decreases albums.len(),
{
    if albums.len() > 0 {
        lemma_kept_albums_ok(db, search, albums.drop_last());
        let id = albums.last().0;
        if db.albums@.contains_key(id) {
            let album = db.albums@[id];
            let songs = scored_songs(db.songs@, search, albums.last().1@);
            let fs = field_score(search.prefer_start, search.album, album.name@, album.general);
            let rest = kept_albums(db, search, albums.drop_last());
            if fs * max_rank(songs) > 0 {
                lemma_product_pos(fs, max_rank(songs));
                lemma_field_score_bound(search.prefer_start, search.album, album.name@, album.general);
                lemma_scored_songs_ok(db, search, albums.last().1@);
                let pr = |e: (u64, u32)| song_shown_ok(db, search, e);
                assert forall|j: int| 0 <= j < songs.len() implies #[trigger] pr(songs[j]) by {
                    assert(song_shown_ok(db, search, songs[j]));
                }
                lemma_sorted_all(songs, pr);
                let x = album_entry(db, search, id, albums.last().1@)->0;
                assert forall|j: int| 0 <= j < x.songs.len() implies song_shown_ok(db, search, #[trigger] x.songs[j]) by {
                    assert(pr(x.songs[j]));
                }
                lemma_scored_songs_bound(db, search, albums.last().1@);
                lemma_max_rank_bound(songs, 6);
                assert(fs * max_rank(songs) <= 36) by (nonlinear_arith)
                    requires
                        fs <= 6,
                        max_rank(songs) <= 6,
                ;
                assert(album_shown_ok(db, search, x));
                assert forall|j: int| 0 <= j < rest.push(x).len() implies album_shown_ok(db, search, #[trigger] rest.push(x)[j]) by {
                    if j < rest.len() {
                        assert(rest.push(x)[j] == rest[j]);
                    }
                }
            }
        }
    }
}

proof fn lemma_kept_artists_ok(db: Library, search: LibrarySearch, sorted: Seq<SortedArtist>)
    ensures
        forall|j: int| 0 <= j < kept_artists(db, search, sorted).len() ==> artist_shown_ok(db, search, #[trigger] kept_artists(db, search, sorted)[j]),
    decreases sorted.len(),
{
    if sorted.len() > 0 {
        lemma_kept_artists_ok(db, search, sorted.drop_last());
        let e = sorted.last();
        if db.artists@.contains_key(e.id) {
            let artist = db.artists@[e.id];
            let singles = scored_songs(db.songs@, search, e.singles@);
            let albums = kept_albums(db, search, e.albums@);
            let best = max_rank(albums);
            let fs = field_score(search.prefer_start, search.artist, artist.name@, artist.general);
            let rest = kept_artists(db, search, sorted.drop_last());
            if fs * best > 0 {
                lemma_product_pos(fs, best);
                lemma_field_score_bound(search.prefer_start, search.artist, artist.name@, artist.general);
                lemma_scored_songs_ok(db, search, e.singles@);
                let ps = |x: (u64, u32)| song_shown_ok(db, search, x);
                assert forall|j: int| 0 <= j < singles.len() implies #[trigger] ps(singles[j]) by {
                    assert(song_shown_ok(db, search, singles[j]));
                }
                lemma_sorted_all(singles, ps);
                lemma_kept_albums_ok(db, search, e.albums@);
                let pa = |x: FilteredAlbumModel| album_shown_ok(db, search, x);
                assert forall|j: int| 0 <= j < albums.len() implies #[trigger] pa(albums[j]) by {
                    assert(album_shown_ok(db, search, albums[j]));
                }
                lemma_sorted_all(albums, pa);
                let x = artist_entry(db, search, e)->0;
                assert forall|j: int| 0 <= j < x.singles.len() implies song_shown_ok(db, search, #[trigger] x.singles[j]) by {
                    assert(ps(x.singles[j]));
                }
                assert forall|j: int| 0 <= j < x.albums.len() implies album_shown_ok(db, search, #[trigger] x.albums[j]) by {
                    assert(pa(x.albums[j]));
                }
                lemma_scored_songs_bound(db, search, e.singles@);
                lemma_max_rank_bound(singles, 6);
                lemma_kept_albums_bound_all(db, search, e.albums@);
                assert(fs * best <= 216) by (nonlinear_arith)
                    requires
                        fs <= 6,
                        best <= 36,
                ;
                assert(artist_shown_ok(db, search, x));
                assert forall|j: int| 0 <= j < rest.push(x).len() implies artist_shown_ok(db, search, #[trigger] rest.push(x)[j]) by {
                    if j < rest.len() {
                        assert(rest.push(x)[j] == rest[j]);
                    }
                }
            }
        }
    }
}

/// Everything the library view shows is in the database, lets its filter
/// pass and scores above 0: each artist, each of its singles and albums,
/// and each song of those albums.
pub proof fn lemma_view_shows_only_matches(db: Library, search: LibrarySearch, sorted: Seq<SortedArtist>)
    ensures
        forall|i: int| 0 <= i < filtered_library(db, search, sorted).len() ==> artist_shown_ok(db, search, #[trigger] filtered_library(db, search, sorted)[i]),
{
    lemma_kept_artists_ok(db, search, sorted);
    let k = kept_artists(db, search, sorted);
    let pa = |a: FilteredArtistModel| artist_shown_ok(db, search, a);
    assert forall|j: int| 0 <= j < k.len() implies #[trigger] pa(k[j]) by {
        assert(artist_shown_ok(db, search, k[j]));
    }
    lemma_sorted_all(k, pa);
    assert forall|i: int| 0 <= i < filtered_library(db, search, sorted).len() implies artist_shown_ok(db, search, #[trigger] filtered_library(db, search, sorted)[i]) by {
        assert(pa(rank_sort(k)[i]));
    }
}

proof fn lemma_kept_albums_bound_all(db: Library, search: LibrarySearch, albums: Seq<(u64, Vec<u64>)>)
    ensures
        max_rank(kept_albums(db, search, albums)) <= 36,
{
    lemma_kept_albums_ok(db, search, albums);
    lemma_kept_albums_scores(db, search, albums);
    lemma_max_rank_bound(kept_albums(db, search, albums), 36);
}

proof fn lemma_kept_albums_scores(db: Library, search: LibrarySearch, albums: Seq<(u64, Vec<u64>)>)
    ensures
        forall|j: int| 0 <= j < kept_albums(db, search, albums).len() ==> (#[trigger] kept_albums(db, search, albums)[j]).rank() <= 36,
    decreases albums.len(),
{
    if albums.len() > 0 {
        lemma_kept_albums_scores(db, search, albums.drop_last());
        let rest = kept_albums(db, search, albums.drop_last());
        let id = albums.last().0;
        if db.albums@.contains_key(id) {
            let album = db.albums@[id];
            let songs = scored_songs(db.songs@, search, albums.last().1@);
            let fs = field_score(search.prefer_start, search.album, album.name@, album.general);
            if fs * max_rank(songs) > 0 {
                lemma_field_score_bound(search.prefer_start, search.album, album.name@, album.general);
                lemma_scored_songs_ok(db, search, albums.last().1@);
                lemma_scored_songs_bound(db, search, albums.last().1@);
                lemma_max_rank_bound(songs, 6);
                assert(fs * max_rank(songs) <= 36) by (nonlinear_arith)
                    requires
                        fs <= 6,
                        max_rank(songs) <= 6,
                ;
                let x = album_entry(db, search, id, albums.last().1@)->0;
                assert forall|j: int| 0 <= j < rest.push(x).len() implies (#[trigger] rest.push(x)[j]).rank() <= 36 by {
                    if j < rest.len() {
                        assert(rest.push(x)[j] == rest[j]);
                    }
                }
            }
        }
    }
}

proof fn lemma_scored_songs_bound(db: Library, search: LibrarySearch, ids: Seq<u64>)
    ensures
        forall|j: int| 0 <= j < scored_songs(db.songs@, search, ids).len() ==> (#[trigger] scored_songs(db.songs@, search, ids)[j]).rank() <= 6,
    decreases ids.len(),
{
    if ids.len() > 0 {
        lemma_scored_songs_bound(db, search, ids.drop_last());
        let rest = scored_songs(db.songs@, search, ids.drop_last());
        let id = ids.last();
        if db.songs@.contains_key(id) && song_score(search, db.songs@[id]) > 0 {
            let song = db.songs@[id];
            lemma_field_score_bound(search.prefer_start, search.song, song.title@, song.general);
            let x = (id, song_score(search, song) as u32);
            assert forall|j: int| 0 <= j < rest.push(x).len() implies (#[trigger] rest.push(x)[j]).rank() <= 6 by {
                if j < rest.len() {
                    assert(rest.push(x)[j] == rest[j]);
                }
            }
        }
    }
}

/// An artist's singles and albums, and each album's songs, are listed best
/// first.
pub open spec fn artist_ordered(a: FilteredArtistModel) -> bool {
    &&& rank_sorted(a.singles)
    &&& rank_sorted(a.albums)
    &&& forall|j: int| 0 <= j < a.albums.len() ==> rank_sorted(#[trigger] a.albums[j].songs)
}

proof fn lemma_kept_albums_ordered(db: Library, search: LibrarySearch, albums: Seq<(u64, Vec<u64>)>)
    ensures
        forall|j: int| 0 <= j < kept_albums(db, search, albums).len() ==> rank_sorted(#[trigger] kept_albums(db, search, albums)[j].songs),
    decreases albums.len(),
{
    if albums.len() > 0 {
        lemma_kept_albums_ordered(db, search, albums.drop_last());
        let rest = kept_albums(db, search, albums.drop_last());
        match album_entry(db, search, albums.last().0, albums.last().1@) {
            Some(x) => {
                lemma_rank_sort_sorted(scored_songs(db.songs@, search, albums.last().1@));
                assert forall|j: int| 0 <= j < rest.push(x).len() implies rank_sorted(#[trigger] rest.push(x)[j].songs) by {
                    if j < rest.len() {
                        assert(rest.push(x)[j] == rest[j]);
                    }
                }
            },
            None => {},
        }
    }
}

proof fn lemma_kept_artists_ordered(db: Library, search: LibrarySearch, sorted: Seq<SortedArtist>)
    ensures
        forall|j: int| 0 <= j < kept_artists(db, search, sorted).len() ==> artist_ordered(#[trigger] kept_artists(db, search, sorted)[j]),
    decreases sorted.len(),
{
    if sorted.len() > 0 {
        lemma_kept_artists_ordered(db, search, sorted.drop_last());
        let rest = kept_artists(db, search, sorted.drop_last());
        let e = sorted.last();
        match artist_entry(db, search, e) {
            Some(x) => {
                let albums = kept_albums(db, search, e.albums@);
                lemma_rank_sort_sorted(scored_songs(db.songs@, search, e.singles@));
                lemma_rank_sort_sorted(albums);
                lemma_kept_albums_ordered(db, search, e.albums@);
                let pr = |a: FilteredAlbumModel| rank_sorted(a.songs);
                assert forall|j: int| 0 <= j < albums.len() implies #[trigger] pr(albums[j]) by {
                    assert(rank_sorted(albums[j].songs));
                }
                lemma_sorted_all(albums, pr);
                assert forall|j: int| 0 <= j < x.albums.len() implies rank_sorted(#[trigger] x.albums[j].songs) by {
                    assert(pr(x.albums[j]));
                }
                assert(artist_ordered(x));
                assert forall|j: int| 0 <= j < rest.push(x).len() implies artist_ordered(#[trigger] rest.push(x)[j]) by {
                    if j < rest.len() {
                        assert(rest.push(x)[j] == rest[j]);
                    }
                }
            },
            None => {},
        }
    }
}

/// The library view lists the best-scoring artists first, and within each
/// artist its singles and albums, and within each album its songs, best
/// first.
pub proof fn lemma_view_ordered(db: Library, search: LibrarySearch, sorted: Seq<SortedArtist>)
    ensures
        rank_sorted(filtered_library(db, search, sorted)),
        forall|i: int| 0 <= i < filtered_library(db, search, sorted).len() ==> artist_ordered(#[trigger] filtered_library(db, search, sorted)[i]),
{
    let k = kept_artists(db, search, sorted);
    lemma_rank_sort_sorted(k);
    lemma_kept_artists_ordered(db, search, sorted);
    let pa = |a: FilteredArtistModel| artist_ordered(a);
    assert forall|j: int| 0 <= j < k.len() implies #[trigger] pa(k[j]) by {
        assert(artist_ordered(k[j]));
    }
    lemma_sorted_all(k, pa);
    assert forall|i: int| 0 <= i < filtered_library(db, search, sorted).len() implies artist_ordered(#[trigger] filtered_library(db, search, sorted)[i]) by {
        assert(pa(rank_sort(k)[i]));
    }
}

} // verus!

//! Building a library from the tags of audio files: which artist and album a
//! song belongs to, the title it gets, and the order songs are filed in.
use vstd::prelude::*;
use crate::search::{is_white_space, is_white_space_exec};
use crate::strings::{chars_of, lemma_lex_le_antisym, lemma_lex_le_trans, lex_le, str_eq, str_le};
use crate::textgen::strings_model;

verus! {

broadcast use vstd::string::group_string_axioms;

/// A name is blank when it holds nothing but white space (`str::trim` of it
/// is empty).
pub open spec fn is_blank(s: Seq<char>) -> bool {
    forall|i: int| 0 <= i < s.len() ==> is_white_space(#[trigger] s[i])
}

pub fn blank(s: &str) -> (r: bool)
    ensures
        r == is_blank(s@),
{
    let c = chars_of(s);
    let mut i: usize = 0;
    while i < c.len()
        invariant
            i <= c@.len(),
            c@ == s@,
            forall|k: int| 0 <= k < i ==> is_white_space(#[trigger] c@[k]),
        decreases c.len() - i,
    {
        if !is_white_space_exec(c[i]) {
            return false;
        }
        i = i + 1;
    }
    true
}

/// A tag value that is present and not blank.
pub open spec fn usable(v: Option<&str>) -> bool {
    v matches Some(s) && !is_blank(s@)
}

/// The artist a song is filed under: its album artist, else its artist
/// (blank values count as missing); `None` files it under the unknown
/// artist.
pub fn song_artist_name<'a>(album_artist: Option<&'a str>, artist: Option<&'a str>) -> (r: Option<&'a str>)
    ensures
        r == (if usable(album_artist) { album_artist } else if usable(artist) { artist } else { None }),
{
    if let Some(a) = album_artist {
        if !blank(a) {
            return album_artist;
        }
    }
    if let Some(a) = artist {
        if !blank(a) {
            return artist;
        }
    }
    None
}

/// The album a song is filed under: its album tag unless missing or blank.
pub fn song_album_name<'a>(album: Option<&'a str>) -> (r: Option<&'a str>)
    ensures
        r == (if usable(album) { album } else { None }),
{
    match album {
        Some(a) => if blank(a) { None } else { album },
        None => None,
    }
}

/// A song's title: its title tag unless missing or blank, else the name of
/// its file without the extension.
pub fn song_title(title: Option<&str>, file_stem: &str) -> (r: String)
    ensures
        r@ == (if usable(title) { title->0@ } else { file_stem@ }),
{
    match title {
        Some(t) => if blank(t) { file_stem.to_string() } else { t.to_string() },
        None => file_stem.to_string(),
    }
}

/// An album found while filing songs: its name, its id, and the directory
/// of its songs while they all are in one.
pub struct AlbumEntry {
    pub name: String,
    pub id: u64,
    pub dir: Option<String>,
}

/// An artist found while filing songs, with its albums.
pub struct ArtistEntry {
    pub name: String,
    pub id: u64,
    pub albums: Vec<AlbumEntry>,
}

/// The artists (and their albums) found so far, each name once.
pub struct FillIndex {
    pub artists: Vec<ArtistEntry>,
}

pub open spec fn artist_names(s: Seq<ArtistEntry>) -> Seq<Seq<char>> {
    s.map_values(|a: ArtistEntry| a.name@)
}

pub open spec fn album_names(s: Seq<AlbumEntry>) -> Seq<Seq<char>> {
    s.map_values(|a: AlbumEntry| a.name@)
}

fn find_artist(artists: &Vec<ArtistEntry>, name: &str) -> (r: Option<usize>)
    ensures
        match r {
            Some(i) => i < artists@.len() && artists@[i as int].name@ == name@,
            None => !artist_names(artists@).contains(name@),
        },
{
    let mut i: usize = 0;
    while i < artists.len()
        invariant
            i <= artists@.len(),
            forall|k: int| 0 <= k < i ==> artists@[k].name@ != name@,
        decreases artists.len() - i,
    {
        if str_eq(artists[i].name.as_str(), name) {
            return Some(i);
        }
        i = i + 1;
    }
    proof {
        if artist_names(artists@).contains(name@) {
            let k = choose|k: int| 0 <= k < artist_names(artists@).len() && artist_names(artists@)[k] == name@;
            assert(artists@[k].name@ == name@);
        }
    }
    None
}

fn find_album(albums: &Vec<AlbumEntry>, name: &str) -> (r: Option<usize>)
    ensures
        match r {
            Some(i) => i < albums@.len() && albums@[i as int].name@ == name@,
            None => !album_names(albums@).contains(name@),
        },
{
    let mut i: usize = 0;
    while i < albums.len()
        invariant
            i <= albums@.len(),
            forall|k: int| 0 <= k < i ==> albums@[k].name@ != name@,
        decreases albums.len() - i,
    {
        if str_eq(albums[i].name.as_str(), name) {
            return Some(i);
        }
        i = i + 1;
    }
    proof {
        if album_names(albums@).contains(name@) {
            let k = choose|k: int| 0 <= k < album_names(albums@).len() && album_names(albums@)[k] == name@;
            assert(albums@[k].name@ == name@);
        }
    }
    None
}

/// What filing a song asks of the database: nothing new, or a new artist
/// (and album) to create with the given name.
pub enum Filing {
    /// The song goes to the known artist at this position (and album).
    Known { artist: usize, album: Option<usize> },
    /// The artist is known, the album is new.
    NewAlbum { artist: usize },
    /// The artist is new (and so is the album, if the song has one).
    NewArtist,
}

/// The directory of an album after one more of its songs: kept while the
/// songs agree, unknown from the first song in another directory on.
pub open spec fn next_dir(dir: Option<Seq<char>>, song_dir: Option<Seq<char>>) -> Option<Seq<char>> {
    if dir is Some && dir != song_dir { None } else { dir }
}

pub open spec fn opt_model(o: Option<String>) -> Option<Seq<char>> {
    match o {
        Some(s) => Some(s@),
        None => None,
    }
}

pub open spec fn opt_str_model(o: Option<&str>) -> Option<Seq<char>> {
    match o {
        Some(s) => Some(s@),
        None => None,
    }
}

impl FillIndex {
    pub fn new() -> (r: FillIndex)
        ensures
            r.artists@.len() == 0,
    {
        FillIndex { artists: Vec::new() }
    }

    /// Looks up where a song with this artist and album goes. A known album
    /// whose songs were in one directory until now forgets that directory
    /// when this song is in another.
    pub fn file_song(&mut self, artist: &str, album: Option<&str>, dir: Option<&str>) -> (r: Filing)
        ensures
            final(self).artists@.len() == old(self).artists@.len(),
            match r {
                Filing::NewArtist => !artist_names(old(self).artists@).contains(artist@)
                    && final(self).artists@ == old(self).artists@,
                Filing::NewAlbum { artist: i } => i < old(self).artists@.len()
                    && old(self).artists@[i as int].name@ == artist@
                    && album is Some && !album_names(old(self).artists@[i as int].albums@).contains(album->0@)
                    && final(self).artists@ == old(self).artists@,
                Filing::Known { artist: i, album: None } => i < old(self).artists@.len()
                    && old(self).artists@[i as int].name@ == artist@
                    && album is None
                    && final(self).artists@ == old(self).artists@,
                Filing::Known { artist: i, album: Some(j) } => i < old(self).artists@.len()
                    && old(self).artists@[i as int].name@ == artist@
                    && album is Some
                    && j < old(self).artists@[i as int].albums@.len()
                    && old(self).artists@[i as int].albums@[j as int].name@ == album->0@
                    && (forall|k: int| 0 <= k < old(self).artists@.len() && k != i ==> #[trigger] final(self).artists@[k] == old(self).artists@[k])
                    && final(self).artists@[i as int].name == old(self).artists@[i as int].name
                    && final(self).artists@[i as int].id == old(self).artists@[i as int].id
                    && final(self).artists@[i as int].albums@.len() == old(self).artists@[i as int].albums@.len()
                    && (forall|k: int| 0 <= k < old(self).artists@[i as int].albums@.len() && k != j
                        ==> #[trigger] final(self).artists@[i as int].albums@[k] == old(self).artists@[i as int].albums@[k])
                    && final(self).artists@[i as int].albums@[j as int].name == old(self).artists@[i as int].albums@[j as int].name
                    && final(self).artists@[i as int].albums@[j as int].id == old(self).artists@[i as int].albums@[j as int].id
                    && opt_model(final(self).artists@[i as int].albums@[j as int].dir)
                        == next_dir(opt_model(old(self).artists@[i as int].albums@[j as int].dir), opt_str_model(dir)),
            },
    {
        let i = match find_artist(&self.artists, artist) {
            Some(i) => i,
            None => return Filing::NewArtist,
        };
        let a = match album {
            Some(a) => a,
            None => return Filing::Known { artist: i, album: None },
        };
        let j = match find_album(&self.artists[i].albums, a) {
            Some(j) => j,
            None => return Filing::NewAlbum { artist: i },
        };
        let keep = match (&self.artists[i].albums[j].dir, dir) {
            (Some(d), Some(s)) => str_eq(d.as_str(), s),
            (Some(_), None) => false,
            (None, _) => true,
        };
        if !keep {
            let mut entry = ArtistEntry { name: String::new(), id: 0, albums: Vec::new() };
            std::mem::swap(&mut entry, &mut self.artists[i]);
            let mut al = AlbumEntry { name: String::new(), id: 0, dir: None };
            std::mem::swap(&mut al, &mut entry.albums[j]);
            al.dir = None;
            entry.albums.set(j, al);
            self.artists.set(i, entry);
        }
        Filing::Known { artist: i, album: Some(j) }
    }

    /// Adds a new artist (with no albums yet); its name is not in the index.
    pub fn add_artist(&mut self, name: String, id: u64) -> (r: usize)
        requires
            !artist_names(old(self).artists@).contains(name@),
        ensures
            r == old(self).artists@.len(),
            final(self).artists@.len() == old(self).artists@.len() + 1,
            forall|k: int| 0 <= k < old(self).artists@.len() ==> #[trigger] final(self).artists@[k] == old(self).artists@[k],
            final(self).artists@[r as int].name@ == name@,
            final(self).artists@[r as int].id == id,
            final(self).artists@[r as int].albums@.len() == 0,
    {
        let r = self.artists.len();
        self.artists.push(ArtistEntry { name, id, albums: Vec::new() });
        r
    }

    /// Adds a new album, found in `dir`, to the artist at position `artist`;
    /// its name is not among the artist's albums.
    pub fn add_album(&mut self, artist: usize, name: String, id: u64, dir: Option<String>) -> (r: usize)
        requires
            artist < old(self).artists@.len(),
            !album_names(old(self).artists@[artist as int].albums@).contains(name@),
        ensures
            r == old(self).artists@[artist as int].albums@.len(),
            final(self).artists@.len() == old(self).artists@.len(),
            forall|k: int| 0 <= k < old(self).artists@.len() && k != artist ==> #[trigger] final(self).artists@[k] == old(self).artists@[k],
            final(self).artists@[artist as int].name == old(self).artists@[artist as int].name,
            final(self).artists@[artist as int].id == old(self).artists@[artist as int].id,
            final(self).artists@[artist as int].albums@ == old(self).artists@[artist as int].albums@.push(AlbumEntry { name, id, dir }),
    {
        let mut entry = ArtistEntry { name: String::new(), id: 0, albums: Vec::new() };
        std::mem::swap(&mut entry, &mut self.artists[artist]);
        let r = entry.albums.len();
        entry.albums.push(AlbumEntry { name, id, dir });
        self.artists.set(artist, entry);
        r
    }
}

/// What songs are filed by: disc number, track number, and the components
/// of the file's path.
pub struct SongKey {
    pub disc: Option<u32>,
    pub track: Option<u32>,
    pub path: Vec<String>,
}

pub struct SongKeyModel {
    pub disc: Option<u32>,
    pub track: Option<u32>,
    pub path: Seq<Seq<char>>,
}

impl SongKey {
    pub open spec fn model(&self) -> SongKeyModel {
        SongKeyModel { disc: self.disc, track: self.track, path: strings_model(self.path@) }
    }
}

pub open spec fn keys_model(s: Seq<SongKey>) -> Seq<SongKeyModel> {
    s.map_values(|k: SongKey| k.model())
}

/// A missing number comes before any number.
pub open spec fn number_before(a: Option<u32>, b: Option<u32>) -> bool {
    match (a, b) {
        (Some(x), Some(y)) => x < y,
        (None, Some(_)) => true,
        _ => false,
    }
}

/// `str` order without equality.
pub open spec fn str_before(a: Seq<char>, b: Seq<char>) -> bool {
    lex_le(a, b) && a != b
}

/// The order of paths: component by component, a path before a longer one
/// that it begins.
pub open spec fn path_before(a: Seq<Seq<char>>, b: Seq<Seq<char>>) -> bool
    decreases a.len(),
{
    if b.len() == 0 {
        false
    } else if a.len() == 0 {
        true
    } else if a[0] != b[0] {
        str_before(a[0], b[0])
    } else {
        path_before(a.drop_first(), b.drop_first())
    }
}

/// Disc, then track, then path.
pub open spec fn song_before(a: SongKeyModel, b: SongKeyModel) -> bool {
    ||| number_before(a.disc, b.disc)
    ||| a.disc == b.disc && number_before(a.track, b.track)
    ||| a.disc == b.disc && a.track == b.track && path_before(a.path, b.path)
}

/// The first position at or after `i` of `order` whose song comes after
/// song `x` (the length where there is none).
pub open spec fn first_after_song(keys: Seq<SongKeyModel>, order: Seq<usize>, x: int, i: int) -> int
    decreases order.len() - i,
{
    if i >= order.len() {
        order.len() as int
    } else if song_before(keys[x], keys[order[i] as int]) {
        i
    } else {
        first_after_song(keys, order, x, i + 1)
    }
}

/// The first `n` songs in filing order: a stable sort by disc, track and
/// path, done by insertion.
pub open spec fn filing_order(keys: Seq<SongKeyModel>, n: nat) -> Seq<usize>
    decreases n,
{
    if n == 0 {
        Seq::empty()
    } else {
        let o = filing_order(keys, (n - 1) as nat);
        o.insert(first_after_song(keys, o, n - 1, 0), (n - 1) as usize)
    }
}

fn number_before_exec(a: Option<u32>, b: Option<u32>) -> (r: bool)
    ensures
        r == number_before(a, b),
{
    match (a, b) {
        (Some(x), Some(y)) => x < y,
        (None, Some(_)) => true,
        _ => false,
    }
}

fn path_before_exec(a: &Vec<String>, b: &Vec<String>) -> (r: bool)
    ensures
        r == path_before(strings_model(a@), strings_model(b@)),
{
    let ghost ma = strings_model(a@);
    let ghost mb = strings_model(b@);
    let mut i: usize = 0;
    assert(ma.skip(0) =~= ma);
    assert(mb.skip(0) =~= mb);
    while i < a.len() && i < b.len() && str_eq(a[i].as_str(), b[i].as_str())
        invariant
            i <= a@.len(),
            i <= b@.len(),
            ma == strings_model(a@),
            mb == strings_model(b@),
            path_before(ma, mb) == path_before(ma.skip(i as int), mb.skip(i as int)),
        decreases a.len() - i,
    {
        let ghost x = ma.skip(i as int);
        let ghost y = mb.skip(i as int);
        assert(x.drop_first() =~= ma.skip(i + 1));
        assert(y.drop_first() =~= mb.skip(i + 1));
        i = i + 1;
    }
    if i == b.len() {
        false
    } else if i == a.len() {
        true
    } else {
        str_le(a[i].as_str(), b[i].as_str()) && !str_eq(a[i].as_str(), b[i].as_str())
    }
}

fn song_before_exec(a: &SongKey, b: &SongKey) -> (r: bool)
    ensures
        r == song_before(a.model(), b.model()),
{
    number_before_exec(a.disc, b.disc) || (a.disc == b.disc && number_before_exec(a.track, b.track)) || (a.disc
        == b.disc && a.track == b.track && path_before_exec(&a.path, &b.path))
}

proof fn lemma_first_after_song_bounds(keys: Seq<SongKeyModel>, order: Seq<usize>, x: int, i: int)
    requires
        0 <= i <= order.len(),
    ensures
        i <= first_after_song(keys, order, x, i) <= order.len(),
    decreases order.len() - i,
{
    if i < order.len() {
        lemma_first_after_song_bounds(keys, order, x, i + 1);
    }
}

proof fn lemma_str_before_trans(a: Seq<char>, b: Seq<char>, c: Seq<char>)
    requires
        str_before(a, b),
        str_before(b, c),
    ensures
        str_before(a, c),
{
    lemma_lex_le_trans(a, b, c);
    if a == c {
        lemma_lex_le_antisym(a, b);
    }
}

proof fn lemma_str_before_asym(a: Seq<char>, b: Seq<char>)
    ensures
        !(str_before(a, b) && str_before(b, a)),
{
    if str_before(a, b) && str_before(b, a) {
        lemma_lex_le_antisym(a, b);
    }
}

proof fn lemma_path_before_trans(a: Seq<Seq<char>>, b: Seq<Seq<char>>, c: Seq<Seq<char>>)
    requires
        path_before(a, b),
        path_before(b, c),
    ensures
        path_before(a, c),
    decreases a.len(),
{
    if a.len() > 0 && b.len() > 0 && c.len() > 0 {
        if a[0] != b[0] {
            if b[0] != c[0] {
                lemma_str_before_trans(a[0], b[0], c[0]);
                lemma_str_before_asym(a[0], b[0]);
            }
        } else if b[0] == c[0] {
            lemma_path_before_trans(a.drop_first(), b.drop_first(), c.drop_first());
        }
    }
}

proof fn lemma_path_before_asym(a: Seq<Seq<char>>, b: Seq<Seq<char>>)
    ensures
        !(path_before(a, b) && path_before(b, a)),
    decreases a.len(),
{
    if a.len() > 0 && b.len() > 0 {
        if a[0] != b[0] {
            lemma_str_before_asym(a[0], b[0]);
        } else {
            lemma_path_before_asym(a.drop_first(), b.drop_first());
        }
    }
}

proof fn lemma_song_before_trans(a: SongKeyModel, b: SongKeyModel, c: SongKeyModel)
    requires
        song_before(a, b),
        song_before(b, c),
    ensures
        song_before(a, c),
{
    if a.disc == b.disc && b.disc == c.disc && a.track == b.track && b.track == c.track {
        lemma_path_before_trans(a.path, b.path, c.path);
    }
}

proof fn lemma_song_before_asym(a: SongKeyModel, b: SongKeyModel)
    ensures
        !(song_before(a, b) && song_before(b, a)),
{
    lemma_path_before_asym(a.path, b.path);
}

proof fn lemma_first_after_song_props(keys: Seq<SongKeyModel>, order: Seq<usize>, x: int, i: int)
    requires
        0 <= i <= order.len(),
    ensures
        forall|q: int| i <= q < first_after_song(keys, order, x, i) ==> !song_before(keys[x], keys[#[trigger] order[q] as int]),
        first_after_song(keys, order, x, i) < order.len() ==> song_before(keys[x], keys[order[first_after_song(keys, order, x, i)] as int]),
    decreases order.len() - i,
{
    if i < order.len() {
        lemma_first_after_song_props(keys, order, x, i + 1);
    }
}

/// Filing order holds every song once, and no song comes before one that
/// precedes it: by disc, then track (a missing number first), then path.
pub proof fn lemma_filing_order_sorted(keys: Seq<SongKeyModel>, n: nat)
    requires
        n <= keys.len(),
        n <= usize::MAX,
    ensures
        filing_order(keys, n).len() == n,
        forall|k: usize| k < n ==> #[trigger] filing_order(keys, n).contains(k),
        forall|q: int| 0 <= q < n ==> #[trigger] filing_order(keys, n)[q] < n,
        forall|i: int, j: int|
            #![trigger filing_order(keys, n)[i], filing_order(keys, n)[j]]
            0 <= i < j < n ==> filing_order(keys, n)[i] != filing_order(keys, n)[j] && !song_before(
                keys[filing_order(keys, n)[j] as int],
                keys[filing_order(keys, n)[i] as int],
            ),
    decreases n,
{
    if n > 0 {
        let m = (n - 1) as nat;
        lemma_filing_order_sorted(keys, m);
        let o = filing_order(keys, m);
        let x = m as int;
        lemma_first_after_song_bounds(keys, o, x, 0);
        lemma_first_after_song_props(keys, o, x, 0);
        let p = first_after_song(keys, o, x, 0);
        let r = o.insert(p, m as usize);
        assert(r == filing_order(keys, n));
        assert forall|k: usize| k < n implies #[trigger] r.contains(k) by {
            if k == m {
                assert(r[p] == m as usize);
            } else {
                assert(o.contains(k));
                let q = choose|q: int| 0 <= q < o.len() && o[q] == k;
                if q < p {
                    assert(r[q] == o[q]);
                } else {
                    assert(r[q + 1] == o[q]);
                }
            }
        }
        assert forall|q: int| 0 <= q < n implies #[trigger] r[q] < n by {
            if q < p {
                assert(r[q] == o[q]);
            } else if q > p {
                assert(r[q] == o[q - 1]);
            }
        }
        assert forall|i: int, j: int| 0 <= i < j < n implies r[i] != r[j] && !song_before(
            keys[r[j] as int],
            keys[r[i] as int],
        ) by {
            if j < p {
                assert(r[i] == o[i] && r[j] == o[j]);
                assert(o[i] != o[j] && !song_before(keys[o[j] as int], keys[o[i] as int]));
            } else if i > p {
                assert(r[i] == o[i - 1] && r[j] == o[j - 1]);
                assert(o[i - 1] != o[j - 1] && !song_before(keys[o[j - 1] as int], keys[o[i - 1] as int]));
            } else if i < p && j > p {
                assert(r[i] == o[i] && r[j] == o[j - 1]);
                assert(o[i] != o[j - 1] && !song_before(keys[o[j - 1] as int], keys[o[i] as int]));
            } else if i == p {
                assert(r[i] == m as usize);
                assert(r[j] == o[j - 1]);
                assert(o[j - 1] < m);
                if song_before(keys[o[j - 1] as int], keys[x]) {
                    if j - 1 > p {
                        assert(!song_before(keys[o[j - 1] as int], keys[o[p] as int]));
                    }
                    if j - 1 == p {
                        lemma_song_before_asym(keys[x], keys[o[p] as int]);
                    } else {
                        lemma_song_before_trans(keys[o[j - 1] as int], keys[x], keys[o[p] as int]);
                    }
                }
            } else {
                assert(j == p);
                assert(r[j] == m as usize);
                assert(r[i] == o[i]);
                assert(o[i] < m);
                assert(!song_before(keys[x], keys[o[i] as int]));
            }
        }
    }
}

/// Where a song stands in filing order.
pub open spec fn filed_at(keys: Seq<SongKeyModel>, n: nat, song: int, pos: int) -> bool {
    0 <= pos < n && filing_order(keys, n)[pos] as int == song
}

/// Filing order puts a lower disc number first, and on one disc a lower
/// track number first; a song without a disc (or, on the same disc, without
/// a track) comes before one that has it.
pub proof fn lemma_filing_order_by_disc_and_track(keys: Seq<SongKeyModel>, n: nat, a: int, b: int, pa: int, pb: int)
    requires
        n <= keys.len(),
        n <= usize::MAX,
        filed_at(keys, n, a, pa),
        filed_at(keys, n, b, pb),
        ({
            let (ka, kb) = (keys[a], keys[b]);
            ||| (ka.disc is None && kb.disc is Some)
            ||| (ka.disc is Some && kb.disc is Some && ka.disc->0 < kb.disc->0)
            ||| (ka.disc == kb.disc && ka.track is None && kb.track is Some)
            ||| (ka.disc == kb.disc && ka.track is Some && kb.track is Some && ka.track->0 < kb.track->0)
        }),
    ensures
        pa < pb,
{
    lemma_filing_order_sorted(keys, n);
    let o = filing_order(keys, n);
    assert(song_before(keys[a], keys[b]));
    if pb < pa {
        assert(!song_before(keys[o[pa] as int], keys[o[pb] as int]));
    }
    assert(pa != pb);
}

/// `a` comes before `b` in dictionary order: after a common beginning of
/// `k` characters, `a` ends while `b` goes on, or `a`'s next character has
/// the lower code point.
pub open spec fn chars_ordered_at(a: Seq<char>, b: Seq<char>, k: int) -> bool {
    &&& 0 <= k <= a.len()
    &&& k <= b.len()
    &&& a.take(k) == b.take(k)
    &&& (k == a.len() && k < b.len()) || (k < a.len() && k < b.len() && (a[k] as int) < (b[k] as int))
}

/// Path `a` comes before path `b`: after `k` equal components, `a` ends
/// while `b` goes on, or `a`'s next component comes first in dictionary
/// order.
pub open spec fn path_ordered_at(a: Seq<Seq<char>>, b: Seq<Seq<char>>, k: int) -> bool {
    &&& 0 <= k <= a.len()
    &&& k <= b.len()
    &&& a.take(k) == b.take(k)
    &&& (k == a.len() && k < b.len()) || (k < a.len() && k < b.len() && exists|j: int| chars_ordered_at(a[k], b[k], j))
}

proof fn lemma_chars_ordered(a: Seq<char>, b: Seq<char>, k: int)
    requires
        chars_ordered_at(a, b, k),
    ensures
        str_before(a, b),
    decreases k,
{
    if k > 0 {
        assert(a[0] == a.take(k)[0]);
        assert(b[0] == b.take(k)[0]);
        assert(a.drop_first().take(k - 1) =~= a.take(k).drop_first());
        assert(b.drop_first().take(k - 1) =~= b.take(k).drop_first());
        lemma_chars_ordered(a.drop_first(), b.drop_first(), k - 1);
        assert(a != b ==> a.drop_first() != b.drop_first() || a[0] != b[0]);
        if a == b {
            assert(a.drop_first() == b.drop_first());
        }
    } else if a.len() > 0 {
        assert(a[0] != b[0]);
    }
}

proof fn lemma_path_ordered(a: Seq<Seq<char>>, b: Seq<Seq<char>>, k: int)
    requires
        path_ordered_at(a, b, k),
    ensures
        path_before(a, b),
    decreases k,
{
    if k > 0 {
        assert(a[0] == a.take(k)[0]);
        assert(b[0] == b.take(k)[0]);
        assert(a.drop_first().take(k - 1) =~= a.take(k).drop_first());
        assert(b.drop_first().take(k - 1) =~= b.take(k).drop_first());
        if k < a.len() && k < b.len() {
            assert(a.drop_first()[k - 1] == a[k]);
            assert(b.drop_first()[k - 1] == b[k]);
        }
        lemma_path_ordered(a.drop_first(), b.drop_first(), k - 1);
    } else if a.len() > 0 {
        let j = choose|j: int| chars_ordered_at(a[0], b[0], j);
        lemma_chars_ordered(a[0], b[0], j);
    }
}

/// On one disc and track number (or both without one), filing order puts
/// the paths in order: component by component, each in dictionary order,
/// and a path before a longer one that it begins.
pub proof fn lemma_filing_order_by_path(keys: Seq<SongKeyModel>, n: nat, a: int, b: int, pa: int, pb: int, k: int)
    requires
        n <= keys.len(),
        n <= usize::MAX,
        filed_at(keys, n, a, pa),
        filed_at(keys, n, b, pb),
        keys[a].disc == keys[b].disc,
        keys[a].track == keys[b].track,
        path_ordered_at(keys[a].path, keys[b].path, k),
    ensures
        pa < pb,
{
    lemma_filing_order_sorted(keys, n);
    let o = filing_order(keys, n);
    lemma_path_ordered(keys[a].path, keys[b].path, k);
    assert(song_before(keys[a], keys[b]));
    if pb < pa {
        assert(!song_before(keys[o[pa] as int], keys[o[pb] as int]));
    }
    if pa == pb {
        assert(keys[a].path == keys[b].path);
        if k < keys[a].path.len() {
            let j = choose|j: int| chars_ordered_at(keys[a].path[k], keys[b].path[k], j);
            lemma_chars_ordered(keys[a].path[k], keys[b].path[k], j);
        }
    }
}

/// The order in which the songs with these keys are filed: by disc, then
/// track (a missing number first), then path, songs with equal keys in the
/// order given.
pub fn song_order(keys: &Vec<SongKey>) -> (r: Vec<usize>)
    ensures
        r@ == filing_order(keys_model(keys@), keys@.len()),
{
    let ghost km = keys_model(keys@);
    let mut order: Vec<usize> = Vec::new();
    let mut n: usize = 0;
    while n < keys.len()
        invariant
            n <= keys@.len(),
            km == keys_model(keys@),
            order@ == filing_order(km, n as nat),
            forall|q: int| 0 <= q < order@.len() ==> #[trigger] order@[q] < n,
        decreases keys.len() - n,
    {
        let mut p: usize = 0;
        while p < order.len() && !song_before_exec(&keys[n], &keys[order[p]])
            invariant
                p <= order@.len(),
                n < keys@.len(),
                km == keys_model(keys@),
                forall|q: int| 0 <= q < order@.len() ==> #[trigger] order@[q] < n,
                first_after_song(km, order@, n as int, 0) == first_after_song(km, order@, n as int, p as int),
            decreases order.len() - p,
        {
            assert(km[n as int] == keys@[n as int].model());
            assert(km[order@[p as int] as int] == keys@[order@[p as int] as int].model());
            p = p + 1;
        }
        proof {
            if p < order@.len() {
                assert(km[n as int] == keys@[n as int].model());
                assert(km[order@[p as int] as int] == keys@[order@[p as int] as int].model());
            }
            lemma_first_after_song_bounds(km, order@, n as int, 0);
        }
        order.insert(p, n);
        n = n + 1;
        assert forall|q: int| 0 <= q < order@.len() implies #[trigger] order@[q] < n by {}
    }
    order
}

} // verus!

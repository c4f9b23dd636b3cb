//! What the views of the current song know of it: which song plays and
//! whether its cover is loaded, updated from the queue and the covers.
use vstd::prelude::*;
use crate::library::Library;
use crate::strings::{chars_of, push_str, str_eq, string_of};
use crate::textgen::{first_tag, first_tag_from, lemma_first_tag_in_range, strings_model, TagMatch};

verus! {

broadcast use {vstd::std_specs::hash::group_hash_axioms, vstd::string::group_string_axioms};

/// The cover a song is shown with: its own, else its album's, else its
/// artist's.
pub open spec fn cover_of(db: Library, song: u64) -> Option<u64> {
    if db.songs@.contains_key(song) {
        let s = db.songs@[song];
        if s.cover is Some {
            s.cover
        } else if s.album is Some && db.albums@.contains_key(s.album->0) && db.albums@[s.album->0].cover is Some {
            db.albums@[s.album->0].cover
        } else if db.artists@.contains_key(s.artist) {
            db.artists@[s.artist].cover
        } else {
            None
        }
    } else {
        None
    }
}

/// Finds the cover of a song.
pub fn song_cover(db: &Library, song: u64) -> (r: Option<u64>)
    ensures
        r == cover_of(*db, song),
{
    match db.songs.get(&song) {
        None => None,
        Some(s) => {
            if s.cover.is_some() {
                return s.cover;
            }
            if let Some(album) = s.album {
                if let Some(a) = db.albums.get(&album) {
                    if a.cover.is_some() {
                        return a.cover;
                    }
                }
            }
            match db.artists.get(&s.artist) {
                Some(artist) => artist.cover,
                None => None,
            }
        },
    }
}

/// Where the shown cover is: still loading, known to be missing, or loaded.
#[derive(Debug, Clone, Copy, PartialEq, Eq, Structural)]
pub enum CoverState {
    Loading,
    Missing,
    Loaded,
}

/// What the cover cache says of a cover: not asked for yet, loading, failed
/// (no cover with that id), or loaded.
#[derive(Debug, Clone, Copy, PartialEq, Eq, Structural)]
pub enum CoverLookup {
    Absent,
    Loading,
    Failed,
    Loaded,
}

/// What the caller is to do after an update.
#[derive(Debug, Clone, Copy, PartialEq, Eq, Structural)]
pub enum CoverAction {
    Nothing,
    /// Ask the server for this cover.
    Request(u64),
    /// Tell the user the cover could not be loaded.
    NotifyMissing,
}

/// The current song and cover of a view, with the flags that tell it what
/// changed: `update` asks for another update, `new_song` and `new_cover`
/// are raised on a change and cleared by the view.
pub struct CurrentInfo {
    pub update: bool,
    pub new_song: bool,
    pub new_cover: bool,
    pub current_song: Option<u64>,
    pub current_cover: Option<(u64, CoverState)>,
}

/// The shown cover after an update that found cover `c` in state `st`, and
/// whether that is a change.
pub open spec fn cover_update(cur: Option<(u64, CoverState)>, c: u64, st: CoverState) -> (Option<(u64, CoverState)>, bool) {
    if cur == Some((c, st)) {
        (cur, false)
    } else {
        (Some((c, st)), true)
    }
}

pub open spec fn lookup_state(l: CoverLookup) -> CoverState {
    match l {
        CoverLookup::Loaded => CoverState::Loaded,
        CoverLookup::Failed => CoverState::Missing,
        _ => CoverState::Loading,
    }
}

impl CurrentInfo {
    pub fn new() -> (r: CurrentInfo)
        ensures
            r.update,
            !r.new_song,
            !r.new_cover,
            r.current_song is None,
            r.current_cover is None,
    {
        CurrentInfo { update: true, new_song: false, new_cover: false, current_song: None, current_cover: None }
    }

    /// Takes in the song the queue plays now, its cover (`cover_of`) and
    /// what the cover cache has of that cover, when an update was asked for.
    /// A new song raises `new_song`; a cover other than the one shown, or in
    /// another state, replaces it and raises `new_cover`; no song or no
    /// cover clears the cover. While the cover loads (or is still to be
    /// asked for), another update is asked for. A cover that is missing is
    /// reported once.
    pub fn update(&mut self, current_song: Option<u64>, cover: Option<u64>, lookup: CoverLookup) -> (r: CoverAction)
        ensures
            !old(self).update ==> *final(self) == *old(self) && r == CoverAction::Nothing,
            old(self).update ==> {
                let song_changed = current_song != old(self).current_song;
                &&& final(self).current_song == current_song
                &&& final(self).new_song == (old(self).new_song || song_changed)
                &&& match (current_song, cover) {
                    (Some(_), Some(c)) => {
                        let (cc, changed) = cover_update(old(self).current_cover, c, lookup_state(lookup));
                        &&& final(self).current_cover == cc
                        &&& final(self).new_cover == (old(self).new_cover || changed)
                        &&& final(self).update == (lookup == CoverLookup::Absent || lookup == CoverLookup::Loading)
                        &&& r == (match lookup {
                            CoverLookup::Absent => CoverAction::Request(c),
                            CoverLookup::Failed => if changed { CoverAction::NotifyMissing } else { CoverAction::Nothing },
                            _ => CoverAction::Nothing,
                        })
                    },
                    _ => {
                        &&& final(self).current_cover is None
                        &&& final(self).new_cover == (old(self).new_cover || old(self).current_cover is Some)
                        &&& !final(self).update
                        &&& r == CoverAction::Nothing
                    },
                }
            },
    {
        if !self.update {
            return CoverAction::Nothing;
        }
        self.update = false;
        if current_song != self.current_song {
            self.current_song = current_song;
            self.new_song = true;
        }
        let c = match (current_song, cover) {
            (Some(_), Some(c)) => c,
            _ => {
                if self.current_cover.is_some() {
                    self.current_cover = None;
                    self.new_cover = true;
                }
                return CoverAction::Nothing;
            },
        };
        let st = match lookup {
            CoverLookup::Loaded => CoverState::Loaded,
            CoverLookup::Failed => CoverState::Missing,
            _ => CoverState::Loading,
        };
        let changed = match self.current_cover {
            Some((cc, h)) => cc != c || h != st,
            None => true,
        };
        if changed {
            self.current_cover = Some((c, st));
            self.new_cover = true;
        }
        match lookup {
            CoverLookup::Absent => {
                self.update = true;
                CoverAction::Request(c)
            },
            CoverLookup::Loading => {
                self.update = true;
                CoverAction::Nothing
            },
            CoverLookup::Failed => if changed { CoverAction::NotifyMissing } else { CoverAction::Nothing },
            CoverLookup::Loaded => CoverAction::Nothing,
        }
    }
}

/// The cover used for a song in notifications and scripts: its own, else
/// its album's (an artist's cover is not used here).
pub open spec fn own_or_album_cover(db: Library, song: u64) -> Option<u64> {
    if db.songs@.contains_key(song) {
        let s = db.songs@[song];
        if s.cover is Some {
            s.cover
        } else if s.album is Some && db.albums@.contains_key(s.album->0) {
            db.albums@[s.album->0].cover
        } else {
            None
        }
    } else {
        None
    }
}

pub fn get_cover(song: u64, db: &Library) -> (r: Option<u64>)
    ensures
        r == own_or_album_cover(*db, song),
{
    let s = match db.songs.get(&song) {
        Some(s) => s,
        None => return None,
    };
    if s.cover.is_some() {
        return s.cover;
    }
    match s.album {
        Some(album) => match db.albums.get(&album) {
            Some(a) => a.cover,
            None => None,
        },
        None => None,
    }
}

/// A cover that is missing is reported once: an update that finds the
/// shown cover in the state it is shown in changes nothing, so a second
/// failed lookup of the same cover reports nothing.
pub proof fn lemma_missing_cover_reported_once(cur: Option<(u64, CoverState)>, c: u64)
    ensures
        !cover_update(cover_update(cur, c, CoverState::Missing).0, c, CoverState::Missing).1,
{
}

/// Whether the song plays with the "Fav" mark: it is in the database and
/// has the tag `Fav`.
pub open spec fn song_is_fav(db: Library, song: Option<u64>) -> bool {
    song matches Some(id) && db.songs@.contains_key(id)
        && strings_model(db.songs@[id].general.tags@).contains("Fav"@)
}

pub fn is_fav(db: &Library, song: Option<u64>) -> (r: bool)
    ensures
        r == song_is_fav(*db, song),
{
    let id = match song {
        Some(id) => id,
        None => return false,
    };
    let s = match db.songs.get(&id) {
        Some(s) => s,
        None => return false,
    };
    let mut i: usize = 0;
    while i < s.general.tags.len()
        invariant
            i <= s.general.tags@.len(),
            db.songs@.contains_key(id),
            db.songs@[id] == *s,
            song == Some(id),
            forall|k: int| 0 <= k < i ==> s.general.tags@[k]@ != "Fav"@,
        decreases s.general.tags.len() - i,
    {
        if str_eq(s.general.tags[i].as_str(), "Fav") {
            assert(strings_model(s.general.tags@)[i as int] == "Fav"@);
            assert(strings_model(s.general.tags@).contains("Fav"@));
            assert(db.songs@[id] == *s);
            return true;
        }
        i = i + 1;
    }
    proof {
        if strings_model(s.general.tags@).contains("Fav"@) {
            let k = choose|k: int| 0 <= k < strings_model(s.general.tags@).len() && strings_model(s.general.tags@)[k] == "Fav"@;
            assert(s.general.tags@[k]@ == "Fav"@);
        }
    }
    false
}

/// The custom file with an artist's picture: `<name>.<ext>` for the first
/// tag `ImageExt=<ext>` of the artist; none without such a tag.
pub open spec fn artist_image_name(db: Library, artist: u64) -> Option<Seq<char>> {
    if db.artists@.contains_key(artist) {
        let a = db.artists@[artist];
        match first_tag_from(strings_model(a.general.tags@), 0, TagMatch::Prefix, "ImageExt="@) {
            Some(j) => Some(a.name@ + "."@ + strings_model(a.general.tags@)[j].skip(9)),
            None => None,
        }
    } else {
        None
    }
}

pub fn artist_image_file(db: &Library, artist: u64) -> (r: Option<String>)
    ensures
        match artist_image_name(*db, artist) {
            Some(n) => r matches Some(f) && f@ == n,
            None => r is None,
        },
{
    let a = match db.artists.get(&artist) {
        Some(a) => a,
        None => return None,
    };
    let prefix = chars_of("ImageExt=");
    proof {
        reveal_strlit("ImageExt=");
    }
    match first_tag(&a.general.tags, TagMatch::Prefix, &prefix) {
        Some(j) => {
            let mut out: Vec<char> = Vec::new();
            push_str(&mut out, a.name.as_str());
            out.push('.');
            let t = chars_of(a.general.tags[j].as_str());
            let ghost t_model = strings_model(a.general.tags@)[j as int];
            assert(t@ == t_model);
            proof {
                lemma_first_tag_in_range(strings_model(a.general.tags@), 0, TagMatch::Prefix, prefix@);
            }
            assert(t@.len() >= 9);
            let mut k: usize = 9;
            let ghost start = out@;
            while k < t.len()
                invariant
                    9 <= k <= t@.len(),
                    out@ == start + t@.subrange(9, k as int),
                decreases t.len() - k,
            {
                out.push(t[k]);
                k = k + 1;
                assert(out@ =~= start + t@.subrange(9, k as int));
            }
            let r = string_of(&out);
            proof {
                reveal_strlit(".");
                assert(t@.subrange(9, t@.len() as int) =~= t@.skip(9));
                assert(r@ =~= a.name@ + "."@ + t_model.skip(9));
            }
            Some(r)
        },
        None => None,
    }
}

} // verus!

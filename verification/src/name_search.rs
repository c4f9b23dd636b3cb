//! Searching names case-insensitively: the playlist list and the artist
//! picker of the song editor.
use vstd::prelude::*;
use crate::library::{artist_ids, Library};
use crate::strings::{chars_of, str_eq};
use crate::textgen::contains_sub;

verus! {

broadcast use {vstd::std_specs::hash::group_hash_axioms, vstd::string::group_string_axioms};

/// What `str::to_lowercase` returns: the text with every character mapped
/// to its Unicode lowercase form.
pub uninterp spec fn to_lowercase(s: Seq<char>) -> Seq<char>;

/// `str::to_lowercase`.
#[verifier::external_body]
fn lowercase(s: &str) -> (r: String)
    ensures
        r@ == to_lowercase(s@),
{
    s.to_lowercase()
}

/// `str::contains` for a string pattern: whether `needle` occurs in `hay`.
pub fn contains_text(hay: &str, needle: &str) -> (r: bool)
    ensures
        r == contains_sub(hay@, needle@),
{
    let h = chars_of(hay);
    let n = chars_of(needle);
    if n.len() > h.len() {
        return false;
    }
    let last = h.len() - n.len();
    let mut i: usize = 0;
    while i <= last
        invariant
            h@ == hay@,
            n@ == needle@,
            n@.len() <= h@.len(),
            last + n@.len() == h@.len(),
            i <= last + 1,
            forall|k: int| 0 <= k < i ==> #[trigger] h@.subrange(k, k + n@.len()) != n@,
        decreases last + 1 - i,
    {
        let mut j: usize = 0;
        while j < n.len() && h[i + j] == n[j]
            invariant
                i <= last,
                last + n@.len() == h@.len(),
                i + n.len() <= h.len(),
                j <= n@.len(),
                forall|q: int| 0 <= q < j ==> h@[i + q] == n@[q],
            decreases n.len() - j,
        {
            j = j + 1;
        }
        if j == n.len() {
            assert(h@.subrange(i as int, i + n@.len()) =~= n@);
            return true;
        }
        assert(h@.subrange(i as int, i + n@.len())[j as int] != n@[j as int]);
        i = i + 1;
    }
    proof {
        if contains_sub(hay@, needle@) {
            let k = choose|k: int| 0 <= k && k + needle@.len() <= hay@.len() && #[trigger] hay@.subrange(k, k + needle@.len()) == needle@;
            assert(h@.subrange(k, k + n@.len()) == n@);
        }
    }
    false
}

/// Whether a name matches a search that was already lowercased.
pub open spec fn name_matches(name: Seq<char>, search_lower: Seq<char>) -> bool {
    contains_sub(to_lowercase(name), search_lower)
}

/// The saved queues listed for a search: those whose lowercased name
/// contains the lowercased search, in the order given.
pub fn matching_playlists(names: &Vec<String>, search: &str) -> (r: Vec<usize>)
    ensures
        forall|k: int| 0 <= k < r@.len() ==> #[trigger] r@[k] < names@.len(),
        forall|k: int, l: int| 0 <= k < l < r@.len() ==> #[trigger] r@[k] < #[trigger] r@[l],
        forall|i: int| 0 <= i < names@.len() ==> (r@.contains(i as usize) <==> #[trigger] name_matches(names@[i]@, to_lowercase(search@))),
{
    let s = lowercase(search);
    let mut out: Vec<usize> = Vec::new();
    let mut i: usize = 0;
    while i < names.len()
        invariant
            i <= names@.len(),
            s@ == to_lowercase(search@),
            forall|k: int| 0 <= k < out@.len() ==> #[trigger] out@[k] < i,
            forall|k: int, l: int| 0 <= k < l < out@.len() ==> #[trigger] out@[k] < #[trigger] out@[l],
            forall|q: int| 0 <= q < i ==> (out@.contains(q as usize) <==> #[trigger] name_matches(names@[q]@, s@)),
        decreases names.len() - i,
    {
        let lower = lowercase(names[i].as_str());
        let m = contains_text(lower.as_str(), s.as_str());
        let ghost o = out@;
        if m {
            out.push(i);
            assert(out@[o.len() as int] == i);
        }
        proof {
            assert forall|q: int| 0 <= q < i + 1 implies (out@.contains(q as usize) <==> #[trigger] name_matches(names@[q]@, s@)) by {
                if q < i {
                    if o.contains(q as usize) {
                        let w = choose|w: int| 0 <= w < o.len() && o[w] == q as usize;
                        assert(out@[w] == q as usize);
                    }
                    if out@.contains(q as usize) {
                        let w = choose|w: int| 0 <= w < out@.len() && out@[w] == q as usize;
                        if w < o.len() {
                            assert(o[w] == q as usize);
                        }
                    }
                } else {
                    if out@.contains(q as usize) && !m {
                        let w = choose|w: int| 0 <= w < out@.len() && out@[w] == q as usize;
                        assert(o[w] < i);
                    }
                }
            }
        }
        i = i + 1;
    }
    out
}

/// The artist field of the song editor: the lowercased search it last
/// listed artists for, and the artist chosen since.
pub struct ArtistPicker {
    pub last_search: String,
    pub chosen: Option<u64>,
}

impl ArtistPicker {
    /// Takes in the typed text: a changed search forgets the chosen artist.
    /// Returns whether the search changed.
    pub fn take_search(&mut self, text: &str) -> (r: bool)
        ensures
            final(self).last_search@ == to_lowercase(text@),
            r == (old(self).last_search@ != to_lowercase(text@)),
            r ==> final(self).chosen is None,
            !r ==> final(self).chosen == old(self).chosen,
    {
        let s = lowercase(text);
        let changed = !str_eq(self.last_search.as_str(), s.as_str());
        if changed {
            self.chosen = None;
        }
        self.last_search = s;
        changed
    }

    /// Chooses an artist from the list.
    pub fn pick(&mut self, name: &str, id: u64)
        ensures
            final(self).chosen == Some(id),
            final(self).last_search@ == to_lowercase(name@),
    {
        self.chosen = Some(id);
        self.last_search = lowercase(name);
    }
}

/// The artists the picker lists for a lowercased search: each artist of the
/// database whose lowercased name contains it, once, with its name.
pub fn matching_artists(db: &Library, search_lower: &str) -> (r: Vec<(String, u64)>)
    ensures
        r@.map_values(|e: (String, u64)| e.1).no_duplicates(),
        forall|k: int| 0 <= k < r@.len() ==> db.artists@.contains_key(#[trigger] r@[k].1)
            && r@[k].0@ == db.artists@[r@[k].1].name@
            && name_matches(db.artists@[r@[k].1].name@, search_lower@),
        forall|id: u64| db.artists@.contains_key(id) && name_matches(db.artists@[id].name@, search_lower@)
            ==> r@.map_values(|e: (String, u64)| e.1).contains(id),
{
    let ids = artist_ids(db);
    let mut out: Vec<(String, u64)> = Vec::new();
    let mut i: usize = 0;
    while i < ids.len()
        invariant
            i <= ids@.len(),
            ids@.to_set() == db.artists@.dom(),
            ids@.no_duplicates(),
            out@.map_values(|e: (String, u64)| e.1).no_duplicates(),
            forall|k: int| 0 <= k < out@.len() ==> #[trigger] ids@.take(i as int).contains(out@[k].1),
            forall|k: int| 0 <= k < out@.len() ==> db.artists@.contains_key(#[trigger] out@[k].1)
                && out@[k].0@ == db.artists@[out@[k].1].name@
                && name_matches(db.artists@[out@[k].1].name@, search_lower@),
            forall|q: int| 0 <= q < i && #[trigger] name_matches(db.artists@[ids@[q]].name@, search_lower@)
                ==> out@.map_values(|e: (String, u64)| e.1).contains(ids@[q]),
        decreases ids.len() - i,
    {
        let id = ids[i];
        assert(ids@.to_set().contains(id));
        let artist = db.artists.get(&id).unwrap();
        let lower = lowercase(artist.name.as_str());
        let ghost o = out@;
        let ghost oi = o.map_values(|e: (String, u64)| e.1);
        if contains_text(lower.as_str(), search_lower) {
            out.push((artist.name.clone(), id));
            proof {
                let ni = out@.map_values(|e: (String, u64)| e.1);
                assert(ni =~= oi.push(id));
                assert(!oi.contains(id)) by {
                    if oi.contains(id) {
                        let w = choose|w: int| 0 <= w < oi.len() && oi[w] == id;
                        assert(ids@.take(i as int).contains(o[w].1));
                        let z = choose|z: int| 0 <= z < i && ids@.take(i as int)[z] == id;
                        assert(ids@[z] == ids@[i as int]);
                    }
                }
                assert(ni[o.len() as int] == id);
            }
        }
        proof {
            let ni = out@.map_values(|e: (String, u64)| e.1);
            assert forall|k: int| 0 <= k < out@.len() implies #[trigger] ids@.take(i + 1).contains(out@[k].1) by {
                if k < o.len() {
                    assert(out@[k] == o[k]);
                    assert(ids@.take(i as int).contains(o[k].1));
                    let z = choose|z: int| 0 <= z < i && ids@.take(i as int)[z] == o[k].1;
                    assert(ids@.take(i + 1)[z] == o[k].1);
                } else {
                    assert(ids@.take(i + 1)[i as int] == id);
                }
            }
            assert forall|q: int| 0 <= q < i + 1 && #[trigger] name_matches(db.artists@[ids@[q]].name@, search_lower@)
                implies ni.contains(ids@[q]) by {
                if q < i {
                    let w = choose|w: int| 0 <= w < oi.len() && oi[w] == ids@[q];
                    assert(ni[w] == ids@[q]);
                } else {
                    assert(ni[o.len() as int] == id);
                }
            }
        }
        i = i + 1;
    }
    proof {
        assert forall|id: u64| db.artists@.contains_key(id) && name_matches(db.artists@[id].name@, search_lower@)
            implies out@.map_values(|e: (String, u64)| e.1).contains(id) by {
            assert(ids@.to_set().contains(id));
            let q = choose|q: int| 0 <= q < ids@.len() && ids@[q] == id;
            assert(name_matches(db.artists@[ids@[q]].name@, search_lower@));
        }
    }
    out
}

} // verus!

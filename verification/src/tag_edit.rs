//! The editors for songs and albums: the tags they show for several items at
//! once, the changes to tags they make, and how they take in a new title.
use vstd::prelude::*;
use crate::filter::GeneralData;
use crate::library::{Album, Song};
use crate::search::{is_white_space, is_white_space_exec};
use crate::strings::{chars_of, push_decimal, push_str, str_eq, string_of};
use crate::textgen::strings_model;

verus! {

broadcast use vstd::string::group_string_axioms;

/// The first occurrence of each string, in order.
pub open spec fn first_occurrences(s: Seq<Seq<char>>) -> Seq<Seq<char>>
    decreases s.len(),
{
    if s.len() == 0 {
        Seq::empty()
    } else {
        let rest = first_occurrences(s.drop_last());
        if rest.contains(s.last()) { rest } else { rest.push(s.last()) }
    }
}

/// The tags of the items, one item after the other.
pub open spec fn all_tags(items: Seq<GeneralData>) -> Seq<Seq<char>>
    decreases items.len(),
{
    if items.len() == 0 {
        Seq::empty()
    } else {
        all_tags(items.drop_last()) + strings_model(items.last().tags@)
    }
}

fn copy_strings(v: &Vec<String>) -> (r: Vec<String>)
    ensures
        r@ == v@,
{
    let r = v.clone();
    assert(r@ =~= v@);
    r
}

fn contains_str(v: &Vec<String>, x: &str) -> (r: bool)
    ensures
        r == strings_model(v@).contains(x@),
{
    let mut i: usize = 0;
    while i < v.len()
        invariant
            i <= v@.len(),
            forall|k: int| 0 <= k < i ==> v@[k]@ != x@,
        decreases v.len() - i,
    {
        if str_eq(v[i].as_str(), x) {
            assert(strings_model(v@)[i as int] == x@);
            return true;
        }
        i = i + 1;
    }
    proof {
        if strings_model(v@).contains(x@) {
            let k = choose|k: int| 0 <= k < strings_model(v@).len() && strings_model(v@)[k] == x@;
            assert(v@[k]@ == x@);
        }
    }
    false
}

/// The tags an editor of several items lists: every tag of any item once,
/// in the order they are first met.
pub fn collect_tags(items: &Vec<GeneralData>) -> (r: Vec<String>)
    ensures
        strings_model(r@) == first_occurrences(all_tags(items@)),
{
    let mut out: Vec<String> = Vec::new();
    let mut i: usize = 0;
    assert(strings_model(out@) =~= first_occurrences(all_tags(items@.take(0))));
    while i < items.len()
        invariant
            i <= items@.len(),
            strings_model(out@) == first_occurrences(all_tags(items@.take(i as int))),
        decreases items.len() - i,
    {
        let tags = &items[i].tags;
        let ghost prefix = all_tags(items@.take(i as int));
        assert(items@.take(i + 1).drop_last() =~= items@.take(i as int));
        let mut j: usize = 0;
        assert(prefix + strings_model(tags@).take(0) =~= prefix);
        while j < tags.len()
            invariant
                j <= tags@.len(),
                tags == &items@[i as int].tags,
                strings_model(out@) == first_occurrences(prefix + strings_model(tags@).take(j as int)),
            decreases tags.len() - j,
        {
            let ghost before = prefix + strings_model(tags@).take(j as int);
            assert(before.push(tags@[j as int]@) =~= prefix + strings_model(tags@).take(j + 1));
            assert((prefix + strings_model(tags@).take(j + 1)).drop_last() =~= before);
            if !contains_str(&out, tags[j].as_str()) {
                let ghost o = out@;
                out.push(tags[j].clone());
                assert(strings_model(out@) =~= strings_model(o).push(tags@[j as int]@));
            }
            j = j + 1;
        }
        assert(strings_model(tags@).take(tags@.len() as int) =~= strings_model(tags@));
        assert(all_tags(items@.take(i + 1)) =~= prefix + strings_model(items@[i as int].tags@));
        i = i + 1;
    }
    assert(items@.take(items@.len() as int) =~= items@);
    out
}

/// The tags with every `x` removed.
pub open spec fn without(s: Seq<Seq<char>>, x: Seq<char>) -> Seq<Seq<char>>
    decreases s.len(),
{
    if s.len() == 0 {
        Seq::empty()
    } else {
        let rest = without(s.drop_last(), x);
        if s.last() == x { rest } else { rest.push(s.last()) }
    }
}

/// The tags with every `from` written as `to`.
pub open spec fn renamed(s: Seq<Seq<char>>, from: Seq<char>, to: Seq<char>) -> Seq<Seq<char>> {
    s.map_values(|t: Seq<char>| if t == from { to } else { t })
}

/// The tags after a list of renamings, applied in order.
pub open spec fn renamed_all(s: Seq<Seq<char>>, edits: Seq<(Seq<char>, Seq<char>)>) -> Seq<Seq<char>>
    decreases edits.len(),
{
    if edits.len() == 0 {
        s
    } else {
        let r = renamed_all(s, edits.drop_last());
        renamed(r, edits.last().0, edits.last().1)
    }
}

pub open spec fn tags_of(items: Seq<GeneralData>) -> Seq<Seq<Seq<char>>> {
    items.map_values(|g: GeneralData| strings_model(g.tags@))
}

/// The "add tag" field: every item without the tag gets it, at the end.
pub fn add_tag(items: &mut Vec<GeneralData>, tag: &String)
    ensures
        final(items)@.len() == old(items)@.len(),
        forall|i: int| 0 <= i < old(items)@.len() ==> #[trigger] tags_of(final(items)@)[i] == (
            if tags_of(old(items)@)[i].contains(tag@) { tags_of(old(items)@)[i] } else { tags_of(old(items)@)[i].push(tag@) }),
{
    let mut i: usize = 0;
    while i < items.len()
        invariant
            i <= items@.len(),
            items@.len() == old(items)@.len(),
            forall|k: int| i <= k < items@.len() ==> #[trigger] items@[k] == old(items)@[k],
            forall|k: int| 0 <= k < i ==> #[trigger] tags_of(items@)[k] == (
                if tags_of(old(items)@)[k].contains(tag@) { tags_of(old(items)@)[k] } else { tags_of(old(items)@)[k].push(tag@) }),
        decreases items.len() - i,
    {
        let present = contains_str(&items[i].tags, tag.as_str());
        let ghost prev = items@;
        if !present {
            let mut t = copy_strings(&items[i].tags);
            t.push(tag.clone());
            assert(strings_model(t@) =~= strings_model(prev[i as int].tags@).push(tag@));
            items.set(i, GeneralData { tags: t });
        }
        proof {
            assert forall|k: int| 0 <= k <= i implies #[trigger] tags_of(items@)[k] == (
                if tags_of(old(items)@)[k].contains(tag@) { tags_of(old(items)@)[k] } else { tags_of(old(items)@)[k].push(tag@) }) by {
                if k < i {
                    assert(items@[k] == prev[k]);
                    assert(tags_of(prev)[k] == strings_model(prev[k].tags@));
                }
            }
        }
        i = i + 1;
    }
}

fn remove_from(tags: &Vec<String>, tag: &str) -> (r: Vec<String>)
    ensures
        strings_model(r@) == without(strings_model(tags@), tag@),
{
    let mut out: Vec<String> = Vec::new();
    let mut j: usize = 0;
    assert(strings_model(out@) =~= without(strings_model(tags@).take(0), tag@));
    while j < tags.len()
        invariant
            j <= tags@.len(),
            strings_model(out@) == without(strings_model(tags@).take(j as int), tag@),
        decreases tags.len() - j,
    {
        assert(strings_model(tags@).take(j + 1).drop_last() =~= strings_model(tags@).take(j as int));
        if !str_eq(tags[j].as_str(), tag) {
            let ghost o = out@;
            out.push(tags[j].clone());
            assert(strings_model(out@) =~= strings_model(o).push(tags@[j as int]@));
        }
        j = j + 1;
    }
    assert(strings_model(tags@).take(tags@.len() as int) =~= strings_model(tags@));
    out
}

/// The delete button of a listed tag: the tag is removed from every item,
/// every time it occurs.
pub fn remove_tag(items: &mut Vec<GeneralData>, tag: &str)
    ensures
        final(items)@.len() == old(items)@.len(),
        forall|i: int| 0 <= i < old(items)@.len() ==> #[trigger] tags_of(final(items)@)[i] == without(tags_of(old(items)@)[i], tag@),
{
    let mut i: usize = 0;
    while i < items.len()
        invariant
            i <= items@.len(),
            items@.len() == old(items)@.len(),
            forall|k: int| i <= k < items@.len() ==> #[trigger] items@[k] == old(items)@[k],
            forall|k: int| 0 <= k < i ==> #[trigger] tags_of(items@)[k] == without(tags_of(old(items)@)[k], tag@),
        decreases items.len() - i,
    {
        let t = remove_from(&items[i].tags, tag);
        let ghost prev = items@;
        items.set(i, GeneralData { tags: t });
        proof {
            assert forall|k: int| 0 <= k <= i implies #[trigger] tags_of(items@)[k] == without(tags_of(old(items)@)[k], tag@) by {
                if k < i {
                    assert(items@[k] == prev[k]);
                    assert(tags_of(prev)[k] == strings_model(prev[k].tags@));
                }
            }
        }
        i = i + 1;
    }
}

fn rename_in(tags: &mut Vec<String>, from: &str, to: &String)
    ensures
        strings_model(final(tags)@) == renamed(strings_model(old(tags)@), from@, to@),
{
    let mut j: usize = 0;
    while j < tags.len()
        invariant
            j <= tags@.len(),
            tags@.len() == old(tags)@.len(),
            forall|k: int| j <= k < tags@.len() ==> #[trigger] tags@[k] == old(tags)@[k],
            forall|k: int| 0 <= k < j ==> #[trigger] tags@[k]@ == (if old(tags)@[k]@ == from@ { to@ } else { old(tags)@[k]@ }),
        decreases tags.len() - j,
    {
        if str_eq(tags[j].as_str(), from) {
            tags.set(j, to.clone());
        }
        j = j + 1;
    }
    assert(strings_model(tags@) =~= renamed(strings_model(old(tags)@), from@, to@));
}

/// The "apply" of the tag fields: each listed tag that was edited is
/// renamed in every item, the edits taken one after the other.
pub fn rename_tags(items: &mut Vec<GeneralData>, edits: &Vec<(String, String)>)
    ensures
        final(items)@.len() == old(items)@.len(),
        forall|i: int| 0 <= i < old(items)@.len() ==> #[trigger] tags_of(final(items)@)[i] == renamed_all(
            tags_of(old(items)@)[i], edits@.map_values(|e: (String, String)| (e.0@, e.1@))),
{
    let ghost em = edits@.map_values(|e: (String, String)| (e.0@, e.1@));
    let mut i: usize = 0;
    while i < items.len()
        invariant
            i <= items@.len(),
            items@.len() == old(items)@.len(),
            em == edits@.map_values(|e: (String, String)| (e.0@, e.1@)),
            forall|k: int| i <= k < items@.len() ==> #[trigger] items@[k] == old(items)@[k],
            forall|k: int| 0 <= k < i ==> #[trigger] tags_of(items@)[k] == renamed_all(tags_of(old(items)@)[k], em),
        decreases items.len() - i,
    {
        let ghost prev = items@;
        let mut g = GeneralData { tags: copy_strings(&items[i].tags) };
        let ghost t0 = strings_model(g.tags@);
        assert(t0 == tags_of(old(items)@)[i as int]);
        let mut e: usize = 0;
        while e < edits.len()
            invariant
                e <= edits@.len(),
                em == edits@.map_values(|e: (String, String)| (e.0@, e.1@)),
                strings_model(g.tags@) == renamed_all(t0, em.take(e as int)),
            decreases edits.len() - e,
        {
            assert(em.take(e + 1).drop_last() =~= em.take(e as int));
            rename_in(&mut g.tags, edits[e].0.as_str(), &edits[e].1);
            e = e + 1;
        }
        assert(em.take(em.len() as int) =~= em);
        items.set(i, g);
        proof {
            assert forall|k: int| 0 <= k <= i implies #[trigger] tags_of(items@)[k] == renamed_all(tags_of(old(items)@)[k], em) by {
                if k < i {
                    assert(items@[k] == prev[k]);
                    assert(tags_of(prev)[k] == strings_model(prev[k].tags@));
                }
            }
        }
        i = i + 1;
    }
}

/// The text without leading white space.
pub open spec fn trim_start(s: Seq<char>) -> Seq<char>
    decreases s.len(),
{
    if s.len() > 0 && is_white_space(s[0]) { trim_start(s.drop_first()) } else { s }
}

/// The text without trailing white space.
pub open spec fn trim_end(s: Seq<char>) -> Seq<char>
    decreases s.len(),
{
    if s.len() > 0 && is_white_space(s.last()) { trim_end(s.drop_last()) } else { s }
}

/// `str::trim`: without white space at either end.
pub open spec fn trim(s: Seq<char>) -> Seq<char> {
    trim_end(trim_start(s))
}

proof fn lemma_trim_start_skip(s: Seq<char>, i: int)
    requires
        0 <= i <= s.len(),
        forall|k: int| 0 <= k < i ==> is_white_space(#[trigger] s[k]),
    ensures
        trim_start(s) == trim_start(s.skip(i)),
    decreases i,
{
    if i > 0 {
        lemma_trim_start_skip(s, i - 1);
        assert(s.skip(i - 1)[0] == s[i - 1]);
        assert(s.skip(i - 1).drop_first() =~= s.skip(i));
    } else {
        assert(s.skip(0) =~= s);
    }
}

proof fn lemma_trim_end_take(s: Seq<char>, j: int)
    requires
        0 <= j <= s.len(),
        forall|k: int| j <= k < s.len() ==> is_white_space(#[trigger] s[k]),
    ensures
        trim_end(s) == trim_end(s.take(j)),
    decreases s.len() - j,
{
    if j < s.len() {
        assert(s.last() == s[s.len() - 1]);
        assert(s.drop_last().take(j) =~= s.take(j));
        lemma_trim_end_take(s.drop_last(), j);
    } else {
        assert(s.take(j) =~= s);
    }
}

/// The title field of an editor: its text without white space at the ends,
/// or `None` when nothing is left (the title is then kept).
pub fn new_title(text: &str) -> (r: Option<String>)
    ensures
        trim(text@).len() == 0 ==> r is None,
        trim(text@).len() > 0 ==> (r matches Some(t) && t@ == trim(text@)),
{
    let c = chars_of(text);
    let n = c.len();
    let mut a: usize = 0;
    while a < n && is_white_space_exec(c[a])
        invariant
            a <= n,
            n == c@.len(),
            forall|k: int| 0 <= k < a ==> is_white_space(#[trigger] c@[k]),
        decreases n - a,
    {
        a = a + 1;
    }
    proof { lemma_trim_start_skip(c@, a as int); }
    let mut b: usize = n;
    while b > a && is_white_space_exec(c[b - 1])
        invariant
            a <= b <= n,
            n == c@.len(),
            forall|k: int| b <= k < n ==> is_white_space(#[trigger] c@[k]),
        decreases b,
    {
        b = b - 1;
    }
    let ghost rest = c@.skip(a as int);
    proof {
        assert forall|k: int| b - a <= k < rest.len() implies is_white_space(#[trigger] rest[k]) by {
            assert(rest[k] == c@[k + a]);
        }
        lemma_trim_end_take(rest, b - a);
        let t = rest.take(b - a);
        if t.len() > 0 {
            assert(t[0] == c@[a as int]);
            assert(t.last() == c@[b - 1]);
        }
        assert(trim_start(rest) == rest);
        assert(trim_end(t) == t);
    }
    if a == b {
        return None;
    }
    let mut out: Vec<char> = Vec::new();
    let mut k: usize = a;
    while k < b
        invariant
            a <= k <= b <= n,
            n == c@.len(),
            out@ == c@.subrange(a as int, k as int),
        decreases b - k,
    {
        out.push(c[k]);
        k = k + 1;
        assert(out@ =~= c@.subrange(a as int, k as int));
    }
    assert(out@ =~= rest.take(b - a));
    Some(string_of(&out))
}

/// The names joined by `, `.
pub open spec fn joined(names: Seq<Seq<char>>) -> Seq<char>
    decreases names.len(),
{
    if names.len() == 0 {
        Seq::empty()
    } else if names.len() == 1 {
        names[0]
    } else {
        joined(names.drop_last()) + ", "@ + names.last()
    }
}

/// The hint of an editor's title field: `<label> (<name>, <name>, ...)`.
pub fn title_hint(label: &str, names: &Vec<String>) -> (r: String)
    ensures
        r@ == label@ + " ("@ + joined(strings_model(names@)) + ")"@,
{
    let mut out: Vec<char> = Vec::new();
    push_str(&mut out, label);
    push_str(&mut out, " (");
    let ghost start = out@;
    let mut i: usize = 0;
    while i < names.len()
        invariant
            i <= names@.len(),
            out@ == start + joined(strings_model(names@).take(i as int)),
        decreases names.len() - i,
    {
        let ghost m = strings_model(names@);
        assert(m.take(i + 1).drop_last() =~= m.take(i as int));
        if i > 0 {
            push_str(&mut out, ", ");
        }
        push_str(&mut out, names[i].as_str());
        i = i + 1;
        proof {
            if i == 1 {
                assert(m.take(1) =~= seq![m[0]]);
                assert(joined(m.take(0)) =~= Seq::<char>::empty());
            }
        }
        assert(out@ =~= start + joined(m.take(i as int)));
    }
    assert(strings_model(names@).take(names@.len() as int) =~= strings_model(names@));
    push_str(&mut out, ")");
    let r = string_of(&out);
    assert(r@ =~= label@ + " ("@ + joined(strings_model(names@)) + ")"@);
    r
}

/// The label of an editor: `Editing <n> <things>`.
pub fn editing_label(count: usize, things: &str) -> (r: String)
    ensures
        r@ == "Editing "@ + crate::strings::decimal(count as nat) + " "@ + things@,
{
    let mut out: Vec<char> = Vec::new();
    push_str(&mut out, "Editing ");
    push_decimal(&mut out, count as u64);
    push_str(&mut out, " ");
    push_str(&mut out, things);
    let r = string_of(&out);
    assert(r@ =~= "Editing "@ + crate::strings::decimal(count as nat) + " "@ + things@);
    r
}

/// The changes an editor sends: one change alone, several together.
pub enum Changes<T> {
    One(T),
    Many(Vec<T>),
}

/// Bundles the editor's changes: none is nothing to send.
pub fn bundle<T>(changes: Vec<T>) -> (r: Option<Changes<T>>)
    ensures
        changes@.len() == 0 ==> r is None,
        changes@.len() == 1 ==> (r matches Some(Changes::One(c)) && c == changes@[0]),
        changes@.len() > 1 ==> (r matches Some(Changes::Many(v)) && v@ == changes@),
{
    let mut changes = changes;
    if changes.len() == 0 {
        None
    } else if changes.len() == 1 {
        let c = changes.pop().unwrap();
        Some(Changes::One(c))
    } else {
        Some(Changes::Many(changes))
    }
}

/// A song as the song editor changes it: a new title when one was typed; a
/// chosen artist replaces the artist and takes the song out of its album.
pub fn edit_song(song: &Song, title: &Option<String>, artist: Option<u64>) -> (r: Song)
    ensures
        r.title@ == (match title { Some(t) => t@, None => song.title@ }),
        r.artist == (match artist { Some(a) => a, None => song.artist }),
        r.album == (if artist is Some { None } else { song.album }),
        r.cover == song.cover,
        r.general.tags@ == song.general.tags@,
        r.duration_millis == song.duration_millis,
{
    Song {
        title: match title {
            Some(t) => t.clone(),
            None => song.title.clone(),
        },
        album: if artist.is_some() { None } else { song.album },
        artist: match artist {
            Some(a) => a,
            None => song.artist,
        },
        cover: song.cover,
        general: GeneralData { tags: copy_strings(&song.general.tags) },
        duration_millis: song.duration_millis,
    }
}

/// An album as the album editor changes it: a new name when one was typed,
/// a chosen artist.
pub fn edit_album(album: &Album, name: &Option<String>, artist: Option<u64>) -> (r: Album)
    ensures
        r.name@ == (match name { Some(t) => t@, None => album.name@ }),
        r.artist == (match artist { Some(a) => a, None => album.artist }),
        r.cover == album.cover,
        r.general.tags@ == album.general.tags@,
        r.songs@ == album.songs@,
{
    let songs = album.songs.clone();
    assert(songs@ =~= album.songs@);
    Album {
        name: match name {
            Some(t) => t.clone(),
            None => album.name.clone(),
        },
        artist: match artist {
            Some(a) => a,
            None => album.artist,
        },
        cover: album.cover,
        general: GeneralData { tags: copy_strings(&album.general.tags) },
        songs,
    }
}

/// A tag list after the "add tag" field.
pub open spec fn with_tag(t: Seq<Seq<char>>, x: Seq<char>) -> Seq<Seq<char>> {
    if t.contains(x) { t } else { t.push(x) }
}

/// Adding a tag makes the item have it, and adding it again changes
/// nothing.
pub proof fn lemma_add_tag_idempotent(t: Seq<Seq<char>>, x: Seq<char>)
    ensures
        with_tag(t, x).contains(x),
        with_tag(with_tag(t, x), x) == with_tag(t, x),
{
    if !t.contains(x) {
        assert(t.push(x)[t.len() as int] == x);
    }
}

proof fn lemma_without_contains(t: Seq<Seq<char>>, x: Seq<char>, y: Seq<char>)
    ensures
        without(t, x).contains(y) <==> (t.contains(y) && y != x),
    decreases t.len(),
{
    if t.len() > 0 {
        lemma_without_contains(t.drop_last(), x, y);
        let rest = without(t.drop_last(), x);
        if t.contains(y) && y != x {
            let i = choose|i: int| 0 <= i < t.len() && t[i] == y;
            if i < t.len() - 1 {
                assert(t.drop_last()[i] == y);
                let j = choose|j: int| 0 <= j < rest.len() && rest[j] == y;
                if t.last() != x {
                    assert(rest.push(t.last())[j] == y);
                }
            } else {
                assert(rest.push(t.last())[rest.len() as int] == y);
            }
        }
        if without(t, x).contains(y) {
            if t.last() != x {
                let i = choose|i: int| 0 <= i < rest.push(t.last()).len() && rest.push(t.last())[i] == y;
                if i < rest.len() {
                    assert(rest[i] == y);
                    assert(rest.contains(y));
                    let j = choose|j: int| 0 <= j < t.drop_last().len() && t.drop_last()[j] == y;
                    assert(t[j] == y);
                } else {
                    assert(t[t.len() - 1] == y);
                }
            } else {
                assert(rest.contains(y));
                let j = choose|j: int| 0 <= j < t.drop_last().len() && t.drop_last()[j] == y;
                assert(t[j] == y);
            }
        }
    }
}

/// After its delete button, the tag is gone, and every other tag stays.
pub proof fn lemma_removed_tag_absent(t: Seq<Seq<char>>, x: Seq<char>)
    ensures
        !without(t, x).contains(x),
        forall|y: Seq<char>| y != x ==> (#[trigger] without(t, x).contains(y) <==> t.contains(y)),
{
    lemma_without_contains(t, x, x);
    assert forall|y: Seq<char>| y != x implies (#[trigger] without(t, x).contains(y) <==> t.contains(y)) by {
        lemma_without_contains(t, x, y);
    }
}

proof fn lemma_first_occurrences_contains(s: Seq<Seq<char>>, x: Seq<char>)
    ensures
        first_occurrences(s).contains(x) <==> s.contains(x),
    decreases s.len(),
{
    if s.len() > 0 {
        lemma_first_occurrences_contains(s.drop_last(), x);
        lemma_first_occurrences_contains(s.drop_last(), s.last());
        let rest = first_occurrences(s.drop_last());
        if s.contains(x) {
            let i = choose|i: int| 0 <= i < s.len() && s[i] == x;
            if i < s.len() - 1 {
                assert(s.drop_last()[i] == x);
                let j = choose|j: int| 0 <= j < rest.len() && rest[j] == x;
                if !rest.contains(s.last()) {
                    assert(rest.push(s.last())[j] == x);
                }
            } else if !rest.contains(s.last()) {
                assert(rest.push(s.last())[rest.len() as int] == x);
            }
        }
        if first_occurrences(s).contains(x) {
            if rest.contains(s.last()) {
                assert(rest.contains(x));
                let j = choose|j: int| 0 <= j < s.drop_last().len() && s.drop_last()[j] == x;
                assert(s[j] == x);
            } else {
                let j = choose|j: int| 0 <= j < rest.push(s.last()).len() && rest.push(s.last())[j] == x;
                if j < rest.len() {
                    assert(rest[j] == x);
                    assert(rest.contains(x));
                    let k = choose|k: int| 0 <= k < s.drop_last().len() && s.drop_last()[k] == x;
                    assert(s[k] == x);
                } else {
                    assert(s[s.len() - 1] == x);
                }
            }
        }
    }
}

proof fn lemma_first_occurrences_unique(s: Seq<Seq<char>>)
    ensures
        first_occurrences(s).no_duplicates(),
    decreases s.len(),
{
    if s.len() > 0 {
        lemma_first_occurrences_unique(s.drop_last());
        let rest = first_occurrences(s.drop_last());
        if !rest.contains(s.last()) {
            let r = rest.push(s.last());
            assert forall|i: int, j: int| 0 <= i < r.len() && 0 <= j < r.len() && i != j implies r[i] != r[j] by {
                if i < rest.len() && j < rest.len() {
                    assert(r[i] == rest[i] && r[j] == rest[j]);
                } else if i < rest.len() {
                    assert(r[i] == rest[i]);
                } else if j < rest.len() {
                    assert(r[j] == rest[j]);
                }
            }
        }
    }
}

/// The tag list of a multi-item editor names each tag of the items once.
pub proof fn lemma_collected_tags_once(s: Seq<Seq<char>>)
    ensures
        first_occurrences(s).no_duplicates(),
        forall|x: Seq<char>| #[trigger] first_occurrences(s).contains(x) <==> s.contains(x),
{
    lemma_first_occurrences_unique(s);
    assert forall|x: Seq<char>| #[trigger] first_occurrences(s).contains(x) <==> s.contains(x) by {
        lemma_first_occurrences_contains(s, x);
    }
}

/// A row of an editor's tag list: the tag it edits and its position in
/// the list.
pub struct TagRow {
    pub tag: String,
    pub index: usize,
}

pub open spec fn rows_model(s: Seq<TagRow>) -> Seq<(Seq<char>, usize)> {
    s.map_values(|r: TagRow| (r.tag@, r.index))
}

/// How many rows of `s` edit the tag `t`.
pub open spec fn rows_with(s: Seq<(Seq<char>, usize)>, t: Seq<char>) -> nat
    decreases s.len(),
{
    if s.len() == 0 {
        0
    } else {
        rows_with(s.drop_last(), t) + if s.last().0 == t { 1nat } else { 0nat }
    }
}

/// The rows without those of tag `t`, in order, each of the others moved
/// up by the number of rows of `t` that were before it.
pub open spec fn rows_without(s: Seq<(Seq<char>, usize)>, t: Seq<char>) -> Seq<(Seq<char>, usize)>
    decreases s.len(),
{
    if s.len() == 0 {
        Seq::empty()
    } else {
        let rest = rows_without(s.drop_last(), t);
        if s.last().0 == t {
            rest
        } else {
            rest.push((s.last().0, (s.last().1 - rows_with(s.drop_last(), t)) as usize))
        }
    }
}

/// The position of the first row of tag `t` (the length where there is none).
pub open spec fn first_row_of(s: Seq<(Seq<char>, usize)>, t: Seq<char>) -> int
    decreases s.len(),
{
    if s.len() == 0 {
        0
    } else if rows_with(s.drop_last(), t) > 0 {
        first_row_of(s.drop_last(), t)
    } else if s.last().0 == t {
        s.len() - 1
    } else {
        s.len() as int
    }
}

/// No row's position would drop below 0 on moving up past the rows of `t`.
pub open spec fn rows_can_move_up(s: Seq<(Seq<char>, usize)>, t: Seq<char>) -> bool {
    forall|k: int| 0 <= k < s.len() && s[k].0 != t ==> rows_with(#[trigger] s.take(k), t) <= s[k].1
}

proof fn lemma_rows_with_le(s: Seq<(Seq<char>, usize)>, t: Seq<char>)
    ensures
        rows_with(s, t) <= s.len(),
    decreases s.len(),
{
    if s.len() > 0 {
        lemma_rows_with_le(s.drop_last(), t);
    }
}

/// Rows numbered by their positions stay so when a tag's rows go, and none
/// of that tag is left.
pub proof fn lemma_rows_stay_numbered(s: Seq<(Seq<char>, usize)>, t: Seq<char>)
    requires
        forall|k: int| 0 <= k < s.len() ==> #[trigger] s[k].1 == k,
    ensures
        rows_can_move_up(s, t),
        rows_without(s, t).len() == s.len() - rows_with(s, t),
        forall|k: int| 0 <= k < rows_without(s, t).len() ==> (#[trigger] rows_without(s, t)[k]).1 == k
            && rows_without(s, t)[k].0 != t,
    decreases s.len(),
{
    assert forall|k: int| 0 <= k < s.len() && s[k].0 != t implies rows_with(#[trigger] s.take(k), t) <= s[k].1 by {
        lemma_rows_with_le(s.take(k), t);
    }
    if s.len() > 0 {
        let d = s.drop_last();
        assert forall|k: int| 0 <= k < d.len() implies #[trigger] d[k].1 == k by {
            assert(d[k] == s[k]);
        }
        lemma_rows_stay_numbered(d, t);
        lemma_rows_with_le(d, t);
        let rest = rows_without(d, t);
        if s.last().0 != t {
            let x = (s.last().0, (s.last().1 - rows_with(d, t)) as usize);
            assert forall|k: int| 0 <= k < rest.push(x).len() implies (#[trigger] rest.push(x)[k]).1 == k
                && rest.push(x)[k].0 != t by {
                if k < rest.len() {
                    assert(rest.push(x)[k] == rest[k]);
                }
            }
        }
    }
}

/// The "add tag" field, as the tag list sees it: a row for the new tag
/// goes at the end, with the next position; the list is redrawn.
pub fn add_tag_row(rows: &mut Vec<TagRow>, tag: String) -> (redraw: bool)
    ensures
        rows_model(final(rows)@) == rows_model(old(rows)@).push((tag@, old(rows)@.len() as usize)),
        redraw,
{
    let i = rows.len();
    let ghost before = rows@;
    rows.push(TagRow { tag, index: i });
    assert(rows_model(rows@) =~= rows_model(before).push((rows@[i as int].tag@, i)));
    true
}

/// The delete button of a listed tag, as the tag list sees it: every row of
/// that tag goes and the rows after each move up by one; the list is
/// redrawn where a row now stands at or after the first removed one.
pub fn remove_tag_rows(rows: &mut Vec<TagRow>, tag: &str) -> (redraw: bool)
    requires
        rows_can_move_up(rows_model(old(rows)@), tag@),
    ensures
        rows_model(final(rows)@) == rows_without(rows_model(old(rows)@), tag@),
        redraw == (final(rows)@.len() > first_row_of(rows_model(old(rows)@), tag@)),
{
    let ghost m = rows_model(rows@);
    let mut kept: Vec<TagRow> = Vec::new();
    let mut gone: usize = 0;
    let mut first: usize = rows.len();
    let mut i: usize = 0;
    while i < rows.len()
        invariant
            i <= rows@.len(),
            m == rows_model(rows@),
            rows_can_move_up(m, tag@),
            rows_model(kept@) == rows_without(m.take(i as int), tag@),
            gone == rows_with(m.take(i as int), tag@),
            gone <= i,
            first == (if gone > 0 { first_row_of(m.take(i as int), tag@) } else { rows@.len() as int }),
            first_row_of(m.take(i as int), tag@) == (if gone > 0 { first as int } else { i as int }),
        decreases rows.len() - i,
    {
        let ghost t = m.take(i + 1);
        assert(t.drop_last() =~= m.take(i as int));
        assert(t.last() == m[i as int]);
        assert(m[i as int] == (rows@[i as int].tag@, rows@[i as int].index));
        if str_eq(rows[i].tag.as_str(), tag) {
            if gone == 0 {
                first = i;
            }
            gone = gone + 1;
        } else {
            assert(m.take(i as int) == t.drop_last());
            assert(rows_with(m.take(i as int), tag@) <= m[i as int].1);
            let ghost k0 = kept@;
            kept.push(TagRow { tag: rows[i].tag.clone(), index: rows[i].index - gone });
            assert(rows_model(kept@) =~= rows_model(k0).push((m[i as int].0, (m[i as int].1 - gone) as usize)));
        }
        i = i + 1;
    }
    assert(m.take(rows@.len() as int) =~= m);
    let n = kept.len();
    *rows = kept;
    n > first
}

} // verus!

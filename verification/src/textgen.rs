//! Producing the lines of text that a parsed text configuration describes,
//! for the song that is playing (or for none).
use vstd::prelude::*;
use crate::strings::{chars_of, decimal, pad_zero, push_decimal, push_decimal_padded, string_of};
use crate::textcfg::{literal_text, parts_model, PartModel, TextBuilder, TextPart};

verus! {

broadcast use vstd::string::group_string_axioms;

/// A name with the tags of the database entry it belongs to.
pub struct NamedTags {
    pub name: String,
    pub tags: Vec<String>,
}

/// What text generation reads of the current song and the database.
pub struct SongInfo {
    pub title: String,
    pub duration_millis: u64,
    pub tags: Vec<String>,
    /// The song's album, when the song has one and the database knows it.
    pub album: Option<NamedTags>,
    /// The song's artist, when the database knows it.
    pub artist: Option<NamedTags>,
}

/// A piece of text with the style it is drawn in.
#[derive(Debug, Clone, PartialEq)]
pub struct TextSegment {
    pub text: String,
    /// `0xRRGGBB`.
    pub color: u32,
    /// The scale, as a float literal.
    pub scale: String,
    /// The height alignment, as a float literal.
    pub height_align: String,
}

pub struct SegmentModel {
    pub text: Seq<char>,
    pub color: u32,
    pub scale: Seq<char>,
    pub height_align: Seq<char>,
}

pub struct NamedTagsModel {
    pub name: Seq<char>,
    pub tags: Seq<Seq<char>>,
}

pub struct SongModel {
    pub title: Seq<char>,
    pub duration_millis: nat,
    pub tags: Seq<Seq<char>>,
    pub album: Option<NamedTagsModel>,
    pub artist: Option<NamedTagsModel>,
}

pub open spec fn strings_model(v: Seq<String>) -> Seq<Seq<char>> {
    v.map_values(|s: String| s@)
}

impl TextSegment {
    pub open spec fn model(&self) -> SegmentModel {
        SegmentModel { text: self.text@, color: self.color, scale: self.scale@, height_align: self.height_align@ }
    }
}

impl NamedTags {
    pub open spec fn model(&self) -> NamedTagsModel {
        NamedTagsModel { name: self.name@, tags: strings_model(self.tags@) }
    }
}

pub open spec fn opt_named_model(o: Option<NamedTags>) -> Option<NamedTagsModel> {
    match o {
        Some(n) => Some(n.model()),
        None => None,
    }
}

impl SongInfo {
    pub open spec fn model(&self) -> SongModel {
        SongModel {
            title: self.title@,
            duration_millis: self.duration_millis as nat,
            tags: strings_model(self.tags@),
            album: opt_named_model(self.album),
            artist: opt_named_model(self.artist),
        }
    }
}

pub open spec fn song_model(s: Option<&SongInfo>) -> Option<SongModel> {
    match s {
        Some(x) => Some(x.model()),
        None => None,
    }
}

pub open spec fn line_model(l: Seq<TextSegment>) -> Seq<SegmentModel> {
    l.map_values(|s: TextSegment| s.model())
}

pub open spec fn lines_model(v: Seq<Vec<TextSegment>>) -> Seq<Seq<SegmentModel>> {
    v.map_values(|l: Vec<TextSegment>| line_model(l@))
}

/// The state of text generation: finished lines, the current line, and the style.
pub struct GenState {
    pub out: Vec<Vec<TextSegment>>,
    pub line: Vec<TextSegment>,
    pub scale: String,
    pub height_align: String,
    pub color: u32,
}

pub struct GenModel {
    pub out: Seq<Seq<SegmentModel>>,
    pub line: Seq<SegmentModel>,
    pub scale: Seq<char>,
    pub height_align: Seq<char>,
    pub color: u32,
}

impl GenState {
    pub open spec fn model(&self) -> GenModel {
        GenModel {
            out: lines_model(self.out@),
            line: line_model(self.line@),
            scale: self.scale@,
            height_align: self.height_align@,
            color: self.color,
        }
    }
}

/// Generation starts with white text at scale 1 and height alignment 1.
pub open spec fn initial_model() -> GenModel {
    GenModel { out: seq![], line: seq![], scale: "1.0"@, height_align: "1.0"@, color: 0xFFFFFFu32 }
}

/// `st` with `text` appended to the current line in the current style; a
/// leading space becomes a no-break space, so that drawing keeps it.
pub open spec fn emit(st: GenModel, text: Seq<char>) -> GenModel {
    GenModel {
        line: st.line.push(
            SegmentModel { text: literal_text(text), color: st.color, scale: st.scale, height_align: st.height_align },
        ),
        ..st
    }
}

/// How a tag search compares tags with its pattern.
#[derive(Clone, Copy)]
pub enum TagMatch {
    Equal,
    Prefix,
    Contains,
}

pub open spec fn is_prefix(p: Seq<char>, t: Seq<char>) -> bool {
    p.len() <= t.len() && t.take(p.len() as int) == p
}

pub open spec fn contains_sub(t: Seq<char>, p: Seq<char>) -> bool {
    exists|k: int| 0 <= k && k + p.len() <= t.len() && #[trigger] t.subrange(k, k + p.len()) == p
}

pub open spec fn tag_matches(mode: TagMatch, p: Seq<char>, t: Seq<char>) -> bool {
    match mode {
        TagMatch::Equal => t == p,
        TagMatch::Prefix => is_prefix(p, t),
        TagMatch::Contains => contains_sub(t, p),
    }
}

/// The first index at or after `i` of a tag that matches.
pub open spec fn first_tag_from(tags: Seq<Seq<char>>, i: int, mode: TagMatch, p: Seq<char>) -> Option<int>
    decreases tags.len() - i,
{
    if i < 0 || i >= tags.len() {
        None
    } else if tag_matches(mode, p, tags[i]) {
        Some(i)
    } else {
        first_tag_from(tags, i + 1, mode, p)
    }
}

/// The tag lists that tag searches look through, in order: the song's, its
/// album's, its artist's.
pub open spec fn tag_sources(song: SongModel) -> Seq<Option<Seq<Seq<char>>>> {
    seq![
        Some(song.tags),
        match song.album { Some(a) => Some(a.tags), None => None },
        match song.artist { Some(a) => Some(a.tags), None => None },
    ]
}

/// The first tag list at or after `k` that has a matching tag: its index and the tag.
pub open spec fn first_source_from(srcs: Seq<Option<Seq<Seq<char>>>>, k: int, mode: TagMatch, p: Seq<char>) -> Option<(int, Seq<char>)>
    decreases srcs.len() - k,
{
    if k < 0 || k >= srcs.len() {
        None
    } else {
        match srcs[k] {
            Some(tags) => match first_tag_from(tags, 0, mode, p) {
                Some(j) => Some((k, tags[j])),
                None => first_source_from(srcs, k + 1, mode, p),
            },
            None => first_source_from(srcs, k + 1, mode, p),
        }
    }
}

pub open spec fn source_marker(k: int) -> char {
    if k == 0 { 's' } else if k == 1 { 'a' } else { 'A' }
}

/// `minutes:ss`, or `minutes:ss.mmmm` with milliseconds (padded to four digits).
pub open spec fn duration_text(ms: nat, with_millis: bool) -> Seq<char> {
    let seconds = ms / 1000;
    let minutes = seconds / 60;
    let secs = seconds % 60;
    let base = decimal(minutes) + seq![':'] + pad_zero(decimal(secs), 2);
    if with_millis {
        base + seq!['.'] + pad_zero(decimal(ms % 1000), 4)
    } else {
        base
    }
}

/// The effect of one part on the generation state.
pub open spec fn gen_part(p: PartModel, song: Option<SongModel>, st: GenModel) -> GenModel
    decreases p, 0nat,
{
    match p {
        PartModel::LineBreak => GenModel { out: st.out.push(st.line), line: seq![], ..st },
        PartModel::SetColor(c) => GenModel { color: c, ..st },
        PartModel::SetScale(v) => GenModel { scale: v, ..st },
        PartModel::SetHeightAlign(v) => GenModel { height_align: v, ..st },
        PartModel::Literal(s) => emit(st, s),
        PartModel::SongTitle => match song {
            Some(s) => emit(st, s.title),
            None => st,
        },
        PartModel::AlbumName => match song {
            Some(s) => match s.album {
                Some(a) => emit(st, a.name),
                None => st,
            },
            None => st,
        },
        PartModel::ArtistName => match song {
            Some(s) => match s.artist {
                Some(a) => emit(st, a.name),
                None => st,
            },
            None => st,
        },
        PartModel::SongDuration(m) => match song {
            Some(s) => emit(st, duration_text(s.duration_millis, m)),
            None => st,
        },
        PartModel::TagEq(pat) => match song {
            Some(s) => match first_source_from(tag_sources(s), 0, TagMatch::Equal, pat) {
                Some((k, _)) => emit(st, seq![source_marker(k)]),
                None => st,
            },
            None => st,
        },
        PartModel::TagEnd(pat) => match song {
            Some(s) => match first_source_from(tag_sources(s), 0, TagMatch::Prefix, pat) {
                Some((_, t)) => emit(st, t.skip(pat.len() as int)),
                None => st,
            },
            None => st,
        },
        PartModel::TagContains(pat) => match song {
            Some(s) => match first_source_from(tag_sources(s), 0, TagMatch::Contains, pat) {
                Some((_, t)) => emit(st, t),
                None => st,
            },
            None => st,
        },
        PartModel::If(c, y, n) => if gen_lines(c, song).len() > 0 {
            gen_seq(y, song, st)
        } else {
            gen_seq(n, song, st)
        },
    }
}

/// The effect of a sequence of parts, applied in order.
pub open spec fn gen_seq(parts: Seq<PartModel>, song: Option<SongModel>, st: GenModel) -> GenModel
    decreases parts, 0nat,
{
    if parts.len() == 0 {
        st
    } else {
        gen_part(parts.last(), song, gen_seq(parts.drop_last(), song, st))
    }
}

/// The lines that the parts produce from the initial state: the finished
/// lines, and the last line if it is not empty.
pub open spec fn gen_lines(parts: Seq<PartModel>, song: Option<SongModel>) -> Seq<Seq<SegmentModel>>
    decreases parts, 1nat,
{
    let st = gen_seq(parts, song, initial_model());
    if st.line.len() > 0 {
        st.out.push(st.line)
    } else {
        st.out
    }
}


/// Whether `p` occurs in `t` at position `k`.
fn occurs_at(t: &Vec<char>, k: usize, p: &Vec<char>) -> (r: bool)
    requires
        k + p@.len() <= t@.len(),
    ensures
        r == (t@.subrange(k as int, k + p@.len()) == p@),
{
    let tl = t.len();
    let mut j: usize = 0;
    while j < p.len()
        invariant
            j <= p@.len(),
            tl == t@.len(),
            k + p@.len() <= t@.len(),
            forall|m: int| 0 <= m < j ==> t@[k + m] == p@[m],
        decreases p.len() - j,
    {
        if t[k + j] != p[j] {
            assert(t@.subrange(k as int, k + p@.len())[j as int] != p@[j as int]);
            return false;
        }
        j = j + 1;
    }
    assert(t@.subrange(k as int, k + p@.len()) =~= p@);
    true
}

fn tag_matches_exec(mode: TagMatch, p: &Vec<char>, tag: &String) -> (r: bool)
    ensures
        r == tag_matches(mode, p@, tag@),
{
    let t = chars_of(tag.as_str());
    match mode {
        TagMatch::Equal => {
            if t.len() != p.len() {
                return false;
            }
            let r = occurs_at(&t, 0, p);
            assert(t@.subrange(0, p@.len() as int) =~= t@);
            r
        },
        TagMatch::Prefix => {
            if p.len() > t.len() {
                return false;
            }
            let r = occurs_at(&t, 0, p);
            assert(t@.subrange(0, p@.len() as int) =~= t@.take(p@.len() as int));
            r
        },
        TagMatch::Contains => {
            if p.len() > t.len() {
                assert(!contains_sub(t@, p@));
                return false;
            }
            let last = t.len() - p.len();
            let mut k: usize = 0;
            loop
                invariant
                    last == t@.len() - p@.len(),
                    t@ == tag@,
                    mode is Contains,
                    p@.len() <= t@.len(),
                    k <= last,
                    forall|m: int| 0 <= m < k ==> #[trigger] t@.subrange(m, m + p@.len()) != p@,
                decreases last - k,
            {
                if occurs_at(&t, k, p) {
                    assert(t@.subrange(k as int, k + p@.len()) == p@);
                    return true;
                }
                if k == last {
                    return false;
                }
                k = k + 1;
            }
        },
    }
}

pub(crate) fn first_tag(tags: &Vec<String>, mode: TagMatch, p: &Vec<char>) -> (r: Option<usize>)
    ensures
        match first_tag_from(strings_model(tags@), 0, mode, p@) {
            Some(j) => r matches Some(k) && k as int == j && 0 <= j < tags@.len(),
            None => r is None,
        },
{
    let ghost m = strings_model(tags@);
    let mut i: usize = 0;
    while i < tags.len()
        invariant
            i <= tags@.len(),
            m == strings_model(tags@),
            m.len() == tags@.len(),
            first_tag_from(m, 0, mode, p@) == first_tag_from(m, i as int, mode, p@),
        decreases tags.len() - i,
    {
        assert(m[i as int] == tags@[i as int]@);
        if tag_matches_exec(mode, p, &tags[i]) {
            return Some(i);
        }
        i = i + 1;
    }
    None
}

/// The tag that `first_tag_from` finds is at or after `i` and matches.
pub proof fn lemma_first_tag_in_range(tags: Seq<Seq<char>>, i: int, mode: TagMatch, p: Seq<char>)
    ensures
        first_tag_from(tags, i, mode, p) matches Some(j) ==> i <= j < tags.len() && tag_matches(mode, p, tags[j]),
    decreases tags.len() - i,
{
    if 0 <= i < tags.len() && !tag_matches(mode, p, tags[i]) {
        lemma_first_tag_in_range(tags, i + 1, mode, p);
    }
}

proof fn lemma_first_source_matches(srcs: Seq<Option<Seq<Seq<char>>>>, k: int, mode: TagMatch, p: Seq<char>)
    ensures
        first_source_from(srcs, k, mode, p) matches Some((_, t)) ==> tag_matches(mode, p, t),
    decreases srcs.len() - k,
{
    if 0 <= k < srcs.len() {
        if let Some(tags) = srcs[k] {
            lemma_first_tag_in_range(tags, 0, mode, p);
        }
        lemma_first_source_matches(srcs, k + 1, mode, p);
    }
}

/// The first matching tag of a list.
fn search_tags(tags: &Vec<String>, mode: TagMatch, p: &Vec<char>) -> (r: Option<String>)
    ensures
        match first_tag_from(strings_model(tags@), 0, mode, p@) {
            Some(j) => r matches Some(t) && t@ == strings_model(tags@)[j],
            None => r is None,
        },
{
    proof {
        lemma_first_tag_in_range(strings_model(tags@), 0, mode, p@);
    }
    match first_tag(tags, mode, p) {
        Some(j) => {
            assert(strings_model(tags@)[j as int] == tags@[j as int]@);
            let t = tags[j].clone();
            assert(t == tags@[j as int]);

            Some(t)
        },
        None => None,
    }
}

/// The first tag list (song, album, artist) with a matching tag: its index and the tag.
fn first_source(song: &SongInfo, mode: TagMatch, p: &Vec<char>) -> (r: Option<(usize, String)>)
    ensures
        match first_source_from(tag_sources(song.model()), 0, mode, p@) {
            Some((k, t)) => r matches Some((k2, t2)) && k2 == k && t2@ == t,
            None => r is None,
        },
{
    let ghost srcs = tag_sources(song.model());
    assert(srcs.len() == 3);
    assert(srcs[0] == Some(strings_model(song.tags@)));
    assert(srcs[1] == match song.album { Some(a) => Some(strings_model(a.tags@)), None => None::<Seq<Seq<char>>> });
    assert(srcs[2] == match song.artist { Some(a) => Some(strings_model(a.tags@)), None => None::<Seq<Seq<char>>> });
    if let Some(t) = search_tags(&song.tags, mode, p) {
        return Some((0, t));
    }
    assert(first_source_from(srcs, 0, mode, p@) == first_source_from(srcs, 1, mode, p@));
    if let Some(a) = &song.album {
        if let Some(t) = search_tags(&a.tags, mode, p) {
            return Some((1, t));
        }
    }
    assert(first_source_from(srcs, 1, mode, p@) == first_source_from(srcs, 2, mode, p@));
    if let Some(a) = &song.artist {
        if let Some(t) = search_tags(&a.tags, mode, p) {
            return Some((2, t));
        }
    }
    assert(first_source_from(srcs, 2, mode, p@) == first_source_from(srcs, 3, mode, p@));
    None
}

/// Writes the duration text of `ms` milliseconds.
pub fn duration_string(ms: u64, with_millis: bool) -> (r: String)
    ensures
        r@ == duration_text(ms as nat, with_millis),
{
    let seconds = ms / 1000;
    let minutes = seconds / 60;
    let secs = seconds % 60;
    let mut out: Vec<char> = Vec::new();
    push_decimal(&mut out, minutes);
    out.push(':');
    push_decimal_padded(&mut out, secs, 2);
    if with_millis {
        out.push('.');
        push_decimal_padded(&mut out, ms % 1000, 4);
    }
    string_of(&out)
}

proof fn lemma_lines_push(v: Seq<Vec<TextSegment>>, l: Vec<TextSegment>)
    ensures
        lines_model(v.push(l)) == lines_model(v).push(line_model(l@)),
{
    assert(lines_model(v.push(l)) =~= lines_model(v).push(line_model(l@)));
}

proof fn lemma_line_push(v: Seq<TextSegment>, x: TextSegment)
    ensures
        line_model(v.push(x)) == line_model(v).push(x.model()),
{
    assert(line_model(v.push(x)) =~= line_model(v).push(x.model()));
}

fn emit_exec(st: &mut GenState, text: String)
    ensures
        final(st).model() == emit(old(st).model(), text@),
{
    let mut c = chars_of(text.as_str());
    if c.len() > 0 && c[0] == ' ' {
        c.set(0, '\u{A0}');
        assert(c@ =~= literal_text(text@));
    }
    let text = string_of(&c);
    let seg = TextSegment {
        text,
        color: st.color,
        scale: st.scale.clone(),
        height_align: st.height_align.clone(),
    };
    proof {
        lemma_line_push(st.line@, seg);
    }
    st.line.push(seg);
}

proof fn lemma_parts_model_index(v: Seq<TextPart>)
    ensures
        parts_model(v).len() == v.len(),
        forall|i: int| 0 <= i < v.len() ==> #[trigger] parts_model(v)[i] == v[i].model(),
    decreases v.len(),
{
    if v.len() > 0 {
        lemma_parts_model_index(v.drop_last());
        assert forall|i: int| 0 <= i < v.len() implies #[trigger] parts_model(v)[i] == v[i].model() by {
            if i < v.len() - 1 {
                assert(v.drop_last()[i] == v[i]);
            }
        }
    }
}

/// The effect of one part, as [`gen_part`] states it.
fn gen_part_exec(part: &TextPart, song: Option<&SongInfo>, st: &mut GenState)
    ensures
        final(st).model() == gen_part(part.model(), song_model(song), old(st).model()),
    decreases part, 0nat,
{
    match part {
        TextPart::LineBreak => {
            let mut line: Vec<TextSegment> = Vec::new();
            std::mem::swap(&mut line, &mut st.line);
            proof {
                lemma_lines_push(st.out@, line);
                assert(line_model(st.line@) =~= Seq::<SegmentModel>::empty());
            }
            st.out.push(line);
        },
        TextPart::SetColor(c) => {
            st.color = *c;
        },
        TextPart::SetScale(v) => {
            st.scale = v.clone();
        },
        TextPart::SetHeightAlign(v) => {
            st.height_align = v.clone();
        },
        TextPart::Literal(s) => {
            emit_exec(st, s.clone());
        },
        TextPart::SongTitle => {
            if let Some(s) = song {
                emit_exec(st, s.title.clone());
            }
        },
        TextPart::AlbumName => {
            if let Some(s) = song {
                if let Some(a) = &s.album {
                    emit_exec(st, a.name.clone());
                }
            }
        },
        TextPart::ArtistName => {
            if let Some(s) = song {
                if let Some(a) = &s.artist {
                    emit_exec(st, a.name.clone());
                }
            }
        },
        TextPart::SongDuration(m) => {
            if let Some(s) = song {
                emit_exec(st, duration_string(s.duration_millis, *m));
            }
        },
        TextPart::TagEq(p) => {
            if let Some(s) = song {
                let pc = chars_of(p.as_str());
                if let Some((k, _)) = first_source(s, TagMatch::Equal, &pc) {
                    let marker = if k == 0 { 's' } else if k == 1 { 'a' } else { 'A' };
                    let mut v: Vec<char> = Vec::new();
                    v.push(marker);
                    emit_exec(st, string_of(&v));
                }
            }
        },
        TextPart::TagEnd(p) => {
            if let Some(s) = song {
                let pc = chars_of(p.as_str());
                proof {
                    lemma_first_source_matches(tag_sources(s.model()), 0, TagMatch::Prefix, pc@);
                }
                if let Some((_, t)) = first_source(s, TagMatch::Prefix, &pc) {
                    let tc = chars_of(t.as_str());
                    let mut v: Vec<char> = Vec::new();
                    let mut i = pc.len();
                    while i < tc.len()
                        invariant
                            pc@.len() <= i <= tc@.len(),
                            v@ == tc@.subrange(pc@.len() as int, i as int),
                        decreases tc.len() - i,
                    {
                        v.push(tc[i]);
                        i = i + 1;
                        assert(v@ =~= tc@.subrange(pc@.len() as int, i as int));
                    }
                    assert(v@ =~= tc@.skip(pc@.len() as int));
                    emit_exec(st, string_of(&v));
                }
            }
        },
        TextPart::TagContains(p) => {
            if let Some(s) = song {
                let pc = chars_of(p.as_str());
                if let Some((_, t)) = first_source(s, TagMatch::Contains, &pc) {
                    emit_exec(st, t);
                }
            }
        },
        TextPart::If(c, y, n) => {
            let cond = c.gen(song);
            if cond.len() > 0 {
                y.gen_to(song, st);
            } else {
                n.gen_to(song, st);
            }
        },
    }
}

impl TextBuilder {
    /// Applies the parts in order to the generation state.
    pub fn gen_to(&self, song: Option<&SongInfo>, st: &mut GenState)
        ensures
            final(st).model() == gen_seq(self.model(), song_model(song), old(st).model()),
        decreases self, 0nat,
    {
        let ghost start = st.model();
        proof {
            lemma_parts_model_index(self.0@);
        }
        let mut i: usize = 0;
        while i < self.0.len()
            invariant
                i <= self.0@.len(),
                self.model().len() == self.0@.len(),
                forall|k: int| 0 <= k < self.0@.len() ==> #[trigger] self.model()[k] == self.0@[k].model(),
                st.model() == gen_seq(self.model().take(i as int), song_model(song), start),
            decreases self.0.len() - i,
        {
            assert(decreases_to!(self => self.0@[i as int]));
            gen_part_exec(&self.0[i], song, st);
            proof {
                let t = self.model().take(i + 1);
                assert(t.drop_last() =~= self.model().take(i as int));
                assert(t.last() == self.0@[i as int].model());
            }
            i = i + 1;
        }
        assert(self.model().take(self.0@.len() as int) =~= self.model());
    }

    /// The lines of text for the given song (or none): finished lines, then
    /// the last line if it holds anything.
    pub fn gen(&self, song: Option<&SongInfo>) -> (r: Vec<Vec<TextSegment>>)
        ensures
            lines_model(r@) == gen_lines(self.model(), song_model(song)),
        decreases self, 1nat,
    {
        let mut st = GenState {
            out: Vec::new(),
            line: Vec::new(),
            scale: "1.0".to_string(),
            height_align: "1.0".to_string(),
            color: 0xFFFFFFu32,
        };
        assert(st.model() =~= initial_model()) by {
            assert(lines_model(st.out@) =~= Seq::<Seq<SegmentModel>>::empty());
            assert(line_model(st.line@) =~= Seq::<SegmentModel>::empty());
        }
        self.gen_to(song, &mut st);
        let GenState { mut out, line, .. } = st;
        if line.len() > 0 {
            proof {
                lemma_lines_push(out@, line);
            }
            out.push(line);
        }
        out
    }
}

/// A tag search finds a tag at or after `i` exactly when some tag there
/// matches.
proof fn lemma_first_tag_found(tags: Seq<Seq<char>>, i: int, mode: TagMatch, p: Seq<char>)
    requires
        0 <= i,
    ensures
        first_tag_from(tags, i, mode, p) is Some <==> exists|j: int| i <= j < tags.len() && tag_matches(mode, p, #[trigger] tags[j]),
    decreases tags.len() - i,
{
    if i < tags.len() && !tag_matches(mode, p, tags[i]) {
        lemma_first_tag_found(tags, i + 1, mode, p);
        assert forall|j: int| i <= j < tags.len() && tag_matches(mode, p, #[trigger] tags[j]) implies i + 1 <= j by {}
    }
}

/// A `%=tag%` part shows where the tag was found: `s` when the song has it,
/// else `a` when the song's album has it, else `A` when the song's artist
/// has it; nothing when none has it, or without a song.
pub proof fn lemma_tag_eq_names_its_source(pat: Seq<char>, song: Option<SongModel>, st: GenModel)
    ensures
        gen_part(PartModel::TagEq(pat), song, st) == (
            match song {
                None => st,
                Some(s) => if s.tags.contains(pat) {
                    emit(st, seq!['s'])
                } else if s.album is Some && s.album->0.tags.contains(pat) {
                    emit(st, seq!['a'])
                } else if s.artist is Some && s.artist->0.tags.contains(pat) {
                    emit(st, seq!['A'])
                } else {
                    st
                },
            }
        ),
{
    if let Some(s) = song {
        let srcs = tag_sources(s);
        lemma_first_tag_found(s.tags, 0, TagMatch::Equal, pat);
        assert(s.tags.contains(pat) <==> exists|j: int| 0 <= j < s.tags.len() && tag_matches(TagMatch::Equal, pat, #[trigger] s.tags[j]));
        if let Some(a) = s.album {
            lemma_first_tag_found(a.tags, 0, TagMatch::Equal, pat);
            assert(a.tags.contains(pat) <==> exists|j: int| 0 <= j < a.tags.len() && tag_matches(TagMatch::Equal, pat, #[trigger] a.tags[j]));
        }
        if let Some(a) = s.artist {
            lemma_first_tag_found(a.tags, 0, TagMatch::Equal, pat);
            assert(a.tags.contains(pat) <==> exists|j: int| 0 <= j < a.tags.len() && tag_matches(TagMatch::Equal, pat, #[trigger] a.tags[j]));
        }
        assert(first_source_from(srcs, 3, TagMatch::Equal, pat) is None);
        assert(srcs.len() == 3);
        assert(srcs[0] == Some(s.tags));
        let f2 = first_source_from(srcs, 2, TagMatch::Equal, pat);
        let f1 = first_source_from(srcs, 1, TagMatch::Equal, pat);
        let f0 = first_source_from(srcs, 0, TagMatch::Equal, pat);
        assert(s.artist is Some && s.artist->0.tags.contains(pat) ==> f2 is Some && (f2->0).0 == 2);
        assert(!(s.artist is Some && s.artist->0.tags.contains(pat)) ==> f2 is None);
        assert(s.album is Some && s.album->0.tags.contains(pat) ==> f1 is Some && (f1->0).0 == 1);
        assert(!(s.album is Some && s.album->0.tags.contains(pat)) ==> f1 == f2);
        assert(s.tags.contains(pat) ==> f0 is Some && (f0->0).0 == 0);
        assert(!s.tags.contains(pat) ==> f0 == f1);
    }
}

} // verus!

//! Regex search in the library view: building the search patterns and
//! ranking a name by where the pattern matches in it.
use vstd::prelude::*;
use crate::filter::{filter_passes, Filter, GeneralData};
use crate::textgen::strings_model;
use crate::strings::chars_of;
use crate::utf8_pos::{char_index, char_pos, is_utf8_boundary, lemma_char_pos};

verus! {

broadcast use vstd::string::group_string_axioms;

#[verifier::external_type_specification]
#[verifier::external_body]
pub struct ExRegex(regex::Regex);

#[verifier::external_type_specification]
#[verifier::external_body]
pub struct ExRegexError(regex::Error);

/// Whether `RegexBuilder::new(pattern).unicode(true).case_insensitive(ci).build()`
/// succeeds.
pub uninterp spec fn regex_builds(pattern: Seq<char>, case_insensitive: bool) -> bool;

/// The successive non-overlapping matches that `Regex::find_iter` yields on
/// `haystack` for the regex built from `pattern` (unicode on, case
/// insensitivity as given), each as a range of byte offsets into the
/// haystack's UTF-8 encoding.
pub uninterp spec fn regex_byte_matches(pattern: Seq<char>, case_insensitive: bool, haystack: Seq<char>) -> Seq<(usize, usize)>;

/// Byte ranges that start and end between characters of the haystack, in
/// order and not overlapping.
pub open spec fn valid_byte_spans(hay: Seq<char>, spans: Seq<(usize, usize)>) -> bool {
    &&& forall|i: int| 0 <= i < spans.len() ==> {
        &&& #[trigger] spans[i].0 <= spans[i].1
        &&& is_utf8_boundary(hay, spans[i].0 as int)
        &&& is_utf8_boundary(hay, spans[i].1 as int)
    }
    &&& forall|i: int, j: int| 0 <= i < j < spans.len() ==> #[trigger] spans[i].1 <= #[trigger] spans[j].0
}

/// The matches of the pattern in the haystack, each as the range of the
/// characters it covers.
pub open spec fn regex_matches(pattern: Seq<char>, case_insensitive: bool, haystack: Seq<char>) -> Seq<(usize, usize)> {
    regex_byte_matches(pattern, case_insensitive, haystack).map_values(
        |sp: (usize, usize)| (char_pos(haystack, sp.0 as int) as usize, char_pos(haystack, sp.1 as int) as usize),
    )
}

/// Matches are in the haystack, in order and not overlapping.
pub open spec fn valid_spans(len: nat, spans: Seq<(usize, usize)>) -> bool {
    &&& forall|i: int| 0 <= i < spans.len() ==> #[trigger] spans[i].0 <= spans[i].1 && spans[i].1 <= len
    &&& forall|i: int, j: int| 0 <= i < j < spans.len() ==> #[trigger] spans[i].1 <= #[trigger] spans[j].0
}

/// The pattern is rejected by the regex engine.
#[derive(Debug, PartialEq, Eq)]
pub struct InvalidRegex;

/// A compiled search pattern, with the text and the case setting it was
/// compiled from.
pub struct SearchRegex {
    pattern: String,
    case_insensitive: bool,
    regex: regex::Regex,
}

impl View for SearchRegex {
    type V = (Seq<char>, bool);

    closed spec fn view(&self) -> (Seq<char>, bool) {
        (self.pattern@, self.case_insensitive)
    }
}

/// `RegexBuilder::new(pattern).unicode(true).case_insensitive(ci).build()`:
/// succeeds exactly when `regex_builds` says so.
#[verifier::external_body]
fn build_regex(pattern: &str, case_insensitive: bool) -> (r: Result<regex::Regex, regex::Error>)
    ensures
        r is Ok <==> regex_builds(pattern@, case_insensitive),
{
    regex::RegexBuilder::new(pattern).unicode(true).case_insensitive(case_insensitive).build()
}

/// `Regex::find_iter` on the haystack: the byte range of each match. The
/// regex documentation promises successive non-overlapping matches, which
/// start and end at UTF-8 boundaries of the haystack.
#[verifier::external_body]
fn find_byte_spans(re: &SearchRegex, haystack: &str) -> (spans: Vec<(usize, usize)>)
    ensures
        spans@ == regex_byte_matches(re@.0, re@.1, haystack@),
        valid_byte_spans(haystack@, spans@),
{
    let mut spans = Vec::new();
    for m in re.regex.find_iter(haystack) {
        spans.push((m.start(), m.end()));
    }
    spans
}

/// The matches of the regex in the haystack as ranges of characters.
fn find_spans(re: &SearchRegex, haystack: &str) -> (spans: Vec<(usize, usize)>)
    ensures
        spans@ == regex_matches(re@.0, re@.1, haystack@),
        valid_spans(haystack@.len(), spans@),
{
    let bytes = find_byte_spans(re, haystack);
    let chars = chars_of(haystack);
    let ghost hay = haystack@;
    let ghost want = regex_matches(re@.0, re@.1, hay);
    let mut spans: Vec<(usize, usize)> = Vec::new();
    let mut i: usize = 0;
    while i < bytes.len()
        invariant
            chars@ == hay,
            bytes@ == regex_byte_matches(re@.0, re@.1, hay),
            want == regex_matches(re@.0, re@.1, hay),
            valid_byte_spans(hay, bytes@),
            i <= bytes.len(),
            spans@.len() == i,
            forall|j: int| 0 <= j < i ==> #[trigger] spans@[j] == want[j],
        decreases bytes.len() - i,
    {
        let (s, e) = bytes[i];
        assert(bytes@[i as int].0 <= bytes@[i as int].1);
        let cs = char_index(&chars, s);
        let ce = char_index(&chars, e);
        spans.push((cs, ce));
        i = i + 1;
    }
    proof {
        assert(spans@ =~= want);
        assert(hay.len() == chars.len());
        assert forall|j: int| 0 <= j < spans@.len() implies #[trigger] spans@[j].0 <= spans@[j].1 && spans@[j].1 <= hay.len() by {
            assert(bytes@[j].0 <= bytes@[j].1);
            lemma_char_pos(hay, bytes@[j].0 as int, bytes@[j].1 as int);
            lemma_char_pos(hay, bytes@[j].1 as int, bytes@[j].1 as int);
        }
        assert forall|j: int, k: int| 0 <= j < k < spans@.len() implies #[trigger] spans@[j].1 <= #[trigger] spans@[k].0 by {
            assert(bytes@[j].1 <= bytes@[k].0);
            assert(bytes@[j].0 <= bytes@[j].1);
            assert(bytes@[k].0 <= bytes@[k].1);
            lemma_char_pos(hay, bytes@[j].1 as int, bytes@[k].0 as int);
            lemma_char_pos(hay, bytes@[k].0 as int, bytes@[k].0 as int);
        }
    }
    spans
}

/// `Regex::is_match`: true exactly when the regex matches somewhere, that is,
/// when `find_iter` yields a match.
#[verifier::external_body]
fn regex_is_match(re: &SearchRegex, haystack: &str) -> (r: bool)
    ensures
        r == (regex_byte_matches(re@.0, re@.1, haystack@).len() > 0),
{
    re.regex.is_match(haystack)
}

/// Compiles a search pattern: no regex for an empty pattern, else the regex
/// (unicode, case-insensitive as asked) or the engine's refusal.
pub fn search_regex_new(pat: &str, case_insensitive: bool) -> (r: Result<Option<SearchRegex>, InvalidRegex>)
    ensures
        pat@.len() == 0 ==> r == Ok::<Option<SearchRegex>, InvalidRegex>(None),
        pat@.len() > 0 && regex_builds(pat@, case_insensitive) ==> (r matches Ok(Some(re)) && re@ == (pat@, case_insensitive)),
        pat@.len() > 0 && !regex_builds(pat@, case_insensitive) ==> r is Err,
{
    if pat.is_empty() {
        Ok(None)
    } else {
        match build_regex(pat, case_insensitive) {
            Ok(regex) => {
                let re = SearchRegex { pattern: pat.to_string(), case_insensitive, regex };
                Ok(Some(re))
            },
            Err(_) => Err(InvalidRegex),
        }
    }
}

/// Whether the character has the Unicode `White_Space` property (the class
/// `char::is_whitespace` tests): the controls U+0009 to U+000D and U+0085,
/// the spaces U+0020, U+00A0, U+1680, U+2000 to U+200A, U+202F, U+205F and
/// U+3000, and the line and paragraph separators U+2028 and U+2029.
pub open spec fn is_white_space(c: char) -> bool {
    ||| ('\u{9}' <= c && c <= '\u{d}')
    ||| c == ' '
    ||| c == '\u{85}'
    ||| c == '\u{a0}'
    ||| c == '\u{1680}'
    ||| ('\u{2000}' <= c && c <= '\u{200a}')
    ||| c == '\u{2028}'
    ||| c == '\u{2029}'
    ||| c == '\u{202f}'
    ||| c == '\u{205f}'
    ||| c == '\u{3000}'
}

/// Whether the character is white space, as `is_white_space` states.
pub(crate) fn is_white_space_exec(c: char) -> (r: bool)
    ensures
        r == is_white_space(c),
{
    ('\u{9}' <= c && c <= '\u{d}') || c == ' ' || c == '\u{85}' || c == '\u{a0}' || c == '\u{1680}'
        || ('\u{2000}' <= c && c <= '\u{200a}') || c == '\u{2028}' || c == '\u{2029}' || c == '\u{202f}'
        || c == '\u{205f}' || c == '\u{3000}'
}

/// How well one match at `start..end` fits a name: the whole name (6), the
/// start of the name (4), a whole word (5), the start of a word (3), or
/// anywhere else (2).
pub open spec fn match_score(hay: Seq<char>, start: int, end: int) -> nat {
    if start == 0 {
        if end == hay.len() { 6 } else { 4 }
    } else if is_white_space(hay[start - 1]) {
        if end == hay.len() || is_white_space(hay[end]) { 5 } else { 3 }
    } else {
        2
    }
}

/// The best score among the matches, 0 when there is none.
pub open spec fn best_match_score(hay: Seq<char>, spans: Seq<(usize, usize)>) -> nat
    decreases spans.len(),
{
    if spans.len() == 0 {
        0
    } else {
        let rest = best_match_score(hay, spans.drop_last());
        let last = match_score(hay, spans.last().0 as int, spans.last().1 as int);
        if last > rest { last } else { rest }
    }
}

/// The score of a name is that of its best match: no match scores more, and
/// (when there is a match at all) one of them scores exactly that much; with
/// no match the score is 0.
pub proof fn lemma_best_match_is_maximum(hay: Seq<char>, spans: Seq<(usize, usize)>)
    ensures
        forall|i: int| 0 <= i < spans.len()
            ==> match_score(hay, #[trigger] spans[i].0 as int, spans[i].1 as int) <= best_match_score(hay, spans),
        spans.len() == 0 ==> best_match_score(hay, spans) == 0,
        spans.len() > 0 ==> exists|i: int| 0 <= i < spans.len()
            && best_match_score(hay, spans) == match_score(hay, #[trigger] spans[i].0 as int, spans[i].1 as int),
    decreases spans.len(),
{
    if spans.len() > 0 {
        let init = spans.drop_last();
        lemma_best_match_is_maximum(hay, init);
        let n = spans.len() - 1;
        assert forall|i: int| 0 <= i < spans.len()
            implies match_score(hay, #[trigger] spans[i].0 as int, spans[i].1 as int) <= best_match_score(hay, spans) by {
            if i < n {
                assert(spans[i] == init[i]);
            }
        }
        if init.len() > 0 && best_match_score(hay, spans) == best_match_score(hay, init) {
            let i = choose|i: int| 0 <= i < init.len()
                && best_match_score(hay, init) == match_score(hay, #[trigger] init[i].0 as int, init[i].1 as int);
            assert(spans[i] == init[i]);
        } else {
            assert(best_match_score(hay, spans) == match_score(hay, spans[n].0 as int, spans[n].1 as int));
        }
    }
}

/// Scores the matches of a pattern in a name, preferring matches at the
/// start of the name or of a word; 0 when there is no match.
pub fn score_matches(hay: &str, spans: &Vec<(usize, usize)>) -> (r: u32)
    requires
        forall|i: int| 0 <= i < spans@.len() ==> #[trigger] spans@[i].0 <= spans@[i].1 && spans@[i].1 <= hay@.len(),
    ensures
        r == best_match_score(hay@, spans@),
{
    let h = crate::strings::chars_of(hay);
    let n = h.len();
    let mut best: u32 = 0;
    let mut i: usize = 0;
    while i < spans.len()
        invariant
            i <= spans@.len(),
            h@ == hay@,
            n == h@.len(),
            forall|k: int| 0 <= k < spans@.len() ==> #[trigger] spans@[k].0 <= spans@[k].1 && spans@[k].1 <= n,
            best == best_match_score(hay@, spans@.take(i as int)),
        decreases spans.len() - i,
    {
        let (start, end) = spans[i];
        let s: u32 = if start == 0 {
            if end == n { 6 } else { 4 }
        } else if is_white_space_exec(h[start - 1]) {
            if end == n || is_white_space_exec(h[end]) { 5 } else { 3 }
        } else {
            2
        };
        assert(spans@.take(i + 1).drop_last() =~= spans@.take(i as int));
        assert(s == match_score(hay@, start as int, end as int));
        if s > best {
            best = s;
        }
        i = i + 1;
    }
    assert(spans@.take(spans@.len() as int) =~= spans@);
    best
}

/// A compiled pattern as its text and case setting.
pub open spec fn regex_model(r: Option<SearchRegex>) -> Option<(Seq<char>, bool)> {
    match r {
        Some(re) => Some(re@),
        None => None,
    }
}

/// How a name ranks against one search field: with a pattern, by its matches
/// (by `best_match_score` when start matches are preferred, else 2 for any
/// match); without one, 1 when the search text is empty (nothing to look
/// for) and 0 when it is an invalid pattern.
pub open spec fn text_score(prefer_start: bool, regex: Option<(Seq<char>, bool)>, search: Seq<char>, hay: Seq<char>) -> nat {
    match regex {
        Some((p, ci)) => if prefer_start {
            best_match_score(hay, regex_matches(p, ci, hay))
        } else if regex_matches(p, ci, hay).len() > 0 {
            2
        } else {
            0
        },
        None => if search.len() == 0 { 1 } else { 0 },
    }
}

/// The search of one kind of entry (artists, albums or songs): the text
/// typed, the pattern compiled from it, and the tag filter.
pub struct SearchField {
    pub text: String,
    pub regex: Option<SearchRegex>,
    pub filter: Filter,
}

/// The score of an entry with this name and data: 0 (hidden) when the
/// filter rejects it, else `text_score`.
pub open spec fn field_score(prefer_start: bool, f: SearchField, hay: Seq<char>, gd: GeneralData) -> nat {
    if filter_passes(f.filter, strings_model(gd.tags@)) {
        text_score(prefer_start, regex_model(f.regex), f.text@, hay)
    } else {
        0
    }
}

impl SearchField {
    /// A search field for the typed text: the pattern is compiled
    /// case-insensitively unless `case_sensitive`; an empty or invalid
    /// pattern leaves no regex.
    pub fn new(text: String, case_sensitive: bool, filter: Filter) -> (r: SearchField)
        ensures
            r.text@ == text@,
            r.filter == filter,
            r.regex is Some <==> (text@.len() > 0 && regex_builds(text@, !case_sensitive)),
            r.regex matches Some(re) ==> re@ == (text@, !case_sensitive),
    {
        let regex = match search_regex_new(text.as_str(), !case_sensitive) {
            Ok(Some(re)) => Some(re),
            _ => None,
        };
        SearchField { text, regex, filter }
    }

    /// Replaces the typed text and recompiles the pattern; the filter stays.
    pub fn set_text(&mut self, text: String, case_sensitive: bool)
        ensures
            final(self).text@ == text@,
            final(self).filter == old(self).filter,
            final(self).regex is Some <==> (text@.len() > 0 && regex_builds(text@, !case_sensitive)),
            final(self).regex matches Some(re) ==> re@ == (text@, !case_sensitive),
    {
        self.regex = match search_regex_new(text.as_str(), !case_sensitive) {
            Ok(Some(re)) => Some(re),
            _ => None,
        };
        self.text = text;
    }

    /// Whether the typed text is a usable pattern (the text box is drawn
    /// white then, red otherwise).
    pub fn is_valid(&self) -> (r: bool)
        ensures
            r == self.regex is Some,
    {
        self.regex.is_some()
    }

    /// Scores an entry's name and data against this field.
    pub fn score(&self, prefer_start: bool, hay: &str, gd: &GeneralData) -> (r: u32)
        ensures
            r == field_score(prefer_start, *self, hay@, *gd),
            r <= 6,
    {
        if !self.filter.passes(gd) {
            return 0;
        }
        match &self.regex {
            Some(re) => {
                if prefer_start {
                    let spans = find_spans(re, hay);
                    let s = score_matches(hay, &spans);
                    proof { lemma_best_match_score_bound(hay@, spans@); }
                    s
                } else if regex_is_match(re, hay) {
                    2
                } else {
                    0
                }
            },
            None => if self.text.as_str().is_empty() { 1 } else { 0 },
        }
    }
}

proof fn lemma_best_match_score_bound(hay: Seq<char>, spans: Seq<(usize, usize)>)
    ensures
        best_match_score(hay, spans) <= 6,
    decreases spans.len(),
{
    if spans.len() > 0 {
        lemma_best_match_score_bound(hay, spans.drop_last());
    }
}

proof fn lemma_best_match_score_pos(hay: Seq<char>, spans: Seq<(usize, usize)>)
    ensures
        best_match_score(hay, spans) > 0 <==> spans.len() > 0,
    decreases spans.len(),
{
    if spans.len() > 0 {
        lemma_best_match_score_pos(hay, spans.drop_last());
    }
}

/// A name ranks above zero against a pattern exactly when the pattern
/// matches somewhere in it, whether or not start matches are preferred.
pub proof fn lemma_pattern_score_pos(prefer_start: bool, p: Seq<char>, ci: bool, search: Seq<char>, hay: Seq<char>)
    ensures
        text_score(prefer_start, Some((p, ci)), search, hay) > 0 <==> regex_matches(p, ci, hay).len() > 0,
{
    lemma_best_match_score_pos(hay, regex_matches(p, ci, hay));
}

/// An empty search field with no filter is neutral: every entry scores 1.
pub proof fn lemma_empty_field_neutral(prefer_start: bool, f: SearchField, hay: Seq<char>, gd: GeneralData)
    requires
        f.text@.len() == 0,
        f.regex is None,
        f.filter.filters@.len() == 0,
    ensures
        field_score(prefer_start, f, hay, gd) == 1,
{
}

/// An entry that its field's filter rejects scores 0, whatever its name.
pub proof fn lemma_filtered_out_hidden(prefer_start: bool, f: SearchField, hay: Seq<char>, gd: GeneralData)
    requires
        !filter_passes(f.filter, strings_model(gd.tags@)),
    ensures
        field_score(prefer_start, f, hay, gd) == 0,
{
}

/// A score is at most 6.
pub proof fn lemma_field_score_bound(prefer_start: bool, f: SearchField, hay: Seq<char>, gd: GeneralData)
    ensures
        field_score(prefer_start, f, hay, gd) <= 6,
        field_score(prefer_start, f, hay, gd) > 0 ==> filter_passes(f.filter, strings_model(gd.tags@)),
{
    match regex_model(f.regex) {
        Some((p, ci)) => lemma_best_match_score_bound(hay, regex_matches(p, ci, hay)),
        None => {},
    }
}

} // verus!

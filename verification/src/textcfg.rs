//! The text configuration language of the client: a string that describes
//! what the status bar and the idle screen show. `\t`, `\a`, `\A` insert the
//! title, album and artist of the current song, `\d`/`\D` its duration,
//! `\s<f>;`, `\h<f>;`, `\cRRGGBB` set scale, height alignment and color,
//! `%=..%`, `%>..%`, `%_..%` look up tags, `?cond#yes#no#` chooses, and `#`
//! ends the text of the innermost choice.
use vstd::prelude::*;
use crate::numparse::{float_literal_valid, is_float_literal, parse_hex, parse_hex_exec};
use crate::strings::{chars_of, push_str, string_of};

verus! {

broadcast use vstd::string::group_string_axioms;

/// One element of a parsed text.
#[derive(Debug, PartialEq)]
pub enum TextPart {
    LineBreak,
    /// A color as `0xRRGGBB`.
    SetColor(u32),
    /// A scale, as the float literal that the text gave.
    SetScale(String),
    /// A height alignment, as the float literal that the text gave.
    SetHeightAlign(String),
    Literal(String),
    SongTitle,
    AlbumName,
    ArtistName,
    /// The song's duration; `true` shows milliseconds too.
    SongDuration(bool),
    /// Searches for a tag with exactly the provided value.
    /// Returns nothing or one of the following characters:
    /// `s` for Song, `a` for Album, and `A` for Artist.
    TagEq(String),
    /// Searches for a tag which starts with the provided string, then returns the end of it.
    TagEnd(String),
    /// Searches for a tag which contains the provided string, then returns that tag's value.
    TagContains(String),
    /// If `1` is something, uses `2`.
    /// If `1` is nothing, uses `3`.
    If(TextBuilder, TextBuilder, TextBuilder),
}

/// A parsed text.
#[derive(Debug, PartialEq)]
pub struct TextBuilder(pub Vec<TextPart>);

/// Mathematical model of a [`TextPart`]: strings become character sequences.
pub enum PartModel {
    LineBreak,
    SetColor(u32),
    SetScale(Seq<char>),
    SetHeightAlign(Seq<char>),
    Literal(Seq<char>),
    SongTitle,
    AlbumName,
    ArtistName,
    SongDuration(bool),
    TagEq(Seq<char>),
    TagEnd(Seq<char>),
    TagContains(Seq<char>),
    If(Seq<PartModel>, Seq<PartModel>, Seq<PartModel>),
}

impl TextPart {
    pub open spec fn model(&self) -> PartModel
        decreases self,
    {
        match self {
            TextPart::LineBreak => PartModel::LineBreak,
            TextPart::SetColor(c) => PartModel::SetColor(*c),
            TextPart::SetScale(v) => PartModel::SetScale(v@),
            TextPart::SetHeightAlign(v) => PartModel::SetHeightAlign(v@),
            TextPart::Literal(v) => PartModel::Literal(v@),
            TextPart::SongTitle => PartModel::SongTitle,
            TextPart::AlbumName => PartModel::AlbumName,
            TextPart::ArtistName => PartModel::ArtistName,
            TextPart::SongDuration(b) => PartModel::SongDuration(*b),
            TextPart::TagEq(v) => PartModel::TagEq(v@),
            TextPart::TagEnd(v) => PartModel::TagEnd(v@),
            TextPart::TagContains(v) => PartModel::TagContains(v@),
            TextPart::If(a, b, c) => PartModel::If(
                parts_model(a.0@),
                parts_model(b.0@),
                parts_model(c.0@),
            ),
        }
    }
}

/// The models of a sequence of parts.
pub open spec fn parts_model(s: Seq<TextPart>) -> Seq<PartModel>
    decreases s,
{
    if s.len() == 0 {
        Seq::empty()
    } else {
        parts_model(s.drop_last()).push(s.last().model())
    }
}

impl TextBuilder {
    pub open spec fn model(&self) -> Seq<PartModel> {
        parts_model(self.0@)
    }
}

/// Why a text could not be parsed.
#[derive(Debug, Clone, PartialEq)]
pub enum TextBuilderParseError {
    UnclosedPercent,
    TagModeUnknown(char),
    TooFewCharsForColor,
    ColorNotHex,
    /// The value that could not be read, and the type it should have had.
    CouldntParse(String, String),
}

pub enum ParseErrorModel {
    UnclosedPercent,
    TagModeUnknown(char),
    TooFewCharsForColor,
    ColorNotHex,
    CouldntParse(Seq<char>, Seq<char>),
}

impl TextBuilderParseError {
    pub open spec fn model(&self) -> ParseErrorModel {
        match self {
            TextBuilderParseError::UnclosedPercent => ParseErrorModel::UnclosedPercent,
            TextBuilderParseError::TagModeUnknown(c) => ParseErrorModel::TagModeUnknown(*c),
            TextBuilderParseError::TooFewCharsForColor => ParseErrorModel::TooFewCharsForColor,
            TextBuilderParseError::ColorNotHex => ParseErrorModel::ColorNotHex,
            TextBuilderParseError::CouldntParse(a, b) => ParseErrorModel::CouldntParse(a@, b@),
        }
    }
}

/// The literal text that pending characters become: a leading space is
/// replaced by a no-break space, so that drawing keeps it.
pub open spec fn literal_text(cur: Seq<char>) -> Seq<char> {
    if cur.len() > 0 && cur[0] == ' ' {
        seq!['\u{A0}'] + cur.skip(1)
    } else {
        cur
    }
}

/// `parts` after the pending characters `cur`, if any, were added as a literal.
pub open spec fn flush(parts: Seq<PartModel>, cur: Seq<char>) -> Seq<PartModel> {
    if cur.len() == 0 {
        parts
    } else {
        parts.push(PartModel::Literal(literal_text(cur)))
    }
}

/// The first position at or after `pos` that holds `c`, or `s.len()`.
pub open spec fn find_char(s: Seq<char>, pos: int, c: char) -> int
    decreases s.len() - pos,
{
    if pos < 0 || pos >= s.len() {
        s.len() as int
    } else if s[pos] == c {
        pos
    } else {
        find_char(s, pos + 1, c)
    }
}

/// The outcome of reading one element at a position that does not hold `?`.
pub enum Step {
    /// Go on at the position, with these parts and pending characters.
    Continue(int, Seq<PartModel>, Seq<char>),
    /// The text ended (with `#`); reading stops at the position.
    Finished(Seq<PartModel>, int),
    Fail(ParseErrorModel),
}

/// One step of reading the text `s` at `pos` (which must not hold `?`).
pub open spec fn step(s: Seq<char>, pos: int, parts: Seq<PartModel>, cur: Seq<char>) -> Step {
    let ch = s[pos];
    if ch == '\n' {
        Step::Continue(pos + 1, flush(parts, cur).push(PartModel::LineBreak), seq![])
    } else if ch == '\\' {
        if pos + 1 >= s.len() {
            Step::Continue(pos + 1, parts, cur.push('\\'))
        } else {
            let e = s[pos + 1];
            if e == 't' {
                Step::Continue(pos + 2, flush(parts, cur).push(PartModel::SongTitle), seq![])
            } else if e == 'a' {
                Step::Continue(pos + 2, flush(parts, cur).push(PartModel::AlbumName), seq![])
            } else if e == 'A' {
                Step::Continue(pos + 2, flush(parts, cur).push(PartModel::ArtistName), seq![])
            } else if e == 'd' {
                Step::Continue(pos + 2, flush(parts, cur).push(PartModel::SongDuration(false)), seq![])
            } else if e == 'D' {
                Step::Continue(pos + 2, flush(parts, cur).push(PartModel::SongDuration(true)), seq![])
            } else if e == 's' || e == 'h' {
                let q = find_char(s, pos + 2, ';');
                let arg = s.subrange(pos + 2, q);
                let next = if q < s.len() { q + 1 } else { q };
                if is_float_literal(arg) {
                    let part = if e == 's' { PartModel::SetScale(arg) } else { PartModel::SetHeightAlign(arg) };
                    Step::Continue(next, flush(parts, cur).push(part), seq![])
                } else {
                    Step::Fail(ParseErrorModel::CouldntParse(arg, "number (float)"@))
                }
            } else if e == 'c' {
                if pos + 8 > s.len() {
                    Step::Fail(ParseErrorModel::TooFewCharsForColor)
                } else {
                    match parse_hex(s.subrange(pos + 2, pos + 8)) {
                        Some(v) => Step::Continue(
                            pos + 8,
                            flush(parts, cur).push(PartModel::SetColor(v as u32)),
                            seq![],
                        ),
                        None => Step::Fail(ParseErrorModel::ColorNotHex),
                    }
                }
            } else {
                Step::Continue(pos + 2, parts, cur.push(e))
            }
        }
    } else if ch == '%' {
        if pos + 1 >= s.len() {
            Step::Fail(ParseErrorModel::UnclosedPercent)
        } else {
            let mode = s[pos + 1];
            let q = find_char(s, pos + 2, '%');
            if q >= s.len() {
                Step::Fail(ParseErrorModel::UnclosedPercent)
            } else {
                let tag = s.subrange(pos + 2, q);
                if mode == '=' {
                    Step::Continue(q + 1, flush(parts, cur).push(PartModel::TagEq(tag)), seq![])
                } else if mode == '>' {
                    Step::Continue(q + 1, flush(parts, cur).push(PartModel::TagEnd(tag)), seq![])
                } else if mode == '_' {
                    Step::Continue(q + 1, flush(parts, cur).push(PartModel::TagContains(tag)), seq![])
                } else {
                    Step::Fail(ParseErrorModel::TagModeUnknown(mode))
                }
            }
        }
    } else if ch == '#' {
        Step::Finished(flush(parts, cur), pos + 1)
    } else {
        Step::Continue(pos + 1, parts, cur.push(ch))
    }
}

/// The outcome of reading a text.
pub enum ParseOutcome {
    /// The parts, and the position after the text (after its closing `#`, or the end).
    Parsed(Seq<PartModel>, int),
    Failed(ParseErrorModel),
}

/// Reads the text that starts at `pos`, after `parts` were read and with the
/// characters `cur` pending. A `?` reads three nested texts (condition, then,
/// else) one after the other.
pub open spec fn parse_loop(s: Seq<char>, pos: int, parts: Seq<PartModel>, cur: Seq<char>) -> ParseOutcome
    decreases s.len() - pos,
{
    if pos < 0 || pos >= s.len() {
        ParseOutcome::Parsed(flush(parts, cur), s.len() as int)
    } else if s[pos] == '?' {
        let before = flush(parts, cur);
        match parse_loop(s, pos + 1, seq![], seq![]) {
            ParseOutcome::Failed(e) => ParseOutcome::Failed(e),
            ParseOutcome::Parsed(a, e1) => if !(pos < e1 <= s.len()) {
                ParseOutcome::Failed(ParseErrorModel::UnclosedPercent)
            } else {
                match parse_loop(s, e1, seq![], seq![]) {
                    ParseOutcome::Failed(e) => ParseOutcome::Failed(e),
                    ParseOutcome::Parsed(b, e2) => if !(pos < e2 <= s.len()) {
                        ParseOutcome::Failed(ParseErrorModel::UnclosedPercent)
                    } else {
                        match parse_loop(s, e2, seq![], seq![]) {
                            ParseOutcome::Failed(e) => ParseOutcome::Failed(e),
                            ParseOutcome::Parsed(c, e3) => if !(pos < e3 <= s.len()) {
                                ParseOutcome::Failed(ParseErrorModel::UnclosedPercent)
                            } else {
                                parse_loop(s, e3, before.push(PartModel::If(a, b, c)), seq![])
                            },
                        }
                    },
                }
            },
        }
    } else {
        match step(s, pos, parts, cur) {
            Step::Continue(q, p2, c2) => if !(pos < q <= s.len()) {
                ParseOutcome::Failed(ParseErrorModel::UnclosedPercent)
            } else {
                parse_loop(s, q, p2, c2)
            },
            Step::Finished(p2, e) => ParseOutcome::Parsed(p2, e),
            Step::Fail(err) => ParseOutcome::Failed(err),
        }
    }
}

/// The parse of a whole text: what `TextBuilder::parse` returns.
pub open spec fn parse_text(s: Seq<char>) -> ParseOutcome {
    parse_loop(s, 0, seq![], seq![])
}

proof fn lemma_find_char(s: Seq<char>, pos: int, c: char)
    requires
        0 <= pos <= s.len(),
    ensures
        pos <= find_char(s, pos, c) <= s.len(),
        find_char(s, pos, c) < s.len() ==> s[find_char(s, pos, c)] == c,
        forall|k: int| pos <= k < find_char(s, pos, c) ==> s[k] != c,
    decreases s.len() - pos,
{
    if pos < s.len() && s[pos] != c {
        lemma_find_char(s, pos + 1, c);
    }
}

proof fn lemma_step(s: Seq<char>, pos: int, parts: Seq<PartModel>, cur: Seq<char>)
    requires
        0 <= pos < s.len(),
    ensures
        step(s, pos, parts, cur) matches Step::Continue(q, _, _) ==> pos < q <= s.len(),
        step(s, pos, parts, cur) matches Step::Finished(_, e) ==> pos < e <= s.len(),
{
    if pos + 2 <= s.len() {
        lemma_find_char(s, pos + 2, ';');
        lemma_find_char(s, pos + 2, '%');
    }
}

proof fn lemma_parse_end(s: Seq<char>, pos: int, parts: Seq<PartModel>, cur: Seq<char>)
    requires
        0 <= pos <= s.len(),
    ensures
        parse_loop(s, pos, parts, cur) matches ParseOutcome::Parsed(_, e) ==> pos <= e <= s.len(),
    decreases s.len() - pos,
{
    if pos < s.len() {
        if s[pos] == '?' {
            lemma_parse_end(s, pos + 1, seq![], seq![]);
            if let ParseOutcome::Parsed(a, e1) = parse_loop(s, pos + 1, seq![], seq![]) {
                lemma_parse_end(s, e1, seq![], seq![]);
                if let ParseOutcome::Parsed(b, e2) = parse_loop(s, e1, seq![], seq![]) {
                    lemma_parse_end(s, e2, seq![], seq![]);
                    if let ParseOutcome::Parsed(c, e3) = parse_loop(s, e2, seq![], seq![]) {
                        lemma_parse_end(s, e3, flush(parts, cur).push(PartModel::If(a, b, c)), seq![]);
                    }
                }
            }
        } else {
            lemma_step(s, pos, parts, cur);
            if let Step::Continue(q, p2, c2) = step(s, pos, parts, cur) {
                lemma_parse_end(s, q, p2, c2);
            }
        }
    }
}

proof fn lemma_parts_model_push(v: Seq<TextPart>, x: TextPart)
    ensures
        parts_model(v.push(x)) == parts_model(v).push(x.model()),
{
    assert(v.push(x).drop_last() =~= v);
}

/// Adds the pending characters, if any, as a literal part.
fn flush_exec(parts: &mut Vec<TextPart>, cur: &mut Vec<char>)
    ensures
        parts_model(final(parts)@) == flush(parts_model(old(parts)@), old(cur)@),
        final(cur)@ == Seq::<char>::empty(),
{
    if cur.len() > 0 {
        let mut text: Vec<char> = Vec::new();
        if cur[0] == ' ' {
            text.push('\u{A0}');
        } else {
            text.push(cur[0]);
        }
        let mut i: usize = 1;
        while i < cur.len()
            invariant
                1 <= i <= cur@.len(),
                text@ == literal_text(cur@).take(i as int),
                literal_text(cur@).len() == cur@.len(),
            decreases cur.len() - i,
        {
            text.push(cur[i]);
            i = i + 1;
            assert(text@ =~= literal_text(cur@).take(i as int));
        }
        assert(text@ =~= literal_text(cur@));
        let s = string_of(&text);
        proof {
            lemma_parts_model_push(parts@, TextPart::Literal(s));
        }
        parts.push(TextPart::Literal(s));
        *cur = Vec::new();
    }
}

fn find_char_exec(s: &Vec<char>, from: usize, c: char) -> (q: usize)
    requires
        from <= s@.len(),
    ensures
        q == find_char(s@, from as int, c),
{
    let mut i = from;
    while i < s.len()
        invariant
            from <= i <= s@.len(),
            find_char(s@, from as int, c) == find_char(s@, i as int, c),
        decreases s.len() - i,
    {
        if s[i] == c {
            return i;
        }
        i = i + 1;
    }
    i
}

fn copy_range(s: &Vec<char>, from: usize, to: usize) -> (v: Vec<char>)
    requires
        from <= to <= s@.len(),
    ensures
        v@ == s@.subrange(from as int, to as int),
{
    let mut v: Vec<char> = Vec::new();
    let mut i = from;
    while i < to
        invariant
            from <= i <= to <= s@.len(),
            v@ == s@.subrange(from as int, i as int),
        decreases to - i,
    {
        v.push(s[i]);
        i = i + 1;
        assert(v@ =~= s@.subrange(from as int, i as int));
    }
    v
}

/// Executable counterpart of [`Step`].
enum StepResult {
    Continue(usize),
    Finished(usize),
    Fail(TextBuilderParseError),
}

fn push_part(parts: &mut Vec<TextPart>, cur: &mut Vec<char>, part: TextPart)
    ensures
        parts_model(final(parts)@) == flush(parts_model(old(parts)@), old(cur)@).push(part.model()),
        final(cur)@ == Seq::<char>::empty(),
{
    flush_exec(parts, cur);
    proof {
        lemma_parts_model_push(parts@, part);
    }
    parts.push(part);
}

fn step_exec(s: &Vec<char>, i: usize, parts: &mut Vec<TextPart>, cur: &mut Vec<char>) -> (r: StepResult)
    requires
        i < s@.len(),
        s@[i as int] != '?',
    ensures
        match step(s@, i as int, parts_model(old(parts)@), old(cur)@) {
            Step::Continue(q, p2, c2) => r == StepResult::Continue(q as usize)
                && parts_model(final(parts)@) == p2 && final(cur)@ == c2,
            Step::Finished(p2, e) => r == StepResult::Finished(e as usize)
                && parts_model(final(parts)@) == p2,
            Step::Fail(err) => r matches StepResult::Fail(x) && x.model() == err,
        },
        r matches StepResult::Continue(q) ==> i < q <= s@.len(),
{
    proof {
        lemma_step(s@, i as int, parts_model(parts@), cur@);
    }
    let n = s.len();
    let ch = s[i];
    if ch == '\n' {
        push_part(parts, cur, TextPart::LineBreak);
        StepResult::Continue(i + 1)
    } else if ch == '\\' {
        if i + 1 >= s.len() {
            cur.push('\\');
            StepResult::Continue(i + 1)
        } else {
            let e = s[i + 1];
            if e == 't' {
                push_part(parts, cur, TextPart::SongTitle);
                StepResult::Continue(i + 2)
            } else if e == 'a' {
                push_part(parts, cur, TextPart::AlbumName);
                StepResult::Continue(i + 2)
            } else if e == 'A' {
                push_part(parts, cur, TextPart::ArtistName);
                StepResult::Continue(i + 2)
            } else if e == 'd' {
                push_part(parts, cur, TextPart::SongDuration(false));
                StepResult::Continue(i + 2)
            } else if e == 'D' {
                push_part(parts, cur, TextPart::SongDuration(true));
                StepResult::Continue(i + 2)
            } else if e == 's' || e == 'h' {
                let q = find_char_exec(s, i + 2, ';');
                proof {
                    lemma_find_char(s@, i + 2, ';');
                }
                let arg = copy_range(s, i + 2, q);
                let next = if q < s.len() { q + 1 } else { q };
                if float_literal_valid(arg.as_slice()) {
                    let text = string_of(&arg);
                    let part = if e == 's' { TextPart::SetScale(text) } else { TextPart::SetHeightAlign(text) };
                    push_part(parts, cur, part);
                    StepResult::Continue(next)
                } else {
                    let text = string_of(&arg);
                    StepResult::Fail(TextBuilderParseError::CouldntParse(text, "number (float)".to_string()))
                }
            } else if e == 'c' {
                if n - i < 8 {
                    StepResult::Fail(TextBuilderParseError::TooFewCharsForColor)
                } else {
                    let hex = copy_range(s, i + 2, i + 8);
                    match parse_hex_exec(hex.as_slice()) {
                        Some(v) => {
                            push_part(parts, cur, TextPart::SetColor(v));
                            StepResult::Continue(i + 8)
                        },
                        None => StepResult::Fail(TextBuilderParseError::ColorNotHex),
                    }
                }
            } else {
                cur.push(e);
                StepResult::Continue(i + 2)
            }
        }
    } else if ch == '%' {
        if i + 1 >= s.len() {
            StepResult::Fail(TextBuilderParseError::UnclosedPercent)
        } else {
            let mode = s[i + 1];
            let q = find_char_exec(s, i + 2, '%');
            proof {
                lemma_find_char(s@, i + 2, '%');
            }
            if q >= s.len() {
                StepResult::Fail(TextBuilderParseError::UnclosedPercent)
            } else {
                let tag = string_of(&copy_range(s, i + 2, q));
                if mode == '=' {
                    push_part(parts, cur, TextPart::TagEq(tag));
                    StepResult::Continue(q + 1)
                } else if mode == '>' {
                    push_part(parts, cur, TextPart::TagEnd(tag));
                    StepResult::Continue(q + 1)
                } else if mode == '_' {
                    push_part(parts, cur, TextPart::TagContains(tag));
                    StepResult::Continue(q + 1)
                } else {
                    StepResult::Fail(TextBuilderParseError::TagModeUnknown(mode))
                }
            }
        }
    } else if ch == '#' {
        flush_exec(parts, cur);
        StepResult::Finished(i + 1)
    } else {
        cur.push(ch);
        StepResult::Continue(i + 1)
    }
}

/// Reads the three texts of a choice whose `?` stands at `i`.
fn parse_choice(s: &Vec<char>, i: usize) -> (r: Result<(TextPart, usize), TextBuilderParseError>)
    requires
        i < s@.len(),
        s@[i as int] == '?',
    ensures
        forall|parts: Seq<PartModel>, cur: Seq<char>|
            #[trigger] parse_loop(s@, i as int, parts, cur) == match r {
                Ok((p, e)) => parse_loop(s@, e as int, flush(parts, cur).push(p.model()), seq![]),
                Err(err) => ParseOutcome::Failed(err.model()),
            },
        r matches Ok((_, e)) ==> i < e <= s@.len(),
    decreases s@.len() - i, 0nat,
{
    let n = s.len();
    proof {
        lemma_parse_end(s@, i + 1, seq![], seq![]);
    }
    let (a, e1) = match parse_from(s, i + 1) {
        Ok(x) => x,
        Err(e) => return Err(e),
    };
    proof {
        lemma_parse_end(s@, e1 as int, seq![], seq![]);
    }
    let (b, e2) = match parse_from(s, e1) {
        Ok(x) => x,
        Err(e) => return Err(e),
    };
    proof {
        lemma_parse_end(s@, e2 as int, seq![], seq![]);
    }
    let (c, e3) = match parse_from(s, e2) {
        Ok(x) => x,
        Err(e) => return Err(e),
    };
    let part = TextPart::If(a, b, c);
    assert(part.model() == PartModel::If(a.model(), b.model(), c.model()));
    Ok((part, e3))
}

/// Reads the text that starts at `pos`; returns its parts and the position
/// after it.
fn parse_from(s: &Vec<char>, pos: usize) -> (r: Result<(TextBuilder, usize), TextBuilderParseError>)
    requires
        pos <= s@.len(),
    ensures
        match parse_loop(s@, pos as int, seq![], seq![]) {
            ParseOutcome::Parsed(m, e) => r matches Ok((tb, end)) && tb.model() == m && end == e,
            ParseOutcome::Failed(em) => r matches Err(err) && err.model() == em,
        },
    decreases s@.len() - pos, 1nat,
{
    let n = s.len();
    let mut parts: Vec<TextPart> = Vec::new();
    let mut cur: Vec<char> = Vec::new();
    let mut i = pos;
    assert(parts_model(parts@) =~= Seq::<PartModel>::empty());
    while i < n
        invariant
            n == s@.len(),
            pos <= i <= n,
            parse_loop(s@, pos as int, seq![], seq![]) == parse_loop(s@, i as int, parts_model(parts@), cur@),
        decreases n - i,
    {
        if s[i] == '?' {
            let ghost old_pm = parts_model(parts@);
            let ghost old_cur = cur@;
            let ghost old_i = i;
            flush_exec(&mut parts, &mut cur);
            let (part, e) = match parse_choice(s, i) {
                Ok(x) => x,
                Err(err) => return Err(err),
            };
            proof {
                lemma_parts_model_push(parts@, part);
            }
            parts.push(part);
            i = e;
            assert(parse_loop(s@, pos as int, seq![], seq![]) == parse_loop(s@, i as int, parts_model(parts@), cur@)) by {
                assert(parse_loop(s@, old_i as int, old_pm, old_cur) == parse_loop(s@, e as int, flush(old_pm, old_cur).push(part.model()), seq![]));
            }
        } else {
            let ghost old_pm = parts_model(parts@);
            let ghost old_cur = cur@;
            let ghost old_i = i;
            proof {
                lemma_step(s@, i as int, old_pm, old_cur);
            }
            match step_exec(s, i, &mut parts, &mut cur) {
                StepResult::Continue(q) => {
                    i = q;
                    assert(step(s@, old_i as int, old_pm, old_cur) matches Step::Continue(q2, p2, c2)
                        && q2 == q && p2 == parts_model(parts@) && c2 == cur@);
                    assert(parse_loop(s@, old_i as int, old_pm, old_cur) == parse_loop(s@, i as int, parts_model(parts@), cur@));
                },
                StepResult::Finished(e) => {
                    return Ok((TextBuilder(parts), e));
                },
                StepResult::Fail(err) => {
                    return Err(err);
                },
            }
        }
    }
    flush_exec(&mut parts, &mut cur);
    Ok((TextBuilder(parts), i))
}

impl TextBuilder {
    /// Parses a text. Reading stops at a `#` that closes no choice; what
    /// follows it is ignored.
    pub fn parse(text: &str) -> (r: Result<TextBuilder, TextBuilderParseError>)
        ensures
            match parse_text(text@) {
                ParseOutcome::Parsed(m, _) => r matches Ok(tb) && tb.model() == m,
                ParseOutcome::Failed(em) => r matches Err(err) && err.model() == em,
            },
    {
        let chars = chars_of(text);
        match parse_from(&chars, 0) {
            Ok((tb, _)) => Ok(tb),
            Err(e) => Err(e),
        }
    }
}

/// The message that explains a parse error.
pub open spec fn error_message(e: ParseErrorModel) -> Seq<char> {
    match e {
        ParseErrorModel::UnclosedPercent =>
            "Unclosed %: Syntax is %<mode><search>%, where <mode> is _, >, or =."@,
        ParseErrorModel::TagModeUnknown(mode) =>
            "Unknown tag mode '"@ + seq![mode] + "': Allowed are only _, > or =."@,
        ParseErrorModel::TooFewCharsForColor => "Too few chars for color: Syntax is \\cRRGGBB."@,
        ParseErrorModel::ColorNotHex =>
            "Color value wasn't a hex number! Syntax is \\cRRGGBB, where R, G, and B are values from 0-9 and A-F (hex 0-F)."@,
        ParseErrorModel::CouldntParse(v, t) =>
            "Couldn't parse value '"@ + v + "' to type '"@ + t + "'."@,
    }
}

impl TextBuilderParseError {
    /// The message that explains the error.
    pub fn message(&self) -> (r: String)
        ensures
            r@ == error_message(self.model()),
    {
        match self {
            TextBuilderParseError::UnclosedPercent =>
                "Unclosed %: Syntax is %<mode><search>%, where <mode> is _, >, or =.".to_string(),
            TextBuilderParseError::TagModeUnknown(mode) => {
                let mut v: Vec<char> = Vec::new();
                push_str(&mut v, "Unknown tag mode '");
                v.push(*mode);
                push_str(&mut v, "': Allowed are only _, > or =.");
                string_of(&v)
            },
            TextBuilderParseError::TooFewCharsForColor => "Too few chars for color: Syntax is \\cRRGGBB.".to_string(),
            TextBuilderParseError::ColorNotHex =>
                "Color value wasn't a hex number! Syntax is \\cRRGGBB, where R, G, and B are values from 0-9 and A-F (hex 0-F).".to_string(),
            TextBuilderParseError::CouldntParse(v, t) => {
                let mut out: Vec<char> = Vec::new();
                push_str(&mut out, "Couldn't parse value '");
                push_str(&mut out, v.as_str());
                push_str(&mut out, "' to type '");
                push_str(&mut out, t.as_str());
                push_str(&mut out, "'.");
                string_of(&out)
            },
        }
    }
}

impl std::str::FromStr for TextBuilder {
    type Err = TextBuilderParseError;

    fn from_str(s: &str) -> (r: Result<Self, Self::Err>)
        ensures
            match parse_text(s@) {
                ParseOutcome::Parsed(m, _) => r matches Ok(tb) && tb.model() == m,
                ParseOutcome::Failed(em) => r matches Err(err) && err.model() == em,
            },
    {
        TextBuilder::parse(s)
    }
}

/// `parts` is the beginning of `m`.
pub open spec fn begins_with(m: Seq<PartModel>, parts: Seq<PartModel>) -> bool {
    parts.len() <= m.len() && m.take(parts.len() as int) == parts
}

proof fn lemma_begins_with_trans(a: Seq<PartModel>, b: Seq<PartModel>, c: Seq<PartModel>)
    requires
        begins_with(a, b),
        begins_with(b, c),
    ensures
        begins_with(a, c),
{
    assert(a.take(c.len() as int) =~= b.take(c.len() as int));
}

proof fn lemma_begins_with_push(p: Seq<PartModel>, x: PartModel)
    ensures
        begins_with(p.push(x), p),
        begins_with(p, p),
{
    assert(p.push(x).take(p.len() as int) =~= p);
    assert(p.take(p.len() as int) =~= p);
}

/// Reading goes on from the parts read so far: what is read keeps them at
/// its beginning.
proof fn lemma_parse_loop_keeps_parts(s: Seq<char>, pos: int, parts: Seq<PartModel>, cur: Seq<char>)
    ensures
        parse_loop(s, pos, parts, cur) matches ParseOutcome::Parsed(m, _) ==> begins_with(m, parts),
    decreases s.len() - pos,
{
    lemma_begins_with_push(parts, PartModel::LineBreak);
    let before = flush(parts, cur);
    assert(begins_with(before, parts)) by {
        if cur.len() > 0 {
            lemma_begins_with_push(parts, PartModel::Literal(literal_text(cur)));
        }
    }
    if pos < 0 || pos >= s.len() {
    } else if s[pos] == '?' {
        match parse_loop(s, pos + 1, seq![], seq![]) {
            ParseOutcome::Parsed(a, e1) => if pos < e1 <= s.len() {
                match parse_loop(s, e1, seq![], seq![]) {
                    ParseOutcome::Parsed(b, e2) => if pos < e2 <= s.len() {
                        match parse_loop(s, e2, seq![], seq![]) {
                            ParseOutcome::Parsed(c, e3) => if pos < e3 <= s.len() {
                                let p2 = before.push(PartModel::If(a, b, c));
                                lemma_parse_loop_keeps_parts(s, e3, p2, seq![]);
                                lemma_begins_with_push(before, PartModel::If(a, b, c));
                                if let ParseOutcome::Parsed(m, _) = parse_loop(s, e3, p2, seq![]) {
                                    lemma_begins_with_trans(m, p2, before);
                                    lemma_begins_with_trans(m, before, parts);
                                }
                            },
                            _ => {},
                        }
                    },
                    _ => {},
                }
            },
            _ => {},
        }
    } else {
        match step(s, pos, parts, cur) {
            Step::Continue(q, p2, c2) => {
                assert(begins_with(p2, parts)) by {
                    if p2 != parts {
                        let x = p2.last();
                        assert(p2 == before.push(x));
                        lemma_begins_with_push(before, x);
                        lemma_begins_with_trans(p2, before, parts);
                    }
                }
                if pos < q <= s.len() {
                    lemma_parse_loop_keeps_parts(s, q, p2, c2);
                    if let ParseOutcome::Parsed(m, _) = parse_loop(s, q, p2, c2) {
                        lemma_begins_with_trans(m, p2, parts);
                    }
                }
            },
            _ => {},
        }
    }
}

/// A text that begins with an escape reads first the part it names: `\t`
/// the song's title, `\a` the album's name, `\A` the artist's name, `\d` the
/// song's duration and `\D` the duration with milliseconds.
pub proof fn lemma_escape_reads_its_part(e: char, rest: Seq<char>)
    requires
        e == 't' || e == 'a' || e == 'A' || e == 'd' || e == 'D',
    ensures
        parse_text(seq!['\\', e] + rest) matches ParseOutcome::Parsed(m, _) ==> m.len() > 0 && m[0] == (
            if e == 't' { PartModel::SongTitle }
            else if e == 'a' { PartModel::AlbumName }
            else if e == 'A' { PartModel::ArtistName }
            else if e == 'd' { PartModel::SongDuration(false) }
            else { PartModel::SongDuration(true) }
        ),
{
    let s = seq!['\\', e] + rest;
    assert(s[0] == '\\');
    assert(s[1] == e);
    let first = if e == 't' { PartModel::SongTitle }
        else if e == 'a' { PartModel::AlbumName }
        else if e == 'A' { PartModel::ArtistName }
        else if e == 'd' { PartModel::SongDuration(false) }
        else { PartModel::SongDuration(true) };
    let p2 = seq![first];
    assert(step(s, 0, seq![], seq![]) == Step::Continue(2, p2, seq![]));
    lemma_parse_loop_keeps_parts(s, 2, p2, seq![]);
    if let ParseOutcome::Parsed(m, _) = parse_text(s) {
        assert(m.take(1)[0] == m[0]);
    }
}

/// A text that begins with a tag search `%=tag%`, `%>tag%` or `%_tag%` reads
/// first that search for that tag: a tag with exactly that value, a tag
/// that starts with it, or a tag that contains it.
pub proof fn lemma_tag_search_reads_its_part(mode: char, tag: Seq<char>, rest: Seq<char>)
    requires
        mode == '=' || mode == '>' || mode == '_',
        !tag.contains('%'),
    ensures
        parse_text(seq!['%', mode] + tag + seq!['%'] + rest) matches ParseOutcome::Parsed(m, _) ==> m.len() > 0 && m[0] == (
            if mode == '=' { PartModel::TagEq(tag) }
            else if mode == '>' { PartModel::TagEnd(tag) }
            else { PartModel::TagContains(tag) }
        ),
{
    let s = seq!['%', mode] + tag + seq!['%'] + rest;
    let end: int = tag.len() as int + 2;
    assert(s[0] == '%');
    assert(s[1] == mode);
    assert(s[end] == '%');
    lemma_find_char(s, 2, '%');
    let q = find_char(s, 2, '%');
    if q < end {
        assert(s[q] == tag[q - 2]);
        assert(tag.contains('%'));
    }
    if q > end {
        assert(s[end] != '%');
    }
    assert(s.subrange(2, end) =~= tag);
    let first = if mode == '=' { PartModel::TagEq(tag) }
        else if mode == '>' { PartModel::TagEnd(tag) }
        else { PartModel::TagContains(tag) };
    let p2 = seq![first];
    assert(step(s, 0, seq![], seq![]) == Step::Continue(end + 1, p2, seq![]));
    lemma_parse_loop_keeps_parts(s, end + 1, p2, seq![]);
    if let ParseOutcome::Parsed(m, _) = parse_text(s) {
        assert(m.take(1)[0] == m[0]);
    }
}

} // verus!

//! Editing the text of a one-line text field: typing appends, backspace
//! erases the last character, ctrl+backspace the last word.
use vstd::prelude::*;
use crate::gui_model::Modifiers;
use crate::strings::{chars_of, string_of};

verus! {

/// Whether a character is a control code: Unicode's general category Cc,
/// the C0 codes U+0000 to U+001F and the C1 codes U+007F to U+009F (the
/// class `char::is_control` tests).
pub open spec fn char_is_control(c: char) -> bool {
    c <= '\u{1f}' || ('\u{7f}' <= c && c <= '\u{9f}')
}

fn is_control(c: char) -> (r: bool)
    ensures
        r == char_is_control(c),
{
    c <= '\u{1f}' || ('\u{7f}' <= c && c <= '\u{9f}')
}

/// A typed character goes into the field unless ctrl, alt or logo is held
/// or it is a control character.
pub open spec fn typed_text(text: Seq<char>, mods: Modifiers, c: char, control: bool) -> Option<Seq<char>> {
    if !(mods.ctrl || mods.alt || mods.logo) && !control {
        Some(text.push(c))
    } else {
        None
    }
}

pub open spec fn opt_text(o: Option<String>) -> Option<Seq<char>> {
    match o {
        Some(s) => Some(s@),
        None => None,
    }
}

/// The text after typing `c`, told whether `c` is a control character;
/// `None` where the field ignores it.
pub fn type_into(text: &str, mods: &Modifiers, c: char, control: bool) -> (r: Option<String>)
    ensures
        opt_text(r) == typed_text(text@, *mods, c, control),
{
    if !(mods.ctrl || mods.alt || mods.logo) && !control {
        let mut v = chars_of(text);
        v.push(c);
        Some(string_of(&v))
    } else {
        None
    }
}

/// The text after typing `c`; `None` where the field ignores it.
pub fn type_char(text: &str, mods: &Modifiers, c: char) -> (r: Option<String>)
    ensures
        opt_text(r) == typed_text(text@, *mods, c, char_is_control(c)),
{
    let control = is_control(c);
    type_into(text, mods, c, control)
}

/// The text without its trailing run of spaces (`spaces`) or of other
/// characters (not `spaces`).
pub open spec fn trim_end_run(t: Seq<char>, spaces: bool) -> Seq<char>
    decreases t.len(),
{
    if t.len() > 0 && (t.last() == ' ') == spaces {
        trim_end_run(t.drop_last(), spaces)
    } else {
        t
    }
}

/// Ctrl+backspace: the trailing spaces, the word before them and the
/// spaces before that word go.
pub open spec fn without_last_word(t: Seq<char>) -> Seq<char> {
    trim_end_run(trim_end_run(trim_end_run(t, true), false), true)
}

/// What a key event does to the text: a pressed backspace, with neither
/// alt nor logo held, erases the last word (ctrl held) or character from a
/// text that is not empty; `None` where nothing changes.
pub open spec fn keyed_text(text: Seq<char>, mods: Modifiers, down: bool, backspace: bool) -> Option<Seq<char>> {
    if down && !(mods.alt || mods.logo) && backspace && text.len() > 0 {
        if mods.ctrl {
            Some(without_last_word(text))
        } else {
            Some(text.drop_last())
        }
    } else {
        None
    }
}

fn trim_run(v: &mut Vec<char>, spaces: bool)
    ensures
        final(v)@ == trim_end_run(old(v)@, spaces),
{
    while v.len() > 0 && (v[v.len() - 1] == ' ') == spaces
        invariant
            trim_end_run(v@, spaces) == trim_end_run(old(v)@, spaces),
        decreases v.len(),
    {
        v.pop();
    }
}

/// The text after a key event (`backspace`: whether the key is the
/// backspace key); `None` where the field ignores it.
pub fn key_into(text: &str, mods: &Modifiers, down: bool, backspace: bool) -> (r: Option<String>)
    ensures
        opt_text(r) == keyed_text(text@, *mods, down, backspace),
{
    if down && !(mods.alt || mods.logo) && backspace {
        let mut v = chars_of(text);
        if v.len() == 0 {
            return None;
        }
        if mods.ctrl {
            trim_run(&mut v, true);
            trim_run(&mut v, false);
            trim_run(&mut v, true);
        } else {
            v.pop();
        }
        Some(string_of(&v))
    } else {
        None
    }
}

proof fn lemma_trim_is_prefix(t: Seq<char>, spaces: bool)
    ensures
        trim_end_run(t, spaces).len() <= t.len(),
        trim_end_run(t, spaces) == t.take(trim_end_run(t, spaces).len() as int),
    decreases t.len(),
{
    if t.len() > 0 && (t.last() == ' ') == spaces {
        lemma_trim_is_prefix(t.drop_last(), spaces);
        let r = trim_end_run(t, spaces);
        assert(t.drop_last().take(r.len() as int) =~= t.take(r.len() as int));
    } else {
        assert(t.take(t.len() as int) =~= t);
    }
}

/// Backspace only ever takes characters off the end: what is left is a
/// shorter start of the text.
pub proof fn lemma_backspace_keeps_a_prefix(text: Seq<char>, mods: Modifiers, down: bool, backspace: bool)
    ensures
        keyed_text(text, mods, down, backspace) matches Some(t) ==> t.len() < text.len() && t == text.take(
            t.len() as int,
        ),
{
    if keyed_text(text, mods, down, backspace) is Some {
        if mods.ctrl {
            let a = trim_end_run(text, true);
            let b = trim_end_run(a, false);
            let c = trim_end_run(b, true);
            lemma_trim_is_prefix(text, true);
            lemma_trim_is_prefix(a, false);
            lemma_trim_is_prefix(b, true);
            assert(c =~= text.take(c.len() as int));
            lemma_trim_is_prefix(text.drop_last(), true);
            if a.len() == text.len() {
                assert(text.last() != ' ');
                assert(a =~= text);
                lemma_trim_is_prefix(a.drop_last(), false);
                assert(b.len() < a.len());
            }
        } else {
            assert(text.drop_last() =~= text.take(text.len() - 1));
        }
    }
}

} // verus!

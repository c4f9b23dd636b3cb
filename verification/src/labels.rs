//! Texts that the client shows about the queue and the selection.
use vstd::prelude::*;
use crate::strings::{decimal, pad_zero, push_decimal, push_decimal_padded, push_str, string_of};

verus! {

broadcast use vstd::string::group_string_axioms;

/// The length of (a part of) a queue.
#[derive(Debug, Clone, Copy, PartialEq, Eq)]
pub struct QueueDuration {
    /// The queue repeats forever.
    pub infinite: bool,
    pub millis: u64,
    /// Songs whose duration is not known in advance (chosen at random).
    pub random_counter: u64,
}

/// `h:mm:ss` when there are hours, else `mm:ss`.
pub open spec fn clock_text(ms: nat) -> Seq<char> {
    let seconds = ms / 1000;
    let minutes = seconds / 60;
    let h = minutes / 60;
    let m = minutes % 60;
    let s = seconds % 60;
    if h > 0 {
        decimal(h) + seq![':'] + pad_zero(decimal(m), 2) + seq![':'] + pad_zero(decimal(s), 2)
    } else {
        pad_zero(decimal(m), 2) + seq![':'] + pad_zero(decimal(s), 2)
    }
}

/// `∞` for an endless queue; otherwise the time, followed by
/// ` + <n> random songs` when there are such songs, or only `<n> random songs`
/// when the known time is zero.
pub open spec fn duration_label(d: QueueDuration) -> Seq<char> {
    if d.infinite {
        seq!['\u{221e}']
    } else if d.random_counter == 0 {
        clock_text(d.millis as nat)
    } else if d.millis > 0 {
        clock_text(d.millis as nat) + " + "@ + decimal(d.random_counter as nat) + " random songs"@
    } else {
        decimal(d.random_counter as nat) + " random songs"@
    }
}

fn push_clock(out: &mut Vec<char>, ms: u64)
    ensures
        final(out)@ == old(out)@ + clock_text(ms as nat),
{
    let seconds = ms / 1000;
    let minutes = seconds / 60;
    let h = minutes / 60;
    let m = minutes % 60;
    let s = seconds % 60;
    if h > 0 {
        push_decimal(out, h);
        out.push(':');
    }
    push_decimal_padded(out, m, 2);
    out.push(':');
    push_decimal_padded(out, s, 2);
    assert(final(out)@ =~= old(out)@ + clock_text(ms as nat));
}

/// The text for a queue's duration.
pub fn fmt_dur(dur: QueueDuration) -> (r: String)
    ensures
        r@ == duration_label(dur),
{
    let mut out: Vec<char> = Vec::new();
    if dur.infinite {
        out.push('\u{221e}');
        assert(out@ =~= seq!['\u{221e}']);
    } else if dur.random_counter == 0 {
        push_clock(&mut out, dur.millis);
        assert(out@ =~= clock_text(dur.millis as nat));
    } else {
        if dur.millis > 0 {
            push_clock(&mut out, dur.millis);
            push_str(&mut out, " + ");
        }
        push_decimal(&mut out, dur.random_counter);
        push_str(&mut out, " random songs");
        if dur.millis > 0 {
            assert(out@ =~= clock_text(dur.millis as nat) + " + "@ + decimal(dur.random_counter as nat) + " random songs"@);
        } else {
            assert(out@ =~= decimal(dur.random_counter as nat) + " random songs"@);
        }
    }
    string_of(&out)
}

/// The label of a loop element of a queue: how often it repeats (`0` means
/// forever); `[???]` for an element that is no loop.
pub open spec fn loop_label(total: Option<u64>) -> Seq<char> {
    match total {
        None => "[???]"@,
        Some(t) => if t == 0 {
            "repeat forever"@
        } else if t == 1 {
            "repeat 1 time"@
        } else {
            "repeat "@ + decimal(t as nat) + " times"@
        },
    }
}

pub fn get_label_text(total: Option<u64>) -> (r: String)
    ensures
        r@ == loop_label(total),
{
    match total {
        None => "[???]".to_string(),
        Some(t) => {
            if t == 0 {
                "repeat forever".to_string()
            } else if t == 1 {
                "repeat 1 time".to_string()
            } else {
                let mut v: Vec<char> = Vec::new();
                push_str(&mut v, "repeat ");
                push_decimal(&mut v, t);
                push_str(&mut v, " times");
                string_of(&v)
            }
        },
    }
}

/// `1 <one>` or `<n> <many>`.
pub open spec fn count_words(n: nat, one: Seq<char>, many: Seq<char>) -> Seq<char> {
    if n == 1 { "1 "@ + one } else { decimal(n) + " "@ + many }
}

pub open spec fn songs_words(n: nat) -> Seq<char> {
    count_words(n, "song"@, "songs"@)
}

pub open spec fn albums_words(n: nat) -> Seq<char> {
    count_words(n, "album"@, "albums"@)
}

pub open spec fn artists_words(n: nat) -> Seq<char> {
    count_words(n, "artist"@, "artists"@)
}

/// The text that counts the selection: the non-zero counts of songs,
/// albums and artists, in that order, joined by `, ` and ` and `. With one
/// song and at least two albums and artists, the artists are written
/// `<n> artist`.
pub open spec fn selection_text(artists: nat, albums: nat, songs: nat) -> Option<Seq<char>> {
    let sel = " selected"@;
    let and = " and "@;
    if artists == 0 && albums == 0 && songs == 0 {
        None
    } else if artists == 0 && albums == 0 {
        Some(songs_words(songs) + sel)
    } else if artists == 0 && songs == 0 {
        Some(albums_words(albums) + sel)
    } else if albums == 0 && songs == 0 {
        Some(artists_words(artists) + sel)
    } else if artists == 0 {
        Some(songs_words(songs) + and + albums_words(albums) + sel)
    } else if albums == 0 {
        Some(songs_words(songs) + and + artists_words(artists) + sel)
    } else if songs == 0 {
        Some(albums_words(albums) + and + artists_words(artists) + sel)
    } else {
        let ar = if songs == 1 && albums >= 2 && artists >= 2 {
            decimal(artists) + " artist"@
        } else {
            artists_words(artists)
        };
        Some(songs_words(songs) + ", "@ + albums_words(albums) + and + ar + sel)
    }
}

fn push_count(out: &mut Vec<char>, n: usize, one: &str, many: &str)
    ensures
        final(out)@ == old(out)@ + count_words(n as nat, one@, many@),
{
    if n == 1 {
        push_str(out, "1 ");
        push_str(out, one);
    } else {
        push_decimal(out, n as u64);
        push_str(out, " ");
        push_str(out, many);
    }
    assert(final(out)@ =~= old(out)@ + count_words(n as nat, one@, many@));
}

/// The text for a selection of artists, albums and songs; `None` when
/// nothing is selected.
pub fn selection_counter_text(artists: usize, albums: usize, songs: usize) -> (r: Option<String>)
    ensures
        match selection_text(artists as nat, albums as nat, songs as nat) {
            Some(t) => r matches Some(s) && s@ == t,
            None => r is None,
        },
{
    if artists == 0 && albums == 0 && songs == 0 {
        return None;
    }
    let mut out: Vec<char> = Vec::new();
    if artists == 0 && albums == 0 {
        push_count(&mut out, songs, "song", "songs");
    } else if artists == 0 && songs == 0 {
        push_count(&mut out, albums, "album", "albums");
    } else if albums == 0 && songs == 0 {
        push_count(&mut out, artists, "artist", "artists");
    } else if artists == 0 {
        push_count(&mut out, songs, "song", "songs");
        push_str(&mut out, " and ");
        push_count(&mut out, albums, "album", "albums");
    } else if albums == 0 {
        push_count(&mut out, songs, "song", "songs");
        push_str(&mut out, " and ");
        push_count(&mut out, artists, "artist", "artists");
    } else if songs == 0 {
        push_count(&mut out, albums, "album", "albums");
        push_str(&mut out, " and ");
        push_count(&mut out, artists, "artist", "artists");
    } else {
        push_count(&mut out, songs, "song", "songs");
        push_str(&mut out, ", ");
        push_count(&mut out, albums, "album", "albums");
        push_str(&mut out, " and ");
        if songs == 1 && albums >= 2 && artists >= 2 {
            push_decimal(&mut out, artists as u64);
            push_str(&mut out, " artist");
        } else {
            push_count(&mut out, artists, "artist", "artists");
        }
    }
    push_str(&mut out, " selected");
    let r = string_of(&out);
    proof {
        let t = selection_text(artists as nat, albums as nat, songs as nat)->0;
        assert(r@ =~= t);
    }
    Some(r)
}

} // verus!

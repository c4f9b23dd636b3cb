//! Character positions in a string's UTF-8 encoding: which prefix of the
//! characters ends at a given byte offset.
use vstd::prelude::*;

verus! {

/// The number of bytes the UTF-8 encoding of `s` takes.
pub open spec fn utf8_len(s: Seq<char>) -> nat {
    vstd::utf8::encode_utf8(s).len()
}

/// Whether `b` is a byte offset between two characters of the UTF-8
/// encoding of `s` (the start and the end count).
pub open spec fn is_utf8_boundary(s: Seq<char>, b: int) -> bool {
    exists|k: int| 0 <= k <= s.len() && #[trigger] utf8_len(s.take(k)) == b
}

/// The number of characters of `s` whose encoding ends at byte offset `b`.
pub open spec fn char_pos(s: Seq<char>, b: int) -> int {
    choose|k: int| 0 <= k <= s.len() && #[trigger] utf8_len(s.take(k)) == b
}

proof fn lemma_encode_concat(a: Seq<char>, b: Seq<char>)
    ensures
        vstd::utf8::encode_utf8(a + b) == vstd::utf8::encode_utf8(a) + vstd::utf8::encode_utf8(b),
    decreases a.len(),
{
    if a.len() == 0 {
        assert(a + b =~= b);
        assert(vstd::utf8::encode_utf8(a) + vstd::utf8::encode_utf8(b) =~= vstd::utf8::encode_utf8(b));
    } else {
        assert((a + b).drop_first() =~= a.drop_first() + b);
        assert((a + b)[0] == a[0]);
        lemma_encode_concat(a.drop_first(), b);
        assert(vstd::utf8::encode_utf8(a + b) =~= vstd::utf8::encode_utf8(a) + vstd::utf8::encode_utf8(b));
    }
}

/// One more character adds the bytes of its encoding, at least one.
proof fn lemma_utf8_len_step(s: Seq<char>, k: int)
    requires
        0 <= k < s.len(),
    ensures
        utf8_len(s.take(k + 1)) == utf8_len(s.take(k)) + vstd::utf8::encode_scalar(s[k] as u32).len(),
        vstd::utf8::encode_scalar(s[k] as u32).len() >= 1,
{
    let c = seq![s[k]];
    assert(s.take(k + 1) =~= s.take(k) + c);
    lemma_encode_concat(s.take(k), c);
    assert(c.drop_first() =~= Seq::<char>::empty());
    assert(c[0] == s[k]);
    assert(vstd::utf8::encode_utf8(c.drop_first()) =~= Seq::<u8>::empty());
    assert(vstd::utf8::encode_utf8(c) =~= vstd::utf8::encode_scalar(s[k] as u32));
}

/// Longer prefixes take strictly more bytes.
proof fn lemma_utf8_len_strict(s: Seq<char>, i: int, j: int)
    requires
        0 <= i < j <= s.len(),
    ensures
        utf8_len(s.take(i)) < utf8_len(s.take(j)),
    decreases j - i,
{
    lemma_utf8_len_step(s, j - 1);
    if i < j - 1 {
        lemma_utf8_len_strict(s, i, j - 1);
    }
}

/// At a boundary, `char_pos` is the one prefix that ends there; and it keeps
/// the order of byte offsets.
pub proof fn lemma_char_pos(s: Seq<char>, a: int, b: int)
    requires
        is_utf8_boundary(s, a),
        is_utf8_boundary(s, b),
    ensures
        0 <= char_pos(s, a) <= s.len(),
        utf8_len(s.take(char_pos(s, a))) == a,
        forall|k: int| 0 <= k <= s.len() && #[trigger] utf8_len(s.take(k)) == a ==> k == char_pos(s, a),
        a <= b ==> char_pos(s, a) <= char_pos(s, b),
{
    let ka = char_pos(s, a);
    let kb = char_pos(s, b);
    assert forall|k: int| 0 <= k <= s.len() && #[trigger] utf8_len(s.take(k)) == a implies k == ka by {
        if k < ka {
            lemma_utf8_len_strict(s, k, ka);
        } else if ka < k {
            lemma_utf8_len_strict(s, ka, k);
        }
    }
    if a <= b && kb < ka {
        lemma_utf8_len_strict(s, kb, ka);
    }
}

/// The number of bytes `c` takes in UTF-8 (`char::len_utf8`).
fn utf8_width(c: char) -> (w: usize)
    ensures
        w == vstd::utf8::encode_scalar(c as u32).len(),
{
    proof {
        vstd::utf8::char_is_scalar(c);
    }
    if c <= '\u{7f}' {
        1
    } else if c <= '\u{7ff}' {
        2
    } else if c <= '\u{ffff}' {
        3
    } else {
        4
    }
}

/// The character position in `chars` at which the UTF-8 encoding has taken
/// `b` bytes.
pub(crate) fn char_index(chars: &Vec<char>, b: usize) -> (k: usize)
    requires
        is_utf8_boundary(chars@, b as int),
    ensures
        k == char_pos(chars@, b as int),
        k <= chars@.len(),
{
    let ghost s = chars@;
    let ghost target = choose|k: int| 0 <= k <= s.len() && #[trigger] utf8_len(s.take(k)) == b;
    let mut i: usize = 0;
    let mut pos: usize = 0;
    assert(s.take(0) =~= Seq::<char>::empty());
    while pos < b
        invariant
            s == chars@,
            0 <= target <= s.len(),
            utf8_len(s.take(target)) == b,
            i <= target,
            pos == utf8_len(s.take(i as int)),
            pos <= b,
        decreases b - pos,
    {
        proof {
            assert(target != i as int);
            lemma_utf8_len_step(s, i as int);
            if i + 1 < target {
                lemma_utf8_len_strict(s, i + 1, target);
            }
        }
        assert(i < chars.len());
        let w = utf8_width(chars[i]);
        pos = pos + w;
        i = i + 1;
    }
    proof {
        if i < target {
            lemma_utf8_len_strict(s, i as int, target);
        }
        lemma_char_pos(s, b as int, b as int);
    }
    i
}

} // verus!

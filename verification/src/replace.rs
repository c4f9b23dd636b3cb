//! `str::replace` on character sequences, and facts about chains of
//! replacements that map each character to a short code.
use vstd::prelude::*;

verus! {

/// Every non-overlapping occurrence of `from`, scanning left to right,
/// replaced by `to` (what `str::replace(from, to)` returns).
pub open spec fn replace_all(s: Seq<char>, from: Seq<char>, to: Seq<char>) -> Seq<char>
    decreases s.len(),
{
    if s.len() == 0 {
        seq![]
    } else if from.len() > 0 && from.len() <= s.len() && s.take(from.len() as int) == from {
        to + replace_all(s.skip(from.len() as int), from, to)
    } else {
        seq![s[0]] + replace_all(s.skip(1), from, to)
    }
}

/// The concatenation of `f(c)` over the characters `c` of `s`.
pub open spec fn flat(s: Seq<char>, f: spec_fn(char) -> Seq<char>) -> Seq<char>
    decreases s.len(),
{
    if s.len() == 0 {
        seq![]
    } else {
        f(s[0]) + flat(s.skip(1), f)
    }
}

/// `s` without the characters `a` and `b`.
pub open spec fn remove_two(s: Seq<char>, a: char, b: char) -> Seq<char> {
    s.filter(keep_char(a, b))
}

/// The characters other than `a` and `b`.
pub open spec fn keep_char(a: char, b: char) -> spec_fn(char) -> bool {
    |c: char| c != a && c != b
}

/// Whether `from` occurs in `s` at position `i`.
fn occurs_at(s: &Vec<char>, i: usize, from: &Vec<char>) -> (r: bool)
    requires
        i <= s@.len(),
    ensures
        r == (from@.len() <= s@.skip(i as int).len() && s@.skip(i as int).take(from@.len() as int) == from@),
{
    let n = s.len();
    let m = from.len();
    let ghost rest = s@.skip(i as int);
    if m > n - i {
        return false;
    }
    let mut j: usize = 0;
    while j < m
        invariant
            n == s@.len(),
            m == from@.len(),
            i <= n,
            m <= n - i,
            j <= m,
            rest == s@.skip(i as int),
            forall|k: int| 0 <= k < j ==> s@[i + k] == from@[k],
        decreases m - j,
    {
        if s[i + j] != from[j] {
            assert(rest.take(m as int)[j as int] == s@[i + j]);
            return false;
        }
        j = j + 1;
    }
    assert(rest.take(m as int) =~= from@);
    true
}

/// Replaces every occurrence of `from` in `s` by `to`.
pub fn replace_exec(s: &Vec<char>, from: &Vec<char>, to: &Vec<char>) -> (r: Vec<char>)
    requires
        from@.len() > 0,
    ensures
        r@ == replace_all(s@, from@, to@),
{
    let n = s.len();
    let m = from.len();
    let mut out: Vec<char> = Vec::new();
    let mut i: usize = 0;
    assert(s@.skip(0) =~= s@);
    assert(out@ + s@ =~= s@);
    while i < n
        invariant
            n == s@.len(),
            m == from@.len(),
            m > 0,
            i <= n,
            out@ + replace_all(s@.skip(i as int), from@, to@) == replace_all(s@, from@, to@),
        decreases n - i,
    {
        let ghost rest = s@.skip(i as int);
        let matched = occurs_at(s, i, from);
        if matched {
            let mut k: usize = 0;
            let ghost before = out@;
            while k < to.len()
                invariant
                    k <= to@.len(),
                    out@ == before + to@.take(k as int),
                decreases to.len() - k,
            {
                out.push(to[k]);
                k = k + 1;
                assert(out@ =~= before + to@.take(k as int));
            }
            assert(to@.take(to@.len() as int) =~= to@);
            assert(rest.skip(m as int) =~= s@.skip(i + m));
            assert(before + (to@ + replace_all(s@.skip(i + m), from@, to@)) =~= out@ + replace_all(s@.skip(i + m), from@, to@));
            i = i + m;
        } else {
            let ghost before = out@;
            out.push(s[i]);
            assert(rest.skip(1) =~= s@.skip(i + 1));
            assert(before + (seq![s@[i as int]] + replace_all(s@.skip(i + 1), from@, to@)) =~= out@ + replace_all(s@.skip(i + 1), from@, to@));
            i = i + 1;
        }
    }
    assert(replace_all(s@.skip(n as int), from@, to@) =~= Seq::<char>::empty());
    assert(out@ + Seq::<char>::empty() =~= out@);
    out
}

/// Removes every `a` and `b` from `s`.
pub fn remove_two_exec(s: &Vec<char>, a: char, b: char) -> (r: Vec<char>)
    ensures
        r@ == remove_two(s@, a, b),
{
    let mut out: Vec<char> = Vec::new();
    let mut i: usize = 0;
    while i < s.len()
        invariant
            i <= s@.len(),
            out@ == remove_two(s@.take(i as int), a, b),
        decreases s.len() - i,
    {
        let ghost before = s@.take(i as int);
        assert(s@.take(i + 1) =~= before.push(s@[i as int]));
        let c = s[i];
        if c != a && c != b {
            out.push(c);
        }
        assert(keep_char(a, b)(c) == (c != a && c != b));
        proof {
            reveal(Seq::filter);
            assert(s@.take(i + 1).drop_last() =~= before);
            assert(s@.take(i + 1).last() == c);
        }
        i = i + 1;
    }
    assert(s@.take(s@.len() as int) =~= s@);
    out
}

/// `flat` of a concatenation.
pub proof fn lemma_flat_concat(a: Seq<char>, b: Seq<char>, f: spec_fn(char) -> Seq<char>)
    ensures
        flat(a + b, f) == flat(a, f) + flat(b, f),
    decreases a.len(),
{
    if a.len() == 0 {
        assert(a + b =~= b);
    } else {
        assert((a + b).skip(1) =~= a.skip(1) + b);
        lemma_flat_concat(a.skip(1), b, f);
        assert((a + b)[0] == a[0]);
        assert(f(a[0]) + (flat(a.skip(1), f) + flat(b, f)) =~= (f(a[0]) + flat(a.skip(1), f)) + flat(b, f));
    }
}

/// Maps that agree on every character give the same `flat`.
pub proof fn lemma_flat_ext(s: Seq<char>, f: spec_fn(char) -> Seq<char>, g: spec_fn(char) -> Seq<char>)
    requires
        forall|c: char| #[trigger] f(c) == g(c),
    ensures
        flat(s, f) == flat(s, g),
    decreases s.len(),
{
    if s.len() > 0 {
        lemma_flat_ext(s.skip(1), f, g);
    }
}

/// `flat` with the map that keeps each character is the identity.
pub proof fn lemma_flat_id(s: Seq<char>)
    ensures
        flat(s, |c: char| seq![c]) == s,
    decreases s.len(),
{
    if s.len() > 0 {
        lemma_flat_id(s.skip(1));
        assert(seq![s[0]] + s.skip(1) =~= s);
    }
}

/// A single-character replacement distributes over concatenation.
pub proof fn lemma_replace_char_concat(a: Seq<char>, b: Seq<char>, x: char, to: Seq<char>)
    ensures
        replace_all(a + b, seq![x], to) == replace_all(a, seq![x], to) + replace_all(b, seq![x], to),
    decreases a.len(),
{
    if a.len() == 0 {
        assert(a + b =~= b);
        assert(replace_all(a, seq![x], to) =~= Seq::<char>::empty());
    } else {
        let ab = a + b;
        assert(ab.take(1) =~= seq![a[0]]);
        assert(a.take(1) =~= seq![a[0]]);
        assert(ab.skip(1) =~= a.skip(1) + b);
        lemma_replace_char_concat(a.skip(1), b, x, to);
        if a[0] == x {
            assert(replace_all(ab, seq![x], to) == to + replace_all(ab.skip(1), seq![x], to));
            assert(replace_all(a, seq![x], to) == to + replace_all(a.skip(1), seq![x], to));
        } else {
            assert(ab.take(1)[0] != seq![x][0]);
            assert(a.take(1)[0] != seq![x][0]);
            assert(replace_all(ab, seq![x], to) == seq![ab[0]] + replace_all(ab.skip(1), seq![x], to));
            assert(replace_all(a, seq![x], to) == seq![a[0]] + replace_all(a.skip(1), seq![x], to));
        }
        assert(replace_all(ab, seq![x], to) =~= replace_all(a, seq![x], to) + replace_all(b, seq![x], to));
    }
}

/// A single-character replacement applied to `flat(s, f)` acts on each `f(c)`.
pub proof fn lemma_replace_char_flat(s: Seq<char>, f: spec_fn(char) -> Seq<char>, x: char, to: Seq<char>)
    ensures
        replace_all(flat(s, f), seq![x], to) == flat(s, |c: char| replace_all(f(c), seq![x], to)),
    decreases s.len(),
{
    if s.len() == 0 {
        assert(replace_all(flat(s, f), seq![x], to) =~= Seq::<char>::empty());
    } else {
        lemma_replace_char_concat(f(s[0]), flat(s.skip(1), f), x, to);
        lemma_replace_char_flat(s.skip(1), f, x, to);
    }
}

/// A sequence without `x` is unchanged by replacing `x`.
pub proof fn lemma_replace_char_absent(s: Seq<char>, x: char, to: Seq<char>)
    requires
        !s.contains(x),
    ensures
        replace_all(s, seq![x], to) == s,
    decreases s.len(),
{
    if s.len() > 0 {
        assert(s.take(1) =~= seq![s[0]]);
        assert(s[0] != x);
        assert(s.take(1)[0] != seq![x][0]);
        assert forall|i: int| 0 <= i < s.skip(1).len() implies s.skip(1)[i] != x by {
            assert(s.skip(1)[i] == s[i + 1]);
        }
        lemma_replace_char_absent(s.skip(1), x, to);
        assert(seq![s[0]] + s.skip(1) =~= s);
    }
}

/// A code of one character other than `b`, or of `b` and one character other than `b`.
pub open spec fn short_code(w: Seq<char>, b: char) -> bool {
    ||| (w.len() == 1 && w[0] != b)
    ||| (w.len() == 2 && w[0] == b && w[1] != b)
}

/// Replacing the two-character sequence `[b, x]` in `flat(s, f)`, where every
/// `f(c)` is a short code, replaces exactly the codes equal to `[b, x]`.
pub proof fn lemma_replace_pair_flat(
    s: Seq<char>,
    f: spec_fn(char) -> Seq<char>,
    b: char,
    x: char,
    to: Seq<char>,
    g: spec_fn(char) -> Seq<char>,
)
    requires
        forall|c: char| short_code(#[trigger] f(c), b),
        forall|c: char| #[trigger] g(c) == if f(c) == seq![b, x] { to } else { f(c) },
    ensures
        replace_all(flat(s, f), seq![b, x], to) == flat(s, g),
    decreases s.len(),
{
    let pat = seq![b, x];
    if s.len() == 0 {
        assert(replace_all(flat(s, f), pat, to) =~= Seq::<char>::empty());
    } else {
        let c = s[0];
        let rest = flat(s.skip(1), f);
        let w = f(c);
        lemma_replace_pair_flat(s.skip(1), f, b, x, to, g);
        let whole = w + rest;
        assert(flat(s, f) == whole);
        assert(short_code(w, b));
        if w.len() == 1 {
            assert(whole[0] == w[0]);
            assert(pat[0] == b);
            assert(!(pat.len() <= whole.len() && whole.take(2) == pat)) by {
                if whole.len() >= 2 {
                    assert(whole.take(2)[0] == w[0]);
                }
            }
            assert(whole.skip(1) =~= rest);
            assert(w =~= seq![whole[0]]);
            assert(w != pat);
        } else {
            assert(whole.len() >= 2);
            assert(whole.take(2) =~= w);
            if w == pat {
                assert(whole.skip(2) =~= rest);
            } else {
                assert(w[1] != x) by {
                    if w[1] == x {
                        assert(w =~= pat);
                    }
                }
                let tail = whole.skip(1);
                assert(tail =~= seq![w[1]] + rest);
                assert(pat[0] == b);
                assert(!(pat.len() <= tail.len() && tail.take(2) == pat)) by {
                    if tail.len() >= 2 {
                        assert(tail.take(2)[0] == w[1]);
                    }
                }
                assert(tail.skip(1) =~= rest);
                assert(replace_all(tail, pat, to) == seq![tail[0]] + replace_all(tail.skip(1), pat, to));
                assert(seq![whole[0]] + (seq![w[1]] + replace_all(rest, pat, to)) =~= w + replace_all(rest, pat, to));
            }
        }
    }
}

/// Removing two characters that no `f(c)` contains leaves `flat(s, f)` unchanged.
pub proof fn lemma_remove_two_flat(s: Seq<char>, f: spec_fn(char) -> Seq<char>, a: char, b: char)
    requires
        forall|c: char| !(#[trigger] f(c)).contains(a) && !f(c).contains(b),
    ensures
        remove_two(flat(s, f), a, b) == flat(s, f),
    decreases s.len(),
{
    let p = keep_char(a, b);
    if s.len() > 0 {
        lemma_remove_two_flat(s.skip(1), f, a, b);
        let w = f(s[0]);
        assert forall|i: int| 0 <= i < w.len() implies p(w[i]) by {
            assert(w.contains(w[i]));
        }
        lemma_filter_keeps(w, p);
        Seq::filter_distributes_over_add(w, flat(s.skip(1), f), p);
    } else {
        reveal(Seq::filter);
    }
}

proof fn lemma_filter_keeps(w: Seq<char>, p: spec_fn(char) -> bool)
    requires
        forall|i: int| 0 <= i < w.len() ==> p(w[i]),
    ensures
        w.filter(p) == w,
    decreases w.len(),
{
    reveal(Seq::filter);
    if w.len() > 0 {
        lemma_filter_keeps(w.drop_last(), p);
        assert(w.drop_last().push(w.last()) =~= w);
    } else {
        assert(w.filter(p) =~= w);
    }
}

} // verus!

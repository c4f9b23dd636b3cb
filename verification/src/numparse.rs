//! Syntax of the numbers that text and filter configurations contain: float
//! literals as `f32::from_str` accepts them, hexadecimal colors as
//! `u32::from_str_radix(_, 16)` reads them, and decimal `i32` values as
//! `i32::from_str` reads them.
use vstd::prelude::*;

verus! {

pub open spec fn is_digit(c: char) -> bool {
    '0' <= c && c <= '9'
}

pub open spec fn is_sign(c: char) -> bool {
    c == '+' || c == '-'
}

/// `c` is the lowercase ASCII letter `w` or its uppercase form.
pub open spec fn letter_ci(c: char, w: char) -> bool {
    c == w || (c as u32) + 32 == (w as u32)
}

/// `t` spells the lowercase ASCII word `w`, ignoring ASCII case.
pub open spec fn word_ci(t: Seq<char>, w: Seq<char>) -> bool {
    &&& t.len() == w.len()
    &&& forall|i: int| 0 <= i < t.len() ==> letter_ci(#[trigger] t[i], w[i])
}

pub open spec fn is_exp_marker(c: char) -> bool {
    c == 'e' || c == 'E'
}

/// Digits with at most one decimal point, and at least one digit.
pub open spec fn valid_mantissa(m: Seq<char>) -> bool {
    &&& forall|i: int| 0 <= i < m.len() ==> is_digit(#[trigger] m[i]) || m[i] == '.'
    &&& forall|i: int, j: int| 0 <= i < m.len() && 0 <= j < m.len() && m[i] == '.' && m[j] == '.' ==> i == j
    &&& exists|i: int| 0 <= i < m.len() && is_digit(#[trigger] m[i])
}

/// An optional sign followed by at least one digit.
pub open spec fn valid_exponent(x: Seq<char>) -> bool {
    let d = strip_sign(x);
    &&& d.len() > 0
    &&& all_digits(d)
}

/// `x` without a leading `+` or `-`.
pub open spec fn strip_sign(x: Seq<char>) -> Seq<char> {
    if x.len() > 0 && is_sign(x[0]) { x.skip(1) } else { x }
}

pub open spec fn all_digits(d: Seq<char>) -> bool {
    forall|i: int| 0 <= i < d.len() ==> is_digit(#[trigger] d[i])
}

pub open spec fn is_float_number(t: Seq<char>) -> bool {
    ||| valid_mantissa(t)
    ||| exists|k: int|
        0 <= k < t.len() && is_exp_marker(#[trigger] t[k]) && valid_mantissa(t.take(k))
            && valid_exponent(t.skip(k + 1))
}

/// The strings that `f32::from_str` accepts: an optional sign, then `inf`,
/// `infinity`, `nan` (in any ASCII case) or a decimal number with an optional
/// exponent.
pub open spec fn is_float_literal(s: Seq<char>) -> bool {
    let t = strip_sign(s);
    ||| word_ci(t, seq!['i', 'n', 'f'])
    ||| word_ci(t, seq!['i', 'n', 'f', 'i', 'n', 'i', 't', 'y'])
    ||| word_ci(t, seq!['n', 'a', 'n'])
    ||| is_float_number(t)
}

pub fn word_ci_exec(t: &[char], w: &[char]) -> (r: bool)
    requires
        forall|i: int| 0 <= i < w@.len() ==> 'a' <= #[trigger] w@[i] && w@[i] <= 'z',
    ensures
        r == word_ci(t@, w@),
{
    if t.len() != w.len() {
        return false;
    }
    let mut i: usize = 0;
    while i < t.len()
        invariant
            i <= t.len(),
            t.len() == w.len(),
            forall|k: int| 0 <= k < w@.len() ==> 'a' <= #[trigger] w@[k] && w@[k] <= 'z',
            forall|k: int| 0 <= k < i ==> letter_ci(#[trigger] t@[k], w@[k]),
        decreases t.len() - i,
    {
        let c = t[i];
        let l = w[i];
        if !(c == l || ((l as u32) >= 32 && (c as u32) == (l as u32) - 32)) {
            return false;
        }
        i = i + 1;
    }
    true
}

fn mantissa_exec(m: &[char], from: usize, to: usize) -> (r: bool)
    requires
        from <= to <= m@.len(),
    ensures
        r == valid_mantissa(m@.subrange(from as int, to as int)),
{
    let ghost sub = m@.subrange(from as int, to as int);
    let mut i = from;
    let mut dots: usize = 0;
    let mut dot_at: usize = 0;
    let mut digit_seen = false;
    while i < to
        invariant
            from <= i <= to <= m@.len(),
            sub == m@.subrange(from as int, to as int),
            dots <= 1,
            forall|k: int| from <= k < i ==> is_digit(#[trigger] m@[k]) || m@[k] == '.',
            dots == 0 ==> forall|k: int| from <= k < i ==> m@[k] != '.',
            dots == 1 ==> from <= dot_at < i && m@[dot_at as int] == '.'
                && forall|k: int| from <= k < i && m@[k] == '.' ==> k == dot_at,
            digit_seen <==> exists|k: int| from <= k < i && is_digit(#[trigger] m@[k]),
        decreases to - i,
    {
        let c = m[i];
        if '0' <= c && c <= '9' {
            digit_seen = true;
        } else if c == '.' {
            if dots == 1 {
                assert(sub[dot_at - from] == '.' && sub[i - from] == '.');
                return false;
            }
            dots = 1;
            dot_at = i;
        } else {
            assert(sub[i - from] == c);
            return false;
        }
        i = i + 1;
    }
    if !digit_seen {
        assert forall|k: int| 0 <= k < sub.len() implies !is_digit(#[trigger] sub[k]) by {
            assert(sub[k] == m@[k + from]);
        }
        return false;
    }
    let ghost w = choose|k: int| from <= k < i && is_digit(#[trigger] m@[k]);
    assert(sub[w - from] == m@[w]);
    assert forall|a: int, b: int| 0 <= a < sub.len() && 0 <= b < sub.len() && sub[a] == '.' && sub[b] == '.' implies a == b by {
        assert(sub[a] == m@[a + from]);
        assert(sub[b] == m@[b + from]);
    }
    assert forall|k: int| 0 <= k < sub.len() implies is_digit(#[trigger] sub[k]) || sub[k] == '.' by {
        assert(sub[k] == m@[k + from]);
    }
    true
}

fn exponent_exec(m: &[char], from: usize) -> (r: bool)
    requires
        from <= m@.len(),
    ensures
        r == valid_exponent(m@.skip(from as int)),
{
    let ghost x = m@.skip(from as int);
    let mut start = from;
    if from < m.len() && (m[from] == '+' || m[from] == '-') {
        start = from + 1;
    }
    let ghost d = m@.skip(start as int);
    assert(d =~= (if x.len() > 0 && is_sign(x[0]) { x.skip(1) } else { x }));
    if start >= m.len() {
        assert(d.len() == 0);
        return false;
    }
    let mut i = start;
    while i < m.len()
        invariant
            start <= i <= m@.len(),
            d == m@.skip(start as int),
            x == m@.skip(from as int),
            d == (if x.len() > 0 && is_sign(x[0]) { x.skip(1) } else { x }),
            forall|k: int| start <= k < i ==> is_digit(#[trigger] m@[k]),
        decreases m.len() - i,
    {
        if !('0' <= m[i] && m[i] <= '9') {
            assert(d[i - start] == m@[i as int]);
            assert(!is_digit(d[i - start]));
            assert(!valid_exponent(x));
            return false;
        }
        i = i + 1;
    }
    assert forall|k: int| 0 <= k < d.len() implies is_digit(#[trigger] d[k]) by {
        assert(d[k] == m@[k + start]);
    }
    true
}

/// Whether `s` is text that `f32::from_str` accepts.
pub fn float_literal_valid(s: &[char]) -> (r: bool)
    ensures
        r == is_float_literal(s@),
{
    let mut start: usize = 0;
    if s.len() > 0 && (s[0] == '+' || s[0] == '-') {
        start = 1;
    }
    let ghost t = s@.skip(start as int);
    assert(t =~= (if s@.len() > 0 && is_sign(s@[0]) { s@.skip(1) } else { s@ }));
    let tail = slice_skip(s, start);
    assert(tail@ == t);
    let w_inf: [char; 3] = ['i', 'n', 'f'];
    let w_infinity: [char; 8] = ['i', 'n', 'f', 'i', 'n', 'i', 't', 'y'];
    let w_nan: [char; 3] = ['n', 'a', 'n'];
    assert(w_inf@ =~= seq!['i', 'n', 'f']);
    assert(w_infinity@ =~= seq!['i', 'n', 'f', 'i', 'n', 'i', 't', 'y']);
    assert(w_nan@ =~= seq!['n', 'a', 'n']);
    if word_ci_exec(tail, w_inf.as_slice()) || word_ci_exec(tail, w_infinity.as_slice())
        || word_ci_exec(tail, w_nan.as_slice()) {
        return true;
    }
    // Find the first exponent marker.
    let mut k: usize = 0;
    while k < tail.len()
        invariant
            k <= tail@.len(),
            forall|j: int| 0 <= j < k ==> !is_exp_marker(#[trigger] tail@[j]),
        ensures
            k <= tail@.len(),
            forall|j: int| 0 <= j < k ==> !is_exp_marker(#[trigger] tail@[j]),
            k < tail@.len() ==> is_exp_marker(tail@[k as int]),
        decreases tail.len() - k,
    {
        if tail[k] == 'e' || tail[k] == 'E' {
            break;
        }
        k = k + 1;
    }
    if k == tail.len() {
        let r = mantissa_exec(tail, 0, tail.len());
        assert(tail@.subrange(0, tail@.len() as int) =~= tail@);
        assert(!exists|j: int| 0 <= j < t.len() && is_exp_marker(#[trigger] t[j]));
        r
    } else {
        let m_ok = mantissa_exec(tail, 0, k);
        assert(tail@.subrange(0, k as int) =~= tail@.take(k as int));
        let e_ok = exponent_exec(tail, k + 1);
        assert(!valid_mantissa(t)) by {
            if valid_mantissa(t) {
                assert(is_digit(t[k as int]) || t[k as int] == '.');
            }
        }
        assert forall|j: int| 0 <= j < t.len() && is_exp_marker(#[trigger] t[j]) && j != k
            implies !valid_mantissa(t.take(j)) by {
            if j > k {
                let tj = t.take(j);
                assert(tj[k as int] == t[k as int]);
            }
        }
        m_ok && e_ok
    }
}

/// `s` without its first `n` elements.
pub(crate) fn slice_skip<T>(s: &[T], n: usize) -> (r: &[T])
    requires
        n <= s@.len(),
    ensures
        r@ == s@.skip(n as int),
{
    let r = vstd::slice::slice_subrange(s, n, s.len());
    assert(r@ =~= s@.skip(n as int));
    r
}

pub open spec fn hex_digit_value(c: char) -> int {
    if '0' <= c && c <= '9' {
        c as int - '0' as int
    } else if 'a' <= c && c <= 'f' {
        c as int - 'a' as int + 10
    } else if 'A' <= c && c <= 'F' {
        c as int - 'A' as int + 10
    } else {
        -1
    }
}

pub open spec fn is_hex_digit(c: char) -> bool {
    hex_digit_value(c) >= 0
}

/// The number that a sequence of hexadecimal digits denotes.
pub open spec fn hex_digits_value(d: Seq<char>) -> nat
    decreases d.len(),
{
    if d.len() == 0 {
        0
    } else {
        hex_digits_value(d.drop_last()) * 16 + hex_digit_value(d.last()) as nat
    }
}

/// `s` without a leading `+`.
pub open spec fn strip_plus(s: Seq<char>) -> Seq<char> {
    if s.len() > 0 && s[0] == '+' { s.skip(1) } else { s }
}

pub open spec fn all_hex(d: Seq<char>) -> bool {
    forall|i: int| 0 <= i < d.len() ==> is_hex_digit(#[trigger] d[i])
}

/// What `u32::from_str_radix(s, 16)` returns for a string of at most eight
/// characters: an optional `+`, then one or more hexadecimal digits.
pub open spec fn parse_hex(s: Seq<char>) -> Option<nat> {
    let d = strip_plus(s);
    if d.len() > 0 && all_hex(d) {
        Some(hex_digits_value(d))
    } else {
        None
    }
}

proof fn lemma_hex_value_bound(d: Seq<char>)
    requires
        forall|i: int| 0 <= i < d.len() ==> is_hex_digit(#[trigger] d[i]),
    ensures
        hex_digits_value(d) < pow16(d.len()),
    decreases d.len(),
{
    if d.len() > 0 {
        let p = d.drop_last();
        assert forall|i: int| 0 <= i < p.len() implies is_hex_digit(#[trigger] p[i]) by {
            assert(p[i] == d[i]);
        }
        lemma_hex_value_bound(p);
        assert(is_hex_digit(d[d.len() - 1]));
        assert(pow16(d.len()) == 16 * pow16(p.len()));
    }
}

pub open spec fn pow16(n: nat) -> nat
    decreases n,
{
    if n == 0 { 1 } else { 16 * pow16((n - 1) as nat) }
}

fn hex_exec(c: char) -> (r: u32)
    ensures
        is_hex_digit(c) ==> r as int == hex_digit_value(c),
        !is_hex_digit(c) ==> r == 16,
{
    if '0' <= c && c <= '9' {
        (c as u32) - ('0' as u32)
    } else if 'a' <= c && c <= 'f' {
        (c as u32) - ('a' as u32) + 10
    } else if 'A' <= c && c <= 'F' {
        (c as u32) - ('A' as u32) + 10
    } else {
        16
    }
}

/// Reads a color code the way `u32::from_str_radix(s, 16)` does.
pub fn parse_hex_exec(s: &[char]) -> (r: Option<u32>)
    requires
        s@.len() <= 8,
    ensures
        match parse_hex(s@) {
            Some(v) => r == Some(v as u32) && v <= u32::MAX,
            None => r is None,
        },
{
    let mut start: usize = 0;
    if s.len() > 0 && s[0] == '+' {
        start = 1;
    }
    let ghost d = s@.skip(start as int);
    assert(d =~= (if s@.len() > 0 && s@[0] == '+' { s@.skip(1) } else { s@ }));
    if start >= s.len() {
        assert(d.len() == 0);
        return None;
    }
    let mut acc: u32 = 0;
    let mut i = start;
    proof {
        assert(pow16(0) == 1);
        assert(pow16(1) == 16);
        assert(pow16(2) == 256);
        assert(pow16(3) == 4096);
        assert(pow16(4) == 65536);
        assert(pow16(5) == 1048576);
        assert(pow16(6) == 16777216);
        assert(pow16(7) == 268435456);
        assert(pow16(8) == 4294967296);
    }
    while i < s.len()
        invariant
            start <= i <= s@.len() <= 8,
            d == s@.skip(start as int),
            d == (if s@.len() > 0 && s@[0] == '+' { s@.skip(1) } else { s@ }),
            forall|k: int| start <= k < i ==> is_hex_digit(#[trigger] s@[k]),
            acc as nat == hex_digits_value(s@.subrange(start as int, i as int)),
            (acc as nat) < pow16((i - start) as nat),
            pow16(0) == 1, pow16(1) == 16, pow16(2) == 256, pow16(3) == 4096, pow16(4) == 65536,
            pow16(5) == 1048576, pow16(6) == 16777216, pow16(7) == 268435456, pow16(8) == 4294967296,
        decreases s.len() - i,
    {
        let v = hex_exec(s[i]);
        if v == 16 {
            assert(d[i - start] == s@[i as int]);
            assert(!is_hex_digit(d[i - start]));
            assert(parse_hex(s@) is None);
            return None;
        }
        proof {
            let sub = s@.subrange(start as int, i + 1);
            assert(sub.drop_last() =~= s@.subrange(start as int, i as int));
            assert(sub.last() == s@[i as int]);
            assert(pow16((i + 1 - start) as nat) == 16 * pow16((i - start) as nat));
            assert(acc * 16 + v < pow16((i + 1 - start) as nat)) by (nonlinear_arith)
                requires acc < pow16((i - start) as nat), v < 16,
                    pow16((i + 1 - start) as nat) == 16 * pow16((i - start) as nat);
            assert((i + 1 - start) <= 8);
        }
        acc = acc * 16 + v;
        i = i + 1;
    }
    assert(s@.subrange(start as int, s@.len() as int) =~= d);
    assert forall|k: int| 0 <= k < d.len() implies is_hex_digit(#[trigger] d[k]) by {
        assert(d[k] == s@[k + start]);
    }
    Some(acc)
}

} // verus!

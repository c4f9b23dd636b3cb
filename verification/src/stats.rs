//! The statistics the database filler prints on request: how many songs
//! have each genre, most first, and how many are from each year, as a table
//! with a line per decade.
use vstd::prelude::*;
use crate::fill::{int_decimal, push_i32};
use crate::ranking::{insert_ranked, rank_sort, Ranked};
use crate::strings::{
    chars_of, decimal, lemma_lex_le_antisym, lemma_lex_le_total, lemma_lex_le_trans, lex_le, push_decimal, push_str,
    str_eq, str_le, string_of,
};

verus! {

broadcast use vstd::string::group_string_axioms;

/// Songs counted by year, in increasing order of years, each year once.
pub struct YearCounts {
    pub counts: Vec<(i32, usize)>,
    /// The number of songs counted.
    pub total: usize,
}

pub open spec fn years_sorted(s: Seq<(i32, usize)>) -> bool {
    forall|i: int, j: int| 0 <= i < j < s.len() ==> s[i].0 < s[j].0
}

/// The number of songs of year `y` (0 where it has no entry).
pub open spec fn count_in(s: Seq<(i32, usize)>, y: int) -> nat
    decreases s.len(),
{
    if s.len() == 0 {
        0
    } else if s.last().0 == y {
        s.last().1 as nat
    } else {
        count_in(s.drop_last(), y)
    }
}

/// The number of songs of all years.
pub open spec fn counts_sum(s: Seq<(i32, usize)>) -> nat
    decreases s.len(),
{
    if s.len() == 0 {
        0
    } else {
        counts_sum(s.drop_last()) + s.last().1 as nat
    }
}

/// How many entries are for years before `y`: where `y`'s entry is or goes.
pub open spec fn year_pos(s: Seq<(i32, usize)>, y: int) -> int
    decreases s.len(),
{
    if s.len() == 0 {
        0
    } else if s.last().0 < y {
        s.len() as int
    } else {
        year_pos(s.drop_last(), y)
    }
}

/// The counts after one more song of year `y`.
pub open spec fn year_added(s: Seq<(i32, usize)>, y: i32) -> Seq<(i32, usize)> {
    let p = year_pos(s, y as int);
    if p < s.len() && s[p].0 == y {
        s.update(p, (y, (s[p].1 + 1) as usize))
    } else {
        s.insert(p, (y, 1usize))
    }
}

/// The largest count (0 where there is none).
pub open spec fn max_count(s: Seq<(i32, usize)>) -> nat
    decreases s.len(),
{
    if s.len() == 0 {
        0
    } else {
        let m = max_count(s.drop_last());
        if s.last().1 > m { s.last().1 as nat } else { m }
    }
}

/// `y / 10`, rounded towards zero as Rust's division does.
pub open spec fn decade_of(y: int) -> int {
    if y >= 0 { y / 10 } else { -((-y) / 10) }
}

pub open spec fn spaces(n: nat) -> Seq<char> {
    Seq::new(n, |i: int| ' ')
}

/// The songs of the `k` years from `start` on.
pub open spec fn years_total(s: Seq<(i32, usize)>, start: int, k: nat) -> nat
    decreases k,
{
    if k == 0 {
        0
    } else {
        years_total(s, start, (k - 1) as nat) + count_in(s, start + k - 1)
    }
}

/// `, <year>: <count>`, the count right-aligned to `width`, and grey where
/// it is 0.
pub open spec fn year_cell(s: Seq<(i32, usize)>, y: int, width: nat) -> Seq<char> {
    let c = count_in(s, y);
    let digits = decimal(c);
    ", "@ + (if c == 0 { "\x1b[90m"@ } else { Seq::<char>::empty() }) + int_decimal(y) + ": "@ + spaces(
        (width - digits.len()) as nat,
    ) + digits + (if c == 0 { "\x1b[0m"@ } else { Seq::<char>::empty() })
}

pub open spec fn year_cells(s: Seq<(i32, usize)>, start: int, k: nat, width: nat) -> Seq<char>
    decreases k,
{
    if k == 0 {
        Seq::empty()
    } else {
        year_cells(s, start, (k - 1) as nat, width) + year_cell(s, start + k - 1, width)
    }
}

/// `<start>-<start + 9> | ∑: <total>` and a cell for each year of the
/// decade `i`, the total right-aligned to one more than `width`.
pub open spec fn decade_line(s: Seq<(i32, usize)>, i: int, width: nat) -> Seq<char> {
    let start = 10 * i;
    let total = decimal(years_total(s, start, 10));
    int_decimal(start) + "-"@ + int_decimal(start + 9) + " | ∑: "@ + spaces((width + 1 - total.len()) as nat)
        + total + year_cells(s, start, 10, width)
}

pub open spec fn decade_lines(s: Seq<(i32, usize)>, first: int, n: nat, width: nat) -> Seq<Seq<char>>
    decreases n,
{
    if n == 0 {
        Seq::empty()
    } else {
        decade_lines(s, first, (n - 1) as nat, width).push(decade_line(s, first + n - 1, width))
    }
}

/// The year table: a line per decade from the first year's to the last
/// year's, the counts right-aligned to the width of the largest.
pub open spec fn year_table(s: Seq<(i32, usize)>) -> Seq<Seq<char>> {
    if s.len() == 0 {
        Seq::empty()
    } else {
        let lo = decade_of(s[0].0 as int);
        let hi = decade_of(s.last().0 as int);
        decade_lines(s, lo, (hi - lo + 1) as nat, decimal(max_count(s)).len())
    }
}

proof fn lemma_year_pos(s: Seq<(i32, usize)>, y: int, p: int)
    requires
        years_sorted(s),
        0 <= p <= s.len(),
        forall|k: int| 0 <= k < p ==> s[k].0 < y,
        p < s.len() ==> s[p].0 >= y,
    ensures
        year_pos(s, y) == p,
    decreases s.len(),
{
    if s.len() > 0 {
        if p < s.len() {
            assert(s.last().0 >= y) by {
                if p < s.len() - 1 {
                    assert(s[p].0 < s[s.len() - 1].0);
                }
            }
            lemma_year_pos(s.drop_last(), y, p);
        }
    }
}

proof fn lemma_count_at(s: Seq<(i32, usize)>, p: int)
    requires
        years_sorted(s),
        0 <= p < s.len(),
    ensures
        count_in(s, s[p].0 as int) == s[p].1,
    decreases s.len(),
{
    if p < s.len() - 1 {
        assert(s[p].0 < s.last().0);
        lemma_count_at(s.drop_last(), p);
    }
}

proof fn lemma_count_absent(s: Seq<(i32, usize)>, y: int)
    requires
        forall|k: int| 0 <= k < s.len() ==> s[k].0 != y,
    ensures
        count_in(s, y) == 0,
    decreases s.len(),
{
    if s.len() > 0 {
        lemma_count_absent(s.drop_last(), y);
    }
}

/// Counting a song of year `y` keeps the years in order and each year
/// once, raises the count of `y` by one and leaves every other count as it
/// was.
pub proof fn lemma_year_added_counts(s: Seq<(i32, usize)>, y: i32, z: int)
    requires
        years_sorted(s),
        count_in(s, y as int) < usize::MAX,
    ensures
        years_sorted(year_added(s, y)),
        count_in(year_added(s, y), z) == count_in(s, z) + (if z == y { 1int } else { 0int }),
{
    let p = year_pos(s, y as int);
    lemma_year_pos_props(s, y as int);
    let t = year_added(s, y);
    if p < s.len() && s[p].0 == y {
        lemma_count_at(s, p);
        assert(years_sorted(t));
        lemma_count_at(t, p);
        if z != y {
            if exists|k: int| 0 <= k < s.len() && s[k].0 == z {
                let k = choose|k: int| 0 <= k < s.len() && s[k].0 == z;
                lemma_count_at(s, k);
                lemma_count_at(t, k);
            } else {
                lemma_count_absent(s, z);
                assert forall|k: int| 0 <= k < t.len() implies t[k].0 != z by {
                    if k != p {
                        assert(t[k] == s[k]);
                    }
                }
                lemma_count_absent(t, z);
            }
        }
    } else {
        assert forall|i: int, j: int| 0 <= i < j < t.len() implies t[i].0 < t[j].0 by {
            if i < p && j > p {
                if p < s.len() {
                    assert(s[i].0 < s[p].0);
                }
            }
        }
        assert forall|k: int| 0 <= k < s.len() implies s[k].0 != y by {
            if k >= p {
                if k > p {
                    assert(s[p].0 < s[k].0);
                }
            }
        }
        lemma_count_absent(s, y as int);
        lemma_count_at(t, p);
        if z != y {
            if exists|k: int| 0 <= k < s.len() && s[k].0 == z {
                let k = choose|k: int| 0 <= k < s.len() && s[k].0 == z;
                lemma_count_at(s, k);
                if k < p {
                    assert(t[k] == s[k]);
                    lemma_count_at(t, k);
                } else {
                    assert(t[k + 1] == s[k]);
                    lemma_count_at(t, k + 1);
                }
            } else {
                lemma_count_absent(s, z);
                assert forall|k: int| 0 <= k < t.len() implies t[k].0 != z by {
                    if k < p {
                        assert(t[k] == s[k]);
                    } else if k > p {
                        assert(t[k] == s[k - 1]);
                    }
                }
                lemma_count_absent(t, z);
            }
        }
    }
}

proof fn lemma_year_pos_props(s: Seq<(i32, usize)>, y: int)
    requires
        years_sorted(s),
    ensures
        0 <= year_pos(s, y) <= s.len(),
        forall|k: int| 0 <= k < year_pos(s, y) ==> s[k].0 < y,
        year_pos(s, y) < s.len() ==> s[year_pos(s, y)].0 >= y,
    decreases s.len(),
{
    if s.len() > 0 {
        lemma_year_pos_props(s.drop_last(), y);
        if s.last().0 < y {
            assert forall|k: int| 0 <= k < s.len() implies s[k].0 < y by {
                if k < s.len() - 1 {
                    assert(s[k].0 < s[s.len() - 1].0);
                }
            }
        } else {
            let p = year_pos(s.drop_last(), y);
            assert forall|k: int| 0 <= k < p implies s[k].0 < y by {
                assert(s.drop_last()[k] == s[k]);
            }
            if p == s.len() - 1 {
                assert(s[p].0 >= y);
            } else {
                assert(s.drop_last()[p] == s[p]);
            }
        }
    }
}

proof fn lemma_sum_push(s: Seq<(i32, usize)>, x: (i32, usize))
    ensures
        counts_sum(s.push(x)) == counts_sum(s) + x.1,
{
    assert(s.push(x).drop_last() =~= s);
}

proof fn lemma_sum_insert(s: Seq<(i32, usize)>, p: int, x: (i32, usize))
    requires
        0 <= p <= s.len(),
    ensures
        counts_sum(s.insert(p, x)) == counts_sum(s) + x.1,
    decreases s.len(),
{
    if p == s.len() {
        assert(s.insert(p, x) =~= s.push(x));
        lemma_sum_push(s, x);
    } else {
        lemma_sum_insert(s.drop_last(), p, x);
        assert(s.insert(p, x) =~= s.drop_last().insert(p, x).push(s.last()));
        lemma_sum_push(s.drop_last().insert(p, x), s.last());
    }
}

proof fn lemma_sum_update(s: Seq<(i32, usize)>, p: int, x: (i32, usize))
    requires
        0 <= p < s.len(),
    ensures
        counts_sum(s.update(p, x)) == counts_sum(s) - s[p].1 + x.1,
    decreases s.len(),
{
    if p == s.len() - 1 {
        assert(s.update(p, x).drop_last() =~= s.drop_last());
    } else {
        lemma_sum_update(s.drop_last(), p, x);
        assert(s.update(p, x).drop_last() =~= s.drop_last().update(p, x));
    }
}

proof fn lemma_entry_le_sum(s: Seq<(i32, usize)>, p: int)
    requires
        0 <= p < s.len(),
    ensures
        s[p].1 <= counts_sum(s),
    decreases s.len(),
{
    if p < s.len() - 1 {
        lemma_entry_le_sum(s.drop_last(), p);
    }
}

impl YearCounts {
    pub open spec fn wf(&self) -> bool {
        years_sorted(self.counts@) && self.total == counts_sum(self.counts@)
    }

    /// No songs counted yet.
    pub fn new() -> (r: YearCounts)
        ensures
            r.wf(),
            r.counts@ == Seq::<(i32, usize)>::empty(),
    {
        YearCounts { counts: Vec::new(), total: 0 }
    }

    /// Counts one more song of year `year`.
    pub fn add(&mut self, year: i32)
        requires
            old(self).wf(),
            old(self).total < usize::MAX,
        ensures
            final(self).wf(),
            final(self).counts@ == year_added(old(self).counts@, year),
            final(self).total == old(self).total + 1,
    {
        let ghost s = self.counts@;
        let mut p: usize = 0;
        while p < self.counts.len() && self.counts[p].0 < year
            invariant
                p <= self.counts@.len(),
                self.counts@ == s,
                forall|k: int| 0 <= k < p ==> s[k].0 < year,
            decreases self.counts.len() - p,
        {
            p = p + 1;
        }
        proof {
            lemma_year_pos(s, year as int, p as int);
        }
        if p < self.counts.len() && self.counts[p].0 == year {
            proof {
                lemma_sum_update(s, p as int, (year, (s[p as int].1 + 1) as usize));
                lemma_entry_le_sum(s, p as int);
            }
            let c = self.counts[p].1;
            self.counts.set(p, (year, c + 1));
        } else {
            proof {
                lemma_sum_insert(s, p as int, (year, 1usize));
            }
            self.counts.insert(p, (year, 1));
            proof {
                let t = self.counts@;
                assert forall|i: int, j: int| 0 <= i < j < t.len() implies t[i].0 < t[j].0 by {
                    if p < s.len() {
                        assert(s[p as int].0 > year);
                    }
                    if i < p && j > p {
                        if p < s.len() {
                            assert(s[i].0 < s[p as int].0 || i == p);
                        }
                    }
                }
            }
        }
        self.total = self.total + 1;
    }
}

proof fn lemma_count_le_max(s: Seq<(i32, usize)>, y: int)
    ensures
        count_in(s, y) <= max_count(s),
    decreases s.len(),
{
    if s.len() > 0 {
        lemma_count_le_max(s.drop_last(), y);
    }
}

proof fn lemma_decimal_mono(a: nat, b: nat)
    requires
        a <= b,
    ensures
        decimal(a).len() <= decimal(b).len(),
    decreases b,
{
    if a >= 10 {
        lemma_decimal_mono(a / 10, b / 10);
    } else if b >= 10 {
        lemma_decimal_len_pos(b / 10);
    }
}

proof fn lemma_decimal_len_pos(n: nat)
    ensures
        decimal(n).len() >= 1,
    decreases n,
{
    if n >= 10 {
        lemma_decimal_len_pos(n / 10);
    }
}

proof fn lemma_decimal_len_bound(n: nat)
    ensures
        decimal(n).len() <= n / 10 + 1,
    decreases n,
{
    if n >= 10 {
        lemma_decimal_len_bound(n / 10);
    }
}

proof fn lemma_decimal_times_ten(m: nat)
    requires
        m >= 1,
    ensures
        decimal(10 * m).len() == decimal(m).len() + 1,
{
    assert((10 * m) / 10 == m);
}

proof fn lemma_years_total_le_max(s: Seq<(i32, usize)>, start: int, k: nat)
    ensures
        years_total(s, start, k) <= k * max_count(s),
    decreases k,
{
    if k > 0 {
        lemma_years_total_le_max(s, start, (k - 1) as nat);
        lemma_count_le_max(s, start + k - 1);
        let m = max_count(s);
        assert(((k - 1) as nat) * m + m == k * m) by (nonlinear_arith)
            requires
                k >= 1,
        ;
    }
}

proof fn lemma_count_drop_last(s: Seq<(i32, usize)>, y: int)
    requires
        years_sorted(s),
        s.len() > 0,
    ensures
        count_in(s, y) == count_in(s.drop_last(), y) + (if s.last().0 == y { s.last().1 as nat } else { 0 }),
{
    if s.last().0 == y {
        lemma_count_absent(s.drop_last(), y);
    }
}

proof fn lemma_years_total_drop_last(s: Seq<(i32, usize)>, start: int, k: nat)
    requires
        years_sorted(s),
        s.len() > 0,
    ensures
        years_total(s, start, k) == years_total(s.drop_last(), start, k) + (if start <= s.last().0 < start + k {
            s.last().1 as nat
        } else {
            0
        }),
    decreases k,
{
    if k > 0 {
        lemma_years_total_drop_last(s, start, (k - 1) as nat);
        lemma_count_drop_last(s, start + k - 1);
    }
}

proof fn lemma_years_total_le_sum(s: Seq<(i32, usize)>, start: int, k: nat)
    requires
        years_sorted(s),
    ensures
        years_total(s, start, k) <= counts_sum(s),
    decreases s.len(),
{
    if s.len() == 0 {
        lemma_years_total_empty(s, start, k);
    } else {
        lemma_years_total_drop_last(s, start, k);
        lemma_years_total_le_sum(s.drop_last(), start, k);
    }
}

proof fn lemma_years_total_empty(s: Seq<(i32, usize)>, start: int, k: nat)
    requires
        s.len() == 0,
    ensures
        years_total(s, start, k) == 0,
    decreases k,
{
    if k > 0 {
        lemma_years_total_empty(s, start, (k - 1) as nat);
    }
}

proof fn lemma_years_total_mono(s: Seq<(i32, usize)>, start: int, j: nat, k: nat)
    requires
        j <= k,
    ensures
        years_total(s, start, j) <= years_total(s, start, k),
    decreases k,
{
    if j < k {
        lemma_years_total_mono(s, start, j, (k - 1) as nat);
    }
}

proof fn lemma_decade_lines_len(s: Seq<(i32, usize)>, first: int, n: nat, width: nat)
    ensures
        decade_lines(s, first, n, width).len() == n,
    decreases n,
{
    if n > 0 {
        lemma_decade_lines_len(s, first, (n - 1) as nat, width);
    }
}

fn count_of(s: &Vec<(i32, usize)>, y: i32) -> (r: usize)
    ensures
        r == count_in(s@, y as int),
{
    let mut i = s.len();
    assert(s@.take(i as int) =~= s@);
    while i > 0
        invariant
            i <= s@.len(),
            count_in(s@, y as int) == count_in(s@.take(i as int), y as int),
        decreases i,
    {
        assert(s@.take(i as int).drop_last() =~= s@.take(i - 1));
        if s[i - 1].0 == y {
            return s[i - 1].1;
        }
        i = i - 1;
    }
    0
}

fn max_of(s: &Vec<(i32, usize)>) -> (r: usize)
    ensures
        r == max_count(s@),
{
    let mut m: usize = 0;
    let mut i: usize = 0;
    while i < s.len()
        invariant
            i <= s@.len(),
            m == max_count(s@.take(i as int)),
        decreases s.len() - i,
    {
        assert(s@.take(i + 1).drop_last() =~= s@.take(i as int));
        if s[i].1 > m {
            m = s[i].1;
        }
        i = i + 1;
    }
    assert(s@.take(s@.len() as int) =~= s@);
    m
}

fn decimal_chars(n: usize) -> (r: Vec<char>)
    ensures
        r@ == decimal(n as nat),
{
    let mut d: Vec<char> = Vec::new();
    push_decimal(&mut d, n as u64);
    d
}

fn push_spaces(out: &mut Vec<char>, n: usize)
    ensures
        final(out)@ == old(out)@ + spaces(n as nat),
{
    let mut k: usize = 0;
    while k < n
        invariant
            k <= n,
            out@ == old(out)@ + spaces(k as nat),
        decreases n - k,
    {
        out.push(' ');
        k = k + 1;
        assert(out@ =~= old(out)@ + spaces(k as nat));
    }
}

fn push_chars(out: &mut Vec<char>, v: &Vec<char>)
    ensures
        final(out)@ == old(out)@ + v@,
{
    let mut k: usize = 0;
    while k < v.len()
        invariant
            k <= v@.len(),
            out@ == old(out)@ + v@.take(k as int),
        decreases v.len() - k,
    {
        out.push(v[k]);
        k = k + 1;
        assert(out@ =~= old(out)@ + v@.take(k as int));
    }
    assert(v@.take(v@.len() as int) =~= v@);
}

fn decade_line_exec(s: &Vec<(i32, usize)>, i: i32, width: usize) -> (r: String)
    requires
        -214748364 <= i <= 214748363,
        years_total(s@, 10 * i, 10) <= usize::MAX,
        decimal(years_total(s@, 10 * i, 10)).len() <= width + 1,
        width < usize::MAX,
        forall|y: int| 10 * i <= y < 10 * i + 10 ==> decimal(#[trigger] count_in(s@, y)).len() <= width,
    ensures
        r@ == decade_line(s@, i as int, width as nat),
{
    let start: i32 = 10 * i;
    let mut total: usize = 0;
    let mut k: i32 = 0;
    while k < 10
        invariant
            0 <= k <= 10,
            start == 10 * i,
            -2147483640 <= start <= 2147483630,
            total == years_total(s@, start as int, k as nat),
            years_total(s@, start as int, 10) <= usize::MAX,
        decreases 10 - k,
    {
        proof {
            lemma_years_total_mono(s@, start as int, (k + 1) as nat, 10);
        }
        let c = count_of(s, start + k);
        total = total + c;
        k = k + 1;
    }
    let mut out: Vec<char> = Vec::new();
    push_i32(&mut out, start);
    out.push('-');
    push_i32(&mut out, start + 9);
    push_str(&mut out, " | ∑: ");
    let digits = decimal_chars(total);
    push_spaces(&mut out, width + 1 - digits.len());
    push_chars(&mut out, &digits);
    let ghost head = out@;
    assert(head =~= int_decimal(start as int) + "-"@ + int_decimal(start + 9) + " | ∑: "@ + spaces(
        (width + 1 - decimal(years_total(s@, 10 * i, 10)).len()) as nat,
    ) + decimal(years_total(s@, start as int, 10))) by {
        reveal_strlit("-");
    }
    let mut k: i32 = 0;
    while k < 10
        invariant
            0 <= k <= 10,
            start == 10 * i,
            -2147483640 <= start <= 2147483630,
            out@ == head + year_cells(s@, start as int, k as nat, width as nat),
            forall|y: int| 10 * i <= y < 10 * i + 10 ==> decimal(#[trigger] count_in(s@, y)).len() <= width,
        decreases 10 - k,
    {
        let y = start + k;
        let ghost before = out@;
        push_str(&mut out, ", ");
        let c = count_of(s, y);
        if c == 0 {
            push_str(&mut out, "\x1b[90m");
        }
        push_i32(&mut out, y);
        push_str(&mut out, ": ");
        let cd = decimal_chars(c);
        assert(decimal(count_in(s@, y as int)).len() <= width);
        push_spaces(&mut out, width - cd.len());
        push_chars(&mut out, &cd);
        if c == 0 {
            push_str(&mut out, "\x1b[0m");
        }
        assert(out@ =~= before + year_cell(s@, y as int, width as nat));
        k = k + 1;
        assert(out@ =~= head + year_cells(s@, start as int, k as nat, width as nat));
    }
    string_of(&out)
}

impl YearCounts {
    /// The year table (see `year_table`), a string per line; the last year
    /// must leave room for the end of its decade in an `i32`.
    pub fn table(&self) -> (r: Vec<String>)
        requires
            self.wf(),
            self.counts@.len() > 0 ==> self.counts@.last().0 < 2147483640,
        ensures
            r@.len() == year_table(self.counts@).len(),
            forall|j: int| 0 <= j < r@.len() ==> #[trigger] r@[j]@ == year_table(self.counts@)[j],
    {
        let mut lines: Vec<String> = Vec::new();
        if self.counts.len() == 0 {
            return lines;
        }
        let ghost s = self.counts@;
        let m = max_of(&self.counts);
        let width = decimal_chars(m).len();
        proof {
            lemma_decimal_len_bound(m as nat);
        }
        let first = self.counts[0].0;
        let last = self.counts[self.counts.len() - 1].0;
        let lo: i32 = if first >= 0 { first / 10 } else { -((-(first as i64)) / 10) as i32 };
        let hi: i32 = if last >= 0 { last / 10 } else { -((-(last as i64)) / 10) as i32 };
        assert(lo == decade_of(s[0].0 as int));
        assert(hi == decade_of(s.last().0 as int));
        assert(s[0].0 <= s.last().0) by {
            if s.len() > 1 {
                assert(s[0].0 < s[s.len() - 1].0);
            }
        }
        let mut i: i32 = lo;
        while i <= hi
            invariant
                lo <= i <= hi + 1,
                -214748364 <= lo,
                hi <= 214748363,
                s == self.counts@,
                years_sorted(s),
                width == decimal(max_count(s)).len(),
                width < usize::MAX,
                counts_sum(s) <= usize::MAX,
                lines@.len() == i - lo,
                forall|j: int| 0 <= j < lines@.len() ==> #[trigger] lines@[j]@ == decade_lines(s, lo as int, (i - lo) as nat, width as nat)[j],
            decreases hi + 1 - i,
        {
            proof {
                let start = 10 * i;
                lemma_years_total_le_sum(s, start as int, 10);
                lemma_years_total_le_max(s, start as int, 10);
                let m = max_count(s);
                lemma_decimal_mono(years_total(s, start as int, 10), 10 * m);
                if m >= 1 {
                    lemma_decimal_times_ten(m);
                } else {
                    lemma_decimal_len_pos(0);
                }
                assert forall|y: int| 10 * i <= y < 10 * i + 10 implies decimal(#[trigger] count_in(s, y)).len() <= width by {
                    lemma_count_le_max(s, y);
                    lemma_decimal_mono(count_in(s, y), m);
                }
                lemma_decimal_len_pos(m);
            }
            let line = decade_line_exec(&self.counts, i, width);
            let ghost n = (i - lo) as nat;
            proof {
                lemma_decade_lines_len(s, lo as int, n, width as nat);
            }
            assert(decade_lines(s, lo as int, n + 1, width as nat) == decade_lines(s, lo as int, n, width as nat).push(
                decade_line(s, lo + n, width as nat),
            ));
            lines.push(line);
            i = i + 1;
        }
        assert(year_table(s) == decade_lines(s, lo as int, (hi - lo + 1) as nat, width as nat));
        proof {
            lemma_decade_lines_len(s, lo as int, (hi - lo + 1) as nat, width as nat);
        }
        lines
    }
}

/// Songs counted by genre, in the order of `str`, each genre once.
pub struct GenreCounts {
    pub counts: Vec<(String, usize)>,
    /// The number of songs counted.
    pub total: usize,
}

pub open spec fn lex_lt(a: Seq<char>, b: Seq<char>) -> bool {
    lex_le(a, b) && a != b
}

pub open spec fn genres_sorted(s: Seq<(String, usize)>) -> bool {
    forall|i: int, j: int| 0 <= i < j < s.len() ==> lex_lt(s[i].0@, s[j].0@)
}

pub open spec fn genres_sum(s: Seq<(String, usize)>) -> nat
    decreases s.len(),
{
    if s.len() == 0 {
        0
    } else {
        genres_sum(s.drop_last()) + s.last().1 as nat
    }
}

/// How many entries are for genres before `g`: where `g`'s entry is or goes.
pub open spec fn genre_pos(s: Seq<(String, usize)>, g: Seq<char>) -> int
    decreases s.len(),
{
    if s.len() == 0 {
        0
    } else if lex_lt(s.last().0@, g) {
        s.len() as int
    } else {
        genre_pos(s.drop_last(), g)
    }
}

/// The counts after one more song of genre `g`.
pub open spec fn genre_added(s: Seq<(String, usize)>, g: String) -> Seq<(String, usize)> {
    let p = genre_pos(s, g@);
    if p < s.len() && s[p].0@ == g@ {
        s.update(p, (s[p].0, (s[p].1 + 1) as usize))
    } else {
        s.insert(p, (g, 1usize))
    }
}

/// A genre's line: `<genre>: <count>`.
pub open spec fn genre_line(e: (String, usize)) -> Seq<char> {
    e.0@ + ": "@ + decimal(e.1 as nat)
}

/// A genre ranks by its count.
impl Ranked for (String, usize) {
    open spec fn rank(&self) -> nat {
        self.1 as nat
    }

    fn rank_exec(&self) -> (r: u64) {
        self.1 as u64
    }
}

proof fn lemma_genre_pos(s: Seq<(String, usize)>, g: Seq<char>, p: int)
    requires
        genres_sorted(s),
        0 <= p <= s.len(),
        forall|k: int| 0 <= k < p ==> lex_lt(#[trigger] s[k].0@, g),
        p < s.len() ==> !lex_lt(s[p].0@, g),
    ensures
        genre_pos(s, g) == p,
    decreases s.len(),
{
    if s.len() > 0 && p < s.len() {
        if p < s.len() - 1 {
            let a = s[p].0@;
            let b = s.last().0@;
            assert(lex_lt(a, b));
            if lex_lt(b, g) {
                lemma_lex_le_trans(a, b, g);
                if a == g {
                    lemma_lex_le_antisym(a, b);
                }
            }
        }
        lemma_genre_pos(s.drop_last(), g, p);
    }
}

proof fn lemma_genres_sum_insert(s: Seq<(String, usize)>, p: int, x: (String, usize))
    requires
        0 <= p <= s.len(),
    ensures
        genres_sum(s.insert(p, x)) == genres_sum(s) + x.1,
    decreases s.len(),
{
    if p == s.len() {
        assert(s.insert(p, x).drop_last() =~= s);
    } else {
        lemma_genres_sum_insert(s.drop_last(), p, x);
        assert(s.insert(p, x).drop_last() =~= s.drop_last().insert(p, x));
    }
}

proof fn lemma_genres_sum_update(s: Seq<(String, usize)>, p: int, x: (String, usize))
    requires
        0 <= p < s.len(),
    ensures
        genres_sum(s.update(p, x)) == genres_sum(s) - s[p].1 + x.1,
        s[p].1 <= genres_sum(s),
    decreases s.len(),
{
    if p == s.len() - 1 {
        assert(s.update(p, x).drop_last() =~= s.drop_last());
    } else {
        lemma_genres_sum_update(s.drop_last(), p, x);
        assert(s.update(p, x).drop_last() =~= s.drop_last().update(p, x));
    }
}

/// The number of songs of genre `g` (0 where it has no entry).
pub open spec fn genre_count(s: Seq<(String, usize)>, g: Seq<char>) -> nat
    decreases s.len(),
{
    if s.len() == 0 {
        0
    } else if s.last().0@ == g {
        s.last().1 as nat
    } else {
        genre_count(s.drop_last(), g)
    }
}

proof fn lemma_genre_count_at(s: Seq<(String, usize)>, p: int)
    requires
        genres_sorted(s),
        0 <= p < s.len(),
    ensures
        genre_count(s, s[p].0@) == s[p].1,
    decreases s.len(),
{
    if p < s.len() - 1 {
        assert(lex_lt(s[p].0@, s.last().0@));
        lemma_genre_count_at(s.drop_last(), p);
    }
}

proof fn lemma_genre_count_absent(s: Seq<(String, usize)>, g: Seq<char>)
    requires
        forall|k: int| 0 <= k < s.len() ==> s[k].0@ != g,
    ensures
        genre_count(s, g) == 0,
    decreases s.len(),
{
    if s.len() > 0 {
        lemma_genre_count_absent(s.drop_last(), g);
    }
}

proof fn lemma_genre_pos_props(s: Seq<(String, usize)>, g: Seq<char>)
    requires
        genres_sorted(s),
    ensures
        0 <= genre_pos(s, g) <= s.len(),
        forall|k: int| 0 <= k < genre_pos(s, g) ==> lex_lt(#[trigger] s[k].0@, g),
        genre_pos(s, g) < s.len() ==> !lex_lt(s[genre_pos(s, g)].0@, g),
    decreases s.len(),
{
    if s.len() > 0 {
        lemma_genre_pos_props(s.drop_last(), g);
        if lex_lt(s.last().0@, g) {
            assert forall|k: int| 0 <= k < s.len() implies lex_lt(#[trigger] s[k].0@, g) by {
                if k < s.len() - 1 {
                    let a = s[k].0@;
                    let b = s.last().0@;
                    assert(lex_lt(a, b));
                    lemma_lex_le_trans(a, b, g);
                    if a == g {
                        lemma_lex_le_antisym(a, b);
                    }
                }
            }
        } else {
            let p = genre_pos(s.drop_last(), g);
            assert forall|k: int| 0 <= k < p implies lex_lt(#[trigger] s[k].0@, g) by {
                assert(s.drop_last()[k] == s[k]);
            }
            if p < s.len() - 1 {
                assert(s.drop_last()[p] == s[p]);
            }
        }
    }
}

/// Counting a song of genre `g` keeps the genres in order and each genre
/// once, raises the count of `g` by one and leaves every other count as it
/// was.
pub proof fn lemma_genre_added_counts(s: Seq<(String, usize)>, g: String, z: Seq<char>)
    requires
        genres_sorted(s),
        genre_count(s, g@) < usize::MAX,
    ensures
        genres_sorted(genre_added(s, g)),
        genre_count(genre_added(s, g), z) == genre_count(s, z) + (if z == g@ { 1int } else { 0int }),
{
    let p = genre_pos(s, g@);
    lemma_genre_pos_props(s, g@);
    let t = genre_added(s, g);
    if p < s.len() && s[p].0@ == g@ {
        lemma_genre_count_at(s, p);
        assert forall|i: int, j: int| 0 <= i < j < t.len() implies lex_lt(t[i].0@, t[j].0@) by {
            assert(t[i].0@ == s[i].0@);
            assert(t[j].0@ == s[j].0@);
        }
        lemma_genre_count_at(t, p);
        if z != g@ {
            if exists|k: int| 0 <= k < s.len() && s[k].0@ == z {
                let k = choose|k: int| 0 <= k < s.len() && s[k].0@ == z;
                lemma_genre_count_at(s, k);
                lemma_genre_count_at(t, k);
            } else {
                lemma_genre_count_absent(s, z);
                assert forall|k: int| 0 <= k < t.len() implies t[k].0@ != z by {
                    if k != p {
                        assert(t[k] == s[k]);
                    }
                }
                lemma_genre_count_absent(t, z);
            }
        }
    } else {
        let gv = g@;
        assert forall|k: int| 0 <= k < s.len() implies s[k].0@ != gv by {
            if k > p {
                let a = s[p].0@;
                assert(lex_lt(a, s[k].0@));
                if s[k].0@ == gv {
                    assert(!lex_lt(a, gv));
                }
            }
        }
        assert forall|i: int, j: int| 0 <= i < j < t.len() implies lex_lt(t[i].0@, t[j].0@) by {
            if p < s.len() {
                let a = s[p].0@;
                lemma_lex_le_total(a, gv);
                assert(lex_lt(gv, a));
                if i <= p && j > p {
                    let b = t[j].0@;
                    if j > p + 1 {
                        assert(lex_lt(a, b));
                        lemma_lex_le_trans(gv, a, b);
                        if gv == b {
                            lemma_lex_le_antisym(a, gv);
                        }
                    }
                    if i < p {
                        lemma_lex_le_trans(t[i].0@, gv, b);
                        if t[i].0@ == b {
                            lemma_lex_le_antisym(gv, b);
                        }
                    }
                }
            }
        }
        lemma_genre_count_absent(s, gv);
        lemma_genre_count_at(t, p);
        if z != gv {
            if exists|k: int| 0 <= k < s.len() && s[k].0@ == z {
                let k = choose|k: int| 0 <= k < s.len() && s[k].0@ == z;
                lemma_genre_count_at(s, k);
                if k < p {
                    assert(t[k] == s[k]);
                    lemma_genre_count_at(t, k);
                } else {
                    assert(t[k + 1] == s[k]);
                    lemma_genre_count_at(t, k + 1);
                }
            } else {
                lemma_genre_count_absent(s, z);
                assert forall|k: int| 0 <= k < t.len() implies t[k].0@ != z by {
                    if k < p {
                        assert(t[k] == s[k]);
                    } else if k > p {
                        assert(t[k] == s[k - 1]);
                    }
                }
                lemma_genre_count_absent(t, z);
            }
        }
    }
}

impl GenreCounts {
    pub open spec fn wf(&self) -> bool {
        genres_sorted(self.counts@) && self.total == genres_sum(self.counts@)
    }

    /// No songs counted yet.
    pub fn new() -> (r: GenreCounts)
        ensures
            r.wf(),
            r.counts@ == Seq::<(String, usize)>::empty(),
    {
        GenreCounts { counts: Vec::new(), total: 0 }
    }

    /// Counts one more song of genre `genre`.
    pub fn add(&mut self, genre: String)
        requires
            old(self).wf(),
            old(self).total < usize::MAX,
        ensures
            final(self).wf(),
            final(self).counts@ == genre_added(old(self).counts@, genre),
            final(self).total == old(self).total + 1,
    {
        let ghost s = self.counts@;
        let ghost g = genre@;
        let mut p: usize = 0;
        while p < self.counts.len() && str_le(self.counts[p].0.as_str(), genre.as_str()) && !str_eq(
            self.counts[p].0.as_str(),
            genre.as_str(),
        )
            invariant
                p <= self.counts@.len(),
                self.counts@ == s,
                g == genre@,
                forall|k: int| 0 <= k < p ==> lex_lt(#[trigger] s[k].0@, g),
            decreases self.counts.len() - p,
        {
            p = p + 1;
        }
        proof {
            lemma_genre_pos(s, g, p as int);
        }
        if p < self.counts.len() && str_eq(self.counts[p].0.as_str(), genre.as_str()) {
            proof {
                lemma_genres_sum_update(s, p as int, (s[p as int].0, (s[p as int].1 + 1) as usize));
            }
            let c = self.counts[p].1;
            let name = self.counts[p].0.clone();
            self.counts.set(p, (name, c + 1));
            proof {
                assert(self.counts@ =~= s.update(p as int, (s[p as int].0, (s[p as int].1 + 1) as usize)));
            }
        } else {
            proof {
                lemma_genres_sum_insert(s, p as int, (genre, 1usize));
            }
            self.counts.insert(p, (genre, 1));
            proof {
                let t = self.counts@;
                assert forall|i: int, j: int| 0 <= i < j < t.len() implies lex_lt(t[i].0@, t[j].0@) by {
                    if p < s.len() {
                        let a = s[p as int].0@;
                        lemma_lex_le_total(a, g);
                        assert(lex_lt(g, a));
                        if i <= p && j > p {
                            let b = t[j].0@;
                            if j > p + 1 {
                                assert(lex_lt(a, b));
                                lemma_lex_le_trans(g, a, b);
                                if g == b {
                                    lemma_lex_le_antisym(a, g);
                                }
                            }
                            if i < p {
                                lemma_lex_le_trans(t[i].0@, g, b);
                                if t[i].0@ == b {
                                    lemma_lex_le_antisym(g, b);
                                }
                            }
                        }
                    }
                }
            }
        }
        self.total = self.total + 1;
    }

    /// The genre lines: `<genre>: <count>`, the genres with more songs
    /// first, those with as many in the order of `str`.
    pub fn lines(&self) -> (r: Vec<String>)
        ensures
            r@.len() == self.counts@.len(),
            forall|j: int| 0 <= j < r@.len() ==> #[trigger] r@[j]@ == genre_line(rank_sort(self.counts@)[j]),
    {
        let ghost s = self.counts@;
        let mut sorted: Vec<(String, usize)> = Vec::new();
        let mut k: usize = 0;
        while k < self.counts.len()
            invariant
                k <= s.len(),
                s == self.counts@,
                sorted@ == rank_sort(s.take(k as int)),
            decreases self.counts.len() - k,
        {
            let e = (self.counts[k].0.clone(), self.counts[k].1);
            assert(s.take(k + 1).drop_last() =~= s.take(k as int));
            insert_ranked(&mut sorted, e);
            k = k + 1;
        }
        assert(s.take(s.len() as int) =~= s);
        let mut lines: Vec<String> = Vec::new();
        let mut j: usize = 0;
        while j < sorted.len()
            invariant
                j <= sorted@.len(),
                sorted@ == rank_sort(s),
                lines@.len() == j,
                forall|i: int| 0 <= i < j ==> #[trigger] lines@[i]@ == genre_line(sorted@[i]),
            decreases sorted.len() - j,
        {
            let mut out = chars_of(sorted[j].0.as_str());
            push_str(&mut out, ": ");
            push_decimal(&mut out, sorted[j].1 as u64);
            lines.push(string_of(&out));
            j = j + 1;
        }
        proof {
            crate::ranking::lemma_rank_sort_permutes(s);
            vstd::seq_lib::to_multiset_len(s);
            vstd::seq_lib::to_multiset_len(rank_sort(s));
        }
        lines
    }
}

} // verus!

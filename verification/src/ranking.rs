//! Ordering entries by score, highest first, keeping the order of entries
//! with equal scores (a stable sort, done by insertion).
use vstd::prelude::*;

verus! {

/// An entry with a score.
pub trait Ranked {
    spec fn rank(&self) -> nat;

    fn rank_exec(&self) -> (r: u64)
        ensures
            r as nat == self.rank(),
    ;
}

/// A song (or other entry) id with its score.
impl Ranked for (u64, u32) {
    open spec fn rank(&self) -> nat {
        self.1 as nat
    }

    fn rank_exec(&self) -> (r: u64) {
        self.1 as u64
    }
}

/// The first position at or after `i` whose entry ranks below `r`, or the
/// length when there is none.
pub open spec fn first_below<T: Ranked>(s: Seq<T>, r: nat, i: int) -> int
    decreases s.len() - i,
{
    if i >= s.len() {
        s.len() as int
    } else if s[i].rank() < r {
        i
    } else {
        first_below(s, r, i + 1)
    }
}

/// Inserts an entry after every entry that ranks at least as high.
pub open spec fn rank_insert<T: Ranked>(s: Seq<T>, x: T) -> Seq<T> {
    s.insert(first_below(s, x.rank(), 0), x)
}

/// The entries ordered by rank, highest first, equal ranks in their order.
pub open spec fn rank_sort<T: Ranked>(s: Seq<T>) -> Seq<T>
    decreases s.len(),
{
    if s.len() == 0 {
        s
    } else {
        rank_insert(rank_sort(s.drop_last()), s.last())
    }
}

/// The highest rank among the entries, 0 when there is none.
pub open spec fn max_rank<T: Ranked>(s: Seq<T>) -> nat
    decreases s.len(),
{
    if s.len() == 0 {
        0
    } else {
        let m = max_rank(s.drop_last());
        if s.last().rank() > m { s.last().rank() } else { m }
    }
}

/// The position that `first_below` finds lies between `i` and the length.
pub proof fn lemma_first_below_bounds<T: Ranked>(s: Seq<T>, r: nat, i: int)
    requires
        0 <= i <= s.len(),
    ensures
        i <= first_below(s, r, i) <= s.len(),
    decreases s.len() - i,
{
    if i < s.len() && s[i].rank() >= r {
        lemma_first_below_bounds(s, r, i + 1);
    }
}

/// Inserts `x` after every entry of `v` that ranks at least as high.
pub fn insert_ranked<T: Ranked>(v: &mut Vec<T>, x: T)
    ensures
        final(v)@ == rank_insert(old(v)@, x),
{
    let r = x.rank_exec();
    let mut i: usize = 0;
    while i < v.len() && v[i].rank_exec() >= r
        invariant
            i <= v@.len(),
            v@ == old(v)@,
            first_below(v@, r as nat, 0) == first_below(v@, r as nat, i as int),
        decreases v.len() - i,
    {
        i = i + 1;
    }
    proof {
        lemma_first_below_bounds(v@, r as nat, 0);
    }
    v.insert(i, x);
}

proof fn lemma_first_below_map<A: Ranked, B: Ranked>(s: Seq<A>, f: spec_fn(A) -> B, r: nat, i: int)
    requires
        0 <= i <= s.len(),
        forall|a: A| #[trigger] f(a).rank() == a.rank(),
    ensures
        first_below(s.map_values(f), r, i) == first_below(s, r, i),
    decreases s.len() - i,
{
    if i < s.len() {
        assert(s.map_values(f)[i] == f(s[i]));
        lemma_first_below_map(s, f, r, i + 1);
    }
}

/// Inserting by rank commutes with a map that keeps ranks.
pub proof fn lemma_rank_insert_map<A: Ranked, B: Ranked>(s: Seq<A>, x: A, f: spec_fn(A) -> B)
    requires
        forall|a: A| #[trigger] f(a).rank() == a.rank(),
    ensures
        rank_insert(s, x).map_values(f) == rank_insert(s.map_values(f), f(x)),
{
    lemma_first_below_map(s, f, x.rank(), 0);
    lemma_first_below_bounds(s, x.rank(), 0);
    assert(f(x).rank() == x.rank());
    assert(rank_insert(s, x).map_values(f) =~= rank_insert(s.map_values(f), f(x)));
}

/// Entries are in order of rank, highest first.
pub open spec fn rank_sorted<T: Ranked>(s: Seq<T>) -> bool {
    forall|i: int, j: int| 0 <= i < j < s.len() ==> #[trigger] s[i].rank() >= #[trigger] s[j].rank()
}

proof fn lemma_first_below_props<T: Ranked>(s: Seq<T>, r: nat, i: int)
    requires
        0 <= i <= s.len(),
    ensures
        forall|q: int| i <= q < first_below(s, r, i) ==> #[trigger] s[q].rank() >= r,
        first_below(s, r, i) < s.len() ==> s[first_below(s, r, i)].rank() < r,
    decreases s.len() - i,
{
    if i < s.len() && s[i].rank() >= r {
        lemma_first_below_props(s, r, i + 1);
    }
}

/// Ordering by rank gives the highest ranks first, whatever the input.
pub proof fn lemma_rank_sort_sorted<T: Ranked>(s: Seq<T>)
    ensures
        rank_sorted(rank_sort(s)),
    decreases s.len(),
{
    if s.len() > 0 {
        let t = rank_sort(s.drop_last());
        let x = s.last();
        lemma_rank_sort_sorted(s.drop_last());
        lemma_first_below_bounds(t, x.rank(), 0);
        lemma_first_below_props(t, x.rank(), 0);
        let p = first_below(t, x.rank(), 0);
        let u = t.insert(p, x);
        assert forall|i: int, j: int| 0 <= i < j < u.len() implies #[trigger] u[i].rank() >= #[trigger] u[j].rank() by {
            if j < p {
                assert(u[i] == t[i] && u[j] == t[j]);
            } else if j == p {
                assert(u[i] == t[i] && u[j] == x);
            } else {
                assert(u[j] == t[j - 1]);
                if i < p {
                    assert(u[i] == t[i]);
                } else if i == p {
                    assert(u[i] == x);
                    assert(t[p].rank() >= t[j - 1].rank());
                } else {
                    assert(u[i] == t[i - 1]);
                }
            }
        }
    }
}

/// Ordering by rank keeps every entry, as often as it occurs.
pub proof fn lemma_rank_sort_permutes<T: Ranked>(s: Seq<T>)
    ensures
        rank_sort(s).to_multiset() == s.to_multiset(),
    decreases s.len(),
{
    if s.len() > 0 {
        let t = rank_sort(s.drop_last());
        let x = s.last();
        lemma_rank_sort_permutes(s.drop_last());
        lemma_first_below_bounds(t, x.rank(), 0);
        vstd::seq_lib::to_multiset_insert(t, first_below(t, x.rank(), 0), x);
        vstd::seq_lib::to_multiset_insert(s.drop_last(), s.len() - 1, x);
        assert(s.drop_last().insert(s.len() - 1, x) =~= s);
    }
}

/// Whether an entry has rank `r`.
pub open spec fn rank_is<T: Ranked>(r: nat) -> spec_fn(T) -> bool {
    |x: T| x.rank() == r
}

/// Ordering by rank is stable: the entries of any one rank come out in the
/// order they went in.
pub proof fn lemma_rank_sort_stable<T: Ranked>(s: Seq<T>, r: nat)
    ensures
        rank_sort(s).filter(rank_is::<T>(r)) == s.filter(rank_is::<T>(r)),
    decreases s.len(),
{
    let f = rank_is::<T>(r);
    reveal(Seq::filter);
    if s.len() > 0 {
        let t = rank_sort(s.drop_last());
        let x = s.last();
        lemma_rank_sort_stable(s.drop_last(), r);
        lemma_rank_sort_sorted(s.drop_last());
        lemma_first_below_bounds(t, x.rank(), 0);
        lemma_first_below_props(t, x.rank(), 0);
        let p = first_below(t, x.rank(), 0);
        let a = t.take(p);
        let b = t.skip(p);
        assert(t =~= a + b);
        assert(t.insert(p, x) =~= a + (seq![x] + b));
        Seq::filter_distributes_over_add(a, b, f);
        Seq::filter_distributes_over_add(seq![x], b, f);
        Seq::filter_distributes_over_add(a, seq![x] + b, f);
        assert(seq![x].drop_last() =~= Seq::<T>::empty());
        assert(s.drop_last().push(x) =~= s);
        if x.rank() == r {
            assert(b.all(|y: T| !f(y))) by {
                assert forall|q: int| 0 <= q < b.len() implies !f(#[trigger] b[q]) by {
                    assert(b[q] == t[p + q]);
                    if q > 0 {
                        assert(t[p].rank() >= t[p + q].rank());
                    }
                }
            }
            b.lemma_all_neg_filter_empty(f);
            assert(b.filter(f) =~= Seq::<T>::empty());
            assert(t.insert(p, x).filter(f) =~= a.filter(f).push(x));
            assert(t.filter(f) =~= a.filter(f));
        } else {
            assert(!f(x));
            assert(Seq::<T>::empty().filter(f) =~= Seq::<T>::empty());
            assert(seq![x].filter(f) =~= Seq::<T>::empty());
            assert(t.insert(p, x).filter(f) =~= a.filter(f) + b.filter(f));
        }
    }
}

/// Ordering by rank keeps exactly the entries it is given.
pub proof fn lemma_rank_sort_contains<T: Ranked>(s: Seq<T>, x: T)
    ensures
        rank_sort(s).contains(x) <==> s.contains(x),
{
    lemma_rank_sort_permutes(s);
    vstd::seq_lib::to_multiset_contains(rank_sort(s), x);
    vstd::seq_lib::to_multiset_contains(s, x);
}

} // verus!

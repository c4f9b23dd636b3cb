//! Filters of the library view: conditions on the tags of artists, albums
//! and songs, combined with "and"/"or", nesting and negation.
use vstd::prelude::*;
use crate::numparse::{all_digits, is_digit};
use crate::strings::chars_of;
use crate::textgen::{is_prefix, strings_model};

verus! {

broadcast use vstd::string::group_string_axioms;

/// The data that filters look at: the tags of an artist, album or song.
pub struct GeneralData {
    pub tags: Vec<String>,
}

/// A list of conditions, all of which (`and`) or one of which must hold;
/// an empty list lets everything pass.
#[derive(Debug, PartialEq)]
pub struct Filter {
    pub and: bool,
    pub filters: Vec<FilterType>,
}

#[derive(Debug, PartialEq)]
pub enum FilterType {
    Nested(Filter),
    Not(Filter),
    TagEq(String),
    TagStartsWith(String),
    /// true if the tag is '<String><Integer>' and Integer is between min and max (both inclusive)
    /// note: <String> usually ends with '='.
    TagWithValueInt(String, i32, i32),
}

/// The value of a sequence of decimal digits.
pub open spec fn digits_value(d: Seq<char>) -> nat
    decreases d.len(),
{
    if d.len() == 0 {
        0
    } else {
        digits_value(d.drop_last()) * 10 + (d.last() as int - '0' as int) as nat
    }
}

/// What `i32::from_str` returns: an optional `+` or `-`, then one or more
/// digits, with the value in the range of `i32`.
pub open spec fn parse_i32(s: Seq<char>) -> Option<int> {
    let neg = s.len() > 0 && s[0] == '-';
    let d = if s.len() > 0 && (s[0] == '-' || s[0] == '+') { s.skip(1) } else { s };
    if d.len() > 0 && all_digits(d) {
        let v = if neg { -(digits_value(d) as int) } else { digits_value(d) as int };
        if i32::MIN <= v <= i32::MAX { Some(v) } else { None }
    } else {
        None
    }
}

proof fn lemma_digits_value_mono(d: Seq<char>, k: int)
    requires
        0 <= k <= d.len(),
        all_digits(d),
    ensures
        digits_value(d.take(k)) <= digits_value(d),
    decreases d.len() - k,
{
    if k < d.len() {
        lemma_digits_value_mono(d, k + 1);
        let t = d.take(k + 1);
        assert(t.drop_last() =~= d.take(k));
        assert(is_digit(d[k]));
    } else {
        assert(d.take(k) =~= d);
    }
}

/// Reads a decimal `i32` as `str::parse::<i32>` does.
pub fn parse_i32_exec(s: &Vec<char>) -> (r: Option<i32>)
    ensures
        match parse_i32(s@) {
            Some(v) => r == Some(v as i32),
            None => r is None,
        },
{
    let n = s.len();
    let neg = n > 0 && s[0] == '-';
    let start: usize = if n > 0 && (s[0] == '-' || s[0] == '+') { 1 } else { 0 };
    let ghost d = if s@.len() > 0 && (s@[0] == '-' || s@[0] == '+') { s@.skip(1) } else { s@ };
    assert(d =~= s@.skip(start as int));
    if start >= n {
        assert(d.len() == 0);
        return None;
    }
    let mut acc: u64 = 0;
    let mut i = start;
    while i < n
        invariant
            start <= i <= n,
            n == s@.len(),
            d == s@.skip(start as int),
            d == (if s@.len() > 0 && (s@[0] == '-' || s@[0] == '+') { s@.skip(1) } else { s@ }),
            neg == (s@.len() > 0 && s@[0] == '-'),
            forall|k: int| start <= k < i ==> is_digit(#[trigger] s@[k]),
            acc as nat == digits_value(d.take(i - start)),
            acc <= 2147483648,
        decreases n - i,
    {
        let c = s[i];
        if !('0' <= c && c <= '9') {
            assert(!all_digits(d)) by {
                assert(d[i - start] == c);
            }
            return None;
        }
        let dv = (c as u64) - ('0' as u64);
        proof {
            let t = d.take(i + 1 - start);
            assert(t.drop_last() =~= d.take(i - start));
            assert(t.last() == c);
        }
        let next = acc * 10 + dv;
        if next > 2147483648 {
            // Every further digit only makes the value larger.
            proof {
                if all_digits(d) {
                    lemma_digits_value_mono(d, i + 1 - start);
                }
            }
            return None;
        }
        acc = next;
        i = i + 1;
    }
    assert(d.take(n - start) =~= d);
    assert(all_digits(d)) by {
        assert forall|k: int| 0 <= k < d.len() implies is_digit(#[trigger] d[k]) by {
            assert(d[k] == s@[k + start]);
        }
    }
    if neg {
        if acc == 2147483648 {
            Some(i32::MIN)
        } else {
            Some(-(acc as i32))
        }
    } else {
        if acc > 2147483647 {
            None
        } else {
            Some(acc as i32)
        }
    }
}

/// Whether some tag satisfies the condition.
pub open spec fn any_tag_eq(tags: Seq<Seq<char>>, v: Seq<char>) -> bool {
    exists|i: int| 0 <= i < tags.len() && #[trigger] tags[i] == v
}

pub open spec fn any_tag_prefix(tags: Seq<Seq<char>>, v: Seq<char>) -> bool {
    exists|i: int| 0 <= i < tags.len() && is_prefix(v, #[trigger] tags[i])
}

/// `t` is `v` followed by an `i32` between `min` and `max`.
pub open spec fn tag_value_in(t: Seq<char>, v: Seq<char>, min: i32, max: i32) -> bool {
    is_prefix(v, t) && match parse_i32(t.skip(v.len() as int)) {
        Some(x) => min <= x <= max,
        None => false,
    }
}

pub open spec fn any_tag_value_in(tags: Seq<Seq<char>>, v: Seq<char>, min: i32, max: i32) -> bool {
    exists|i: int| 0 <= i < tags.len() && tag_value_in(#[trigger] tags[i], v, min, max)
}

/// Whether data with these tags passes the filter.
pub open spec fn filter_passes(f: Filter, tags: Seq<Seq<char>>) -> bool
    decreases f,
{
    if f.filters@.len() == 0 {
        true
    } else if f.and {
        all_pass(f.filters@, tags)
    } else {
        any_pass(f.filters@, tags)
    }
}

pub open spec fn all_pass(fs: Seq<FilterType>, tags: Seq<Seq<char>>) -> bool
    decreases fs,
{
    if fs.len() == 0 {
        true
    } else {
        all_pass(fs.drop_last(), tags) && type_passes(fs.last(), tags)
    }
}

pub open spec fn any_pass(fs: Seq<FilterType>, tags: Seq<Seq<char>>) -> bool
    decreases fs,
{
    if fs.len() == 0 {
        false
    } else {
        any_pass(fs.drop_last(), tags) || type_passes(fs.last(), tags)
    }
}

/// Whether data with these tags passes one condition.
pub open spec fn type_passes(t: FilterType, tags: Seq<Seq<char>>) -> bool
    decreases t,
{
    match t {
        FilterType::Nested(f) => filter_passes(f, tags),
        FilterType::Not(f) => !filter_passes(f, tags),
        FilterType::TagEq(v) => any_tag_eq(tags, v@),
        FilterType::TagStartsWith(v) => any_tag_prefix(tags, v@),
        FilterType::TagWithValueInt(v, min, max) => any_tag_value_in(tags, v@, min, max),
    }
}

fn any_eq_exec(tags: &Vec<String>, v: &String) -> (r: bool)
    ensures
        r == any_tag_eq(strings_model(tags@), v@),
{
    let ghost m = strings_model(tags@);
    let mut i: usize = 0;
    while i < tags.len()
        invariant
            i <= tags@.len(),
            m == strings_model(tags@),
            forall|k: int| 0 <= k < i ==> m[k] != v@,
        decreases tags.len() - i,
    {
        if tags[i] == *v {
            assert(m[i as int] == v@);
            return true;
        }
        assert(m[i as int] == tags@[i as int]@);
        i = i + 1;
    }
    false
}

fn prefix_exec(t: &Vec<char>, p: &Vec<char>) -> (r: bool)
    ensures
        r == is_prefix(p@, t@),
{
    if p.len() > t.len() {
        return false;
    }
    let mut i: usize = 0;
    while i < p.len()
        invariant
            i <= p@.len() <= t@.len(),
            forall|k: int| 0 <= k < i ==> t@[k] == p@[k],
        decreases p.len() - i,
    {
        if t[i] != p[i] {
            assert(t@.take(p@.len() as int)[i as int] != p@[i as int]);
            return false;
        }
        i = i + 1;
    }
    assert(t@.take(p@.len() as int) =~= p@);
    true
}

fn tail_from(t: &Vec<char>, n: usize) -> (r: Vec<char>)
    requires
        n <= t@.len(),
    ensures
        r@ == t@.skip(n as int),
{
    let mut r: Vec<char> = Vec::new();
    let mut i = n;
    while i < t.len()
        invariant
            n <= i <= t@.len(),
            r@ == t@.subrange(n as int, i as int),
        decreases t.len() - i,
    {
        r.push(t[i]);
        i = i + 1;
        assert(r@ =~= t@.subrange(n as int, i as int));
    }
    r
}

/// Whether some tag starts with `v` (and, with `range`, continues with an
/// `i32` in the range).
fn any_prefix_exec(tags: &Vec<String>, v: &String, range: Option<(i32, i32)>) -> (r: bool)
    ensures
        match range {
            None => r == any_tag_prefix(strings_model(tags@), v@),
            Some((min, max)) => r == any_tag_value_in(strings_model(tags@), v@, min, max),
        },
{
    let ghost m = strings_model(tags@);
    let vc = chars_of(v.as_str());
    let mut i: usize = 0;
    while i < tags.len()
        invariant
            i <= tags@.len(),
            m == strings_model(tags@),
            vc@ == v@,
            forall|k: int| 0 <= k < i ==> match range {
                None => !is_prefix(v@, #[trigger] m[k]),
                Some((min, max)) => !tag_value_in(m[k], v@, min, max),
            },
        decreases tags.len() - i,
    {
        assert(m[i as int] == tags@[i as int]@);
        let t = chars_of(tags[i].as_str());
        if prefix_exec(&t, &vc) {
            match range {
                None => {
                    return true;
                },
                Some((min, max)) => {
                    let rest = tail_from(&t, vc.len());
                    match parse_i32_exec(&rest) {
                        Some(x) => {
                            if min <= x && x <= max {
                                return true;
                            }
                        },
                        None => {},
                    }
                },
            }
        }
        i = i + 1;
    }
    false
}

impl Filter {
    /// Whether the data passes: true for an empty filter, else all
    /// conditions (with `and`) or one of them.
    pub fn passes(&self, gd: &GeneralData) -> (r: bool)
        ensures
            r == filter_passes(*self, strings_model(gd.tags@)),
        decreases *self, 1nat,
    {
        if self.filters.len() == 0 {
            return true;
        }
        let ghost tags = strings_model(gd.tags@);
        let ghost fs = self.filters@;
        let mut i: usize = 0;
        while i < self.filters.len()
            invariant
                i <= fs.len(),
                fs == self.filters@,
                tags == strings_model(gd.tags@),
                self.and ==> all_pass(fs.take(i as int), tags),
                !self.and ==> !any_pass(fs.take(i as int), tags),
            decreases self.filters.len() - i,
        {
            assert(decreases_to!(*self => self.filters@[i as int]));
            let p = self.filters[i].passes(gd);
            assert(fs.take(i + 1).drop_last() =~= fs.take(i as int));
            assert(fs.take(i + 1).last() == fs[i as int]);
            if self.and && !p {
                proof {
                    lemma_all_pass_prefix(fs, tags, i + 1);
                }
                return false;
            }
            if !self.and && p {
                proof {
                    lemma_any_pass_prefix(fs, tags, i + 1);
                }
                return true;
            }
            i = i + 1;
        }
        assert(fs.take(fs.len() as int) =~= fs);
        self.and
    }
}

proof fn lemma_all_pass_prefix(fs: Seq<FilterType>, tags: Seq<Seq<char>>, k: int)
    requires
        0 <= k <= fs.len(),
        !all_pass(fs.take(k), tags),
    ensures
        !all_pass(fs, tags),
    decreases fs.len() - k,
{
    if k < fs.len() {
        assert(fs.take(k + 1).drop_last() =~= fs.take(k));
        lemma_all_pass_prefix(fs, tags, k + 1);
    } else {
        assert(fs.take(k) =~= fs);
    }
}

proof fn lemma_any_pass_prefix(fs: Seq<FilterType>, tags: Seq<Seq<char>>, k: int)
    requires
        0 <= k <= fs.len(),
        any_pass(fs.take(k), tags),
    ensures
        any_pass(fs, tags),
    decreases fs.len() - k,
{
    if k < fs.len() {
        assert(fs.take(k + 1).drop_last() =~= fs.take(k));
        lemma_any_pass_prefix(fs, tags, k + 1);
    } else {
        assert(fs.take(k) =~= fs);
    }
}

impl FilterType {
    /// Whether the data passes this condition.
    pub fn passes(&self, gd: &GeneralData) -> (r: bool)
        ensures
            r == type_passes(*self, strings_model(gd.tags@)),
        decreases *self, 0nat,
    {
        match self {
            FilterType::Nested(f) => f.passes(gd),
            FilterType::Not(f) => !f.passes(gd),
            FilterType::TagEq(v) => any_eq_exec(&gd.tags, v),
            FilterType::TagStartsWith(v) => any_prefix_exec(&gd.tags, v, None),
            FilterType::TagWithValueInt(v, min, max) => any_prefix_exec(&gd.tags, v, Some((*min, *max))),
        }
    }

    /// The filter inside a nested or negated condition.
    pub fn inner_filter(&mut self) -> (r: Option<&mut Filter>)
        ensures
            match *old(self) {
                FilterType::Nested(f) => r matches Some(rf) && *rf == f
                    && *final(self) == FilterType::Nested(*final(rf)),
                FilterType::Not(f) => r matches Some(rf) && *rf == f
                    && *final(self) == FilterType::Not(*final(rf)),
                _ => r is None && *final(self) == *old(self),
            },
    {
        match self {
            FilterType::Nested(f) => Some(f),
            FilterType::Not(f) => Some(f),
            FilterType::TagEq(_) | FilterType::TagStartsWith(_) | FilterType::TagWithValueInt(..) => None,
        }
    }
}

/// The node that `path` leads to from a filter: the empty path leads to the
/// filter itself, `i` followed by a path to where that path leads from the
/// `i`-th condition.
pub open spec fn filter_node_at(f: Filter, path: Seq<usize>) -> Option<Result<FilterType, Filter>>
    decreases f,
{
    if path.len() == 0 {
        Some(Err(f))
    } else if path[0] < f.filters@.len() {
        type_node_at(f.filters@[path[0] as int], path.skip(1))
    } else {
        None
    }
}

/// The node that `path` leads to from a condition: the empty path leads to
/// the condition, another path to where it leads from the inner filter.
pub open spec fn type_node_at(t: FilterType, path: Seq<usize>) -> Option<Result<FilterType, Filter>>
    decreases t,
{
    if path.len() == 0 {
        Some(Ok(t))
    } else {
        match t {
            FilterType::Nested(f) => filter_node_at(f, path),
            FilterType::Not(f) => filter_node_at(f, path),
            _ => None,
        }
    }
}

/// `g` has the same combination and the same conditions as `f`.
pub open spec fn filter_same(f: Filter, g: Filter) -> bool
    decreases f,
{
    &&& g.and == f.and
    &&& g.filters@.len() == f.filters@.len()
    &&& forall|j: int| 0 <= j < f.filters@.len() ==> type_same(f.filters@[j], #[trigger] g.filters@[j])
}

/// `u` is the same condition as `t`.
pub open spec fn type_same(t: FilterType, u: FilterType) -> bool
    decreases t,
{
    match t {
        FilterType::Nested(f) => u matches FilterType::Nested(g) && filter_same(f, g),
        FilterType::Not(f) => u matches FilterType::Not(g) && filter_same(f, g),
        _ => u == t,
    }
}

/// `g` is `f` with the node at `path` replaced by `node`.
pub open spec fn filter_replaced(f: Filter, g: Filter, path: Seq<usize>, node: Result<FilterType, Filter>) -> bool
    decreases f,
{
    if path.len() == 0 {
        node == Result::<FilterType, Filter>::Err(g)
    } else if path[0] < f.filters@.len() {
        let i = path[0] as int;
        &&& g.and == f.and
        &&& g.filters@.len() == f.filters@.len()
        &&& forall|j: int| 0 <= j < f.filters@.len() && j != i ==> g.filters@[j] == f.filters@[j]
        &&& type_replaced(f.filters@[i], g.filters@[i], path.skip(1), node)
    } else {
        filter_same(f, g)
    }
}

/// `u` is `t` with the node at `path` replaced by `node`.
pub open spec fn type_replaced(t: FilterType, u: FilterType, path: Seq<usize>, node: Result<FilterType, Filter>) -> bool
    decreases t,
{
    if path.len() == 0 {
        node == Result::<FilterType, Filter>::Ok(u)
    } else {
        match t {
            FilterType::Nested(f) => u matches FilterType::Nested(g) && filter_replaced(f, g, path, node),
            FilterType::Not(f) => u matches FilterType::Not(g) && filter_replaced(f, g, path, node),
            _ => u == t,
        }
    }
}

proof fn lemma_filter_same_refl(f: Filter)
    ensures
        filter_same(f, f),
    decreases f,
{
    assert forall|j: int| 0 <= j < f.filters@.len() implies type_same(f.filters@[j], #[trigger] f.filters@[j]) by {
        lemma_type_same_refl(f.filters@[j]);
    }
}

proof fn lemma_type_same_refl(t: FilterType)
    ensures
        type_same(t, t),
    decreases t,
{
    match t {
        FilterType::Nested(f) => lemma_filter_same_refl(f),
        FilterType::Not(f) => lemma_filter_same_refl(f),
        _ => {},
    }
}

impl Filter {
    /// The condition or filter at `path`, to be changed in place.
    pub fn get_mut(&mut self, path: &[usize]) -> (r: Option<Result<&mut FilterType, &mut Self>>)
        ensures
            filter_node_at(*old(self), path@) is None ==> r is None && filter_same(*old(self), *final(self)),
            filter_node_at(*old(self), path@) matches Some(Ok(t)) ==> r matches Some(Ok(rt)) && *rt == t
                    && filter_replaced(*old(self), *final(self), path@, Ok(*final(rt))),
            filter_node_at(*old(self), path@) matches Some(Err(g)) ==> r matches Some(Err(rg)) && *rg == g
                    && filter_replaced(*old(self), *final(self), path@, Err(*final(rg))),
        decreases *old(self),
    {
        proof {
            lemma_filter_same_refl(*self);
        }
        if path.len() > 0 {
            let i = path[0];
            let p = crate::numparse::slice_skip(path, 1);
            assert(p@ == path@.skip(1));
            if i < self.filters.len() {
                assert(filter_node_at(*self, path@) == type_node_at(self.filters@[i as int], p@));
                let elem = &mut self.filters[i];
                elem.get_mut(p)
            } else {
                None
            }
        } else {
            Some(Err(self))
        }
    }
}

impl FilterType {
    /// The condition or filter at `path`, to be changed in place.
    pub fn get_mut(&mut self, path: &[usize]) -> (r: Option<Result<&mut Self, &mut Filter>>)
        ensures
            match type_node_at(*old(self), path@) {
                None => r is None && type_same(*old(self), *final(self)),
                Some(Ok(t)) => r matches Some(Ok(rt)) && *rt == t
                    && type_replaced(*old(self), *final(self), path@, Ok(*final(rt))),
                Some(Err(g)) => r matches Some(Err(rg)) && *rg == g
                    && type_replaced(*old(self), *final(self), path@, Err(*final(rg))),
            },
        decreases *old(self),
    {
        if path.is_empty() {
            Some(Ok(self))
        } else {
            if let Some(f) = self.inner_filter() {
                f.get_mut(path)
            } else {
                None
            }
        }
    }
}

} // verus!

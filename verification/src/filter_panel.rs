//! The filter editor of the library view: the rows it shows for a filter,
//! and the changes its buttons and text fields make to the filter.
use vstd::prelude::*;
use crate::filter::{filter_node_at, filter_replaced, filter_same, parse_i32, parse_i32_exec, Filter, FilterType};
use crate::gui_model::{FilterPreset, GuiConfig};
use crate::strings::chars_of;

verus! {

broadcast use vstd::string::group_string_axioms;

/// A row of the filter editor, indented by `depth` steps. `path` leads from
/// the edited filter to the node that the row edits.
pub enum FilterRow {
    /// The AND/OR switch of a filter with more than one condition.
    Joiner { depth: usize, path: Vec<usize>, and: bool },
    /// The label above a negated filter.
    Not { depth: usize },
    TagEq { depth: usize, path: Vec<usize>, value: String },
    TagStartsWith { depth: usize, path: Vec<usize>, value: String },
    TagWithValueInt { depth: usize, path: Vec<usize>, value: String, min: i32, max: i32 },
}

pub enum RowModel {
    Joiner(nat, Seq<usize>, bool),
    Not(nat),
    TagEq(nat, Seq<usize>, Seq<char>),
    TagStartsWith(nat, Seq<usize>, Seq<char>),
    TagWithValueInt(nat, Seq<usize>, Seq<char>, i32, i32),
}

impl View for FilterRow {
    type V = RowModel;

    open spec fn view(&self) -> RowModel {
        match self {
            FilterRow::Joiner { depth, path, and } => RowModel::Joiner(*depth as nat, path@, *and),
            FilterRow::Not { depth } => RowModel::Not(*depth as nat),
            FilterRow::TagEq { depth, path, value } => RowModel::TagEq(*depth as nat, path@, value@),
            FilterRow::TagStartsWith { depth, path, value } => RowModel::TagStartsWith(*depth as nat, path@, value@),
            FilterRow::TagWithValueInt { depth, path, value, min, max } =>
                RowModel::TagWithValueInt(*depth as nat, path@, value@, *min, *max),
        }
    }
}

pub open spec fn rows_model(s: Seq<FilterRow>) -> Seq<RowModel> {
    s.map_values(|r: FilterRow| r@)
}

/// How deeply filters are nested in a filter.
pub open spec fn filter_depth(f: Filter) -> nat
    decreases f, 1nat, 0nat,
{
    list_depth(f, f.filters@.len() as int)
}

pub open spec fn list_depth(f: Filter, n: int) -> nat
    decreases f, 0nat, n,
{
    if n <= 0 || n > f.filters@.len() {
        0
    } else {
        proof {
            assert(decreases_to!(f => f.filters@[n - 1]));
        }
        let a = list_depth(f, n - 1);
        let b = type_depth(f.filters@[n - 1]);
        if a > b { a } else { b }
    }
}

pub open spec fn type_depth(t: FilterType) -> nat
    decreases t, 2nat, 0nat,
{
    match t {
        FilterType::Nested(g) => 1 + filter_depth(g),
        FilterType::Not(g) => 1 + filter_depth(g),
        _ => 0,
    }
}

/// The rows of a filter: its AND/OR switch when it has more than one
/// condition, then the rows of its conditions, one step further in.
pub open spec fn filter_rows(f: Filter, depth: nat, path: Seq<usize>) -> Seq<RowModel>
    decreases f, 1nat, 0nat,
{
    let joiner = if f.filters@.len() > 1 { seq![RowModel::Joiner(depth, path, f.and)] } else { Seq::empty() };
    joiner + list_rows(f, f.filters@.len() as int, depth + 1, path)
}

/// The rows of the first `n` conditions of a filter.
pub open spec fn list_rows(f: Filter, n: int, depth: nat, path: Seq<usize>) -> Seq<RowModel>
    decreases f, 0nat, n,
{
    if n <= 0 || n > f.filters@.len() {
        Seq::empty()
    } else {
        proof {
            assert(decreases_to!(f => f.filters@[n - 1]));
        }
        list_rows(f, n - 1, depth, path) + type_rows(f.filters@[n - 1], depth, path.push((n - 1) as usize))
    }
}

/// The rows of a condition: a nested filter's rows, a NOT label and the
/// negated filter's rows (at the same depth), or one row for a tag test.
pub open spec fn type_rows(t: FilterType, depth: nat, path: Seq<usize>) -> Seq<RowModel>
    decreases t, 2nat, 0nat,
{
    match t {
        FilterType::Nested(g) => filter_rows(g, depth, path),
        FilterType::Not(g) => seq![RowModel::Not(depth)] + filter_rows(g, depth, path),
        FilterType::TagEq(v) => seq![RowModel::TagEq(depth, path, v@)],
        FilterType::TagStartsWith(v) => seq![RowModel::TagStartsWith(depth, path, v@)],
        FilterType::TagWithValueInt(v, min, max) => seq![RowModel::TagWithValueInt(depth, path, v@, min, max)],
    }
}

fn copy_path(p: &Vec<usize>) -> (r: Vec<usize>)
    ensures
        r@ == p@,
{
    let r = p.clone();
    assert(r@ =~= p@);
    r
}

fn copy_string(s: &String) -> (r: String)
    ensures
        r == *s,
{
    s.clone()
}

fn push_row(out: &mut Vec<FilterRow>, row: FilterRow)
    ensures
        rows_model(final(out)@) == rows_model(old(out)@).push(row@),
{
    out.push(row);
    assert(rows_model(out@) =~= rows_model(old(out)@).push(row@));
}

fn push_filter_rows(f: &Filter, depth: usize, path: &Vec<usize>, out: &mut Vec<FilterRow>)
    requires
        depth + filter_depth(*f) < usize::MAX,
    ensures
        rows_model(final(out)@) == rows_model(old(out)@) + filter_rows(*f, depth as nat, path@),
    decreases *f, 1nat, 0nat,
{
    let ghost start = rows_model(out@);
    if f.filters.len() > 1 {
        push_row(out, FilterRow::Joiner { depth, path: copy_path(path), and: f.and });
    }
    let ghost mid = rows_model(out@);
    assert(mid == start + (if f.filters@.len() > 1 { seq![RowModel::Joiner(depth as nat, path@, f.and)] } else { Seq::empty() })) by {
        if f.filters@.len() <= 1 {
            assert(mid =~= start + Seq::<RowModel>::empty());
        }
    }
    let mut i: usize = 0;
    while i < f.filters.len()
        invariant
            i <= f.filters@.len(),
            depth + filter_depth(*f) < usize::MAX,
            rows_model(out@) == mid + list_rows(*f, i as int, depth as nat + 1, path@),
        decreases f.filters.len() - i,
    {
        assert(decreases_to!(*f => f.filters@[i as int]));
        proof {
            lemma_list_depth_ge(*f, i as int + 1, i as int);
        }
        let mut p = copy_path(path);
        p.push(i);
        push_type_rows(&f.filters[i], depth + 1, &p, out);
        i = i + 1;
        assert(rows_model(out@) =~= mid + list_rows(*f, i as int, depth as nat + 1, path@));
    }
    assert(rows_model(out@) =~= start + filter_rows(*f, depth as nat, path@));
}

proof fn lemma_list_depth_ge(f: Filter, n: int, k: int)
    requires
        0 < k + 1 <= n <= f.filters@.len(),
    ensures
        list_depth(f, n) >= type_depth(f.filters@[k]),
        filter_depth(f) >= list_depth(f, n),
    decreases f.filters@.len() - n,
{
    if n < f.filters@.len() {
        lemma_list_depth_ge(f, n + 1, k);
    }
    lemma_list_depth_ge_prefix(f, n, k);
}

proof fn lemma_list_depth_ge_prefix(f: Filter, n: int, k: int)
    requires
        0 < k + 1 <= n <= f.filters@.len(),
    ensures
        list_depth(f, n) >= type_depth(f.filters@[k]),
    decreases n,
{
    if n > k + 1 {
        lemma_list_depth_ge_prefix(f, n - 1, k);
    }
}

fn push_type_rows(t: &FilterType, depth: usize, path: &Vec<usize>, out: &mut Vec<FilterRow>)
    requires
        depth + type_depth(*t) <= usize::MAX,
    ensures
        rows_model(final(out)@) == rows_model(old(out)@) + type_rows(*t, depth as nat, path@),
    decreases *t, 2nat, 0nat,
{
    let ghost start = rows_model(out@);
    match t {
        FilterType::Nested(g) => {
            push_filter_rows(g, depth, path, out);
        },
        FilterType::Not(g) => {
            push_row(out, FilterRow::Not { depth });
            push_filter_rows(g, depth, path, out);
            assert(rows_model(out@) =~= start + type_rows(*t, depth as nat, path@));
        },
        FilterType::TagEq(v) => {
            push_row(out, FilterRow::TagEq { depth, path: copy_path(path), value: copy_string(v) });
            assert(rows_model(out@) =~= start + type_rows(*t, depth as nat, path@));
        },
        FilterType::TagStartsWith(v) => {
            push_row(out, FilterRow::TagStartsWith { depth, path: copy_path(path), value: copy_string(v) });
            assert(rows_model(out@) =~= start + type_rows(*t, depth as nat, path@));
        },
        FilterType::TagWithValueInt(v, min, max) => {
            push_row(out, FilterRow::TagWithValueInt { depth, path: copy_path(path), value: copy_string(v), min: *min, max: *max });
            assert(rows_model(out@) =~= start + type_rows(*t, depth as nat, path@));
        },
    }
}

/// The rows the filter editor shows for a filter.
pub fn editor_rows(f: &Filter) -> (r: Vec<FilterRow>)
    requires
        filter_depth(*f) < usize::MAX,
    ensures
        rows_model(r@) == filter_rows(*f, 0, Seq::empty()),
{
    let mut out: Vec<FilterRow> = Vec::new();
    let path: Vec<usize> = Vec::new();
    assert(rows_model(out@) =~= Seq::<RowModel>::empty());
    push_filter_rows(f, 0, &path, &mut out);
    assert(rows_model(out@) =~= filter_rows(*f, 0, path@));
    out
}

/// `g` with AND and OR switched.
pub open spec fn flip(g: Filter) -> Filter {
    Filter { and: !g.and, filters: g.filters }
}

/// Pressing an AND/OR switch twice gives back the filter it had.
pub proof fn lemma_flip_twice(g: Filter)
    ensures
        flip(flip(g)) == g,
{
}

/// `g` is `f` with nothing changed at `path` (or anywhere).
pub open spec fn unchanged_at(f: Filter, g: Filter, path: Seq<usize>) -> bool {
    match filter_node_at(f, path) {
        None => filter_same(f, g),
        Some(n) => filter_replaced(f, g, path, n),
    }
}

/// Which tag test a text field of the editor edits.
#[derive(Debug, Clone, Copy, PartialEq, Eq, Structural)]
pub enum TagField {
    Eq,
    StartsWith,
    ValueInt,
}

impl Filter {
    /// The AND/OR switch at `path`: switches the filter there (or the one a
    /// nested or negated condition there holds). False, with nothing
    /// changed, when `path` leads to no such filter.
    pub fn toggle_and_at(&mut self, path: &[usize]) -> (r: bool)
        ensures
            match filter_node_at(*old(self), path@) {
                Some(Err(g)) => r && filter_replaced(*old(self), *final(self), path@, Err(flip(g))),
                Some(Ok(FilterType::Nested(g))) => r && filter_replaced(*old(self), *final(self), path@, Ok(FilterType::Nested(flip(g)))),
                Some(Ok(FilterType::Not(g))) => r && filter_replaced(*old(self), *final(self), path@, Ok(FilterType::Not(flip(g)))),
                _ => !r && unchanged_at(*old(self), *final(self), path@),
            },
    {
        match self.get_mut(path) {
            Some(Ok(t)) => match t.inner_filter() {
                Some(f) => {
                    f.and = !f.and;
                    true
                },
                None => false,
            },
            Some(Err(f)) => {
                f.and = !f.and;
                true
            },
            None => false,
        }
    }

    /// A text field of a tag test: sets the tag text of the test at `path`
    /// when it is a test of that kind; else false, with nothing changed.
    pub fn set_tag_text(&mut self, path: &[usize], kind: TagField, text: String) -> (r: bool)
        ensures
            match (kind, filter_node_at(*old(self), path@)) {
                (TagField::Eq, Some(Ok(FilterType::TagEq(_)))) =>
                    r && filter_replaced(*old(self), *final(self), path@, Ok(FilterType::TagEq(text))),
                (TagField::StartsWith, Some(Ok(FilterType::TagStartsWith(_)))) =>
                    r && filter_replaced(*old(self), *final(self), path@, Ok(FilterType::TagStartsWith(text))),
                (TagField::ValueInt, Some(Ok(FilterType::TagWithValueInt(_, min, max)))) =>
                    r && filter_replaced(*old(self), *final(self), path@, Ok(FilterType::TagWithValueInt(text, min, max))),
                _ => !r && unchanged_at(*old(self), *final(self), path@),
            },
    {
        match self.get_mut(path) {
            Some(Ok(t)) => match (kind, t) {
                (TagField::Eq, FilterType::TagEq(v)) => {
                    *v = text;
                    true
                },
                (TagField::StartsWith, FilterType::TagStartsWith(v)) => {
                    *v = text;
                    true
                },
                (TagField::ValueInt, FilterType::TagWithValueInt(v, _, _)) => {
                    *v = text;
                    true
                },
                _ => false,
            },
            _ => false,
        }
    }

    /// The min (or, with `upper`, max) field of a value test: when the text
    /// is an `i32` and `path` leads to a value test, sets that bound; else
    /// false, with nothing changed.
    pub fn set_value_bound(&mut self, path: &[usize], text: &str, upper: bool) -> (r: bool)
        ensures
            match (parse_i32(text@), filter_node_at(*old(self), path@)) {
                (Some(n), Some(Ok(FilterType::TagWithValueInt(v, min, max)))) =>
                    r && filter_replaced(*old(self), *final(self), path@, Ok(
                        if upper { FilterType::TagWithValueInt(v, min, n as i32) } else { FilterType::TagWithValueInt(v, n as i32, max) },
                    )),
                _ => !r && unchanged_at(*old(self), *final(self), path@),
            },
    {
        let n = match parse_i32_exec(&chars_of(text)) {
            Some(n) => n,
            None => {
                proof { lemma_unchanged_refl(*self, path@); }
                return false;
            },
        };
        match self.get_mut(path) {
            Some(Ok(FilterType::TagWithValueInt(_, min, max))) => {
                if upper {
                    *max = n;
                } else {
                    *min = n;
                }
                true
            },
            _ => false,
        }
    }
}

proof fn lemma_unchanged_refl(f: Filter, path: Seq<usize>)
    ensures
        unchanged_at(f, f, path),
    decreases f,
{
    lemma_filter_same_refl_at(f);
    match filter_node_at(f, path) {
        None => {},
        Some(n) => lemma_replaced_refl(f, path),
    }
}

proof fn lemma_filter_same_refl_at(f: Filter)
    ensures
        filter_same(f, f),
    decreases f,
{
    assert forall|j: int| 0 <= j < f.filters@.len() implies crate::filter::type_same(f.filters@[j], #[trigger] f.filters@[j]) by {
        lemma_type_same_refl_at(f.filters@[j]);
    }
}

proof fn lemma_type_same_refl_at(t: FilterType)
    ensures
        crate::filter::type_same(t, t),
    decreases t,
{
    match t {
        FilterType::Nested(f) => lemma_filter_same_refl_at(f),
        FilterType::Not(f) => lemma_filter_same_refl_at(f),
        _ => {},
    }
}

proof fn lemma_replaced_refl(f: Filter, path: Seq<usize>)
    requires
        filter_node_at(f, path) is Some,
    ensures
        filter_replaced(f, f, path, filter_node_at(f, path)->0),
    decreases f,
{
    if path.len() > 0 {
        let i = path[0] as int;
        lemma_type_replaced_refl(f.filters@[i], path.skip(1));
    }
}

proof fn lemma_type_replaced_refl(t: FilterType, path: Seq<usize>)
    requires
        crate::filter::type_node_at(t, path) is Some,
    ensures
        crate::filter::type_replaced(t, t, path, crate::filter::type_node_at(t, path)->0),
    decreases t,
{
    if path.len() > 0 {
        match t {
            FilterType::Nested(g) => lemma_replaced_refl(g, path),
            FilterType::Not(g) => lemma_replaced_refl(g, path),
            _ => {},
        }
    }
}

impl Filter {
    /// An equal copy of the filter.
    pub fn duplicate(&self) -> (r: Filter)
        ensures
            filter_same(*self, r),
        decreases *self, 1nat,
    {
        let mut filters: Vec<FilterType> = Vec::new();
        let mut i: usize = 0;
        while i < self.filters.len()
            invariant
                i <= self.filters@.len(),
                filters@.len() == i,
                forall|j: int| 0 <= j < i ==> crate::filter::type_same(self.filters@[j], #[trigger] filters@[j]),
            decreases self.filters.len() - i,
        {
            assert(decreases_to!(*self => self.filters@[i as int]));
            let t = self.filters[i].duplicate();
            filters.push(t);
            i = i + 1;
        }
        Filter { and: self.and, filters }
    }

    /// The "clear filters" button: removes every condition.
    pub fn clear_filters(&mut self)
        ensures
            final(self).and == old(self).and,
            final(self).filters@.len() == 0,
    {
        self.filters.clear();
    }

    /// A preset button: appends a copy of the preset's condition.
    pub fn add_preset(&mut self, preset: &FilterType)
        ensures
            final(self).and == old(self).and,
            final(self).filters@.len() == old(self).filters@.len() + 1,
            forall|j: int| 0 <= j < old(self).filters@.len() ==> #[trigger] final(self).filters@[j] == old(self).filters@[j],
            crate::filter::type_same(*preset, final(self).filters@[old(self).filters@.len() as int]),
    {
        self.filters.push(preset.duplicate());
    }
}

impl FilterType {
    /// An equal copy of the condition.
    pub fn duplicate(&self) -> (r: FilterType)
        ensures
            crate::filter::type_same(*self, r),
        decreases *self, 0nat,
    {
        match self {
            FilterType::Nested(f) => FilterType::Nested(f.duplicate()),
            FilterType::Not(f) => FilterType::Not(f.duplicate()),
            FilterType::TagEq(v) => FilterType::TagEq(copy_string(v)),
            FilterType::TagStartsWith(v) => FilterType::TagStartsWith(copy_string(v)),
            FilterType::TagWithValueInt(v, min, max) => FilterType::TagWithValueInt(copy_string(v), *min, *max),
        }
    }
}

/// The filter presets of a tab of the filter panel: the artist presets for
/// tab 2, the album presets for tab 1, the song presets for any other.
pub fn presets_for_tab(cfg: &GuiConfig, tab: usize) -> (r: &Vec<FilterPreset>)
    ensures
        tab == 2 ==> r == &cfg.filter_presets_artist,
        tab == 1 ==> r == &cfg.filter_presets_album,
        tab != 1 && tab != 2 ==> r == &cfg.filter_presets_song,
{
    match tab {
        2 => &cfg.filter_presets_artist,
        1 => &cfg.filter_presets_album,
        _ => &cfg.filter_presets_song,
    }
}

} // verus!

//! The queue view: the rows that show a queue, a folder's entries indented
//! below its heading and ended by a thin line, a loop beside the first row of
//! what it repeats, each row with the path of its entry.
use vstd::prelude::*;
use std::collections::HashMap;
use crate::library::{Library, Song};
use crate::selection::QueueItem;

verus! {

broadcast use {vstd::std_specs::hash::group_hash_axioms, vstd::string::group_string_axioms};

/// What a row of the queue view shows.
pub enum RowKind {
    Song(u64),
    /// A folder's heading; `no_ins_before` where nothing may be dropped
    /// above it (the queue's root, and a folder that a loop repeats).
    Folder { index: usize, name: String, no_ins_before: bool },
    /// The end of a folder: what is dropped here goes into `parent` at
    /// position `next`, just after the folder.
    IndentEnd { parent: Vec<usize>, next: usize },
    /// A loop, shown together with the first row of what it repeats.
    Loop { total: usize, done: usize, inner: Option<Box<QueueRow>> },
}

/// A row of the queue view: the entry at `path`, indented by `depth`
/// folders, `current` where the entry is on the playing path (never for
/// the end of a folder).
pub struct QueueRow {
    pub path: Vec<usize>,
    pub depth: usize,
    pub current: bool,
    pub kind: RowKind,
}

/// The height class of a row: a song's line, a folder's heading, or the
/// thin line that ends a folder.
#[derive(PartialEq, Eq, Structural, Clone, Copy, Debug)]
pub enum RowHeight {
    Song,
    Folder,
    IndentEnd,
}

pub enum RowKindModel {
    Song(u64),
    Folder(usize, Seq<char>, bool),
    IndentEnd(Seq<usize>, usize),
    Loop(usize, usize, Option<Box<RowModel>>),
}

pub struct RowModel {
    pub path: Seq<usize>,
    pub depth: nat,
    pub current: bool,
    pub kind: RowKindModel,
}

pub open spec fn row_model(r: QueueRow) -> RowModel
    decreases r,
{
    RowModel {
        path: r.path@,
        depth: r.depth as nat,
        current: r.current,
        kind: match r.kind {
            RowKind::Song(id) => RowKindModel::Song(id),
            RowKind::Folder { index, name, no_ins_before } => RowKindModel::Folder(index, name@, no_ins_before),
            RowKind::IndentEnd { parent, next } => RowKindModel::IndentEnd(parent@, next),
            RowKind::Loop { total, done, inner } => RowKindModel::Loop(
                total,
                done,
                match inner {
                    Some(b) => Some(Box::new(row_model(*b))),
                    None => None,
                },
            ),
        },
    }
}

pub open spec fn rows_model(s: Seq<QueueRow>) -> Seq<RowModel> {
    s.map_values(|r: QueueRow| row_model(r))
}

pub open spec fn opt_row_model(o: Option<QueueRow>) -> Option<RowModel> {
    match o {
        Some(r) => Some(row_model(r)),
        None => None,
    }
}

/// Whether showing this entry gives a row at all: a song does only where
/// the library has it.
pub open spec fn yields_row(q: QueueItem, songs: Set<u64>) -> bool {
    match q {
        QueueItem::Song(id) => songs.contains(id),
        _ => true,
    }
}

/// Whether the entry can be shown: no loop repeats, directly, a loop of
/// something that yields a row (the view has no place for that).
pub open spec fn renders(q: QueueItem, songs: Set<u64>) -> bool
    decreases q,
{
    match q {
        QueueItem::Song(_) => true,
        QueueItem::Folder(_, kids, _) => all_render(kids@, songs),
        QueueItem::Loop(_, _, inner) => renders(*inner, songs) && !(match *inner {
            QueueItem::Loop(_, _, x) => yields_row(*x, songs),
            _ => false,
        }),
    }
}

pub open spec fn all_render(s: Seq<QueueItem>, songs: Set<u64>) -> bool
    decreases s,
{
    if s.len() == 0 {
        true
    } else {
        all_render(s.drop_last(), songs) && renders(s.last(), songs)
    }
}

/// The rows for an entry at `path`, `depth` folders deep: the first one
/// handed back on its own where `skip_first` (a loop shows it beside
/// itself), the others in order, and the heights of all but the loops.
pub open spec fn rendered(
    q: QueueItem,
    songs: Set<u64>,
    depth: nat,
    path: Seq<usize>,
    current: bool,
    skip_first: bool,
) -> (Option<RowModel>, Seq<RowModel>, Seq<RowHeight>)
    decreases q,
{
    match q {
        QueueItem::Song(id) => {
            if songs.contains(id) {
                let r = RowModel { path, depth, current, kind: RowKindModel::Song(id) };
                if skip_first {
                    (Some(r), seq![], seq![RowHeight::Song])
                } else {
                    (None, seq![r], seq![RowHeight::Song])
                }
            } else {
                (None, seq![], seq![])
            }
        },
        QueueItem::Folder(ia, kids, name) => {
            let head = RowModel {
                path,
                depth,
                current,
                kind: RowKindModel::Folder(ia, name@, skip_first || path.len() == 0),
            };
            let inside = children_rendered(kids@, songs, depth + 1, path, current, ia);
            let end: Seq<RowModel> = if path.len() == 0 {
                seq![]
            } else {
                seq![RowModel {
                    path,
                    depth,
                    current: false,
                    kind: RowKindModel::IndentEnd(path.drop_last(), (path.last() + 1) as usize),
                }]
            };
            let end_h: Seq<RowHeight> = if path.len() == 0 { seq![] } else { seq![RowHeight::IndentEnd] };
            let heights = seq![RowHeight::Folder] + inside.1 + end_h;
            if skip_first {
                (Some(head), inside.0 + end, heights)
            } else {
                (None, seq![head] + inside.0 + end, heights)
            }
        },
        QueueItem::Loop(total, done, inner) => {
            let shown = rendered(*inner, songs, depth, path.push(0), current, true);
            let head = RowModel {
                path,
                depth,
                current,
                kind: RowKindModel::Loop(total, done, match shown.0 {
                    Some(r) => Some(Box::new(r)),
                    None => None,
                }),
            };
            if skip_first {
                (Some(head), shown.1, shown.2)
            } else {
                (None, seq![head] + shown.1, shown.2)
            }
        },
    }
}

/// The rows of a folder's entries, each at its position below `path`, the
/// one at the folder's position `playing` on the playing path with it.
pub open spec fn children_rendered(
    kids: Seq<QueueItem>,
    songs: Set<u64>,
    depth: nat,
    path: Seq<usize>,
    current: bool,
    playing: usize,
) -> (Seq<RowModel>, Seq<RowHeight>)
    decreases kids,
{
    if kids.len() == 0 {
        (seq![], seq![])
    } else {
        let before = children_rendered(kids.drop_last(), songs, depth, path, current, playing);
        let i = (kids.len() - 1) as usize;
        let last = rendered(kids.last(), songs, depth, path.push(i), current && playing == i, false);
        (before.0 + last.1, before.1 + last.2)
    }
}

proof fn lemma_all_render(s: Seq<QueueItem>, songs: Set<u64>, i: int)
    requires
        all_render(s, songs),
        0 <= i < s.len(),
    ensures
        renders(s[i], songs),
    decreases s.len(),
{
    if i < s.len() - 1 {
        lemma_all_render(s.drop_last(), songs, i);
    }
}

proof fn lemma_rows_model_add(a: Seq<QueueRow>, b: Seq<QueueRow>)
    ensures
        rows_model(a + b) == rows_model(a) + rows_model(b),
{
    assert(rows_model(a + b) =~= rows_model(a) + rows_model(b));
}

proof fn lemma_rows_model_push(a: Seq<QueueRow>, r: QueueRow)
    ensures
        rows_model(a.push(r)) == rows_model(a) + seq![row_model(r)],
{
    assert(rows_model(a.push(r)) =~= rows_model(a) + seq![row_model(r)]);
}

fn render(
    q: &QueueItem,
    songs: &HashMap<u64, Song>,
    depth: usize,
    path: Vec<usize>,
    current: bool,
    skip_first: bool,
    target: &mut Vec<QueueRow>,
    heights: &mut Vec<RowHeight>,
) -> (out: Option<QueueRow>)
    requires
        renders(*q, songs@.dom()),
        depth <= path@.len(),
        forall|k: int| 0 <= k < path@.len() ==> path@[k] < usize::MAX,
    ensures
        opt_row_model(out) == rendered(*q, songs@.dom(), depth as nat, path@, current, skip_first).0,
        rows_model(final(target)@) == rows_model(old(target)@) + rendered(
            *q,
            songs@.dom(),
            depth as nat,
            path@,
            current,
            skip_first,
        ).1,
        final(heights)@ == old(heights)@ + rendered(*q, songs@.dom(), depth as nat, path@, current, skip_first).2,
    decreases q,
{
    let ghost dom = songs@.dom();
    let ghost path0 = path@;
    match q {
        QueueItem::Song(id) => {
            if songs.contains_key(id) {
                let r = QueueRow { path, depth, current, kind: RowKind::Song(*id) };
                heights.push(RowHeight::Song);
                if skip_first {
                    assert(rows_model(target@) =~= rows_model(target@) + Seq::<RowModel>::empty());
                    Some(r)
                } else {
                    proof { lemma_rows_model_push(target@, r); }
                    target.push(r);
                    None
                }
            } else {
                assert(rows_model(target@) =~= rows_model(target@) + Seq::<RowModel>::empty());
                assert(heights@ =~= heights@ + Seq::<RowHeight>::empty());
                None
            }
        },
        QueueItem::Folder(ia, kids, name) => {
            let is_root = path.len() == 0;
            let head = QueueRow {
                path: path.clone(),
                depth,
                current,
                kind: RowKind::Folder { index: *ia, name: name.clone(), no_ins_before: skip_first || is_root },
            };
            let mut out: Option<QueueRow> = None;
            if skip_first {
                out = Some(head);
            } else {
                proof { lemma_rows_model_push(target@, head); }
                target.push(head);
            }
            heights.push(RowHeight::Folder);
            let ghost t1 = target@;
            let ghost h1 = heights@;
            let mut i: usize = 0;
            while i < kids.len()
                invariant
                    i <= kids@.len(),
                    *q == QueueItem::Folder(*ia, *kids, *name),
                    all_render(kids@, dom),
                    dom == songs@.dom(),
                    depth <= path@.len(),
                    forall|k: int| 0 <= k < path@.len() ==> path@[k] < usize::MAX,
                    rows_model(target@) == rows_model(t1) + children_rendered(
                        kids@.take(i as int),
                        dom,
                        (depth + 1) as nat,
                        path@,
                        current,
                        *ia,
                    ).0,
                    heights@ == h1 + children_rendered(kids@.take(i as int), dom, (depth + 1) as nat, path@, current, *ia).1,
                decreases kids.len() - i,
            {
                let mut p = path.clone();
                p.push(i);
                let plen = p.len();
                proof {
                    assert(depth + 1 <= plen);
                    assert(decreases_to!(*q => (*q)->Folder_1));
                    assert(decreases_to!(*kids => kids@));
                    assert(decreases_to!(kids@ => kids@[i as int]));
                    lemma_all_render(kids@, dom, i as int);
                    assert(p@ == path@.push(i));
                }
                let _ = render(&kids[i], songs, depth + 1, p, current && *ia == i, false, target, heights);
                proof {
                    let s = kids@.take(i + 1);
                    assert(s.drop_last() =~= kids@.take(i as int));
                    assert(s.last() == kids@[i as int]);
                    let c = rendered(kids@[i as int], dom, (depth + 1) as nat, path@.push(i), current && *ia == i, false);
                    assert(children_rendered(s, dom, (depth + 1) as nat, path@, current, *ia).0
                        == children_rendered(kids@.take(i as int), dom, (depth + 1) as nat, path@, current, *ia).0 + c.1);
                    assert(heights@ =~= h1 + children_rendered(s, dom, (depth + 1) as nat, path@, current, *ia).1);
                }
                i = i + 1;
            }
            assert(kids@.take(kids@.len() as int) =~= kids@);
            if !is_root {
                let mut parent = path.clone();
                let last = parent.pop().unwrap();
                proof {
                    assert(parent@ =~= path@.drop_last());
                }
                let end = QueueRow {
                    path,
                    depth,
                    current: false,
                    kind: RowKind::IndentEnd { parent, next: last + 1 },
                };
                proof { lemma_rows_model_push(target@, end); }
                target.push(end);
                heights.push(RowHeight::IndentEnd);
            }
            let ghost v = rendered(*q, dom, depth as nat, path0, current, skip_first);
            assert(heights@ =~= old(heights)@ + v.2);
            assert(rows_model(target@) =~= rows_model(old(target)@) + v.1);
            out
        },
        QueueItem::Loop(total, done, inner) => {
            let mut p = path.clone();
            p.push(0);
            let mut rest: Vec<QueueRow> = Vec::new();
            let first = render(&**inner, songs, depth, p, current, true, &mut rest, heights);
            let inner_row = match first {
                Some(r) => Some(Box::new(r)),
                None => None,
            };
            let head = QueueRow {
                path,
                depth,
                current,
                kind: RowKind::Loop { total: *total, done: *done, inner: inner_row },
            };
            assert(rows_model(rest@) =~= Seq::<RowModel>::empty() + rows_model(rest@));
            if skip_first {
                proof { lemma_rows_model_add(target@, rest@); }
                target.append(&mut rest);
                Some(head)
            } else {
                proof { lemma_rows_model_push(target@, head); }
                target.push(head);
                proof { lemma_rows_model_add(target@, rest@); }
                target.append(&mut rest);
                None
            }
        },
    }
}

/// The entry at a path: a folder's step picks its entry at that position,
/// a loop's only step, 0, the entry it repeats.
pub open spec fn entry_at(q: QueueItem, p: Seq<usize>) -> Option<QueueItem>
    decreases p.len(),
{
    if p.len() == 0 {
        Some(q)
    } else {
        match q {
            QueueItem::Folder(_, kids, _) => if p[0] < kids@.len() {
                entry_at(kids@[p[0] as int], p.skip(1))
            } else {
                None
            },
            QueueItem::Loop(_, _, inner) => if p[0] == 0 {
                entry_at(*inner, p.skip(1))
            } else {
                None
            },
            QueueItem::Song(_) => None,
        }
    }
}

/// Whether a path follows what plays: through each folder at the position
/// it plays from, through each loop into what it repeats.
pub open spec fn on_playing_path(q: QueueItem, p: Seq<usize>) -> bool
    decreases p.len(),
{
    if p.len() == 0 {
        true
    } else {
        match q {
            QueueItem::Folder(ia, kids, _) => p[0] == ia && p[0] < kids@.len() && on_playing_path(
                kids@[p[0] as int],
                p.skip(1),
            ),
            QueueItem::Loop(_, _, inner) => p[0] == 0 && on_playing_path(*inner, p.skip(1)),
            QueueItem::Song(_) => false,
        }
    }
}

/// Whether a row, drawn for the entry `q` placed at `base`, stands for the
/// entry of `q` at the rest of its path (with a loop's inner row too), and
/// is current exactly when `q` is current and that rest follows what plays.
pub open spec fn shows_entry(q: QueueItem, base: Seq<usize>, cur: bool, r: RowModel) -> bool
    decreases r,
{
    let rel = r.path.skip(base.len() as int);
    &&& base.len() <= r.path.len()
    &&& r.path.take(base.len() as int) == base
    &&& match r.kind {
        RowKindModel::Song(id) => entry_at(q, rel) == Some(QueueItem::Song(id)) && r.current == (cur
            && on_playing_path(q, rel)),
        RowKindModel::Folder(ia, name, _) => (entry_at(q, rel) matches Some(QueueItem::Folder(j, _, n)) && j
            == ia && n@ == name) && r.current == (cur && on_playing_path(q, rel)),
        RowKindModel::IndentEnd(parent, next) => (entry_at(q, rel) matches Some(QueueItem::Folder(..)))
            && r.path.len() > 0 && parent == r.path.drop_last() && next == (r.path.last() + 1) as usize
            && !r.current,
        RowKindModel::Loop(t, d, inner) => (entry_at(q, rel) matches Some(QueueItem::Loop(t2, d2, _)) && t2
            == t && d2 == d) && r.current == (cur && on_playing_path(q, rel)) && match inner {
            Some(b) => shows_entry(q, base, cur, *b),
            None => true,
        },
    }
}

proof fn lemma_row_at_base(q: QueueItem, base: Seq<usize>, r: RowModel)
    requires
        r.path == base,
    ensures
        r.path.skip(base.len() as int) == Seq::<usize>::empty(),
        r.path.take(base.len() as int) == base,
        entry_at(q, r.path.skip(base.len() as int)) == Some(q),
        on_playing_path(q, r.path.skip(base.len() as int)),
{
    assert(r.path.skip(base.len() as int) =~= Seq::<usize>::empty());
    assert(r.path.take(base.len() as int) =~= base);
}

/// A row of the entry at position `step` of `q` stands for the same entry
/// as a row of `q`.
proof fn lemma_lift(q: QueueItem, base: Seq<usize>, cur: bool, step: usize, sub: QueueItem, c: bool, r: RowModel)
    requires
        shows_entry(sub, base.push(step), c, r),
        match q {
            QueueItem::Folder(ia, kids, _) => step < kids@.len() && kids@[step as int] == sub && c == (cur
                && ia == step),
            QueueItem::Loop(_, _, inner) => step == 0 && *inner == sub && c == cur,
            QueueItem::Song(_) => false,
        },
    ensures
        shows_entry(q, base, cur, r),
    decreases r,
{
    let n = base.len() as int;
    let rel = r.path.skip(n);
    let rel1 = r.path.skip(n + 1);
    assert(r.path.take(n + 1) == base.push(step));
    assert(r.path.take(n) =~= base) by {
        assert(r.path.take(n) =~= r.path.take(n + 1).take(n));
    }
    assert(rel[0] == r.path.take(n + 1)[n]);
    assert(rel.skip(1) =~= rel1);
    assert(entry_at(q, rel) == entry_at(sub, rel1));
    assert(on_playing_path(q, rel) == (on_playing_path(sub, rel1) && match q {
        QueueItem::Folder(ia, _, _) => ia == step,
        _ => true,
    }));
    match r.kind {
        RowKindModel::Loop(_, _, inner) => {
            match inner {
                Some(b) => {
                    lemma_lift(q, base, cur, step, sub, c, *b);
                },
                None => {},
            }
        },
        _ => {},
    }
}

proof fn lemma_rendered_shows(
    q: QueueItem,
    songs: Set<u64>,
    depth: nat,
    base: Seq<usize>,
    cur: bool,
    skip: bool,
)
    ensures
        forall|k: int|
            0 <= k < rendered(q, songs, depth, base, cur, skip).1.len() ==> shows_entry(
                q,
                base,
                cur,
                #[trigger] rendered(q, songs, depth, base, cur, skip).1[k],
            ),
        rendered(q, songs, depth, base, cur, skip).0 matches Some(r) ==> shows_entry(q, base, cur, r),
    decreases q,
{
    let v = rendered(q, songs, depth, base, cur, skip);
    match q {
        QueueItem::Song(id) => {
            if songs.contains(id) {
                lemma_row_at_base(q, base, RowModel { path: base, depth, current: cur, kind: RowKindModel::Song(id) });
            }
        },
        QueueItem::Folder(ia, kids, name) => {
            let head = RowModel {
                path: base,
                depth,
                current: cur,
                kind: RowKindModel::Folder(ia, name@, skip || base.len() == 0),
            };
            lemma_row_at_base(q, base, head);
            assert(decreases_to!(q => q->Folder_1));
            assert(decreases_to!(kids => kids@));
            assert(kids@.take(kids@.len() as int) =~= kids@);
            lemma_children_show(q, kids@, songs, depth + 1, base, cur);
            let inside = children_rendered(kids@, songs, depth + 1, base, cur, ia);
            if base.len() > 0 {
                let end = RowModel {
                    path: base,
                    depth,
                    current: false,
                    kind: RowKindModel::IndentEnd(base.drop_last(), (base.last() + 1) as usize),
                };
                lemma_row_at_base(q, base, end);
                assert(shows_entry(q, base, cur, end));
            }
            assert forall|k: int| 0 <= k < v.1.len() implies shows_entry(q, base, cur, #[trigger] v.1[k]) by {
                if skip {
                    if k >= inside.0.len() {
                        assert(v.1[k] == RowModel {
                            path: base,
                            depth,
                            current: false,
                            kind: RowKindModel::IndentEnd(base.drop_last(), (base.last() + 1) as usize),
                        });
                    } else {
                        assert(v.1[k] == inside.0[k]);
                    }
                } else {
                    if k == 0 {
                        assert(v.1[k] == head);
                    } else if k < 1 + inside.0.len() {
                        assert(v.1[k] == inside.0[k - 1]);
                    } else {
                        assert(v.1[k] == RowModel {
                            path: base,
                            depth,
                            current: false,
                            kind: RowKindModel::IndentEnd(base.drop_last(), (base.last() + 1) as usize),
                        });
                    }
                }
            }
        },
        QueueItem::Loop(total, done, inner) => {
            let shown = rendered(*inner, songs, depth, base.push(0), cur, true);
            lemma_rendered_shows(*inner, songs, depth, base.push(0), cur, true);
            match shown.0 {
                Some(r) => {
                    lemma_lift(q, base, cur, 0, *inner, cur, r);
                },
                None => {},
            }
            let head = RowModel {
                path: base,
                depth,
                current: cur,
                kind: RowKindModel::Loop(total, done, match shown.0 {
                    Some(r) => Some(Box::new(r)),
                    None => None,
                }),
            };
            lemma_row_at_base(q, base, head);
            assert(shows_entry(q, base, cur, head));
            assert forall|k: int| 0 <= k < v.1.len() implies shows_entry(q, base, cur, #[trigger] v.1[k]) by {
                if skip {
                    assert(v.1[k] == shown.1[k]);
                    lemma_lift(q, base, cur, 0, *inner, cur, shown.1[k]);
                } else if k == 0 {
                    assert(v.1[k] == head);
                } else {
                    assert(v.1[k] == shown.1[k - 1]);
                    lemma_lift(q, base, cur, 0, *inner, cur, shown.1[k - 1]);
                }
            }
        },
    }
}

proof fn lemma_children_show(q: QueueItem, kids: Seq<QueueItem>, songs: Set<u64>, depth: nat, base: Seq<usize>, cur: bool)
    requires
        q matches QueueItem::Folder(_, v, _) && kids.len() <= v@.len() && kids == v@.take(kids.len() as int),
    ensures
        forall|k: int|
            0 <= k < children_rendered(kids, songs, depth, base, cur, q->Folder_0).0.len() ==> shows_entry(
                q,
                base,
                cur,
                #[trigger] children_rendered(kids, songs, depth, base, cur, q->Folder_0).0[k],
            ),
    decreases kids,
{
    if kids.len() > 0 {
        let ia = q->Folder_0;
        let v = q->Folder_1;
        let before = children_rendered(kids.drop_last(), songs, depth, base, cur, ia);
        let i = (kids.len() - 1) as usize;
        let c = cur && ia == i;
        let last = rendered(kids.last(), songs, depth, base.push(i), c, false);
        vstd::std_specs::vec::axiom_spec_len(&v);
        assert(kids.drop_last() =~= v@.take(kids.len() - 1));
        lemma_children_show(q, kids.drop_last(), songs, depth, base, cur);
        lemma_rendered_shows(kids.last(), songs, depth, base.push(i), c, false);
        let all = children_rendered(kids, songs, depth, base, cur, ia);
        assert(all.0 == before.0 + last.1);
        assert forall|k: int| 0 <= k < all.0.len() implies shows_entry(q, base, cur, #[trigger] all.0[k]) by {
            if k >= before.0.len() {
                assert(all.0[k] == last.1[k - before.0.len()]);
                assert(v@[i as int] == kids.last());
                lemma_lift(q, base, cur, i, kids.last(), c, last.1[k - before.0.len()]);
            } else {
                assert(all.0[k] == before.0[k]);
            }
        }
    }
}

/// Each row of the queue view stands for the entry at its path (the song,
/// folder or loop there; for the end of a folder, that folder and the place
/// just after it; for a loop, the row shown beside it too), and is marked
/// current exactly when its path follows what plays.
pub proof fn lemma_rows_show_their_entries(queue: QueueItem, songs: Set<u64>)
    ensures
        forall|k: int|
            0 <= k < rendered(queue, songs, 0, seq![], true, false).1.len() ==> shows_entry(
                queue,
                seq![],
                true,
                #[trigger] rendered(queue, songs, 0, seq![], true, false).1[k],
            ),
{
    lemma_rendered_shows(queue, songs, 0, seq![], true, false);
}

/// Whether a row (or the row a loop shows beside itself) shows the song
/// `id` at path `p`.
pub open spec fn shows_song(r: RowModel, p: Seq<usize>, id: u64) -> bool
    decreases r,
{
    (r.path == p && r.kind == RowKindModel::Song(id)) || match r.kind {
        RowKindModel::Loop(_, _, Some(b)) => shows_song(*b, p, id),
        _ => false,
    }
}

proof fn lemma_rendered_complete(
    q: QueueItem,
    songs: Set<u64>,
    depth: nat,
    base: Seq<usize>,
    cur: bool,
    skip: bool,
    rel: Seq<usize>,
    id: u64,
)
    requires
        entry_at(q, rel) == Some(QueueItem::Song(id)),
        songs.contains(id),
    ensures
        (rendered(q, songs, depth, base, cur, skip).0 matches Some(o) && shows_song(o, base + rel, id)) || exists|
            k: int,
        |
            0 <= k < rendered(q, songs, depth, base, cur, skip).1.len() && shows_song(
                #[trigger] rendered(q, songs, depth, base, cur, skip).1[k],
                base + rel,
                id,
            ),
        !skip ==> rendered(q, songs, depth, base, cur, skip).0 is None,
    decreases q,
{
    let v = rendered(q, songs, depth, base, cur, skip);
    match q {
        QueueItem::Song(_) => {
            assert(rel.len() == 0);
            assert(base + rel =~= base);
            if !skip {
                assert(shows_song(v.1[0], base + rel, id));
            }
        },
        QueueItem::Folder(ia, kids, name) => {
            assert(rel.len() > 0);
            let i = rel[0];
            assert(decreases_to!(q => q->Folder_1));
            assert(decreases_to!(kids => kids@));
            assert(kids@.take(kids@.len() as int) =~= kids@);
            lemma_children_complete(q, kids@, songs, depth + 1, base, cur, i, rel.skip(1), id);
            let inside = children_rendered(kids@, songs, depth + 1, base, cur, ia);
            assert(base.push(i) + rel.skip(1) =~= base + rel);
            let k0 = choose|k: int| 0 <= k < inside.0.len() && shows_song(#[trigger] inside.0[k], base + rel, id);
            if skip {
                assert(v.1[k0] == inside.0[k0]);
            } else {
                assert(v.1[k0 + 1] == inside.0[k0]);
            }
        },
        QueueItem::Loop(total, done, inner) => {
            assert(rel.len() > 0 && rel[0] == 0);
            let shown = rendered(*inner, songs, depth, base.push(0), cur, true);
            lemma_rendered_complete(*inner, songs, depth, base.push(0), cur, true, rel.skip(1), id);
            assert(base.push(0) + rel.skip(1) =~= base + rel);
            let head = RowModel {
                path: base,
                depth,
                current: cur,
                kind: RowKindModel::Loop(total, done, match shown.0 {
                    Some(r) => Some(Box::new(r)),
                    None => None,
                }),
            };
            if shown.0 matches Some(o) && shows_song(o, base + rel, id) {
                assert(shows_song(head, base + rel, id));
                if !skip {
                    assert(v.1[0] == head);
                }
            } else {
                let k0 = choose|k: int| 0 <= k < shown.1.len() && shows_song(#[trigger] shown.1[k], base + rel, id);
                if skip {
                    assert(v.1[k0] == shown.1[k0]);
                } else {
                    assert(v.1[k0 + 1] == shown.1[k0]);
                }
            }
        },
    }
}

proof fn lemma_children_complete(
    q: QueueItem,
    kids: Seq<QueueItem>,
    songs: Set<u64>,
    depth: nat,
    base: Seq<usize>,
    cur: bool,
    i: usize,
    rel: Seq<usize>,
    id: u64,
)
    requires
        q matches QueueItem::Folder(_, v, _) && kids.len() <= v@.len() && kids == v@.take(kids.len() as int),
        i < kids.len(),
        entry_at(kids[i as int], rel) == Some(QueueItem::Song(id)),
        songs.contains(id),
    ensures
        exists|k: int|
            0 <= k < children_rendered(kids, songs, depth, base, cur, q->Folder_0).0.len() && shows_song(
                #[trigger] children_rendered(kids, songs, depth, base, cur, q->Folder_0).0[k],
                base.push(i) + rel,
                id,
            ),
    decreases kids,
{
    let ia = q->Folder_0;
    let v = q->Folder_1;
    vstd::std_specs::vec::axiom_spec_len(&v);
    let before = children_rendered(kids.drop_last(), songs, depth, base, cur, ia);
    let n = (kids.len() - 1) as usize;
    let c = cur && ia == n;
    let last = rendered(kids.last(), songs, depth, base.push(n), c, false);
    let all = children_rendered(kids, songs, depth, base, cur, ia);
    assert(all.0 == before.0 + last.1);
    if i == n {
        lemma_rendered_complete(kids.last(), songs, depth, base.push(n), c, false, rel, id);
        let k0 = choose|k: int| 0 <= k < last.1.len() && shows_song(#[trigger] last.1[k], base.push(n) + rel, id);
        assert(all.0[before.0.len() + k0] == last.1[k0]);
    } else {
        assert(kids.drop_last() =~= v@.take(kids.len() - 1));
        assert(kids.drop_last()[i as int] == kids[i as int]);
        lemma_children_complete(q, kids.drop_last(), songs, depth, base, cur, i, rel, id);
        let k0 = choose|k: int| 0 <= k < before.0.len() && shows_song(#[trigger] before.0[k], base.push(i) + rel, id);
        assert(all.0[k0] == before.0[k0]);
    }
}

/// Every song of the queue that the library has is shown: some row (or
/// the row a loop shows beside itself) shows it at its path.
pub proof fn lemma_every_known_song_shown(queue: QueueItem, songs: Set<u64>, p: Seq<usize>, id: u64)
    requires
        entry_at(queue, p) == Some(QueueItem::Song(id)),
        songs.contains(id),
    ensures
        exists|k: int|
            0 <= k < rendered(queue, songs, 0, seq![], true, false).1.len() && shows_song(
                #[trigger] rendered(queue, songs, 0, seq![], true, false).1[k],
                p,
                id,
            ),
{
    lemma_rendered_complete(queue, songs, 0, seq![], true, false, p, id);
    assert(Seq::<usize>::empty() + p =~= p);
}

/// The rows of the queue view, with their heights.
pub fn queue_rows(queue: &QueueItem, db: &Library) -> (r: (Vec<QueueRow>, Vec<RowHeight>))
    requires
        renders(*queue, db.songs@.dom()),
    ensures
        rows_model(r.0@) == rendered(*queue, db.songs@.dom(), 0, seq![], true, false).1,
        r.1@ == rendered(*queue, db.songs@.dom(), 0, seq![], true, false).2,
{
    let mut rows: Vec<QueueRow> = Vec::new();
    let mut heights: Vec<RowHeight> = Vec::new();
    let _ = render(queue, &db.songs, 0, Vec::new(), true, false, &mut rows, &mut heights);
    assert(rows_model(Seq::<QueueRow>::empty()) =~= Seq::<RowModel>::empty());
    (rows, heights)
}

/// The number of repeats after the wheel turned over a loop's template:
/// one more upwards, one fewer downwards, but not below 0 (forever).
pub fn repeats_after_scroll(total: usize, up: bool, down: bool) -> (r: usize)
    requires
        up ==> total < usize::MAX,
    ensures
        r == if up {
            total + 1
        } else if down && total > 0 {
            total - 1
        } else {
            total as int
        },
{
    if up {
        total + 1
    } else if down && total > 0 {
        total - 1
    } else {
        total
    }
}

} // verus!

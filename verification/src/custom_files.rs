//! The custom-files directory of the database filler: tags are stored one
//! per line with `\`, newline and carriage return escaped, and names of
//! artists, albums and songs become file names with path-relevant
//! characters escaped by `%`.
use vstd::prelude::*;
use crate::replace::{
    flat, lemma_flat_ext, lemma_flat_id, lemma_remove_two_flat, lemma_replace_char_absent,
    lemma_replace_char_flat, lemma_replace_pair_flat, remove_two, remove_two_exec, replace_all,
    replace_exec, short_code,
};
use crate::strings::{chars_of, push_str, string_of};

verus! {

broadcast use vstd::string::group_string_axioms;

/// A tag as a line of a `.tags` file (`\` becomes `\S`, then newline `\n`,
/// then carriage return `\r`).
pub open spec fn encode_tag(s: Seq<char>) -> Seq<char> {
    replace_all(
        replace_all(replace_all(s, seq!['\\'], seq!['\\', 'S']), seq!['\n'], seq!['\\', 'n']),
        seq!['\r'],
        seq!['\\', 'r'],
    )
}

/// A line of a `.tags` file as a tag: raw line breaks are dropped, then
/// `\n`, `\r` and `\S` are replaced, in that order.
pub open spec fn decode_tag(s: Seq<char>) -> Seq<char> {
    replace_all(
        replace_all(
            replace_all(remove_two(s, '\n', '\r'), seq!['\\', 'n'], seq!['\n']),
            seq!['\\', 'r'],
            seq!['\r'],
        ),
        seq!['\\', 'S'],
        seq!['\\'],
    )
}

/// A name as a file name component: `%` becomes `%p`, then NUL `%0`, `/`
/// `%s`, `\` `%S`, tab `%t`, carriage return `%r` and newline `%n`.
pub open spec fn path_component(s: Seq<char>) -> Seq<char> {
    replace_all(replace_all(replace_all(replace_all(replace_all(replace_all(replace_all(
        s,
        seq!['%'], seq!['%', 'p']),
        seq!['\0'], seq!['%', '0']),
        seq!['/'], seq!['%', 's']),
        seq!['\\'], seq!['%', 'S']),
        seq!['\t'], seq!['%', 't']),
        seq!['\r'], seq!['%', 'r']),
        seq!['\n'], seq!['%', 'n'])
}

/// The escape of one character in a tag line.
pub open spec fn escape_char(c: char) -> Seq<char> {
    if c == '\\' {
        seq!['\\', 'S']
    } else if c == '\n' {
        seq!['\\', 'n']
    } else if c == '\r' {
        seq!['\\', 'r']
    } else {
        seq![c]
    }
}

/// The escape of one character in a file name component.
pub open spec fn path_escape_char(c: char) -> Seq<char> {
    if c == '%' {
        seq!['%', 'p']
    } else if c == '\0' {
        seq!['%', '0']
    } else if c == '/' {
        seq!['%', 's']
    } else if c == '\\' {
        seq!['%', 'S']
    } else if c == '\t' {
        seq!['%', 't']
    } else if c == '\r' {
        seq!['%', 'r']
    } else if c == '\n' {
        seq!['%', 'n']
    } else {
        seq![c]
    }
}

fn one(a: char) -> (v: Vec<char>)
    ensures
        v@ == seq![a],
{
    let mut v = Vec::new();
    v.push(a);
    assert(v@ =~= seq![a]);
    v
}

fn two(a: char, b: char) -> (v: Vec<char>)
    ensures
        v@ == seq![a, b],
{
    let mut v = Vec::new();
    v.push(a);
    v.push(b);
    assert(v@ =~= seq![a, b]);
    v
}

/// Writes a tag as a line of a `.tags` file.
pub fn normalize_tag_to_str(s: &str) -> (r: String)
    ensures
        r@ == encode_tag(s@),
{
    let v = chars_of(s);
    let a = replace_exec(&v, &one('\\'), &two('\\', 'S'));
    let b = replace_exec(&a, &one('\n'), &two('\\', 'n'));
    let c = replace_exec(&b, &one('\r'), &two('\\', 'r'));
    string_of(&c)
}

/// Reads a line of a `.tags` file as a tag.
pub fn normalized_str_to_tag(s: &str) -> (r: String)
    ensures
        r@ == decode_tag(s@),
{
    let v = chars_of(s);
    let a = remove_two_exec(&v, '\n', '\r');
    let b = replace_exec(&a, &two('\\', 'n'), &one('\n'));
    let c = replace_exec(&b, &two('\\', 'r'), &one('\r'));
    let d = replace_exec(&c, &two('\\', 'S'), &one('\\'));
    string_of(&d)
}

/// Turns a name into a component of a file name in the custom-files directory.
pub fn normalize_to_file_path_component_for_custom_files(s: &str) -> (r: String)
    ensures
        r@ == path_component(s@),
{
    let v = chars_of(s);
    let v = replace_exec(&v, &one('%'), &two('%', 'p'));
    let v = replace_exec(&v, &one('\0'), &two('%', '0'));
    let v = replace_exec(&v, &one('/'), &two('%', 's'));
    let v = replace_exec(&v, &one('\\'), &two('%', 'S'));
    let v = replace_exec(&v, &one('\t'), &two('%', 't'));
    let v = replace_exec(&v, &one('\r'), &two('%', 'r'));
    let v = replace_exec(&v, &one('\n'), &two('%', 'n'));
    string_of(&v)
}

proof fn lemma_single_hit(x: char, to: Seq<char>)
    ensures
        replace_all(seq![x], seq![x], to) == to,
{
    let s = seq![x];
    assert(s.take(1) =~= seq![x]);
    assert(s.skip(1) =~= Seq::<char>::empty());
    assert(replace_all(Seq::<char>::empty(), seq![x], to) == Seq::<char>::empty());
    assert(replace_all(s, seq![x], to) == to + replace_all(s.skip(1), seq![x], to));
    assert(to + Seq::<char>::empty() =~= to);
}

proof fn lemma_absent(w: Seq<char>, x: char, to: Seq<char>)
    requires
        forall|i: int| 0 <= i < w.len() ==> w[i] != x,
    ensures
        replace_all(w, seq![x], to) == w,
{
    lemma_replace_char_absent(w, x, to);
}

/// A tag file line is the concatenation of the escapes of the tag's characters.
proof fn lemma_encode_flat(s: Seq<char>)
    ensures
        encode_tag(s) == flat(s, |c: char| escape_char(c)),
{
    let id = |c: char| seq![c];
    let g1 = |c: char| replace_all(id(c), seq!['\\'], seq!['\\', 'S']);
    let g2 = |c: char| replace_all(g1(c), seq!['\n'], seq!['\\', 'n']);
    let g3 = |c: char| replace_all(g2(c), seq!['\r'], seq!['\\', 'r']);
    lemma_flat_id(s);
    lemma_replace_char_flat(s, id, '\\', seq!['\\', 'S']);
    lemma_replace_char_flat(s, g1, '\n', seq!['\\', 'n']);
    lemma_replace_char_flat(s, g2, '\r', seq!['\\', 'r']);
    assert forall|c: char| #[trigger] g3(c) == escape_char(c) by {
        if c == '\\' {
            lemma_single_hit('\\', seq!['\\', 'S']);
            lemma_absent(seq!['\\', 'S'], '\n', seq!['\\', 'n']);
            lemma_absent(seq!['\\', 'S'], '\r', seq!['\\', 'r']);
        } else if c == '\n' {
            lemma_absent(seq![c], '\\', seq!['\\', 'S']);
            lemma_single_hit('\n', seq!['\\', 'n']);
            lemma_absent(seq!['\\', 'n'], '\r', seq!['\\', 'r']);
        } else if c == '\r' {
            lemma_absent(seq![c], '\\', seq!['\\', 'S']);
            lemma_absent(seq![c], '\n', seq!['\\', 'n']);
            lemma_single_hit('\r', seq!['\\', 'r']);
        } else {
            lemma_absent(seq![c], '\\', seq!['\\', 'S']);
            lemma_absent(seq![c], '\n', seq!['\\', 'n']);
            lemma_absent(seq![c], '\r', seq!['\\', 'r']);
        }
    }
    lemma_flat_ext(s, g3, |c: char| escape_char(c));
}

pub open spec fn dec1(c: char) -> Seq<char> {
    if escape_char(c) == seq!['\\', 'n'] { seq!['\n'] } else { escape_char(c) }
}

pub open spec fn dec2(c: char) -> Seq<char> {
    if dec1(c) == seq!['\\', 'r'] { seq!['\r'] } else { dec1(c) }
}

pub open spec fn dec3(c: char) -> Seq<char> {
    if dec2(c) == seq!['\\', 'S'] { seq!['\\'] } else { dec2(c) }
}

proof fn lemma_decode_step1(s: Seq<char>)
    ensures
        replace_all(flat(s, |c: char| escape_char(c)), seq!['\\', 'n'], seq!['\n']) == flat(s, |c: char| dec1(c)),
{
    let e = |c: char| escape_char(c);
    assert forall|c: char| short_code(#[trigger] e(c), '\\') by {}
    lemma_replace_pair_flat(s, e, '\\', 'n', seq!['\n'], |c: char| dec1(c));
}

proof fn lemma_decode_step2(s: Seq<char>)
    ensures
        replace_all(flat(s, |c: char| dec1(c)), seq!['\\', 'r'], seq!['\r']) == flat(s, |c: char| dec2(c)),
{
    let e = |c: char| dec1(c);
    assert forall|c: char| short_code(#[trigger] e(c), '\\') by {}
    lemma_replace_pair_flat(s, e, '\\', 'r', seq!['\r'], |c: char| dec2(c));
}

proof fn lemma_decode_step3(s: Seq<char>)
    ensures
        replace_all(flat(s, |c: char| dec2(c)), seq!['\\', 'S'], seq!['\\']) == flat(s, |c: char| dec3(c)),
{
    let e = |c: char| dec2(c);
    assert forall|c: char| short_code(#[trigger] e(c), '\\') by {
        if c == '\n' {
            assert(dec1(c) != seq!['\\', 'r']) by { assert(dec1(c).len() == 1); }
        }
    }
    lemma_replace_pair_flat(s, e, '\\', 'S', seq!['\\'], |c: char| dec3(c));
}

proof fn lemma_dec3_id(s: Seq<char>)
    ensures
        flat(s, |c: char| dec3(c)) == s,
{
    assert forall|c: char| #[trigger] dec3(c) == seq![c] by {
        if c == '\\' {
            assert(escape_char(c) != seq!['\\', 'n']) by { assert(escape_char(c)[1] != seq!['\\', 'n'][1]); }
            assert(dec1(c) != seq!['\\', 'r']) by { assert(dec1(c)[1] != seq!['\\', 'r'][1]); }
        } else if c == '\n' {
            assert(dec1(c) != seq!['\\', 'r']) by { assert(dec1(c).len() == 1); }
            assert(dec2(c) != seq!['\\', 'S']) by { assert(dec2(c).len() == 1); }
        } else if c == '\r' {
            assert(escape_char(c) != seq!['\\', 'n']) by { assert(escape_char(c)[1] != seq!['\\', 'n'][1]); }
            assert(dec2(c) != seq!['\\', 'S']) by { assert(dec2(c).len() == 1); }
        } else {
            assert(escape_char(c) != seq!['\\', 'n']) by { assert(escape_char(c).len() == 1); }
            assert(dec1(c) != seq!['\\', 'r']) by { assert(dec1(c).len() == 1); }
            assert(dec2(c) != seq!['\\', 'S']) by { assert(dec2(c).len() == 1); }
        }
    }
    lemma_flat_ext(s, |c: char| dec3(c), |c: char| seq![c]);
    lemma_flat_id(s);
}

/// Reading back a tag that was written to a `.tags` file gives the tag.
pub proof fn lemma_tag_roundtrip(s: Seq<char>)
    ensures
        decode_tag(encode_tag(s)) == s,
{
    let e = |c: char| escape_char(c);
    lemma_encode_flat(s);
    assert forall|c: char| !(#[trigger] e(c)).contains('\n') && !e(c).contains('\r') by {
        let w = escape_char(c);
        assert forall|i: int| 0 <= i < w.len() implies #[trigger] w[i] != '\n' && w[i] != '\r' by {}
    }
    lemma_remove_two_flat(s, e, '\n', '\r');
    lemma_decode_step1(s);
    lemma_decode_step2(s);
    lemma_decode_step3(s);
    lemma_dec3_id(s);
}

proof fn lemma_small(w: Seq<char>, x: char, to: Seq<char>)
    ensures
        w == seq![x] ==> replace_all(w, seq![x], to) == to,
        (forall|i: int| 0 <= i < w.len() ==> w[i] != x) ==> replace_all(w, seq![x], to) == w,
{
    if w == seq![x] {
        lemma_single_hit(x, to);
    }
    if forall|i: int| 0 <= i < w.len() ==> w[i] != x {
        lemma_absent(w, x, to);
    }
}

/// A file name component is the concatenation of the escapes of the name's characters.
proof fn lemma_path_flat(s: Seq<char>)
    ensures
        path_component(s) == flat(s, |c: char| path_escape_char(c)),
{
    let g0 = |c: char| seq![c];
    let g1 = |c: char| replace_all(g0(c), seq!['%'], seq!['%', 'p']);
    let g2 = |c: char| replace_all(g1(c), seq!['\0'], seq!['%', '0']);
    let g3 = |c: char| replace_all(g2(c), seq!['/'], seq!['%', 's']);
    let g4 = |c: char| replace_all(g3(c), seq!['\\'], seq!['%', 'S']);
    let g5 = |c: char| replace_all(g4(c), seq!['\t'], seq!['%', 't']);
    let g6 = |c: char| replace_all(g5(c), seq!['\r'], seq!['%', 'r']);
    let g7 = |c: char| replace_all(g6(c), seq!['\n'], seq!['%', 'n']);
    lemma_flat_id(s);
    lemma_replace_char_flat(s, g0, '%', seq!['%', 'p']);
    lemma_replace_char_flat(s, g1, '\0', seq!['%', '0']);
    lemma_replace_char_flat(s, g2, '/', seq!['%', 's']);
    lemma_replace_char_flat(s, g3, '\\', seq!['%', 'S']);
    lemma_replace_char_flat(s, g4, '\t', seq!['%', 't']);
    lemma_replace_char_flat(s, g5, '\r', seq!['%', 'r']);
    lemma_replace_char_flat(s, g6, '\n', seq!['%', 'n']);
    assert forall|c: char| #[trigger] g7(c) == path_escape_char(c) by {
        lemma_small(g0(c), '%', seq!['%', 'p']);
        lemma_small(g1(c), '\0', seq!['%', '0']);
        lemma_small(g2(c), '/', seq!['%', 's']);
        lemma_small(g3(c), '\\', seq!['%', 'S']);
        lemma_small(g4(c), '\t', seq!['%', 't']);
        lemma_small(g5(c), '\r', seq!['%', 'r']);
        lemma_small(g6(c), '\n', seq!['%', 'n']);
    }
    lemma_flat_ext(s, g7, |c: char| path_escape_char(c));
}

/// No character of `flat(s, f)` is `x` when no `f(c)` holds `x`.
proof fn lemma_flat_avoids(s: Seq<char>, f: spec_fn(char) -> Seq<char>, x: char)
    requires
        forall|c: char, i: int| 0 <= i < f(c).len() ==> #[trigger] f(c)[i] != x,
    ensures
        forall|i: int| 0 <= i < flat(s, f).len() ==> flat(s, f)[i] != x,
    decreases s.len(),
{
    if s.len() > 0 {
        lemma_flat_avoids(s.skip(1), f, x);
        let w = f(s[0]);
        let r = flat(s.skip(1), f);
        assert forall|i: int| 0 <= i < (w + r).len() implies (w + r)[i] != x by {
            if i < w.len() {
                assert((w + r)[i] == w[i]);
            } else {
                assert((w + r)[i] == r[i - w.len()]);
            }
        }
    }
}

/// A file name component holds no path separator, NUL, tab or line break.
pub proof fn lemma_path_component_safe(s: Seq<char>)
    ensures
        forall|i: int| 0 <= i < path_component(s).len() ==> {
            let c = #[trigger] path_component(s)[i];
            c != '/' && c != '\\' && c != '\0' && c != '\t' && c != '\r' && c != '\n'
        },
{
    let f = |c: char| path_escape_char(c);
    lemma_path_flat(s);
    lemma_flat_avoids(s, f, '/');
    lemma_flat_avoids(s, f, '\\');
    lemma_flat_avoids(s, f, '\0');
    lemma_flat_avoids(s, f, '\t');
    lemma_flat_avoids(s, f, '\r');
    lemma_flat_avoids(s, f, '\n');
}

proof fn lemma_path_flat_inj(a: Seq<char>, b: Seq<char>)
    requires
        flat(a, |c: char| path_escape_char(c)) == flat(b, |c: char| path_escape_char(c)),
    ensures
        a == b,
    decreases a.len() + b.len(),
{
    let f = |c: char| path_escape_char(c);
    if a.len() == 0 || b.len() == 0 {
        if a.len() > 0 {
            assert(flat(a, f).len() > 0);
        }
        if b.len() > 0 {
            assert(flat(b, f).len() > 0);
        }
        assert(a =~= b);
    } else {
        let (wa, wb) = (f(a[0]), f(b[0]));
        let (ra, rb) = (flat(a.skip(1), f), flat(b.skip(1), f));
        assert(flat(a, f) == wa + ra);
        assert(flat(b, f) == wb + rb);
        assert((wa + ra)[0] == wa[0]);
        assert((wb + rb)[0] == wb[0]);
        assert(wa[0] == wb[0]);
        if wa.len() == 2 {
            assert(wb.len() == 2);
            assert((wa + ra)[1] == wa[1]);
            assert((wb + rb)[1] == wb[1]);
        } else {
            assert(wb.len() == 1);
        }
        assert(a[0] == b[0]);
        assert(wa == wb);
        assert(ra =~= (wa + ra).skip(wa.len() as int));
        assert(rb =~= (wb + rb).skip(wb.len() as int));
        lemma_path_flat_inj(a.skip(1), b.skip(1));
        assert(a =~= seq![a[0]] + a.skip(1));
        assert(b =~= seq![b[0]] + b.skip(1));
    }
}

/// Different names give different file name components.
pub proof fn lemma_path_component_injective(a: Seq<char>, b: Seq<char>)
    requires
        path_component(a) == path_component(b),
    ensures
        a == b,
{
    lemma_path_flat(a);
    lemma_path_flat(b);
    lemma_path_flat_inj(a, b);
}

/// The file that holds the tags of an entry with this name: `<name>.tags`.
pub fn tags_file_name(name: &str) -> (r: String)
    ensures
        r@ == path_component(name@) + ".tags"@,
{
    let base = normalize_to_file_path_component_for_custom_files(name);
    let mut v = chars_of(base.as_str());
    push_str(&mut v, ".tags");
    string_of(&v)
}

/// The directory that holds what an entry with this name contains (an
/// artist's albums and singles, an album's songs): `<name>.d`.
pub fn entries_dir_name(name: &str) -> (r: String)
    ensures
        r@ == path_component(name@) + ".d"@,
{
    let base = normalize_to_file_path_component_for_custom_files(name);
    let mut v = chars_of(base.as_str());
    push_str(&mut v, ".d");
    string_of(&v)
}

/// Entries with different names never share a tags file or a directory.
pub proof fn lemma_custom_file_names_distinct(a: Seq<char>, b: Seq<char>)
    requires
        a != b,
    ensures
        path_component(a) + ".tags"@ != path_component(b) + ".tags"@,
        path_component(a) + ".d"@ != path_component(b) + ".d"@,
{
    lemma_suffix_cancels(path_component(a), path_component(b), ".tags"@);
    lemma_suffix_cancels(path_component(a), path_component(b), ".d"@);
    if path_component(a) == path_component(b) {
        lemma_path_component_injective(a, b);
    }
}

proof fn lemma_suffix_cancels(x: Seq<char>, y: Seq<char>, t: Seq<char>)
    ensures
        x + t == y + t ==> x == y,
{
    if x + t == y + t {
        assert((x + t).len() == (y + t).len());
        assert(x =~= (x + t).take(x.len() as int));
        assert(y =~= (y + t).take(y.len() as int));
    }
}

} // verus!

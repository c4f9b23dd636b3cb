//! Decisions of the database filler that do not touch the file system:
//! which tags a song gets from its audio file, how tags from custom files
//! are merged, what is written back to custom files, and which image
//! becomes an album's cover.
use vstd::prelude::*;
use crate::custom_files::{decode_tag, encode_tag, normalize_tag_to_str, normalized_str_to_tag};
use crate::numparse::{word_ci, word_ci_exec};
use crate::strings::{chars_of, decimal, push_decimal, push_str, string_of};
use crate::textcfg::find_char;
use crate::textgen::{first_tag, first_tag_from, is_prefix, strings_model, TagMatch};

verus! {

broadcast use vstd::string::group_string_axioms;

/// Prints a line break before the first message about a file, and only
/// before the first.
pub struct OnceNewline(pub bool);

impl OnceNewline {
    pub fn new() -> (r: Self)
        ensures
            r.0,
    {
        OnceNewline(true)
    }

    /// Whether the line break is due now; it is due at the first call only.
    pub fn now(&mut self) -> (r: bool)
        ensures
            r == old(self).0,
            !final(self).0,
    {
        let r = self.0;
        self.0 = false;
        r
    }
}

/// The prefix of tags that were read from the audio file.
pub open spec fn srcfile_prefix() -> Seq<char> {
    seq!['S', 'R', 'C', 'F', 'I', 'L', 'E', ':']
}

fn srcfile_prefix_exec() -> (v: Vec<char>)
    ensures
        v@ == srcfile_prefix(),
{
    let v = vec!['S', 'R', 'C', 'F', 'I', 'L', 'E', ':'];
    assert(v@ =~= srcfile_prefix());
    v
}

/// A signed number in decimal.
pub open spec fn int_decimal(i: int) -> Seq<char> {
    if i < 0 { seq!['-'] + decimal((-i) as nat) } else { decimal(i as nat) }
}

/// Appends a signed number in decimal.
pub fn push_i32(out: &mut Vec<char>, v: i32)
    ensures
        final(out)@ == old(out)@ + int_decimal(v as int),
{
    if v < 0 {
        out.push('-');
        let m: u64 = if v == i32::MIN { 2147483648u64 } else { (-v) as u64 };
        push_decimal(out, m);
        assert(final(out)@ =~= old(out)@ + int_decimal(v as int));
    } else {
        push_decimal(out, v as u64);
    }
}

/// `SRCFILE:<kind>=<n>/<t>`, `SRCFILE:<kind>=<n>` or `SRCFILE:<kind>=?/<t>`,
/// for a number and a total of which at least one is known.
pub open spec fn count_tag(kind: Seq<char>, n: Option<u32>, t: Option<u32>) -> Option<Seq<char>> {
    let head = srcfile_prefix() + kind + seq!['='];
    match (n, t) {
        (None, None) => None,
        (Some(n), Some(t)) => Some(head + decimal(n as nat) + seq!['/'] + decimal(t as nat)),
        (Some(n), None) => Some(head + decimal(n as nat)),
        (None, Some(t)) => Some(head + seq!['?', '/'] + decimal(t as nat)),
    }
}

/// The tag for a track or disc number (`kind` is `TrackNr` or `DiscNr`).
pub fn srcfile_count_tag(kind: &str, n: Option<u32>, t: Option<u32>) -> (r: Option<String>)
    ensures
        match count_tag(kind@, n, t) {
            Some(x) => r matches Some(s) && s@ == x,
            None => r is None,
        },
{
    if n.is_none() && t.is_none() {
        return None;
    }
    let mut out = srcfile_prefix_exec();
    push_str(&mut out, kind);
    out.push('=');
    match n {
        Some(n) => {
            push_decimal(&mut out, n as u64);
        },
        None => {
            out.push('?');
        },
    }
    match t {
        Some(t) => {
            if n.is_none() {
                assert(out@ =~= srcfile_prefix() + kind@ + seq!['='] + seq!['?']);
            }
            out.push('/');
            push_decimal(&mut out, t as u64);
        },
        None => {},
    }
    let r = string_of(&out);
    proof {
        let head = srcfile_prefix() + kind@ + seq!['='];
        match (n, t) {
            (Some(a), Some(b)) => assert(r@ =~= head + decimal(a as nat) + seq!['/'] + decimal(b as nat)),
            (Some(a), None) => assert(r@ =~= head + decimal(a as nat)),
            (None, Some(b)) => assert(r@ =~= head + seq!['?', '/'] + decimal(b as nat)),
            (None, None) => {},
        }
    }
    Some(r)
}

/// `SRCFILE:Year=<year>`.
pub fn srcfile_year_tag(year: i32) -> (r: String)
    ensures
        r@ == srcfile_prefix() + seq!['Y', 'e', 'a', 'r', '='] + int_decimal(year as int),
{
    let mut out = srcfile_prefix_exec();
    out.push('Y');
    out.push('e');
    out.push('a');
    out.push('r');
    out.push('=');
    assert(out@ =~= srcfile_prefix() + seq!['Y', 'e', 'a', 'r', '=']);
    push_i32(&mut out, year);
    string_of(&out)
}

/// `SRCFILE:<name>=<value>` (the genre and the image extension tags).
pub fn srcfile_value_tag(name: &str, value: &str) -> (r: String)
    ensures
        r@ == srcfile_prefix() + name@ + seq!['='] + value@,
{
    let mut out = srcfile_prefix_exec();
    push_str(&mut out, name);
    out.push('=');
    push_str(&mut out, value);
    string_of(&out)
}

/// The tags of an artist whose image, found in the custom-files directory,
/// has the extension `ext`: `SRCFILE:ImageExt=<ext>` and `ImageExt=<ext>`.
pub fn image_ext_tags(ext: &str) -> (r: Vec<String>)
    ensures
        strings_model(r@) == seq![
            srcfile_prefix() + "ImageExt"@ + seq!['='] + ext@,
            "ImageExt"@ + seq!['='] + ext@,
        ],
{
    let mut r: Vec<String> = Vec::new();
    let a = srcfile_value_tag("ImageExt", ext);
    let mut v: Vec<char> = Vec::new();
    push_str(&mut v, "ImageExt");
    v.push('=');
    push_str(&mut v, ext);
    assert(v@ =~= "ImageExt"@ + seq!['='] + ext@);
    let b = string_of(&v);
    r.push(a);
    r.push(b);
    assert(r@[0]@ == srcfile_prefix() + "ImageExt"@ + seq!['='] + ext@);
    assert(r@[1]@ == "ImageExt"@ + seq!['='] + ext@);
    assert(strings_model(r@) =~= seq![
        srcfile_prefix() + "ImageExt"@ + seq!['='] + ext@,
        "ImageExt"@ + seq!['='] + ext@,
    ]);
    r
}

/// `tags` with `t` appended unless it holds it already.
pub open spec fn add_unique(tags: Seq<Seq<char>>, t: Seq<char>) -> Seq<Seq<char>> {
    if tags.contains(t) { tags } else { tags.push(t) }
}

/// `tags` after adding each of `new`, in order, unless already present.
pub open spec fn add_all_unique(tags: Seq<Seq<char>>, new: Seq<Seq<char>>) -> Seq<Seq<char>>
    decreases new.len(),
{
    if new.len() == 0 {
        tags
    } else {
        add_all_unique(add_unique(tags, new[0]), new.skip(1))
    }
}

/// A line without a carriage return that ended it.
pub open spec fn strip_cr(l: Seq<char>) -> Seq<char> {
    if l.len() > 0 && l.last() == '\r' { l.drop_last() } else { l }
}

/// The lines of a text, as `str::lines` returns them: split at `\n`, with a
/// `\r` before the `\n` removed, and no empty line after a final `\n`.
pub open spec fn text_lines(s: Seq<char>) -> Seq<Seq<char>>
    decreases s.len(),
{
    let q = find_char(s, 0, '\n');
    if s.len() == 0 {
        seq![]
    } else if q < 0 || q >= s.len() {
        seq![s]
    } else {
        seq![strip_cr(s.take(q))] + text_lines(s.skip(q + 1))
    }
}

/// What merging a `.tags` file into a tag list gives: each line, read as a
/// tag, is added unless present.
pub open spec fn merged_tags(tags: Seq<Seq<char>>, info: Seq<char>) -> Seq<Seq<char>> {
    add_all_unique(tags, text_lines(info).map_values(|l: Seq<char>| decode_tag(l)))
}

fn contains_string(tags: &Vec<String>, t: &String) -> (r: bool)
    ensures
        r == strings_model(tags@).contains(t@),
{
    let ghost m = strings_model(tags@);
    let mut i: usize = 0;
    while i < tags.len()
        invariant
            i <= tags@.len(),
            m == strings_model(tags@),
            forall|k: int| 0 <= k < i ==> m[k] != t@,
        decreases tags.len() - i,
    {
        if tags[i] == *t {
            assert(m[i as int] == t@);
            return true;
        }
        i = i + 1;
    }
    false
}

/// Adds `t` unless `tags` holds it.
pub fn push_unique(tags: &mut Vec<String>, t: String)
    ensures
        strings_model(final(tags)@) == add_unique(strings_model(old(tags)@), t@),
{
    if !contains_string(tags, &t) {
        let ghost before = tags@;
        tags.push(t);
        assert(strings_model(tags@) =~= strings_model(before).push(t@));
    }
}

proof fn lemma_add_all_push(tags: Seq<Seq<char>>, new: Seq<Seq<char>>, x: Seq<char>)
    ensures
        add_all_unique(tags, new.push(x)) == add_unique(add_all_unique(tags, new), x),
    decreases new.len(),
{
    if new.len() == 0 {
        let e = Seq::<Seq<char>>::empty();
        assert(new.push(x).skip(1) =~= e);
        assert(new.push(x)[0] == x);
        assert(add_all_unique(add_unique(tags, x), e) == add_unique(tags, x));
        assert(new =~= e);
    } else {
        assert(new.push(x)[0] == new[0]);
        assert(new.push(x).skip(1) =~= new.skip(1).push(x));
        lemma_add_all_push(add_unique(tags, new[0]), new.skip(1), x);
    }
}

proof fn lemma_lines_step(s: Seq<char>, i: int, q: int)
    requires
        0 <= i < s.len(),
        q == find_char(s.skip(i), 0, '\n'),
        0 <= q < s.len() - i,
    ensures
        text_lines(s.skip(i)) == seq![strip_cr(s.skip(i).take(q))] + text_lines(s.skip(i + q + 1)),
{
    assert(s.skip(i).skip(q + 1) =~= s.skip(i + q + 1));
}

proof fn lemma_find_char_shift(s: Seq<char>, i: int, p: int, c: char)
    requires
        0 <= i <= p <= s.len(),
    ensures
        find_char(s.skip(i), p - i, c) == find_char(s, p, c) - i,
    decreases s.len() - p,
{
    if p < s.len() && s[p] != c {
        lemma_find_char_shift(s, i, p + 1, c);
    }
}

/// Merges the lines of a `.tags` file into a tag list.
pub fn push_tags(info: &str, tags: &mut Vec<String>)
    ensures
        strings_model(final(tags)@) == merged_tags(strings_model(old(tags)@), info@),
{
    let s = chars_of(info);
    let n = s.len();
    let ghost start = strings_model(tags@);
    let ghost all = text_lines(s@).map_values(|l: Seq<char>| decode_tag(l));
    let ghost mut done: Seq<Seq<char>> = seq![];
    let mut i: usize = 0;
    assert(s@.skip(0) =~= s@);
    while i < n
        invariant
            n == s@.len(),
            i <= n,
            all == text_lines(s@).map_values(|l: Seq<char>| decode_tag(l)),
            done + text_lines(s@.skip(i as int)).map_values(|l: Seq<char>| decode_tag(l)) == all,
            strings_model(tags@) == add_all_unique(start, done),
        decreases n - i,
    {
        let mut j = i;
        while j < n && s[j] != '\n'
            invariant
                i <= j <= n,
                n == s@.len(),
                forall|k: int| i <= k < j ==> s@[k] != '\n',
            decreases n - j,
        {
            j = j + 1;
        }
        proof {
            lemma_find_char_shift(s@, i as int, i as int, '\n');
            lemma_find_char_shift(s@, i as int, j as int, '\n');
            assert(find_char(s@, i as int, '\n') == find_char(s@, j as int, '\n')) by {
                lemma_find_char_range(s@, i as int, j as int, '\n');
            }
        }
        // the line is s[i..j], without a final '\r' when a '\n' follows
        let mut end = j;
        if j < n && j > i && s[j - 1] == '\r' {
            end = j - 1;
        }
        let mut line: Vec<char> = Vec::new();
        let mut k = i;
        while k < end
            invariant
                i <= k <= end <= n,
                n == s@.len(),
                line@ == s@.subrange(i as int, k as int),
            decreases end - k,
        {
            line.push(s[k]);
            k = k + 1;
            assert(line@ =~= s@.subrange(i as int, k as int));
        }
        let text = string_of(&line);
        let tag = normalized_str_to_tag(text.as_str());
        let ghost rest = s@.skip(i as int);
        let ghost this_line = if j < n { strip_cr(rest.take(j - i)) } else { rest };
        proof {
            if j < n {
                lemma_lines_step(s@, i as int, (j - i) as int);
                assert(rest.take(j - i) =~= s@.subrange(i as int, j as int));
                assert(line@ =~= strip_cr(rest.take(j - i)));
            } else {
                assert(find_char(rest, 0, '\n') >= rest.len());
                assert(line@ =~= rest);
            }
        }
        push_unique(tags, tag);
        proof {
            let next = if j < n { s@.skip(j + 1) } else { s@.skip(n as int) };
            assert(text_lines(rest) == seq![this_line] + text_lines(next)) by {
                if j >= n {
                    assert(text_lines(s@.skip(n as int)) =~= Seq::<Seq<char>>::empty()) by {
                        assert(s@.skip(n as int).len() == 0);
                    }
                }
            }
            assert((seq![this_line] + text_lines(next)).map_values(|l: Seq<char>| decode_tag(l))
                =~= seq![decode_tag(this_line)] + text_lines(next).map_values(|l: Seq<char>| decode_tag(l)));
            lemma_add_all_push(start, done, decode_tag(this_line));
            done = done.push(decode_tag(this_line));
        }
        i = if j < n { j + 1 } else { n };
    }
    proof {
        assert(text_lines(s@.skip(n as int)) =~= Seq::<Seq<char>>::empty()) by {
            assert(s@.skip(n as int).len() == 0);
        }
        assert(done =~= all);
    }
}

proof fn lemma_find_char_range(s: Seq<char>, i: int, j: int, c: char)
    requires
        0 <= i <= j <= s.len(),
        forall|k: int| i <= k < j ==> s[k] != c,
    ensures
        find_char(s, i, c) == find_char(s, j, c),
    decreases j - i,
{
    if i < j {
        lemma_find_char_range(s, i + 1, j, c);
    }
}

/// The value of a tag that was read from the audio file (after `SRCFILE:`).
pub open spec fn srcfile_piece(t: Seq<char>) -> Seq<Seq<char>> {
    if is_prefix(srcfile_prefix(), t) { seq![t.skip(8)] } else { seq![] }
}

/// The values of the `SRCFILE:` tags, in order.
pub open spec fn srcfile_values(tags: Seq<Seq<char>>) -> Seq<Seq<char>>
    decreases tags.len(),
{
    if tags.len() == 0 {
        seq![]
    } else {
        srcfile_values(tags.drop_last()) + srcfile_piece(tags.last())
    }
}

/// `t` without its first `n` characters.
fn skip_chars(t: &Vec<char>, n: usize) -> (r: Vec<char>)
    requires
        n <= t@.len(),
    ensures
        r@ == t@.skip(n as int),
{
    let mut r: Vec<char> = Vec::new();
    let mut i = n;
    while i < t.len()
        invariant
            n <= i <= t@.len(),
            r@ == t@.subrange(n as int, i as int),
        decreases t.len() - i,
    {
        r.push(t[i]);
        i = i + 1;
        assert(r@ =~= t@.subrange(n as int, i as int));
    }
    r
}

fn starts_with(t: &Vec<char>, p: &Vec<char>) -> (r: bool)
    ensures
        r == is_prefix(p@, t@),
{
    if p.len() > t.len() {
        return false;
    }
    let mut i: usize = 0;
    while i < p.len()
        invariant
            i <= p@.len() <= t@.len(),
            forall|k: int| 0 <= k < i ==> t@[k] == p@[k],
        decreases p.len() - i,
    {
        if t[i] != p[i] {
            assert(t@.take(p@.len() as int)[i as int] != p@[i as int]);
            return false;
        }
        i = i + 1;
    }
    assert(t@.take(p@.len() as int) =~= p@);
    true
}

/// The value after `SRCFILE:`, for a tag read from the audio file.
fn srcfile_value_of(tag: &String) -> (r: Option<String>)
    ensures
        match r {
            Some(v) => is_prefix(srcfile_prefix(), tag@) && v@ == tag@.skip(8),
            None => !is_prefix(srcfile_prefix(), tag@),
        },
{
    let t = chars_of(tag.as_str());
    let p = srcfile_prefix_exec();
    if starts_with(&t, &p) {
        Some(string_of(&skip_chars(&t, 8)))
    } else {
        None
    }
}

/// The tags after adding, unless present, the value of every `SRCFILE:` tag.
pub open spec fn unsrcfile_spec(tags: Seq<Seq<char>>) -> Seq<Seq<char>> {
    add_all_unique(tags, srcfile_values(tags))
}

/// Adds the value of every `SRCFILE:` tag as a tag of its own, unless present.
pub fn unsrcfile(tags: &mut Vec<String>)
    ensures
        strings_model(final(tags)@) == unsrcfile_spec(strings_model(old(tags)@)),
{
    let ghost m = strings_model(tags@);
    let mut vals: Vec<String> = Vec::new();
    let mut i: usize = 0;
    while i < tags.len()
        invariant
            i <= tags@.len(),
            m == strings_model(tags@),
            strings_model(vals@) == srcfile_values(m.take(i as int)),
        decreases tags.len() - i,
    {
        let ghost before = vals@;
        assert(m.take(i + 1).drop_last() =~= m.take(i as int));
        assert(m.take(i + 1).last() == tags@[i as int]@);
        match srcfile_value_of(&tags[i]) {
            Some(v) => {
                vals.push(v);
                assert(strings_model(vals@) =~= strings_model(before) + srcfile_piece(tags@[i as int]@));
            },
            None => {
                assert(strings_model(vals@) =~= strings_model(before) + srcfile_piece(tags@[i as int]@));
            },
        }
        i = i + 1;
    }
    assert(m.take(tags@.len() as int) =~= m);
    let ghost vm = strings_model(vals@);
    let mut k: usize = 0;
    while k < vals.len()
        invariant
            k <= vals@.len(),
            vm == strings_model(vals@),
            strings_model(tags@) == add_all_unique(m, vm.take(k as int)),
        decreases vals.len() - k,
    {
        proof {
            lemma_add_all_push(m, vm.take(k as int), vm[k as int]);
            assert(vm.take(k + 1) =~= vm.take(k as int).push(vm[k as int]));
        }
        push_unique(tags, vals[k].clone());
        k = k + 1;
    }
    assert(vm.take(vals@.len() as int) =~= vm);
}

/// Whether the `j`-th tag makes the `i`-th tag be left out of a custom file:
/// a `SRCFILE:` tag leaves out itself, and the first tag equal to its value.
pub open spec fn leaves_out(tags: Seq<Seq<char>>, j: int, i: int) -> bool {
    &&& is_prefix(srcfile_prefix(), tags[j])
    &&& (j == i || first_tag_from(tags, 0, TagMatch::Equal, tags[j].skip(8)) == Some(i))
}

pub open spec fn left_out(tags: Seq<Seq<char>>, i: int) -> bool {
    exists|j: int| 0 <= j < tags.len() && #[trigger] leaves_out(tags, j, i)
}

/// The tags among the first `n` that a custom file keeps.
pub open spec fn kept_tags(tags: Seq<Seq<char>>, n: int) -> Seq<Seq<char>>
    decreases n,
{
    if n <= 0 {
        seq![]
    } else if left_out(tags, n - 1) {
        kept_tags(tags, n - 1)
    } else {
        kept_tags(tags, n - 1).push(tags[n - 1])
    }
}

/// Each tag as an escaped line, each preceded by `lead`.
pub open spec fn tag_lines(ts: Seq<Seq<char>>, lead: Seq<char>) -> Seq<char>
    decreases ts.len(),
{
    if ts.len() == 0 {
        seq![]
    } else {
        tag_lines(ts.drop_last(), lead) + lead + encode_tag(ts.last()) + seq!['\n']
    }
}

/// The text of a custom `.tags` file: the kept tags, then the internal
/// values, each marked with `\!`.
pub open spec fn export_text(tags: Seq<Seq<char>>, internals: Seq<Seq<char>>) -> Seq<char> {
    tag_lines(kept_tags(tags, tags.len() as int), seq![]) + tag_lines(internals, seq!['\\', '!'])
}

fn push_tag_line(out: &mut Vec<char>, tag: &String)
    ensures
        final(out)@ == old(out)@ + encode_tag(tag@) + seq!['\n'],
{
    let e = normalize_tag_to_str(tag.as_str());
    push_str(out, e.as_str());
    out.push('\n');
}

/// The text of the custom `.tags` file for an entry with `tags`, and with
/// `internals` (such as its id) that only the database knows.
pub fn export_tags_text(tags: &Vec<String>, internals: &Vec<String>) -> (r: String)
    ensures
        r@ == export_text(strings_model(tags@), strings_model(internals@)),
{
    let ghost m = strings_model(tags@);
    let n = tags.len();
    let mut removed: Vec<bool> = Vec::new();
    let mut z: usize = 0;
    while z < n
        invariant
            z <= n,
            removed@.len() == z,
            forall|i: int| 0 <= i < z ==> !removed@[i],
        decreases n - z,
    {
        removed.push(false);
        z = z + 1;
    }
    let mut j: usize = 0;
    while j < n
        invariant
            n == tags@.len(),
            m == strings_model(tags@),
            m.len() == n,
            j <= n,
            removed@.len() == n,
            forall|i: int| 0 <= i < n ==>
                (#[trigger] removed@[i] <==> exists|jj: int| 0 <= jj < j && leaves_out(m, jj, i)),
        decreases n - j,
    {
        assert(m[j as int] == tags@[j as int]@);
        match srcfile_value_of(&tags[j]) {
            Some(v) => {
                let vc = chars_of(v.as_str());
                let found = first_tag(tags, TagMatch::Equal, &vc);
                let ghost old_removed = removed@;
                removed.set(j, true);
                match found {
                    Some(k) => {
                        removed.set(k, true);
                    },
                    None => {},
                }
                assert forall|i: int| 0 <= i < n implies
                    (#[trigger] removed@[i] <==> exists|jj: int| 0 <= jj < j + 1 && leaves_out(m, jj, i)) by {
                    if leaves_out(m, j as int, i) {
                        assert(removed@[i]);
                    }
                    if removed@[i] && !old_removed[i] {
                        assert(leaves_out(m, j as int, i));
                    }
                    if exists|jj: int| 0 <= jj < j + 1 && leaves_out(m, jj, i) {
                        let jj = choose|jj: int| 0 <= jj < j + 1 && leaves_out(m, jj, i);
                        if jj < j {
                            assert(old_removed[i]);
                        }
                    }
                }
            },
            None => {
                assert forall|i: int| 0 <= i < n implies
                    (#[trigger] removed@[i] <==> exists|jj: int| 0 <= jj < j + 1 && leaves_out(m, jj, i)) by {
                    if exists|jj: int| 0 <= jj < j + 1 && leaves_out(m, jj, i) {
                        let jj = choose|jj: int| 0 <= jj < j + 1 && leaves_out(m, jj, i);
                        assert(jj < j);
                    }
                }
            },
        }
        j = j + 1;
    }
    let mut out: Vec<char> = Vec::new();
    let mut i: usize = 0;
    while i < n
        invariant
            n == tags@.len(),
            m == strings_model(tags@),
            i <= n,
            removed@.len() == n,
            forall|x: int| 0 <= x < n ==> (#[trigger] removed@[x] <==> left_out(m, x)),
            out@ == tag_lines(kept_tags(m, i as int), seq![]),
        decreases n - i,
    {
        let ghost before = out@;
        assert(m[i as int] == tags@[i as int]@);
        if !removed[i] {
            push_tag_line(&mut out, &tags[i]);
            let ghost k = kept_tags(m, i + 1);
            assert(k.drop_last() == kept_tags(m, i as int));
            assert(out@ =~= before + Seq::<char>::empty() + encode_tag(k.last()) + seq!['\n']);
        }
        i = i + 1;
    }
    let ghost im = strings_model(internals@);
    let ghost mid = out@;
    let mut q: usize = 0;
    while q < internals.len()
        invariant
            q <= internals@.len(),
            im == strings_model(internals@),
            out@ == mid + tag_lines(im.take(q as int), seq!['\\', '!']),
        decreases internals.len() - q,
    {
        out.push('\\');
        out.push('!');
        push_tag_line(&mut out, &internals[q]);
        proof {
            let t = im.take(q + 1);
            assert(t.drop_last() =~= im.take(q as int));
            assert(t.last() == internals@[q as int]@);
            assert(out@ =~= mid + (tag_lines(im.take(q as int), seq!['\\', '!']) + seq!['\\', '!'] + encode_tag(t.last()) + seq!['\n']));
        }
        q = q + 1;
    }
    assert(im.take(internals@.len() as int) =~= im);
    string_of(&out)
}

/// The internal values written to a custom file: `id=<id>` and `cover=<cover>`, when known.
pub open spec fn internals_spec(id: Option<u64>, cover: Option<u64>) -> Seq<Seq<char>> {
    (match id { Some(i) => seq![seq!['i', 'd', '='] + decimal(i as nat)], None => seq![] })
        + (match cover { Some(c) => seq![seq!['c', 'o', 'v', 'e', 'r', '='] + decimal(c as nat)], None => seq![] })
}

pub fn gen_internals(id: Option<u64>, cover: Option<u64>) -> (r: Vec<String>)
    ensures
        strings_model(r@) == internals_spec(id, cover),
{
    let mut r: Vec<String> = Vec::new();
    if let Some(i) = id {
        let mut v = vec!['i', 'd', '='];
        assert(v@ =~= seq!['i', 'd', '=']);
        push_decimal(&mut v, i);
        r.push(string_of(&v));
    }
    let ghost first = strings_model(r@);
    if let Some(c) = cover {
        let mut v = vec!['c', 'o', 'v', 'e', 'r', '='];
        assert(v@ =~= seq!['c', 'o', 'v', 'e', 'r', '=']);
        push_decimal(&mut v, c);
        r.push(string_of(&v));
    }
    assert(strings_model(r@) =~= internals_spec(id, cover));
    r
}

/// Whether a file extension names an image: `png`, `jpg` or `jpeg`, in any ASCII case.
pub open spec fn is_image_extension(e: Seq<char>) -> bool {
    ||| word_ci(e, seq!['p', 'n', 'g'])
    ||| word_ci(e, seq!['j', 'p', 'g'])
    ||| word_ci(e, seq!['j', 'p', 'e', 'g'])
}

pub fn image_extension(e: &str) -> (r: bool)
    ensures
        r == is_image_extension(e@),
{
    let v = chars_of(e);
    let png = ['p', 'n', 'g'];
    let jpg = ['j', 'p', 'g'];
    let jpeg = ['j', 'p', 'e', 'g'];
    assert(png@ =~= seq!['p', 'n', 'g']);
    assert(jpg@ =~= seq!['j', 'p', 'g']);
    assert(jpeg@ =~= seq!['j', 'p', 'e', 'g']);
    word_ci_exec(v.as_slice(), png.as_slice()) || word_ci_exec(v.as_slice(), jpg.as_slice())
        || word_ci_exec(v.as_slice(), jpeg.as_slice())
}

/// An entry of a directory that may hold an album's cover.
pub struct CoverCandidate {
    /// Whether the entry's metadata could be read and says it is a file.
    pub is_file: bool,
    /// The extension, if it is valid unicode.
    pub extension: Option<String>,
    pub size: u64,
}

/// The cover that a directory gives, and whether more than one image competed.
#[derive(Debug, Clone, Copy, PartialEq)]
pub struct CoverChoice {
    pub chosen: Option<usize>,
    pub multiple: bool,
}

/// Whether a candidate is an image file.
pub open spec fn is_image_file(c: CoverCandidate) -> bool {
    c.is_file && match c.extension {
        Some(e) => is_image_extension(e@),
        None => false,
    }
}

/// The choice after the first `n` entries: an image replaces the current
/// choice when there is none or when it is strictly larger; a replacement
/// means more than one image was found.
pub open spec fn cover_scan(cs: Seq<CoverCandidate>, n: int) -> (Option<int>, bool)
    decreases n,
{
    if n <= 0 {
        (None, false)
    } else {
        let (cur, mult) = cover_scan(cs, n - 1);
        let c = cs[n - 1];
        if is_image_file(c) && (cur is None || cs[cur->0].size < c.size) {
            (Some(n - 1), mult || cur is Some)
        } else {
            (cur, mult)
        }
    }
}

proof fn lemma_cover_scan_range(cs: Seq<CoverCandidate>, n: int)
    requires
        0 <= n <= cs.len(),
    ensures
        cover_scan(cs, n).0 matches Some(k) ==> 0 <= k < n,
    decreases n,
{
    if n > 0 {
        lemma_cover_scan_range(cs, n - 1);
    }
}

/// Chooses the cover among the entries of a directory, in the order listed.
pub fn choose_cover(cs: &Vec<CoverCandidate>) -> (r: CoverChoice)
    ensures
        (match cover_scan(cs@, cs@.len() as int).0 {
            Some(k) => r.chosen == Some(k as usize),
            None => r.chosen is None,
        }),
        r.multiple == cover_scan(cs@, cs@.len() as int).1,
{
    let mut chosen: Option<usize> = None;
    let mut multiple = false;
    let mut i: usize = 0;
    while i < cs.len()
        invariant
            i <= cs@.len(),
            (match cover_scan(cs@, i as int).0 {
                Some(k) => chosen == Some(k as usize) && 0 <= k < i,
                None => chosen is None,
            }),
            multiple == cover_scan(cs@, i as int).1,
        decreases cs.len() - i,
    {
        proof {
            lemma_cover_scan_range(cs@, i as int);
        }
        let c = &cs[i];
        let image = c.is_file && match &c.extension {
            Some(e) => image_extension(e.as_str()),
            None => false,
        };
        let better = match chosen {
            None => true,
            Some(k) => cs[k].size < c.size,
        };
        if image && better {
            if chosen.is_some() {
                multiple = true;
            }
            chosen = Some(i);
        }
        i = i + 1;
    }
    CoverChoice { chosen, multiple }
}

} // verus!

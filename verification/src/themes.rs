//! Tuned theme files: their entries, read in a set order however a file
//! lists them, so that two files of the same theme compare equal.

use vstd::prelude::*;
use crate::words::{is_white, white, trim_start};
use crate::text::{push_char, texts};

verus! {

/// The pieces of `s` between the separators `sep`, as `str::split` gives
/// them: empty ones included, and one (empty) for an empty `s`.
pub open spec fn split_on(s: Seq<char>, sep: char) -> Seq<Seq<char>>
    decreases s.len(),
{
    if s.len() == 0 {
        seq![seq![]]
    } else {
        let w = split_on(s.drop_last(), sep);
        if s.last() == sep {
            w.push(seq![])
        } else {
            w.update(w.len() - 1, w.last().push(s.last()))
        }
    }
}

/// `s` with its whitespace taken out.
pub open spec fn unspaced(s: Seq<char>) -> Seq<char>
    decreases s.len(),
{
    if s.len() == 0 {
        seq![]
    } else if white(s.last()) {
        unspaced(s.drop_last())
    } else {
        unspaced(s.drop_last()).push(s.last())
    }
}

/// Whether a theme file's `line` is a comment: its first character that
/// is not whitespace is `#`.
pub open spec fn comment(line: Seq<char>) -> bool {
    trim_start(line).len() > 0 && trim_start(line)[0] == '#'
}

/// The entries of one line's pieces: each without whitespace, the empty
/// ones left out.
pub open spec fn piece_entries(pieces: Seq<Seq<char>>) -> Seq<Seq<char>>
    decreases pieces.len(),
{
    if pieces.len() == 0 {
        seq![]
    } else {
        let rest = piece_entries(pieces.drop_last());
        let e = unspaced(pieces.last());
        if e.len() > 0 {
            rest.push(e)
        } else {
            rest
        }
    }
}

/// The entries of a line: none for a comment; otherwise its comma
/// separated pieces, each without whitespace, the empty ones left out.
pub open spec fn line_entries(line: Seq<char>) -> Seq<Seq<char>> {
    if comment(line) {
        seq![]
    } else {
        piece_entries(split_on(line, ','))
    }
}

/// The entries of `lines`, line after line.
pub open spec fn lines_entries(lines: Seq<Seq<char>>) -> Seq<Seq<char>>
    decreases lines.len(),
{
    if lines.len() == 0 {
        seq![]
    } else {
        lines_entries(lines.drop_last()) + line_entries(lines.last())
    }
}

/// A theme file's entries in the order the file lists them.
pub open spec fn listed_entries(text: Seq<char>) -> Seq<Seq<char>> {
    lines_entries(split_on(text, '\n'))
}

/// `v` as character sequences.
pub open spec fn texts_of(v: Seq<Vec<char>>) -> Seq<Seq<char>> {
    v.map_values(|x: Vec<char>| x@)
}

/// `split_on` always gives a piece.
proof fn lemma_split_nonempty(s: Seq<char>, sep: char)
    ensures
        split_on(s, sep).len() > 0,
    decreases s.len(),
{
    if s.len() > 0 {
        lemma_split_nonempty(s.drop_last(), sep);
    }
}

fn chars_of(text: &str) -> (r: Vec<char>)
    ensures
        r@ == text@,
{
    let mut out: Vec<char> = Vec::new();
    for c in it: text.chars()
        invariant
            it.seq() == text@,
            out@ == text@.take(it.index() as int),
    {
        out.push(c);
        assert(out@ =~= text@.take(it.index() as int + 1));
    }
    assert(text@.take(text@.len() as int) =~= text@);
    out
}

fn copy_chars(v: &Vec<char>) -> (r: Vec<char>)
    ensures
        r@ == v@,
{
    let mut out: Vec<char> = Vec::new();
    let mut i: usize = 0;
    while i < v.len()
        invariant
            i <= v.len(),
            out@ == v@.take(i as int),
        decreases v.len() - i,
    {
        out.push(v[i]);
        i += 1;
        assert(out@ =~= v@.take(i as int));
    }
    assert(v@.take(v.len() as int) =~= v@);
    out
}

/// `s` split at each `sep`: `split_on`.
fn split_chars(s: &Vec<char>, sep: char) -> (r: Vec<Vec<char>>)
    ensures
        texts_of(r@) == split_on(s@, sep),
{
    let mut done: Vec<Vec<char>> = Vec::new();
    let mut current: Vec<char> = Vec::new();
    let mut i: usize = 0;
    while i < s.len()
        invariant
            i <= s.len(),
            split_on(s@.take(i as int), sep) == texts_of(done@).push(current@),
        decreases s.len() - i,
    {
        let ghost prev = s@.take(i as int);
        assert(s@.take(i as int + 1).drop_last() =~= prev);
        if s[i] == sep {
            let finished = copy_chars(&current);
            done.push(finished);
            current = Vec::new();
            assert(split_on(s@.take(i as int + 1), sep) =~= texts_of(done@).push(current@));
        } else {
            current.push(s[i]);
            assert(split_on(s@.take(i as int + 1), sep) =~= texts_of(done@).push(current@));
        }
        i += 1;
    }
    assert(s@.take(s.len() as int) =~= s@);
    let last = copy_chars(&current);
    done.push(last);
    assert(texts_of(done@) =~= split_on(s@, sep));
    done
}

/// `s` without its whitespace: `unspaced`.
fn unspace(s: &Vec<char>) -> (r: Vec<char>)
    ensures
        r@ == unspaced(s@),
{
    let mut out: Vec<char> = Vec::new();
    let mut i: usize = 0;
    while i < s.len()
        invariant
            i <= s.len(),
            out@ == unspaced(s@.take(i as int)),
        decreases s.len() - i,
    {
        assert(s@.take(i as int + 1).drop_last() =~= s@.take(i as int));
        if !is_white(s[i]) {
            out.push(s[i]);
        }
        i += 1;
    }
    assert(s@.take(s.len() as int) =~= s@);
    out
}

/// Whether `line` is a comment.
fn is_comment(line: &Vec<char>) -> (r: bool)
    ensures
        r == comment(line@),
{
    let mut i: usize = 0;
    assert(line@.skip(0) =~= line@);
    while i < line.len()
        invariant
            i <= line.len(),
            trim_start(line@) == trim_start(line@.skip(i as int)),
        decreases line.len() - i,
    {
        if !is_white(line[i]) {
            assert(trim_start(line@.skip(i as int)) == line@.skip(i as int));
            return line[i] == '#';
        }
        assert(line@.skip(i as int).skip(1) =~= line@.skip(i as int + 1));
        i += 1;
    }
    assert(line@.skip(i as int).len() == 0);
    false
}

/// The entries of one line: `line_entries`.
fn entries_of_line(line: &Vec<char>, out: &mut Vec<Vec<char>>)
    ensures
        texts_of(final(out)@) == texts_of(old(out)@) + line_entries(line@),
{
    if is_comment(line) {
        assert(texts_of(out@) =~= texts_of(out@) + seq![]);
        return;
    }
    let pieces = split_chars(line, ',');
    let ghost start = texts_of(out@);
    let mut i: usize = 0;
    while i < pieces.len()
        invariant
            i <= pieces.len(),
            texts_of(out@) == start + piece_entries(texts_of(pieces@).take(i as int)),
        decreases pieces.len() - i,
    {
        let ghost prev = texts_of(pieces@).take(i as int);
        assert(texts_of(pieces@).take(i as int + 1).drop_last() =~= prev);
        assert(texts_of(pieces@).take(i as int + 1).last() == pieces@[i as int]@);
        let e = unspace(&pieces[i]);
        if e.len() > 0 {
            let ghost before = texts_of(out@);
            let ghost ev = e@;
            out.push(e);
            assert(texts_of(out@) =~= before.push(ev));
            assert(texts_of(out@) =~= start + piece_entries(prev).push(ev));
        }
        i += 1;
    }
    assert(texts_of(pieces@).take(pieces.len() as int) =~= texts_of(pieces@));
}

/// A theme file's entries in the order it lists them: `listed_entries`.
fn listed(text: &str) -> (r: Vec<Vec<char>>)
    ensures
        texts_of(r@) == listed_entries(text@),
{
    let all = chars_of(text);
    let lines = split_chars(&all, '\n');
    let mut out: Vec<Vec<char>> = Vec::new();
    let mut i: usize = 0;
    while i < lines.len()
        invariant
            i <= lines.len(),
            texts_of(out@) == lines_entries(texts_of(lines@).take(i as int)),
        decreases lines.len() - i,
    {
        let ghost prev = texts_of(lines@).take(i as int);
        assert(texts_of(lines@).take(i as int + 1).drop_last() =~= prev);
        assert(texts_of(lines@).take(i as int + 1).last() == lines@[i as int]@);
        entries_of_line(&lines[i], &mut out);
        i += 1;
    }
    assert(texts_of(lines@).take(lines.len() as int) =~= texts_of(lines@));
    out
}

/// Whether `a` comes before `b`: at their first difference a character
/// of lower code point, or, where none differs, `a` is the shorter. This is
/// the order of `String`'s `Ord`, which compares the UTF-8 bytes.
pub open spec fn lex_less(a: Seq<char>, b: Seq<char>) -> bool
    decreases a.len(),
{
    if a.len() == 0 {
        b.len() > 0
    } else if b.len() == 0 {
        false
    } else if a[0] != b[0] {
        (a[0] as int) < (b[0] as int)
    } else {
        lex_less(a.skip(1), b.skip(1))
    }
}

/// Whether each of `s` comes no later than the next.
pub open spec fn sorted(s: Seq<Seq<char>>) -> bool {
    forall|i: int, j: int| 0 <= i < j < s.len() ==> !lex_less(#[trigger] s[j], #[trigger] s[i])
}

proof fn lemma_lex_irreflexive(a: Seq<char>)
    ensures
        !lex_less(a, a),
    decreases a.len(),
{
    if a.len() > 0 {
        lemma_lex_irreflexive(a.skip(1));
    }
}

proof fn lemma_lex_transitive(a: Seq<char>, b: Seq<char>, c: Seq<char>)
    requires
        lex_less(a, b),
        lex_less(b, c),
    ensures
        lex_less(a, c),
    decreases a.len(),
{
    if a.len() > 0 && b.len() > 0 && c.len() > 0 && a[0] == b[0] && b[0] == c[0] {
        lemma_lex_transitive(a.skip(1), b.skip(1), c.skip(1));
    }
}

proof fn lemma_lex_total(a: Seq<char>, b: Seq<char>)
    requires
        a != b,
    ensures
        lex_less(a, b) || lex_less(b, a),
    decreases a.len(),
{
    if a.len() > 0 && b.len() > 0 && a[0] == b[0] {
        if a.skip(1) == b.skip(1) {
            assert(a =~= seq![a[0]] + a.skip(1));
            assert(b =~= seq![b[0]] + b.skip(1));
        }
        lemma_lex_total(a.skip(1), b.skip(1));
    } else if a.len() == 0 && b.len() == 0 {
        assert(a =~= b);
    }
}

/// Whether `a` comes before `b`: `lex_less`.
fn less(a: &Vec<char>, b: &Vec<char>) -> (r: bool)
    ensures
        r == lex_less(a@, b@),
{
    let mut i: usize = 0;
    assert(a@.skip(0) =~= a@);
    assert(b@.skip(0) =~= b@);
    while i < a.len() && i < b.len()
        invariant
            i <= a.len(),
            i <= b.len(),
            lex_less(a@, b@) == lex_less(a@.skip(i as int), b@.skip(i as int)),
        decreases a.len() - i,
    {
        assert(a@.skip(i as int)[0] == a@[i as int]);
        assert(b@.skip(i as int)[0] == b@[i as int]);
        let x = a[i];
        let y = b[i];
        if x != y {
            assert(lex_less(a@.skip(i as int), b@.skip(i as int)) == ((x as int) < (y as int)));
            return x < y;
        }
        assert(a@.skip(i as int).skip(1) =~= a@.skip(i as int + 1));
        assert(b@.skip(i as int).skip(1) =~= b@.skip(i as int + 1));
        i += 1;
    }
    i < b.len()
}

/// `v` sorted: the same entries, each no later than the next.
fn sort_entries(v: &Vec<Vec<char>>) -> (r: Vec<Vec<char>>)
    ensures
        sorted(texts_of(r@)),
        texts_of(r@).to_multiset() == texts_of(v@).to_multiset(),
{
    broadcast use vstd::seq_lib::group_to_multiset_ensures;
    let mut out: Vec<Vec<char>> = Vec::new();
    let mut i: usize = 0;
    while i < v.len()
        invariant
            i <= v.len(),
            sorted(texts_of(out@)),
            texts_of(out@).to_multiset() == texts_of(v@).take(i as int).to_multiset(),
        decreases v.len() - i,
    {
        let ghost e = v@[i as int]@;
        let mut p: usize = 0;
        loop
            invariant
                i < v.len(),
                p <= out.len(),
                e == v@[i as int]@,
                forall|k: int| 0 <= k < p ==> !lex_less(e, #[trigger] texts_of(out@)[k]),
            ensures
                p <= out.len(),
                forall|k: int| 0 <= k < p ==> !lex_less(e, #[trigger] texts_of(out@)[k]),
                p < out.len() ==> lex_less(e, texts_of(out@)[p as int]),
            decreases out.len() - p,
        {
            if p == out.len() {
                break;
            }
            if less(&v[i], &out[p]) {
                break;
            }
            p += 1;
        }
        let ghost before = texts_of(out@);
        let entry = copy_chars(&v[i]);
        out.insert(p, entry);
        assert(texts_of(out@) =~= before.insert(p as int, e));
        proof {
            let after = texts_of(out@);
            assert forall|a: int, b: int| 0 <= a < b < after.len() implies !lex_less(#[trigger] after[b], #[trigger] after[a]) by {
                if b == p {
                    assert(after[a] == before[a]);
                } else if a == p {
                    assert(after[b] == before[b - 1]);
                    if lex_less(before[b - 1], e) {
                        if b - 1 > p {
                            assert(!lex_less(before[b - 1], before[p as int]));
                        }
                        lemma_lex_transitive(before[b - 1], e, before[p as int]);
                        lemma_lex_irreflexive(before[p as int]);
                    }
                } else {
                    let a0 = if a < p { a } else { a - 1 };
                    let b0 = if b < p { b } else { b - 1 };
                    assert(after[a] == before[a0]);
                    assert(after[b] == before[b0]);
                }
            }
            assert(texts_of(v@).take(i as int + 1) =~= texts_of(v@).take(i as int).push(e));
            vstd::seq_lib::to_multiset_build(texts_of(v@).take(i as int), e);
            vstd::seq_lib::to_multiset_insert(before, p as int, e);
        }
        i += 1;
    }
    assert(texts_of(v@).take(v.len() as int) =~= texts_of(v@));
    out
}

/// Sorting leaves one order only: two sorted lists of the same entries,
/// each as often, are the same list.
pub proof fn law_sorted_entries_are_unique(a: Seq<Seq<char>>, b: Seq<Seq<char>>)
    requires
        sorted(a),
        sorted(b),
        a.to_multiset() == b.to_multiset(),
    ensures
        a == b,
    decreases a.len(),
{
    broadcast use vstd::seq_lib::group_to_multiset_ensures;
    if a.len() == 0 {
        assert(b.to_multiset().len() == 0);
        assert(b.len() == 0);
        assert(a =~= b);
    } else {
        assert(b.len() == a.len()) by {
            assert(a.to_multiset().len() == a.len());
            assert(b.to_multiset().len() == b.len());
        }
        assert(a.contains(a[0]));
        assert(a.to_multiset().count(a[0]) > 0);
        assert(b.to_multiset().count(a[0]) > 0);
        assert(b.contains(a[0]));
        assert(b.contains(b[0]));
        assert(b.to_multiset().count(b[0]) > 0);
        assert(a.to_multiset().count(b[0]) > 0);
        assert(a.contains(b[0]));
        let j = choose|j: int| 0 <= j < b.len() && b[j] == a[0];
        let k = choose|k: int| 0 <= k < a.len() && a[k] == b[0];
        if a[0] != b[0] {
            lemma_lex_total(a[0], b[0]);
            if lex_less(a[0], b[0]) {
                assert(j != 0);
                assert(!lex_less(b[j], b[0]));
            } else {
                assert(k != 0);
                assert(!lex_less(a[k], a[0]));
            }
        }
        let ta = a.remove(0);
        let tb = b.remove(0);
        assert(ta.to_multiset() == a.to_multiset().remove(a[0]));
        assert(tb.to_multiset() == b.to_multiset().remove(b[0]));
        assert(sorted(ta)) by {
            assert forall|x: int, y: int| 0 <= x < y < ta.len() implies !lex_less(#[trigger] ta[y], #[trigger] ta[x]) by {
                assert(ta[x] == a[x + 1]);
                assert(ta[y] == a[y + 1]);
            }
        }
        assert(sorted(tb)) by {
            assert forall|x: int, y: int| 0 <= x < y < tb.len() implies !lex_less(#[trigger] tb[y], #[trigger] tb[x]) by {
                assert(tb[x] == b[x + 1]);
                assert(tb[y] == b[y + 1]);
            }
        }
        law_sorted_entries_are_unique(ta, tb);
        assert forall|x: int| 0 <= x < a.len() implies a[x] == b[x] by {
            if x > 0 {
                assert(a[x] == ta[x - 1]);
                assert(b[x] == tb[x - 1]);
            }
        }
        assert(a =~= b);
    }
}

fn string_of(v: &Vec<char>) -> (r: String)
    ensures
        r@ == v@,
{
    let mut out = String::new();
    let mut i: usize = 0;
    while i < v.len()
        invariant
            i <= v.len(),
            out@ == v@.take(i as int),
        decreases v.len() - i,
    {
        push_char(&mut out, v[i]);
        i += 1;
        assert(out@ =~= v@.take(i as int));
    }
    assert(v@.take(v.len() as int) =~= v@);
    out
}

/// A theme file's entries in a set order, however the file lists them:
/// those of `listed_entries`, each as often, sorted.
pub fn theme_entries(text: &str) -> (r: Vec<String>)
    ensures
        sorted(texts(r@)),
        texts(r@).to_multiset() == listed_entries(text@).to_multiset(),
{
    let entries = listed(text);
    let ordered = sort_entries(&entries);
    let mut out: Vec<String> = Vec::new();
    let mut i: usize = 0;
    while i < ordered.len()
        invariant
            i <= ordered.len(),
            texts(out@) == texts_of(ordered@).take(i as int),
        decreases ordered.len() - i,
    {
        let s = string_of(&ordered[i]);
        let ghost before = texts(out@);
        let ghost sv = s@;
        out.push(s);
        assert(texts(out@) =~= before.push(sv));
        i += 1;
        assert(texts(out@) =~= texts_of(ordered@).take(i as int));
    }
    assert(texts_of(ordered@).take(ordered.len() as int) =~= texts_of(ordered@));
    out
}

} // verus!

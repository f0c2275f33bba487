//! Caption words: text with its whitespace made single spaces.

use vstd::prelude::*;
use crate::text::push_char;

verus! {

/// Whether `c` is whitespace in Unicode's sense, the White_Space property
/// that `char::is_whitespace` answers: the controls U+0009 to U+000D, the
/// space, U+0085, the no-break space, U+1680, the spaces U+2000 to U+200A,
/// the line and paragraph separators, U+202F, U+205F and U+3000.
pub open spec fn white(c: char) -> bool {
    let u = c as u32;
    (0x09 <= u && u <= 0x0d) || u == 0x20 || u == 0x85 || u == 0xa0 || u == 0x1680
        || (0x2000 <= u && u <= 0x200a) || u == 0x2028 || u == 0x2029 || u == 0x202f
        || u == 0x205f || u == 0x3000
}

/// Whether `c` is whitespace: `white`.
pub fn is_white(c: char) -> (r: bool)
    ensures
        r == white(c),
{
    let u = c as u32;
    (0x09 <= u && u <= 0x0d) || u == 0x20 || u == 0x85 || u == 0xa0 || u == 0x1680
        || (0x2000 <= u && u <= 0x200a) || u == 0x2028 || u == 0x2029 || u == 0x202f
        || u == 0x205f || u == 0x3000
}

/// The words of `s`: its runs of characters that are not whitespace, in
/// order.
pub open spec fn words(s: Seq<char>) -> Seq<Seq<char>>
    decreases s.len(),
{
    if s.len() == 0 {
        seq![]
    } else {
        let w = words(s.drop_last());
        let c = s.last();
        if white(c) {
            w
        } else if s.len() >= 2 && !white(s[s.len() - 2]) {
            w.update(w.len() - 1, w.last().push(c))
        } else {
            w.push(seq![c])
        }
    }
}

/// `ws` joined by single spaces.
pub open spec fn join(ws: Seq<Seq<char>>) -> Seq<char>
    decreases ws.len(),
{
    if ws.len() == 0 {
        seq![]
    } else if ws.len() == 1 {
        ws[0]
    } else {
        join(ws.drop_last()) + seq![' '] + ws.last()
    }
}

/// A text's words, with its whitespace made single spaces and none at
/// either end.
pub open spec fn clean_text(s: Seq<char>) -> Seq<char> {
    join(words(s))
}

/// A text ending in a character that is not whitespace has a word.
proof fn lemma_words_nonempty(s: Seq<char>)
    requires
        s.len() > 0,
        !white(s.last()),
    ensures
        words(s).len() > 0,
    decreases s.len(),
{
    if s.len() >= 2 && !white(s[s.len() - 2]) {
        lemma_words_nonempty(s.drop_last());
    }
}

proof fn lemma_join_extend(ws: Seq<Seq<char>>, c: char)
    requires
        ws.len() > 0,
    ensures
        join(ws.update(ws.len() - 1, ws.last().push(c))) == join(ws).push(c),
{
    let u = ws.update(ws.len() - 1, ws.last().push(c));
    if ws.len() > 1 {
        assert(u.drop_last() =~= ws.drop_last());
        assert(join(u) =~= join(ws).push(c));
    }
}

proof fn lemma_join_push(ws: Seq<Seq<char>>, w: Seq<char>)
    ensures
        join(ws.push(w)) == if ws.len() == 0 { w } else { join(ws) + seq![' '] + w },
{
    assert(ws.push(w).drop_last() =~= ws);
}

/// `text` with its whitespace made single spaces and none at either end.
pub fn clean(text: &str) -> (r: String)
    ensures
        r@ == clean_text(text@),
{
    let ghost s = text@;
    let mut out = String::new();
    let mut in_word = false;
    let mut started = false;
    let ghost mut done: Seq<char> = seq![];
    for c in it: text.chars()
        invariant
            s == text@,
            it.seq() == s,
            done == s.take(it.index() as int),
            out@ == join(words(done)),
            in_word == (done.len() > 0 && !white(done.last())),
            started == (words(done).len() > 0),
    {
        let ghost prev = done;
        proof {
            done = done.push(c);
        }
        assert(done.drop_last() =~= prev);
        if is_white(c) {
            in_word = false;
        } else {
            if in_word {
                proof {
                    lemma_words_nonempty(prev);
                    lemma_join_extend(words(prev), c);
                }
                push_char(&mut out, c);
            } else {
                proof { lemma_join_push(words(prev), seq![c]); }
                if started {
                    push_char(&mut out, ' ');
                }
                push_char(&mut out, c);
                assert(out@ =~= join(words(done)));
            }
            in_word = true;
            started = true;
        }
    }
    proof { assert(done =~= s); }
    out
}

/// `s` without its leading whitespace.
pub open spec fn trim_start(s: Seq<char>) -> Seq<char>
    decreases s.len(),
{
    if s.len() > 0 && white(s[0]) {
        trim_start(s.skip(1))
    } else {
        s
    }
}

/// `s` without its trailing whitespace.
pub open spec fn trim_end(s: Seq<char>) -> Seq<char>
    decreases s.len(),
{
    if s.len() > 0 && white(s.last()) {
        trim_end(s.drop_last())
    } else {
        s
    }
}

/// `s` without whitespace at either end.
pub open spec fn trimmed(s: Seq<char>) -> Seq<char> {
    trim_end(trim_start(s))
}

/// `str::trim`: `s` without its leading and trailing whitespace, as
/// `char::is_whitespace` tells it.
#[verifier::external_body]
pub(crate) fn trim(s: &str) -> (r: &str)
    ensures
        r@ == trimmed(s@),
{
    s.trim()
}

} // verus!

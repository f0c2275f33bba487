//! The gallery's field values: the text each inspector field holds, kept
//! by the field's key, with a default for a field never set.

use vstd::prelude::*;
use crate::text::str_eq;

verus! {

/// The value kept under `key` in `entries`, at its first entry.
pub open spec fn value_of(entries: Seq<(Seq<char>, Seq<char>)>, key: Seq<char>) -> Option<Seq<char>>
    decreases entries.len(),
{
    if entries.len() == 0 {
        None
    } else if entries[0].0 == key {
        Some(entries[0].1)
    } else {
        value_of(entries.skip(1), key)
    }
}

/// `entries` with `key` holding `value`: its first entry changed, or a
/// new entry at the end where it has none.
pub open spec fn with_value(
    entries: Seq<(Seq<char>, Seq<char>)>,
    key: Seq<char>,
    value: Seq<char>,
) -> Seq<(Seq<char>, Seq<char>)>
    decreases entries.len(),
{
    if entries.len() == 0 {
        seq![(key, value)]
    } else if entries[0].0 == key {
        entries.update(0, (key, value))
    } else {
        seq![entries[0]] + with_value(entries.skip(1), key, value)
    }
}

/// The field values, key and text, in the order first set.
pub struct FieldValues {
    pub entries: Vec<(String, String)>,
}

/// The entries as character sequences.
pub open spec fn pairs(v: Seq<(String, String)>) -> Seq<(Seq<char>, Seq<char>)> {
    v.map_values(|e: (String, String)| (e.0@, e.1@))
}

impl View for FieldValues {
    type V = Seq<(Seq<char>, Seq<char>)>;

    open spec fn view(&self) -> Seq<(Seq<char>, Seq<char>)> {
        pairs(self.entries@)
    }
}

/// Where the first entry of `key` is, if anywhere.
proof fn lemma_first_entry(entries: Seq<(Seq<char>, Seq<char>)>, key: Seq<char>, i: int)
    requires
        0 <= i <= entries.len(),
        forall|j: int| 0 <= j < i ==> (#[trigger] entries[j]).0 != key,
    ensures
        i < entries.len() && entries[i].0 == key ==> value_of(entries, key) == Some(entries[i].1)
            && with_value(entries, key, entries[i].1) == entries
            && forall|v: Seq<char>| with_value(entries, key, v) == #[trigger] entries.update(i, (key, v)),
        i == entries.len() ==> value_of(entries, key) is None
            && forall|v: Seq<char>| with_value(entries, key, v) == #[trigger] entries.push((key, v)),
    decreases i,
{
    if i > 0 {
        let rest = entries.skip(1);
        assert forall|j: int| 0 <= j < i - 1 implies (#[trigger] rest[j]).0 != key by {
            assert(rest[j] == entries[j + 1]);
        }
        lemma_first_entry(rest, key, i - 1);
        if i < entries.len() && entries[i].0 == key {
            assert(rest[i - 1] == entries[i]);
            assert(seq![entries[0]] + rest =~= entries);
            assert forall|v: Seq<char>| with_value(entries, key, v) == #[trigger] entries.update(i, (key, v)) by {
                assert(seq![entries[0]] + rest.update(i - 1, (key, v)) =~= entries.update(i, (key, v)));
            }
        }
        if i == entries.len() {
            assert forall|v: Seq<char>| with_value(entries, key, v) == #[trigger] entries.push((key, v)) by {
                assert(seq![entries[0]] + rest.push((key, v)) =~= entries.push((key, v)));
            }
        }
    } else {
        if entries.len() > 0 && entries[0].0 == key {
            assert(entries.update(0, (key, entries[0].1)) =~= entries);
        }
        if entries.len() == 0 {
            assert forall|v: Seq<char>| with_value(entries, key, v) == #[trigger] entries.push((key, v)) by {
                assert(seq![(key, v)] =~= entries.push((key, v)));
            }
        }
    }
}

impl FieldValues {
    /// No field set.
    pub fn new() -> (r: Self)
        ensures
            r@ == Seq::<(Seq<char>, Seq<char>)>::empty(),
    {
        FieldValues { entries: Vec::new() }
    }

    fn find(&self, key: &str) -> (r: Option<usize>)
        ensures
            match r {
                Some(i) => i < self@.len() && self@[i as int].0 == key@
                    && forall|j: int| 0 <= j < i ==> (#[trigger] self@[j]).0 != key@,
                None => forall|j: int| 0 <= j < self@.len() ==> (#[trigger] self@[j]).0 != key@,
            },
    {
        let mut i: usize = 0;
        while i < self.entries.len()
            invariant
                i <= self.entries.len(),
                forall|j: int| 0 <= j < i ==> (#[trigger] self@[j]).0 != key@,
            decreases self.entries.len() - i,
        {
            if str_eq(self.entries[i].0.as_str(), key) {
                return Some(i);
            }
            i += 1;
        }
        None
    }

    /// The field `key` set to `value`: `with_value`.
    pub fn set(&mut self, key: &str, value: &str)
        ensures
            final(self)@ == with_value(old(self)@, key@, value@),
    {
        proof {
            lemma_first_entry(self@, key@, 0);
        }
        match self.find(key) {
            Some(i) => {
                proof {
                    lemma_first_entry(self@, key@, i as int);
                }
                self.entries.set(i, (key.to_owned(), value.to_owned()));
                assert(final(self)@ =~= old(self)@.update(i as int, (key@, value@)));
            },
            None => {
                proof {
                    lemma_first_entry(self@, key@, self@.len() as int);
                }
                self.entries.push((key.to_owned(), value.to_owned()));
                assert(final(self)@ =~= old(self)@.push((key@, value@)));
            },
        }
    }

    /// The text of field `key`, or `default` where it was never set.
    pub fn get<'a>(&'a self, key: &str, default: &'a str) -> (r: &'a str)
        ensures
            r@ == match value_of(self@, key@) {
                Some(v) => v,
                None => default@,
            },
    {
        match self.find(key) {
            Some(i) => {
                proof {
                    lemma_first_entry(self@, key@, i as int);
                }
                self.entries[i].1.as_str()
            },
            None => {
                proof {
                    lemma_first_entry(self@, key@, self@.len() as int);
                }
                default
            },
        }
    }
}

/// A field reads back what was last set in it, and setting a field
/// changes no other field.
pub proof fn law_set_then_get(
    entries: Seq<(Seq<char>, Seq<char>)>,
    key: Seq<char>,
    value: Seq<char>,
    other: Seq<char>,
)
    ensures
        value_of(with_value(entries, key, value), key) == Some(value),
        other != key ==> value_of(with_value(entries, key, value), other) == value_of(entries, other),
    decreases entries.len(),
{
    if entries.len() > 0 {
        let rest = entries.skip(1);
        law_set_then_get(rest, key, value, other);
        if entries[0].0 != key {
            let w = seq![entries[0]] + with_value(rest, key, value);
            assert(w.skip(1) =~= with_value(rest, key, value));
            assert(w[0] == entries[0]);
        } else {
            let w = entries.update(0, (key, value));
            assert(w.skip(1) =~= rest);
            assert(w[0] == (key, value));
        }
    } else {
        let w = seq![(key, value)];
        assert(w.skip(1) =~= Seq::<(Seq<char>, Seq<char>)>::empty());
        assert(value_of(w.skip(1), other) is None);
        assert(w[0] == (key, value));
    }
}

} // verus!

//! The editor settings of a project, as the export rules read them: each
//! key's value as text, a flag, a whole number, or something else.

use vstd::prelude::*;
use crate::text::str_eq;

verus! {

/// One setting's value. A JSON number is held as the whole number it
/// converts to (`as u32`: truncated, negative to 0, large to `u32::MAX`);
/// `Other` is any value these rules do not read (an array, an object, null).
#[derive(Clone, Debug)]
pub enum Setting {
    Text(String),
    Flag(bool),
    Whole(u32),
    Other,
}

/// `Setting` with its text as characters.
pub enum SettingView {
    Text(Seq<char>),
    Flag(bool),
    Whole(u32),
    Other,
}

impl View for Setting {
    type V = SettingView;

    open spec fn view(&self) -> SettingView {
        match self {
            Setting::Text(t) => SettingView::Text(t@),
            Setting::Flag(b) => SettingView::Flag(*b),
            Setting::Whole(n) => SettingView::Whole(*n),
            Setting::Other => SettingView::Other,
        }
    }
}

/// The editor settings: keys with their values. A key read is found at its
/// first entry.
#[derive(Clone, Debug)]
pub struct EditorSettings {
    pub entries: Vec<(String, Setting)>,
}

/// The entries as characters and setting views.
pub open spec fn entries_view(entries: Seq<(String, Setting)>) -> Seq<(Seq<char>, SettingView)> {
    entries.map_values(|e: (String, Setting)| (e.0@, e.1@))
}

impl View for EditorSettings {
    type V = Seq<(Seq<char>, SettingView)>;

    open spec fn view(&self) -> Seq<(Seq<char>, SettingView)> {
        entries_view(self.entries@)
    }
}

/// The value of `key`: that of its first entry, or `None` with no entry.
pub open spec fn lookup(entries: Seq<(Seq<char>, SettingView)>, key: Seq<char>) -> Option<SettingView>
    decreases entries.len(),
{
    if entries.len() == 0 {
        None
    } else if entries[0].0 == key {
        Some(entries[0].1)
    } else {
        lookup(entries.drop_first(), key)
    }
}

/// The place of the first entry of `key`, if any.
pub open spec fn position(entries: Seq<(Seq<char>, SettingView)>, key: Seq<char>) -> Option<int>
    decreases entries.len(),
{
    if entries.len() == 0 {
        None
    } else if entries[0].0 == key {
        Some(0)
    } else {
        match position(entries.drop_first(), key) {
            Some(i) => Some(i + 1),
            None => None,
        }
    }
}

/// `entries` with `key` set to `value`: its first entry replaced, or a new
/// entry at the end.
pub open spec fn assign(entries: Seq<(Seq<char>, SettingView)>, key: Seq<char>, value: SettingView) -> Seq<(Seq<char>, SettingView)> {
    match position(entries, key) {
        Some(i) => entries.update(i, (key, value)),
        None => entries.push((key, value)),
    }
}

/// A whole number setting, or `default` where the key is absent or holds
/// something else.
pub open spec fn number_of(entries: Seq<(Seq<char>, SettingView)>, key: Seq<char>, default: u32) -> u32 {
    match lookup(entries, key) {
        Some(SettingView::Whole(n)) => n,
        _ => default,
    }
}

/// A text setting, or `default` where the key is absent or holds something
/// else.
pub open spec fn text_of(entries: Seq<(Seq<char>, SettingView)>, key: Seq<char>, default: Seq<char>) -> Seq<char> {
    match lookup(entries, key) {
        Some(SettingView::Text(t)) => t,
        _ => default,
    }
}

/// A flag setting, or `default` where the key is absent or holds something
/// else.
pub open spec fn flag_of(entries: Seq<(Seq<char>, SettingView)>, key: Seq<char>, default: bool) -> bool {
    match lookup(entries, key) {
        Some(SettingView::Flag(b)) => b,
        _ => default,
    }
}

pub proof fn lemma_position_lookup(entries: Seq<(Seq<char>, SettingView)>, key: Seq<char>)
    ensures
        match position(entries, key) {
            Some(i) => 0 <= i < entries.len() && entries[i].0 == key && lookup(entries, key) == Some(entries[i].1)
                && forall|j: int| 0 <= j < i ==> entries[j].0 != key,
            None => lookup(entries, key) is None && forall|j: int| 0 <= j < entries.len() ==> entries[j].0 != key,
        },
    decreases entries.len(),
{
    if entries.len() > 0 && entries[0].0 != key {
        lemma_position_lookup(entries.drop_first(), key);
        match position(entries.drop_first(), key) {
            Some(i) => {
                assert forall|j: int| 0 <= j < i + 1 implies entries[j].0 != key by {
                    if j > 0 {
                        assert(entries[j] == entries.drop_first()[j - 1]);
                    }
                }
            },
            None => {
                assert forall|j: int| 0 <= j < entries.len() implies entries[j].0 != key by {
                    if j > 0 {
                        assert(entries[j] == entries.drop_first()[j - 1]);
                    }
                }
            },
        }
    }
}

/// `lookup` finds the first entry whose key matches.
proof fn lemma_lookup_first(entries: Seq<(Seq<char>, SettingView)>, key: Seq<char>, i: int)
    requires
        0 <= i < entries.len(),
        entries[i].0 == key,
        forall|j: int| 0 <= j < i ==> entries[j].0 != key,
    ensures
        lookup(entries, key) == Some(entries[i].1),
        position(entries, key) == Some(i),
    decreases i,
{
    if i > 0 {
        lemma_lookup_first(entries.drop_first(), key, i - 1);
    }
}

/// `lookup` of no matching entry is `None`.
proof fn lemma_lookup_none(entries: Seq<(Seq<char>, SettingView)>, key: Seq<char>)
    requires
        forall|j: int| 0 <= j < entries.len() ==> entries[j].0 != key,
    ensures
        lookup(entries, key) is None,
        position(entries, key) is None,
    decreases entries.len(),
{
    if entries.len() > 0 {
        lemma_lookup_none(entries.drop_first(), key);
    }
}

/// A key reads back the value last set for it, and setting one key leaves
/// every other key's value as it was.
pub proof fn lemma_assign_lookup(entries: Seq<(Seq<char>, SettingView)>, key: Seq<char>, value: SettingView, other: Seq<char>)
    ensures
        lookup(assign(entries, key, value), key) == Some(value),
        other != key ==> lookup(assign(entries, key, value), other) == lookup(entries, other),
{
    lemma_position_lookup(entries, key);
    lemma_position_lookup(entries, other);
    let after = assign(entries, key, value);
    match position(entries, key) {
        Some(i) => {
            lemma_lookup_first(after, key, i);
            if other != key {
                match position(entries, other) {
                    Some(k) => lemma_lookup_first(after, other, k),
                    None => lemma_lookup_none(after, other),
                }
            }
        },
        None => {
            lemma_lookup_first(after, key, entries.len() as int);
            if other != key {
                match position(entries, other) {
                    Some(k) => lemma_lookup_first(after, other, k),
                    None => lemma_lookup_none(after, other),
                }
            }
        },
    }
}

impl EditorSettings {
    /// No settings.
    pub fn new() -> (r: Self)
        ensures
            r@ == Seq::<(Seq<char>, SettingView)>::empty(),
    {
        let r = EditorSettings { entries: Vec::new() };
        assert(r@ =~= Seq::<(Seq<char>, SettingView)>::empty());
        r
    }

    /// The place of the first entry of `key`.
    pub fn find(&self, key: &str) -> (r: Option<usize>)
        ensures
            match r {
                Some(i) => position(self@, key@) == Some(i as int),
                None => position(self@, key@) is None,
            },
    {
        let mut i: usize = 0;
        while i < self.entries.len()
            invariant
                0 <= i <= self.entries@.len(),
                forall|j: int| 0 <= j < i ==> self@[j].0 != key@,
            decreases self.entries@.len() - i,
        {
            if str_eq(self.entries[i].0.as_str(), key) {
                proof { lemma_lookup_first(self@, key@, i as int); }
                return Some(i);
            }
            i += 1;
        }
        proof { lemma_lookup_none(self@, key@); }
        None
    }

    /// The value of `key`, if it has one.
    pub fn get(&self, key: &str) -> (r: Option<&Setting>)
        ensures
            match r { Some(s) => lookup(self@, key@) == Some(s@), None => lookup(self@, key@) is None },
    {
        proof { lemma_position_lookup(self@, key@); }
        match self.find(key) {
            Some(i) => {
                assert(self@[i as int] == (self.entries@[i as int].0@, self.entries@[i as int].1@));
                Some(&self.entries[i].1)
            },
            None => None,
        }
    }

    /// Whether `key` has a value, whatever it is.
    pub fn contains_key(&self, key: &str) -> (r: bool)
        ensures
            r == (lookup(self@, key@) is Some),
    {
        self.get(key).is_some()
    }

    /// The whole number `key` holds, else `default`.
    pub fn number(&self, key: &str, default: u32) -> (r: u32)
        ensures
            r == number_of(self@, key@, default),
    {
        match self.get(key) {
            Some(Setting::Whole(n)) => *n,
            _ => default,
        }
    }

    /// The text `key` holds, else `default`.
    pub fn text(&self, key: &str, default: &str) -> (r: String)
        ensures
            r@ == text_of(self@, key@, default@),
    {
        match self.get(key) {
            Some(Setting::Text(t)) => t.clone(),
            _ => default.to_owned(),
        }
    }

    /// The flag `key` holds, else `default`.
    pub fn flag(&self, key: &str, default: bool) -> (r: bool)
        ensures
            r == flag_of(self@, key@, default),
    {
        match self.get(key) {
            Some(Setting::Flag(b)) => *b,
            _ => default,
        }
    }

    /// Sets `key` to `value`: its first entry takes it, or a new entry is
    /// added at the end.
    pub fn set(&mut self, key: &str, value: Setting)
        ensures
            final(self)@ == assign(old(self)@, key@, value@),
    {
        let ghost before = self@;
        proof { lemma_position_lookup(before, key@); }
        match self.find(key) {
            Some(i) => {
                self.entries.set(i, (key.to_owned(), value));
                assert(self@ =~= before.update(i as int, (key@, value@)));
                assert(assign(before, key@, value@) == before.update(i as int, (key@, value@)));
            },
            None => {
                self.entries.push((key.to_owned(), value));
                assert(self@ =~= before.push((key@, value@)));
                assert(assign(before, key@, value@) == before.push((key@, value@)));
            },
        }
    }
}

} // verus!

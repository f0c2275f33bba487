//! The saved presets' list as the Presets dialog keeps it: names, the
//! parts of a project each preset holds, and the one new videos start
//! from. New and copied presets take a name that is not yet used.

use vstd::prelude::*;
use vstd::set_lib::{set_int_range, lemma_int_range, lemma_len_subset, lemma_map_size};
use vstd::relations::injective_on;
use crate::text::{decimal, lemma_decimal_len, lemma_decimal_injective, push_count, push_char, push_str, str_eq, strip_prefix, strip_suffix, texts};
use crate::words::{trim, trimmed};
use crate::commands::{parse_index, index_value, law_written_index_reads_back};

verus! {

/// The `n`th name tried for a new preset from `base`: `base` itself,
/// then "base 2", "base 3" and on.
pub open spec fn candidate(base: Seq<char>, n: nat) -> Seq<char> {
    if n <= 1 {
        base
    } else {
        base + seq![' '] + decimal(n)
    }
}

/// Whether `candidate(base, n)` is the first of the names tried from
/// `base` that `names` does not hold.
pub open spec fn first_unused(names: Seq<Seq<char>>, base: Seq<char>, n: nat) -> bool {
    &&& n >= 1
    &&& !names.contains(candidate(base, n))
    &&& forall|m: nat| 1 <= m < n ==> names.contains(#[trigger] candidate(base, m))
}

/// Different tries give different names.
proof fn lemma_candidate_injective(base: Seq<char>, n: nat, m: nat)
    requires
        n >= 1,
        m >= 1,
        candidate(base, n) == candidate(base, m),
    ensures
        n == m,
{
    lemma_decimal_len(n);
    lemma_decimal_len(m);
    if n >= 2 && m >= 2 {
        let k = base.len() as int + 1;
        assert(candidate(base, n).skip(k) =~= decimal(n));
        assert(candidate(base, m).skip(k) =~= decimal(m));
        lemma_decimal_injective(n, m);
    } else if n >= 2 {
        assert(candidate(base, n).len() > candidate(base, m).len());
    } else if m >= 2 {
        assert(candidate(base, m).len() > candidate(base, n).len());
    }
}

/// `names` cannot hold the first `k` names tried unless it has at least
/// `k` entries.
proof fn lemma_candidates_fit(names: Seq<Seq<char>>, base: Seq<char>, k: nat)
    requires
        forall|m: nat| 1 <= m <= k ==> names.contains(#[trigger] candidate(base, m)),
    ensures
        k <= names.len(),
{
    let x = set_int_range(1, k as int + 1);
    let f = |m: int| candidate(base, m as nat);
    lemma_int_range(1, k as int + 1);
    assert(injective_on(f, x)) by {
        assert forall|a: int, b: int| x.contains(a) && x.contains(b) && #[trigger] f(a) == #[trigger] f(b)
            implies a == b by {
            lemma_candidate_injective(base, a as nat, b as nat);
        }
    }
    let y = x.map(f);
    lemma_map_size(x, y, f);
    assert(y.subset_of(names.to_set())) by {
        assert forall|s: Seq<char>| y.contains(s) implies names.to_set().contains(s) by {
            let a = choose|a: int| x.contains(a) && f(a) == s;
            assert(names.contains(candidate(base, a as nat)));
        }
    }
    names.lemma_cardinality_of_set();
    lemma_len_subset(y, names.to_set());
}

fn has_name(names: &Vec<String>, name: &str) -> (r: bool)
    ensures
        r == texts(names@).contains(name@),
{
    let mut i: usize = 0;
    while i < names.len()
        invariant
            i <= names.len(),
            forall|j: int| 0 <= j < i ==> (#[trigger] names@[j])@ != name@,
        decreases names.len() - i,
    {
        if str_eq(names[i].as_str(), name) {
            assert(texts(names@)[i as int] == name@);
            return true;
        }
        i += 1;
    }
    proof {
        if texts(names@).contains(name@) {
            let j = choose|j: int| 0 <= j < texts(names@).len() && texts(names@)[j] == name@;
            assert(names@[j]@ != name@);
        }
    }
    false
}

/// The first of `base`, "base 2", "base 3"… that `names` does not hold.
pub fn unused_name(names: &Vec<String>, base: &str) -> (r: String)
    ensures
        exists|n: nat| first_unused(texts(names@), base@, n) && r@ == candidate(base@, n),
        !texts(names@).contains(r@),
{
    let ghost all = texts(names@);
    let mut n: u128 = 1;
    loop
        invariant
            all == texts(names@),
            1 <= n <= names.len() + 1,
            forall|m: nat| 1 <= m < n ==> all.contains(#[trigger] candidate(base@, m)),
        decreases names.len() + 1 - n,
    {
        let mut name = String::new();
        push_str(&mut name, base);
        if n > 1 {
            push_char(&mut name, ' ');
            push_count(&mut name, n);
        }
        assert(name@ =~= candidate(base@, n as nat));
        if !has_name(names, name.as_str()) {
            assert(first_unused(all, base@, n as nat));
            return name;
        }
        proof {
            lemma_candidates_fit(all, base@, n as nat);
        }
        n = n + 1;
    }
}

/// The parts a new preset holds: all of them.
pub open spec fn all_parts() -> Seq<char> {
    "look,motion,cursor,camera,captions,export"@
}

/// The saved presets: their names, the parts each holds (by name, comma
/// separated) and the default one, if any.
pub struct PresetList {
    names: Vec<String>,
    parts: Vec<String>,
    default: Option<String>,
}

/// `PresetList` with its texts as character sequences.
pub struct PresetsView {
    pub names: Seq<Seq<char>>,
    pub parts: Seq<Seq<char>>,
    pub default: Option<Seq<char>>,
}

impl View for PresetList {
    type V = PresetsView;

    closed spec fn view(&self) -> PresetsView {
        PresetsView {
            names: texts(self.names@),
            parts: texts(self.parts@),
            default: match self.default {
                Some(d) => Some(d@),
                None => None,
            },
        }
    }
}

/// No two presets share a name.
pub open spec fn distinct(names: Seq<Seq<char>>) -> bool {
    forall|i: int, j: int| 0 <= i < j < names.len() ==> names[i] != names[j]
}

/// What the list keeps: a set of parts for each preset, no two presets of
/// one name, and a default (if any) that is one of them.
pub open spec fn well_formed(p: PresetsView) -> bool {
    &&& p.names.len() == p.parts.len()
    &&& distinct(p.names)
    &&& (p.default matches Some(d) ==> p.names.contains(d))
}

/// The list with a preset named `name` and holding `parts` at its end.
pub open spec fn added(p: PresetsView, name: Seq<char>, parts: Seq<char>) -> PresetsView {
    PresetsView { names: p.names.push(name), parts: p.parts.push(parts), default: p.default }
}

/// The list without preset `i`; no default if that was it.
pub open spec fn removed(p: PresetsView, i: int) -> PresetsView {
    PresetsView {
        names: p.names.remove(i),
        parts: p.parts.remove(i),
        default: if p.default == Some(p.names[i]) { None } else { p.default },
    }
}

/// The list with preset `i` made the default, or no default where it was.
pub open spec fn default_toggled(p: PresetsView, i: int) -> PresetsView {
    PresetsView {
        names: p.names,
        parts: p.parts,
        default: if p.default == Some(p.names[i]) { None } else { Some(p.names[i]) },
    }
}

/// Whether preset `i` can take the name `to`, trimmed: it is there, and
/// the name is neither empty nor another preset's.
pub open spec fn can_rename(p: PresetsView, i: int, to: Seq<char>) -> bool {
    0 <= i < p.names.len() && trimmed(to).len() > 0 && !p.names.contains(trimmed(to))
}

/// The list with preset `i` named `name`, still the default if it was.
pub open spec fn renamed(p: PresetsView, i: int, name: Seq<char>) -> PresetsView {
    PresetsView {
        names: p.names.update(i, name),
        parts: p.parts,
        default: if p.default == Some(p.names[i]) { Some(name) } else { p.default },
    }
}


fn copy_strings(v: &Vec<String>) -> (r: Vec<String>)
    ensures
        r@ == v@,
{
    let mut out: Vec<String> = Vec::new();
    let mut i: usize = 0;
    while i < v.len()
        invariant
            i <= v.len(),
            out@ == v@.take(i as int),
        decreases v.len() - i,
    {
        out.push(v[i].clone());
        i += 1;
        assert(out@ =~= v@.take(i as int));
    }
    assert(v@.take(v.len() as int) =~= v@);
    out
}

fn without_entry(v: &Vec<String>, i: usize) -> (r: Vec<String>)
    requires
        i < v.len(),
    ensures
        r@ == v@.remove(i as int),
{
    let mut out: Vec<String> = Vec::new();
    let mut j: usize = 0;
    while j < v.len()
        invariant
            i < v.len(),
            j <= v.len(),
            out@ == (if j <= i { v@.take(j as int) } else { v@.take(j as int).remove(i as int) }),
        decreases v.len() - j,
    {
        if j != i {
            out.push(v[j].clone());
        }
        j += 1;
        assert(out@ =~= (if j <= i { v@.take(j as int) } else { v@.take(j as int).remove(i as int) }));
    }
    assert(v@.take(v.len() as int) =~= v@);
    out
}

impl PresetList {
    /// Each preset holds a set of parts.
    #[verifier::type_invariant]
    spec fn parts_for_each(self) -> bool {
        self.names.len() == self.parts.len()
    }

    /// The list of the presets `names`, holding the `parts` in the same
    /// places, with the `default` one; nothing where the two lists are not
    /// of one length.
    pub fn from_lists(names: Vec<String>, parts: Vec<String>, default: Option<String>) -> (r: Option<Self>)
        ensures
            (r is Some) == (names@.len() == parts@.len()),
            r matches Some(list) ==> list@ == (PresetsView {
                names: texts(names@),
                parts: texts(parts@),
                default: match default { Some(d) => Some(d@), None => None },
            }),
    {
        if names.len() == parts.len() {
            Some(PresetList { names, parts, default })
        } else {
            None
        }
    }

    /// The presets' names.
    pub fn names(&self) -> (r: &Vec<String>)
        ensures
            texts(r@) == self@.names,
    {
        &self.names
    }

    /// The parts each preset holds.
    pub fn parts(&self) -> (r: &Vec<String>)
        ensures
            texts(r@) == self@.parts,
    {
        &self.parts
    }

    /// The default preset's name, if there is one.
    pub fn default_name(&self) -> (r: Option<&String>)
        ensures
            match r { Some(d) => self@.default == Some(d@), None => self@.default is None },
    {
        match &self.default {
            Some(d) => Some(d),
            None => None,
        }
    }

    /// A new preset holding every part, under the first unused of
    /// "Preset", "Preset 2"…; its name is returned.
    pub fn new_preset(&mut self) -> (r: String)
        ensures
            exists|n: nat| first_unused(old(self)@.names, "Preset"@, n) && r@ == candidate("Preset"@, n),
            final(self)@ == added(old(self)@, r@, all_parts()),
    {
        proof {
            use_type_invariant(&*self);
        }
        let name = unused_name(&self.names, "Preset");
        let mut all = String::new();
        push_str(&mut all, "look,motion,cursor,camera,captions,export");
        let mut names = copy_strings(&self.names);
        let mut parts = copy_strings(&self.parts);
        names.push(name.clone());
        parts.push(all);
        let default = self.default.clone();
        *self = PresetList { names, parts, default };
        assert(final(self)@.names =~= old(self)@.names.push(name@));
        assert(final(self)@.parts =~= old(self)@.parts.push(all_parts()));
        name
    }

    /// A copy of preset `i`, holding its parts, under the first unused of
    /// "name copy", "name copy 2"…; its name is returned. Nothing where
    /// there is no preset `i`.
    pub fn duplicate(&mut self, i: usize) -> (r: Option<String>)
        ensures
            i >= old(self)@.names.len() ==> r is None && *final(self) == *old(self),
            i < old(self)@.names.len() ==> (r matches Some(name) && {
                let base = old(self)@.names[i as int] + " copy"@;
                &&& exists|n: nat| first_unused(old(self)@.names, base, n) && name@ == candidate(base, n)
                &&& final(self)@ == added(old(self)@, name@, old(self)@.parts[i as int])
            }),
    {
        proof {
            use_type_invariant(&*self);
        }
        if i >= self.names.len() {
            return None;
        }
        let mut base = self.names[i].clone();
        push_str(&mut base, " copy");
        assert(base@ == old(self)@.names[i as int] + " copy"@);
        let name = unused_name(&self.names, base.as_str());
        let copied = self.parts[i].clone();
        let mut names = copy_strings(&self.names);
        let mut parts = copy_strings(&self.parts);
        names.push(name.clone());
        parts.push(copied);
        let default = self.default.clone();
        *self = PresetList { names, parts, default };
        assert(final(self)@.names =~= old(self)@.names.push(name@));
        assert(final(self)@.parts =~= old(self)@.parts.push(old(self)@.parts[i as int]));
        Some(name)
    }

    /// Preset `i` removed, and no default if it was the default. Nothing
    /// changes where there is no preset `i`.
    pub fn remove(&mut self, i: usize)
        ensures
            i >= old(self)@.names.len() ==> *final(self) == *old(self),
            i < old(self)@.names.len() ==> final(self)@ == removed(old(self)@, i as int),
    {
        proof {
            use_type_invariant(&*self);
        }
        if i >= self.names.len() {
            return;
        }
        let chosen = match &self.default {
            Some(d) => str_eq(d.as_str(), self.names[i].as_str()),
            None => false,
        };
        let default = if chosen { None } else { self.default.clone() };
        let names = without_entry(&self.names, i);
        let parts = without_entry(&self.parts, i);
        *self = PresetList { names, parts, default };
        assert(final(self)@.names =~= old(self)@.names.remove(i as int));
        assert(final(self)@.parts =~= old(self)@.parts.remove(i as int));
    }

    /// Preset `i` made the default, or, where it is the default, no
    /// default. Nothing changes where there is no preset `i`.
    pub fn toggle_default(&mut self, i: usize)
        ensures
            i >= old(self)@.names.len() ==> *final(self) == *old(self),
            i < old(self)@.names.len() ==> final(self)@ == default_toggled(old(self)@, i as int),
    {
        proof {
            use_type_invariant(&*self);
        }
        if i >= self.names.len() {
            return;
        }
        let chosen = match &self.default {
            Some(d) => str_eq(d.as_str(), self.names[i].as_str()),
            None => false,
        };
        if chosen {
            self.default = None;
        } else {
            self.default = Some(self.names[i].clone());
        }
    }

    /// Preset `i` named `to`, trimmed, and still the default if it was;
    /// refused (`false`, nothing changed) where there is no preset `i` or
    /// the name is empty or another preset's.
    pub fn rename(&mut self, i: usize, to: &str) -> (r: bool)
        ensures
            r == can_rename(old(self)@, i as int, to@),
            r ==> final(self)@ == renamed(old(self)@, i as int, trimmed(to@)),
            !r ==> *final(self) == *old(self),
    {
        proof {
            use_type_invariant(&*self);
        }
        let name = trim(to);
        if i >= self.names.len() || name.is_empty() || has_name(&self.names, name) {
            return false;
        }
        let follows = match &self.default {
            Some(d) => str_eq(d.as_str(), self.names[i].as_str()),
            None => false,
        };
        if follows {
            self.default = Some(name.to_owned());
        }
        let mut names = copy_strings(&self.names);
        names.set(i, name.to_owned());
        self.names = names;
        assert(final(self)@.names =~= old(self)@.names.update(i as int, trimmed(to@)));
        true
    }
}

/// Adding a preset under an unused name keeps the list well formed.
pub proof fn law_adding_keeps_list_well_formed(p: PresetsView, name: Seq<char>, parts: Seq<char>)
    requires
        well_formed(p),
        !p.names.contains(name),
    ensures
        well_formed(added(p, name, parts)),
{
    let q = added(p, name, parts);
    assert forall|i: int, j: int| 0 <= i < j < q.names.len() implies q.names[i] != q.names[j] by {
        if j == p.names.len() {
            assert(p.names[i] == q.names[i]);
        }
    }
    if let Some(d) = p.default {
        let k = choose|k: int| 0 <= k < p.names.len() && p.names[k] == d;
        assert(q.names[k] == d);
    }
}

/// Removing a preset keeps the list well formed.
pub proof fn law_removing_keeps_list_well_formed(p: PresetsView, i: int)
    requires
        well_formed(p),
        0 <= i < p.names.len(),
    ensures
        well_formed(removed(p, i)),
{
    let q = removed(p, i);
    assert forall|a: int, b: int| 0 <= a < b < q.names.len() implies q.names[a] != q.names[b] by {
        let a2 = if a < i { a } else { a + 1 };
        let b2 = if b < i { b } else { b + 1 };
        assert(q.names[a] == p.names[a2]);
        assert(q.names[b] == p.names[b2]);
    }
    if let Some(d) = q.default {
        let k = choose|k: int| 0 <= k < p.names.len() && p.names[k] == d;
        assert(k != i);
        let k2 = if k < i { k } else { k - 1 };
        assert(q.names[k2] == d);
    }
}

/// Making a preset the default, or no longer, keeps the list well formed.
pub proof fn law_default_keeps_list_well_formed(p: PresetsView, i: int)
    requires
        well_formed(p),
        0 <= i < p.names.len(),
    ensures
        well_formed(default_toggled(p, i)),
{
    assert(p.names[i] == default_toggled(p, i).names[i]);
}

/// Renaming a preset, where the name is free, keeps the list well formed.
pub proof fn law_renaming_keeps_list_well_formed(p: PresetsView, i: int, to: Seq<char>)
    requires
        well_formed(p),
        can_rename(p, i, to),
    ensures
        well_formed(renamed(p, i, trimmed(to))),
{
    let name = trimmed(to);
    let q = renamed(p, i, name);
    assert forall|a: int, b: int| 0 <= a < b < q.names.len() implies q.names[a] != q.names[b] by {
        if a == i {
            assert(p.names[b] == q.names[b]);
        } else if b == i {
            assert(p.names[a] == q.names[a]);
        }
    }
    if let Some(d) = q.default {
        if p.default == Some(p.names[i]) {
            assert(q.names[i] == d);
        } else {
            let k = choose|k: int| 0 <= k < p.names.len() && p.names[k] == d;
            assert(k != i);
            assert(q.names[k] == d);
        }
    }
}

/// Making a preset the default and then pressing it again leaves no
/// default, as before, and pressing it twice where it was the default
/// makes it the default again.
pub proof fn law_default_twice_restores(p: PresetsView, i: int)
    requires
        0 <= i < p.names.len(),
        p.default is None || p.default == Some(p.names[i]),
    ensures
        default_toggled(default_toggled(p, i), i) == p,
{
}

/// The preset a field's key names: `preset.N.name` gives N.
pub open spec fn preset_key_index(key: Seq<char>) -> Option<nat> {
    if "preset."@.is_prefix_of(key) && ".name"@.is_suffix_of(key.skip(7)) {
        index_value(key.skip(7).take(key.len() - 7 - 5))
    } else {
        None
    }
}

/// The name field the dialog writes for preset `n`, `preset.n.name`,
/// addresses preset `n`.
pub proof fn law_name_field_reads_back(n: nat)
    requires
        n <= usize::MAX,
    ensures
        preset_key_index("preset."@ + decimal(n) + ".name"@) == Some(n),
{
    reveal_strlit("preset.");
    reveal_strlit(".name");
    law_written_index_reads_back(n);
    let key = "preset."@ + decimal(n) + ".name"@;
    assert(key.subrange(0, 7) =~= "preset."@);
    assert(key.skip(7) =~= decimal(n) + ".name"@);
    assert(key.skip(7).subrange(key.skip(7).len() - 5, key.skip(7).len() as int) =~= ".name"@);
    assert(key.skip(7).take(key.len() - 7 - 5) =~= decimal(n));
}

/// The preset that a name field's `key` addresses, `preset.N.name`.
pub fn preset_field_index(key: &str) -> (r: Option<usize>)
    ensures
        match r {
            Some(i) => preset_key_index(key@) == Some(i as nat),
            None => preset_key_index(key@) is None,
        },
{
    proof {
        reveal_strlit("preset.");
        reveal_strlit(".name");
    }
    match strip_prefix(key, "preset.") {
        Some(rest) => match strip_suffix(rest, ".name") {
            Some(index) => {
                assert(index@ =~= key@.skip(7).take(key@.len() - 7 - 5));
                parse_index(index)
            },
            None => None,
        },
        None => None,
    }
}

/// The parts named in `s`: the pieces between its commas that are not
/// empty, in order.
pub open spec fn part_names(s: Seq<char>) -> Seq<Seq<char>>
    decreases s.len(),
{
    if s.len() == 0 {
        seq![]
    } else {
        let w = part_names(s.drop_last());
        let c = s.last();
        if c == ',' {
            w
        } else if s.len() >= 2 && s[s.len() - 2] != ',' {
            w.update(w.len() - 1, w.last().push(c))
        } else {
            w.push(seq![c])
        }
    }
}

/// `ws` joined by commas.
pub open spec fn comma_joined(ws: Seq<Seq<char>>) -> Seq<char>
    decreases ws.len(),
{
    if ws.len() == 0 {
        seq![]
    } else if ws.len() == 1 {
        ws[0]
    } else {
        comma_joined(ws.drop_last()) + seq![','] + ws.last()
    }
}

/// `on` without any `part`.
pub open spec fn without(on: Seq<Seq<char>>, part: Seq<char>) -> Seq<Seq<char>>
    decreases on.len(),
{
    if on.len() == 0 {
        seq![]
    } else {
        let rest = without(on.drop_last(), part);
        if on.last() == part {
            rest
        } else {
            rest.push(on.last())
        }
    }
}

/// The parts once `part` is turned over: off where it is on (but never
/// the last one), on, at the end, where it is off.
pub open spec fn toggled(on: Seq<Seq<char>>, part: Seq<char>) -> Seq<Seq<char>> {
    if on.contains(part) {
        if on.len() > 1 {
            without(on, part)
        } else {
            on
        }
    } else {
        on.push(part)
    }
}

/// A part's place among the parts' `groups`: the first that names it, or
/// none.
pub open spec fn rank(groups: Seq<Seq<char>>, p: Seq<char>) -> Option<int> {
    groups.index_of_first(p)
}

/// Those of `on` of rank `r`, in their order.
pub open spec fn of_rank(on: Seq<Seq<char>>, groups: Seq<Seq<char>>, r: Option<int>) -> Seq<Seq<char>>
    decreases on.len(),
{
    if on.len() == 0 {
        seq![]
    } else {
        let rest = of_rank(on.drop_last(), groups, r);
        if rank(groups, on.last()) == r {
            rest.push(on.last())
        } else {
            rest
        }
    }
}

/// `on` sorted by rank, stably, for the ranks below `k`: those that no
/// group names first, then those of each rank in turn, each in their
/// order.
pub open spec fn ranked(on: Seq<Seq<char>>, groups: Seq<Seq<char>>, k: nat) -> Seq<Seq<char>>
    decreases k,
{
    if k == 0 {
        of_rank(on, groups, None)
    } else {
        ranked(on, groups, (k - 1) as nat) + of_rank(on, groups, Some(k - 1))
    }
}

/// `on` in the groups' order, as a stable sort by rank leaves it.
pub open spec fn in_group_order(on: Seq<Seq<char>>, groups: Seq<Seq<char>>) -> Seq<Seq<char>> {
    ranked(on, groups, groups.len())
}

/// A preset's parts, `parts`, once `part` is turned over and the parts
/// are put in the groups' order.
pub open spec fn parts_toggled(parts: Seq<char>, part: Seq<char>, groups: Seq<Seq<char>>) -> Seq<char> {
    comma_joined(in_group_order(toggled(part_names(parts), part), groups))
}

/// A text ending in a character that is not a comma names a part.
proof fn lemma_part_names_nonempty(s: Seq<char>)
    requires
        s.len() > 0,
        s.last() != ',',
    ensures
        part_names(s).len() > 0,
    decreases s.len(),
{
    if s.len() >= 2 && s[s.len() - 2] != ',' {
        lemma_part_names_nonempty(s.drop_last());
    }
}

/// The parts of `s` as `str::split(',')` and a filter of the empty pieces
/// give them.
fn split_parts(s: &str) -> (r: Vec<String>)
    ensures
        texts(r@) == part_names(s@),
{
    let ghost text = s@;
    let mut done: Vec<String> = Vec::new();
    let mut current = String::new();
    let mut in_part = false;
    let ghost mut seen: Seq<char> = seq![];
    for c in it: s.chars()
        invariant
            text == s@,
            it.seq() == text,
            seen == text.take(it.index() as int),
            in_part == (seen.len() > 0 && seen.last() != ','),
            in_part ==> part_names(seen) == texts(done@).push(current@),
            !in_part ==> part_names(seen) == texts(done@),
    {
        let ghost prev = seen;
        proof {
            seen = seen.push(c);
        }
        assert(seen.drop_last() =~= prev);
        if c == ',' {
            if in_part {
                let finished = current;
                current = String::new();
                done.push(finished);
                assert(texts(done@) =~= part_names(prev));
            }
            in_part = false;
        } else {
            if in_part {
                proof {
                    lemma_part_names_nonempty(prev);
                }
                crate::text::push_char(&mut current, c);
                assert(part_names(seen) =~= texts(done@).push(current@));
            } else {
                current = String::new();
                crate::text::push_char(&mut current, c);
                assert(part_names(seen) =~= texts(done@).push(current@));
            }
            in_part = true;
        }
    }
    proof {
        assert(seen =~= text);
    }
    if in_part {
        done.push(current);
        assert(texts(done@) =~= part_names(text));
    }
    done
}

/// `ws` joined by commas.
fn join_parts(ws: &Vec<String>) -> (r: String)
    ensures
        r@ == comma_joined(texts(ws@)),
{
    let mut out = String::new();
    let mut i: usize = 0;
    while i < ws.len()
        invariant
            i <= ws.len(),
            out@ == comma_joined(texts(ws@).take(i as int)),
        decreases ws.len() - i,
    {
        let ghost before = texts(ws@).take(i as int);
        let ghost next = texts(ws@).take(i as int + 1);
        assert(next.drop_last() =~= before);
        if i > 0 {
            push_char(&mut out, ',');
        }
        push_str(&mut out, ws[i].as_str());
        assert(out@ =~= comma_joined(next));
        i += 1;
    }
    assert(texts(ws@).take(ws.len() as int) =~= texts(ws@));
    out
}

/// `on` with `part` turned over: `toggled`.
fn toggle_in(on: Vec<String>, part: &str) -> (r: Vec<String>)
    ensures
        texts(r@) == toggled(texts(on@), part@),
{
    if has_name(&on, part) {
        if on.len() > 1 {
            let mut kept: Vec<String> = Vec::new();
            let mut i: usize = 0;
            while i < on.len()
                invariant
                    i <= on.len(),
                    texts(kept@) == without(texts(on@).take(i as int), part@),
                decreases on.len() - i,
            {
                assert(texts(on@).take(i as int + 1).drop_last() =~= texts(on@).take(i as int));
                if !str_eq(on[i].as_str(), part) {
                    kept.push(on[i].clone());
                    assert(texts(kept@) =~= without(texts(on@).take(i as int), part@).push(on@[i as int]@));
                }
                i += 1;
            }
            assert(texts(on@).take(on.len() as int) =~= texts(on@));
            kept
        } else {
            on
        }
    } else {
        let ghost before = texts(on@);
        let mut on = on;
        on.push(part.to_owned());
        assert(texts(on@) =~= before.push(part@));
        on
    }
}


/// `rank` of `p` among `groups`.
fn rank_of(groups: &Vec<String>, p: &String) -> (r: Option<usize>)
    ensures
        match r {
            Some(k) => rank(texts(groups@), p@) == Some(k as int),
            None => rank(texts(groups@), p@) is None,
        },
{
    let ghost g = texts(groups@);
    proof {
        g.index_of_first_ensures(p@);
    }
    let mut k: usize = 0;
    while k < groups.len()
        invariant
            g == texts(groups@),
            k <= groups.len(),
            forall|j: int| 0 <= j < k ==> g[j] != p@,
            match g.index_of_first(p@) {
                Some(index) => {
                    &&& g.contains(p@)
                    &&& 0 <= index < g.len()
                    &&& g[index] == p@
                    &&& forall|j: int| 0 <= j < index < g.len() ==> g[j] != p@
                },
                None => !g.contains(p@),
            },
        decreases groups.len() - k,
    {
        if str_eq(groups[k].as_str(), p.as_str()) {
            assert(g[k as int] == p@);
            return Some(k);
        }
        k += 1;
    }
    proof {
        if g.contains(p@) {
            let j = choose|j: int| 0 <= j < g.len() && g[j] == p@;
            assert(g[j] != p@);
        }
    }
    None
}

/// Appends those of `on` of rank `r` to `out`, in their order.
fn push_rank(out: &mut Vec<String>, on: &Vec<String>, groups: &Vec<String>, r: Option<usize>)
    ensures
        texts(final(out)@) == texts(old(out)@) + of_rank(
            texts(on@),
            texts(groups@),
            match r { Some(k) => Some(k as int), None => None },
        ),
{
    let ghost want = match r { Some(k) => Some(k as int), None => None::<int> };
    let ghost start = texts(out@);
    let mut i: usize = 0;
    while i < on.len()
        invariant
            i <= on.len(),
            want == match r { Some(k) => Some(k as int), None => None::<int> },
            texts(out@) == start + of_rank(texts(on@).take(i as int), texts(groups@), want),
        decreases on.len() - i,
    {
        let ghost head = texts(on@).take(i as int);
        assert(texts(on@).take(i as int + 1).drop_last() =~= head);
        let ghost x = texts(on@)[i as int];
        assert(x == on@[i as int]@);
        assert(texts(on@).take(i as int + 1).last() == x);
        let k = rank_of(groups, &on[i]);
        let same = match k {
            Some(a) => match r {
                Some(b) => a == b,
                None => false,
            },
            None => r.is_none(),
        };
        assert(same == (rank(texts(groups@), x) == want));
        if same {
            let ghost before_out = texts(out@);
            out.push(on[i].clone());
            assert(texts(out@) =~= before_out.push(x));
            assert(texts(out@) =~= start + of_rank(head, texts(groups@), want).push(x));
        }
        i += 1;
    }
    assert(texts(on@).take(on.len() as int) =~= texts(on@));
}

/// `on` in the groups' order: `in_group_order`.
fn order_parts(on: &Vec<String>, groups: &Vec<String>) -> (r: Vec<String>)
    ensures
        texts(r@) == in_group_order(texts(on@), texts(groups@)),
{
    let mut out: Vec<String> = Vec::new();
    push_rank(&mut out, on, groups, None);
    assert(texts(out@) =~= ranked(texts(on@), texts(groups@), 0));
    let mut k: usize = 0;
    while k < groups.len()
        invariant
            k <= groups.len(),
            texts(out@) == ranked(texts(on@), texts(groups@), k as nat),
        decreases groups.len() - k,
    {
        push_rank(&mut out, on, groups, Some(k));
        k += 1;
    }
    out
}

impl PresetList {
    /// Part `part` of preset `i` turned over, off where it is on (unless
    /// it is the preset's last part) and on where it is off, and the
    /// preset's parts put in the order of `groups`. Nothing changes where
    /// there is no preset `i`.
    pub fn toggle_part(&mut self, i: usize, part: &str, groups: &Vec<String>)
        ensures
            i >= old(self)@.names.len() ==> *final(self) == *old(self),
            i < old(self)@.names.len() ==> final(self)@ == (PresetsView {
                parts: old(self)@.parts.update(
                    i as int,
                    parts_toggled(old(self)@.parts[i as int], part@, texts(groups@)),
                ),
                ..old(self)@
            }),
    {
        proof {
            use_type_invariant(&*self);
        }
        if i >= self.names.len() {
            return;
        }
        let on = split_parts(self.parts[i].as_str());
        let on = toggle_in(on, part);
        let on = order_parts(&on, groups);
        let joined = join_parts(&on);
        let mut parts = copy_strings(&self.parts);
        parts.set(i, joined);
        self.parts = parts;
        assert(final(self)@.parts =~= old(self)@.parts.update(
            i as int,
            parts_toggled(old(self)@.parts[i as int], part@, texts(groups@)),
        ));
    }
}

/// One more part among `on` joins the ranks below `k` where its own rank
/// is among them.
proof fn lemma_ranked_push(on: Seq<Seq<char>>, groups: Seq<Seq<char>>, x: Seq<char>, k: nat)
    ensures
        ranked(on.push(x), groups, k).to_multiset() == if rank(groups, x) is None || rank(groups, x).unwrap() < k {
            ranked(on, groups, k).to_multiset().insert(x)
        } else {
            ranked(on, groups, k).to_multiset()
        },
    decreases k,
{
    broadcast use vstd::seq_lib::group_to_multiset_ensures;
    broadcast use vstd::multiset::group_multiset_axioms;
    let p = on.push(x);
    assert(p.drop_last() =~= on);
    groups.index_of_first_ensures(x);
    if k == 0 {
        let b0 = of_rank(on, groups, None);
        if rank(groups, x) is None {
            assert(of_rank(p, groups, None) == b0.push(x));
        }
    } else {
        let j = (k - 1) as nat;
        lemma_ranked_push(on, groups, x, j);
        let a = ranked(p, groups, j);
        let b = of_rank(p, groups, Some(j as int));
        let a0 = ranked(on, groups, j);
        let b0 = of_rank(on, groups, Some(j as int));
        vstd::seq_lib::lemma_multiset_commutative(a, b);
        vstd::seq_lib::lemma_multiset_commutative(a0, b0);
        if rank(groups, x) == Some(j as int) {
            assert(b == b0.push(x));
            assert((a + b).to_multiset() =~= (a0 + b0).to_multiset().insert(x));
        } else if rank(groups, x) is None || rank(groups, x).unwrap() < j {
            assert((a + b).to_multiset() =~= (a0 + b0).to_multiset().insert(x));
        } else {
            assert((a + b).to_multiset() =~= (a0 + b0).to_multiset());
        }
    }
}

/// Putting parts in the groups' order keeps every one of them, as often
/// as it came.
pub proof fn law_ordering_keeps_every_part(on: Seq<Seq<char>>, groups: Seq<Seq<char>>)
    ensures
        in_group_order(on, groups).to_multiset() == on.to_multiset(),
    decreases on.len(),
{
    broadcast use vstd::seq_lib::group_to_multiset_ensures;
    if on.len() == 0 {
        assert(in_group_order(on, groups).to_multiset() =~= on.to_multiset()) by {
            lemma_ranked_empty(on, groups, groups.len());
        }
    } else {
        let rest = on.drop_last();
        let x = on.last();
        law_ordering_keeps_every_part(rest, groups);
        lemma_ranked_push(rest, groups, x, groups.len());
        groups.index_of_first_ensures(x);
        assert(rest.push(x) =~= on);
    }
}

proof fn lemma_ranked_empty(on: Seq<Seq<char>>, groups: Seq<Seq<char>>, k: nat)
    requires
        on.len() == 0,
    ensures
        ranked(on, groups, k).len() == 0,
    decreases k,
{
    if k > 0 {
        lemma_ranked_empty(on, groups, (k - 1) as nat);
    }
}

/// Every part that `part_names` reads has a character.
proof fn lemma_part_names_filled(s: Seq<char>)
    ensures
        forall|i: int| 0 <= i < part_names(s).len() ==> (#[trigger] part_names(s)[i]).len() > 0,
    decreases s.len(),
{
    if s.len() > 0 {
        lemma_part_names_filled(s.drop_last());
        if s.last() != ',' && s.len() >= 2 && s[s.len() - 2] != ',' {
            lemma_part_names_nonempty(s.drop_last());
        }
    }
}

/// Removing a part that `on` holds once leaves one fewer.
proof fn lemma_without_one(on: Seq<Seq<char>>, part: Seq<char>)
    requires
        distinct(on),
        on.contains(part),
    ensures
        without(on, part).len() + 1 == on.len(),
    decreases on.len(),
{
    let rest = on.drop_last();
    assert(distinct(rest));
    if on.last() == part {
        lemma_without_none(rest, part);
    } else {
        let i = choose|i: int| 0 <= i < on.len() && on[i] == part;
        assert(rest[i] == part);
        lemma_without_one(rest, part);
    }
}

proof fn lemma_without_none(on: Seq<Seq<char>>, part: Seq<char>)
    requires
        !on.contains(part),
    ensures
        without(on, part).len() == on.len(),
    decreases on.len(),
{
    if on.len() > 0 {
        let rest = on.drop_last();
        if rest.contains(part) {
            let i = choose|i: int| 0 <= i < rest.len() && rest[i] == part;
            assert(on[i] == part);
        }
        lemma_without_none(rest, part);
    }
}

/// `without` keeps only what `on` holds.
proof fn lemma_without_within(on: Seq<Seq<char>>, part: Seq<char>)
    ensures
        forall|i: int| 0 <= i < without(on, part).len() ==> on.contains(#[trigger] without(on, part)[i]),
    decreases on.len(),
{
    if on.len() > 0 {
        let rest = on.drop_last();
        lemma_without_within(rest, part);
        assert forall|i: int| 0 <= i < without(on, part).len() implies on.contains(#[trigger] without(on, part)[i]) by {
            let w = without(on, part)[i];
            if i < without(rest, part).len() {
                assert(w == without(rest, part)[i]);
                let j = choose|j: int| 0 <= j < rest.len() && rest[j] == w;
                assert(on[j] == w);
            } else {
                assert(w == on.last());
                assert(on[on.len() - 1] == w);
            }
        }
    }
}

/// Commas join a nonempty list whose last part has a character into a
/// text with a character.
proof fn lemma_joined_filled(ws: Seq<Seq<char>>)
    requires
        ws.len() > 0,
        ws.last().len() > 0,
    ensures
        comma_joined(ws).len() > 0,
{
}

/// Turning a part over never leaves a preset without a part: where its
/// parts are named once each and the part turned over has a name, the
/// preset holds at least one part after.
pub proof fn law_a_preset_keeps_a_part(parts: Seq<char>, part: Seq<char>, groups: Seq<Seq<char>>)
    requires
        part.len() > 0,
        distinct(part_names(parts)),
    ensures
        part_names(parts).len() > 0 ==> parts_toggled(parts, part, groups).len() > 0,
        parts_toggled(parts, part, groups).len() > 0,
{
    broadcast use vstd::seq_lib::group_to_multiset_ensures;
    let on = part_names(parts);
    let t = toggled(on, part);
    lemma_part_names_filled(parts);
    assert forall|i: int| 0 <= i < t.len() implies (#[trigger] t[i]).len() > 0 by {
        if on.contains(part) {
            if on.len() > 1 {
                lemma_without_within(on, part);
                let w = t[i];
                assert(on.contains(w));
                let j = choose|j: int| 0 <= j < on.len() && on[j] == w;
                assert(on[j].len() > 0);
            }
        } else if i < on.len() {
            assert(t[i] == on[i]);
        }
    }
    if on.contains(part) && on.len() > 1 {
        lemma_without_one(on, part);
    }
    assert(t.len() > 0);
    let o = in_group_order(t, groups);
    law_ordering_keeps_every_part(t, groups);
    assert(o.to_multiset().len() == o.len());
    assert(t.to_multiset().len() == t.len());
    assert(o.len() == t.len());
    assert(o.to_multiset().count(o.last()) > 0);
    assert(t.contains(o.last()));
    let j = choose|j: int| 0 <= j < t.len() && t[j] == o.last();
    assert(t[j].len() > 0);
    lemma_joined_filled(o);
}

} // verus!

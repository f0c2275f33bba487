//! What is selected in the editor: the regions a command acts on, the
//! annotation the arrow commands step to, and the panel that a selection
//! takes the place of.

use vstd::prelude::*;
use crate::text::str_eq;

verus! {

/// The annotation selected by `next-annotation` (or `previous-annotation`,
/// `backwards`) among `len` at the playhead, in stacking order: the one
/// after (before) the selected one, `current`, round the ends; the first
/// where none of them is selected.
pub open spec fn stepped(current: Option<nat>, len: nat, backwards: bool) -> nat {
    match current {
        None => 0,
        Some(i) => if backwards {
            (((i + len - 1) as int) % (len as int)) as nat
        } else {
            (((i + 1) as int) % (len as int)) as nat
        },
    }
}

/// The place, among `len` annotations at the playhead, that the arrow
/// commands select next: `stepped`; nothing where there are none.
pub fn step(current: Option<usize>, len: usize, backwards: bool) -> (r: Option<usize>)
    ensures
        len == 0 ==> r is None,
        len > 0 ==> r == Some(stepped(
            match current { Some(i) => Some(i as nat), None => None },
            len as nat,
            backwards,
        ) as usize),
        r matches Some(k) ==> k < len,
{
    if len == 0 {
        return None;
    }
    let k: u128 = match current {
        None => 0,
        Some(i) => if backwards {
            (i as u128 + len as u128 - 1) % (len as u128)
        } else {
            (i as u128 + 1) % (len as u128)
        },
    };
    Some(k as usize)
}

/// Stepping forward and then back, or back and then forward, comes back
/// to the annotation one started from.
pub proof fn law_step_back_undoes_step(i: nat, len: nat, backwards: bool)
    requires
        i < len,
    ensures
        stepped(Some(stepped(Some(i), len, backwards)), len, !backwards) == i,
{
    let l = len as int;
    let x = i as int;
    if backwards {
        if x == 0 {
            assert((x + l - 1) % l == l - 1) by (nonlinear_arith)
                requires x == 0, l > 0;
            assert(((l - 1) + 1) % l == 0) by (nonlinear_arith)
                requires l > 0;
        } else {
            assert((x + l - 1) % l == x - 1) by (nonlinear_arith)
                requires 0 < x < l;
            assert((x - 1 + 1) % l == x) by (nonlinear_arith)
                requires 0 < x < l;
        }
    } else {
        if x + 1 == l {
            assert((x + 1) % l == 0) by (nonlinear_arith)
                requires x + 1 == l, l > 0;
            assert((0 + l - 1) % l == x) by (nonlinear_arith)
                requires x + 1 == l, l > 0;
        } else {
            assert((x + 1) % l == x + 1) by (nonlinear_arith)
                requires 0 <= x, x + 1 < l;
            assert((x + 1 + l - 1) % l == x) by (nonlinear_arith)
                requires 0 <= x, x + 1 < l;
        }
    }
}

/// A region named by its kind of list (`zoomRegions`, `autoCaptions`…) and
/// its id there, as character sequences.
pub open spec fn key_view(k: (String, String)) -> (Seq<char>, Seq<char>) {
    (k.0@, k.1@)
}

/// `keys` as character sequences.
pub open spec fn keys_view(keys: Seq<(String, String)>) -> Seq<(Seq<char>, Seq<char>)> {
    keys.map_values(|k: (String, String)| key_view(k))
}

/// The regions selected besides the main one, `extra`, and the main one,
/// `selected`, at the end unless it is among them already.
pub open spec fn with_selected(
    extra: Seq<(Seq<char>, Seq<char>)>,
    selected: Option<(Seq<char>, Seq<char>)>,
) -> Seq<(Seq<char>, Seq<char>)> {
    match selected {
        Some(k) => if extra.contains(k) { extra } else { extra.push(k) },
        None => extra,
    }
}

/// Those of `keys` that are in `existing`, in their order.
pub open spec fn kept(
    keys: Seq<(Seq<char>, Seq<char>)>,
    existing: Seq<(Seq<char>, Seq<char>)>,
) -> Seq<(Seq<char>, Seq<char>)>
    decreases keys.len(),
{
    if keys.len() == 0 {
        seq![]
    } else {
        let rest = kept(keys.drop_last(), existing);
        if existing.contains(keys.last()) {
            rest.push(keys.last())
        } else {
            rest
        }
    }
}

fn same_key(a: &(String, String), b: &(String, String)) -> (r: bool)
    ensures
        r == (key_view(*a) == key_view(*b)),
{
    str_eq(a.0.as_str(), b.0.as_str()) && str_eq(a.1.as_str(), b.1.as_str())
}

fn has_key(keys: &Vec<(String, String)>, k: &(String, String)) -> (r: bool)
    ensures
        r == keys_view(keys@).contains(key_view(*k)),
{
    let mut i: usize = 0;
    while i < keys.len()
        invariant
            i <= keys.len(),
            forall|j: int| 0 <= j < i ==> key_view(#[trigger] keys@[j]) != key_view(*k),
        decreases keys.len() - i,
    {
        if same_key(&keys[i], k) {
            assert(keys_view(keys@)[i as int] == key_view(*k));
            return true;
        }
        i += 1;
    }
    proof {
        if keys_view(keys@).contains(key_view(*k)) {
            let j = choose|j: int| 0 <= j < keys_view(keys@).len() && keys_view(keys@)[j] == key_view(*k);
            assert(key_view(keys@[j]) != key_view(*k));
        }
    }
    false
}

fn copy_key(k: &(String, String)) -> (r: (String, String))
    ensures
        key_view(r) == key_view(*k),
{
    (k.0.clone(), k.1.clone())
}

/// The regions that a command on the selection acts on: those selected
/// besides the main one, then the main one unless it is among them, each
/// only while the project still holds it (`existing`).
pub fn selected_keys(
    extra: &Vec<(String, String)>,
    selected: &Option<(String, String)>,
    existing: &Vec<(String, String)>,
) -> (r: Vec<(String, String)>)
    ensures
        keys_view(r@) == kept(
            with_selected(
                keys_view(extra@),
                match selected { Some(k) => Some(key_view(*k)), None => None },
            ),
            keys_view(existing@),
        ),
{
    let mut keys: Vec<(String, String)> = Vec::new();
    let mut i: usize = 0;
    while i < extra.len()
        invariant
            i <= extra.len(),
            keys@.len() == i,
            forall|j: int| 0 <= j < i ==> key_view(#[trigger] keys@[j]) == key_view(extra@[j]),
        decreases extra.len() - i,
    {
        keys.push(copy_key(&extra[i]));
        i += 1;
    }
    assert(keys_view(keys@) =~= keys_view(extra@));
    match selected {
        Some(k) => {
            if !has_key(extra, k) {
                keys.push(copy_key(k));
                assert(keys_view(keys@) =~= keys_view(extra@).push(key_view(*k)));
            }
        },
        None => {},
    }
    let ghost all = keys_view(keys@);
    let mut out: Vec<(String, String)> = Vec::new();
    let mut j: usize = 0;
    while j < keys.len()
        invariant
            j <= keys.len(),
            all == keys_view(keys@),
            keys_view(out@) == kept(all.take(j as int), keys_view(existing@)),
        decreases keys.len() - j,
    {
        assert(all.take(j as int + 1).drop_last() =~= all.take(j as int));
        if has_key(existing, &keys[j]) {
            out.push(copy_key(&keys[j]));
            assert(keys_view(out@) =~= kept(all.take(j as int), keys_view(existing@)).push(all[j as int]));
        }
        j += 1;
    }
    assert(all.take(keys.len() as int) =~= all);
    out
}

/// The project's region lists that select-all takes, in its order.
pub open spec fn region_kinds() -> Seq<Seq<char>> {
    seq![
        "zoomRegions"@, "trimRegions"@, "speedRegions"@, "clipRegions"@,
        "annotationRegions"@, "audioRegions"@, "autoCaptions"@, "nativeMarkers"@,
    ]
}

/// The `k`th of `region_kinds`.
fn region_kind(k: usize) -> (r: &'static str)
    requires
        k < 8,
    ensures
        r@ == region_kinds()[k as int],
{
    if k == 0 {
        "zoomRegions"
    } else if k == 1 {
        "trimRegions"
    } else if k == 2 {
        "speedRegions"
    } else if k == 3 {
        "clipRegions"
    } else if k == 4 {
        "annotationRegions"
    } else if k == 5 {
        "audioRegions"
    } else if k == 6 {
        "autoCaptions"
    } else {
        "nativeMarkers"
    }
}

/// A region's id as characters, where it has a text id.
pub open spec fn id_view(id: Option<String>) -> Option<Seq<char>> {
    match id {
        Some(t) => Some(t@),
        None => None,
    }
}

/// A region list as characters: its key and its regions' ids.
pub open spec fn list_view(l: (String, Vec<Option<String>>)) -> (Seq<char>, Seq<Option<Seq<char>>>) {
    (l.0@, l.1@.map_values(|id: Option<String>| id_view(id)))
}

/// The project's region lists as characters.
pub open spec fn lists_view(v: Seq<(String, Vec<Option<String>>)>) -> Seq<(Seq<char>, Seq<Option<Seq<char>>>)> {
    v.map_values(|l: (String, Vec<Option<String>>)| list_view(l))
}

/// The ids of the regions of list `kind`: those of its first list, none
/// where the project has no such list.
pub open spec fn ids_of(lists: Seq<(Seq<char>, Seq<Option<Seq<char>>>)>, kind: Seq<char>) -> Seq<Option<Seq<char>>>
    decreases lists.len(),
{
    if lists.len() == 0 {
        seq![]
    } else if lists[0].0 == kind {
        lists[0].1
    } else {
        ids_of(lists.skip(1), kind)
    }
}

/// The keys of the regions of list `kind` that have a text id, in order.
pub open spec fn keyed(kind: Seq<char>, ids: Seq<Option<Seq<char>>>) -> Seq<(Seq<char>, Seq<char>)>
    decreases ids.len(),
{
    if ids.len() == 0 {
        seq![]
    } else {
        let rest = keyed(kind, ids.drop_last());
        match ids.last() {
            Some(id) => rest.push((kind, id)),
            None => rest,
        }
    }
}

/// The keys of every region of the first `k` lists that select-all takes.
pub open spec fn all_keys(lists: Seq<(Seq<char>, Seq<Option<Seq<char>>>)>, k: nat) -> Seq<(Seq<char>, Seq<char>)>
    decreases k,
{
    if k == 0 {
        seq![]
    } else {
        let kind = region_kinds()[k - 1];
        all_keys(lists, (k - 1) as nat) + keyed(kind, ids_of(lists, kind))
    }
}

/// Whether `kind` is one of the region lists select-all takes.
pub open spec fn selectable_list(kind: Seq<char>) -> bool {
    kind == "zoomRegions"@ || kind == "trimRegions"@ || kind == "speedRegions"@ || kind == "clipRegions"@
        || kind == "annotationRegions"@ || kind == "audioRegions"@ || kind == "autoCaptions"@
        || kind == "nativeMarkers"@
}

proof fn lemma_keyed_has(kind: Seq<char>, ids: Seq<Option<Seq<char>>>, i: int)
    requires
        0 <= i < ids.len(),
        ids[i] is Some,
    ensures
        keyed(kind, ids).contains((kind, ids[i]->0)),
    decreases ids.len(),
{
    let rest = keyed(kind, ids.drop_last());
    if i < ids.len() - 1 {
        lemma_keyed_has(kind, ids.drop_last(), i);
        let j = choose|j: int| 0 <= j < rest.len() && rest[j] == (kind, ids[i]->0);
        match ids.last() {
            Some(id) => assert(rest.push((kind, id))[j] == rest[j]),
            None => {},
        }
    } else {
        assert(rest.push((kind, ids[i]->0))[rest.len() as int] == (kind, ids[i]->0));
    }
}

proof fn lemma_keyed_kind(kind: Seq<char>, ids: Seq<Option<Seq<char>>>, x: (Seq<char>, Seq<char>))
    requires
        keyed(kind, ids).contains(x),
    ensures
        x.0 == kind,
        ids.contains(Some(x.1)),
    decreases ids.len(),
{
    let rest = keyed(kind, ids.drop_last());
    if ids.len() > 0 {
        let j = choose|j: int| 0 <= j < keyed(kind, ids).len() && keyed(kind, ids)[j] == x;
        if j < rest.len() {
            lemma_keyed_kind(kind, ids.drop_last(), x);
            let k = choose|k: int| 0 <= k < ids.drop_last().len() && ids.drop_last()[k] == Some(x.1);
            assert(ids[k] == Some(x.1));
        } else {
            assert(ids[ids.len() - 1] == Some(x.1));
        }
    }
}

proof fn lemma_all_keys_has(lists: Seq<(Seq<char>, Seq<Option<Seq<char>>>)>, k: nat, j: int, x: (Seq<char>, Seq<char>))
    requires
        0 <= j < k <= 8,
        keyed(region_kinds()[j], ids_of(lists, region_kinds()[j])).contains(x),
    ensures
        all_keys(lists, k).contains(x),
    decreases k,
{
    let before = all_keys(lists, (k - 1) as nat);
    let last = keyed(region_kinds()[k - 1], ids_of(lists, region_kinds()[k - 1]));
    if j < k - 1 {
        lemma_all_keys_has(lists, (k - 1) as nat, j, x);
        let i = choose|i: int| 0 <= i < before.len() && before[i] == x;
        assert((before + last)[i] == x);
    } else {
        let i = choose|i: int| 0 <= i < last.len() && last[i] == x;
        assert((before + last)[before.len() + i] == x);
    }
}

proof fn lemma_all_keys_from(lists: Seq<(Seq<char>, Seq<Option<Seq<char>>>)>, k: nat, x: (Seq<char>, Seq<char>))
    requires
        k <= 8,
        all_keys(lists, k).contains(x),
    ensures
        exists|j: int| 0 <= j < k && #[trigger] region_kinds()[j] == x.0
            && keyed(x.0, ids_of(lists, x.0)).contains(x),
    decreases k,
{
    let before = all_keys(lists, (k - 1) as nat);
    let last = keyed(region_kinds()[k - 1], ids_of(lists, region_kinds()[k - 1]));
    let i = choose|i: int| 0 <= i < (before + last).len() && (before + last)[i] == x;
    if i < before.len() {
        assert(before[i] == x);
        lemma_all_keys_from(lists, (k - 1) as nat, x);
    } else {
        assert(last[i - before.len()] == x);
        lemma_keyed_kind(region_kinds()[k - 1], ids_of(lists, region_kinds()[k - 1]), x);
        assert(region_kinds()[k - 1] == x.0);
    }
}

/// Select-all takes every region with a text id in each of the lists
/// zoomRegions, trimRegions, speedRegions, clipRegions, annotationRegions,
/// audioRegions, autoCaptions and nativeMarkers, and nothing else: each key
/// it gives names one of those lists and a text id in it.
pub proof fn law_select_all_takes_every_region(
    lists: Seq<(Seq<char>, Seq<Option<Seq<char>>>)>,
    kind: Seq<char>,
    i: int,
    key: (Seq<char>, Seq<char>),
)
    ensures
        selectable_list(kind) && 0 <= i < ids_of(lists, kind).len() && ids_of(lists, kind)[i] is Some
            ==> all_keys(lists, 8).contains((kind, ids_of(lists, kind)[i]->0)),
        all_keys(lists, 8).contains(key) ==> selectable_list(key.0) && ids_of(lists, key.0).contains(Some(key.1)),
{
    let kinds = region_kinds();
    if selectable_list(kind) && 0 <= i < ids_of(lists, kind).len() && ids_of(lists, kind)[i] is Some {
        let j: int = if kind == "zoomRegions"@ {
            0
        } else if kind == "trimRegions"@ {
            1
        } else if kind == "speedRegions"@ {
            2
        } else if kind == "clipRegions"@ {
            3
        } else if kind == "annotationRegions"@ {
            4
        } else if kind == "audioRegions"@ {
            5
        } else if kind == "autoCaptions"@ {
            6
        } else {
            7
        };
        assert(kinds[j] == kind);
        lemma_keyed_has(kind, ids_of(lists, kind), i);
        lemma_all_keys_has(lists, 8, j, (kind, ids_of(lists, kind)[i]->0));
    }
    if all_keys(lists, 8).contains(key) {
        lemma_all_keys_from(lists, 8, key);
        let j = choose|j: int| 0 <= j < 8 && #[trigger] kinds[j] == key.0
            && keyed(key.0, ids_of(lists, key.0)).contains(key);
        assert(selectable_list(key.0)) by {
            assert(0 <= j < 8);
            if j == 0 {} else if j == 1 {} else if j == 2 {} else if j == 3 {} else if j == 4 {}
            else if j == 5 {} else if j == 6 {} else {}
        }
        lemma_keyed_kind(key.0, ids_of(lists, key.0), key);
    }
}

/// Where a list stands in select-all's order: zoomRegions, trimRegions,
/// speedRegions, clipRegions, annotationRegions, audioRegions,
/// autoCaptions, nativeMarkers.
pub open spec fn list_rank(kind: Seq<char>) -> int {
    if kind == "zoomRegions"@ {
        0
    } else if kind == "trimRegions"@ {
        1
    } else if kind == "speedRegions"@ {
        2
    } else if kind == "clipRegions"@ {
        3
    } else if kind == "annotationRegions"@ {
        4
    } else if kind == "audioRegions"@ {
        5
    } else if kind == "autoCaptions"@ {
        6
    } else {
        7
    }
}

proof fn lemma_kind_ranks()
    ensures
        forall|m: int| 0 <= m < 8 ==> list_rank(#[trigger] region_kinds()[m]) == m,
{
    reveal_strlit("zoomRegions");
    reveal_strlit("trimRegions");
    reveal_strlit("speedRegions");
    reveal_strlit("clipRegions");
    reveal_strlit("annotationRegions");
    reveal_strlit("audioRegions");
    reveal_strlit("autoCaptions");
    reveal_strlit("nativeMarkers");
    let k = region_kinds();
    assert forall|i: int, j: int| 0 <= i < 8 && 0 <= j < 8 && i != j implies k[i] != k[j] by {
        if k[i].len() == k[j].len() {
            assert(k[i][0] != k[j][0] || k[i][1] != k[j][1] || k[i][2] != k[j][2]);
        }
    }
}

proof fn lemma_all_keys_ordered(lists: Seq<(Seq<char>, Seq<Option<Seq<char>>>)>, k: nat)
    requires
        k <= 8,
    ensures
        forall|i: int| 0 <= i < all_keys(lists, k).len() ==> list_rank(#[trigger] all_keys(lists, k)[i].0) < k,
        forall|i: int, j: int| 0 <= i < j < all_keys(lists, k).len()
            ==> list_rank(#[trigger] all_keys(lists, k)[i].0) <= list_rank(#[trigger] all_keys(lists, k)[j].0),
    decreases k,
{
    if k > 0 {
        lemma_kind_ranks();
        lemma_all_keys_ordered(lists, (k - 1) as nat);
        let before = all_keys(lists, (k - 1) as nat);
        let kind = region_kinds()[k - 1];
        let last = keyed(kind, ids_of(lists, kind));
        let all = before + last;
        assert forall|i: int| 0 <= i < last.len() implies #[trigger] last[i].0 == kind by {
            assert(last.contains(last[i]));
            lemma_keyed_kind(kind, ids_of(lists, kind), last[i]);
        }
        assert forall|i: int| 0 <= i < all.len() implies list_rank(#[trigger] all[i].0) < k by {
            if i >= before.len() {
                assert(all[i] == last[i - before.len()]);
            }
        }
        assert forall|i: int, j: int| 0 <= i < j < all.len()
            implies list_rank(#[trigger] all[i].0) <= list_rank(#[trigger] all[j].0) by {
            if j >= before.len() {
                assert(all[j] == last[j - before.len()]);
                if i >= before.len() {
                    assert(all[i] == last[i - before.len()]);
                }
            }
        }
    }
}

/// Select-all gives its keys list by list in its order: every key of an
/// earlier list (zoomRegions first, nativeMarkers last) comes before every
/// key of a later one.
pub proof fn law_select_all_goes_list_by_list(lists: Seq<(Seq<char>, Seq<Option<Seq<char>>>)>, i: int, j: int)
    requires
        0 <= i < j < all_keys(lists, 8).len(),
    ensures
        list_rank(all_keys(lists, 8)[i].0) <= list_rank(all_keys(lists, 8)[j].0),
{
    lemma_all_keys_ordered(lists, 8);
}

/// The first of `lists` whose key is `kind`.
fn find_list(lists: &Vec<(String, Vec<Option<String>>)>, kind: &str) -> (r: Option<usize>)
    ensures
        match r {
            Some(i) => i < lists@.len() && ids_of(lists_view(lists@), kind@) == lists_view(lists@)[i as int].1,
            None => ids_of(lists_view(lists@), kind@) == Seq::<Option<Seq<char>>>::empty(),
        },
{
    let ghost all = lists_view(lists@);
    let mut i: usize = 0;
    assert(all.skip(0) =~= all);
    while i < lists.len()
        invariant
            all == lists_view(lists@),
            i <= lists.len(),
            ids_of(all, kind@) == ids_of(all.skip(i as int), kind@),
        decreases lists.len() - i,
    {
        assert(all.skip(i as int)[0] == all[i as int]);
        if str_eq(lists[i].0.as_str(), kind) {
            return Some(i);
        }
        assert(all.skip(i as int).skip(1) =~= all.skip(i as int + 1));
        i += 1;
    }
    assert(all.skip(i as int).len() == 0);
    None
}

/// Everything selected: the keys of every region with a text id, list by
/// list in `region_kinds`' order and in each list's order, and the last of
/// them as the main selection (none where there is no region).
pub fn select_all(lists: &Vec<(String, Vec<Option<String>>)>) -> (r: (Vec<(String, String)>, Option<(String, String)>))
    ensures
        keys_view(r.0@) == all_keys(lists_view(lists@), 8),
        match r.1 {
            Some(k) => all_keys(lists_view(lists@), 8).len() > 0
                && key_view(k) == all_keys(lists_view(lists@), 8).last(),
            None => all_keys(lists_view(lists@), 8).len() == 0,
        },
{
    let ghost all = lists_view(lists@);
    let mut keys: Vec<(String, String)> = Vec::new();
    let mut k: usize = 0;
    while k < 8
        invariant
            all == lists_view(lists@),
            k <= 8,
            keys_view(keys@) == all_keys(all, k as nat),
        decreases 8 - k,
    {
        let kind = region_kind(k);
        let ghost start = keys_view(keys@);
        match find_list(lists, kind) {
            Some(i) => {
                let ids = &lists[i].1;
                let ghost idv = all[i as int].1;
                assert(idv == ids@.map_values(|id: Option<String>| id_view(id)));
                let mut j: usize = 0;
                while j < ids.len()
                    invariant
                        j <= ids.len(),
                        idv == ids@.map_values(|id: Option<String>| id_view(id)),
                        kind@ == region_kinds()[k as int],
                        keys_view(keys@) == start + keyed(kind@, idv.take(j as int)),
                    decreases ids.len() - j,
                {
                    assert(idv.take(j as int + 1).drop_last() =~= idv.take(j as int));
                    assert(idv.take(j as int + 1).last() == id_view(ids@[j as int]));
                    match &ids[j] {
                        Some(id) => {
                            let ghost before = keys_view(keys@);
                            keys.push((kind.to_owned(), id.clone()));
                            assert(keys_view(keys@) =~= before.push((kind@, id@)));
                        },
                        None => {},
                    }
                    j += 1;
                }
                assert(idv.take(ids.len() as int) =~= idv);
            },
            None => {
                assert(keyed(kind@, Seq::<Option<Seq<char>>>::empty()) =~= Seq::<(Seq<char>, Seq<char>)>::empty());
                assert(keys_view(keys@) =~= start + Seq::<(Seq<char>, Seq<char>)>::empty());
            },
        }
        k += 1;
    }
    let main = if keys.len() > 0 {
        let last = &keys[keys.len() - 1];
        Some((last.0.clone(), last.1.clone()))
    } else {
        None
    };
    (keys, main)
}

/// The name of the panel that a selection shows in.
pub open spec fn selection_panel() -> Seq<char> {
    "Selection"@
}

/// The editor's side panel and, while a selection shows, the panel it
/// took the place of.
pub struct Panels {
    pub panel: String,
    pub before_selection: Option<String>,
}

/// `Panels` with their names as character sequences.
pub struct PanelsView {
    pub panel: Seq<char>,
    pub before_selection: Option<Seq<char>>,
}

impl View for Panels {
    type V = PanelsView;

    open spec fn view(&self) -> PanelsView {
        PanelsView {
            panel: self.panel@,
            before_selection: match self.before_selection {
                Some(p) => Some(p@),
                None => None,
            },
        }
    }
}

/// The panels once a selection shows: the selection's panel, remembering
/// the panel it replaced unless that was the selection's own.
pub open spec fn shown(p: PanelsView) -> PanelsView {
    PanelsView {
        panel: selection_panel(),
        before_selection: if p.panel == selection_panel() {
            p.before_selection
        } else {
            Some(p.panel)
        },
    }
}

/// The panels once nothing is selected: where the selection shows and
/// remembers a panel, that panel, forgotten; otherwise as they were.
pub open spec fn deselected(p: PanelsView) -> PanelsView {
    if p.panel == selection_panel() && p.before_selection is Some {
        PanelsView { panel: p.before_selection.unwrap(), before_selection: None }
    } else {
        p
    }
}

impl Panels {
    /// A selection takes the panel's place: `shown`.
    pub fn show_selection(&mut self)
        ensures
            final(self)@ == shown(old(self)@),
    {
        if !str_eq(self.panel.as_str(), "Selection") {
            let mut replaced = String::new();
            std::mem::swap(&mut replaced, &mut self.panel);
            self.before_selection = Some(replaced);
        }
        self.panel = String::new();
        crate::text::push_str(&mut self.panel, "Selection");
        assert(self.panel@ =~= selection_panel());
    }

    /// Nothing selected: `deselected`.
    pub fn deselect(&mut self)
        ensures
            final(self)@ == deselected(old(self)@),
    {
        if str_eq(self.panel.as_str(), "Selection") {
            let mut before = None;
            std::mem::swap(&mut before, &mut self.before_selection);
            match before {
                Some(panel) => {
                    self.panel = panel;
                },
                None => {
                    self.before_selection = None;
                },
            }
        }
    }
}

/// Showing a selection and then deselecting brings back the panel that
/// was open before, and nothing is left remembered; unless that panel was
/// the selection's own.
pub proof fn law_deselect_restores_panel(p: PanelsView)
    requires
        p.panel != selection_panel(),
    ensures
        deselected(shown(p)).panel == p.panel,
        deselected(shown(p)).before_selection is None,
{
}

} // verus!

//! The timeline's lanes: regions that overlap on the annotation or audio
//! row go on lanes of their own, first fit in order of their start, and
//! every row's lanes follow those of the rows above it.
//!
//! Times are order keys: whole numbers that order as the times they stand
//! for, so only their order is read.

use vstd::prelude::*;

verus! {

/// One region as lane packing reads it: the row its kind belongs on
/// (0 zooms, 1 clips, 2 annotations, 3 captions, 4 audio) and the order
/// keys of its start and end.
#[derive(Clone, Copy, Debug)]
pub struct LaneItem {
    pub row: i32,
    pub start: i64,
    pub end: i64,
}

/// The number of rows the timeline's regions belong on.
pub const ROWS: i32 = 5;

/// Whether region `i` comes before region `j`: by start, and where they
/// start together, by their place in the list.
pub open spec fn before(s: Seq<LaneItem>, i: int, j: int) -> bool {
    s[i].start < s[j].start || (s[i].start == s[j].start && i < j)
}

/// Whether `row` is one whose overlapping regions take lanes of their own:
/// annotations and audio.
pub open spec fn packed(row: int) -> bool {
    row == 2 || row == 4
}

/// Whether `i` is a region on row `b`.
pub open spec fn member(s: Seq<LaneItem>, b: int, i: int) -> bool {
    0 <= i < s.len() && s[i].row == b
}

/// Whether `j` is the last region on row `b` before `i` in lane `q`.
pub open spec fn latest(s: Seq<LaneItem>, lane: Seq<int>, b: int, q: int, j: int, i: int) -> bool {
    &&& member(s, b, j)
    &&& lane[j] == q
    &&& before(s, j, i)
    &&& forall|k: int| #![trigger lane[k], before(s, k, i)]
            member(s, b, k) && lane[k] == q && before(s, k, i) ==> k == j || before(s, k, j)
}

/// Whether lane `q` is taken at the start of region `i` of row `b`: its
/// last region before `i` ends after `i` starts.
pub open spec fn blocked(s: Seq<LaneItem>, lane: Seq<int>, b: int, q: int, i: int) -> bool {
    exists|j: int| #[trigger] latest(s, lane, b, q, j, i) && s[j].end > s[i].start
}

/// Whether region `i` of row `b` takes the first lane it fits in: each lower
/// lane's last region before it ends after it starts, and its own lane's
/// last region before it, if any, ends by the time it starts.
pub open spec fn first_fit(s: Seq<LaneItem>, lane: Seq<int>, b: int, i: int) -> bool {
    &&& forall|q: int| 0 <= q < lane[i] ==> #[trigger] blocked(s, lane, b, q, i)
    &&& forall|j: int| #[trigger] latest(s, lane, b, lane[i], j, i) ==> s[j].end <= s[i].start
}

/// Whether `lane` lays out row `b` in `count` lanes: for a packed row each
/// region in the first lane it fits in, the lanes all in use but for a
/// lone first lane; for another row every region in its one lane.
pub open spec fn laid_out(s: Seq<LaneItem>, lane: Seq<int>, b: int, count: int) -> bool {
    &&& count >= 1
    &&& forall|i: int| #[trigger] member(s, b, i) ==> 0 <= lane[i] < count
    &&& if packed(b) {
        &&& forall|i: int| #[trigger] member(s, b, i) ==> first_fit(s, lane, b, i)
        &&& count == 1 || exists|i: int| #[trigger] member(s, b, i) && lane[i] == count - 1
    } else {
        &&& count == 1
        &&& forall|i: int| #[trigger] member(s, b, i) ==> lane[i] == 0
    }
}

/// Whether `order` lists the regions of row `b`, each once, in the order
/// `before` puts them.
pub open spec fn start_order(s: Seq<LaneItem>, b: int, order: Seq<usize>) -> bool {
    &&& forall|a: int| 0 <= a < order.len() ==> #[trigger] member(s, b, order[a] as int)
    &&& forall|a: int, c: int| 0 <= a < c < order.len() ==> before(s, #[trigger] order[a] as int, #[trigger] order[c] as int)
    &&& forall|i: int| #[trigger] member(s, b, i) ==> order.contains(i as usize)
}

/// The regions of row `b` before `order[k]` are those ahead of it in
/// `order`.
proof fn lemma_placed(s: Seq<LaneItem>, b: int, order: Seq<usize>, k: int, i: int)
    requires
        s.len() <= usize::MAX,
        start_order(s, b, order),
        0 <= k < order.len(),
        member(s, b, i),
    ensures
        before(s, i, order[k] as int) <==> placed(order, k, i),
{
    assert(order.contains(i as usize));
    let a = choose|a: int| 0 <= a < order.len() && order[a] == i as usize;
    if before(s, i, order[k] as int) {
        if a == k {
        } else if a > k {
            assert(before(s, order[k] as int, order[a] as int));
        }
        assert(0 <= a < k && order[a] as int == i);
    } else {
        assert forall|c: int| 0 <= c < k implies order[c] as int != i by {
            if order[c] as int == i {
                assert(before(s, order[c] as int, order[k] as int));
            }
        }
    }
}

/// Whether region `i` is among the first `k` of `order`.
pub open spec fn placed(order: Seq<usize>, k: int, i: int) -> bool {
    exists|a: int| 0 <= a < k && order[a] as int == i
}

proof fn lemma_placed_step(order: Seq<usize>, k: int, i: int)
    requires
        0 <= k < order.len(),
    ensures
        placed(order, k + 1, i) <==> placed(order, k, i) || order[k] as int == i,
{
    if placed(order, k + 1, i) {
        let a = choose|a: int| 0 <= a < k + 1 && order[a] as int == i;
        if a < k {
            assert(placed(order, k, i));
        }
    }
    if placed(order, k, i) {
        let a = choose|a: int| 0 <= a < k && order[a] as int == i;
        assert(0 <= a < k + 1 && order[a] as int == i);
    }
    if order[k] as int == i {
        assert(0 <= k < k + 1 && order[k] as int == i);
    }
}

/// The lanes as whole numbers.
pub open spec fn lanes_of(v: Seq<usize>) -> Seq<int> {
    v.map_values(|x: usize| x as int)
}

/// Whether regions `i` and `j` overlap: neither ends by the time the other
/// starts.
pub open spec fn overlap(s: Seq<LaneItem>, i: int, j: int) -> bool {
    !(s[i].end <= s[j].start || s[j].end <= s[i].start)
}

/// First fit at `i` reads only the lanes of `i` and of the regions before
/// it.
proof fn lemma_first_fit_agree(s: Seq<LaneItem>, l1: Seq<int>, l2: Seq<int>, b: int, i: int)
    requires
        first_fit(s, l1, b, i),
        l1[i] == l2[i],
        forall|j: int| member(s, b, j) && before(s, j, i) ==> l1[j] == l2[j],
    ensures
        first_fit(s, l2, b, i),
{
    assert forall|q: int| 0 <= q < l2[i] implies #[trigger] blocked(s, l2, b, q, i) by {
        assert(blocked(s, l1, b, q, i));
        let j = choose|j: int| #[trigger] latest(s, l1, b, q, j, i) && s[j].end > s[i].start;
        assert forall|k: int| #![trigger l2[k], before(s, k, i)]
            member(s, b, k) && l2[k] == q && before(s, k, i) implies k == j || before(s, k, j) by {
            assert(l1[k] == q);
        }
        assert(latest(s, l2, b, q, j, i));
    }
    assert forall|j: int| #[trigger] latest(s, l2, b, l2[i], j, i) implies s[j].end <= s[i].start by {
        assert forall|k: int| #![trigger l1[k], before(s, k, i)]
            member(s, b, k) && l1[k] == l1[i] && before(s, k, i) implies k == j || before(s, k, j) by {
            assert(l2[k] == l2[i]);
        }
        assert(latest(s, l1, b, l1[i], j, i));
    }
}

/// Whether lane `end` is free for a region starting at `start`: empty, or
/// its last region ends by then.
fn open_at(end: Option<i64>, start: i64) -> (r: bool)
    ensures
        r == match end { Some(e) => e <= start, None => true },
{
    match end {
        Some(e) => e <= start,
        None => true,
    }
}

/// The lanes of row `b`'s regions, and how many lanes the row takes. On a
/// packed row each region, in the order `before` puts them, takes the first
/// lane it fits in, or a new one; on another row they share one lane. The
/// lane of a region on another row is 0.
pub fn pack_row(items: &Vec<LaneItem>, b: i32) -> (r: (Vec<usize>, usize))
    ensures
        r.0@.len() == items@.len(),
        laid_out(items@, lanes_of(r.0@), b as int, r.1 as int),
        r.1 <= items@.len() + 1,
        forall|i: int| 0 <= i < items@.len() && !member(items@, b as int, i) ==> r.0@[i] == 0,
        packed(b as int) ==> forall|i: int, j: int|
            member(items@, b as int, i) && member(items@, b as int, j) && i != j && r.0@[i] == r.0@[j]
            ==> !#[trigger] overlap(items@, i, j),
{
    let ghost s = items@;
    let order = sorted_members(items, b);
    let n = items.len();
    let mut lanes: Vec<usize> = Vec::new();
    let mut z: usize = 0;
    while z < n
        invariant
            z <= n,
            n == s.len(),
            lanes@.len() == z,
            forall|i: int| 0 <= i < z ==> lanes@[i] == 0,
        decreases n - z,
    {
        lanes.push(0);
        z += 1;
    }
    let mut ends: Vec<Option<i64>> = Vec::new();
    ends.push(None);
    let ghost mut last: Seq<int> = seq![0int];
    let ghost pk = packed(b as int);
    let mut k: usize = 0;
    while k < order.len()
        invariant
            s == items@,
            n == s.len(),
            pk == packed(b as int),
            start_order(s, b as int, order@),
            k <= order@.len(),
            lanes@.len() == s.len(),
            1 <= ends@.len() <= k + 1,
            last.len() == ends@.len(),
            forall|i: int| 0 <= i < s.len() && !placed(order@, k as int, i) ==> lanes@[i] == 0,
            forall|i: int| #[trigger] placed(order@, k as int, i) ==> member(s, b as int, i) && lanes@[i] < ends@.len(),
            forall|q: int| 0 <= q < ends@.len() && ends@[q] is None ==> k == 0,
            forall|q: int| 0 <= q < ends@.len() && #[trigger] ends@[q] is Some ==> {
                &&& placed(order@, k as int, last[q])
                &&& lanes@[last[q]] == q
                &&& s[last[q]].end == ends@[q]->0
                &&& forall|i: int| #[trigger] placed(order@, k as int, i) && lanes@[i] == q ==> i == last[q] || before(s, i, last[q])
            },
            pk ==> forall|i: int| #[trigger] placed(order@, k as int, i) ==> first_fit(s, lanes_of(lanes@), b as int, i),
            pk ==> ends@.len() == 1 || exists|i: int| #[trigger] placed(order@, k as int, i) && lanes@[i] == ends@.len() - 1,
            !pk ==> ends@.len() == 1,
            !pk ==> forall|i: int| #[trigger] placed(order@, k as int, i) ==> lanes@[i] == 0,
            pk ==> forall|i: int, j: int| #[trigger] placed(order@, k as int, i) && #[trigger] placed(order@, k as int, j)
                && lanes@[i] == lanes@[j] && before(s, i, j) ==> s[i].end <= s[j].start,
        decreases order@.len() - k,
    {
        let x = order[k];
        proof {
            assert(member(s, b as int, x as int));
            assert forall|i: int| member(s, b as int, i) implies (before(s, i, x as int) <==> placed(order@, k as int, i)) by {
                lemma_placed(s, b as int, order@, k as int, i);
            }
            assert forall|i: int| #![trigger placed(order@, k as int + 1, i)] true implies
                (placed(order@, k as int + 1, i) <==> placed(order@, k as int, i) || order@[k as int] as int == i) by {
                lemma_placed_step(order@, k as int, i);
            }
            assert(!placed(order@, k as int, x as int)) by {
                lemma_placed(s, b as int, order@, k as int, x as int);
            }
        }
        let start = items[x].start;
        let ghost before_l = lanes_of(lanes@);
        let ghost before_lanes = lanes@;
        let ghost before_ends = ends@;
        let ghost before_last = last;
        let lane: usize = if b == 2 || b == 4 {
            let mut p: usize = 0;
            while p < ends.len() && !open_at(ends[p], start)
                invariant
                    0 <= p <= ends@.len(),
                    forall|q: int| 0 <= q < p ==> match #[trigger] ends@[q] { Some(e) => e > start, None => false },
                decreases ends@.len() - p,
            {
                p += 1;
            }
            p
        } else {
            0
        };
        if lane == ends.len() {
            ends.push(None);
            proof { last = last.push(x as int); }
        }
        ends.set(lane, Some(items[x].end));
        proof { last = last.update(lane as int, x as int); }
        lanes.set(x, lane);
        proof {
            let l1 = before_l;
            let l2 = lanes_of(lanes@);
            let xi = x as int;
            assert(l2 =~= l1.update(xi, lane as int));
            if pk {
                assert forall|i: int| #[trigger] placed(order@, k as int + 1, i) implies first_fit(s, l2, b as int, i) by {
                    if i == xi {
                        assert forall|q: int| 0 <= q < l2[xi] implies #[trigger] blocked(s, l2, b as int, q, xi) by {
                            let j = before_last[q];
                            assert(before_ends[q] is Some);
                            assert(placed(order@, k as int, j));
                            assert forall|kk: int| #![trigger l2[kk], before(s, kk, xi)]
                                member(s, b as int, kk) && l2[kk] == q && before(s, kk, xi) implies kk == j || before(s, kk, j) by {
                                assert(placed(order@, k as int, kk));
                            }
                            assert(latest(s, l2, b as int, q, j, xi));
                        }
                        assert forall|j: int| #[trigger] latest(s, l2, b as int, l2[xi], j, xi) implies s[j].end <= s[xi].start by {
                            assert(placed(order@, k as int, j));
                            assert(before_lanes[j] == lane);
                            let e = before_ends[lane as int];
                            assert(e is Some);
                            let lj = before_last[lane as int];
                            assert(placed(order@, k as int, lj));
                            assert(member(s, b as int, lj) && l2[lj] == lane && before(s, lj, xi));
                            assert(lj == j || before(s, lj, j));
                        }
                    } else {
                        assert(placed(order@, k as int, i));
                        lemma_first_fit_agree(s, l1, l2, b as int, i);
                    }
                }
                if lane as int == before_ends.len() {
                    assert(placed(order@, k as int + 1, xi) && lanes@[xi] == ends@.len() - 1);
                } else if before_ends.len() != 1 {
                    let w = choose|i: int| #[trigger] placed(order@, k as int, i) && before_lanes[i] == before_ends.len() - 1;
                    assert(placed(order@, k as int + 1, w) && lanes@[w] == ends@.len() - 1);
                }
            }
        }
        k += 1;
    }
    proof {
        assert forall|i: int| #[trigger] member(s, b as int, i) implies placed(order@, order@.len() as int, i) by {
            assert(order@.contains(i as usize));
            let a = choose|a: int| 0 <= a < order@.len() && order@[a] == i as usize;
            assert(order@[a] as int == i);
        }
    }
    (lanes, ends.len())
}

/// The regions of row `b`, in the order `before` puts them.
pub fn sorted_members(items: &Vec<LaneItem>, b: i32) -> (order: Vec<usize>)
    ensures
        start_order(items@, b as int, order@),
        order@.len() <= items@.len(),
{
    let ghost s = items@;
    let mut order: Vec<usize> = Vec::new();
    let mut i: usize = 0;
    while i < items.len()
        invariant
            s == items@,
            0 <= i <= s.len(),
            order@.len() <= i,
            forall|a: int| 0 <= a < order@.len() ==> #[trigger] member(s, b as int, order@[a] as int),
            forall|a: int| 0 <= a < order@.len() ==> #[trigger] order@[a] < i,
            forall|a: int, c: int| 0 <= a < c < order@.len() ==> before(s, #[trigger] order@[a] as int, #[trigger] order@[c] as int),
            forall|j: int| #[trigger] member(s, b as int, j) && j < i ==> order@.contains(j as usize),
        decreases s.len() - i,
    {
        if items[i].row == b {
            // The first place whose region comes after region `i`.
            let mut p: usize = 0;
            while p < order.len() && !(items[i].start < items[order[p]].start)
                invariant
                    s == items@,
                    0 <= p <= order@.len(),
                    i < s.len(),
                    forall|a: int| 0 <= a < order@.len() ==> #[trigger] member(s, b as int, order@[a] as int),
                    forall|a: int| 0 <= a < order@.len() ==> #[trigger] order@[a] < i,
                    forall|a: int| 0 <= a < p ==> before(s, #[trigger] order@[a] as int, i as int),
                decreases order@.len() - p,
            {
                p += 1;
            }
            let ghost old_order = order@;
            proof {
                assert forall|a: int| p <= a < old_order.len() implies before(s, i as int, #[trigger] old_order[a] as int) by {
                    if a > p {
                        assert(before(s, old_order[p as int] as int, old_order[a] as int));
                    }
                }
            }
            order.insert(p, i);
            proof {
                assert forall|a: int| 0 <= a < order@.len() implies #[trigger] member(s, b as int, order@[a] as int) && order@[a] < i + 1 by {
                    if a < p {
                        assert(order@[a] == old_order[a]);
                        assert(old_order[a] < i);
                    } else if a > p {
                        assert(order@[a] == old_order[a - 1]);
                        assert(old_order[a - 1] < i);
                    }
                }
                assert forall|a: int| 0 <= a < order@.len() implies #[trigger] order@[a] < i + 1 by {
                    if a < p {
                        assert(order@[a] == old_order[a]);
                    } else if a > p {
                        assert(order@[a] == old_order[a - 1]);
                    }
                }
                assert forall|a: int, c: int| 0 <= a < c < order@.len() implies before(s, #[trigger] order@[a] as int, #[trigger] order@[c] as int) by {
                    if a < p {
                        assert(order@[a] == old_order[a]);
                    } else if a > p {
                        assert(order@[a] == old_order[a - 1]);
                    }
                    if c < p {
                        assert(order@[c] == old_order[c]);
                    } else if c > p {
                        assert(order@[c] == old_order[c - 1]);
                    }
                }
                assert forall|j: int| #[trigger] member(s, b as int, j) && j < i + 1 implies order@.contains(j as usize) by {
                    if j == i {
                        assert(order@[p as int] == i);
                    } else {
                        assert(old_order.contains(j as usize));
                        let a = choose|a: int| 0 <= a < old_order.len() && old_order[a] == j as usize;
                        if a < p {
                            assert(order@[a] == j as usize);
                        } else {
                            assert(order@[a + 1] == j as usize);
                        }
                    }
                }
            }
        }
        i += 1;
    }
    order
}

/// A laid-out row reads only the lanes of its own regions.
proof fn lemma_laid_out_agree(s: Seq<LaneItem>, l1: Seq<int>, l2: Seq<int>, b: int, count: int)
    requires
        laid_out(s, l1, b, count),
        forall|j: int| member(s, b, j) ==> l1[j] == l2[j],
    ensures
        laid_out(s, l2, b, count),
{
    assert forall|i: int| #[trigger] member(s, b, i) implies 0 <= l2[i] < count by {
        assert(l1[i] == l2[i]);
    }
    if packed(b) {
        assert forall|i: int| #[trigger] member(s, b, i) implies first_fit(s, l2, b, i) by {
            lemma_first_fit_agree(s, l1, l2, b, i);
        }
        if count != 1 {
            let w = choose|i: int| #[trigger] member(s, b, i) && l1[i] == count - 1;
            assert(member(s, b, w) && l2[w] == count - 1);
        }
    } else {
        assert forall|i: int| #[trigger] member(s, b, i) implies l2[i] == 0 by {
            assert(l1[i] == l2[i]);
        }
    }
}

/// The first row of row `b`'s lanes: after all the lanes of the rows above.
pub open spec fn first_lane(counts: Seq<usize>, b: int) -> int
    decreases b,
{
    if b <= 0 {
        0
    } else {
        first_lane(counts, b - 1) + counts[b - 1]
    }
}

/// Whether `lane` gives every region of the five rows its lane, the rows
/// laid out in `counts` lanes, and each region on the timeline row of its
/// lane: its row's first lane and the lane.
pub open spec fn packs(s: Seq<LaneItem>, lane: Seq<int>, counts: Seq<usize>, rows: Seq<i32>) -> bool {
    &&& lane.len() == s.len()
    &&& forall|b: int| 0 <= b < ROWS ==> #[trigger] laid_out(s, lane, b, counts[b] as int)
    &&& forall|i: int| 0 <= i < s.len() && 0 <= s[i].row < ROWS ==> #[trigger] rows[i] == first_lane(counts, s[i].row as int) + lane[i]
}

/// The timeline's rows after lane packing, and the number of lanes each of
/// the five kinds of row takes.
pub struct LaneLayout {
    pub rows: Vec<i32>,
    pub counts: Vec<usize>,
}

/// Lays the regions out on lanes: each row's regions on the row's lanes,
/// the lanes of each row after those of the rows above, those of a packed
/// row first fit in order of their start. A region on no known row keeps
/// its row.
pub fn pack(items: &Vec<LaneItem>) -> (r: LaneLayout)
    requires
        items@.len() <= 0x1000_0000,
    ensures
        r.counts@.len() == ROWS,
        r.rows@.len() == items@.len(),
        exists|lane: Seq<int>| #[trigger] packs(items@, lane, r.counts@, r.rows@),
        forall|i: int| 0 <= i < items@.len() && !(0 <= items@[i].row < ROWS) ==> r.rows@[i] == items@[i].row,
        forall|i: int, j: int|
            0 <= i < items@.len() && 0 <= j < items@.len() && i != j && packed(items@[i].row as int)
            && items@[i].row == items@[j].row && r.rows@[i] == r.rows@[j]
            ==> !#[trigger] overlap(items@, i, j),
{
    let ghost s = items@;
    let n = items.len();
    let mut rows: Vec<i32> = Vec::new();
    let mut z: usize = 0;
    while z < n
        invariant
            z <= n,
            n == s.len(),
            s == items@,
            rows@.len() == z,
            forall|i: int| 0 <= i < z ==> rows@[i] == s[i].row,
        decreases n - z,
    {
        rows.push(items[z].row);
        z += 1;
    }
    let mut counts: Vec<usize> = Vec::new();
    let mut offset: usize = 0;
    let ghost mut lane: Seq<int> = Seq::new(s.len(), |i: int| 0int);
    let mut b: i32 = 0;
    while b < ROWS
        invariant
            0 <= b <= ROWS,
            n == s.len(),
            s == items@,
            n <= 0x1000_0000,
            rows@.len() == n,
            lane.len() == n,
            counts@.len() == b,
            offset == first_lane(counts@, b as int),
            offset <= b * 0x1000_0001,
            forall|c: int| 0 <= c < b ==> #[trigger] laid_out(s, lane, c, counts@[c] as int),
            forall|c: int| 0 <= c < b ==> counts@[c] <= n + 1,
            forall|i: int| 0 <= i < n && 0 <= s[i].row < b ==> rows@[i] == first_lane(counts@, s[i].row as int) + lane[i],
            forall|i: int| 0 <= i < n && !(0 <= s[i].row < b) ==> rows@[i] == s[i].row,
            forall|i: int, j: int|
                0 <= i < n && 0 <= j < n && i != j && 0 <= s[i].row < b && packed(s[i].row as int)
                && s[i].row == s[j].row && lane[i] == lane[j] ==> !#[trigger] overlap(s, i, j),
        decreases ROWS - b,
    {
        let (row_lanes, count) = pack_row(items, b);
        let ghost old_lane = lane;
        let ghost old_rows = rows@;
        proof {
            lane = Seq::new(n as nat, |i: int| if s[i].row == b { row_lanes@[i] as int } else { old_lane[i] });
            assert forall|c: int| 0 <= c < b implies #[trigger] laid_out(s, lane, c, counts@[c] as int) by {
                lemma_laid_out_agree(s, old_lane, lane, c, counts@[c] as int);
            }
            lemma_laid_out_agree(s, lanes_of(row_lanes@), lane, b as int, count as int);
        }
        let mut i: usize = 0;
        while i < n
            invariant
                0 <= b < ROWS,
                n == s.len(),
                s == items@,
                n <= 0x1000_0000,
                row_lanes@.len() == n,
                offset <= b * 0x1000_0001,
                count <= n + 1,
                laid_out(s, lanes_of(row_lanes@), b as int, count as int),
                rows@.len() == n,
                0 <= i <= n,
                forall|j: int| 0 <= j < i && s[j].row == b ==> rows@[j] == offset + row_lanes@[j],
                forall|j: int| 0 <= j < n && !(j < i && s[j].row == b) ==> rows@[j] == old_rows[j],
            decreases n - i,
        {
            if items[i].row == b {
                proof {
                    assert(member(s, b as int, i as int));
                    assert(lanes_of(row_lanes@)[i as int] < count);
                    assert(lanes_of(row_lanes@)[i as int] == row_lanes@[i as int] as int);
                }
                rows.set(i, (offset + row_lanes[i]) as i32);
            }
            i += 1;
        }
        let ghost new_counts = counts@.push(count);
        proof {
            assert forall|c: int| 0 <= c <= b implies #[trigger] first_lane(new_counts, c) == first_lane(counts@, c) by {
                lemma_first_lane_prefix(counts@, new_counts, c);
            }
            assert(first_lane(new_counts, b as int) == first_lane(counts@, b as int));
            assert(first_lane(new_counts, b as int + 1) == offset + count);
            assert forall|i: int| 0 <= i < n && !(0 <= s[i].row < b + 1) implies rows@[i] == s[i].row by {
                assert(rows@[i] == old_rows[i]);
            }
            assert forall|i: int| 0 <= i < n && 0 <= s[i].row < b + 1 implies
                rows@[i] == first_lane(new_counts, s[i].row as int) + lane[i] by {
                if s[i].row == b {
                    assert(lane[i] == row_lanes@[i] as int);
                    assert(rows@[i] == offset + row_lanes@[i]);
                } else {
                    assert(first_lane(new_counts, s[i].row as int) == first_lane(counts@, s[i].row as int));
                    assert(rows@[i] == old_rows[i]);
                    assert(lane[i] == old_lane[i]);
                }
            }
            assert forall|i: int, j: int|
                0 <= i < n && 0 <= j < n && i != j && 0 <= s[i].row < b + 1 && packed(s[i].row as int)
                && s[i].row == s[j].row && lane[i] == lane[j] implies !#[trigger] overlap(s, i, j) by {
                if s[i].row == b {
                    assert(row_lanes@[i] == row_lanes@[j]);
                } else {
                    assert(lane[i] == old_lane[i] && lane[j] == old_lane[j]);
                }
            }
        }
        counts.push(count);
        offset = offset + count;
        b = b + 1;
    }
    proof {
        assert(packs(s, lane, counts@, rows@));
    }
    LaneLayout { rows, counts }
}

proof fn lemma_first_lane_prefix(a: Seq<usize>, b: Seq<usize>, c: int)
    requires
        0 <= c <= a.len(),
        a.len() <= b.len(),
        forall|i: int| 0 <= i < a.len() ==> a[i] == b[i],
    ensures
        first_lane(a, c) == first_lane(b, c),
    decreases c,
{
    if c > 0 {
        lemma_first_lane_prefix(a, b, c - 1);
    }
}

} // verus!

//! Replacing a take's files together: each destination that exists is
//! moved aside first, then each new file is installed; where a step fails,
//! what was done is undone, the installed files removed and the moved ones
//! put back. The file work itself is the caller's: this is the order of it.

use vstd::prelude::*;

verus! {

/// Where a replacement is.
#[derive(Clone, Copy, Debug, PartialEq, Eq, Structural)]
pub enum Stage {
    /// Moving destination `i` aside, if it exists.
    Moving(usize),
    /// Installing the new file for destination `i`.
    Installing(usize),
    /// Removing the `k`th file installed.
    Removing(usize),
    /// Putting back the `k`th destination moved aside.
    Restoring(usize),
    /// Every new file is in place.
    Done,
    /// A step failed, and what was done is undone.
    RolledBack,
}

/// What the caller does next.
#[derive(Clone, Copy, Debug, PartialEq, Eq, Structural)]
pub enum Action {
    /// Move destination `i` aside, where it exists.
    MoveAside(usize),
    /// Install the new file for destination `i`.
    Install(usize),
    /// Remove the file installed at destination `i`.
    Remove(usize),
    /// Put destination `i` back from where it was moved aside.
    Restore(usize),
    /// Nothing is left to do: the replacement succeeded.
    Finish,
    /// Nothing is left to do: the replacement failed and was undone.
    Report,
}

/// How the caller's step went.
#[derive(Clone, Copy, Debug, PartialEq, Eq, Structural)]
pub enum Event {
    /// The step was done.
    Done,
    /// There was nothing to move aside.
    Absent,
    /// The step failed.
    Failed,
}

/// A replacement of the take's files: which destinations get a new file
/// (`sources`), where it is, what was moved aside and installed, and
/// whether an undo step failed.
pub struct Replacement {
    sources: Vec<bool>,
    stage: Stage,
    moved: Vec<usize>,
    installed: Vec<usize>,
    undo_failed: bool,
}

/// `Replacement` as plain values.
pub struct ReplacementView {
    pub sources: Seq<bool>,
    pub stage: Stage,
    pub moved: Seq<usize>,
    pub installed: Seq<usize>,
    pub undo_failed: bool,
}

impl View for Replacement {
    type V = ReplacementView;

    closed spec fn view(&self) -> ReplacementView {
        ReplacementView {
            sources: self.sources@,
            stage: self.stage,
            moved: self.moved@,
            installed: self.installed@,
            undo_failed: self.undo_failed,
        }
    }
}

/// The destinations before `i` that get a new file, in order.
pub open spec fn with_source(sources: Seq<bool>, i: nat) -> Seq<usize>
    decreases i,
{
    if i == 0 {
        seq![]
    } else if sources[i - 1] {
        with_source(sources, (i - 1) as nat).push((i - 1) as usize)
    } else {
        with_source(sources, (i - 1) as nat)
    }
}

/// The first install from destination `i` on: the next that gets a new
/// file, or done where none is left.
pub open spec fn install_from(sources: Seq<bool>, i: nat) -> Stage
    decreases sources.len() - i,
{
    if i >= sources.len() {
        Stage::Done
    } else if sources[i as int] {
        Stage::Installing(i as usize)
    } else {
        install_from(sources, i + 1)
    }
}

/// What undoes a failed replacement, in order: each installed file
/// removed, then each moved destination put back.
pub open spec fn undo_plan(installed: Seq<usize>, moved: Seq<usize>) -> Seq<Action> {
    installed.map_values(|i: usize| Action::Remove(i)) + moved.map_values(|i: usize| Action::Restore(i))
}

/// Where undoing starts: the first installed file, or else the first
/// moved destination, or the end where nothing was done.
pub open spec fn undo_start(r: ReplacementView) -> Stage {
    if r.installed.len() > 0 {
        Stage::Removing(0)
    } else if r.moved.len() > 0 {
        Stage::Restoring(0)
    } else {
        Stage::RolledBack
    }
}

/// The undo step after removing installed file `k`.
pub open spec fn after_removing(r: ReplacementView, k: nat) -> Stage {
    if k + 1 < r.installed.len() {
        Stage::Removing((k + 1) as usize)
    } else if r.moved.len() > 0 {
        Stage::Restoring(0)
    } else {
        Stage::RolledBack
    }
}

/// The undo step after putting back moved destination `k`.
pub open spec fn after_restoring(r: ReplacementView, k: nat) -> Stage {
    if k + 1 < r.moved.len() {
        Stage::Restoring((k + 1) as usize)
    } else {
        Stage::RolledBack
    }
}

/// What the caller does at `r`'s stage.
pub open spec fn action_of(r: ReplacementView) -> Action {
    match r.stage {
        Stage::Moving(i) => Action::MoveAside(i),
        Stage::Installing(i) => Action::Install(i),
        Stage::Removing(k) => Action::Remove(r.installed[k as int]),
        Stage::Restoring(k) => Action::Restore(r.moved[k as int]),
        Stage::Done => Action::Finish,
        Stage::RolledBack => Action::Report,
    }
}

/// The place in the undo plan of an undo stage.
pub open spec fn plan_place(r: ReplacementView) -> int {
    match r.stage {
        Stage::Removing(k) => k as int,
        Stage::Restoring(k) => r.installed.len() + k,
        _ => undo_plan(r.installed, r.moved).len() as int,
    }
}

/// Whether the destinations `moved` are increasing and before `bound`.
pub open spec fn increasing_below(moved: Seq<usize>, bound: nat) -> bool {
    &&& forall|a: int, b: int| 0 <= a < b < moved.len() ==> moved[a] < moved[b]
    &&& forall|a: int| 0 <= a < moved.len() ==> moved[a] < bound
}

/// What a replacement keeps at each stage: while moving, what was moved
/// is before the destination at hand and nothing is installed; while
/// installing, and once done, every destination before with a new file
/// has it; while undoing, the step is one of the plan's.
pub open spec fn well_formed(r: ReplacementView) -> bool {
    &&& r.sources.len() <= usize::MAX
    &&& r.installed.len() <= usize::MAX
    &&& r.moved.len() <= usize::MAX
    &&& increasing_below(r.moved, r.sources.len())
    &&& match r.stage {
        Stage::Moving(i) => i < r.sources.len() && increasing_below(r.moved, i as nat) && r.installed.len() == 0,
        Stage::Installing(i) => {
            &&& i < r.sources.len()
            &&& r.sources[i as int]
            &&& r.installed == with_source(r.sources, i as nat)
        },
        Stage::Removing(k) => k < r.installed.len(),
        Stage::Restoring(k) => k < r.moved.len(),
        Stage::Done => r.installed == with_source(r.sources, r.sources.len()),
        Stage::RolledBack => true,
    }
}

/// The replacement after the caller reports `event` for the step at
/// hand. A failure while moving or installing turns to undoing; while
/// undoing, a failure is counted and undoing goes on; a finished
/// replacement stays as it is.
pub open spec fn next_of(r: ReplacementView, event: Event) -> ReplacementView {
    match r.stage {
        Stage::Moving(i) => {
            if event == Event::Failed {
                ReplacementView { stage: undo_start(r), ..r }
            } else {
                let moved = if event == Event::Done { r.moved.push(i) } else { r.moved };
                let stage = if i + 1 < r.sources.len() {
                    Stage::Moving((i + 1) as usize)
                } else {
                    install_from(r.sources, 0)
                };
                ReplacementView { stage, moved, ..r }
            }
        },
        Stage::Installing(i) => {
            if event == Event::Failed {
                ReplacementView { stage: undo_start(r), ..r }
            } else {
                let installed = r.installed.push(i);
                ReplacementView { stage: install_from(r.sources, (i + 1) as nat), installed, ..r }
            }
        },
        Stage::Removing(k) => ReplacementView {
            stage: after_removing(r, k as nat),
            undo_failed: r.undo_failed || event == Event::Failed,
            ..r
        },
        Stage::Restoring(k) => ReplacementView {
            stage: after_restoring(r, k as nat),
            undo_failed: r.undo_failed || event == Event::Failed,
            ..r
        },
        _ => r,
    }
}

/// An increasing list below `bound` holds at most `bound` entries.
proof fn lemma_increasing_len(m: Seq<usize>, bound: nat)
    requires
        increasing_below(m, bound),
    ensures
        m.len() <= bound,
    decreases m.len(),
{
    if m.len() > 0 {
        let p = m.drop_last();
        assert forall|a: int| 0 <= a < p.len() implies p[a] < m.last() by {
            assert(m[a] < m[m.len() - 1]);
        }
        lemma_increasing_len(p, m.last() as nat);
    }
}

/// The destinations before `i` with a new file are at most `i`.
proof fn lemma_with_source_len(sources: Seq<bool>, i: nat)
    ensures
        with_source(sources, i).len() <= i,
    decreases i,
{
    if i > 0 {
        lemma_with_source_len(sources, (i - 1) as nat);
    }
}

proof fn lemma_install_from(sources: Seq<bool>, i: nat)
    requires
        sources.len() <= usize::MAX,
    ensures
        install_from(sources, i) matches Stage::Installing(j) ==> {
            &&& i <= j < sources.len()
            &&& sources[j as int]
            &&& with_source(sources, j as nat) == with_source(sources, i)
        },
        install_from(sources, i) == Stage::Done ==> with_source(sources, sources.len()) == with_source(sources, i)
            || i > sources.len(),
        install_from(sources, i) is Installing || install_from(sources, i) is Done,
    decreases sources.len() - i,
{
    if i < sources.len() && !sources[i as int] {
        lemma_install_from(sources, i + 1);
        assert(with_source(sources, i + 1) == with_source(sources, i));
    }
}

fn copy_of(v: &Vec<usize>) -> (r: Vec<usize>)
    ensures
        r@ == v@,
{
    let mut out: Vec<usize> = Vec::new();
    let mut i: usize = 0;
    while i < v.len()
        invariant
            i <= v.len(),
            out@ == v@.take(i as int),
        decreases v.len() - i,
    {
        out.push(v[i]);
        i += 1;
        assert(out@ =~= v@.take(i as int));
    }
    assert(v@.take(v.len() as int) =~= v@);
    out
}

fn flags_of(v: &Vec<bool>) -> (r: Vec<bool>)
    ensures
        r@ == v@,
{
    let mut out: Vec<bool> = Vec::new();
    let mut i: usize = 0;
    while i < v.len()
        invariant
            i <= v.len(),
            out@ == v@.take(i as int),
        decreases v.len() - i,
    {
        out.push(v[i]);
        i += 1;
        assert(out@ =~= v@.take(i as int));
    }
    assert(v@.take(v.len() as int) =~= v@);
    out
}

impl Replacement {
    /// What a replacement keeps at every stage: `well_formed`.
    #[verifier::type_invariant]
    spec fn keeps_its_order(self) -> bool {
        well_formed(self@)
    }

    /// Which destinations get a new file.
    pub fn sources(&self) -> (r: &Vec<bool>)
        ensures
            r@ == self@.sources,
    {
        &self.sources
    }

    /// Where the replacement is.
    pub fn stage(&self) -> (r: Stage)
        ensures
            r == self@.stage,
    {
        self.stage
    }

    /// The destinations moved aside, in order.
    pub fn moved(&self) -> (r: &Vec<usize>)
        ensures
            r@ == self@.moved,
    {
        &self.moved
    }

    /// The destinations given their new file, in order.
    pub fn installed(&self) -> (r: &Vec<usize>)
        ensures
            r@ == self@.installed,
    {
        &self.installed
    }

    /// A replacement of destinations of which those marked in `sources`
    /// get a new file: moving the first aside, or, with none, done.
    pub fn new(sources: Vec<bool>) -> (r: Self)
        ensures
            r@.sources == sources@,
            r@.moved.len() == 0,
            r@.installed.len() == 0,
            !r@.undo_failed,
            r@.stage == if sources@.len() > 0 { Stage::Moving(0) } else { Stage::Done },
            well_formed(r@),
    {
        let stage = if sources.len() > 0 { Stage::Moving(0) } else { Stage::Done };
        let r = Replacement { sources, stage, moved: Vec::new(), installed: Vec::new(), undo_failed: false };
        assert(with_source(r@.sources, 0) =~= Seq::<usize>::empty());
        r
    }

    fn install_from(&self, i: usize) -> (r: Stage)
        ensures
            r == install_from(self@.sources, i as nat),
        decreases self.sources.len() - i,
    {
        if i >= self.sources.len() {
            Stage::Done
        } else if self.sources[i] {
            Stage::Installing(i)
        } else {
            self.install_from(i + 1)
        }
    }

    fn undo_start(&self) -> (r: Stage)
        ensures
            r == undo_start(self@),
    {
        if self.installed.len() > 0 {
            Stage::Removing(0)
        } else if self.moved.len() > 0 {
            Stage::Restoring(0)
        } else {
            Stage::RolledBack
        }
    }

    /// What the caller does next: `action_of`.
    pub fn action(&self) -> (r: Action)
        ensures
            r == action_of(self@),
    {
        proof {
            use_type_invariant(self);
        }
        match self.stage {
            Stage::Moving(i) => Action::MoveAside(i),
            Stage::Installing(i) => Action::Install(i),
            Stage::Removing(k) => Action::Remove(self.installed[k]),
            Stage::Restoring(k) => Action::Restore(self.moved[k]),
            Stage::Done => Action::Finish,
            Stage::RolledBack => Action::Report,
        }
    }

    /// The caller's `event` for the step at hand taken in: `next_of`.
    pub fn step(&mut self, event: Event)
        ensures
            final(self)@ == next_of(old(self)@, event),
            well_formed(final(self)@),
    {
        proof {
            use_type_invariant(&*self);
        }
        match self.stage {
            Stage::Moving(i) => {
                if event == Event::Failed {
                    self.stage = self.undo_start();
                } else {
                    let mut moved = copy_of(&self.moved);
                    if event == Event::Done {
                        let ghost before = moved@;
                        moved.push(i);
                        assert forall|a: int, b: int| 0 <= a < b < moved@.len() implies moved@[a] < moved@[b] by {
                            if b == before.len() {
                                assert(moved@[a] == before[a]);
                            }
                        }
                        assert(increasing_below(moved@, (i + 1) as nat));
                    }
                    proof {
                        lemma_increasing_len(moved@, self@.sources.len());
                    }
                    let stage = if i + 1 < self.sources.len() {
                        Stage::Moving(i + 1)
                    } else {
                        proof {
                            lemma_install_from(self@.sources, 0);
                        }
                        assert(with_source(self@.sources, 0) =~= Seq::<usize>::empty());
                        assert(self@.installed =~= Seq::<usize>::empty());
                        self.install_from(0)
                    };
                    *self = Replacement {
                        sources: flags_of(&self.sources),
                        stage,
                        moved,
                        installed: copy_of(&self.installed),
                        undo_failed: self.undo_failed,
                    };
                }
            },
            Stage::Installing(i) => {
                if event == Event::Failed {
                    self.stage = self.undo_start();
                } else {
                    let mut installed = copy_of(&self.installed);
                    installed.push(i);
                    proof {
                        lemma_install_from(self@.sources, (i + 1) as nat);
                        assert(installed@ == with_source(self@.sources, (i + 1) as nat));
                        lemma_with_source_len(self@.sources, (i + 1) as nat);
                    }
                    let stage = self.install_from(i + 1);
                    *self = Replacement {
                        sources: flags_of(&self.sources),
                        stage,
                        moved: copy_of(&self.moved),
                        installed,
                        undo_failed: self.undo_failed,
                    };
                }
            },
            Stage::Removing(k) => {
                assert(k < self.installed.len());
                if event == Event::Failed {
                    self.undo_failed = true;
                }
                self.stage = if k + 1 < self.installed.len() {
                    Stage::Removing(k + 1)
                } else if self.moved.len() > 0 {
                    Stage::Restoring(0)
                } else {
                    Stage::RolledBack
                };
            },
            Stage::Restoring(k) => {
                assert(k < self.moved.len());
                if event == Event::Failed {
                    self.undo_failed = true;
                }
                self.stage = if k + 1 < self.moved.len() {
                    Stage::Restoring(k + 1)
                } else {
                    Stage::RolledBack
                };
            },
            _ => {},
        }
    }

    /// Whether every undo step went through, so the failure was rolled
    /// back cleanly.
    pub fn cleanly_undone(&self) -> (r: bool)
        ensures
            r == !self@.undo_failed,
    {
        !self.undo_failed
    }
}

/// A replacement that finishes has installed every new file, in order.
pub proof fn law_done_installs_every_new_file(r: ReplacementView)
    requires
        well_formed(r),
        r.stage == Stage::Done,
    ensures
        r.installed == with_source(r.sources, r.sources.len()),
        forall|i: int| 0 <= i < r.sources.len() && r.sources[i] ==> r.installed.contains(i as usize),
{
    lemma_with_source_holds(r.sources, r.sources.len());
}

proof fn lemma_with_source_holds(sources: Seq<bool>, n: nat)
    requires
        n <= sources.len(),
    ensures
        forall|i: int| 0 <= i < n && sources[i] ==> with_source(sources, n).contains(i as usize),
    decreases n,
{
    if n > 0 {
        lemma_with_source_holds(sources, (n - 1) as nat);
        assert forall|i: int| 0 <= i < n && sources[i] implies with_source(sources, n).contains(i as usize) by {
            if i < n - 1 {
                let w = with_source(sources, (n - 1) as nat);
                let j = choose|j: int| 0 <= j < w.len() && w[j] == i as usize;
                if sources[n - 1] {
                    assert(with_source(sources, n)[j] == i as usize);
                }
            } else {
                assert(with_source(sources, n).last() == i as usize);
            }
        }
    }
}

/// Undoing takes the plan's steps in order: at each undo step the action
/// is the plan's step at that place, and the next stage is at the plan's
/// next place, or the end once the plan is done, whatever the caller
/// reports; what is undone stays as it was.
pub proof fn law_undo_follows_the_plan(r: ReplacementView, event: Event)
    requires
        well_formed(r),
        r.stage is Removing || r.stage is Restoring,
    ensures
        0 <= plan_place(r) < undo_plan(r.installed, r.moved).len(),
        action_of(r) == undo_plan(r.installed, r.moved)[plan_place(r)],
        next_of(r, event).installed == r.installed,
        next_of(r, event).moved == r.moved,
        plan_place(next_of(r, event)) == plan_place(r) + 1,
        (next_of(r, event).stage is RolledBack) == (plan_place(r) + 1 == undo_plan(r.installed, r.moved).len()),
{
    let plan = undo_plan(r.installed, r.moved);
    assert(plan.len() == r.installed.len() + r.moved.len());
    let n = next_of(r, event);
    match r.stage {
        Stage::Removing(k) => {
            assert(plan[k as int] == Action::Remove(r.installed[k as int]));
            if k + 1 < r.installed.len() {
                assert(n.stage == Stage::Removing((k + 1) as usize));
            } else if r.moved.len() > 0 {
                assert(n.stage == Stage::Restoring(0));
            } else {
                assert(n.stage == Stage::RolledBack);
                assert(plan_place(n) == plan.len());
            }
        },
        Stage::Restoring(k) => {
            assert(plan[r.installed.len() + k] == Action::Restore(r.moved[k as int]));
            if k + 1 < r.moved.len() {
                assert(n.stage == Stage::Restoring((k + 1) as usize));
            } else {
                assert(n.stage == Stage::RolledBack);
            }
        },
        _ => {},
    }
}

/// The plan undoes everything done: it removes each installed file and
/// puts back each moved destination, once each, removals first.
pub proof fn law_undo_plan_covers_everything(installed: Seq<usize>, moved: Seq<usize>)
    ensures
        undo_plan(installed, moved).len() == installed.len() + moved.len(),
        forall|k: int| 0 <= k < installed.len() ==> undo_plan(installed, moved)[k] == Action::Remove(installed[k]),
        forall|k: int| 0 <= k < moved.len() ==> undo_plan(installed, moved)[installed.len() + k] == Action::Restore(moved[k]),
{
}

/// A failure while moving or installing turns to undoing from the plan's
/// first step, with everything done so far to undo.
pub proof fn law_failure_starts_undoing(r: ReplacementView)
    requires
        well_formed(r),
        r.stage is Moving || r.stage is Installing,
    ensures
        next_of(r, Event::Failed).moved == r.moved,
        next_of(r, Event::Failed).installed == r.installed,
        plan_place(next_of(r, Event::Failed)) == 0,
{
}

} // verus!

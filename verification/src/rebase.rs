//! The rebase run: walks the stack bottom to top and rebases each branch
//! onto its parent with `git rebase --onto <new-parent-tip> <old-parent-tip>
//! <branch>`.
//!
//! The old tips are snapshotted before any rebase happens and never change
//! during the run; the new tip of each ref is recorded once it is final. A
//! run stopped by a conflict resumes at the first branch not recorded.
//!
//! `RebaseRun` decides; the caller performs each step it returns (a git
//! query or command, or a write to the state directory) and reports the
//! outcome through the matching `on_*` method.
use vstd::prelude::*;
use crate::text::views;

verus! {

broadcast use vstd::seq_lib::group_seq_properties;

/// Where a run stands: which report it waits for, or that it ended.
#[derive(Clone, Copy, Debug, PartialEq, Eq, Structural)]
pub enum Phase {
    /// Ready to start on the next branch (or to finish).
    Ready,
    /// Waits to learn whether the parent's new tip is an ancestor of the branch.
    AwaitAncestor,
    /// Waits for `git merge-base <onto> <branch>`.
    AwaitMergeBase,
    /// Waits for the outcome of `git rebase --onto`.
    AwaitRebase,
    /// Waits for the branch's tip after it was rebased or found in place.
    AwaitTip,
    /// A rebase stopped on a conflict; the run ends with exit code 2.
    Conflicted,
    /// Every branch is done.
    Finished,
}

/// The state of a run, as a mathematical value.
pub struct RunView {
    pub base: Seq<char>,
    pub branches: Seq<Seq<char>>,
    /// Tips before the run: index 0 is the base, index `i + 1` is branch `i`.
    pub old_tips: Seq<Seq<char>>,
    /// Tips after the run, same indexing; the base's is its (fetched) tip.
    pub new_tips: Seq<Seq<char>>,
    /// The number of branches done; the branch being worked on.
    pub next: nat,
    pub phase: Phase,
}

impl RunView {
    pub open spec fn count(self) -> nat {
        self.branches.len()
    }

    /// The base followed by the branches: the parent of branch `i` is `refs()[i]`.
    pub open spec fn refs(self) -> Seq<Seq<char>> {
        seq![self.base] + self.branches
    }

    pub open spec fn wf(self) -> bool {
        &&& self.old_tips.len() == self.count() + 1
        &&& self.new_tips.len() == self.count() + 1
        &&& self.next <= self.count()
        &&& (self.phase == Phase::AwaitAncestor || self.phase == Phase::AwaitMergeBase
            || self.phase == Phase::AwaitRebase || self.phase == Phase::AwaitTip
            || self.phase == Phase::Conflicted) ==> self.next < self.count()
        &&& self.phase == Phase::Finished ==> self.next == self.count()
    }

    /// The branch being worked on.
    pub open spec fn branch(self) -> Seq<char> {
        self.branches[self.next as int]
    }

    /// Its parent: the base for the first branch, else the branch below it.
    pub open spec fn parent(self) -> Seq<char> {
        self.refs()[self.next as int]
    }

    /// What the branch is rebased onto: its parent's new tip.
    pub open spec fn onto(self) -> Seq<char> {
        self.new_tips[self.next as int]
    }

    /// What the branch is rebased from: its parent's tip before the run.
    pub open spec fn upstream(self) -> Seq<char> {
        self.old_tips[self.next as int]
    }

    /// Everything but the phase and the progress is left as it was.
    pub open spec fn same_plan(self, other: RunView) -> bool {
        &&& self.base == other.base
        &&& self.branches == other.branches
        &&& self.old_tips == other.old_tips
    }
}

/// What the caller does next.
pub enum RebaseStep {
    /// Announce branch `index + 1` of `count` and ask whether `onto` is an
    /// ancestor of `branch` (`git merge-base --is-ancestor <onto> <branch>`).
    Check { index: usize, count: usize, branch: String, parent: String, onto: String, upstream: String },
    /// Ask for `git merge-base <onto> <branch>` (empty text if it fails).
    MergeBase { onto: String, branch: String },
    /// Report that `branch` already sits on `parent`'s tip, then read its tip.
    Skip { branch: String, parent: String },
    /// Run `git rebase --onto <onto> <upstream> <branch>`.
    Rebase { onto: String, upstream: String, branch: String },
    /// Read the tip of `branch`.
    ReadTip { branch: String },
    /// Save `sha` as `branch`'s new tip and write `next_index` to `next-index`.
    Record { branch: String, sha: String, next_index: usize },
    /// The rebase of `branch` stopped on a conflict.
    Conflict { branch: String },
    /// All branches are done: restore the original HEAD and clear the state.
    Finished,
}

pub struct RebaseRun {
    base: String,
    branches: Vec<String>,
    old_tips: Vec<String>,
    new_tips: Vec<String>,
    next: usize,
    phase: Phase,
}

impl View for RebaseRun {
    type V = RunView;

    closed spec fn view(&self) -> RunView {
        RunView {
            base: self.base@,
            branches: views(self.branches@),
            old_tips: views(self.old_tips@),
            new_tips: views(self.new_tips@),
            next: self.next as nat,
            phase: self.phase,
        }
    }
}

/// `step` is the `Check` that starts work on the branch `v` points at.
pub open spec fn is_check(step: RebaseStep, v: RunView) -> bool {
    step matches RebaseStep::Check { index, count, branch, parent, onto, upstream } && index
        == v.next && count == v.count() && branch@ == v.branch() && parent@ == v.parent() && onto@
        == v.onto() && upstream@ == v.upstream()
}

/// `step` rebases the branch `v` points at from its parent's old tip onto
/// its parent's new tip.
pub open spec fn is_rebase(step: RebaseStep, v: RunView) -> bool {
    step matches RebaseStep::Rebase { onto, upstream, branch } && onto@ == v.onto() && upstream@
        == v.upstream() && branch@ == v.branch()
}

/// The run once the branch it works on has its final tip `sha`.
pub open spec fn after_tip(v: RunView, sha: Seq<char>) -> RunView {
    RunView {
        new_tips: v.new_tips.update(v.next + 1 as int, sha),
        next: v.next + 1,
        phase: Phase::Ready,
        ..v
    }
}

/// Law of the run's order: once a branch is done, the next branch is
/// rebased onto the tip just recorded for it, and from the tip it had before
/// the run started.
pub proof fn law_next_branch_onto_recorded_tip(v: RunView, sha: Seq<char>)
    requires
        v.wf(),
        v.phase == Phase::AwaitTip,
        v.next + 1 < v.count(),
    ensures
        after_tip(v, sha).wf(),
        after_tip(v, sha).parent() == v.branch(),
        after_tip(v, sha).onto() == sha,
        after_tip(v, sha).upstream() == v.old_tips[v.next + 1 as int],
{
    assert(v.refs()[v.next + 1 as int] == v.branches[v.next as int]);
}

/// Law of the snapshot: whatever the run learns, the old tips it rebases
/// from are the ones it started with, and the base and branches stay as they were.
pub proof fn law_snapshot_kept(v: RunView, sha: Seq<char>)
    requires
        v.wf(),
        v.phase == Phase::AwaitTip,
    ensures
        after_tip(v, sha).same_plan(v),
        after_tip(v, sha).new_tips.len() == v.new_tips.len(),
        forall|k: int| 0 <= k < v.new_tips.len() && k != v.next + 1 ==> #[trigger] after_tip(v, sha).new_tips[k] == v.new_tips[k],
{
}

/// What `next_step` does: start on the next branch with its `Check`, or
/// finish when none is left; nothing but the phase changes.
pub open spec fn next_step_done(v: RunView, f: RunView, step: RebaseStep) -> bool {
    &&& f.same_plan(v)
    &&& f.new_tips == v.new_tips
    &&& f.next == v.next
    &&& v.next < v.count() ==> f.phase == Phase::AwaitAncestor && is_check(step, v)
    &&& v.next == v.count() ==> f.phase == Phase::Finished && step is Finished
}

/// What `on_ancestor` does: ask for the merge base when the parent's new
/// tip is an ancestor of the branch, else rebase.
pub open spec fn ancestor_done(v: RunView, is_ancestor: bool, f: RunView, step: RebaseStep) -> bool {
    &&& f.same_plan(v)
    &&& f.new_tips == v.new_tips
    &&& f.next == v.next
    &&& is_ancestor ==> f.phase == Phase::AwaitMergeBase && (step matches RebaseStep::MergeBase { onto, branch }
        && onto@ == v.onto() && branch@ == v.branch())
    &&& !is_ancestor ==> f.phase == Phase::AwaitRebase && is_rebase(step, v)
}

/// What `on_merge_base` does: skip the branch when the merge base is the
/// parent's new tip, else rebase.
pub open spec fn merge_base_done(v: RunView, merge_base: Seq<char>, f: RunView, step: RebaseStep) -> bool {
    &&& f.same_plan(v)
    &&& f.new_tips == v.new_tips
    &&& f.next == v.next
    &&& merge_base == v.onto() ==> f.phase == Phase::AwaitTip && (step matches RebaseStep::Skip { branch, parent }
        && branch@ == v.branch() && parent@ == v.parent())
    &&& merge_base != v.onto() ==> f.phase == Phase::AwaitRebase && is_rebase(step, v)
}

/// What `on_rebase` does: read the rebased tip, or stop on a conflict.
pub open spec fn rebase_done(v: RunView, succeeded: bool, f: RunView, step: RebaseStep) -> bool {
    &&& f.same_plan(v)
    &&& f.new_tips == v.new_tips
    &&& f.next == v.next
    &&& succeeded ==> f.phase == Phase::AwaitTip && (step matches RebaseStep::ReadTip { branch }
        && branch@ == v.branch())
    &&& !succeeded ==> f.phase == Phase::Conflicted && (step matches RebaseStep::Conflict { branch }
        && branch@ == v.branch())
}

/// What `on_tip` does: record `sha` as the branch's new tip and move on.
pub open spec fn tip_done(v: RunView, sha: Seq<char>, f: RunView, step: RebaseStep) -> bool {
    &&& f == after_tip(v, sha)
    &&& step matches RebaseStep::Record { branch, sha: s, next_index } && branch@ == v.branch() && s@ == sha
        && next_index == v.next + 1
}

/// Law of a branch already on its parent: when git answers that the
/// parent's new tip is an ancestor of the branch and is their merge base,
/// the branch is skipped. No rebase step is issued, and the tip read then
/// becomes the branch's new tip.
pub proof fn law_branch_on_parent_is_skipped(
    v: RunView,
    f1: RunView,
    s1: RebaseStep,
    f2: RunView,
    s2: RebaseStep,
    merge_base: Seq<char>,
    f3: RunView,
    s3: RebaseStep,
    sha: Seq<char>,
    f4: RunView,
    s4: RebaseStep,
)
    requires
        v.wf(),
        v.phase == Phase::Ready,
        v.next < v.count(),
        next_step_done(v, f1, s1),
        ancestor_done(f1, true, f2, s2),
        merge_base == v.onto(),
        merge_base_done(f2, merge_base, f3, s3),
        tip_done(f3, sha, f4, s4),
    ensures
        s1 is Check,
        s2 is MergeBase,
        s3 is Skip,
        s4 is Record,
        f4 == after_tip(v, sha),
{
    assert(f2.onto() == v.onto());
    assert(after_tip(f3, sha) == after_tip(v, sha));
}

/// A run over a stack already in place, seen through its views: `k`
/// branches in turn recorded with the tip they had before the run.
pub open spec fn in_place_run(v: RunView, k: nat) -> RunView
    decreases k,
{
    if k == 0 {
        v
    } else {
        let w = in_place_run(v, (k - 1) as nat);
        after_tip(w, w.old_tips[w.next + 1int])
    }
}

/// No ref up to position `upto` (the base is 0) has moved: each one's new
/// tip is the tip it had before the run.
pub open spec fn unmoved(v: RunView, upto: int) -> bool {
    forall|k: int| 0 <= k <= upto ==> #[trigger] v.new_tips[k] == v.old_tips[k]
}

/// Law of a stack already in place: while no ref below the branch has
/// moved, the branch is rebased onto the very commit it is rebased from;
/// recording its tip unchanged keeps every ref in place, so a run that finds
/// each branch already on its parent ends with every ref at its old tip.
pub proof fn law_in_place_run_moves_nothing(v: RunView, sha: Seq<char>)
    requires
        v.wf(),
        v.phase == Phase::AwaitTip,
        unmoved(v, v.next as int),
        sha == v.old_tips[v.next + 1int],
    ensures
        v.onto() == v.upstream(),
        unmoved(after_tip(v, sha), v.next + 1int),
{
    assert(v.new_tips[v.next as int] == v.old_tips[v.next as int]);
}

/// Law of a second run right after a successful one: every ref then has
/// the tip it had when the run took its snapshot, so each branch is asked to
/// move onto the very commit it is moved from. Recording each branch with
/// its unchanged tip (what a skipped branch does) keeps every ref in place,
/// so the run ends with every new tip equal to its old tip.
pub proof fn law_rerun_moves_nothing(v: RunView)
    requires
        v.wf(),
        v.next == 0,
        v.new_tips[0] == v.old_tips[0],
    ensures
        forall|k: nat| k <= v.count() ==> {
            let w = #[trigger] in_place_run(v, k);
            &&& w.wf()
            &&& w.same_plan(v)
            &&& w.next == k
            &&& unmoved(w, k as int)
            &&& k < v.count() ==> w.onto() == w.upstream()
        },
        in_place_run(v, v.count()).new_tips == v.old_tips,
{
    assert forall|k: nat| k <= v.count() implies {
        let w = #[trigger] in_place_run(v, k);
        &&& w.wf()
        &&& w.same_plan(v)
        &&& w.next == k
        &&& unmoved(w, k as int)
        &&& k < v.count() ==> w.onto() == w.upstream()
    } by {
        lemma_in_place_run(v, k);
    }
    lemma_in_place_run(v, v.count());
    let w = in_place_run(v, v.count());
    assert(w.new_tips =~= v.old_tips) by {
        assert forall|i: int| 0 <= i < w.new_tips.len() implies w.new_tips[i] == v.old_tips[i] by {
            assert(w.new_tips[i] == w.old_tips[i]);
        }
    }
}

proof fn lemma_in_place_run(v: RunView, k: nat)
    requires
        v.wf(),
        v.next == 0,
        v.new_tips[0] == v.old_tips[0],
        k <= v.count(),
    ensures
        in_place_run(v, k).wf(),
        in_place_run(v, k).same_plan(v),
        in_place_run(v, k).new_tips.len() == v.new_tips.len(),
        in_place_run(v, k).next == k,
        unmoved(in_place_run(v, k), k as int),
        k < v.count() ==> in_place_run(v, k).onto() == in_place_run(v, k).upstream(),
    decreases k,
{
    if k > 0 {
        lemma_in_place_run(v, (k - 1) as nat);
        let w = in_place_run(v, (k - 1) as nat);
        let w2 = after_tip(w, w.old_tips[w.next + 1int]);
        assert forall|j: int| 0 <= j <= k implies #[trigger] w2.new_tips[j] == w2.old_tips[j] by {
            if j < k {
                assert(w.new_tips[j] == w.old_tips[j]);
            }
        }
        assert(w2.onto() == w2.new_tips[k as int]);
    }
}

impl RebaseRun {
    pub closed spec fn inv(&self) -> bool {
        &&& self@.wf()
        &&& self.branches@.len() < usize::MAX
    }

    /// A run over `branches` on top of `base`, resumed after `completed`
    /// branches. `old_tips` and `new_tips` hold one tip per ref, the base
    /// first (an empty string where none was saved).
    pub fn new(
        base: String,
        branches: Vec<String>,
        old_tips: Vec<String>,
        new_tips: Vec<String>,
        completed: usize,
    ) -> (run: RebaseRun)
        requires
            old_tips@.len() == branches@.len() + 1,
            new_tips@.len() == branches@.len() + 1,
            branches@.len() < usize::MAX,
        ensures
            run.inv(),
            run@.base == base@,
            run@.branches == views(branches@),
            run@.old_tips == views(old_tips@),
            run@.new_tips == views(new_tips@),
            run@.next == if completed <= branches@.len() {
                completed as nat
            } else {
                branches@.len()
            },
            run@.phase == Phase::Ready,
    {
        let count = branches.len();
        let next = if completed <= count {
            completed
        } else {
            count
        };
        RebaseRun { base, branches, old_tips, new_tips, next, phase: Phase::Ready }
    }

    pub fn count(&self) -> (n: usize)
        ensures
            n == self@.count(),
    {
        self.branches.len()
    }

    pub fn base(&self) -> (b: &String)
        ensures
            b@ == self@.base,
    {
        &self.base
    }

    pub fn branches(&self) -> (b: &Vec<String>)
        ensures
            views(b@) == self@.branches,
    {
        &self.branches
    }

    /// Starts on the next branch, or finishes when none is left.
    pub fn next_step(&mut self) -> (step: RebaseStep)
        requires
            old(self).inv(),
            old(self)@.phase == Phase::Ready,
        ensures
            final(self).inv(),
            next_step_done(old(self)@, final(self)@, step),
    {
        let i = self.next;
        if i < self.branches.len() {
            let parent = if i == 0 {
                self.base.clone()
            } else {
                self.branches[i - 1].clone()
            };
            proof {
                assert(self@.refs()[i as int] == parent@);
            }
            self.phase = Phase::AwaitAncestor;
            RebaseStep::Check {
                index: i,
                count: self.branches.len(),
                branch: self.branches[i].clone(),
                parent,
                onto: self.new_tips[i].clone(),
                upstream: self.old_tips[i].clone(),
            }
        } else {
            self.phase = Phase::Finished;
            RebaseStep::Finished
        }
    }

    /// Learns whether the parent's new tip is already an ancestor of the branch.
    pub fn on_ancestor(&mut self, is_ancestor: bool) -> (step: RebaseStep)
        requires
            old(self).inv(),
            old(self)@.phase == Phase::AwaitAncestor,
        ensures
            final(self).inv(),
            ancestor_done(old(self)@, is_ancestor, final(self)@, step),
    {
        let i = self.next;
        if is_ancestor {
            self.phase = Phase::AwaitMergeBase;
            RebaseStep::MergeBase { onto: self.new_tips[i].clone(), branch: self.branches[i].clone() }
        } else {
            self.phase = Phase::AwaitRebase;
            RebaseStep::Rebase {
                onto: self.new_tips[i].clone(),
                upstream: self.old_tips[i].clone(),
                branch: self.branches[i].clone(),
            }
        }
    }

    /// Learns the merge base of the parent's new tip and the branch: when it
    /// is that tip itself, the branch already sits on its parent and is skipped.
    pub fn on_merge_base(&mut self, merge_base: &str) -> (step: RebaseStep)
        requires
            old(self).inv(),
            old(self)@.phase == Phase::AwaitMergeBase,
        ensures
            final(self).inv(),
            merge_base_done(old(self)@, merge_base@, final(self)@, step),
    {
        let i = self.next;
        let mb = merge_base.to_owned();
        if mb == self.new_tips[i] {
            let parent = if i == 0 {
                self.base.clone()
            } else {
                self.branches[i - 1].clone()
            };
            proof {
                assert(self@.refs()[i as int] == parent@);
            }
            self.phase = Phase::AwaitTip;
            RebaseStep::Skip { branch: self.branches[i].clone(), parent }
        } else {
            self.phase = Phase::AwaitRebase;
            RebaseStep::Rebase {
                onto: self.new_tips[i].clone(),
                upstream: self.old_tips[i].clone(),
                branch: self.branches[i].clone(),
            }
        }
    }

    /// Learns whether `git rebase --onto` succeeded.
    pub fn on_rebase(&mut self, succeeded: bool) -> (step: RebaseStep)
        requires
            old(self).inv(),
            old(self)@.phase == Phase::AwaitRebase,
        ensures
            final(self).inv(),
            rebase_done(old(self)@, succeeded, final(self)@, step),
    {
        let i = self.next;
        if succeeded {
            self.phase = Phase::AwaitTip;
            RebaseStep::ReadTip { branch: self.branches[i].clone() }
        } else {
            self.phase = Phase::Conflicted;
            RebaseStep::Conflict { branch: self.branches[i].clone() }
        }
    }

    /// Learns the branch's final tip: it becomes the branch's new tip, the
    /// branch counts as done, and the caller persists both.
    pub fn on_tip(&mut self, sha: String) -> (step: RebaseStep)
        requires
            old(self).inv(),
            old(self)@.phase == Phase::AwaitTip,
        ensures
            final(self).inv(),
            tip_done(old(self)@, sha@, final(self)@, step),
    {
        let i = self.next;
        let branch = self.branches[i].clone();
        let ghost before = self.new_tips@;
        self.new_tips.set(i + 1, sha.clone());
        proof {
            assert(views(self.new_tips@) =~= views(before).update(i + 1, sha@));
        }
        self.next = i + 1;
        self.phase = Phase::Ready;
        RebaseStep::Record { branch, sha, next_index: i + 1 }
    }
}

/// What `--abort` does with one branch.
#[derive(Clone, Copy, Debug, PartialEq, Eq, Structural)]
pub enum RestoreAction {
    /// No tip was saved for it: leave it alone.
    NothingSaved,
    /// It is already at its saved tip.
    AlreadyAt,
    /// Move it back to its saved tip (`git update-ref refs/heads/<branch> <old>`).
    Restore,
}

pub open spec fn spec_restore_action(old_tip: Option<Seq<char>>, current: Option<Seq<char>>) -> RestoreAction {
    match old_tip {
        None => RestoreAction::NothingSaved,
        Some(o) => if current == Some(o) {
            RestoreAction::AlreadyAt
        } else {
            RestoreAction::Restore
        },
    }
}

pub open spec fn opt_view(s: Option<&str>) -> Option<Seq<char>> {
    match s {
        Some(t) => Some(t@),
        None => None,
    }
}

/// Decides what `--abort` does with a branch, given its saved tip and its
/// current tip (`None` when the branch is missing).
pub fn restore_action(old_tip: Option<&str>, current: Option<&str>) -> (a: RestoreAction)
    ensures
        a == spec_restore_action(opt_view(old_tip), opt_view(current)),
{
    match old_tip {
        None => RestoreAction::NothingSaved,
        Some(o) => match current {
            Some(c) => {
                let oo = o.to_owned();
                let cc = c.to_owned();
                if oo == cc {
                    RestoreAction::AlreadyAt
                } else {
                    RestoreAction::Restore
                }
            },
            None => RestoreAction::Restore,
        },
    }
}

/// The tip a branch has once its action is carried out.
pub open spec fn tip_after(old_tip: Option<Seq<char>>, current: Option<Seq<char>>) -> Option<Seq<char>> {
    if spec_restore_action(old_tip, current) == RestoreAction::Restore {
        old_tip
    } else {
        current
    }
}

/// Law of `--abort`: every branch with a saved tip ends at that tip, and
/// the others are not touched.
pub proof fn law_abort_restores(old_tip: Option<Seq<char>>, current: Option<Seq<char>>)
    ensures
        old_tip is Some ==> tip_after(old_tip, current) == old_tip,
        old_tip is None ==> tip_after(old_tip, current) == current,
{
}

/// Whether `git rev-parse --abbrev-ref HEAD` reported a detached HEAD; the
/// run then records the commit itself as the HEAD to return to.
pub fn is_detached(abbrev_head: &str) -> (r: bool)
    ensures
        r == (abbrev_head@ == "HEAD"@),
{
    let h = abbrev_head.to_owned();
    let d = "HEAD".to_owned();
    h == d
}

} // verus!

//! The `rebase` command as a whole, and `rebase --abort`.
//!
//! `DoRebase` decides the order of everything a run does before the branch
//! loop: refuse a dirty tree or a rebase already in progress, resume a saved
//! run only if it still fits the configuration, or else bring the base and
//! the branches up to date, check that every branch exists and snapshot
//! every tip. It then hands over a `RebaseRun` for the loop.
//!
//! `DoAbort` restores every branch to the tip it had before the run.
use vstd::prelude::*;
use crate::config::Stack;
use crate::rebase::{spec_restore_action, Phase, RebaseRun, RestoreAction, RunView};
use crate::state::{
    law_next_index_round_trip, next_index_text, opt_text, parse_next_index, spec_next_index,
    spec_record, spec_state_matches, state_matches,
};
use crate::text::{decimal, views};

verus! {

broadcast use vstd::seq_lib::group_seq_properties;

/// What the caller of `DoRebase` does next.
pub enum RebaseCmdStep {
    /// Is the working tree clean (tracked files only)?
    CheckClean,
    /// Stop: the working tree is dirty (exit 1).
    Dirty,
    /// Is a git rebase already in progress?
    CheckInProgress,
    /// Stop: a git rebase is in progress (exit 1).
    InProgress,
    /// Load the stack's configuration.
    LoadStack,
    /// Stop: the stack has no branches (exit 1).
    NoBranches,
    /// Does the stack's state directory exist (a run to resume)?
    CheckState,
    /// Read the saved `base`, `branches` and `next-index` files.
    ReadSavedState,
    /// Stop: the saved run does not fit the configuration any more.
    StateMismatch,
    /// Announce the resumed run: from `branch`, or (`None`) only finishing.
    Resume { branch: Option<String> },
    /// Fetch and fast-forward the base (a `FastForward`); failures stop the command.
    FetchBase { base: String, remote: String },
    /// Fetch and update one branch (a `BranchSync`); failures stop the command.
    SyncBranch { branch: String, remote: String, prefer_remote: bool },
    /// Announce that nothing is fetched.
    SkipFetch,
    /// Does this ref exist locally?
    CheckExists { branch: String },
    /// Stop: this ref is missing locally.
    MissingBranch { branch: String },
    /// Create the state directory and write `base`, `branches` and `started-at`.
    BeginSnapshot { base_text: String, branches_text: String },
    /// Save the current tip of `reference` as its old tip.
    SaveOldTip { reference: String },
    /// Save the current tip of the base as its new tip.
    SaveBaseTip { base: String },
    /// Read `git rev-parse --abbrev-ref HEAD`.
    ReadHead,
    /// HEAD is detached: read the commit it points at.
    ReadHeadCommit,
    /// Write `original-head` (the HEAD to return to) and `next-index`.
    FinishSnapshot { head: String, next_index: String },
    /// Read `next-index` and the saved old and new tips of every ref.
    LoadRun { refs: Vec<String> },
    /// Drive the branch loop.
    Run { run: RebaseRun },
}

#[derive(Clone, Copy, Debug, PartialEq, Eq, Structural)]
pub enum CmdPhase {
    AwaitClean,
    AwaitInProgress,
    AwaitStack,
    AwaitState,
    AwaitSaved,
    AwaitResumed,
    AwaitBaseFetched,
    AwaitBranchSynced,
    AwaitSkipAnnounced,
    AwaitExists,
    AwaitSnapshotBegun,
    AwaitOldTipSaved,
    AwaitBaseTipSaved,
    AwaitHead,
    AwaitHeadCommit,
    AwaitSnapshotDone,
    AwaitRun,
    Ended,
}

/// `rebase <stack>` up to the branch loop.
pub struct DoRebase {
    remote: String,
    fetch: bool,
    prefer_remote: bool,
    base: String,
    branches: Vec<String>,
    /// The ref (base first, then branches) the current phase is at.
    index: usize,
    phase: CmdPhase,
}

pub struct DoRebaseView {
    pub remote: Seq<char>,
    pub fetch: bool,
    pub prefer_remote: bool,
    pub base: Seq<char>,
    pub branches: Seq<Seq<char>>,
    pub index: nat,
    pub phase: CmdPhase,
}

impl DoRebaseView {
    pub open spec fn refs(self) -> Seq<Seq<char>> {
        seq![self.base] + self.branches
    }

    /// The options given to the command are kept through the whole run.
    pub open spec fn same_options(self, other: DoRebaseView) -> bool {
        &&& self.remote == other.remote
        &&& self.fetch == other.fetch
        &&& self.prefer_remote == other.prefer_remote
    }

    pub open spec fn same_stack(self, other: DoRebaseView) -> bool {
        &&& self.same_options(other)
        &&& self.base == other.base
        &&& self.branches == other.branches
    }
}

impl View for DoRebase {
    type V = DoRebaseView;

    closed spec fn view(&self) -> DoRebaseView {
        DoRebaseView {
            remote: self.remote@,
            fetch: self.fetch,
            prefer_remote: self.prefer_remote,
            base: self.base@,
            branches: views(self.branches@),
            index: self.index as nat,
            phase: self.phase,
        }
    }
}

/// Starts `rebase`: `fetch` is false for `--no-fetch`, and `prefer_remote`
/// lets diverged branches be reset to the remote version.
pub fn do_rebase(remote: &str, fetch: bool, prefer_remote: bool) -> (r: (DoRebase, RebaseCmdStep))
    ensures
        r.0.inv(),
        r.0@.remote == remote@,
        r.0@.fetch == fetch,
        r.0@.prefer_remote == prefer_remote,
        r.0@.phase == CmdPhase::AwaitClean,
        r.1 is CheckClean,
{
    let d = DoRebase {
        remote: remote.to_owned(),
        fetch,
        prefer_remote,
        base: String::new(),
        branches: Vec::new(),
        index: 0,
        phase: CmdPhase::AwaitClean,
    };
    (d, RebaseCmdStep::CheckClean)
}

/// `step` checks that the ref at `index` of `v` exists.
pub open spec fn checks_ref(step: RebaseCmdStep, v: DoRebaseView, index: int) -> bool {
    step matches RebaseCmdStep::CheckExists { branch } && branch@ == v.refs()[index]
}

/// `step` saves the old tip of the ref at `index` of `v`.
pub open spec fn saves_ref(step: RebaseCmdStep, v: DoRebaseView, index: int) -> bool {
    step matches RebaseCmdStep::SaveOldTip { reference } && reference@ == v.refs()[index]
}

/// `step` syncs branch `index` of `v`.
pub open spec fn syncs_branch(step: RebaseCmdStep, v: DoRebaseView, index: int) -> bool {
    step matches RebaseCmdStep::SyncBranch { branch, remote, prefer_remote } && branch@
        == v.branches[index] && remote@ == v.remote && prefer_remote == v.prefer_remote
}

impl DoRebase {
    pub closed spec fn inv(&self) -> bool {
        &&& self.index <= self.branches@.len() + 1
        &&& self.branches@.len() < usize::MAX
        &&& !(self.phase == CmdPhase::AwaitClean || self.phase == CmdPhase::AwaitInProgress
            || self.phase == CmdPhase::AwaitStack || self.phase == CmdPhase::Ended)
            ==> self.branches@.len() > 0
        &&& self.phase == CmdPhase::AwaitBranchSynced ==> self.index < self.branches@.len()
        &&& (self.phase == CmdPhase::AwaitExists || self.phase == CmdPhase::AwaitOldTipSaved)
            ==> self.index <= self.branches@.len()
    }

    fn ref_at(&self, i: usize) -> (r: String)
        requires
            self.inv(),
            i <= self.branches@.len(),
        ensures
            r@ == self@.refs()[i as int],
    {
        if i == 0 {
            self.base.clone()
        } else {
            self.branches[i - 1].clone()
        }
    }

    fn ref_list(&self) -> (r: Vec<String>)
        ensures
            views(r@) == self@.refs(),
    {
        let mut r: Vec<String> = Vec::new();
        r.push(self.base.clone());
        let mut i: usize = 0;
        while i < self.branches.len()
            invariant
                0 <= i <= self.branches@.len(),
                views(r@) == seq![self.base@] + views(self.branches@).take(i as int),
            decreases self.branches@.len() - i,
        {
            let ghost before = views(r@);
            r.push(self.branches[i].clone());
            proof {
                assert(views(r@) =~= before.push(self.branches@[i as int]@));
                assert(views(self.branches@).take(i + 1) =~= views(self.branches@).take(i as int).push(self.branches@[i as int]@));
            }
            i += 1;
        }
        proof {
            assert(views(self.branches@).take(self.branches@.len() as int) =~= views(self.branches@));
        }
        r
    }

    /// Learns whether the working tree is clean.
    pub fn on_clean(&mut self, clean: bool) -> (step: RebaseCmdStep)
        requires
            old(self).inv(),
            old(self)@.phase == CmdPhase::AwaitClean,
        ensures
            final(self).inv(),
            final(self)@.same_stack(old(self)@),
            !clean ==> final(self)@.phase == CmdPhase::Ended && step is Dirty,
            clean ==> final(self)@.phase == CmdPhase::AwaitInProgress && step is CheckInProgress,
    {
        if clean {
            self.phase = CmdPhase::AwaitInProgress;
            RebaseCmdStep::CheckInProgress
        } else {
            self.phase = CmdPhase::Ended;
            RebaseCmdStep::Dirty
        }
    }

    /// Learns whether a git rebase is in progress.
    pub fn on_in_progress(&mut self, in_progress: bool) -> (step: RebaseCmdStep)
        requires
            old(self).inv(),
            old(self)@.phase == CmdPhase::AwaitInProgress,
        ensures
            final(self).inv(),
            final(self)@.same_stack(old(self)@),
            in_progress ==> final(self)@.phase == CmdPhase::Ended && step is InProgress,
            !in_progress ==> final(self)@.phase == CmdPhase::AwaitStack && step is LoadStack,
    {
        if in_progress {
            self.phase = CmdPhase::Ended;
            RebaseCmdStep::InProgress
        } else {
            self.phase = CmdPhase::AwaitStack;
            RebaseCmdStep::LoadStack
        }
    }

    /// Learns the stack; a stack without branches is refused.
    pub fn on_stack(&mut self, stack: Stack) -> (step: RebaseCmdStep)
        requires
            old(self).inv(),
            old(self)@.phase == CmdPhase::AwaitStack,
            stack.branches@.len() < usize::MAX,
        ensures
            final(self).inv(),
            final(self)@.same_options(old(self)@),
            final(self)@.base == stack.base@,
            final(self)@.branches == views(stack.branches@),
            stack.branches@.len() == 0 ==> final(self)@.phase == CmdPhase::Ended && step is NoBranches,
            stack.branches@.len() > 0 ==> final(self)@.phase == CmdPhase::AwaitState && step is CheckState,
    {
        let Stack { base, branches } = stack;
        self.base = base;
        self.branches = branches;
        self.index = 0;
        if self.branches.len() == 0 {
            self.phase = CmdPhase::Ended;
            RebaseCmdStep::NoBranches
        } else {
            self.phase = CmdPhase::AwaitState;
            RebaseCmdStep::CheckState
        }
    }

    /// Learns whether a saved run exists: it is resumed, else a fresh run
    /// starts with the fetches (or without them, under `--no-fetch`).
    pub fn on_state(&mut self, exists: bool) -> (step: RebaseCmdStep)
        requires
            old(self).inv(),
            old(self)@.phase == CmdPhase::AwaitState,
        ensures
            final(self).inv(),
            state_done(old(self)@, exists, final(self)@, step),
    {
        if exists {
            self.phase = CmdPhase::AwaitSaved;
            RebaseCmdStep::ReadSavedState
        } else if self.fetch {
            self.phase = CmdPhase::AwaitBaseFetched;
            RebaseCmdStep::FetchBase { base: self.base.clone(), remote: self.remote.clone() }
        } else {
            self.phase = CmdPhase::AwaitSkipAnnounced;
            RebaseCmdStep::SkipFetch
        }
    }

    /// Learns the saved run's files (`None` where one is missing). A run whose
    /// base or branch list differs from the configuration is refused;
    /// otherwise it resumes at the saved `next-index`.
    pub fn on_saved(
        &mut self,
        saved_base: Option<&str>,
        saved_branches: Option<&str>,
        next_index: Option<&str>,
    ) -> (step: RebaseCmdStep)
        requires
            old(self).inv(),
            old(self)@.phase == CmdPhase::AwaitSaved,
        ensures
            final(self).inv(),
            saved_done(old(self)@, opt_text(saved_base), opt_text(saved_branches), opt_text(next_index), final(self)@, step),
    {
        if !state_matches(saved_base, saved_branches, self.base.as_str(), &self.branches) {
            self.phase = CmdPhase::Ended;
            return RebaseCmdStep::StateMismatch;
        }
        let completed = parse_next_index(next_index);
        self.phase = CmdPhase::AwaitResumed;
        if completed < self.branches.len() {
            RebaseCmdStep::Resume { branch: Some(self.branches[completed].clone()) }
        } else {
            RebaseCmdStep::Resume { branch: None }
        }
    }

    /// The resume was announced: load the run.
    pub fn on_resumed(&mut self) -> (step: RebaseCmdStep)
        requires
            old(self).inv(),
            old(self)@.phase == CmdPhase::AwaitResumed,
        ensures
            final(self).inv(),
            resumed_done(old(self)@, final(self)@, step),
    {
        self.phase = CmdPhase::AwaitRun;
        RebaseCmdStep::LoadRun { refs: self.ref_list() }
    }

    fn begin_checks(&mut self) -> (step: RebaseCmdStep)
        requires
            old(self).inv(),
            old(self)@.branches.len() > 0,
        ensures
            final(self).inv(),
            final(self)@.same_stack(old(self)@),
            final(self)@.index == 0,
            final(self)@.phase == CmdPhase::AwaitExists,
            checks_ref(step, final(self)@, 0),
    {
        self.index = 0;
        self.phase = CmdPhase::AwaitExists;
        RebaseCmdStep::CheckExists { branch: self.ref_at(0) }
    }

    /// The base was fetched and fast-forwarded: the branches are synced next.
    pub fn on_base_fetched(&mut self) -> (step: RebaseCmdStep)
        requires
            old(self).inv(),
            old(self)@.phase == CmdPhase::AwaitBaseFetched,
        ensures
            final(self).inv(),
            final(self)@.same_stack(old(self)@),
            final(self)@.index == 0,
            final(self)@.phase == CmdPhase::AwaitBranchSynced,
            syncs_branch(step, old(self)@, 0),
    {
        self.index = 0;
        self.phase = CmdPhase::AwaitBranchSynced;
        RebaseCmdStep::SyncBranch {
            branch: self.branches[0].clone(),
            remote: self.remote.clone(),
            prefer_remote: self.prefer_remote,
        }
    }

    /// A branch was synced: the next one is, or the refs are checked.
    pub fn on_branch_synced(&mut self) -> (step: RebaseCmdStep)
        requires
            old(self).inv(),
            old(self)@.phase == CmdPhase::AwaitBranchSynced,
        ensures
            final(self).inv(),
            final(self)@.same_stack(old(self)@),
            old(self)@.index + 1 < old(self)@.branches.len() ==> final(self)@.phase == CmdPhase::AwaitBranchSynced
                && final(self)@.index == old(self)@.index + 1 && syncs_branch(step, old(self)@, old(self)@.index + 1 as int),
            old(self)@.index + 1 == old(self)@.branches.len() ==> final(self)@.phase == CmdPhase::AwaitExists
                && final(self)@.index == 0 && checks_ref(step, old(self)@, 0),
    {
        let i = self.index + 1;
        if i < self.branches.len() {
            self.index = i;
            RebaseCmdStep::SyncBranch {
                branch: self.branches[i].clone(),
                remote: self.remote.clone(),
                prefer_remote: self.prefer_remote,
            }
        } else {
            self.begin_checks()
        }
    }

    /// `--no-fetch` was announced: the refs are checked.
    pub fn on_skip_announced(&mut self) -> (step: RebaseCmdStep)
        requires
            old(self).inv(),
            old(self)@.phase == CmdPhase::AwaitSkipAnnounced,
        ensures
            final(self).inv(),
            final(self)@.same_stack(old(self)@),
            final(self)@.phase == CmdPhase::AwaitExists,
            final(self)@.index == 0,
            checks_ref(step, old(self)@, 0),
    {
        self.begin_checks()
    }

    /// Learns whether the ref being checked exists; once all do, the
    /// snapshot begins.
    pub fn on_exists(&mut self, exists: bool) -> (step: RebaseCmdStep)
        requires
            old(self).inv(),
            old(self)@.phase == CmdPhase::AwaitExists,
        ensures
            final(self).inv(),
            final(self)@.same_stack(old(self)@),
            !exists ==> final(self)@.phase == CmdPhase::Ended && (step matches RebaseCmdStep::MissingBranch { branch }
                && branch@ == old(self)@.refs()[old(self)@.index as int]),
            exists && old(self)@.index < old(self)@.branches.len() ==> final(self)@.phase == CmdPhase::AwaitExists
                && final(self)@.index == old(self)@.index + 1 && checks_ref(step, old(self)@, old(self)@.index + 1 as int),
            exists && old(self)@.index == old(self)@.branches.len() ==> final(self)@.phase == CmdPhase::AwaitSnapshotBegun
                && (step matches RebaseCmdStep::BeginSnapshot { base_text, branches_text }
                && base_text@ == spec_record(old(self)@.base)
                && branches_text@ == spec_record(crate::state::joined(old(self)@.branches, seq!['\n']))),
    {
        let i = self.index;
        if !exists {
            self.phase = CmdPhase::Ended;
            return RebaseCmdStep::MissingBranch { branch: self.ref_at(i) };
        }
        if i < self.branches.len() {
            self.index = i + 1;
            RebaseCmdStep::CheckExists { branch: self.ref_at(i + 1) }
        } else {
            self.phase = CmdPhase::AwaitSnapshotBegun;
            let mut base_text = self.base.clone();
            base_text.push('\n');
            let mut branches_text = crate::state::join_strings(&self.branches, "\n");
            proof {
                reveal_strlit("\n");
                assert("\n"@ =~= seq!['\n']);
            }
            branches_text.push('\n');
            RebaseCmdStep::BeginSnapshot { base_text, branches_text }
        }
    }

    /// The snapshot's first files are written: the old tips are saved next,
    /// the base's first.
    pub fn on_snapshot_begun(&mut self) -> (step: RebaseCmdStep)
        requires
            old(self).inv(),
            old(self)@.phase == CmdPhase::AwaitSnapshotBegun,
        ensures
            final(self).inv(),
            final(self)@.same_stack(old(self)@),
            final(self)@.phase == CmdPhase::AwaitOldTipSaved,
            final(self)@.index == 0,
            saves_ref(step, old(self)@, 0),
    {
        self.index = 0;
        self.phase = CmdPhase::AwaitOldTipSaved;
        RebaseCmdStep::SaveOldTip { reference: self.ref_at(0) }
    }

    /// An old tip was saved: the next ref's is, and after the last one the
    /// base's tip is saved as its new tip.
    pub fn on_old_tip_saved(&mut self) -> (step: RebaseCmdStep)
        requires
            old(self).inv(),
            old(self)@.phase == CmdPhase::AwaitOldTipSaved,
        ensures
            final(self).inv(),
            final(self)@.same_stack(old(self)@),
            old(self)@.index < old(self)@.branches.len() ==> final(self)@.phase == CmdPhase::AwaitOldTipSaved
                && final(self)@.index == old(self)@.index + 1 && saves_ref(step, old(self)@, old(self)@.index + 1 as int),
            old(self)@.index == old(self)@.branches.len() ==> final(self)@.phase == CmdPhase::AwaitBaseTipSaved
                && (step matches RebaseCmdStep::SaveBaseTip { base } && base@ == old(self)@.base),
    {
        let i = self.index;
        if i < self.branches.len() {
            self.index = i + 1;
            RebaseCmdStep::SaveOldTip { reference: self.ref_at(i + 1) }
        } else {
            self.phase = CmdPhase::AwaitBaseTipSaved;
            RebaseCmdStep::SaveBaseTip { base: self.base.clone() }
        }
    }

    /// The base's new tip was saved: HEAD is read next.
    pub fn on_base_tip_saved(&mut self) -> (step: RebaseCmdStep)
        requires
            old(self).inv(),
            old(self)@.phase == CmdPhase::AwaitBaseTipSaved,
        ensures
            final(self).inv(),
            final(self)@.same_stack(old(self)@),
            final(self)@.phase == CmdPhase::AwaitHead,
            step is ReadHead,
    {
        self.phase = CmdPhase::AwaitHead;
        RebaseCmdStep::ReadHead
    }

    fn finish_snapshot(&mut self, head: String) -> (step: RebaseCmdStep)
        requires
            old(self).inv(),
            old(self)@.branches.len() > 0,
        ensures
            final(self).inv(),
            final(self)@.same_stack(old(self)@),
            final(self)@.phase == CmdPhase::AwaitSnapshotDone,
            step matches RebaseCmdStep::FinishSnapshot { head: h, next_index } && h@ == head@
                && next_index@ == spec_record(decimal(0)),
    {
        self.phase = CmdPhase::AwaitSnapshotDone;
        RebaseCmdStep::FinishSnapshot { head, next_index: next_index_text(0) }
    }

    /// Learns the checked-out branch; a detached HEAD is recorded by its commit.
    pub fn on_head(&mut self, abbrev_head: String) -> (step: RebaseCmdStep)
        requires
            old(self).inv(),
            old(self)@.phase == CmdPhase::AwaitHead,
        ensures
            final(self).inv(),
            final(self)@.same_stack(old(self)@),
            abbrev_head@ == "HEAD"@ ==> final(self)@.phase == CmdPhase::AwaitHeadCommit && step is ReadHeadCommit,
            abbrev_head@ != "HEAD"@ ==> final(self)@.phase == CmdPhase::AwaitSnapshotDone
                && (step matches RebaseCmdStep::FinishSnapshot { head, next_index } && head@ == abbrev_head@
                && next_index@ == spec_record(decimal(0))),
    {
        if crate::rebase::is_detached(abbrev_head.as_str()) {
            self.phase = CmdPhase::AwaitHeadCommit;
            RebaseCmdStep::ReadHeadCommit
        } else {
            self.finish_snapshot(abbrev_head)
        }
    }

    /// Learns the commit of a detached HEAD.
    pub fn on_head_commit(&mut self, sha: String) -> (step: RebaseCmdStep)
        requires
            old(self).inv(),
            old(self)@.phase == CmdPhase::AwaitHeadCommit,
        ensures
            final(self).inv(),
            final(self)@.same_stack(old(self)@),
            final(self)@.phase == CmdPhase::AwaitSnapshotDone,
            step matches RebaseCmdStep::FinishSnapshot { head, next_index } && head@ == sha@
                && next_index@ == spec_record(decimal(0)),
    {
        self.finish_snapshot(sha)
    }

    /// The snapshot is complete: load the run.
    pub fn on_snapshot_done(&mut self) -> (step: RebaseCmdStep)
        requires
            old(self).inv(),
            old(self)@.phase == CmdPhase::AwaitSnapshotDone,
        ensures
            final(self).inv(),
            final(self)@.same_stack(old(self)@),
            final(self)@.phase == CmdPhase::AwaitRun,
            step matches RebaseCmdStep::LoadRun { refs } && views(refs@) == old(self)@.refs(),
    {
        self.phase = CmdPhase::AwaitRun;
        RebaseCmdStep::LoadRun { refs: self.ref_list() }
    }

    /// Learns the saved progress and tips (one per ref, base first, empty
    /// where none was saved) and hands over the branch loop.
    pub fn on_run_loaded(&mut self, next_index: Option<&str>, old_tips: Vec<String>, new_tips: Vec<String>) -> (step: RebaseCmdStep)
        requires
            old(self).inv(),
            old(self)@.phase == CmdPhase::AwaitRun,
            old_tips@.len() == old(self)@.branches.len() + 1,
            new_tips@.len() == old(self)@.branches.len() + 1,
        ensures
            run_loaded_done(old(self)@, opt_text(next_index), views(old_tips@), views(new_tips@), final(self)@, step),
    {
        let completed = parse_next_index(next_index);
        self.phase = CmdPhase::Ended;
        let run = RebaseRun::new(self.base.clone(), self.branches.clone(), old_tips, new_tips, completed);
        RebaseCmdStep::Run { run }
    }
}

/// A step of a fresh run before its branch loop: a fetch, or a part of the
/// snapshot of every tip.
pub open spec fn fetches_or_snapshots(step: RebaseCmdStep) -> bool {
    ||| step is FetchBase
    ||| step is SyncBranch
    ||| step is SkipFetch
    ||| step is CheckExists
    ||| step is BeginSnapshot
    ||| step is SaveOldTip
    ||| step is SaveBaseTip
    ||| step is ReadHead
    ||| step is ReadHeadCommit
    ||| step is FinishSnapshot
}

/// What `on_state` does: read a saved run when there is one; else fetch
/// (or announce that nothing is fetched).
pub open spec fn state_done(v: DoRebaseView, exists: bool, f: DoRebaseView, step: RebaseCmdStep) -> bool {
    &&& f.same_stack(v)
    &&& exists ==> f.phase == CmdPhase::AwaitSaved && step is ReadSavedState
    &&& !exists && v.fetch ==> f.phase == CmdPhase::AwaitBaseFetched && (step matches RebaseCmdStep::FetchBase {
        base,
        remote,
    } && base@ == v.base && remote@ == v.remote)
    &&& !exists && !v.fetch ==> f.phase == CmdPhase::AwaitSkipAnnounced && step is SkipFetch
}

/// What `on_saved` does with the saved `base`, `branches` and `next-index`
/// texts: refuse a run that no longer fits, else announce where it resumes.
pub open spec fn saved_done(
    v: DoRebaseView,
    saved_base: Option<Seq<char>>,
    saved_branches: Option<Seq<char>>,
    next_index: Option<Seq<char>>,
    f: DoRebaseView,
    step: RebaseCmdStep,
) -> bool {
    let n = spec_next_index(next_index);
    &&& f.same_stack(v)
    &&& !spec_state_matches(saved_base, saved_branches, v.base, v.branches) ==> f.phase == CmdPhase::Ended
        && step is StateMismatch
    &&& spec_state_matches(saved_base, saved_branches, v.base, v.branches) ==> f.phase == CmdPhase::AwaitResumed
        && (step matches RebaseCmdStep::Resume { branch } && (n < v.branches.len() ==> (branch matches Some(b)
        && b@ == v.branches[n as int])) && (n >= v.branches.len() ==> branch is None))
}

/// What `on_resumed` does: ask for the saved progress and tips of every ref.
pub open spec fn resumed_done(v: DoRebaseView, f: DoRebaseView, step: RebaseCmdStep) -> bool {
    &&& f.same_stack(v)
    &&& f.phase == CmdPhase::AwaitRun
    &&& step matches RebaseCmdStep::LoadRun { refs } && views(refs@) == v.refs()
}

/// The branch index a run starts at when `next-index` holds `next_index`.
pub open spec fn start_index(v: DoRebaseView, next_index: Option<Seq<char>>) -> nat {
    if spec_next_index(next_index) <= v.branches.len() {
        spec_next_index(next_index)
    } else {
        v.branches.len()
    }
}

/// What `on_run_loaded` does: hand over the branch loop, rebuilt from the
/// saved progress and tips.
pub open spec fn run_loaded_done(
    v: DoRebaseView,
    next_index: Option<Seq<char>>,
    old_tips: Seq<Seq<char>>,
    new_tips: Seq<Seq<char>>,
    f: DoRebaseView,
    step: RebaseCmdStep,
) -> bool {
    &&& f.phase == CmdPhase::Ended
    &&& step matches RebaseCmdStep::Run { run } && run.inv() && run@.base == v.base && run@.branches == v.branches
        && run@.old_tips == old_tips && run@.new_tips == new_tips && run@.phase == Phase::Ready
        && run@.next == start_index(v, next_index)
}

/// Law of a saved run: when the state directory exists and still fits the
/// configuration, `rebase` takes the resume path. None of its steps fetches
/// or snapshots, and the branch loop it hands over restarts at the saved
/// index with the saved tips.
pub proof fn law_saved_run_resumes(
    v0: DoRebaseView,
    v1: DoRebaseView,
    s1: RebaseCmdStep,
    saved_base: Option<Seq<char>>,
    saved_branches: Option<Seq<char>>,
    next_index: Option<Seq<char>>,
    v2: DoRebaseView,
    s2: RebaseCmdStep,
    v3: DoRebaseView,
    s3: RebaseCmdStep,
    old_tips: Seq<Seq<char>>,
    new_tips: Seq<Seq<char>>,
    v4: DoRebaseView,
    s4: RebaseCmdStep,
)
    requires
        state_done(v0, true, v1, s1),
        saved_done(v1, saved_base, saved_branches, next_index, v2, s2),
        spec_state_matches(saved_base, saved_branches, v0.base, v0.branches),
        resumed_done(v2, v3, s3),
        run_loaded_done(v3, next_index, old_tips, new_tips, v4, s4),
    ensures
        s1 is ReadSavedState,
        s2 is Resume,
        s3 is LoadRun,
        !fetches_or_snapshots(s1) && !fetches_or_snapshots(s2) && !fetches_or_snapshots(s3)
            && !fetches_or_snapshots(s4),
        s4 matches RebaseCmdStep::Run { run } && run@.base == v0.base && run@.branches == v0.branches
            && run@.old_tips == old_tips && run@.new_tips == new_tips && run@.phase == Phase::Ready
            && run@.next == start_index(v0, next_index),
{
}

/// Law of resuming: a run stopped by a conflict on branch `k` has written
/// `k` to `next-index`; rebuilt from that file and from the tips it saved
/// (as `on_run_loaded` rebuilds it), it starts again on branch `k`. The
/// branches below `k` are not worked on again, and `k` is rebased onto the
/// same new parent tip from the same old parent tip, so the snapshot taken
/// before the first rebase is the one still used.
pub proof fn law_resume_continues(stopped: RunView, resumed: RunView)
    requires
        stopped.wf(),
        stopped.phase == Phase::Conflicted,
        stopped.count() < usize::MAX,
        resumed.base == stopped.base,
        resumed.branches == stopped.branches,
        resumed.old_tips == stopped.old_tips,
        resumed.new_tips == stopped.new_tips,
        resumed.phase == Phase::Ready,
        resumed.next == (if spec_next_index(Some(spec_record(decimal(stopped.next)))) <= stopped.count() {
            spec_next_index(Some(spec_record(decimal(stopped.next))))
        } else {
            stopped.count()
        }),
    ensures
        resumed.wf(),
        resumed.next == stopped.next,
        resumed.next < resumed.count(),
        resumed.branch() == stopped.branch(),
        resumed.parent() == stopped.parent(),
        resumed.onto() == stopped.onto(),
        resumed.upstream() == stopped.upstream(),
{
    law_next_index_round_trip(stopped.next as usize);
}

/// What the caller of `DoAbort` does next.
pub enum AbortStep {
    /// Is a git rebase in progress?
    CheckInProgress,
    /// Abort it (`git rebase --abort`, whatever its outcome).
    AbortGitRebase,
    /// Does the stack's state directory exist?
    CheckState,
    /// Stop: there is no saved run, nothing to restore (exit 0).
    NothingToRestore,
    /// Load the stack's configuration.
    LoadStack,
    /// Read the saved old tip of `branch`.
    LoadOldTip { branch: String },
    /// Read the current tip of `branch` (none when it is missing).
    ReadCurrentTip { branch: String },
    /// Report that `branch` is already at `sha`.
    AlreadyAt { branch: String, sha: String },
    /// Move `branch` back to `to` (`git update-ref`); it was at `from`.
    Restore { branch: String, from: Option<String>, to: String },
    /// Return to the original HEAD, clear the state; the abort is complete (exit 3).
    Finish,
}

#[derive(Clone, Copy, Debug, PartialEq, Eq, Structural)]
pub enum AbortPhase {
    AwaitInProgress,
    AwaitGitAborted,
    AwaitState,
    AwaitStack,
    AwaitOldTip,
    AwaitCurrentTip,
    AwaitReported,
    Ended,
}

/// `rebase --abort`.
pub struct DoAbort {
    branches: Vec<String>,
    index: usize,
    old_tip: String,
    phase: AbortPhase,
}

pub struct DoAbortView {
    pub branches: Seq<Seq<char>>,
    pub index: nat,
    pub old_tip: Seq<char>,
    pub phase: AbortPhase,
}

impl View for DoAbort {
    type V = DoAbortView;

    closed spec fn view(&self) -> DoAbortView {
        DoAbortView {
            branches: views(self.branches@),
            index: self.index as nat,
            old_tip: self.old_tip@,
            phase: self.phase,
        }
    }
}

/// Starts `rebase --abort`.
pub fn do_abort() -> (r: (DoAbort, AbortStep))
    ensures
        r.0.inv(),
        r.0@.phase == AbortPhase::AwaitInProgress,
        r.1 is CheckInProgress,
{
    (DoAbort { branches: Vec::new(), index: 0, old_tip: String::new(), phase: AbortPhase::AwaitInProgress }, AbortStep::CheckInProgress)
}

/// `step` reads the saved tip of branch `index` of `v`, or finishes past the last one.
pub open spec fn abort_moves_to(step: AbortStep, v: DoAbortView, index: int) -> bool {
    if index < v.branches.len() {
        step matches AbortStep::LoadOldTip { branch } && branch@ == v.branches[index]
    } else {
        step is Finish
    }
}

/// The phase once the run moves to branch `index` of `branches`.
pub open spec fn abort_phase_at(branches: Seq<Seq<char>>, index: int) -> AbortPhase {
    if index < branches.len() {
        AbortPhase::AwaitOldTip
    } else {
        AbortPhase::Ended
    }
}

impl DoAbort {
    pub closed spec fn inv(&self) -> bool {
        &&& self.index <= self.branches@.len()
        &&& self.branches@.len() < usize::MAX
        &&& (self.phase == AbortPhase::AwaitOldTip || self.phase == AbortPhase::AwaitCurrentTip
            || self.phase == AbortPhase::AwaitReported) ==> self.index < self.branches@.len()
    }

    fn move_to(&mut self, i: usize) -> (step: AbortStep)
        requires
            old(self).inv(),
            i <= old(self).branches@.len(),
        ensures
            final(self).inv(),
            final(self)@.branches == old(self)@.branches,
            final(self)@.index == i,
            i < old(self)@.branches.len() ==> final(self)@.phase == AbortPhase::AwaitOldTip,
            i == old(self)@.branches.len() ==> final(self)@.phase == AbortPhase::Ended,
            abort_moves_to(step, old(self)@, i as int),
    {
        self.index = i;
        if i < self.branches.len() {
            self.phase = AbortPhase::AwaitOldTip;
            AbortStep::LoadOldTip { branch: self.branches[i].clone() }
        } else {
            self.phase = AbortPhase::Ended;
            AbortStep::Finish
        }
    }

    /// Learns whether a git rebase is in progress: it is aborted first.
    pub fn on_in_progress(&mut self, in_progress: bool) -> (step: AbortStep)
        requires
            old(self).inv(),
            old(self)@.phase == AbortPhase::AwaitInProgress,
        ensures
            final(self).inv(),
            in_progress ==> final(self)@.phase == AbortPhase::AwaitGitAborted && step is AbortGitRebase,
            !in_progress ==> final(self)@.phase == AbortPhase::AwaitState && step is CheckState,
    {
        if in_progress {
            self.phase = AbortPhase::AwaitGitAborted;
            AbortStep::AbortGitRebase
        } else {
            self.phase = AbortPhase::AwaitState;
            AbortStep::CheckState
        }
    }

    /// The git rebase was aborted.
    pub fn on_git_rebase_aborted(&mut self) -> (step: AbortStep)
        requires
            old(self).inv(),
            old(self)@.phase == AbortPhase::AwaitGitAborted,
        ensures
            final(self).inv(),
            final(self)@.phase == AbortPhase::AwaitState,
            step is CheckState,
    {
        self.phase = AbortPhase::AwaitState;
        AbortStep::CheckState
    }

    /// Learns whether a saved run exists; without one there is nothing to do.
    pub fn on_state(&mut self, exists: bool) -> (step: AbortStep)
        requires
            old(self).inv(),
            old(self)@.phase == AbortPhase::AwaitState,
        ensures
            final(self).inv(),
            !exists ==> final(self)@.phase == AbortPhase::Ended && step is NothingToRestore,
            exists ==> final(self)@.phase == AbortPhase::AwaitStack && step is LoadStack,
    {
        if exists {
            self.phase = AbortPhase::AwaitStack;
            AbortStep::LoadStack
        } else {
            self.phase = AbortPhase::Ended;
            AbortStep::NothingToRestore
        }
    }

    /// Learns the stack: its branches are restored bottom to top.
    pub fn on_stack(&mut self, stack: Stack) -> (step: AbortStep)
        requires
            old(self).inv(),
            old(self)@.phase == AbortPhase::AwaitStack,
            stack.branches@.len() < usize::MAX,
        ensures
            final(self).inv(),
            final(self)@.branches == views(stack.branches@),
            final(self)@.index == 0,
            final(self)@.phase == abort_phase_at(final(self)@.branches, 0),
            abort_moves_to(step, final(self)@, 0),
    {
        self.index = 0;
        self.branches = stack.branches;
        self.move_to(0)
    }

    /// Learns the saved tip of the branch (`None` when none was saved: the
    /// branch is left alone).
    pub fn on_old_tip(&mut self, old_tip: Option<String>) -> (step: AbortStep)
        requires
            old(self).inv(),
            old(self)@.phase == AbortPhase::AwaitOldTip,
        ensures
            final(self).inv(),
            final(self)@.branches == old(self)@.branches,
            old_tip is None ==> final(self)@.index == old(self)@.index + 1
                && final(self)@.phase == abort_phase_at(old(self)@.branches, old(self)@.index + 1int)
                && abort_moves_to(step, old(self)@, old(self)@.index + 1 as int),
            old_tip matches Some(t) ==> final(self)@.phase == AbortPhase::AwaitCurrentTip
                && final(self)@.index == old(self)@.index && final(self)@.old_tip == t@
                && (step matches AbortStep::ReadCurrentTip { branch }
                && branch@ == old(self)@.branches[old(self)@.index as int]),
    {
        let i = self.index;
        match old_tip {
            None => self.move_to(i + 1),
            Some(t) => {
                self.old_tip = t;
                self.phase = AbortPhase::AwaitCurrentTip;
                AbortStep::ReadCurrentTip { branch: self.branches[i].clone() }
            },
        }
    }

    /// Learns the branch's current tip and decides: report it in place, or
    /// move it back to its saved tip.
    pub fn on_current_tip(&mut self, current: Option<String>) -> (step: AbortStep)
        requires
            old(self).inv(),
            old(self)@.phase == AbortPhase::AwaitCurrentTip,
        ensures
            final(self).inv(),
            final(self)@.branches == old(self)@.branches,
            final(self)@.index == old(self)@.index,
            final(self)@.phase == AbortPhase::AwaitReported,
            spec_restore_action(Some(old(self)@.old_tip), opt_string(current)) == RestoreAction::AlreadyAt
                ==> (step matches AbortStep::AlreadyAt { branch, sha } && branch@
                == old(self)@.branches[old(self)@.index as int] && sha@ == old(self)@.old_tip),
            spec_restore_action(Some(old(self)@.old_tip), opt_string(current)) == RestoreAction::Restore
                ==> (step matches AbortStep::Restore { branch, from, to } && branch@
                == old(self)@.branches[old(self)@.index as int] && to@ == old(self)@.old_tip
                && opt_string(from) == opt_string(current)),
    {
        let i = self.index;
        let action = crate::rebase::restore_action(Some(self.old_tip.as_str()), match &current {
            Some(c) => Some(c.as_str()),
            None => None,
        });
        self.phase = AbortPhase::AwaitReported;
        match action {
            RestoreAction::AlreadyAt => AbortStep::AlreadyAt { branch: self.branches[i].clone(), sha: self.old_tip.clone() },
            _ => AbortStep::Restore { branch: self.branches[i].clone(), from: current, to: self.old_tip.clone() },
        }
    }

    /// The branch was reported or restored: on to the next one.
    pub fn on_reported(&mut self) -> (step: AbortStep)
        requires
            old(self).inv(),
            old(self)@.phase == AbortPhase::AwaitReported,
        ensures
            final(self).inv(),
            final(self)@.branches == old(self)@.branches,
            final(self)@.index == old(self)@.index + 1,
            final(self)@.phase == abort_phase_at(old(self)@.branches, old(self)@.index + 1int),
            abort_moves_to(step, old(self)@, old(self)@.index + 1 as int),
    {
        let i = self.index;
        self.move_to(i + 1)
    }
}

pub open spec fn opt_string(s: Option<String>) -> Option<Seq<char>> {
    match s {
        Some(t) => Some(t@),
        None => None,
    }
}

} // verus!

//! Bringing local branches up to date with a remote before a rebase run.
//!
//! `FastForward` handles the base: fetch it, then fast-forward the local
//! branch (by `git merge --ff-only` when it is checked out, else by moving
//! the ref when the local tip is an ancestor of the remote one).
//! `BranchSync` handles a stack branch: fast-forward when behind, keep when
//! ahead, and when the two have diverged either reset to the remote (when
//! asked to prefer it) or refuse.
use vstd::prelude::*;
use crate::text::push_str;

verus! {

/// `<remote>/<branch>`, the remote-tracking ref of a branch.
pub open spec fn spec_remote_ref(remote: Seq<char>, branch: Seq<char>) -> Seq<char> {
    remote.push('/') + branch
}

pub fn remote_ref(remote: &str, branch: &str) -> (r: String)
    ensures
        r@ == spec_remote_ref(remote@, branch@),
{
    let mut s = String::new();
    push_str(&mut s, remote);
    s.push('/');
    push_str(&mut s, branch);
    s
}

/// Why bringing a branch up to date failed.
#[derive(Clone, Copy, Debug, PartialEq, Eq, Structural)]
pub enum FetchFailure {
    /// `git fetch` failed.
    FetchFailed,
    /// `git merge --ff-only` refused: the checked-out base cannot be fast-forwarded.
    NotFastForward,
    /// The local branch and the remote one have diverged.
    Diverged,
}

/// How a ref is moved to the remote tip.
#[derive(Clone, Copy, Debug, PartialEq, Eq, Structural)]
pub enum MoveKind {
    /// The local tip is an ancestor of the remote tip.
    FastForward,
    /// The two diverged and the remote version was preferred.
    Reset,
}

/// What the caller does next.
pub enum FetchStep {
    /// `git fetch <remote> <branch>`.
    Fetch { remote: String, branch: String },
    /// `git rev-parse --abbrev-ref HEAD`.
    ReadHead,
    /// `git merge --ff-only <target>` in the checked-out base.
    MergeFfOnly { target: String },
    /// `git rev-parse --verify <remote_ref>`: does the remote branch exist?
    VerifyRemote { remote_ref: String },
    /// Read the tips of `branch` and of `remote_ref`.
    ReadTips { branch: String, remote_ref: String },
    /// Is the branch behind its remote version: is `local` an ancestor of `remote`?
    CheckBehind { local: String, remote: String },
    /// Is the branch ahead of its remote version: is `remote` an ancestor of `local`?
    CheckAhead { local: String, remote: String },
    /// `git update-ref refs/heads/<branch> <to>`, moving it from `from`; then done.
    UpdateRef { branch: String, from: String, to: String, kind: MoveKind },
    /// Nothing more to do.
    Done,
    /// Stop with this failure.
    Failed { failure: FetchFailure },
}

#[derive(Clone, Copy, Debug, PartialEq, Eq, Structural)]
pub enum FfPhase {
    AwaitFetch,
    AwaitHead,
    AwaitMerge,
    AwaitTips,
    AwaitAncestor,
    Ended,
}

/// Fetching and fast-forwarding the base branch.
pub struct FastForward {
    base: String,
    remote: String,
    local_tip: String,
    remote_tip: String,
    phase: FfPhase,
}

/// The state of a `FastForward`.
pub struct FfView {
    pub base: Seq<char>,
    pub remote: Seq<char>,
    pub local_tip: Seq<char>,
    pub remote_tip: Seq<char>,
    pub phase: FfPhase,
}

impl View for FastForward {
    type V = FfView;

    closed spec fn view(&self) -> FfView {
        FfView {
            base: self.base@,
            remote: self.remote@,
            local_tip: self.local_tip@,
            remote_tip: self.remote_tip@,
            phase: self.phase,
        }
    }
}

/// Starts fetching `<remote>/<base>`; the first step is the fetch itself.
pub fn fetch_and_fast_forward(base: &str, remote: &str) -> (r: (FastForward, FetchStep))
    ensures
        r.0@.base == base@,
        r.0@.remote == remote@,
        r.0@.phase == FfPhase::AwaitFetch,
        r.1 matches FetchStep::Fetch { remote: rm, branch } && rm@ == remote@ && branch@ == base@,
{
    let ff = FastForward {
        base: base.to_owned(),
        remote: remote.to_owned(),
        local_tip: String::new(),
        remote_tip: String::new(),
        phase: FfPhase::AwaitFetch,
    };
    (ff, FetchStep::Fetch { remote: remote.to_owned(), branch: base.to_owned() })
}

impl FastForward {
    /// Learns whether the fetch succeeded.
    pub fn on_fetched(&mut self, succeeded: bool) -> (step: FetchStep)
        requires
            old(self)@.phase == FfPhase::AwaitFetch,
        ensures
            final(self)@.base == old(self)@.base,
            final(self)@.remote == old(self)@.remote,
            succeeded ==> final(self)@.phase == FfPhase::AwaitHead && step is ReadHead,
            !succeeded ==> final(self)@.phase == FfPhase::Ended && step == (FetchStep::Failed {
                failure: FetchFailure::FetchFailed,
            }),
    {
        if succeeded {
            self.phase = FfPhase::AwaitHead;
            FetchStep::ReadHead
        } else {
            self.phase = FfPhase::Ended;
            FetchStep::Failed { failure: FetchFailure::FetchFailed }
        }
    }

    /// Learns which branch is checked out.
    pub fn on_head(&mut self, head: &str) -> (step: FetchStep)
        requires
            old(self)@.phase == FfPhase::AwaitHead,
        ensures
            final(self)@.base == old(self)@.base,
            final(self)@.remote == old(self)@.remote,
            head@ == old(self)@.base ==> final(self)@.phase == FfPhase::AwaitMerge && (step matches FetchStep::MergeFfOnly { target }
                && target@ == spec_remote_ref(old(self)@.remote, old(self)@.base)),
            head@ != old(self)@.base ==> final(self)@.phase == FfPhase::AwaitTips && (step matches FetchStep::ReadTips { branch, remote_ref: rr }
                && branch@ == old(self)@.base && rr@ == spec_remote_ref(old(self)@.remote, old(self)@.base)),
    {
        let h = head.to_owned();
        let rr = remote_ref(self.remote.as_str(), self.base.as_str());
        if h == self.base {
            self.phase = FfPhase::AwaitMerge;
            FetchStep::MergeFfOnly { target: rr }
        } else {
            self.phase = FfPhase::AwaitTips;
            FetchStep::ReadTips { branch: self.base.clone(), remote_ref: rr }
        }
    }

    /// Learns whether `git merge --ff-only` succeeded.
    pub fn on_merged(&mut self, succeeded: bool) -> (step: FetchStep)
        requires
            old(self)@.phase == FfPhase::AwaitMerge,
        ensures
            final(self)@.base == old(self)@.base,
            final(self)@.phase == FfPhase::Ended,
            succeeded ==> step is Done,
            !succeeded ==> step == (FetchStep::Failed { failure: FetchFailure::NotFastForward }),
    {
        self.phase = FfPhase::Ended;
        if succeeded {
            FetchStep::Done
        } else {
            FetchStep::Failed { failure: FetchFailure::NotFastForward }
        }
    }

    /// Learns the local and the remote tip of the base.
    pub fn on_tips(&mut self, local: String, remote: String) -> (step: FetchStep)
        requires
            old(self)@.phase == FfPhase::AwaitTips,
        ensures
            final(self)@.base == old(self)@.base,
            final(self)@.local_tip == local@,
            final(self)@.remote_tip == remote@,
            local@ == remote@ ==> final(self)@.phase == FfPhase::Ended && step is Done,
            local@ != remote@ ==> final(self)@.phase == FfPhase::AwaitAncestor && (step matches FetchStep::CheckBehind { local: l, remote: r }
                && l@ == local@ && r@ == remote@),
    {
        if local == remote {
            self.local_tip = local;
            self.remote_tip = remote;
            self.phase = FfPhase::Ended;
            FetchStep::Done
        } else {
            let step = FetchStep::CheckBehind { local: local.clone(), remote: remote.clone() };
            self.local_tip = local;
            self.remote_tip = remote;
            self.phase = FfPhase::AwaitAncestor;
            step
        }
    }

    /// Learns whether the local tip is an ancestor of the remote tip: if so
    /// the base is fast-forwarded, else it has diverged.
    pub fn on_ancestor(&mut self, is_ancestor: bool) -> (step: FetchStep)
        requires
            old(self)@.phase == FfPhase::AwaitAncestor,
        ensures
            final(self)@.base == old(self)@.base,
            final(self)@.phase == FfPhase::Ended,
            is_ancestor ==> (step matches FetchStep::UpdateRef { branch, from, to, kind }
                && branch@ == old(self)@.base && from@ == old(self)@.local_tip && to@
                == old(self)@.remote_tip && kind == MoveKind::FastForward),
            !is_ancestor ==> step == (FetchStep::Failed { failure: FetchFailure::Diverged }),
    {
        self.phase = FfPhase::Ended;
        if is_ancestor {
            FetchStep::UpdateRef {
                branch: self.base.clone(),
                from: self.local_tip.clone(),
                to: self.remote_tip.clone(),
                kind: MoveKind::FastForward,
            }
        } else {
            FetchStep::Failed { failure: FetchFailure::Diverged }
        }
    }
}

#[derive(Clone, Copy, Debug, PartialEq, Eq, Structural)]
pub enum SyncPhase {
    AwaitFetch,
    AwaitVerify,
    AwaitTips,
    AwaitBehind,
    AwaitAhead,
    Ended,
}

/// Fetching one stack branch and bringing its local ref up to date.
pub struct BranchSync {
    branch: String,
    remote: String,
    prefer_remote: bool,
    local_tip: String,
    remote_tip: String,
    phase: SyncPhase,
}

pub struct SyncView {
    pub branch: Seq<char>,
    pub remote: Seq<char>,
    pub prefer_remote: bool,
    pub local_tip: Seq<char>,
    pub remote_tip: Seq<char>,
    pub phase: SyncPhase,
}

impl View for BranchSync {
    type V = SyncView;

    closed spec fn view(&self) -> SyncView {
        SyncView {
            branch: self.branch@,
            remote: self.remote@,
            prefer_remote: self.prefer_remote,
            local_tip: self.local_tip@,
            remote_tip: self.remote_tip@,
            phase: self.phase,
        }
    }
}

/// Starts syncing `branch` with `<remote>/<branch>`; the first step fetches it.
/// A branch the remote does not have is left alone.
pub fn fetch_and_fast_forward_branch(branch: &str, remote: &str, prefer_remote: bool) -> (r: (
    BranchSync,
    FetchStep,
))
    ensures
        r.0@.branch == branch@,
        r.0@.remote == remote@,
        r.0@.prefer_remote == prefer_remote,
        r.0@.phase == SyncPhase::AwaitFetch,
        r.1 matches FetchStep::Fetch { remote: rm, branch: b } && rm@ == remote@ && b@ == branch@,
{
    let s = BranchSync {
        branch: branch.to_owned(),
        remote: remote.to_owned(),
        prefer_remote,
        local_tip: String::new(),
        remote_tip: String::new(),
        phase: SyncPhase::AwaitFetch,
    };
    (s, FetchStep::Fetch { remote: remote.to_owned(), branch: branch.to_owned() })
}

impl BranchSync {
    /// Learns whether the fetch succeeded; when it did not, the remote has no
    /// such branch and there is nothing to pull.
    pub fn on_fetched(&mut self, succeeded: bool) -> (step: FetchStep)
        requires
            old(self)@.phase == SyncPhase::AwaitFetch,
        ensures
            final(self)@.branch == old(self)@.branch,
            final(self)@.remote == old(self)@.remote,
            final(self)@.prefer_remote == old(self)@.prefer_remote,
            !succeeded ==> final(self)@.phase == SyncPhase::Ended && step is Done,
            succeeded ==> final(self)@.phase == SyncPhase::AwaitVerify && (step matches FetchStep::VerifyRemote { remote_ref: rr }
                && rr@ == spec_remote_ref(old(self)@.remote, old(self)@.branch)),
    {
        if succeeded {
            self.phase = SyncPhase::AwaitVerify;
            FetchStep::VerifyRemote { remote_ref: remote_ref(self.remote.as_str(), self.branch.as_str()) }
        } else {
            self.phase = SyncPhase::Ended;
            FetchStep::Done
        }
    }

    /// Learns whether the remote-tracking ref exists.
    pub fn on_verified(&mut self, exists: bool) -> (step: FetchStep)
        requires
            old(self)@.phase == SyncPhase::AwaitVerify,
        ensures
            final(self)@.branch == old(self)@.branch,
            final(self)@.remote == old(self)@.remote,
            final(self)@.prefer_remote == old(self)@.prefer_remote,
            !exists ==> final(self)@.phase == SyncPhase::Ended && step is Done,
            exists ==> final(self)@.phase == SyncPhase::AwaitTips && (step matches FetchStep::ReadTips { branch, remote_ref: rr }
                && branch@ == old(self)@.branch && rr@ == spec_remote_ref(old(self)@.remote, old(self)@.branch)),
    {
        if exists {
            self.phase = SyncPhase::AwaitTips;
            FetchStep::ReadTips {
                branch: self.branch.clone(),
                remote_ref: remote_ref(self.remote.as_str(), self.branch.as_str()),
            }
        } else {
            self.phase = SyncPhase::Ended;
            FetchStep::Done
        }
    }

    /// Learns the local and the remote tip.
    pub fn on_tips(&mut self, local: String, remote: String) -> (step: FetchStep)
        requires
            old(self)@.phase == SyncPhase::AwaitTips,
        ensures
            final(self)@.branch == old(self)@.branch,
            final(self)@.remote == old(self)@.remote,
            final(self)@.prefer_remote == old(self)@.prefer_remote,
            final(self)@.local_tip == local@,
            final(self)@.remote_tip == remote@,
            local@ == remote@ ==> final(self)@.phase == SyncPhase::Ended && step is Done,
            local@ != remote@ ==> final(self)@.phase == SyncPhase::AwaitBehind && (step matches FetchStep::CheckBehind { local: l, remote: r }
                && l@ == local@ && r@ == remote@),
    {
        if local == remote {
            self.local_tip = local;
            self.remote_tip = remote;
            self.phase = SyncPhase::Ended;
            FetchStep::Done
        } else {
            let step = FetchStep::CheckBehind { local: local.clone(), remote: remote.clone() };
            self.local_tip = local;
            self.remote_tip = remote;
            self.phase = SyncPhase::AwaitBehind;
            step
        }
    }

    /// Learns whether the local branch is behind the remote one (its tip an
    /// ancestor of the remote tip): then it is fast-forwarded.
    pub fn on_behind(&mut self, behind: bool) -> (step: FetchStep)
        requires
            old(self)@.phase == SyncPhase::AwaitBehind,
        ensures
            final(self)@.branch == old(self)@.branch,
            final(self)@.prefer_remote == old(self)@.prefer_remote,
            final(self)@.local_tip == old(self)@.local_tip,
            final(self)@.remote_tip == old(self)@.remote_tip,
            behind ==> final(self)@.phase == SyncPhase::Ended && (step matches FetchStep::UpdateRef { branch, from, to, kind }
                && branch@ == old(self)@.branch && from@ == old(self)@.local_tip && to@
                == old(self)@.remote_tip && kind == MoveKind::FastForward),
            !behind ==> final(self)@.phase == SyncPhase::AwaitAhead && (step matches FetchStep::CheckAhead { local, remote }
                && remote@ == old(self)@.remote_tip && local@ == old(self)@.local_tip),
    {
        if behind {
            self.phase = SyncPhase::Ended;
            FetchStep::UpdateRef {
                branch: self.branch.clone(),
                from: self.local_tip.clone(),
                to: self.remote_tip.clone(),
                kind: MoveKind::FastForward,
            }
        } else {
            self.phase = SyncPhase::AwaitAhead;
            FetchStep::CheckAhead { local: self.local_tip.clone(), remote: self.remote_tip.clone() }
        }
    }

    /// Learns whether the local branch is ahead of the remote one: then it
    /// is kept. Otherwise they diverged: the remote version replaces the
    /// local one when it is preferred, else the sync fails.
    pub fn on_ahead(&mut self, ahead: bool) -> (step: FetchStep)
        requires
            old(self)@.phase == SyncPhase::AwaitAhead,
        ensures
            final(self)@.phase == SyncPhase::Ended,
            ahead ==> step is Done,
            !ahead && old(self)@.prefer_remote ==> (step matches FetchStep::UpdateRef { branch, from, to, kind }
                && branch@ == old(self)@.branch && from@ == old(self)@.local_tip && to@
                == old(self)@.remote_tip && kind == MoveKind::Reset),
            !ahead && !old(self)@.prefer_remote ==> step == (FetchStep::Failed {
                failure: FetchFailure::Diverged,
            }),
    {
        self.phase = SyncPhase::Ended;
        if ahead {
            FetchStep::Done
        } else if self.prefer_remote {
            FetchStep::UpdateRef {
                branch: self.branch.clone(),
                from: self.local_tip.clone(),
                to: self.remote_tip.clone(),
                kind: MoveKind::Reset,
            }
        } else {
            FetchStep::Failed { failure: FetchFailure::Diverged }
        }
    }
}

} // verus!

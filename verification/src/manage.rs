//! `add`, `init` and `sync`: the order of their checks and effects.
//!
//! Each command is a small state machine: the caller performs the step it
//! returns (a git query or command, a file access, a message) and reports
//! the outcome through the matching `on_*` method.
use vstd::prelude::*;
use crate::commands::{
    add_check, lemma_with_state_len, spec_top, sync_plan, with_state, AddRefusal, PrState, SyncPlan,
};
use crate::config::{
    append_branch_to_config, initial_config, is_valid_stack_name, spec_append_branch,
    spec_initial_config, spec_valid_stack_name, Stack,
};
use crate::text::views;

verus! {

broadcast use vstd::seq_lib::group_seq_properties;

/// What the caller of `AddRun` does next.
pub enum AddStep {
    /// Load the stack's configuration.
    LoadStack,
    /// Stop: the branch is the stack's base (exit 1).
    IsBase,
    /// Stop: the branch is already in the stack (exit 1).
    AlreadyInStack,
    /// Does `branch` already exist locally?
    CheckExists { branch: String },
    /// Stop: it does (exit 1).
    AlreadyExists,
    /// Is the working tree clean?
    CheckClean,
    /// Stop: it is not (exit 1).
    Dirty,
    /// `git checkout <top>`.
    CheckoutTop { top: String },
    /// Stop: the checkout failed (exit 1).
    CheckoutFailed { top: String },
    /// `git checkout -b <branch>`.
    CreateBranch { branch: String, top: String },
    /// Stop: creating the branch failed (exit 1).
    CreateFailed { branch: String, top: String },
    /// Read the configuration file's text.
    ReadConfig,
    /// Write `content` to the configuration file; the branch is added.
    WriteConfig { content: String, top: String },
}

#[derive(Clone, Copy, Debug, PartialEq, Eq, Structural)]
pub enum AddPhase {
    AwaitStack,
    AwaitExists,
    AwaitClean,
    AwaitCheckout,
    AwaitCreate,
    AwaitConfig,
    Ended,
}

/// `add <stack> <branch>`: create the branch from the top of the stack and
/// append it to the configuration.
pub struct AddRun {
    branch: String,
    top: String,
    phase: AddPhase,
}

pub struct AddView {
    pub branch: Seq<char>,
    pub top: Seq<char>,
    pub phase: AddPhase,
}

impl View for AddRun {
    type V = AddView;

    closed spec fn view(&self) -> AddView {
        AddView { branch: self.branch@, top: self.top@, phase: self.phase }
    }
}

/// Starts `add` for `branch`.
pub fn cmd_add(branch: &str) -> (r: (AddRun, AddStep))
    ensures
        r.0@.branch == branch@,
        r.0@.phase == AddPhase::AwaitStack,
        r.1 is LoadStack,
{
    (AddRun { branch: branch.to_owned(), top: String::new(), phase: AddPhase::AwaitStack }, AddStep::LoadStack)
}

impl AddRun {
    /// Learns the stack: the branch must be neither its base nor in it.
    pub fn on_stack(&mut self, stack: &Stack) -> (step: AddStep)
        requires
            old(self)@.phase == AddPhase::AwaitStack,
        ensures
            final(self)@.branch == old(self)@.branch,
            old(self)@.branch == stack.base@ ==> final(self)@.phase == AddPhase::Ended && step is IsBase,
            old(self)@.branch != stack.base@ && views(stack.branches@).contains(old(self)@.branch)
                ==> final(self)@.phase == AddPhase::Ended && step is AlreadyInStack,
            old(self)@.branch != stack.base@ && !views(stack.branches@).contains(old(self)@.branch)
                ==> final(self)@.phase == AddPhase::AwaitExists
                && final(self)@.top == spec_top(stack.base@, views(stack.branches@))
                && (step matches AddStep::CheckExists { branch } && branch@ == old(self)@.branch),
    {
        match add_check(stack, self.branch.as_str()) {
            Err(AddRefusal::IsBase) => {
                self.phase = AddPhase::Ended;
                AddStep::IsBase
            },
            Err(AddRefusal::AlreadyInStack) => {
                self.phase = AddPhase::Ended;
                AddStep::AlreadyInStack
            },
            Ok(top) => {
                self.top = top;
                self.phase = AddPhase::AwaitExists;
                AddStep::CheckExists { branch: self.branch.clone() }
            },
        }
    }

    /// Learns whether the branch already exists locally.
    pub fn on_exists(&mut self, exists: bool) -> (step: AddStep)
        requires
            old(self)@.phase == AddPhase::AwaitExists,
        ensures
            final(self)@.branch == old(self)@.branch,
            final(self)@.top == old(self)@.top,
            exists ==> final(self)@.phase == AddPhase::Ended && step is AlreadyExists,
            !exists ==> final(self)@.phase == AddPhase::AwaitClean && step is CheckClean,
    {
        if exists {
            self.phase = AddPhase::Ended;
            AddStep::AlreadyExists
        } else {
            self.phase = AddPhase::AwaitClean;
            AddStep::CheckClean
        }
    }

    /// Learns whether the working tree is clean.
    pub fn on_clean(&mut self, clean: bool) -> (step: AddStep)
        requires
            old(self)@.phase == AddPhase::AwaitClean,
        ensures
            final(self)@.branch == old(self)@.branch,
            final(self)@.top == old(self)@.top,
            !clean ==> final(self)@.phase == AddPhase::Ended && step is Dirty,
            clean ==> final(self)@.phase == AddPhase::AwaitCheckout && (step matches AddStep::CheckoutTop { top }
                && top@ == old(self)@.top),
    {
        if clean {
            self.phase = AddPhase::AwaitCheckout;
            AddStep::CheckoutTop { top: self.top.clone() }
        } else {
            self.phase = AddPhase::Ended;
            AddStep::Dirty
        }
    }

    /// Learns whether the top of the stack was checked out.
    pub fn on_checked_out(&mut self, succeeded: bool) -> (step: AddStep)
        requires
            old(self)@.phase == AddPhase::AwaitCheckout,
        ensures
            final(self)@.branch == old(self)@.branch,
            final(self)@.top == old(self)@.top,
            !succeeded ==> final(self)@.phase == AddPhase::Ended && (step matches AddStep::CheckoutFailed { top }
                && top@ == old(self)@.top),
            succeeded ==> final(self)@.phase == AddPhase::AwaitCreate && (step matches AddStep::CreateBranch { branch, top }
                && branch@ == old(self)@.branch && top@ == old(self)@.top),
    {
        if succeeded {
            self.phase = AddPhase::AwaitCreate;
            AddStep::CreateBranch { branch: self.branch.clone(), top: self.top.clone() }
        } else {
            self.phase = AddPhase::Ended;
            AddStep::CheckoutFailed { top: self.top.clone() }
        }
    }

    /// Learns whether the branch was created.
    pub fn on_created(&mut self, succeeded: bool) -> (step: AddStep)
        requires
            old(self)@.phase == AddPhase::AwaitCreate,
        ensures
            final(self)@.branch == old(self)@.branch,
            final(self)@.top == old(self)@.top,
            !succeeded ==> final(self)@.phase == AddPhase::Ended && (step matches AddStep::CreateFailed { branch, top }
                && branch@ == old(self)@.branch && top@ == old(self)@.top),
            succeeded ==> final(self)@.phase == AddPhase::AwaitConfig && step is ReadConfig,
    {
        if succeeded {
            self.phase = AddPhase::AwaitConfig;
            AddStep::ReadConfig
        } else {
            self.phase = AddPhase::Ended;
            AddStep::CreateFailed { branch: self.branch.clone(), top: self.top.clone() }
        }
    }

    /// Learns the configuration's text: the branch is appended to it.
    pub fn on_config(&mut self, content: &str) -> (step: AddStep)
        requires
            old(self)@.phase == AddPhase::AwaitConfig,
        ensures
            final(self)@.phase == AddPhase::Ended,
            step matches AddStep::WriteConfig { content: c, top } && c@ == spec_append_branch(content@, old(self)@.branch)
                && top@ == old(self)@.top,
    {
        self.phase = AddPhase::Ended;
        AddStep::WriteConfig { content: append_branch_to_config(content, self.branch.as_str()), top: self.top.clone() }
    }
}

/// What the caller of `InitRun` does next.
pub enum InitStep {
    /// Stop: the stack's name is not valid (exit 1).
    InvalidName,
    /// Read `git rev-parse --abbrev-ref origin/HEAD` (`None` if it fails).
    ReadOriginHead,
    /// Does the base branch exist locally?
    CheckBase { base: String },
    /// Stop: it does not (exit 1).
    MissingBase { base: String },
    /// Does the configuration file already exist?
    CheckFile,
    /// Stop: it does (exit 1).
    AlreadyExists,
    /// Walk the ancestry from HEAD back to `base` (a scan).
    Scan { base: String },
    /// Stop: the scan failed; its message is reported (exit 1).
    ScanFailed,
    /// Create `.stacks/` and write `content`; the stack exists.
    WriteConfig { base: String, content: String, scanned: Option<Vec<String>> },
}

#[derive(Clone, Copy, Debug, PartialEq, Eq, Structural)]
pub enum InitPhase {
    AwaitOriginHead,
    AwaitBase,
    AwaitFile,
    AwaitScan,
    Ended,
}

/// `init <stack> [--base B] [--scan]`.
pub struct InitRun {
    name: String,
    base: String,
    scan: bool,
    phase: InitPhase,
}

pub struct InitView {
    pub name: Seq<char>,
    pub base: Seq<char>,
    pub scan: bool,
    pub phase: InitPhase,
}

impl View for InitRun {
    type V = InitView;

    closed spec fn view(&self) -> InitView {
        InitView { name: self.name@, base: self.base@, scan: self.scan, phase: self.phase }
    }
}

/// Starts `init`: the name is checked first; without `--base` the base is
/// detected from `origin/HEAD`.
pub fn cmd_init(name: &str, base: Option<&str>, scan: bool) -> (r: (InitRun, InitStep))
    ensures
        r.0@.name == name@,
        r.0@.scan == scan,
        !spec_valid_stack_name(name@) ==> r.0@.phase == InitPhase::Ended && r.1 is InvalidName,
        spec_valid_stack_name(name@) && base is None ==> r.0@.phase == InitPhase::AwaitOriginHead
            && r.1 is ReadOriginHead,
        spec_valid_stack_name(name@) && base is Some ==> r.0@.phase == InitPhase::AwaitBase
            && r.0@.base == base.unwrap()@ && (r.1 matches InitStep::CheckBase { base: b } && b@ == base.unwrap()@),
{
    let valid = is_valid_stack_name(name);
    let mut run = InitRun { name: name.to_owned(), base: String::new(), scan, phase: InitPhase::Ended };
    if !valid {
        return (run, InitStep::InvalidName);
    }
    match base {
        None => {
            run.phase = InitPhase::AwaitOriginHead;
            (run, InitStep::ReadOriginHead)
        },
        Some(b) => {
            run.base = b.to_owned();
            run.phase = InitPhase::AwaitBase;
            (run, InitStep::CheckBase { base: b.to_owned() })
        },
    }
}

impl InitRun {
    /// Learns what `origin/HEAD` names, and takes the default branch from it.
    pub fn on_origin_head(&mut self, origin_head: Option<&str>) -> (step: InitStep)
        requires
            old(self)@.phase == InitPhase::AwaitOriginHead,
        ensures
            final(self)@.name == old(self)@.name,
            final(self)@.scan == old(self)@.scan,
            final(self)@.phase == InitPhase::AwaitBase,
            final(self)@.base == crate::commands::spec_default_branch(crate::commands::opt_view(origin_head)),
            step matches InitStep::CheckBase { base } && base@ == final(self)@.base,
    {
        self.base = crate::commands::detect_default_branch(origin_head);
        self.phase = InitPhase::AwaitBase;
        InitStep::CheckBase { base: self.base.clone() }
    }

    /// Learns whether the base exists locally.
    pub fn on_base(&mut self, exists: bool) -> (step: InitStep)
        requires
            old(self)@.phase == InitPhase::AwaitBase,
        ensures
            final(self)@.name == old(self)@.name,
            final(self)@.base == old(self)@.base,
            final(self)@.scan == old(self)@.scan,
            !exists ==> final(self)@.phase == InitPhase::Ended && (step matches InitStep::MissingBase { base }
                && base@ == old(self)@.base),
            exists ==> final(self)@.phase == InitPhase::AwaitFile && step is CheckFile,
    {
        if exists {
            self.phase = InitPhase::AwaitFile;
            InitStep::CheckFile
        } else {
            self.phase = InitPhase::Ended;
            InitStep::MissingBase { base: self.base.clone() }
        }
    }

    fn write(&mut self, scanned: Option<Vec<String>>) -> (step: InitStep)
        ensures
            final(self)@.name == old(self)@.name,
            final(self)@.base == old(self)@.base,
            final(self)@.phase == InitPhase::Ended,
            step matches InitStep::WriteConfig { base, content, scanned: s } && base@ == old(self)@.base
                && s == scanned && content@ == spec_initial_config(
                old(self)@.name,
                old(self)@.base,
                match scanned {
                    Some(v) => views(v@),
                    None => Seq::empty(),
                },
            ),
    {
        self.phase = InitPhase::Ended;
        let content = match &scanned {
            Some(v) => initial_config(self.name.as_str(), self.base.as_str(), v),
            None => {
                let none: Vec<String> = Vec::new();
                proof {
                    assert(views(none@) =~= Seq::<Seq<char>>::empty());
                }
                initial_config(self.name.as_str(), self.base.as_str(), &none)
            },
        };
        InitStep::WriteConfig { base: self.base.clone(), content, scanned }
    }

    /// Learns whether the configuration file exists; a new one is written,
    /// after a scan when `--scan` was given.
    pub fn on_file(&mut self, exists: bool) -> (step: InitStep)
        requires
            old(self)@.phase == InitPhase::AwaitFile,
        ensures
            final(self)@.name == old(self)@.name,
            final(self)@.base == old(self)@.base,
            exists ==> final(self)@.phase == InitPhase::Ended && step is AlreadyExists,
            !exists && old(self)@.scan ==> final(self)@.phase == InitPhase::AwaitScan
                && (step matches InitStep::Scan { base } && base@ == old(self)@.base),
            !exists && !old(self)@.scan ==> final(self)@.phase == InitPhase::Ended
                && (step matches InitStep::WriteConfig { base, content, scanned }
                && base@ == old(self)@.base && scanned is None
                && content@ == spec_initial_config(old(self)@.name, old(self)@.base, Seq::empty())),
    {
        if exists {
            self.phase = InitPhase::Ended;
            InitStep::AlreadyExists
        } else if self.scan {
            self.phase = InitPhase::AwaitScan;
            InitStep::Scan { base: self.base.clone() }
        } else {
            self.write(None)
        }
    }

    /// Learns the branches the scan found (`None` when it failed).
    pub fn on_scanned(&mut self, scanned: Option<Vec<String>>) -> (step: InitStep)
        requires
            old(self)@.phase == InitPhase::AwaitScan,
        ensures
            final(self)@.phase == InitPhase::Ended,
            scanned is None ==> step is ScanFailed,
            scanned matches Some(v) ==> (step matches InitStep::WriteConfig { base, content, scanned: s }
                && base@ == old(self)@.base && s == Some(v)
                && content@ == spec_initial_config(old(self)@.name, old(self)@.base, views(v@))),
    {
        match scanned {
            None => {
                self.phase = InitPhase::Ended;
                InitStep::ScanFailed
            },
            Some(v) => self.write(Some(v)),
        }
    }
}

/// What the caller of `SyncRun` does next.
pub enum SyncStep {
    /// Check that `gh` is installed and authenticated (failures stop the command).
    CheckGh,
    /// Is the working tree clean?
    CheckClean,
    /// Stop: it is not (exit 1).
    Dirty,
    /// Load the stack's configuration.
    LoadStack,
    /// Stop: the stack has no branches; nothing to sync (exit 0).
    NoBranches,
    /// Fetch and fast-forward the base (failures stop the command).
    FetchBase { base: String },
    /// Ask `gh` for the pull-request state of `branch`.
    QueryPr { branch: String },
    /// Stop: these branches' pull requests were closed without merging (exit 1).
    Abort { closed: Vec<String> },
    /// Stop: no pull request was merged (exit 0).
    NothingToSync,
    /// Remove `branch` from the configuration.
    RemoveFromConfig { branch: String },
    /// Read the checked-out branch.
    ReadHead,
    /// The merged branch is checked out: check out the base instead.
    CheckoutBase { base: String },
    /// Does `branch` exist locally?
    CheckExists { branch: String },
    /// Delete the local branch (`git branch -D`).
    DeleteBranch { branch: String },
    /// Report that the branch is already gone locally.
    AlreadyGone { branch: String },
    /// Load the configuration again.
    ReloadStack,
    /// Stop: every branch was merged; the stack is empty (exit 0).
    AllMerged,
    /// Rebase what is left, without fetching again.
    RebaseRest,
}

#[derive(Clone, Copy, Debug, PartialEq, Eq, Structural)]
pub enum SyncPhase {
    AwaitGh,
    AwaitClean,
    AwaitStack,
    AwaitBaseFetched,
    AwaitPr,
    AwaitRemoved,
    AwaitHead,
    AwaitCheckedOut,
    AwaitExists,
    AwaitReported,
    AwaitReloaded,
    Ended,
}

/// `sync`: drop the branches whose pull requests merged, then rebase the rest.
pub struct SyncRun {
    base: String,
    branches: Vec<String>,
    states: Vec<PrState>,
    merged: Vec<String>,
    index: usize,
    phase: SyncPhase,
}

pub struct SyncRunView {
    pub base: Seq<char>,
    pub branches: Seq<Seq<char>>,
    pub states: Seq<PrState>,
    pub merged: Seq<Seq<char>>,
    pub index: nat,
    pub phase: SyncPhase,
}

impl View for SyncRun {
    type V = SyncRunView;

    closed spec fn view(&self) -> SyncRunView {
        SyncRunView {
            base: self.base@,
            branches: views(self.branches@),
            states: self.states@,
            merged: views(self.merged@),
            index: self.index as nat,
            phase: self.phase,
        }
    }
}

/// Starts `sync`.
pub fn cmd_sync() -> (r: (SyncRun, SyncStep))
    ensures
        r.0.inv(),
        r.0@.phase == SyncPhase::AwaitGh,
        r.1 is CheckGh,
{
    (SyncRun {
        base: String::new(),
        branches: Vec::new(),
        states: Vec::new(),
        merged: Vec::new(),
        index: 0,
        phase: SyncPhase::AwaitGh,
    }, SyncStep::CheckGh)
}

/// `step` works on merged branch `index` of `v`, or reloads the stack past the last.
pub open spec fn sync_moves_to(step: SyncStep, v: SyncRunView, index: int) -> bool {
    if index < v.merged.len() {
        step matches SyncStep::RemoveFromConfig { branch } && branch@ == v.merged[index]
    } else {
        step is ReloadStack
    }
}

impl SyncRun {
    pub closed spec fn inv(&self) -> bool {
        &&& self.branches@.len() < usize::MAX
        &&& self.merged@.len() < usize::MAX
        &&& self.phase == SyncPhase::AwaitBaseFetched ==> self.branches@.len() > 0
        &&& self.phase == SyncPhase::AwaitPr ==> self.index < self.branches@.len() && self.states@.len() == self.index
        &&& (self.phase == SyncPhase::AwaitRemoved || self.phase == SyncPhase::AwaitHead
            || self.phase == SyncPhase::AwaitCheckedOut || self.phase == SyncPhase::AwaitExists
            || self.phase == SyncPhase::AwaitReported) ==> self.index < self.merged@.len()
    }

    /// `gh` is ready.
    pub fn on_gh_ready(&mut self) -> (step: SyncStep)
        requires
            old(self).inv(),
            old(self)@.phase == SyncPhase::AwaitGh,
        ensures
            final(self).inv(),
            final(self)@.phase == SyncPhase::AwaitClean,
            step is CheckClean,
    {
        self.phase = SyncPhase::AwaitClean;
        SyncStep::CheckClean
    }

    /// Learns whether the working tree is clean.
    pub fn on_clean(&mut self, clean: bool) -> (step: SyncStep)
        requires
            old(self).inv(),
            old(self)@.phase == SyncPhase::AwaitClean,
        ensures
            final(self).inv(),
            !clean ==> final(self)@.phase == SyncPhase::Ended && step is Dirty,
            clean ==> final(self)@.phase == SyncPhase::AwaitStack && step is LoadStack,
    {
        if clean {
            self.phase = SyncPhase::AwaitStack;
            SyncStep::LoadStack
        } else {
            self.phase = SyncPhase::Ended;
            SyncStep::Dirty
        }
    }

    /// Learns the stack.
    pub fn on_stack(&mut self, stack: Stack) -> (step: SyncStep)
        requires
            old(self).inv(),
            old(self)@.phase == SyncPhase::AwaitStack,
            stack.branches@.len() < usize::MAX,
        ensures
            final(self).inv(),
            final(self)@.base == stack.base@,
            final(self)@.branches == views(stack.branches@),
            stack.branches@.len() == 0 ==> final(self)@.phase == SyncPhase::Ended && step is NoBranches,
            stack.branches@.len() > 0 ==> final(self)@.phase == SyncPhase::AwaitBaseFetched
                && (step matches SyncStep::FetchBase { base } && base@ == stack.base@),
    {
        let Stack { base, branches } = stack;
        self.base = base;
        self.branches = branches;
        self.states = Vec::new();
        self.index = 0;
        if self.branches.len() == 0 {
            self.phase = SyncPhase::Ended;
            SyncStep::NoBranches
        } else {
            self.phase = SyncPhase::AwaitBaseFetched;
            SyncStep::FetchBase { base: self.base.clone() }
        }
    }

    /// The base is up to date: the pull requests are queried, bottom to top.
    pub fn on_base_fetched(&mut self) -> (step: SyncStep)
        requires
            old(self).inv(),
            old(self)@.phase == SyncPhase::AwaitBaseFetched,
        ensures
            final(self).inv(),
            final(self)@.base == old(self)@.base,
            final(self)@.branches == old(self)@.branches,
            final(self)@.states == Seq::<PrState>::empty(),
            final(self)@.index == 0,
            final(self)@.index < final(self)@.branches.len(),
            final(self)@.phase == SyncPhase::AwaitPr,
            step matches SyncStep::QueryPr { branch } && branch@ == old(self)@.branches[0],
    {
        self.states = Vec::new();
        self.index = 0;
        self.phase = SyncPhase::AwaitPr;
        SyncStep::QueryPr { branch: self.branches[0].clone() }
    }

    /// Learns a branch's pull-request state. Once all are known: a closed
    /// unmerged pull request stops the sync; no merged one means nothing to
    /// do; otherwise the merged branches are removed, bottom to top.
    pub fn on_pr_state(&mut self, state: PrState) -> (step: SyncStep)
        requires
            old(self).inv(),
            old(self)@.phase == SyncPhase::AwaitPr,
        ensures
            final(self).inv(),
            final(self)@.base == old(self)@.base,
            final(self)@.branches == old(self)@.branches,
            final(self)@.states == old(self)@.states.push(state),
            old(self)@.states.len() == old(self)@.index,
            old(self)@.index < old(self)@.branches.len(),
            old(self)@.index + 1 < old(self)@.branches.len() ==> final(self)@.phase == SyncPhase::AwaitPr
                && final(self)@.index == old(self)@.index + 1 && final(self)@.index < final(self)@.branches.len()
                && (step matches SyncStep::QueryPr { branch } && branch@ == old(self)@.branches[old(self)@.index + 1int]),
            old(self)@.index + 1 == old(self)@.branches.len() ==> {
                let closed = with_state(final(self)@.branches, final(self)@.states, PrState::Closed);
                let merged = with_state(final(self)@.branches, final(self)@.states, PrState::Merged);
                &&& closed.len() > 0 ==> final(self)@.phase == SyncPhase::Ended
                    && (step matches SyncStep::Abort { closed: c } && views(c@) == closed)
                &&& closed.len() == 0 && merged.len() == 0 ==> final(self)@.phase == SyncPhase::Ended
                    && step is NothingToSync
                &&& closed.len() == 0 && merged.len() > 0 ==> final(self)@.merged == merged
                    && final(self)@.index == 0 && final(self)@.phase == SyncPhase::AwaitRemoved
                    && sync_moves_to(step, final(self)@, 0)
            },
    {
        self.states.push(state);
        let i = self.index + 1;
        if i < self.branches.len() {
            self.index = i;
            return SyncStep::QueryPr { branch: self.branches[i].clone() };
        }
        proof {
            lemma_with_state_len(views(self.branches@), self.states@, PrState::Merged);
        }
        match sync_plan(&self.branches, &self.states) {
            SyncPlan::Abort { closed } => {
                self.phase = SyncPhase::Ended;
                SyncStep::Abort { closed }
            },
            SyncPlan::NothingToSync => {
                self.phase = SyncPhase::Ended;
                SyncStep::NothingToSync
            },
            SyncPlan::Remove { merged } => {
                assert(merged@.len() == views(merged@).len());
                self.merged = merged;
                self.index = 0;
                self.phase = SyncPhase::AwaitRemoved;
                SyncStep::RemoveFromConfig { branch: self.merged[0].clone() }
            },
        }
    }

    /// The branch left the configuration: which branch is checked out?
    pub fn on_removed(&mut self) -> (step: SyncStep)
        requires
            old(self).inv(),
            old(self)@.phase == SyncPhase::AwaitRemoved,
        ensures
            final(self).inv(),
            final(self)@ == (SyncRunView { phase: SyncPhase::AwaitHead, ..old(self)@ }),
            step is ReadHead,
    {
        self.phase = SyncPhase::AwaitHead;
        SyncStep::ReadHead
    }

    /// Learns the checked-out branch; the merged branch cannot be deleted
    /// while it is checked out, so the base is checked out first.
    pub fn on_head(&mut self, head: &str) -> (step: SyncStep)
        requires
            old(self).inv(),
            old(self)@.phase == SyncPhase::AwaitHead,
        ensures
            final(self).inv(),
            head@ == old(self)@.merged[old(self)@.index as int] ==> final(self)@
                == (SyncRunView { phase: SyncPhase::AwaitCheckedOut, ..old(self)@ })
                && (step matches SyncStep::CheckoutBase { base } && base@ == old(self)@.base),
            head@ != old(self)@.merged[old(self)@.index as int] ==> final(self)@
                == (SyncRunView { phase: SyncPhase::AwaitExists, ..old(self)@ })
                && (step matches SyncStep::CheckExists { branch } && branch@ == old(self)@.merged[old(self)@.index as int]),
    {
        let branch = self.merged[self.index].clone();
        let h = head.to_owned();
        if h == branch {
            self.phase = SyncPhase::AwaitCheckedOut;
            SyncStep::CheckoutBase { base: self.base.clone() }
        } else {
            self.phase = SyncPhase::AwaitExists;
            SyncStep::CheckExists { branch }
        }
    }

    /// The checkout of the base was attempted (its outcome is not checked).
    pub fn on_checked_out(&mut self) -> (step: SyncStep)
        requires
            old(self).inv(),
            old(self)@.phase == SyncPhase::AwaitCheckedOut,
        ensures
            final(self).inv(),
            final(self)@ == (SyncRunView { phase: SyncPhase::AwaitExists, ..old(self)@ }),
            step matches SyncStep::CheckExists { branch } && branch@ == old(self)@.merged[old(self)@.index as int],
    {
        self.phase = SyncPhase::AwaitExists;
        SyncStep::CheckExists { branch: self.merged[self.index].clone() }
    }

    /// Learns whether the merged branch exists locally.
    pub fn on_exists(&mut self, exists: bool) -> (step: SyncStep)
        requires
            old(self).inv(),
            old(self)@.phase == SyncPhase::AwaitExists,
        ensures
            final(self).inv(),
            final(self)@ == (SyncRunView { phase: SyncPhase::AwaitReported, ..old(self)@ }),
            exists ==> (step matches SyncStep::DeleteBranch { branch } && branch@ == old(self)@.merged[old(self)@.index as int]),
            !exists ==> (step matches SyncStep::AlreadyGone { branch } && branch@ == old(self)@.merged[old(self)@.index as int]),
    {
        self.phase = SyncPhase::AwaitReported;
        let branch = self.merged[self.index].clone();
        if exists {
            SyncStep::DeleteBranch { branch }
        } else {
            SyncStep::AlreadyGone { branch }
        }
    }

    /// The merged branch is dealt with: on to the next, or reload the stack.
    pub fn on_reported(&mut self) -> (step: SyncStep)
        requires
            old(self).inv(),
            old(self)@.phase == SyncPhase::AwaitReported,
        ensures
            final(self).inv(),
            final(self)@.base == old(self)@.base,
            final(self)@.merged == old(self)@.merged,
            final(self)@.index == old(self)@.index + 1,
            sync_moves_to(step, final(self)@, old(self)@.index + 1int),
            old(self)@.index + 1 < old(self)@.merged.len() ==> final(self)@.phase == SyncPhase::AwaitRemoved,
            old(self)@.index + 1 == old(self)@.merged.len() ==> final(self)@.phase == SyncPhase::AwaitReloaded,
    {
        self.index = self.index + 1;
        if self.index < self.merged.len() {
            self.phase = SyncPhase::AwaitRemoved;
            SyncStep::RemoveFromConfig { branch: self.merged[self.index].clone() }
        } else {
            self.phase = SyncPhase::AwaitReloaded;
            SyncStep::ReloadStack
        }
    }

    /// Learns the stack as it now stands: an empty one is done, otherwise
    /// what is left is rebased.
    pub fn on_reloaded(&mut self, stack: &Stack) -> (step: SyncStep)
        requires
            old(self).inv(),
            old(self)@.phase == SyncPhase::AwaitReloaded,
        ensures
            final(self).inv(),
            final(self)@.phase == SyncPhase::Ended,
            stack.branches@.len() == 0 ==> step is AllMerged,
            stack.branches@.len() > 0 ==> step is RebaseRest,
    {
        self.phase = SyncPhase::Ended;
        if stack.branches.len() == 0 {
            SyncStep::AllMerged
        } else {
            SyncStep::RebaseRest
        }
    }
}

} // verus!

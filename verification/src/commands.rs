//! The decisions of the stack commands (`init`, `add`, `rm`, `push`,
//! `show`, `status`, `sync`), separated from the git calls and file
//! accesses that the driver performs around them.
use vstd::prelude::*;
use vstd::string::StringSliceAdditionalSpecFns;
use crate::config::{other_than, spec_remove_branch, remove_branch_from_config, trim_all, Stack, StackError};
use crate::listing::{sort_names, sorted_texts};
use crate::state::{join_path, join_strings, joined, spec_join};
use crate::text::{
    chars_of, contains_str, parse_usize, spec_parse_uint, has_substring, line_ranges, lines, push_str, range_text, ranges_within,
    string_of, trim, trim_range, trim_str, views,
};

verus! {

broadcast use vstd::seq_lib::group_seq_properties;

/// Where the tool works: the repository's root and its `.stacks` directory.
pub struct Ctx {
    pub repo_root: String,
    pub stacks_dir: String,
}

impl Ctx {
    /// The context for the repository whose root `git rev-parse
    /// --show-toplevel` printed.
    pub fn new(toplevel: &str) -> (ctx: Ctx)
        ensures
            ctx.repo_root@ == trim(toplevel@),
            ctx.stacks_dir@ == spec_join(trim(toplevel@), ".stacks"@),
    {
        let root = trim_str(toplevel);
        let stacks_dir = join_path(root.as_str(), ".stacks");
        Ctx { repo_root: root, stacks_dir }
    }
}

/// A SHA shortened to its first 8 bytes (the whole of a shorter one).
pub open spec fn short_len(sha: &str) -> nat {
    if sha.spec_bytes().len() < 8 {
        sha.spec_bytes().len()
    } else {
        8
    }
}

/// Shortens a SHA to 8 characters.
pub fn short(sha: &str) -> (r: &str)
    requires
        vstd::utf8::is_char_boundary(sha.spec_bytes(), short_len(sha) as int),
    ensures
        r.spec_bytes() == sha.spec_bytes().subrange(0, short_len(sha) as int),
{
    let bytes = sha.as_bytes();
    let n = bytes.len();
    let k = if n < 8 {
        n
    } else {
        8
    };
    let (head, _) = sha.split_at(k);
    head
}

/// Whether `git status --porcelain --untracked-files=no` reported no change.
pub fn repo_clean(status_output: &str) -> (r: bool)
    ensures
        r == (trim(status_output@).len() == 0),
{
    let t = trim_str(status_output);
    t.as_str().unicode_len() == 0
}

/// The default branch from what `git rev-parse --abbrev-ref origin/HEAD`
/// printed (`None` when it failed): the part after `origin/`, unless that is
/// missing or empty, in which case `main`.
pub open spec fn spec_default_branch(origin_head: Option<Seq<char>>) -> Seq<char> {
    match origin_head {
        Some(h) => if h.len() > 7 && h.subrange(0, 7) == "origin/"@ {
            h.subrange(7, h.len() as int)
        } else {
            "main"@
        },
        None => "main"@,
    }
}

/// Law of `sd init`: the default base is the branch `origin/HEAD` names,
/// without its `origin/` prefix, and `main` when it names none.
pub proof fn law_default_branch(branch: Seq<char>)
    ensures
        branch.len() > 0 ==> spec_default_branch(Some("origin/"@ + branch)) == branch,
        spec_default_branch(None) == "main"@,
{
    reveal_strlit("origin/");
    let h = "origin/"@ + branch;
    assert(h.subrange(0, 7) =~= "origin/"@);
    assert(h.subrange(7, h.len() as int) =~= branch);
}

pub open spec fn opt_view(s: Option<&str>) -> Option<Seq<char>> {
    match s {
        Some(t) => Some(t@),
        None => None,
    }
}

pub fn detect_default_branch(origin_head: Option<&str>) -> (b: String)
    ensures
        b@ == spec_default_branch(opt_view(origin_head)),
{
    proof {
        reveal_strlit("origin/");
        reveal_strlit("main");
    }
    let mut main = String::new();
    push_str(&mut main, "main");
    match origin_head {
        None => main,
        Some(h) => {
            let cs = chars_of(h);
            let prefix = chars_of("origin/");
            if cs.len() > 7 {
                let mut same = true;
                let mut i: usize = 0;
                while i < 7
                    invariant
                        cs@ == h@,
                        cs@.len() > 7,
                        prefix@ == "origin/"@,
                        prefix@.len() == 7,
                        0 <= i <= 7,
                        same == (forall|m: int| 0 <= m < i ==> cs@[m] == prefix@[m]),
                    decreases 7 - i,
                {
                    if cs[i] != prefix[i] {
                        same = false;
                    }
                    i += 1;
                }
                if same {
                    proof {
                        assert(cs@.subrange(0, 7) =~= "origin/"@);
                    }
                    return string_of(&cs, 7, cs.len());
                }
                proof {
                    let m = choose|m: int| 0 <= m < 7 && cs@[m] != prefix@[m];
                    assert(cs@.subrange(0, 7)[m] != "origin/"@[m]);
                }
            }
            main
        },
    }
}

/// Why no stack could be picked when none was named.
pub enum ResolveError {
    /// There is no `.stacks/` directory.
    NoStacksDir,
    /// `.stacks/` holds no stack.
    NoStacks,
    /// `.stacks/` holds several stacks; their names, sorted.
    Multiple { names: Vec<String> },
}

/// The lines `list` prints for stack `name`: its base and its branches
/// joined by arrows, or a mark that its configuration does not load.
pub open spec fn spec_list_entry(name: Seq<char>, loaded: Result<Stack, StackError>) -> Seq<Seq<char>> {
    match loaded {
        Ok(st) => seq![
            name,
            "  base: "@ + st.base@,
            if st.branches@.len() == 0 {
                "  branches: (none yet)"@
            } else {
                "  branches: "@ + joined(views(st.branches@), " -> "@)
            },
        ],
        Err(_) => seq![name + " (invalid)"@],
    }
}

pub fn list_entry(name: &str, loaded: &Result<Stack, StackError>) -> (r: Vec<String>)
    ensures
        views(r@) == spec_list_entry(name@, *loaded),
{
    let mut out: Vec<String> = Vec::new();
    match loaded {
        Ok(st) => {
            out.push(name.to_owned());
            let mut base = String::new();
            push_str(&mut base, "  base: ");
            push_str(&mut base, st.base.as_str());
            out.push(base);
            let mut branches = String::new();
            if st.branches.len() == 0 {
                push_str(&mut branches, "  branches: (none yet)");
            } else {
                let chain = join_strings(&st.branches, " -> ");
                push_str(&mut branches, "  branches: ");
                push_str(&mut branches, chain.as_str());
            }
            out.push(branches);
        },
        Err(_) => {
            let mut line = String::new();
            push_str(&mut line, name);
            push_str(&mut line, " (invalid)");
            out.push(line);
        },
    }
    assert(views(out@) =~= spec_list_entry(name@, *loaded));
    out
}

/// Picks the stack to work on: the one named, else the only one configured.
/// `listing` holds the stack file names (in any order), or `None` when there
/// is no `.stacks/` directory; several names are reported sorted.
pub fn resolve_stack(name: Option<&str>, listing: Option<Vec<String>>) -> (r: Result<String, ResolveError>)
    ensures
        name matches Some(n) ==> (r matches Ok(s) && s@ == n@),
        name is None ==> match listing {
            None => r matches Err(ResolveError::NoStacksDir),
            Some(l) => if l@.len() == 0 {
                r matches Err(ResolveError::NoStacks)
            } else if l@.len() == 1 {
                r matches Ok(s) && s == l@[0]
            } else {
                r matches Err(ResolveError::Multiple { names }) && views(names@).to_multiset()
                    == views(l@).to_multiset() && sorted_texts(views(names@))
            },
        },
{
    match name {
        Some(n) => Ok(n.to_owned()),
        None => match listing {
            None => Err(ResolveError::NoStacksDir),
            Some(mut l) => {
                if l.len() == 0 {
                    Err(ResolveError::NoStacks)
                } else if l.len() == 1 {
                    Ok(l.remove(0))
                } else {
                    Err(ResolveError::Multiple { names: sort_names(l) })
                }
            },
        },
    }
}

pub fn contains_name(items: &Vec<String>, name: &str) -> (r: bool)
    ensures
        r == views(items@).contains(name@),
{
    let n = name.to_owned();
    let mut i: usize = 0;
    while i < items.len()
        invariant
            n@ == name@,
            0 <= i <= items@.len(),
            forall|k: int| 0 <= k < i ==> views(items@)[k] != name@,
        decreases items@.len() - i,
    {
        if items[i] == n {
            proof {
                assert(views(items@)[i as int] == name@);
            }
            return true;
        }
        i += 1;
    }
    false
}

/// What `sd rm <stack> <branch>` does.
pub enum RmOutcome {
    /// The branch is not in the stack; nothing changes.
    NotInStack,
    /// The branch is removed: `new_content` is the configuration without it.
    /// When it was not the top branch, `above` is the branch right above it,
    /// which stays based on it until the next rebase.
    Removed { at_top: bool, above: Option<String>, new_content: String },
}

/// Decides `sd rm`: `content` is the text of the stack's configuration.
pub fn cmd_rm(stack: &Stack, content: &str, branch: &str) -> (r: RmOutcome)
    ensures
        !views(stack.branches@).contains(branch@) ==> r is NotInStack,
        views(stack.branches@).contains(branch@) ==> (r matches RmOutcome::Removed { at_top, above, new_content }
            && new_content@ == spec_remove_branch(content@, branch@)
            && at_top == (views(stack.branches@).last() == branch@)
            && (exists|i: int| 0 <= i < stack.branches@.len() && views(stack.branches@)[i] == branch@
                && (forall|k: int| 0 <= k < i ==> views(stack.branches@)[k] != branch@)
                && (at_top || i + 1 >= stack.branches@.len() ==> above is None)
                && (!at_top && i + 1 < stack.branches@.len() ==> (above matches Some(a) && a@ == views(stack.branches@)[i + 1])))),
{
    let bs = &stack.branches;
    let b = branch.to_owned();
    let mut idx: usize = 0;
    while idx < bs.len()
        invariant
            b@ == branch@,
            0 <= idx <= bs@.len(),
            forall|k: int| 0 <= k < idx ==> views(bs@)[k] != branch@,
        ensures
            0 <= idx <= bs@.len(),
            forall|k: int| 0 <= k < idx ==> views(bs@)[k] != branch@,
            idx < bs@.len() ==> views(bs@)[idx as int] == branch@,
        decreases bs@.len() - idx,
    {
        if bs[idx] == b {
            break;
        }
        idx += 1;
    }
    if idx == bs.len() {
        proof {
            assert(!views(bs@).contains(branch@));
        }
        return RmOutcome::NotInStack;
    }
    proof {
        assert(views(bs@)[idx as int] == branch@);
    }
    let at_top = bs[bs.len() - 1] == b;
    let above = if !at_top && idx + 1 < bs.len() {
        Some(bs[idx + 1].clone())
    } else {
        None
    };
    let new_content = remove_branch_from_config(content, branch);
    RmOutcome::Removed { at_top, above, new_content }
}

/// Why `sd add` refuses a branch before touching git.
#[derive(Clone, Copy, Debug, PartialEq, Eq, Structural)]
pub enum AddRefusal {
    /// The branch is the stack's base.
    IsBase,
    /// The branch is already in the stack.
    AlreadyInStack,
}

/// The branch a new branch is created from: the top of the stack, or the
/// base when the stack has no branch yet.
pub open spec fn spec_top(base: Seq<char>, branches: Seq<Seq<char>>) -> Seq<char> {
    if branches.len() == 0 {
        base
    } else {
        branches.last()
    }
}

/// Law of `sd add`: a new branch starts from the top of the stack, its last
/// branch; only a stack without branches starts it from the base.
pub proof fn law_add_starts_from_top(base: Seq<char>, branches: Seq<Seq<char>>)
    ensures
        branches.len() > 0 ==> spec_top(base, branches) == branches[branches.len() - 1],
        branches.len() == 0 ==> spec_top(base, branches) == base,
{
}

/// The checks of `sd add` that need no git: the new branch must be neither
/// the base nor already in the stack. On success, gives the branch to start from.
pub fn add_check(stack: &Stack, branch: &str) -> (r: Result<String, AddRefusal>)
    ensures
        branch@ == stack.base@ ==> r == Err::<String, AddRefusal>(AddRefusal::IsBase),
        branch@ != stack.base@ && views(stack.branches@).contains(branch@) ==> r == Err::<
            String,
            AddRefusal,
        >(AddRefusal::AlreadyInStack),
        branch@ != stack.base@ && !views(stack.branches@).contains(branch@) ==> (r matches Ok(top)
            && top@ == spec_top(stack.base@, views(stack.branches@))),
{
    let b = branch.to_owned();
    if b == stack.base {
        return Err(AddRefusal::IsBase);
    }
    if contains_name(&stack.branches, branch) {
        return Err(AddRefusal::AlreadyInStack);
    }
    if stack.branches.len() == 0 {
        Ok(stack.base.clone())
    } else {
        Ok(stack.branches[stack.branches.len() - 1].clone())
    }
}

/// What `sd push` does next.
pub enum PushStep {
    /// The stack has no branch: nothing to push (an error).
    NothingToPush,
    /// Check that branch `index + 1` of `count` exists locally.
    CheckExists { index: usize, count: usize, branch: String },
    /// `git push --force-with-lease <remote> <branch>`.
    Push { index: usize, count: usize, branch: String, remote: String },
    /// The branch is missing locally: stop before pushing it.
    Missing { branch: String },
    /// Its push failed: stop.
    Failed { branch: String },
    /// Every branch was pushed.
    Done { count: usize },
}

#[derive(Clone, Copy, Debug, PartialEq, Eq, Structural)]
pub enum PushPhase {
    AwaitExists,
    AwaitPush,
    Ended,
}

/// Pushing a stack's branches, bottom to top.
pub struct PushRun {
    branches: Vec<String>,
    remote: String,
    index: usize,
    phase: PushPhase,
}

pub struct PushView {
    pub branches: Seq<Seq<char>>,
    pub remote: Seq<char>,
    pub index: nat,
    pub phase: PushPhase,
}

impl View for PushRun {
    type V = PushView;

    closed spec fn view(&self) -> PushView {
        PushView {
            branches: views(self.branches@),
            remote: self.remote@,
            index: self.index as nat,
            phase: self.phase,
        }
    }
}

/// `step` checks the branch at `v.index`.
pub open spec fn is_check_exists(step: PushStep, v: PushView) -> bool {
    step matches PushStep::CheckExists { index, count, branch } && index == v.index && count
        == v.branches.len() && branch@ == v.branches[v.index as int]
}

impl PushRun {
    pub closed spec fn inv(&self) -> bool {
        &&& self.index <= self.branches@.len()
        &&& self.branches@.len() <= usize::MAX
        &&& self.phase != PushPhase::Ended ==> self.index < self.branches@.len()
    }

    /// Learns whether the branch exists locally.
    pub fn on_exists(&mut self, exists: bool) -> (step: PushStep)
        requires
            old(self).inv(),
            old(self)@.phase == PushPhase::AwaitExists,
        ensures
            final(self).inv(),
            final(self)@.branches == old(self)@.branches,
            final(self)@.remote == old(self)@.remote,
            final(self)@.index == old(self)@.index,
            exists ==> final(self)@.phase == PushPhase::AwaitPush && (step matches PushStep::Push { index, count, branch, remote }
                && index == old(self)@.index && count == old(self)@.branches.len() && branch@
                == old(self)@.branches[old(self)@.index as int] && remote@ == old(self)@.remote),
            !exists ==> final(self)@.phase == PushPhase::Ended && (step matches PushStep::Missing { branch }
                && branch@ == old(self)@.branches[old(self)@.index as int]),
    {
        let i = self.index;
        if exists {
            self.phase = PushPhase::AwaitPush;
            PushStep::Push {
                index: i,
                count: self.branches.len(),
                branch: self.branches[i].clone(),
                remote: self.remote.clone(),
            }
        } else {
            self.phase = PushPhase::Ended;
            PushStep::Missing { branch: self.branches[i].clone() }
        }
    }

    /// Learns whether the push succeeded; then moves to the next branch.
    pub fn on_pushed(&mut self, succeeded: bool) -> (step: PushStep)
        requires
            old(self).inv(),
            old(self)@.phase == PushPhase::AwaitPush,
        ensures
            final(self).inv(),
            final(self)@.branches == old(self)@.branches,
            final(self)@.remote == old(self)@.remote,
            !succeeded ==> final(self)@.phase == PushPhase::Ended && (step matches PushStep::Failed { branch }
                && branch@ == old(self)@.branches[old(self)@.index as int]),
            succeeded ==> final(self)@.index == old(self)@.index + 1,
            succeeded && old(self)@.index + 1 < old(self)@.branches.len() ==> final(self)@.phase
                == PushPhase::AwaitExists && is_check_exists(step, final(self)@),
            succeeded && old(self)@.index + 1 == old(self)@.branches.len() ==> final(self)@.phase
                == PushPhase::Ended && (step matches PushStep::Done { count } && count
                == old(self)@.branches.len()),
    {
        let i = self.index;
        if !succeeded {
            self.phase = PushPhase::Ended;
            return PushStep::Failed { branch: self.branches[i].clone() };
        }
        self.index = i + 1;
        if i + 1 < self.branches.len() {
            self.phase = PushPhase::AwaitExists;
            PushStep::CheckExists {
                index: i + 1,
                count: self.branches.len(),
                branch: self.branches[i + 1].clone(),
            }
        } else {
            self.phase = PushPhase::Ended;
            PushStep::Done { count: self.branches.len() }
        }
    }
}

/// Starts `sd push`: every branch of the stack, bottom to top, is checked to
/// exist locally and then force-pushed (with lease) to `remote`.
pub fn cmd_push(branches: &Vec<String>, remote: &str) -> (r: (PushRun, PushStep))
    ensures
        r.0.inv(),
        r.0@.branches == views(branches@),
        r.0@.remote == remote@,
        r.0@.index == 0,
        branches@.len() == 0 ==> r.0@.phase == PushPhase::Ended && r.1 is NothingToPush,
        branches@.len() > 0 ==> r.0@.phase == PushPhase::AwaitExists && is_check_exists(r.1, r.0@),
{
    let run = PushRun {
        branches: branches.clone(),
        remote: remote.to_owned(),
        index: 0,
        phase: if branches.len() == 0 {
            PushPhase::Ended
        } else {
            PushPhase::AwaitExists
        },
    };
    proof {
        assert(run.branches@ == branches@);
    }
    if branches.len() == 0 {
        (run, PushStep::NothingToPush)
    } else {
        let step = PushStep::CheckExists { index: 0, count: branches.len(), branch: branches[0].clone() };
        (run, step)
    }
}

/// The state of a branch's pull request, as `gh pr view` reports it.
#[derive(Clone, Copy, Debug, PartialEq, Eq, Structural)]
pub enum PrState {
    Merged,
    Closed,
    Open,
    NoPr,
}

/// What `str::to_uppercase` returns for `s`.
pub uninterp spec fn spec_to_uppercase(s: Seq<char>) -> Seq<char>;

pub open spec fn is_ascii_text(s: Seq<char>) -> bool {
    forall|i: int| 0 <= i < s.len() ==> (#[trigger] s[i] as u32) < 128
}

/// The ASCII uppercase of an ASCII character.
pub open spec fn ascii_upper(c: char) -> char {
    if 'a' <= c <= 'z' {
        ((c as u32) - 32) as char
    } else {
        c
    }
}

/// Calls `str::to_uppercase`. Its result is named by `spec_to_uppercase`;
/// for ASCII text it is the text with each lowercase letter made uppercase,
/// as std documents. Beyond ASCII, which mappings Unicode makes is not stated.
#[verifier::external_body]
fn to_uppercase(s: &str) -> (r: String)
    ensures
        r@ == spec_to_uppercase(s@),
        is_ascii_text(s@) ==> r@ == s@.map_values(|c: char| ascii_upper(c)),
{
    s.to_uppercase()
}

/// What `str::to_uppercase` gives: for ASCII text, each lowercase letter
/// made uppercase; beyond ASCII, the named result.
pub open spec fn upper_text(s: Seq<char>) -> Seq<char> {
    if is_ascii_text(s) {
        s.map_values(|c: char| ascii_upper(c))
    } else {
        spec_to_uppercase(s)
    }
}

/// The pull-request state that `gh pr view <branch> --json state --jq .state`
/// reported: `None` when it failed for another reason than the branch
/// having no pull request.
pub open spec fn spec_pr_state(succeeded: bool, stdout: Seq<char>, stderr: Seq<char>) -> Option<PrState> {
    if !succeeded {
        if has_substring(stderr, "no pull requests found"@) {
            Some(PrState::NoPr)
        } else {
            None
        }
    } else {
        let st = upper_text(trim(stdout));
        if st == "MERGED"@ {
            Some(PrState::Merged)
        } else if st == "CLOSED"@ {
            Some(PrState::Closed)
        } else {
            Some(PrState::Open)
        }
    }
}

/// Law of `sync`: the state `gh` printed is read from its trimmed text only;
/// surrounding whitespace and the final newline do not change it.
pub proof fn law_pr_state_reads_trimmed_text(s1: Seq<char>, s2: Seq<char>, stderr: Seq<char>)
    requires
        trim(s1) == trim(s2),
    ensures
        spec_pr_state(true, s1, stderr) == spec_pr_state(true, s2, stderr),
{
}

/// Law of `sync`: for ASCII output, the state is merged or closed exactly
/// when the trimmed text is `MERGED` or `CLOSED` in any letter case, and
/// open otherwise.
pub proof fn law_pr_state_names(stdout: Seq<char>, stderr: Seq<char>)
    requires
        is_ascii_text(trim(stdout)),
    ensures
        ({
            let u = trim(stdout).map_values(|c: char| ascii_upper(c));
            &&& (spec_pr_state(true, stdout, stderr) == Some(PrState::Merged)) <==> u == "MERGED"@
            &&& (spec_pr_state(true, stdout, stderr) == Some(PrState::Closed)) <==> u == "CLOSED"@
            &&& (spec_pr_state(true, stdout, stderr) == Some(PrState::Open)) <==> (u != "MERGED"@
                && u != "CLOSED"@)
        }),
{
    reveal_strlit("MERGED");
    reveal_strlit("CLOSED");
    assert("MERGED"@[0] != "CLOSED"@[0]);
}

pub fn pr_state(succeeded: bool, stdout: &str, stderr: &str) -> (r: Option<PrState>)
    ensures
        r == spec_pr_state(succeeded, stdout@, stderr@),
{
    if !succeeded {
        if contains_str(stderr, "no pull requests found") {
            Some(PrState::NoPr)
        } else {
            None
        }
    } else {
        let t = trim_str(stdout);
        let st = to_uppercase(t.as_str());
        let merged = "MERGED".to_owned();
        let closed = "CLOSED".to_owned();
        if st == merged {
            Some(PrState::Merged)
        } else if st == closed {
            Some(PrState::Closed)
        } else {
            Some(PrState::Open)
        }
    }
}

/// What `sd sync` does once every branch's pull request state is known.
pub enum SyncPlan {
    /// Some pull requests were closed without merging: stop, naming them.
    Abort { closed: Vec<String> },
    /// No pull request was merged: nothing to do.
    NothingToSync,
    /// Drop the merged branches (in stack order), then rebase the rest.
    Remove { merged: Vec<String> },
}

/// The branches whose state is `s`, in stack order.
pub open spec fn with_state(branches: Seq<Seq<char>>, states: Seq<PrState>, s: PrState) -> Seq<Seq<char>>
    decreases branches.len(),
{
    if branches.len() == 0 || states.len() == 0 {
        Seq::empty()
    } else {
        let rest = with_state(branches.drop_last(), states.drop_last(), s);
        if states.last() == s {
            rest.push(branches.last())
        } else {
            rest
        }
    }
}

/// Filtering by state keeps at most as many branches as there were.
pub proof fn lemma_with_state_len(branches: Seq<Seq<char>>, states: Seq<PrState>, s: PrState)
    ensures
        with_state(branches, states, s).len() <= branches.len(),
    decreases branches.len(),
{
    if branches.len() > 0 && states.len() > 0 {
        lemma_with_state_len(branches.drop_last(), states.drop_last(), s);
    }
}

/// Law of `sync`: the branches picked for a state are exactly the branches
/// whose pull request has that state: each of them is picked, and nothing
/// else is.
pub proof fn law_with_state_picks_exactly(branches: Seq<Seq<char>>, states: Seq<PrState>, s: PrState)
    requires
        branches.len() == states.len(),
    ensures
        forall|k: int| 0 <= k < branches.len() && states[k] == s ==> with_state(branches, states, s).contains(
            #[trigger] branches[k],
        ),
        forall|y: Seq<char>| #[trigger] with_state(branches, states, s).contains(y) ==> exists|k: int|
            0 <= k < branches.len() && branches[k] == y && states[k] == s,
    decreases branches.len(),
{
    if branches.len() > 0 {
        let b0 = branches.drop_last();
        let s0 = states.drop_last();
        law_with_state_picks_exactly(b0, s0, s);
        let rest = with_state(b0, s0, s);
        let n = branches.len() - 1;
        assert forall|k: int| 0 <= k < branches.len() && states[k] == s implies with_state(branches, states, s).contains(
            #[trigger] branches[k],
        ) by {
            if k < n {
                assert(b0[k] == branches[k] && s0[k] == states[k]);
                assert(rest.contains(b0[k]));
                let j = choose|j: int| 0 <= j < rest.len() && rest[j] == b0[k];
                assert(with_state(branches, states, s)[j] == rest[j]);
            } else {
                assert(with_state(branches, states, s) == rest.push(branches[n]));
                assert(with_state(branches, states, s)[rest.len() as int] == branches[k]);
            }
        }
        assert forall|y: Seq<char>| #[trigger] with_state(branches, states, s).contains(y) implies exists|k: int|
            0 <= k < branches.len() && branches[k] == y && states[k] == s by {
            let w = with_state(branches, states, s);
            let j = choose|j: int| 0 <= j < w.len() && w[j] == y;
            if j < rest.len() {
                assert(w[j] == rest[j]);
                assert(rest.contains(y));
                let k = choose|k: int| 0 <= k < b0.len() && b0[k] == y && s0[k] == s;
                assert(branches[k] == y && states[k] == s);
            } else {
                assert(states[n] == s && branches[n] == y);
            }
        }
    }
}

proof fn lemma_with_state_step(vb: Seq<Seq<char>>, st: Seq<PrState>, s: PrState, i: int)
    requires
        0 <= i < vb.len(),
        vb.len() == st.len(),
    ensures
        with_state(vb.take(i + 1), st.take(i + 1), s) == if st[i] == s {
            with_state(vb.take(i), st.take(i), s).push(vb[i])
        } else {
            with_state(vb.take(i), st.take(i), s)
        },
{
    assert(vb.take(i + 1).drop_last() =~= vb.take(i));
    assert(st.take(i + 1).drop_last() =~= st.take(i));
    assert(vb.take(i + 1).last() == vb[i]);
    assert(st.take(i + 1).last() == st[i]);
}

fn collect_with_state(branches: &Vec<String>, states: &Vec<PrState>, s: PrState) -> (r: Vec<String>)
    requires
        branches@.len() == states@.len(),
    ensures
        views(r@) == with_state(views(branches@), states@, s),
{
    let mut r: Vec<String> = Vec::new();
    let mut i: usize = 0;
    while i < branches.len()
        invariant
            branches@.len() == states@.len(),
            0 <= i <= branches@.len(),
            views(r@) == with_state(views(branches@).take(i as int), states@.take(i as int), s),
        decreases branches@.len() - i,
    {
        proof {
            lemma_with_state_step(views(branches@), states@, s, i as int);
        }
        if states[i] == s {
            let ghost before = r@;
            r.push(branches[i].clone());
            proof {
                assert(views(r@) =~= views(before).push(branches@[i as int]@));
            }
        }
        i += 1;
    }
    proof {
        assert(views(branches@).take(branches@.len() as int) =~= views(branches@));
        assert(states@.take(states@.len() as int) =~= states@);
    }
    r
}

/// Decides `sd sync` from each branch's pull-request state (same order as
/// the branches): closed-but-unmerged pull requests stop it; otherwise the
/// merged branches are removed, if there are any.
pub fn sync_plan(branches: &Vec<String>, states: &Vec<PrState>) -> (p: SyncPlan)
    requires
        branches@.len() == states@.len(),
    ensures
        with_state(views(branches@), states@, PrState::Closed).len() > 0 ==> (p matches SyncPlan::Abort { closed }
            && views(closed@) == with_state(views(branches@), states@, PrState::Closed)),
        with_state(views(branches@), states@, PrState::Closed).len() == 0 && with_state(views(branches@), states@, PrState::Merged).len() == 0
            ==> p is NothingToSync,
        with_state(views(branches@), states@, PrState::Closed).len() == 0 && with_state(views(branches@), states@, PrState::Merged).len() > 0
            ==> (p matches SyncPlan::Remove { merged }
            && views(merged@) == with_state(views(branches@), states@, PrState::Merged)),
{
    let closed = collect_with_state(branches, states, PrState::Closed);
    if closed.len() > 0 {
        return SyncPlan::Abort { closed };
    }
    let merged = collect_with_state(branches, states, PrState::Merged);
    if merged.len() == 0 {
        SyncPlan::NothingToSync
    } else {
        SyncPlan::Remove { merged }
    }
}

/// How a branch is marked in the tree views.
#[derive(Clone, Copy, Debug, PartialEq, Eq, Structural)]
pub enum BranchTag {
    Current,
    Missing,
    Normal,
}

/// The checked-out branch is marked current; otherwise a branch missing
/// locally is marked missing.
pub fn branch_tag(is_current: bool, exists: bool) -> (t: BranchTag)
    ensures
        is_current ==> t == BranchTag::Current,
        !is_current && !exists ==> t == BranchTag::Missing,
        !is_current && exists ==> t == BranchTag::Normal,
{
    if is_current {
        BranchTag::Current
    } else if !exists {
        BranchTag::Missing
    } else {
        BranchTag::Normal
    }
}

/// Where a `--scan` of the ancestry starts.
#[derive(Clone, Copy, Debug, PartialEq, Eq, Structural)]
pub enum ScanStart {
    /// HEAD is detached: a branch must be checked out first.
    Detached,
    /// HEAD is the base: there is nothing to scan.
    AtBase,
    /// Walk the commits from HEAD back to the base.
    Walk,
}

/// Decides where a scan starts from what `git rev-parse --abbrev-ref HEAD` printed.
pub fn scan_start(head: &str, base: &str) -> (r: ScanStart)
    ensures
        head@ == "HEAD"@ ==> r == ScanStart::Detached,
        head@ != "HEAD"@ && head@ == base@ ==> r == ScanStart::AtBase,
        head@ != "HEAD"@ && head@ != base@ ==> r == ScanStart::Walk,
{
    let h = head.to_owned();
    if h == "HEAD".to_owned() {
        ScanStart::Detached
    } else if h == base.to_owned() {
        ScanStart::AtBase
    } else {
        ScanStart::Walk
    }
}

/// `t` split at its first space (what `str::split_once(' ')` gives).
pub open spec fn split_once_space(t: Seq<char>) -> Option<(Seq<char>, Seq<char>)> {
    if t.contains(' ') {
        let p = choose|p: int| 0 <= p < t.len() && t[p] == ' ' && forall|q: int| 0 <= q < p ==> t[q] != ' ';
        Some((t.take(p), t.skip(p + 1)))
    } else {
        None
    }
}

pub open spec fn pair_of() -> spec_fn(Seq<char>) -> Option<(Seq<char>, Seq<char>)> {
    |t: Seq<char>| split_once_space(t)
}

/// The `(sha, branch)` pairs that `git branch --format='%(objectname) %(refname:short)'` listed.
pub open spec fn branch_pairs(list: Seq<char>) -> Seq<(Seq<char>, Seq<char>)> {
    trim_all(lines(list)).filter_map(pair_of())
}

/// The branch a SHA maps to; when several do, the last one listed (as a map
/// built from the list keeps the last entry of each key).
pub open spec fn lookup(pairs: Seq<(Seq<char>, Seq<char>)>, sha: Seq<char>) -> Option<Seq<char>>
    decreases pairs.len(),
{
    if pairs.len() == 0 {
        None
    } else if pairs.last().0 == sha {
        Some(pairs.last().1)
    } else {
        lookup(pairs.drop_last(), sha)
    }
}

pub open spec fn lookup_in(pairs: Seq<(Seq<char>, Seq<char>)>) -> spec_fn(Seq<char>) -> Option<Seq<char>> {
    |sha: Seq<char>| lookup(pairs, sha)
}

/// The branches found by walking the log (newest first) from HEAD back to the
/// base: each commit that is the tip of a branch other than the base names
/// it; the result is bottom to top.
pub open spec fn spec_scan(base: Seq<char>, branch_list: Seq<char>, log: Seq<char>) -> Seq<Seq<char>> {
    trim_all(lines(log)).filter_map(lookup_in(branch_pairs(branch_list))).filter(other_than(base)).reverse()
}

pub open spec fn pair_views(v: Seq<(String, String)>) -> Seq<(Seq<char>, Seq<char>)> {
    v.map_values(|p: (String, String)| (p.0@, p.1@))
}

proof fn lemma_filter_map_push<A, B>(s: Seq<A>, x: A, f: spec_fn(A) -> Option<B>)
    ensures
        s.push(x).filter_map(f) == (match f(x) {
            Some(y) => s.filter_map(f).push(y),
            None => s.filter_map(f),
        }),
{
    assert(s.push(x).drop_last() =~= s);
    match f(x) {
        Some(y) => {
            assert(s.filter_map(f) + seq![y] =~= s.filter_map(f).push(y));
        },
        None => {},
    }
}

fn split_first_space(cs: &[char], a: usize, b: usize) -> (r: Option<usize>)
    requires
        a <= b <= cs@.len(),
    ensures
        split_once_space(cs@.subrange(a as int, b as int)) matches Some(pr) ==> (r matches Some(p)
            && a <= p < b && pr.0 == cs@.subrange(a as int, p as int) && pr.1 == cs@.subrange(p + 1, b as int)),
        split_once_space(cs@.subrange(a as int, b as int)) is None ==> r is None,
{
    let ghost t = cs@.subrange(a as int, b as int);
    let mut i = a;
    while i < b
        invariant
            a <= i <= b <= cs@.len(),
            t == cs@.subrange(a as int, b as int),
            forall|q: int| 0 <= q < i - a ==> t[q] != ' ',
        decreases b - i,
    {
        if cs[i] == ' ' {
            proof {
                let p0 = (i - a) as int;
                assert(t[p0] == ' ');
                assert(t.contains(' '));
                let p = choose|p: int| 0 <= p < t.len() && t[p] == ' ' && forall|q: int| 0 <= q < p ==> t[q] != ' ';
                assert(p == p0) by {
                    if p < p0 {
                        assert(t[p] != ' ');
                    } else if p > p0 {
                        assert(t[p0] != ' ');
                    }
                }
                assert(t.take(p0) =~= cs@.subrange(a as int, i as int));
                assert(t.skip(p0 + 1) =~= cs@.subrange(i + 1, b as int));
            }
            return Some(i);
        }
        i += 1;
    }
    proof {
        if t.contains(' ') {
            let j = choose|j: int| 0 <= j < t.len() && t[j] == ' ';
            assert(t[j] != ' ');
        }
    }
    None
}

fn lookup_pairs(pairs: &Vec<(String, String)>, sha: &String) -> (r: Option<String>)
    ensures
        lookup(pair_views(pairs@), sha@) matches Some(n) ==> (r matches Some(s) && s@ == n),
        lookup(pair_views(pairs@), sha@) is None ==> r is None,
{
    let mut i = pairs.len();
    while i > 0
        invariant
            0 <= i <= pairs@.len(),
            lookup(pair_views(pairs@), sha@) == lookup(pair_views(pairs@).take(i as int), sha@),
        decreases i,
    {
        let ghost pv = pair_views(pairs@).take(i as int);
        proof {
            assert(pv.drop_last() =~= pair_views(pairs@).take(i - 1));
            assert(pv.last() == (pairs@[i - 1].0@, pairs@[i - 1].1@));
        }
        if pairs[i - 1].0 == *sha {
            return Some(pairs[i - 1].1.clone());
        }
        i -= 1;
    }
    None
}

/// The branches a `--scan` finds, bottom to top, from the branch list and
/// the log of the commits between the base and HEAD (newest first).
#[verifier::rlimit(60)]
pub fn scan_branches(base: &str, branch_list: &str, log: &str) -> (r: Vec<String>)
    ensures
        views(r@) == spec_scan(base@, branch_list@, log@),
{
    // The (sha, branch) pairs, in listing order.
    let cs = chars_of(branch_list);
    let rs = line_ranges(&cs);
    let ghost ls = lines(cs@);
    let mut pairs: Vec<(String, String)> = Vec::new();
    let mut k: usize = 0;
    proof {
        assert(trim_all(ls.take(0)) =~= Seq::<Seq<char>>::empty());
    }
    while k < rs.len()
        invariant
            cs@ == branch_list@,
            ls == lines(cs@),
            ranges_within(rs@, cs@.len()),
            rs@.len() == ls.len(),
            forall|j: int| 0 <= j < rs@.len() ==> range_text(cs@, #[trigger] rs@[j]) == ls[j],
            0 <= k <= rs@.len(),
            pair_views(pairs@) == trim_all(ls.take(k as int)).filter_map(pair_of()),
        decreases rs@.len() - k,
    {
        let (lo, hi) = rs[k];
        let (a, b) = trim_range(&cs, lo, hi);
        proof {
            assert(cs@.subrange(lo as int, hi as int) == ls[k as int]);
            assert(trim_all(ls.take(k + 1)) =~= trim_all(ls.take(k as int)).push(trim(ls[k as int])));
            lemma_filter_map_push(trim_all(ls.take(k as int)), trim(ls[k as int]), pair_of());
        }
        match split_first_space(&cs, a, b) {
            Some(p) => {
                let sha = string_of(&cs, a, p);
                let name = string_of(&cs, p + 1, b);
                let ghost before = pairs@;
                pairs.push((sha, name));
                proof {
                    assert(pair_views(pairs@) =~= pair_views(before).push((cs@.subrange(a as int, p as int), cs@.subrange(p + 1, b as int))));
                }
            },
            None => {},
        }
        k += 1;
    }
    proof {
        assert(ls.take(rs@.len() as int) =~= ls);
    }
    // Walk the log.
    let ghost pv = pair_views(pairs@);
    let lc = chars_of(log);
    let lr = line_ranges(&lc);
    let ghost ll = lines(lc@);
    let base_s = base.to_owned();
    let mut found: Vec<String> = Vec::new();
    let mut m: usize = 0;
    proof {
        assert(trim_all(ll.take(0)) =~= Seq::<Seq<char>>::empty());
        reveal(Seq::filter);
    }
    while m < lr.len()
        invariant
            lc@ == log@,
            ll == lines(lc@),
            base_s@ == base@,
            pv == pair_views(pairs@),
            pv == branch_pairs(branch_list@),
            ranges_within(lr@, lc@.len()),
            lr@.len() == ll.len(),
            forall|j: int| 0 <= j < lr@.len() ==> range_text(lc@, #[trigger] lr@[j]) == ll[j],
            0 <= m <= lr@.len(),
            views(found@) == trim_all(ll.take(m as int)).filter_map(lookup_in(pv)).filter(other_than(base@)),
        decreases lr@.len() - m,
    {
        let (lo, hi) = lr[m];
        let (a, b) = trim_range(&lc, lo, hi);
        let sha = string_of(&lc, a, b);
        let ghost t = trim(ll[m as int]);
        proof {
            assert(lc@.subrange(lo as int, hi as int) == ll[m as int]);
            assert(trim_all(ll.take(m + 1)) =~= trim_all(ll.take(m as int)).push(t));
            lemma_filter_map_push(trim_all(ll.take(m as int)), t, lookup_in(pv));
        }
        let ghost fm = trim_all(ll.take(m as int)).filter_map(lookup_in(pv));
        match lookup_pairs(&pairs, &sha) {
            Some(name) => {
                proof {
                    fm.lemma_filter_push(name@, other_than(base@));
                }
                if name != base_s {
                    let ghost before = found@;
                    found.push(name);
                    proof {
                        assert(views(found@) =~= views(before).push(found@.last()@));
                    }
                }
            },
            None => {},
        }
        m += 1;
    }
    proof {
        assert(ll.take(lr@.len() as int) =~= ll);
    }
    // Newest first becomes bottom to top.
    let mut r: Vec<String> = Vec::new();
    let mut i = found.len();
    while i > 0
        invariant
            0 <= i <= found@.len(),
            views(r@) == views(found@).reverse().take(found@.len() - i),
        decreases i,
    {
        i -= 1;
        let ghost before = r@;
        r.push(found[i].clone());
        proof {
            assert(views(r@) =~= views(before).push(found@[i as int]@));
            assert(views(found@).reverse().take(found@.len() - i) =~= views(found@).reverse().take(found@.len() - i - 1).push(found@[i as int]@));
        }
    }
    proof {
        assert(views(found@).reverse().take(found@.len() as int) =~= views(found@).reverse());
    }
    r
}

/// What a line typed at the checkout prompt selects.
#[derive(Clone, Copy, Debug, PartialEq, Eq, Structural)]
pub enum Choice {
    /// The branch at this position (0 is the base).
    Pick { index: usize },
    /// A number outside `1..=count`.
    OutOfRange,
    /// Not a number.
    Invalid,
}

/// Reads the number typed at the checkout prompt: the trimmed line as a
/// number from 1 to `count`, which selects the branch at that position.
pub fn checkout_choice(input: &str, count: usize) -> (c: Choice)
    ensures
        match spec_parse_uint(trim(input@), usize::MAX as nat) {
            Some(n) => if 1 <= n <= count {
                c == (Choice::Pick { index: (n - 1) as usize })
            } else {
                c == Choice::OutOfRange
            },
            None => c == Choice::Invalid,
        },
{
    let t = trim_str(input);
    match parse_usize(t.as_str()) {
        Some(n) => if 1 <= n && n <= count {
            Choice::Pick { index: n - 1 }
        } else {
            Choice::OutOfRange
        },
        None => Choice::Invalid,
    }
}

} // verus!

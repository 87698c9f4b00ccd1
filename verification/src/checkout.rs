//! `checkout`: list the stack's branches, numbered bottom first, and check
//! out the one whose number is typed.
use vstd::prelude::*;
use crate::commands::{branch_tag, checkout_choice, BranchTag, Choice};
use crate::config::Stack;
use crate::status::tag_for;
use crate::text::{decimal, decimal_string, push_str, spec_parse_uint, trim, views};

verus! {

/// The mark after a branch's name in the menu.
pub open spec fn spec_mark(tag: BranchTag) -> Seq<char> {
    match tag {
        BranchTag::Current => " (current)"@,
        BranchTag::Missing => " (missing)"@,
        BranchTag::Normal => Seq::empty(),
    }
}

/// Menu line `i` (from 0): the 1-based number, the name and its mark.
pub open spec fn menu_line(i: nat, name: Seq<char>, tag: BranchTag) -> Seq<char> {
    "  "@ + decimal(i + 1) + ". "@ + name + spec_mark(tag)
}

/// What the caller of `CheckoutRun` does next.
pub enum CheckoutStep {
    /// Read the checked-out branch (`None` if that fails).
    ReadHead,
    /// Does `reference` exist locally?
    CheckExists { reference: String },
    /// Print these menu lines, then prompt for a number from 1 to `count`.
    Menu { lines: Vec<String>, count: usize },
    /// Stop: reading the input failed (exit 1).
    ReadFailed,
    /// Say the number must lie between 1 and `count`, and prompt again.
    OutOfRange { count: usize },
    /// Say the input is not a number, and prompt again.
    NotANumber { count: usize },
    /// Does the chosen branch exist locally?
    CheckTarget { branch: String },
    /// Stop: it does not (exit 1).
    Missing { branch: String },
    /// `git checkout <branch>`.
    Checkout { branch: String },
    /// Stop: the branch is checked out.
    Done { branch: String },
    /// Stop: the checkout failed (exit 1).
    Failed { branch: String },
}

#[derive(Clone, Copy, Debug, PartialEq, Eq, Structural)]
pub enum CheckoutPhase {
    AwaitHead,
    AwaitExists,
    AwaitInput,
    AwaitTarget,
    AwaitCheckout,
    Ended,
}

pub struct CheckoutRun {
    refs: Vec<String>,
    current: Option<String>,
    lines: Vec<String>,
    chosen: usize,
    phase: CheckoutPhase,
}

pub struct CheckoutView {
    pub refs: Seq<Seq<char>>,
    pub current: Option<Seq<char>>,
    pub lines: Seq<Seq<char>>,
    pub chosen: nat,
    pub phase: CheckoutPhase,
}

impl View for CheckoutRun {
    type V = CheckoutView;

    closed spec fn view(&self) -> CheckoutView {
        CheckoutView {
            refs: views(self.refs@),
            current: match self.current {
                Some(c) => Some(c@),
                None => None,
            },
            lines: views(self.lines@),
            chosen: self.chosen as nat,
            phase: self.phase,
        }
    }
}

/// Starts `checkout` on `stack`.
pub fn cmd_checkout(stack: &Stack) -> (r: (CheckoutRun, CheckoutStep))
    requires
        stack.branches@.len() + 1 < usize::MAX,
    ensures
        r.0.inv(),
        r.0@.refs == seq![stack.base@] + views(stack.branches@),
        r.0@.lines.len() == 0,
        r.0@.phase == CheckoutPhase::AwaitHead,
        r.1 is ReadHead,
{
    let mut refs: Vec<String> = Vec::new();
    refs.push(stack.base.clone());
    let mut i: usize = 0;
    while i < stack.branches.len()
        invariant
            0 <= i <= stack.branches@.len(),
            views(refs@) == seq![stack.base@] + views(stack.branches@).take(i as int),
        decreases stack.branches@.len() - i,
    {
        let ghost before = refs@;
        refs.push(stack.branches[i].clone());
        proof {
            assert(views(refs@) =~= views(before).push(stack.branches@[i as int]@));
            assert(seq![stack.base@] + views(stack.branches@).take(i + 1) =~= (seq![stack.base@]
                + views(stack.branches@).take(i as int)).push(stack.branches@[i as int]@));
        }
        i += 1;
    }
    assert(views(stack.branches@).take(i as int) == views(stack.branches@));
    let run = CheckoutRun {
        refs,
        current: None,
        lines: Vec::new(),
        chosen: 0,
        phase: CheckoutPhase::AwaitHead,
    };
    assert(run.lines@.len() == 0);
    (run, CheckoutStep::ReadHead)
}

impl CheckoutRun {
    pub closed spec fn inv(&self) -> bool {
        &&& 0 < self.refs@.len() < usize::MAX
        &&& self.lines@.len() <= self.refs@.len()
        &&& self.phase == CheckoutPhase::AwaitHead ==> self.lines@.len() == 0
        &&& self.phase == CheckoutPhase::AwaitExists ==> self.lines@.len() < self.refs@.len()
        &&& (self.phase == CheckoutPhase::AwaitTarget || self.phase == CheckoutPhase::AwaitCheckout)
            ==> self.chosen < self.refs@.len()
    }

    /// Learns the checked-out branch.
    pub fn on_head(&mut self, head: Option<&str>) -> (step: CheckoutStep)
        requires
            old(self).inv(),
            old(self)@.phase == CheckoutPhase::AwaitHead,
        ensures
            final(self).inv(),
            final(self)@ == (CheckoutView {
                current: match head {
                    Some(h) => Some(h@),
                    None => None,
                },
                phase: CheckoutPhase::AwaitExists,
                ..old(self)@
            }),
            step matches CheckoutStep::CheckExists { reference } && reference@ == old(self)@.refs[0],
    {
        self.current = match head {
            Some(h) => Some(h.to_owned()),
            None => None,
        };
        self.phase = CheckoutPhase::AwaitExists;
        CheckoutStep::CheckExists { reference: self.refs[0].clone() }
    }

    /// Learns whether the next listed branch exists; its menu line is
    /// added, and once every branch has one the menu is shown.
    pub fn on_exists(&mut self, exists: bool) -> (step: CheckoutStep)
        requires
            old(self).inv(),
            old(self)@.phase == CheckoutPhase::AwaitExists,
        ensures
            final(self).inv(),
            ({
                let v = old(self)@;
                let i = v.lines.len();
                let lines = v.lines.push(menu_line(i, v.refs[i as int], tag_for(v.current, v.refs[i as int], exists)));
                &&& final(self)@.refs == v.refs
                &&& final(self)@.current == v.current
                &&& final(self)@.lines == lines
                &&& i + 1 < v.refs.len() ==> final(self)@.phase == CheckoutPhase::AwaitExists
                    && (step matches CheckoutStep::CheckExists { reference } && reference@ == v.refs[i + 1int])
                &&& i + 1 == v.refs.len() ==> final(self)@.phase == CheckoutPhase::AwaitInput
                    && (step matches CheckoutStep::Menu { lines: l, count } && views(l@) == lines
                    && count == v.refs.len())
            }),
    {
        let i = self.lines.len();
        let reference = self.refs[i].clone();
        let is_current = match &self.current {
            Some(c) => *c == reference,
            None => false,
        };
        let tag = branch_tag(is_current, exists);
        let number = decimal_string((i + 1) as u64);
        let mut line = String::new();
        push_str(&mut line, "  ");
        push_str(&mut line, number.as_str());
        push_str(&mut line, ". ");
        push_str(&mut line, reference.as_str());
        match tag {
            BranchTag::Current => push_str(&mut line, " (current)"),
            BranchTag::Missing => push_str(&mut line, " (missing)"),
            BranchTag::Normal => {},
        }
        let ghost before = self.lines@;
        self.lines.push(line);
        proof {
            assert(views(self.lines@) =~= views(before).push(line@));
        }
        if i + 1 < self.refs.len() {
            CheckoutStep::CheckExists { reference: self.refs[i + 1].clone() }
        } else {
            self.phase = CheckoutPhase::AwaitInput;
            CheckoutStep::Menu { lines: self.lines.clone(), count: self.refs.len() }
        }
    }

    /// Learns the line typed at the prompt (`None` if reading failed).
    pub fn on_input(&mut self, input: Option<&str>) -> (step: CheckoutStep)
        requires
            old(self).inv(),
            old(self)@.phase == CheckoutPhase::AwaitInput,
        ensures
            final(self).inv(),
            final(self)@.refs == old(self)@.refs,
            input is None ==> final(self)@.phase == CheckoutPhase::Ended && step is ReadFailed,
            input matches Some(t) ==> match spec_parse_uint(trim(t@), usize::MAX as nat) {
                Some(n) => if 1 <= n <= old(self)@.refs.len() {
                    final(self)@.phase == CheckoutPhase::AwaitTarget && final(self)@.chosen == n - 1
                        && (step matches CheckoutStep::CheckTarget { branch } && branch@ == old(self)@.refs[n - 1int])
                } else {
                    final(self)@.phase == CheckoutPhase::AwaitInput
                        && (step matches CheckoutStep::OutOfRange { count } && count == old(self)@.refs.len())
                },
                None => final(self)@.phase == CheckoutPhase::AwaitInput
                    && (step matches CheckoutStep::NotANumber { count } && count == old(self)@.refs.len()),
            },
    {
        let count = self.refs.len();
        match input {
            None => {
                self.phase = CheckoutPhase::Ended;
                CheckoutStep::ReadFailed
            },
            Some(t) => match checkout_choice(t, count) {
                Choice::Pick { index } => {
                    self.chosen = index;
                    self.phase = CheckoutPhase::AwaitTarget;
                    CheckoutStep::CheckTarget { branch: self.refs[index].clone() }
                },
                Choice::OutOfRange => CheckoutStep::OutOfRange { count },
                Choice::Invalid => CheckoutStep::NotANumber { count },
            },
        }
    }

    /// Learns whether the chosen branch exists locally.
    pub fn on_target(&mut self, exists: bool) -> (step: CheckoutStep)
        requires
            old(self).inv(),
            old(self)@.phase == CheckoutPhase::AwaitTarget,
        ensures
            final(self).inv(),
            final(self)@.chosen == old(self)@.chosen,
            !exists ==> final(self)@.phase == CheckoutPhase::Ended && (step matches CheckoutStep::Missing { branch }
                && branch@ == old(self)@.refs[old(self)@.chosen as int]),
            exists ==> final(self)@.phase == CheckoutPhase::AwaitCheckout && (step matches CheckoutStep::Checkout { branch }
                && branch@ == old(self)@.refs[old(self)@.chosen as int]),
    {
        let branch = self.refs[self.chosen].clone();
        if exists {
            self.phase = CheckoutPhase::AwaitCheckout;
            CheckoutStep::Checkout { branch }
        } else {
            self.phase = CheckoutPhase::Ended;
            CheckoutStep::Missing { branch }
        }
    }

    /// Learns whether the checkout succeeded.
    pub fn on_checked_out(&mut self, succeeded: bool) -> (step: CheckoutStep)
        requires
            old(self).inv(),
            old(self)@.phase == CheckoutPhase::AwaitCheckout,
        ensures
            final(self).inv(),
            final(self)@.phase == CheckoutPhase::Ended,
            succeeded ==> (step matches CheckoutStep::Done { branch } && branch@ == old(self)@.refs[old(self)@.chosen as int]),
            !succeeded ==> (step matches CheckoutStep::Failed { branch } && branch@ == old(self)@.refs[old(self)@.chosen as int]),
    {
        let branch = self.refs[self.chosen].clone();
        self.phase = CheckoutPhase::Ended;
        if succeeded {
            CheckoutStep::Done { branch }
        } else {
            CheckoutStep::Failed { branch }
        }
    }
}

} // verus!

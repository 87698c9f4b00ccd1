//! `show` prints the stack's chain on one line; `status` draws the stack's
//! tree, each branch with its tip commit, how far it is ahead of (or behind)
//! its parent, and how it stands against the remote.
use vstd::prelude::*;
use crate::commands::{branch_tag, short, BranchTag};
use crate::config::Stack;
use crate::fetch::{remote_ref, spec_remote_ref};
use crate::state::{join_strings, joined};
use crate::output::{BranchRow, DIM, GREEN, RESET, YELLOW};
use crate::text::{count_at, decimal, decimal_string, parse_counts, push_str, views, words};
use vstd::utf8::{decode_utf8, encode_utf8, is_char_boundary};

verus! {

/// The detail line of a branch that does not exist locally.
pub open spec fn missing_line() -> Seq<char> {
    DIM@ + "missing locally"@ + RESET@
}

/// The first detail line: the short SHA of the tip and its subject.
pub open spec fn commit_line(short_sha: Seq<char>, subject: Seq<char>) -> Seq<char> {
    DIM@ + short_sha + RESET@ + "  "@ + subject
}

/// How many bytes of `sha` the abbreviation keeps: eight, or all of a shorter one.
pub open spec fn short_bytes(sha: Seq<char>) -> int {
    let n = encode_utf8(sha).len() as int;
    if n < 8 {
        n
    } else {
        8
    }
}

/// Whether the abbreviation cuts `sha` at a character boundary (true of
/// every SHA git prints, which is ASCII).
pub open spec fn cuts_cleanly(sha: Seq<char>) -> bool {
    is_char_boundary(encode_utf8(sha), short_bytes(sha))
}

/// The abbreviated SHA shown for `sha`: its first eight bytes.
pub open spec fn spec_short(sha: Seq<char>) -> Seq<char> {
    decode_utf8(encode_utf8(sha).subrange(0, short_bytes(sha)))
}

/// How a branch stands against its parent `prev`.
pub open spec fn parent_summary(ahead: nat, behind: nat, prev: Seq<char>) -> Seq<char> {
    if behind > 0 {
        YELLOW@ + "+"@ + decimal(ahead) + "  -"@ + decimal(behind) + " behind "@ + prev
            + " (rebase needed)"@ + RESET@
    } else {
        GREEN@ + "+"@ + decimal(ahead) + RESET@ + "  "@ + DIM@ + "ahead of "@ + prev + RESET@
    }
}

/// Law of `status`: a branch is flagged (in yellow, with "rebase needed")
/// exactly when it is behind its parent; either way its summary starts with
/// the number of commits it is ahead.
pub proof fn law_parent_flagged_iff_behind(ahead: nat, behind: nat, prev: Seq<char>)
    ensures
        (parent_summary(ahead, behind, prev).take(YELLOW@.len() as int) == YELLOW@) <==> behind > 0,
        behind > 0 ==> parent_summary(ahead, behind, prev).take((YELLOW@ + "+"@ + decimal(ahead)).len() as int)
            == YELLOW@ + "+"@ + decimal(ahead),
        behind == 0 ==> parent_summary(ahead, behind, prev).take((GREEN@ + "+"@ + decimal(ahead)).len() as int)
            == GREEN@ + "+"@ + decimal(ahead),
{
    reveal_strlit("\x1b[32m");
    reveal_strlit("\x1b[33m");
    let t = parent_summary(ahead, behind, prev);
    if behind > 0 {
        let h = YELLOW@ + "+"@ + decimal(ahead);
        assert(t =~= h + ("  -"@ + decimal(behind) + " behind "@ + prev + " (rebase needed)"@ + RESET@));
        assert(t.take(h.len() as int) =~= h);
        assert(t.take(YELLOW@.len() as int) =~= YELLOW@);
    } else {
        let h = GREEN@ + "+"@ + decimal(ahead);
        assert(t =~= h + (RESET@ + "  "@ + DIM@ + "ahead of "@ + prev + RESET@));
        assert(t.take(h.len() as int) =~= h);
        assert(t.take(YELLOW@.len() as int)[3] == '2');
    }
}

/// How a branch stands against its remote-tracking ref.
pub open spec fn remote_summary(remote: Seq<char>, ahead: nat, behind: nat) -> Seq<char> {
    if ahead == 0 && behind == 0 {
        GREEN@ + "✓ "@ + remote + " in sync"@ + RESET@
    } else {
        YELLOW@ + "↑"@ + decimal(ahead) + " ↓"@ + decimal(behind) + " vs "@ + remote + RESET@
    }
}

/// Law of `status`: a branch is shown in sync with its remote exactly when
/// it is neither ahead of it nor behind it; otherwise the summary starts by
/// giving both counts, ahead first.
pub proof fn law_remote_in_sync_iff_even(remote: Seq<char>, ahead: nat, behind: nat)
    ensures
        (remote_summary(remote, ahead, behind) == GREEN@ + "✓ "@ + remote + " in sync"@ + RESET@)
            <==> (ahead == 0 && behind == 0),
        !(ahead == 0 && behind == 0) ==> remote_summary(remote, ahead, behind).take(
            (YELLOW@ + "↑"@ + decimal(ahead) + " ↓"@ + decimal(behind)).len() as int,
        ) == YELLOW@ + "↑"@ + decimal(ahead) + " ↓"@ + decimal(behind),
{
    reveal_strlit("\x1b[32m");
    reveal_strlit("\x1b[33m");
    let r = remote_summary(remote, ahead, behind);
    let head = YELLOW@ + "↑"@ + decimal(ahead) + " ↓"@ + decimal(behind);
    if !(ahead == 0 && behind == 0) {
        let sync = GREEN@ + "✓ "@ + remote + " in sync"@ + RESET@;
        assert(r[3] == '3');
        assert(sync[3] == '2');
        assert(r =~= head + (" vs "@ + remote + RESET@));
        assert(r.take(head.len() as int) =~= head);
    }
}

/// What is shown when the branch has no remote-tracking ref.
pub open spec fn no_tracking(remote: Seq<char>) -> Seq<char> {
    DIM@ + "no "@ + remote + " tracking ref"@ + RESET@
}

/// The second detail line: parent summary and remote summary side by side.
pub open spec fn status_line(parent: Seq<char>, remote: Seq<char>) -> Seq<char> {
    parent + "  "@ + DIM@ + "│"@ + RESET@ + "  "@ + remote
}

/// `A...B`, the symmetric range `git rev-list --left-right` counts.
pub open spec fn spec_range(a: Seq<char>, b: Seq<char>) -> Seq<char> {
    a + "..."@ + b
}

/// A row as the contracts see it.
pub struct RowView {
    pub name: Seq<char>,
    pub tag: BranchTag,
    pub detail: Seq<Seq<char>>,
}

pub open spec fn row_view(r: BranchRow) -> RowView {
    RowView { name: r.name@, tag: r.tag, detail: views(r.detail@) }
}

pub open spec fn rows_view(rs: Seq<BranchRow>) -> Seq<RowView> {
    rs.map_values(|r: BranchRow| row_view(r))
}

/// What the caller of `StatusRun` does next.
pub enum StatusStep {
    /// Read the checked-out branch (`None` if that fails).
    ReadHead,
    /// Does `reference` exist locally?
    CheckExists { reference: String },
    /// Read the commit `reference` points at.
    ReadTip { reference: String },
    /// Read the subject of commit `sha`.
    ReadSubject { sha: String },
    /// Count `git rev-list --left-right --count <range>` against the parent.
    CountVsParent { range: String },
    /// Does the remote-tracking ref exist?
    VerifyRemote { remote_ref: String },
    /// Count `git rev-list --left-right --count <range>` against the remote.
    CountVsRemote { range: String },
    /// Print the tree of these rows.
    Render { rows: Vec<BranchRow> },
}

#[derive(Clone, Copy, Debug, PartialEq, Eq, Structural)]
pub enum StatusPhase {
    AwaitHead,
    AwaitExists,
    AwaitTip,
    AwaitSubject,
    AwaitParentCounts,
    AwaitRemote,
    AwaitRemoteCounts,
    Ended,
}

/// The walk of `status` over the base and the branches, bottom first.
pub struct StatusRun {
    refs: Vec<String>,
    remote: String,
    current: Option<String>,
    index: usize,
    rows: Vec<BranchRow>,
    tag: BranchTag,
    sha: String,
    detail: Vec<String>,
    parent_line: String,
    phase: StatusPhase,
}

pub struct StatusView {
    pub refs: Seq<Seq<char>>,
    pub remote: Seq<char>,
    pub current: Option<Seq<char>>,
    pub index: nat,
    pub rows: Seq<RowView>,
    pub tag: BranchTag,
    pub sha: Seq<char>,
    pub detail: Seq<Seq<char>>,
    pub parent_line: Seq<char>,
    pub phase: StatusPhase,
}

impl View for StatusRun {
    type V = StatusView;

    closed spec fn view(&self) -> StatusView {
        StatusView {
            refs: views(self.refs@),
            remote: self.remote@,
            current: match self.current {
                Some(c) => Some(c@),
                None => None,
            },
            index: self.index as nat,
            rows: rows_view(self.rows@),
            tag: self.tag,
            sha: self.sha@,
            detail: views(self.detail@),
            parent_line: self.parent_line@,
            phase: self.phase,
        }
    }
}

/// Whether `step` and `f` are what follows once `row` completes the row of
/// `v`'s current reference: the next reference is checked, or past the last
/// one the tree is rendered.
pub open spec fn row_done(v: StatusView, row: RowView, step: StatusStep, f: StatusView) -> bool {
    let rows = v.rows.push(row);
    &&& f.refs == v.refs
    &&& f.remote == v.remote
    &&& f.current == v.current
    &&& f.index == v.index + 1
    &&& if v.index + 1 < v.refs.len() {
        &&& f.rows == rows
        &&& f.phase == StatusPhase::AwaitExists
        &&& step matches StatusStep::CheckExists { reference } && reference@ == v.refs[v.index + 1int]
    } else {
        &&& f.phase == StatusPhase::Ended
        &&& step matches StatusStep::Render { rows: r } && rows_view(r@) == rows
        &&& rows.len() == v.refs.len()
        &&& forall|k: int| 0 <= k < rows.len() ==> #[trigger] rows[k].name == v.refs[k]
    }
}

/// The tag of reference `r` when the checked-out branch is `current`.
pub open spec fn tag_for(current: Option<Seq<char>>, r: Seq<char>, exists: bool) -> BranchTag {
    if current == Some(r) {
        BranchTag::Current
    } else if !exists {
        BranchTag::Missing
    } else {
        BranchTag::Normal
    }
}

/// The base, then the branches bottom to top.
pub fn all_refs(stack: &Stack) -> (refs: Vec<String>)
    ensures
        refs@.len() == stack.branches@.len() + 1,
        views(refs@) == seq![stack.base@] + views(stack.branches@),
{
    let mut refs: Vec<String> = Vec::new();
    refs.push(stack.base.clone());
    let mut i: usize = 0;
    while i < stack.branches.len()
        invariant
            0 <= i <= stack.branches@.len(),
            views(refs@) == seq![stack.base@] + views(stack.branches@).take(i as int),
        decreases stack.branches@.len() - i,
    {
        let ghost before = refs@;
        refs.push(stack.branches[i].clone());
        proof {
            assert(views(refs@) =~= views(before).push(stack.branches@[i as int]@));
            assert(views(stack.branches@).take(i + 1) =~= views(stack.branches@).take(i as int).push(
                stack.branches@[i as int]@,
            ));
            assert(seq![stack.base@] + views(stack.branches@).take(i + 1) =~= (seq![stack.base@]
                + views(stack.branches@).take(i as int)).push(stack.branches@[i as int]@));
        }
        i += 1;
    }
    assert(views(stack.branches@).take(i as int) == views(stack.branches@));
    refs
}

/// Starts `status` on `stack`, against `remote`.
pub fn cmd_status(stack: &Stack, remote: &str) -> (r: (StatusRun, StatusStep))
    requires
        stack.branches@.len() + 1 < usize::MAX,
    ensures
        r.0.inv(),
        r.0@.refs == seq![stack.base@] + views(stack.branches@),
        r.0@.remote == remote@,
        r.0@.index == 0,
        r.0@.rows.len() == 0,
        r.0@.phase == StatusPhase::AwaitHead,
        r.1 is ReadHead,
{
    let refs = all_refs(stack);
    let run = StatusRun {
        refs,
        remote: remote.to_owned(),
        current: None,
        index: 0,
        rows: Vec::new(),
        tag: BranchTag::Normal,
        sha: String::new(),
        detail: Vec::new(),
        parent_line: String::new(),
        phase: StatusPhase::AwaitHead,
    };
    assert(run.rows@.len() == 0);
    (run, StatusStep::ReadHead)
}

fn parent_text(ahead: u64, behind: u64, prev: &str) -> (r: String)
    ensures
        r@ == parent_summary(ahead as nat, behind as nat, prev@),
{
    let a = decimal_string(ahead);
    let mut r = String::new();
    if behind > 0 {
        let b = decimal_string(behind);
        push_str(&mut r, YELLOW);
        push_str(&mut r, "+");
        push_str(&mut r, a.as_str());
        push_str(&mut r, "  -");
        push_str(&mut r, b.as_str());
        push_str(&mut r, " behind ");
        push_str(&mut r, prev);
        push_str(&mut r, " (rebase needed)");
        push_str(&mut r, RESET);
    } else {
        push_str(&mut r, GREEN);
        push_str(&mut r, "+");
        push_str(&mut r, a.as_str());
        push_str(&mut r, RESET);
        push_str(&mut r, "  ");
        push_str(&mut r, DIM);
        push_str(&mut r, "ahead of ");
        push_str(&mut r, prev);
        push_str(&mut r, RESET);
    }
    r
}

fn remote_text(remote: &str, ahead: u64, behind: u64) -> (r: String)
    ensures
        r@ == remote_summary(remote@, ahead as nat, behind as nat),
{
    let mut r = String::new();
    if ahead == 0 && behind == 0 {
        push_str(&mut r, GREEN);
        push_str(&mut r, "✓ ");
        push_str(&mut r, remote);
        push_str(&mut r, " in sync");
        push_str(&mut r, RESET);
    } else {
        let a = decimal_string(ahead);
        let b = decimal_string(behind);
        push_str(&mut r, YELLOW);
        push_str(&mut r, "↑");
        push_str(&mut r, a.as_str());
        push_str(&mut r, " ↓");
        push_str(&mut r, b.as_str());
        push_str(&mut r, " vs ");
        push_str(&mut r, remote);
        push_str(&mut r, RESET);
    }
    r
}

fn joined_line(parent: &str, remote: &str) -> (r: String)
    ensures
        r@ == status_line(parent@, remote@),
{
    let mut r = String::new();
    push_str(&mut r, parent);
    push_str(&mut r, "  ");
    push_str(&mut r, DIM);
    push_str(&mut r, "│");
    push_str(&mut r, RESET);
    push_str(&mut r, "  ");
    push_str(&mut r, remote);
    r
}

impl StatusRun {
    pub closed spec fn inv(&self) -> bool {
        &&& 0 < self.refs@.len() < usize::MAX
        &&& self.index <= self.refs@.len()
        &&& self.phase != StatusPhase::Ended ==> self.rows@.len() == self.index
        &&& self.phase != StatusPhase::Ended ==> forall|k: int|
            0 <= k < self.rows@.len() ==> #[trigger] self.rows@[k].name@ == self.refs@[k]@
        &&& self.phase != StatusPhase::AwaitHead && self.phase != StatusPhase::Ended ==> self.index
            < self.refs@.len()
        &&& self.phase == StatusPhase::AwaitHead ==> self.index == 0
        &&& self.phase == StatusPhase::AwaitSubject ==> cuts_cleanly(self.sha@)
        &&& (self.phase == StatusPhase::AwaitParentCounts || self.phase == StatusPhase::AwaitRemote
            || self.phase == StatusPhase::AwaitRemoteCounts) ==> self.index > 0
    }

    /// Completes the current row and moves to the next reference.
    fn finish_row(&mut self, row: BranchRow) -> (step: StatusStep)
        requires
            old(self).inv(),
            row.name@ == old(self)@.refs[old(self)@.index as int],
            old(self)@.phase != StatusPhase::AwaitHead,
            old(self)@.phase != StatusPhase::Ended,
        ensures
            final(self).inv(),
            row_done(old(self)@, row_view(row), step, final(self)@),
    {
        let ghost rv = row_view(row);
        self.rows.push(row);
        proof {
            assert(rows_view(self.rows@) =~= old(self)@.rows.push(rv));
            assert forall|k: int| 0 <= k < self.rows@.len() implies #[trigger] self.rows@[k].name@
                == self.refs@[k]@ by {
                if k < old(self).rows@.len() {
                    assert(self.rows@[k] == old(self).rows@[k]);
                    assert(old(self).rows@[k].name@ == old(self).refs@[k]@);
                } else {
                    assert(k == old(self).index);
                    assert(self.rows@[k] == row);
                    assert(views(self.refs@)[k] == self.refs@[k]@);
                }
            }
        }
        let ghost full = rows_view(self.rows@);
        self.index = self.index + 1;
        if self.index < self.refs.len() {
            self.phase = StatusPhase::AwaitExists;
            StatusStep::CheckExists { reference: self.refs[self.index].clone() }
        } else {
            let mut rows: Vec<BranchRow> = Vec::new();
            std::mem::swap(&mut rows, &mut self.rows);
            self.phase = StatusPhase::Ended;
            proof {
                assert(rows_view(rows@) == full);
                assert forall|k: int| 0 <= k < full.len() implies #[trigger] full[k].name == old(self)@.refs[k] by {
                    assert(full[k].name == rows@[k].name@);
                }
            }
            StatusStep::Render { rows }
        }
    }

    /// Learns the checked-out branch.
    pub fn on_head(&mut self, head: Option<&str>) -> (step: StatusStep)
        requires
            old(self).inv(),
            old(self)@.phase == StatusPhase::AwaitHead,
        ensures
            final(self).inv(),
            final(self)@ == (StatusView {
                current: match head {
                    Some(h) => Some(h@),
                    None => None,
                },
                phase: StatusPhase::AwaitExists,
                ..old(self)@
            }),
            step matches StatusStep::CheckExists { reference } && reference@ == old(self)@.refs[0],
    {
        self.current = match head {
            Some(h) => Some(h.to_owned()),
            None => None,
        };
        self.phase = StatusPhase::AwaitExists;
        StatusStep::CheckExists { reference: self.refs[0].clone() }
    }

    /// Learns whether the current reference exists locally; a missing one
    /// gets a single detail line and the walk moves on.
    pub fn on_exists(&mut self, exists: bool) -> (step: StatusStep)
        requires
            old(self).inv(),
            old(self)@.phase == StatusPhase::AwaitExists,
        ensures
            final(self).inv(),
            !exists ==> row_done(
                old(self)@,
                RowView {
                    name: old(self)@.refs[old(self)@.index as int],
                    tag: tag_for(old(self)@.current, old(self)@.refs[old(self)@.index as int], false),
                    detail: seq![missing_line()],
                },
                step,
                final(self)@,
            ),
            exists ==> final(self)@ == (StatusView {
                tag: tag_for(old(self)@.current, old(self)@.refs[old(self)@.index as int], true),
                phase: StatusPhase::AwaitTip,
                ..old(self)@
            }) && (step matches StatusStep::ReadTip { reference } && reference@ == old(self)@.refs[old(self)@.index as int]),
    {
        let reference = self.refs[self.index].clone();
        let is_current = match &self.current {
            Some(c) => *c == reference,
            None => false,
        };
        let tag = branch_tag(is_current, exists);
        if !exists {
            let mut line = String::new();
            push_str(&mut line, DIM);
            push_str(&mut line, "missing locally");
            push_str(&mut line, RESET);
            let mut detail: Vec<String> = Vec::new();
            detail.push(line);
            proof {
                assert(views(detail@) =~= seq![missing_line()]);
            }
            self.finish_row(BranchRow { name: reference, tag, detail })
        } else {
            self.tag = tag;
            self.phase = StatusPhase::AwaitTip;
            StatusStep::ReadTip { reference }
        }
    }

    /// Learns the commit the reference points at.
    pub fn on_tip(&mut self, sha: &str) -> (step: StatusStep)
        requires
            old(self).inv(),
            old(self)@.phase == StatusPhase::AwaitTip,
            cuts_cleanly(sha@),
        ensures
            final(self).inv(),
            final(self)@ == (StatusView { sha: sha@, phase: StatusPhase::AwaitSubject, ..old(self)@ }),
            step matches StatusStep::ReadSubject { sha: s } && s@ == sha@,
    {
        self.sha = sha.to_owned();
        self.phase = StatusPhase::AwaitSubject;
        StatusStep::ReadSubject { sha: sha.to_owned() }
    }

    /// Learns the tip's subject. The base's row ends here; a branch is next
    /// compared with its parent, the reference below it.
    pub fn on_subject(&mut self, subject: &str) -> (step: StatusStep)
        requires
            old(self).inv(),
            old(self)@.phase == StatusPhase::AwaitSubject,
        ensures
            final(self).inv(),
            ({
                let v = old(self)@;
                let r = v.refs[v.index as int];
                let line = commit_line(spec_short(v.sha), subject@);
                &&& r == v.refs[0] ==> row_done(v, RowView { name: r, tag: v.tag, detail: seq![line] }, step, final(self)@)
                &&& r != v.refs[0] ==> final(self)@ == (StatusView {
                    detail: seq![line],
                    phase: StatusPhase::AwaitParentCounts,
                    ..v
                }) && v.index > 0 && (step matches StatusStep::CountVsParent { range }
                    && range@ == spec_range(v.refs[v.index - 1], r))
            }),
    {
        let s = short(self.sha.as_str());
        proof {
            vstd::utf8::encode_utf8_decode_utf8(s@);
        }
        let mut line = String::new();
        push_str(&mut line, DIM);
        push_str(&mut line, s);
        push_str(&mut line, RESET);
        push_str(&mut line, "  ");
        push_str(&mut line, subject);
        let mut detail: Vec<String> = Vec::new();
        detail.push(line);
        proof {
            assert(views(detail@) =~= seq![commit_line(spec_short(self.sha@), subject@)]);
        }
        let reference = self.refs[self.index].clone();
        if reference == self.refs[0] {
            let tag = self.tag;
            self.finish_row(BranchRow { name: reference, tag, detail })
        } else {
            self.detail = detail;
            self.phase = StatusPhase::AwaitParentCounts;
            let mut range = self.refs[self.index - 1].clone();
            push_str(&mut range, "...");
            push_str(&mut range, reference.as_str());
            StatusStep::CountVsParent { range }
        }
    }

    /// Learns the counts against the parent (`<behind> <ahead>`); the
    /// remote-tracking ref is checked next.
    pub fn on_parent_counts(&mut self, counts: &str) -> (step: StatusStep)
        requires
            old(self).inv(),
            old(self)@.phase == StatusPhase::AwaitParentCounts,
        ensures
            final(self).inv(),
            ({
                let v = old(self)@;
                let ws = words(counts@);
                &&& v.index > 0
                &&& final(self)@ == (StatusView {
                    parent_line: parent_summary(count_at(ws, 1), count_at(ws, 0), v.refs[v.index - 1]),
                    phase: StatusPhase::AwaitRemote,
                    ..v
                })
                &&& step matches StatusStep::VerifyRemote { remote_ref: rr }
                    && rr@ == spec_remote_ref(v.remote, v.refs[v.index as int])
            }),
    {
        let (behind, ahead) = parse_counts(counts);
        self.parent_line = parent_text(ahead, behind, self.refs[self.index - 1].as_str());
        self.phase = StatusPhase::AwaitRemote;
        StatusStep::VerifyRemote { remote_ref: remote_ref(self.remote.as_str(), self.refs[self.index].as_str()) }
    }

    /// Learns whether the remote-tracking ref exists; without one the row
    /// says so and ends.
    pub fn on_remote(&mut self, exists: bool) -> (step: StatusStep)
        requires
            old(self).inv(),
            old(self)@.phase == StatusPhase::AwaitRemote,
        ensures
            final(self).inv(),
            ({
                let v = old(self)@;
                let r = v.refs[v.index as int];
                &&& !exists ==> row_done(
                    v,
                    RowView {
                        name: r,
                        tag: v.tag,
                        detail: v.detail.push(status_line(v.parent_line, no_tracking(v.remote))),
                    },
                    step,
                    final(self)@,
                )
                &&& exists ==> final(self)@ == (StatusView { phase: StatusPhase::AwaitRemoteCounts, ..v })
                    && (step matches StatusStep::CountVsRemote { range }
                    && range@ == spec_range(spec_remote_ref(v.remote, r), r))
            }),
    {
        let reference = self.refs[self.index].clone();
        if exists {
            self.phase = StatusPhase::AwaitRemoteCounts;
            let mut range = remote_ref(self.remote.as_str(), reference.as_str());
            push_str(&mut range, "...");
            push_str(&mut range, reference.as_str());
            StatusStep::CountVsRemote { range }
        } else {
            let mut none = String::new();
            push_str(&mut none, DIM);
            push_str(&mut none, "no ");
            push_str(&mut none, self.remote.as_str());
            push_str(&mut none, " tracking ref");
            push_str(&mut none, RESET);
            let line = joined_line(self.parent_line.as_str(), none.as_str());
            let mut detail = self.detail.clone();
            let ghost before = detail@;
            detail.push(line);
            proof {
                assert(views(detail@) =~= views(before).push(line@));
            }
            let tag = self.tag;
            self.finish_row(BranchRow { name: reference, tag, detail })
        }
    }

    /// Learns the counts against the remote-tracking ref; the row ends.
    pub fn on_remote_counts(&mut self, counts: &str) -> (step: StatusStep)
        requires
            old(self).inv(),
            old(self)@.phase == StatusPhase::AwaitRemoteCounts,
        ensures
            final(self).inv(),
            ({
                let v = old(self)@;
                let ws = words(counts@);
                row_done(
                    v,
                    RowView {
                        name: v.refs[v.index as int],
                        tag: v.tag,
                        detail: v.detail.push(
                            status_line(v.parent_line, remote_summary(v.remote, count_at(ws, 1), count_at(ws, 0))),
                        ),
                    },
                    step,
                    final(self)@,
                )
            }),
    {
        let (behind, ahead) = parse_counts(counts);
        let summary = remote_text(self.remote.as_str(), ahead, behind);
        let line = joined_line(self.parent_line.as_str(), summary.as_str());
        let mut detail = self.detail.clone();
        let ghost before = detail@;
        detail.push(line);
        proof {
            assert(views(detail@) =~= views(before).push(line@));
        }
        let reference = self.refs[self.index].clone();
        let tag = self.tag;
        self.finish_row(BranchRow { name: reference, tag, detail })
    }
}

/// The line `show` prints: the base and then the branches, bottom to top,
/// joined by ` -> `.
pub open spec fn spec_chain(base: Seq<char>, branches: Seq<Seq<char>>) -> Seq<char> {
    joined(seq![base] + branches, " -> "@)
}

/// `show`: the stack's chain on one line.
pub fn cmd_show(stack: &Stack) -> (line: String)
    ensures
        line@ == spec_chain(stack.base@, views(stack.branches@)),
{
    let refs = all_refs(stack);
    join_strings(&refs, " -> ")
}

} // verus!

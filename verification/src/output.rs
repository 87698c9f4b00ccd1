//! The text of the tree views that `show` and `status` print: a boxed
//! header and the stack drawn as a column of branches, bottom first.
use vstd::prelude::*;
use vstd::string::StringSliceAdditionalSpecFns;
use crate::commands::BranchTag;
use crate::text::{push_str, views};

verus! {

broadcast use vstd::seq_lib::group_seq_properties;

pub const RESET: &'static str = "\x1b[0m";
pub const BOLD: &'static str = "\x1b[1m";
pub const DIM: &'static str = "\x1b[2m";
pub const RED: &'static str = "\x1b[31m";
pub const GREEN: &'static str = "\x1b[32m";
pub const YELLOW: &'static str = "\x1b[33m";
pub const BLUE: &'static str = "\x1b[34m";
pub const CYAN: &'static str = "\x1b[36m";
pub const WHITE: &'static str = "\x1b[37m";

pub const CIRCLE: &'static str = "●";
pub const CIRCLE_FILLED: &'static str = "◉";
pub const VERTICAL: &'static str = "│";
pub const BRANCH_START: &'static str = "╭─";
pub const BRANCH_MID: &'static str = "├─";
pub const BRANCH_END: &'static str = "└─";

/// The inner width of the header box, in bytes of text.
pub const HEADER_WIDTH: usize = 37;

/// One row of a branch tree.
pub struct BranchRow {
    pub name: String,
    /// How the branch is marked: current, missing, or neither.
    pub tag: BranchTag,
    /// Lines shown under the branch's name.
    pub detail: Vec<String>,
}

/// The connector drawn before row `i` of `n`: a lone row ends the tree, the
/// first row starts it, the last ends it, the others continue it.
pub open spec fn spec_connector(i: int, n: int) -> Seq<char> {
    if n == 1 {
        BRANCH_END@
    } else if i == 0 {
        BRANCH_START@
    } else if i == n - 1 {
        BRANCH_END@
    } else {
        BRANCH_MID@
    }
}

/// The first line of a row.
pub open spec fn spec_row_line(connector: Seq<char>, name: Seq<char>, tag: BranchTag) -> Seq<char> {
    let circle = match tag {
        BranchTag::Current => GREEN@ + CIRCLE_FILLED@ + RESET@,
        BranchTag::Missing => RED@ + CIRCLE@ + RESET@,
        BranchTag::Normal => BLUE@ + CIRCLE@ + RESET@,
    };
    let styled = match tag {
        BranchTag::Current => BOLD@ + GREEN@ + name + RESET@,
        BranchTag::Missing => DIM@ + RED@ + name + RESET@,
        BranchTag::Normal => WHITE@ + name + RESET@,
    };
    let tag_text = match tag {
        BranchTag::Current => "  "@ + DIM@ + GREEN@ + "(current)"@ + RESET@,
        BranchTag::Missing => "  "@ + DIM@ + RED@ + "(missing)"@ + RESET@,
        BranchTag::Normal => Seq::empty(),
    };
    CYAN@ + connector + RESET@ + " "@ + circle + " "@ + styled + tag_text
}

/// A detail line, indented under the branch's name.
pub open spec fn spec_detail_line(d: Seq<char>) -> Seq<char> {
    "     "@ + DIM@ + d + RESET@
}

/// The lines of row `i` of `n`: its first line, its details, and a vertical
/// connector unless it is the last row.
pub open spec fn spec_row_lines(i: int, n: int, name: Seq<char>, tag: BranchTag, detail: Seq<Seq<char>>) -> Seq<Seq<char>> {
    seq![spec_row_line(spec_connector(i, n), name, tag)] + detail.map_values(|d: Seq<char>| spec_detail_line(d))
        + (if i < n - 1 {
        seq![CYAN@ + VERTICAL@ + RESET@]
    } else {
        Seq::empty()
    })
}

pub open spec fn row_lines_of(rows: Seq<BranchRow>, i: int) -> Seq<Seq<char>> {
    spec_row_lines(i, rows.len() as int, rows[i].name@, rows[i].tag, views(rows[i].detail@))
}

/// The lines of the first `k` rows of a tree.
pub open spec fn spec_tree(rows: Seq<BranchRow>, k: int) -> Seq<Seq<char>>
    decreases k,
{
    if k <= 0 {
        Seq::empty()
    } else {
        spec_tree(rows, k - 1) + row_lines_of(rows, k - 1)
    }
}

fn connector(i: usize, n: usize) -> (c: &'static str)
    requires
        i < n,
    ensures
        c@ == spec_connector(i as int, n as int),
{
    if n == 1 {
        BRANCH_END
    } else if i == 0 {
        BRANCH_START
    } else if i + 1 == n {
        BRANCH_END
    } else {
        BRANCH_MID
    }
}

fn row_line(conn: &str, name: &str, tag: BranchTag) -> (s: String)
    ensures
        s@ == spec_row_line(conn@, name@, tag),
{
    let mut s = String::new();
    push_str(&mut s, CYAN);
    push_str(&mut s, conn);
    push_str(&mut s, RESET);
    push_str(&mut s, " ");
    match tag {
        BranchTag::Current => {
            push_str(&mut s, GREEN);
            push_str(&mut s, CIRCLE_FILLED);
        },
        BranchTag::Missing => {
            push_str(&mut s, RED);
            push_str(&mut s, CIRCLE);
        },
        BranchTag::Normal => {
            push_str(&mut s, BLUE);
            push_str(&mut s, CIRCLE);
        },
    }
    push_str(&mut s, RESET);
    push_str(&mut s, " ");
    match tag {
        BranchTag::Current => {
            push_str(&mut s, BOLD);
            push_str(&mut s, GREEN);
        },
        BranchTag::Missing => {
            push_str(&mut s, DIM);
            push_str(&mut s, RED);
        },
        BranchTag::Normal => {
            push_str(&mut s, WHITE);
        },
    }
    push_str(&mut s, name);
    push_str(&mut s, RESET);
    match tag {
        BranchTag::Current => {
            push_str(&mut s, "  ");
            push_str(&mut s, DIM);
            push_str(&mut s, GREEN);
            push_str(&mut s, "(current)");
            push_str(&mut s, RESET);
        },
        BranchTag::Missing => {
            push_str(&mut s, "  ");
            push_str(&mut s, DIM);
            push_str(&mut s, RED);
            push_str(&mut s, "(missing)");
            push_str(&mut s, RESET);
        },
        BranchTag::Normal => {},
    }
    proof {
        assert(s@ =~= spec_row_line(conn@, name@, tag));
    }
    s
}

/// The lines that draw `rows` as a tree, bottom row first.
pub fn render_branch_tree(rows: &Vec<BranchRow>) -> (lines: Vec<String>)
    ensures
        views(lines@) == spec_tree(rows@, rows@.len() as int),
{
    let n = rows.len();
    let mut out: Vec<String> = Vec::new();
    let mut i: usize = 0;
    while i < n
        invariant
            n == rows@.len(),
            0 <= i <= n,
            views(out@) == spec_tree(rows@, i as int),
        decreases n - i,
    {
        let row = &rows[i];
        let ghost start = views(out@);
        let line = row_line(connector(i, n), row.name.as_str(), row.tag);
        out.push(line);
        let mut k: usize = 0;
        while k < row.detail.len()
            invariant
                0 <= k <= row.detail@.len(),
                views(out@) == start + seq![spec_row_line(spec_connector(i as int, n as int), row.name@, row.tag)]
                    + views(row.detail@).take(k as int).map_values(|d: Seq<char>| spec_detail_line(d)),
            decreases row.detail@.len() - k,
        {
            let ghost before = views(out@);
            let mut d = String::new();
            push_str(&mut d, "     ");
            push_str(&mut d, DIM);
            push_str(&mut d, row.detail[k].as_str());
            push_str(&mut d, RESET);
            out.push(d);
            proof {
                assert(d@ =~= spec_detail_line(row.detail@[k as int]@));
                assert(views(row.detail@).take(k + 1).map_values(|d: Seq<char>| spec_detail_line(d))
                    =~= views(row.detail@).take(k as int).map_values(|d: Seq<char>| spec_detail_line(d)).push(spec_detail_line(row.detail@[k as int]@)));
                assert(views(out@) =~= before.push(spec_detail_line(row.detail@[k as int]@)));
            }
            k += 1;
        }
        proof {
            assert(views(row.detail@).take(row.detail@.len() as int) =~= views(row.detail@));
        }
        if i + 1 < n {
            let mut v = String::new();
            push_str(&mut v, CYAN);
            push_str(&mut v, VERTICAL);
            push_str(&mut v, RESET);
            let ghost before = views(out@);
            out.push(v);
            proof {
                assert(views(out@) =~= before.push(CYAN@ + VERTICAL@ + RESET@));
            }
        }
        proof {
            assert(views(out@) =~= spec_tree(rows@, i + 1));
        }
        i += 1;
    }
    out
}

/// The number of spaces that pad a header's title to the box's width
/// (counted in bytes, as `str::len` counts).
pub open spec fn header_pad(title: &str) -> nat {
    if 2 + title.spec_bytes().len() >= HEADER_WIDTH {
        0
    } else {
        (HEADER_WIDTH - 2 - title.spec_bytes().len()) as nat
    }
}

/// The three lines of a boxed header around `title`.
pub fn render_header(title: &str) -> (lines: Vec<String>)
    ensures
        lines@.len() == 3,
        lines@[0]@ == CYAN@ + BOLD@ + "╭─────────────────────────────────────╮"@ + RESET@,
        lines@[1]@ == CYAN@ + BOLD@ + "│"@ + WHITE@ + "  "@ + title@ + Seq::new(header_pad(title), |i: int| ' ') + CYAN@ + "│"@ + RESET@,
        lines@[2]@ == CYAN@ + BOLD@ + "╰─────────────────────────────────────╯"@ + RESET@,
{
    let mut out: Vec<String> = Vec::new();
    let mut top = String::new();
    push_str(&mut top, CYAN);
    push_str(&mut top, BOLD);
    push_str(&mut top, "╭─────────────────────────────────────╮");
    push_str(&mut top, RESET);
    out.push(top);
    let used = title.as_bytes().len();
    let pad = if used >= HEADER_WIDTH - 2 {
        0
    } else {
        HEADER_WIDTH - 2 - used
    };
    let mut mid = String::new();
    push_str(&mut mid, CYAN);
    push_str(&mut mid, BOLD);
    push_str(&mut mid, "│");
    push_str(&mut mid, WHITE);
    push_str(&mut mid, "  ");
    push_str(&mut mid, title);
    let ghost before = mid@;
    let mut k: usize = 0;
    while k < pad
        invariant
            0 <= k <= pad,
            mid@ == before + Seq::new(k as nat, |i: int| ' '),
        decreases pad - k,
    {
        mid.push(' ');
        proof {
            assert(mid@ =~= before + Seq::new((k + 1) as nat, |i: int| ' '));
        }
        k += 1;
    }
    push_str(&mut mid, CYAN);
    push_str(&mut mid, "│");
    push_str(&mut mid, RESET);
    proof {
        assert(pad == header_pad(title));
        assert(mid@ =~= CYAN@ + BOLD@ + "│"@ + WHITE@ + "  "@ + title@ + Seq::new(header_pad(title), |i: int| ' ') + CYAN@ + "│"@ + RESET@);
    }
    out.push(mid);
    let mut bottom = String::new();
    push_str(&mut bottom, CYAN);
    push_str(&mut bottom, BOLD);
    push_str(&mut bottom, "╰─────────────────────────────────────╯");
    push_str(&mut bottom, RESET);
    out.push(bottom);
    out
}

} // verus!

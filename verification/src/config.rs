//! Stack configuration files: `.stacks/<stack-name>`.
//!
//! The first non-comment line names the base branch, the remaining
//! non-comment lines name the stack's branches from bottom to top. Lines are
//! trimmed; blank lines and lines starting with `#` are ignored.
use vstd::prelude::*;
use crate::text::{
    char_is_alphanumeric, chars_of, is_alphanumeric, is_ascii_alnum, lemma_lines_concat,
    lemma_lines_no_newline, lemma_lines_single, lemma_split_nl_len, lemma_trim_drop_ws_last,
    lemma_trim_idempotent, lemma_trim_len,
    lemma_trim_keeps_first, lemma_trim_strip_cr, line_ranges, lines, push_chars, push_str,
    range_text, ranges_within, split_nl, string_of, strip_cr, trim, trim_range, views,
};

verus! {

broadcast use vstd::seq_lib::group_seq_properties;

/// A stack: its base branch and its branches, bottom to top.
pub struct Stack {
    pub base: String,
    pub branches: Vec<String>,
}

/// Why a stack's configuration could not be loaded.
#[derive(Clone, Copy, Debug, PartialEq, Eq, Structural)]
pub enum StackError {
    /// The name holds a character other than letters, digits, '.', '_', '/', '-'.
    InvalidName,
    /// There is no file `.stacks/<name>`.
    NotFound,
    /// The file has no non-comment line.
    NoBase,
    /// The base also appears among the branches.
    BaseInBranches,
    /// A branch appears twice.
    DuplicateBranches,
}

/// A trimmed line that carries a branch name: not blank, not a comment.
pub open spec fn is_entry(l: Seq<char>) -> bool {
    l.len() > 0 && l[0] != '#'
}

pub open spec fn entry_filter() -> spec_fn(Seq<char>) -> bool {
    |l: Seq<char>| is_entry(l)
}

/// Each line trimmed.
pub open spec fn trim_all(ls: Seq<Seq<char>>) -> Seq<Seq<char>> {
    ls.map_values(|l: Seq<char>| trim(l))
}

/// Every line of `content`, trimmed.
pub open spec fn trimmed_lines(content: Seq<char>) -> Seq<Seq<char>> {
    trim_all(lines(content))
}

/// The branch-carrying lines of a configuration, trimmed, in file order.
pub open spec fn entries(content: Seq<char>) -> Seq<Seq<char>> {
    trimmed_lines(content).filter(entry_filter())
}

/// What loading a configuration's text yields: the base and the branches,
/// or the first problem found.
pub open spec fn spec_parse_stack(content: Seq<char>) -> Result<
    (Seq<char>, Seq<Seq<char>>),
    StackError,
> {
    let e = entries(content);
    if e.len() == 0 {
        Err(StackError::NoBase)
    } else if e.drop_first().contains(e[0]) {
        Err(StackError::BaseInBranches)
    } else if !e.drop_first().no_duplicates() {
        Err(StackError::DuplicateBranches)
    } else {
        Ok((e[0], e.drop_first()))
    }
}

/// A character allowed in a stack name: alphanumeric as `char::is_alphanumeric`
/// decides it (for ASCII: the letters and digits), or one of '.', '_', '/', '-'.
pub open spec fn is_name_char(c: char) -> bool {
    let alnum = if (c as u32) < 128 {
        is_ascii_alnum(c)
    } else {
        char_is_alphanumeric(c)
    };
    alnum || c == '.' || c == '_' || c == '/' || c == '-'
}

/// Law of stack names: an ASCII character is allowed exactly when it is a
/// letter of either case, a digit, '.', '_', '/' or '-'.
pub proof fn law_ascii_name_chars(c: char)
    requires
        (c as u32) < 128,
    ensures
        is_name_char(c) <==> ('a' <= c <= 'z' || 'A' <= c <= 'Z' || '0' <= c <= '9' || c == '.' || c
            == '_' || c == '/' || c == '-'),
{
}

/// Law of stack names: a non-empty ASCII name is valid exactly when each
/// of its characters is a letter of either case, a digit, '.', '_', '/'
/// or '-'.
pub proof fn law_ascii_stack_names(name: Seq<char>)
    requires
        forall|i: int| 0 <= i < name.len() ==> (#[trigger] name[i] as u32) < 128,
    ensures
        spec_valid_stack_name(name) <==> (name.len() > 0 && forall|i: int| 0 <= i < name.len() ==> {
            let c = #[trigger] name[i];
            'a' <= c <= 'z' || 'A' <= c <= 'Z' || '0' <= c <= '9' || c == '.' || c == '_' || c == '/'
                || c == '-'
        }),
{
    assert forall|i: int| 0 <= i < name.len() implies (is_name_char(#[trigger] name[i]) <==> {
        let c = name[i];
        'a' <= c <= 'z' || 'A' <= c <= 'Z' || '0' <= c <= '9' || c == '.' || c == '_' || c == '/'
            || c == '-'
    }) by {
        law_ascii_name_chars(name[i]);
    }
}

/// Stack names are non-empty and made of letters, digits, '.', '_', '/', '-'.
pub open spec fn spec_valid_stack_name(name: Seq<char>) -> bool {
    name.len() > 0 && forall|i: int| 0 <= i < name.len() ==> is_name_char(#[trigger] name[i])
}

/// Whether a stack's parsed form is `(base, branches)`.
pub open spec fn stack_is(st: Stack, base: Seq<char>, branches: Seq<Seq<char>>) -> bool {
    st.base@ == base && views(st.branches@) == branches
}

/// What loading stack `name` gives, where `content` is the text of its file
/// (`None` when the file does not exist).
pub open spec fn load_result_matches(
    name: Seq<char>,
    content: Option<Seq<char>>,
    r: Result<Stack, StackError>,
) -> bool {
    if !spec_valid_stack_name(name) {
        r == Err::<Stack, StackError>(StackError::InvalidName)
    } else {
        match content {
            None => r == Err::<Stack, StackError>(StackError::NotFound),
            Some(c) => match spec_parse_stack(c) {
                Ok((b, bs)) => r matches Ok(st) && stack_is(st, b, bs),
                Err(e) => r == Err::<Stack, StackError>(e),
            },
        }
    }
}

pub fn is_valid_stack_name(name: &str) -> (r: bool)
    ensures
        r == spec_valid_stack_name(name@),
{
    let cs = chars_of(name);
    if cs.len() == 0 {
        return false;
    }
    let mut i: usize = 0;
    while i < cs.len()
        invariant
            cs@ == name@,
            0 <= i <= cs@.len(),
            forall|j: int| 0 <= j < i ==> is_name_char(#[trigger] cs@[j]),
        decreases cs@.len() - i,
    {
        let c = cs[i];
        if !(is_alphanumeric(c) || c == '.' || c == '_' || c == '/' || c == '-') {
            return false;
        }
        i += 1;
    }
    true
}

proof fn lemma_entries_step(ls: Seq<Seq<char>>, k: int)
    requires
        0 <= k < ls.len(),
    ensures
        trim_all(ls.take(k + 1)).filter(entry_filter()) == (if is_entry(trim(ls[k])) {
            trim_all(ls.take(k)).filter(entry_filter()).push(trim(ls[k]))
        } else {
            trim_all(ls.take(k)).filter(entry_filter())
        }),
{
    assert(trim_all(ls.take(k + 1)) =~= trim_all(ls.take(k)).push(trim(ls[k])));
    trim_all(ls.take(k)).lemma_filter_push(trim(ls[k]), entry_filter());
}

/// Parses the text of a stack configuration.
pub fn parse_stack(content: &str) -> (r: Result<Stack, StackError>)
    ensures
        match spec_parse_stack(content@) {
            Ok((b, bs)) => r matches Ok(st) && stack_is(st, b, bs),
            Err(e) => r == Err::<Stack, StackError>(e),
        },
{
    let cs = chars_of(content);
    let rs = line_ranges(&cs);
    let ghost ls = lines(cs@);
    let mut base: Option<String> = None;
    let mut branches: Vec<String> = Vec::new();
    let mut k: usize = 0;
    proof {
        assert(trim_all(ls.take(0)) =~= Seq::<Seq<char>>::empty());
        reveal(Seq::filter);
    }
    while k < rs.len()
        invariant
            cs@ == content@,
            ls == lines(cs@),
            ranges_within(rs@, cs@.len()),
            rs@.len() == ls.len(),
            forall|j: int| 0 <= j < rs@.len() ==> range_text(cs@, #[trigger] rs@[j]) == ls[j],
            0 <= k <= rs@.len(),
            base is None ==> trim_all(ls.take(k as int)).filter(entry_filter()).len() == 0
                && branches@.len() == 0,
            base matches Some(b) ==> trim_all(ls.take(k as int)).filter(entry_filter())
                == seq![b@] + views(branches@),
        decreases rs@.len() - k,
    {
        let (lo, hi) = rs[k];
        let (a, b) = trim_range(&cs, lo, hi);
        proof {
            assert(cs@.subrange(lo as int, hi as int) == ls[k as int]);
            lemma_entries_step(ls, k as int);
        }
        if a == b || cs[a] == '#' {
            proof {
                assert(!is_entry(trim(ls[k as int])));
            }
        } else {
            let s = string_of(&cs, a, b);
            proof {
                assert(is_entry(trim(ls[k as int])));
            }
            match base {
                None => {
                    base = Some(s);
                    proof {
                        assert(views(branches@) =~= Seq::<Seq<char>>::empty());
                        assert(Seq::<Seq<char>>::empty().push(s@) =~= seq![s@]
                            + views(branches@));
                    }
                },
                Some(bb) => {
                    let ghost old_br = branches@;
                    branches.push(s);
                    proof {
                        assert(views(branches@) =~= views(old_br).push(s@));
                        assert((seq![bb@] + views(old_br)).push(s@) =~= seq![bb@] + views(
                            branches@,
                        ));
                    }
                    base = Some(bb);
                },
            }
        }
        k += 1;
    }
    proof {
        assert(ls.take(rs@.len() as int) =~= ls);
    }
    let ghost e = entries(content@);
    match base {
        None => Err(StackError::NoBase),
        Some(bs) => {
            proof {
                assert(e[0] == bs@);
                assert(e.drop_first() =~= views(branches@));
            }
            let mut j: usize = 0;
            while j < branches.len()
                invariant
                    0 <= j <= branches@.len(),
                    e == entries(content@),
                    e.len() > 0,
                    e.drop_first() == views(branches@),
                    e[0] == bs@,
                    forall|i: int| 0 <= i < j ==> views(branches@)[i] != bs@,
                decreases branches@.len() - j,
            {
                if branches[j] == bs {
                    proof {
                        assert(e.drop_first()[j as int] == e[0]);
                    }
                    return Err(StackError::BaseInBranches);
                }
                j += 1;
            }
            let mut p: usize = 0;
            while p < branches.len()
                invariant
                    0 <= p <= branches@.len(),
                    e == entries(content@),
                    e.len() > 0,
                    e.drop_first() == views(branches@),
                    e[0] == bs@,
                    !e.drop_first().contains(e[0]),
                    forall|x: int, y: int|
                        0 <= x < p && 0 <= y < branches@.len() && x != y ==> views(branches@)[x]
                            != views(branches@)[y],
                decreases branches@.len() - p,
            {
                let mut q: usize = 0;
                while q < branches.len()
                    invariant
                        0 <= p < branches@.len(),
                        0 <= q <= branches@.len(),
                        e == entries(content@),
                        e.len() > 0,
                        !e.drop_first().contains(e[0]),
                        e.drop_first() == views(branches@),
                        forall|x: int, y: int|
                            0 <= x < p && 0 <= y < branches@.len() && x != y ==> views(
                                branches@,
                            )[x] != views(branches@)[y],
                        forall|y: int|
                            0 <= y < q && y != p ==> views(branches@)[p as int] != views(
                                branches@,
                            )[y],
                    decreases branches@.len() - q,
                {
                    if q != p && branches[p] == branches[q] {
                        proof {
                            assert(e.drop_first()[p as int] == e.drop_first()[q as int]);
                        }
                        return Err(StackError::DuplicateBranches);
                    }
                    q += 1;
                }
                p += 1;
            }
            Ok(Stack { base: bs, branches })
        },
    }
}

/// The base a configuration names: its first branch-carrying line, trimmed.
pub fn stack_base(content: &str) -> (r: Option<String>)
    ensures
        entries(content@).len() == 0 ==> r is None,
        entries(content@).len() > 0 ==> (r matches Some(b) && b@ == entries(content@)[0]),
{
    let cs = chars_of(content);
    let rs = line_ranges(&cs);
    let ghost ls = lines(cs@);
    let mut k: usize = 0;
    proof {
        assert(trim_all(ls.take(0)) =~= Seq::<Seq<char>>::empty());
        reveal(Seq::filter);
    }
    while k < rs.len()
        invariant
            cs@ == content@,
            ls == lines(cs@),
            ranges_within(rs@, cs@.len()),
            rs@.len() == ls.len(),
            forall|j: int| 0 <= j < rs@.len() ==> range_text(cs@, #[trigger] rs@[j]) == ls[j],
            0 <= k <= rs@.len(),
            trim_all(ls.take(k as int)).filter(entry_filter()).len() == 0,
        decreases rs@.len() - k,
    {
        let (lo, hi) = rs[k];
        let (a, b) = trim_range(&cs, lo, hi);
        proof {
            assert(cs@.subrange(lo as int, hi as int) == ls[k as int]);
            lemma_entries_step(ls, k as int);
        }
        if !(a == b || cs[a] == '#') {
            let s = string_of(&cs, a, b);
            proof {
                let pre = trim_all(ls.take(k + 1)).filter(entry_filter());
                assert(pre =~= seq![s@]);
                lemma_entries_prefix(ls, k + 1);
            }
            return Some(s);
        }
        k += 1;
    }
    proof {
        assert(ls.take(rs@.len() as int) =~= ls);
    }
    None
}

proof fn lemma_entries_prefix(ls: Seq<Seq<char>>, k: int)
    requires
        0 <= k <= ls.len(),
        trim_all(ls.take(k)).filter(entry_filter()).len() > 0,
    ensures
        trim_all(ls).filter(entry_filter()).len() > 0,
        trim_all(ls).filter(entry_filter())[0] == trim_all(ls.take(k)).filter(entry_filter())[0],
    decreases ls.len() - k,
{
    if k < ls.len() {
        lemma_entries_step(ls, k);
        lemma_entries_prefix(ls, k + 1);
    } else {
        assert(ls.take(k) =~= ls);
    }
}

/// The text of a file that may be missing.
pub open spec fn opt_text(content: Option<&str>) -> Option<Seq<char>> {
    match content {
        Some(c) => Some(c@),
        None => None,
    }
}

/// Loads stack `name` from the text of its configuration file; `content` is
/// `None` when `.stacks/<name>` does not exist. The name is checked first.
pub fn load_stack(name: &str, content: Option<&str>) -> (r: Result<Stack, StackError>)
    ensures
        load_result_matches(name@, opt_text(content), r),
{
    if !is_valid_stack_name(name) {
        return Err(StackError::InvalidName);
    }
    match content {
        None => Err(StackError::NotFound),
        Some(c) => parse_stack(c),
    }
}

/// Lines written out, each followed by `'\n'`.
pub open spec fn terminated(ls: Seq<Seq<char>>) -> Seq<char>
    decreases ls.len(),
{
    if ls.len() == 0 {
        Seq::empty()
    } else {
        terminated(ls.drop_last()) + ls.last().push('\n')
    }
}

/// Keeps the lines that, trimmed, are not `branch`.
pub open spec fn keep_line(branch: Seq<char>) -> spec_fn(Seq<char>) -> bool {
    |l: Seq<char>| trim(l) != branch
}

/// Keeps the entries that are not `branch`.
pub open spec fn other_than(branch: Seq<char>) -> spec_fn(Seq<char>) -> bool {
    |l: Seq<char>| l != branch
}

/// The configuration text once every line naming `branch` is dropped; the
/// kept lines are written back verbatim, each ended by `'\n'`.
pub open spec fn spec_remove_branch(content: Seq<char>, branch: Seq<char>) -> Seq<char> {
    terminated(lines(content).filter(keep_line(branch)))
}

/// The text ended by a `'\n'` (one is added unless it is already there).
pub open spec fn with_final_newline(content: Seq<char>) -> Seq<char> {
    if content.len() > 0 && content.last() == '\n' {
        content
    } else {
        content.push('\n')
    }
}

/// The configuration text with `branch` added as a last line.
pub open spec fn spec_append_branch(content: Seq<char>, branch: Seq<char>) -> Seq<char> {
    with_final_newline(content) + branch.push('\n')
}

/// The two comment lines that start a new stack configuration.
pub open spec fn header_lines(name: Seq<char>) -> Seq<Seq<char>> {
    seq!["# Stack: "@ + name, "# Base + branches in order, bottom-to-top. '#' for comments."@]
}

/// The text of a new stack configuration: the header, the base, then the
/// branches found by a scan (if any), one per line.
pub open spec fn spec_initial_config(
    name: Seq<char>,
    base: Seq<char>,
    scanned: Seq<Seq<char>>,
) -> Seq<char> {
    terminated(header_lines(name) + seq![base] + scanned)
}

/// A line that names a branch as it is: one line, nothing to trim, not a comment.
pub open spec fn is_plain_line(l: Seq<char>) -> bool {
    !l.contains('\n') && trim(l) == l && is_entry(l)
}

proof fn lemma_terminated_empty_or_newline(ls: Seq<Seq<char>>)
    ensures
        terminated(ls).len() == 0 || terminated(ls).last() == '\n',
{
    if ls.len() > 0 {
        let t = terminated(ls.drop_last()) + ls.last().push('\n');
        assert(t.last() == '\n');
    }
}

proof fn lemma_terminated_concat(xs: Seq<Seq<char>>, ys: Seq<Seq<char>>)
    ensures
        terminated(xs + ys) == terminated(xs) + terminated(ys),
    decreases ys.len(),
{
    if ys.len() == 0 {
        assert(xs + ys =~= xs);
        assert(terminated(xs) + terminated(ys) =~= terminated(xs));
    } else {
        assert((xs + ys).drop_last() =~= xs + ys.drop_last());
        lemma_terminated_concat(xs, ys.drop_last());
        assert(terminated(xs + ys) =~= terminated(xs) + terminated(ys));
    }
}

proof fn lemma_trim_all_concat(a: Seq<Seq<char>>, b: Seq<Seq<char>>)
    ensures
        trim_all(a + b) == trim_all(a) + trim_all(b),
{
    assert(trim_all(a + b) =~= trim_all(a) + trim_all(b));
}

/// Lines with no `'\n'` read back from their written form, up to the `'\r'`
/// of a CRLF ending.
proof fn lemma_lines_terminated(ls: Seq<Seq<char>>)
    requires
        forall|k: int| 0 <= k < ls.len() ==> !(#[trigger] ls[k]).contains('\n'),
    ensures
        lines(terminated(ls)) == ls.map_values(|l: Seq<char>| strip_cr(l)),
    decreases ls.len(),
{
    if ls.len() == 0 {
        assert(split_nl(Seq::<char>::empty()) =~= seq![Seq::<char>::empty()]);
        assert(lines(terminated(ls)) =~= ls.map_values(|l: Seq<char>| strip_cr(l)));
    } else {
        let init = ls.drop_last();
        lemma_lines_terminated(init);
        lemma_terminated_empty_or_newline(init);
        lemma_lines_concat(terminated(init), ls.last().push('\n'));
        assert(!ls[ls.len() - 1].contains('\n'));
        lemma_lines_single(ls.last());
        assert(lines(terminated(ls)) =~= ls.map_values(|l: Seq<char>| strip_cr(l)));
    }
}

proof fn lemma_trim_all_strip_cr(ls: Seq<Seq<char>>)
    ensures
        trim_all(ls.map_values(|l: Seq<char>| strip_cr(l))) == trim_all(ls),
{
    assert forall|k: int| 0 <= k < ls.len() implies trim_all(
        ls.map_values(|l: Seq<char>| strip_cr(l)),
    )[k] == trim_all(ls)[k] by {
        lemma_trim_strip_cr(ls[k]);
    }
    assert(trim_all(ls.map_values(|l: Seq<char>| strip_cr(l))) =~= trim_all(ls));
}

/// The entries of written-out lines are the entries among those lines.
pub proof fn lemma_entries_terminated(ls: Seq<Seq<char>>)
    requires
        forall|k: int| 0 <= k < ls.len() ==> !(#[trigger] ls[k]).contains('\n'),
    ensures
        entries(terminated(ls)) == trim_all(ls).filter(entry_filter()),
{
    lemma_lines_terminated(ls);
    lemma_trim_all_strip_cr(ls);
}

proof fn lemma_entries_concat(x: Seq<char>, y: Seq<char>)
    requires
        x.len() == 0 || x.last() == '\n',
    ensures
        entries(x + y) == entries(x) + entries(y),
{
    lemma_lines_concat(x, y);
    lemma_trim_all_concat(lines(x), lines(y));
    Seq::filter_distributes_over_add(trimmed_lines(x), trimmed_lines(y), entry_filter());
}

proof fn lemma_entries_final_newline(c: Seq<char>)
    ensures
        entries(with_final_newline(c)) == entries(c),
{
    if !(c.len() > 0 && c.last() == '\n') {
        let parts = split_nl(c);
        lemma_split_nl_len(c);
        assert(c.push('\n').drop_last() =~= c);
        assert(split_nl(c.push('\n')) == parts.push(Seq::empty()));
        assert(parts.push(Seq::<char>::empty()).drop_last() =~= parts);
        let d = parts.drop_last().map_values(|l: Seq<char>| strip_cr(l));
        assert(lines(c.push('\n')) =~= d.push(strip_cr(parts.last())));
        assert(trim_all(d.push(strip_cr(parts.last()))) =~= trim_all(d).push(
            trim(strip_cr(parts.last())),
        ));
        lemma_trim_strip_cr(parts.last());
        trim_all(d).lemma_filter_push(trim(parts.last()), entry_filter());
        if parts.last().len() == 0 {
            assert(trim(parts.last()) =~= Seq::<char>::empty());
            assert(lines(c) == d);
        } else {
            assert(lines(c) == d.push(parts.last()));
            assert(trim_all(d.push(parts.last())) =~= trim_all(d).push(trim(parts.last())));
        }
    }
}

proof fn lemma_filter_all<A>(s: Seq<A>, p: spec_fn(A) -> bool)
    requires
        forall|k: int| 0 <= k < s.len() ==> p(#[trigger] s[k]),
    ensures
        s.filter(p) == s,
    decreases s.len(),
{
    reveal(Seq::filter);
    if s.len() > 0 {
        lemma_filter_all(s.drop_last(), p);
        assert(s.drop_last().push(s.last()) =~= s);
    }
}

proof fn lemma_filter_none<A>(s: Seq<A>, p: spec_fn(A) -> bool)
    requires
        forall|k: int| 0 <= k < s.len() ==> !p(#[trigger] s[k]),
    ensures
        s.filter(p) == Seq::<A>::empty(),
    decreases s.len(),
{
    reveal(Seq::filter);
    if s.len() > 0 {
        lemma_filter_none(s.drop_last(), p);
    }
}

/// Filtering keeps a sequence free of duplicates and only keeps its elements.
pub proof fn lemma_filter_no_dup<A>(s: Seq<A>, p: spec_fn(A) -> bool)
    requires
        s.no_duplicates(),
    ensures
        s.filter(p).no_duplicates(),
        forall|x: A| s.filter(p).contains(x) ==> s.contains(x),
    decreases s.len(),
{
    reveal(Seq::filter);
    if s.len() > 0 {
        let d = s.drop_last();
        assert(d.no_duplicates());
        lemma_filter_no_dup(d, p);
        assert(d.push(s.last()) =~= s);
        d.lemma_filter_push(s.last(), p);
        assert forall|x: A| s.filter(p).contains(x) implies s.contains(x) by {
            let i = choose|i: int| 0 <= i < s.filter(p).len() && s.filter(p)[i] == x;
            if i < d.filter(p).len() {
                assert(d.filter(p)[i] == x);
                assert(d.filter(p).contains(x));
                assert(d.contains(x));
                let j = choose|j: int| 0 <= j < d.len() && d[j] == x;
                assert(s[j] == x);
            } else {
                assert(s[s.len() - 1] == x);
            }
        }
        if p(s.last()) {
            assert(!d.contains(s.last())) by {
                if d.contains(s.last()) {
                    let j = choose|j: int| 0 <= j < d.len() && d[j] == s.last();
                    assert(s[j] == s[s.len() - 1]);
                }
            }
            assert(!d.filter(p).contains(s.last()));
        }
    }
}

proof fn lemma_remove_filters(ls: Seq<Seq<char>>, b: Seq<char>)
    ensures
        trim_all(ls.filter(keep_line(b))).filter(entry_filter()) == trim_all(ls).filter(
            entry_filter(),
        ).filter(other_than(b)),
    decreases ls.len(),
{
    reveal(Seq::filter);
    if ls.len() > 0 {
        let d = ls.drop_last();
        let x = ls.last();
        lemma_remove_filters(d, b);
        assert(trim_all(ls) =~= trim_all(d).push(trim(x)));
        trim_all(d).lemma_filter_push(trim(x), entry_filter());
        trim_all(d).filter(entry_filter()).lemma_filter_push(trim(x), other_than(b));
        if keep_line(b)(x) {
            assert(trim_all(d.filter(keep_line(b)).push(x)) =~= trim_all(d.filter(keep_line(b))).push(trim(x)));
            trim_all(d.filter(keep_line(b))).lemma_filter_push(trim(x), entry_filter());
        }
    }
}

/// What the stack holds after `spec_remove_branch`: every entry but `branch`.
pub proof fn lemma_entries_remove(content: Seq<char>, b: Seq<char>)
    ensures
        entries(spec_remove_branch(content, b)) == entries(content).filter(other_than(b)),
{
    let ls = lines(content);
    lemma_lines_no_newline(content);
    let kept = ls.filter(keep_line(b));
    assert forall|k: int| 0 <= k < kept.len() implies !(#[trigger] kept[k]).contains('\n') by {
        assert(kept.contains(kept[k]));
        ls.lemma_filter_contains_rev(keep_line(b), kept[k]);
        let j = choose|j: int| 0 <= j < ls.len() && ls[j] == kept[k];
    }
    lemma_entries_terminated(kept);
    lemma_remove_filters(ls, b);
}

/// Law of `sd rm`: removing a branch of a loaded stack leaves a configuration
/// that loads as the same base with that branch gone and the others in order.
pub proof fn law_remove_branch(content: Seq<char>, base: Seq<char>, branches: Seq<Seq<char>>, b: Seq<char>)
    requires
        spec_parse_stack(content) == Ok::<(Seq<char>, Seq<Seq<char>>), StackError>((base, branches)),
        b != base,
    ensures
        spec_parse_stack(spec_remove_branch(content, b)) == Ok::<(Seq<char>, Seq<Seq<char>>), StackError>(
            (base, branches.filter(other_than(b))),
        ),
{
    let e = entries(content);
    lemma_entries_remove(content, b);
    assert(e =~= seq![base] + branches);
    Seq::filter_distributes_over_add(seq![base], branches, other_than(b));
    reveal(Seq::filter);
    assert(seq![base].drop_last() =~= Seq::<Seq<char>>::empty());
    assert(seq![base].filter(other_than(b)) =~= seq![base]);
    lemma_filter_no_dup(branches, other_than(b));
    let e2 = seq![base] + branches.filter(other_than(b));
    assert(e2.drop_first() =~= branches.filter(other_than(b)));
}

/// Law of `sd add`: appending a plain branch name that is neither the base
/// nor already a branch gives a configuration that loads with that branch on top.
pub proof fn law_append_branch(content: Seq<char>, base: Seq<char>, branches: Seq<Seq<char>>, b: Seq<char>)
    requires
        spec_parse_stack(content) == Ok::<(Seq<char>, Seq<Seq<char>>), StackError>((base, branches)),
        is_plain_line(b),
        b != base,
        !branches.contains(b),
    ensures
        spec_parse_stack(spec_append_branch(content, b)) == Ok::<(Seq<char>, Seq<Seq<char>>), StackError>(
            (base, branches.push(b)),
        ),
{
    let w = with_final_newline(content);
    assert(w.len() > 0 && w.last() == '\n');
    lemma_entries_concat(w, b.push('\n'));
    lemma_entries_final_newline(content);
    lemma_lines_single(b);
    lemma_trim_strip_cr(b);
    assert(trim_all(seq![strip_cr(b)]) =~= seq![b]);
    reveal(Seq::filter);
    assert(seq![b].drop_last() =~= Seq::<Seq<char>>::empty());
    assert(seq![b].filter(entry_filter()) =~= seq![b]);
    let e = entries(content);
    assert(e =~= seq![base] + branches);
    let e2 = e + seq![b];
    assert(e2.drop_first() =~= branches.push(b));
    assert(e2[0] == base);
    assert(!branches.push(b).contains(base)) by {
        if branches.push(b).contains(base) {
            let j = choose|j: int| 0 <= j < branches.push(b).len() && branches.push(b)[j] == base;
            assert(e.drop_first()[j] == base);
        }
    }
}

proof fn lemma_header_not_entries(name: Seq<char>)
    requires
        spec_valid_stack_name(name),
    ensures
        forall|k: int| 0 <= k < header_lines(name).len() ==> !(#[trigger] header_lines(name)[k]).contains('\n'),
        trim_all(header_lines(name)).filter(entry_filter()) == Seq::<Seq<char>>::empty(),
{
    reveal_strlit("# Stack: ");
    reveal_strlit("# Base + branches in order, bottom-to-top. '#' for comments.");
    let h = header_lines(name);
    let h1 = "# Stack: "@ + name;
    let h2 = "# Base + branches in order, bottom-to-top. '#' for comments."@;
    assert(!h1.contains('\n')) by {
        if h1.contains('\n') {
            let j = choose|j: int| 0 <= j < h1.len() && h1[j] == '\n';
            if j >= 9 {
                assert(name[j - 9] == '\n');
                assert(is_name_char(name[j - 9]));
            }
        }
    }
    assert(!h2.contains('\n')) by {
        if h2.contains('\n') {
            let j = choose|j: int| 0 <= j < h2.len() && h2[j] == '\n';
        }
    }
    lemma_trim_keeps_first(h1);
    lemma_trim_keeps_first(h2);
    assert forall|k: int| 0 <= k < trim_all(h).len() implies !entry_filter()(#[trigger] trim_all(h)[k]) by {
        if k == 0 {
            assert(trim_all(h)[0] == trim(h1));
        } else {
            assert(trim_all(h)[1] == trim(h2));
        }
    }
    lemma_filter_none(trim_all(h), entry_filter());
}

/// Law of `sd init`: a new configuration loads as the base and the scanned
/// branches it was written with, when these are plain and distinct.
pub proof fn law_initial_config(name: Seq<char>, base: Seq<char>, scanned: Seq<Seq<char>>)
    requires
        spec_valid_stack_name(name),
        is_plain_line(base),
        forall|k: int| 0 <= k < scanned.len() ==> is_plain_line(#[trigger] scanned[k]),
        scanned.no_duplicates(),
        !scanned.contains(base),
    ensures
        spec_parse_stack(spec_initial_config(name, base, scanned)) == Ok::<(Seq<char>, Seq<Seq<char>>), StackError>(
            (base, scanned),
        ),
{
    let h = header_lines(name);
    let all = h + seq![base] + scanned;
    lemma_header_not_entries(name);
    assert forall|k: int| 0 <= k < all.len() implies !(#[trigger] all[k]).contains('\n') by {
        if k < 2 {
            assert(all[k] == h[k]);
        } else if k == 2 {
            assert(all[k] == base);
        } else {
            assert(all[k] == scanned[k - 3]);
        }
    }
    lemma_entries_terminated(all);
    lemma_trim_all_concat(h + seq![base], scanned);
    lemma_trim_all_concat(h, seq![base]);
    assert(trim_all(seq![base]) =~= seq![base]);
    assert forall|k: int| 0 <= k < trim_all(scanned).len() implies trim_all(scanned)[k] == scanned[k] by {}
    assert(trim_all(scanned) =~= scanned);
    Seq::filter_distributes_over_add(trim_all(h) + seq![base], scanned, entry_filter());
    Seq::filter_distributes_over_add(trim_all(h), seq![base], entry_filter());
    reveal(Seq::filter);
    assert(seq![base].drop_last() =~= Seq::<Seq<char>>::empty());
    assert(seq![base].filter(entry_filter()) =~= seq![base]);
    lemma_filter_all(scanned, entry_filter());
    let e = seq![base] + scanned;
    assert(entries(spec_initial_config(name, base, scanned)) =~= e);
    assert(e.drop_first() =~= scanned);
}

/// Every branch-carrying line of a configuration is a plain line.
proof fn lemma_entries_plain(content: Seq<char>)
    ensures
        forall|k: int| 0 <= k < entries(content).len() ==> is_plain_line(#[trigger] entries(content)[k]),
{
    let ls = lines(content);
    let ts = trimmed_lines(content);
    lemma_lines_no_newline(content);
    assert forall|k: int| 0 <= k < entries(content).len() implies is_plain_line(#[trigger] entries(content)[k]) by {
        let e = entries(content)[k];
        assert(ts.filter(entry_filter()).contains(e));
        ts.lemma_filter_contains_rev(entry_filter(), e);
        let j = choose|j: int| 0 <= j < ts.len() && ts[j] == e;
        assert(ts[j] == trim(ls[j]));
        lemma_trim_idempotent(ls[j]);
        if e.contains('\n') {
            assert(ls[j].contains('\n'));
        }
    }
}

/// Law of loading: a configuration that loads names its base and branches
/// by plain lines (nothing blank, no comment, nothing to trim), the base is
/// not among the branches, and no branch appears twice.
pub proof fn law_loaded_stack_is_plain(content: Seq<char>, base: Seq<char>, branches: Seq<Seq<char>>)
    requires
        spec_parse_stack(content) == Ok::<(Seq<char>, Seq<Seq<char>>), StackError>((base, branches)),
    ensures
        is_plain_line(base),
        forall|k: int| 0 <= k < branches.len() ==> is_plain_line(#[trigger] branches[k]),
        branches.no_duplicates(),
        !branches.contains(base),
{
    let e = entries(content);
    lemma_entries_plain(content);
    assert(base == e[0]);
    assert forall|k: int| 0 <= k < branches.len() implies is_plain_line(#[trigger] branches[k]) by {
        assert(branches[k] == e[k + 1]);
    }
}

/// Law of loading and `sd init`: a loaded stack written out as a fresh
/// configuration (under any valid name) loads back as the same stack.
pub proof fn law_loaded_stack_rewrites(content: Seq<char>, name: Seq<char>, base: Seq<char>, branches: Seq<Seq<char>>)
    requires
        spec_parse_stack(content) == Ok::<(Seq<char>, Seq<Seq<char>>), StackError>((base, branches)),
        spec_valid_stack_name(name),
    ensures
        spec_parse_stack(spec_initial_config(name, base, branches)) == spec_parse_stack(content),
{
    law_loaded_stack_is_plain(content, base, branches);
    law_initial_config(name, base, branches);
}

/// Law of `sd add` then `sd rm`: appending a branch to a configuration
/// written as lines `ls` (none holding a `'\n'` or ending in `'\r'`, none
/// naming the branch) and removing it again gives back the same text.
pub proof fn law_add_then_remove(ls: Seq<Seq<char>>, b: Seq<char>)
    requires
        ls.len() > 0,
        forall|k: int| 0 <= k < ls.len() ==> !(#[trigger] ls[k]).contains('\n'),
        forall|k: int| 0 <= k < ls.len() ==> strip_cr(#[trigger] ls[k]) == ls[k],
        forall|k: int| 0 <= k < ls.len() ==> trim(#[trigger] ls[k]) != b,
        !b.contains('\n'),
        trim(b) == b,
    ensures
        spec_remove_branch(spec_append_branch(terminated(ls), b), b) == terminated(ls),
{
    let c = terminated(ls);
    let all = ls.push(b);
    assert(c.len() > 0 && c.last() == '\n') by {
        assert(c == terminated(ls.drop_last()) + ls.last().push('\n'));
    }
    assert(all.drop_last() =~= ls);
    assert(spec_append_branch(c, b) == terminated(all));
    assert forall|k: int| 0 <= k < all.len() implies !(#[trigger] all[k]).contains('\n') by {
        if k < ls.len() {
            assert(all[k] == ls[k]);
        }
    }
    lemma_lines_terminated(all);
    if b.len() > 0 && b.last() == '\r' {
        lemma_trim_drop_ws_last(b);
        lemma_trim_len(b.drop_last());
    }
    assert(all.map_values(|l: Seq<char>| strip_cr(l)) =~= all);
    reveal(Seq::filter);
    assert(all.filter(keep_line(b)) == ls.filter(keep_line(b)));
    lemma_filter_all(ls, keep_line(b));
}

fn same_text(cs: &[char], a: usize, b: usize, t: &[char]) -> (r: bool)
    requires
        a <= b <= cs@.len(),
    ensures
        r == (cs@.subrange(a as int, b as int) == t@),
{
    if b - a != t.len() {
        return false;
    }
    let mut i: usize = 0;
    while i < t.len()
        invariant
            a <= b <= cs@.len(),
            b - a == t@.len(),
            0 <= i <= t@.len(),
            forall|j: int| 0 <= j < i ==> cs@[a + j] == t@[j],
        decreases t@.len() - i,
    {
        if cs[a + i] != t[i] {
            return false;
        }
        i += 1;
    }
    assert(cs@.subrange(a as int, b as int) =~= t@);
    true
}

/// The configuration text once every line naming `branch` is removed
/// (the local git branch itself is left alone).
pub fn remove_branch_from_config(content: &str, branch: &str) -> (r: String)
    ensures
        r@ == spec_remove_branch(content@, branch@),
{
    let cs = chars_of(content);
    let bs = chars_of(branch);
    let rs = line_ranges(&cs);
    let ghost ls = lines(cs@);
    let mut out = String::new();
    let mut k: usize = 0;
    while k < rs.len()
        invariant
            cs@ == content@,
            bs@ == branch@,
            ls == lines(cs@),
            ranges_within(rs@, cs@.len()),
            rs@.len() == ls.len(),
            forall|j: int| 0 <= j < rs@.len() ==> range_text(cs@, #[trigger] rs@[j]) == ls[j],
            0 <= k <= rs@.len(),
            out@ == terminated(ls.take(k as int).filter(keep_line(branch@))),
        decreases rs@.len() - k,
    {
        let (lo, hi) = rs[k];
        let (a, b) = trim_range(&cs, lo, hi);
        proof {
            assert(cs@.subrange(lo as int, hi as int) == ls[k as int]);
            assert(ls.take(k + 1) =~= ls.take(k as int).push(ls[k as int]));
            ls.take(k as int).lemma_filter_push(ls[k as int], keep_line(branch@));
        }
        if !same_text(&cs, a, b, &bs) {
            let ghost before = out@;
            push_chars(&mut out, &cs, lo, hi);
            out.push('\n');
            proof {
                let f = ls.take(k as int).filter(keep_line(branch@));
                assert(f.push(ls[k as int]).drop_last() =~= f);
                assert(out@ =~= terminated(f.push(ls[k as int])));
            }
        }
        k += 1;
    }
    proof {
        assert(ls.take(rs@.len() as int) =~= ls);
    }
    out
}

/// The configuration text with `branch` added as its last line.
pub fn append_branch_to_config(content: &str, branch: &str) -> (r: String)
    ensures
        r@ == spec_append_branch(content@, branch@),
{
    let cs = chars_of(content);
    let mut out = String::new();
    push_chars(&mut out, &cs, 0, cs.len());
    proof {
        assert(cs@.subrange(0, cs@.len() as int) =~= cs@);
    }
    if cs.len() == 0 || cs[cs.len() - 1] != '\n' {
        out.push('\n');
    }
    push_str(&mut out, branch);
    out.push('\n');
    proof {
        assert(out@ =~= spec_append_branch(content@, branch@));
    }
    out
}

/// The text of a new stack configuration: a two-line header, the base, and
/// then each scanned branch, one per line.
pub fn initial_config(name: &str, base: &str, scanned: &Vec<String>) -> (r: String)
    ensures
        r@ == spec_initial_config(name@, base@, views(scanned@)),
{
    let mut out = String::new();
    push_str(&mut out, "# Stack: ");
    push_str(&mut out, name);
    out.push('\n');
    push_str(&mut out, "# Base + branches in order, bottom-to-top. '#' for comments.");
    out.push('\n');
    push_str(&mut out, base);
    out.push('\n');
    let ghost head = header_lines(name@) + seq![base@];
    proof {
        let h1 = "# Stack: "@ + name@;
        let h2 = "# Base + branches in order, bottom-to-top. '#' for comments."@;
        assert(head.drop_last() =~= header_lines(name@));
        assert(header_lines(name@).drop_last() =~= seq![h1]);
        assert(seq![h1].drop_last() =~= Seq::<Seq<char>>::empty());
        assert(terminated(Seq::<Seq<char>>::empty()) =~= Seq::<char>::empty());
        assert(terminated(seq![h1]) =~= h1.push('\n'));
        assert(terminated(header_lines(name@)) =~= h1.push('\n') + h2.push('\n'));
        assert(terminated(head) =~= h1.push('\n') + h2.push('\n') + base@.push('\n'));
        assert(out@ =~= terminated(head));
    }
    let mut i: usize = 0;
    while i < scanned.len()
        invariant
            0 <= i <= scanned@.len(),
            out@ == terminated(head) + terminated(views(scanned@).take(i as int)),
        decreases scanned@.len() - i,
    {
        let ghost before = out@;
        push_str(&mut out, scanned[i].as_str());
        out.push('\n');
        proof {
            let t = views(scanned@).take(i + 1);
            assert(t.drop_last() =~= views(scanned@).take(i as int));
            assert(out@ =~= terminated(head) + terminated(t));
        }
        i += 1;
    }
    proof {
        assert(views(scanned@).take(scanned@.len() as int) =~= views(scanned@));
        lemma_terminated_concat(head, views(scanned@));
    }
    out
}

} // verus!

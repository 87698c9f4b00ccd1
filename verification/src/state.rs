//! The on-disk state of a rebase run: where it lives and how its small
//! files are written and read back.
//!
//! A run keeps, under `<git-dir>/stack-rebase-<enc(stack)>/`, the files
//! `base`, `branches`, `started-at`, `original-head`, `next-index`, and one
//! file per ref under `oldtip/` (the tips before the run) and `newtip/`
//! (the tips after each branch was rebased).
use vstd::prelude::*;
use crate::text::{
    chars_of, decimal, decimal_string, is_ws, lemma_decimal_value, lemma_trim_drop_ws_last,
    lemma_trim_no_ws_ends, parse_usize, push_str, spec_parse_uint, trim, trim_range, views,
};

verus! {

broadcast use vstd::seq_lib::group_seq_properties;

/// What stands for a `'/'` in an encoded ref name.
pub open spec fn slash_token() -> Seq<char> {
    seq!['_', '_', 'S', 'L', 'A', 'S', 'H', '_', '_']
}

/// A ref name made fit to be one path component: every `'/'` becomes `__SLASH__`.
pub open spec fn spec_enc(r: Seq<char>) -> Seq<char>
    decreases r.len(),
{
    if r.len() == 0 {
        Seq::empty()
    } else {
        spec_enc(r.drop_last()) + (if r.last() == '/' {
            slash_token()
        } else {
            seq![r.last()]
        })
    }
}

/// A POSIX path is absolute when it starts with `'/'`.
pub open spec fn is_absolute(p: Seq<char>) -> bool {
    p.len() > 0 && p[0] == '/'
}

/// `Path::join` on POSIX paths: an absolute `rel` replaces `base`; otherwise
/// `rel` is appended after a `'/'` unless `base` is empty or already ends in one.
pub open spec fn spec_join(base: Seq<char>, rel: Seq<char>) -> Seq<char> {
    if is_absolute(rel) {
        rel
    } else if base.len() == 0 || base.last() == '/' {
        base + rel
    } else {
        base.push('/') + rel
    }
}

/// The state directory of stack `name`, given the repository root and what
/// `git rev-parse --git-dir` printed (relative to the root unless absolute).
pub open spec fn spec_state_dir(repo_root: Seq<char>, git_dir: Seq<char>, name: Seq<char>) -> Seq<
    char,
> {
    let gd = if is_absolute(git_dir) {
        git_dir
    } else {
        spec_join(repo_root, git_dir)
    };
    spec_join(gd, "stack-rebase-"@ + spec_enc(name))
}

/// Encodes a ref name for use as a file name.
pub fn enc(r: &str) -> (e: String)
    ensures
        e@ == spec_enc(r@),
{
    let cs = chars_of(r);
    let mut out = String::new();
    let mut i: usize = 0;
    while i < cs.len()
        invariant
            cs@ == r@,
            0 <= i <= cs@.len(),
            out@ == spec_enc(cs@.take(i as int)),
        decreases cs@.len() - i,
    {
        proof {
            assert(cs@.take(i + 1).drop_last() =~= cs@.take(i as int));
        }
        if cs[i] == '/' {
            push_str(&mut out, "__SLASH__");
            proof {
                reveal_strlit("__SLASH__");
                assert("__SLASH__"@ =~= slash_token());
            }
        } else {
            out.push(cs[i]);
            proof {
                assert(out@ =~= spec_enc(cs@.take(i as int)) + seq![cs@[i as int]]);
            }
        }
        i += 1;
    }
    proof {
        assert(cs@.take(cs@.len() as int) =~= cs@);
    }
    out
}

/// What `str::replace("__SLASH__", "/")` gives: each `__SLASH__`, found
/// from the left without overlap, becomes `'/'`.
pub open spec fn spec_decode(s: Seq<char>) -> Seq<char>
    decreases s.len(),
{
    if s.len() == 0 {
        Seq::empty()
    } else if s.len() >= 9 && s.take(9) == slash_token() {
        seq!['/'] + spec_decode(s.skip(9))
    } else {
        seq![s[0]] + spec_decode(s.drop_first())
    }
}

/// Encoding text in two parts encodes each part.
proof fn lemma_enc_concat(a: Seq<char>, b: Seq<char>)
    ensures
        spec_enc(a + b) == spec_enc(a) + spec_enc(b),
    decreases b.len(),
{
    if b.len() == 0 {
        assert(a + b =~= a);
        assert(spec_enc(a) + spec_enc(b) =~= spec_enc(a));
    } else {
        lemma_enc_concat(a, b.drop_last());
        assert((a + b).drop_last() =~= a + b.drop_last());
        assert((a + b).last() == b.last());
        let tail = if b.last() == '/' {
            slash_token()
        } else {
            seq![b.last()]
        };
        assert(spec_enc(a) + spec_enc(b) =~= spec_enc(a) + spec_enc(b.drop_last()) + tail);
    }
}

proof fn lemma_enc_one(c: char)
    ensures
        spec_enc(seq![c]) == (if c == '/' {
            slash_token()
        } else {
            seq![c]
        }),
{
    let one = seq![c];
    assert(one.drop_last() =~= Seq::<char>::empty());
    assert(spec_enc(Seq::<char>::empty()) =~= Seq::<char>::empty());
    assert(one.last() == c);
    assert(spec_enc(one) == spec_enc(one.drop_last()) + (if c == '/' {
        slash_token()
    } else {
        seq![c]
    }));
    assert(Seq::<char>::empty() + slash_token() =~= slash_token());
    assert(Seq::<char>::empty() + seq![c] =~= seq![c]);
}

/// Law of the state files: decoding the encoded name of a ref without
/// `'_'` (replacing `__SLASH__` by `'/'`) gives the name back.
pub proof fn law_enc_decodes(r: Seq<char>)
    requires
        !r.contains('_'),
    ensures
        spec_decode(spec_enc(r)) == r,
    decreases r.len(),
{
    if r.len() == 0 {
        assert(spec_enc(r) =~= Seq::<char>::empty());
    } else {
        let c = r[0];
        let rest = r.drop_first();
        assert(r =~= seq![c] + rest);
        lemma_enc_concat(seq![c], rest);
        lemma_enc_one(c);
        assert(!rest.contains('_')) by {
            if rest.contains('_') {
                let j = choose|j: int| 0 <= j < rest.len() && rest[j] == '_';
                assert(r[j + 1] == '_');
            }
        }
        law_enc_decodes(rest);
        let e = spec_enc(r);
        if c == '/' {
            assert(e.take(9) =~= slash_token());
            assert(e.skip(9) =~= spec_enc(rest));
        } else {
            assert(r.contains(c));
            assert(e[0] == c);
            assert(e.len() >= 9 ==> e.take(9)[0] != slash_token()[0]);
            assert(e.drop_first() =~= spec_enc(rest));
        }
        assert(spec_decode(e) =~= r);
    }
}

/// Law of the state files: names without `'_'` get distinct encodings, so
/// their tip files never collide (`"a/b"` and `"a__SLASH__b"`, which holds
/// `'_'`, do).
pub proof fn law_enc_injective(r: Seq<char>, r2: Seq<char>)
    requires
        !r.contains('_'),
        !r2.contains('_'),
        spec_enc(r) == spec_enc(r2),
    ensures
        r == r2,
    decreases r.len(),
{
    let e = spec_enc(r);
    if r.len() == 0 || r2.len() == 0 {
        if r.len() > 0 {
            assert(e.len() > 0);
        }
        if r2.len() > 0 {
            assert(spec_enc(r2).len() > 0);
        }
        assert(r =~= r2);
    } else {
        let a = r.drop_last();
        let b = r2.drop_last();
        assert(!a.contains('_')) by {
            if a.contains('_') {
                let j = choose|j: int| 0 <= j < a.len() && a[j] == '_';
                assert(r[j] == '_');
            }
        }
        assert(!b.contains('_')) by {
            if b.contains('_') {
                let j = choose|j: int| 0 <= j < b.len() && b[j] == '_';
                assert(r2[j] == '_');
            }
        }
        assert(r.contains(r.last()));
        assert(r2.contains(r2.last()));
        if r.last() == '/' {
            assert(e.last() == '_');
            assert(r2.last() == '/');
            assert(spec_enc(a) =~= e.subrange(0, e.len() - 9));
            assert(spec_enc(b) =~= e.subrange(0, e.len() - 9));
        } else {
            assert(e.last() == r.last());
            assert(r2.last() != '/');
            assert(spec_enc(a) =~= e.drop_last());
            assert(spec_enc(b) =~= e.drop_last());
        }
        law_enc_injective(a, b);
        assert(r =~= a.push(r.last()));
        assert(r2 =~= b.push(r2.last()));
    }
}

/// Encoded names hold no `'/'`, so each is a single path component.
pub proof fn law_enc_has_no_slash(r: Seq<char>)
    ensures
        !spec_enc(r).contains('/'),
    decreases r.len(),
{
    if r.len() > 0 {
        law_enc_has_no_slash(r.drop_last());
        let prev = spec_enc(r.drop_last());
        let tail = if r.last() == '/' {
            slash_token()
        } else {
            seq![r.last()]
        };
        if spec_enc(r).contains('/') {
            let j = choose|j: int| 0 <= j < spec_enc(r).len() && spec_enc(r)[j] == '/';
            if j < prev.len() {
                assert(prev[j] == '/');
            } else {
                assert(tail[j - prev.len()] == '/');
            }
        }
    }
}

/// Joins two POSIX paths as `Path::join` does.
pub fn join_path(base: &str, rel: &str) -> (p: String)
    ensures
        p@ == spec_join(base@, rel@),
{
    let rc = chars_of(rel);
    let bc = chars_of(base);
    let mut out = String::new();
    if rc.len() > 0 && rc[0] == '/' {
        push_str(&mut out, rel);
        return out;
    }
    push_str(&mut out, base);
    if !(bc.len() == 0 || bc[bc.len() - 1] == '/') {
        out.push('/');
    }
    push_str(&mut out, rel);
    out
}

/// Where the rebase state of stack `name` lives.
pub fn state_dir(repo_root: &str, git_dir: &str, name: &str) -> (p: String)
    ensures
        p@ == spec_state_dir(repo_root@, git_dir@, name@),
{
    let gc = chars_of(git_dir);
    let gd = if gc.len() > 0 && gc[0] == '/' {
        let mut s = String::new();
        push_str(&mut s, git_dir);
        s
    } else {
        join_path(repo_root, git_dir)
    };
    let mut leaf = String::new();
    push_str(&mut leaf, "stack-rebase-");
    let e = enc(name);
    push_str(&mut leaf, e.as_str());
    join_path(gd.as_str(), leaf.as_str())
}

/// The file that records a ref's tip: `<state_dir>/<kind>/<enc(ref)>`.
pub fn tip_file(state_dir: &str, kind: &str, r: &str) -> (p: String)
    ensures
        p@ == spec_join(spec_join(state_dir@, kind@), spec_enc(r@)),
{
    let d = join_path(state_dir, kind);
    let e = enc(r);
    join_path(d.as_str(), e.as_str())
}

/// The text of a one-value state file: the value and a newline.
pub open spec fn spec_record(v: Seq<char>) -> Seq<char> {
    v.push('\n')
}

/// A state file's value: its text trimmed; a missing file reads as empty.
pub open spec fn spec_read_record(content: Option<Seq<char>>) -> Seq<char> {
    match content {
        Some(c) => trim(c),
        None => Seq::empty(),
    }
}

/// The branch to check out again when a run ends, from the text of its
/// `original-head` file: its trimmed value, unless that is empty or the file
/// is missing. (It is checked out only if it still exists.)
pub fn head_to_restore(content: Option<&str>) -> (r: Option<String>)
    ensures
        content is None ==> r is None,
        content matches Some(c) ==> (if trim(c@).len() == 0 {
            r is None
        } else {
            r matches Some(h) && h@ == trim(c@)
        }),
{
    match content {
        None => None,
        Some(_) => {
            let v = read_record(content);
            if v.as_str().unicode_len() == 0 {
                None
            } else {
                Some(v)
            }
        },
    }
}

/// Lines joined with `sep` between them.
pub open spec fn joined(ls: Seq<Seq<char>>, sep: Seq<char>) -> Seq<char>
    decreases ls.len(),
{
    if ls.len() == 0 {
        Seq::empty()
    } else if ls.len() == 1 {
        ls[0]
    } else {
        joined(ls.drop_last(), sep) + sep + ls.last()
    }
}

/// Joins strings with a separator, as `[String]::join` does.
pub fn join_strings(items: &Vec<String>, sep: &str) -> (r: String)
    ensures
        r@ == joined(views(items@), sep@),
{
    let mut out = String::new();
    let mut i: usize = 0;
    while i < items.len()
        invariant
            0 <= i <= items@.len(),
            out@ == joined(views(items@).take(i as int), sep@),
        decreases items@.len() - i,
    {
        proof {
            let t = views(items@).take(i + 1);
            assert(t.drop_last() =~= views(items@).take(i as int));
            if i == 0 {
                assert(views(items@).take(0) =~= Seq::<Seq<char>>::empty());
            }
        }
        if i > 0 {
            push_str(&mut out, sep);
        }
        push_str(&mut out, items[i].as_str());
        proof {
            let t = views(items@).take(i + 1);
            if i == 0 {
                assert(out@ =~= t[0]);
            }
        }
        i += 1;
    }
    proof {
        assert(views(items@).take(items@.len() as int) =~= views(items@));
    }
    out
}

/// The text of the `next-index` file recording that `n` branches are done.
pub fn next_index_text(n: usize) -> (t: String)
    ensures
        t@ == spec_record(decimal(n as nat)),
{
    let mut t = decimal_string(n as u64);
    t.push('\n');
    t
}

/// How many branches a run has finished, from the `next-index` file: its
/// trimmed text as a number, or 0 when the file is missing or unreadable.
pub open spec fn spec_next_index(content: Option<Seq<char>>) -> nat {
    match content {
        Some(c) => match spec_parse_uint(trim(c), usize::MAX as nat) {
            Some(n) => n,
            None => 0,
        },
        None => 0,
    }
}

pub open spec fn opt_text(content: Option<&str>) -> Option<Seq<char>> {
    match content {
        Some(c) => Some(c@),
        None => None,
    }
}

/// Reads the `next-index` file.
pub fn parse_next_index(content: Option<&str>) -> (n: usize)
    ensures
        n as nat == spec_next_index(opt_text(content)),
{
    match content {
        None => 0,
        Some(c) => {
            let cs = chars_of(c);
            let (a, b) = trim_range(&cs, 0, cs.len());
            proof {
                assert(cs@.subrange(0, cs@.len() as int) =~= c@);
            }
            let t = crate::text::string_of(&cs, a, b);
            match parse_usize(t.as_str()) {
                Some(v) => v,
                None => 0,
            }
        },
    }
}

/// Reads a one-value state file: its text trimmed, or empty when missing.
pub fn read_record(content: Option<&str>) -> (v: String)
    ensures
        v@ == spec_read_record(opt_text(content)),
{
    match content {
        None => String::new(),
        Some(c) => {
            let cs = chars_of(c);
            let (a, b) = trim_range(&cs, 0, cs.len());
            proof {
                assert(cs@.subrange(0, cs@.len() as int) =~= c@);
            }
            crate::text::string_of(&cs, a, b)
        },
    }
}

/// A run's saved state still fits the configuration when the saved base and
/// the saved branch list (one per line) are those of the configuration.
pub open spec fn spec_state_matches(
    saved_base: Option<Seq<char>>,
    saved_branches: Option<Seq<char>>,
    base: Seq<char>,
    branches: Seq<Seq<char>>,
) -> bool {
    spec_read_record(saved_base) == base && spec_read_record(saved_branches) == joined(
        branches,
        seq!['\n'],
    )
}

/// Whether a saved run belongs to the stack as it is configured now.
pub fn state_matches(
    saved_base: Option<&str>,
    saved_branches: Option<&str>,
    base: &str,
    branches: &Vec<String>,
) -> (r: bool)
    ensures
        r == spec_state_matches(opt_text(saved_base), opt_text(saved_branches), base@, views(branches@)),
{
    let sb = read_record(saved_base);
    let sbr = read_record(saved_branches);
    let j = join_strings(branches, "\n");
    proof {
        reveal_strlit("\n");
        assert("\n"@ =~= seq!['\n']);
    }
    let b = base.to_owned();
    sb == b && sbr == j
}

/// A name fit to be written on a line of its own and read back by trimming.
pub open spec fn is_plain_name(l: Seq<char>) -> bool {
    l.len() > 0 && !is_ws(l[0]) && !is_ws(l.last()) && !l.contains('\n')
}

/// Law of resuming: the number written to `next-index` reads back unchanged.
pub proof fn law_next_index_round_trip(n: usize)
    ensures
        spec_next_index(Some(spec_record(decimal(n as nat)))) == n,
{
    lemma_decimal_value(n as nat);
    let d = decimal(n as nat);
    lemma_trim_drop_ws_last(d.push('\n'));
    assert(d.push('\n').drop_last() =~= d);
    lemma_trim_no_ws_ends(d);
}

proof fn lemma_joined_ends(ls: Seq<Seq<char>>)
    requires
        forall|k: int| 0 <= k < ls.len() ==> is_plain_name(#[trigger] ls[k]),
    ensures
        ls.len() > 0 ==> joined(ls, seq!['\n']).len() > 0 && joined(ls, seq!['\n'])[0] == ls[0][0]
            && joined(ls, seq!['\n']).last() == ls.last().last(),
    decreases ls.len(),
{
    if ls.len() > 1 {
        lemma_joined_ends(ls.drop_last());
        let j = joined(ls.drop_last(), seq!['\n']);
        assert(joined(ls, seq!['\n'])[0] == j[0]);
    }
}

proof fn lemma_joined_single_line(ls: Seq<Seq<char>>)
    requires
        forall|k: int| 0 <= k < ls.len() ==> is_plain_name(#[trigger] ls[k]),
    ensures
        ls.len() >= 2 ==> joined(ls, seq!['\n']).contains('\n'),
        ls.len() == 1 ==> !joined(ls, seq!['\n']).contains('\n'),
{
    if ls.len() >= 2 {
        let j = joined(ls.drop_last(), seq!['\n']);
        let x = joined(ls, seq!['\n']);
        assert(x == j + seq!['\n'] + ls.last());
        assert(x[j.len() as int] == '\n');
    }
}

/// Lists of plain names are told apart by their lines: two lists that
/// join to the same text are the same list.
proof fn lemma_joined_injective(a: Seq<Seq<char>>, b: Seq<Seq<char>>)
    requires
        forall|k: int| 0 <= k < a.len() ==> is_plain_name(#[trigger] a[k]),
        forall|k: int| 0 <= k < b.len() ==> is_plain_name(#[trigger] b[k]),
        joined(a, seq!['\n']) == joined(b, seq!['\n']),
    ensures
        a == b,
    decreases a.len() + b.len(),
{
    let x = joined(a, seq!['\n']);
    lemma_joined_ends(a);
    lemma_joined_ends(b);
    lemma_joined_single_line(a);
    lemma_joined_single_line(b);
    if a.len() == 0 || b.len() == 0 {
        assert(a =~= b);
    } else if a.len() == 1 && b.len() == 1 {
        assert(a =~= b);
    } else if a.len() == 1 || b.len() == 1 {
        assert(false);
    } else {
        let ja = joined(a.drop_last(), seq!['\n']);
        let jb = joined(b.drop_last(), seq!['\n']);
        let la = a.last();
        let lb = b.last();
        assert(x == ja + seq!['\n'] + la);
        assert(x == jb + seq!['\n'] + lb);
        assert(is_plain_name(a[a.len() - 1]) && is_plain_name(b[b.len() - 1]));
        if la.len() < lb.len() {
            let p = x.len() - la.len() - 1;
            assert(x[p] == '\n');
            assert(lb[p - (x.len() - lb.len())] == x[p]);
            assert(lb.contains('\n'));
        } else if lb.len() < la.len() {
            let p = x.len() - lb.len() - 1;
            assert(x[p] == '\n');
            assert(la[p - (x.len() - la.len())] == x[p]);
            assert(la.contains('\n'));
        } else {
            assert(la =~= x.subrange(x.len() - la.len(), x.len() as int));
            assert(lb =~= x.subrange(x.len() - lb.len(), x.len() as int));
            assert(ja =~= x.subrange(0, ja.len() as int));
            assert(jb =~= x.subrange(0, jb.len() as int));
            assert forall|k: int| 0 <= k < a.drop_last().len() implies is_plain_name(
                #[trigger] a.drop_last()[k],
            ) by {
                assert(a.drop_last()[k] == a[k]);
            }
            assert forall|k: int| 0 <= k < b.drop_last().len() implies is_plain_name(
                #[trigger] b.drop_last()[k],
            ) by {
                assert(b.drop_last()[k] == b[k]);
            }
            lemma_joined_injective(a.drop_last(), b.drop_last());
            assert(a =~= a.drop_last().push(la));
            assert(b =~= b.drop_last().push(lb));
        }
    }
}

/// Law of resuming: a saved run fits only the branch list it was written
/// from. Two lists of branch names (each non-empty, on one line, with no
/// whitespace at either end) that both fit the same saved files are the
/// same list, and the same holds of the base.
pub proof fn law_saved_state_fits_one_stack(
    saved_base: Option<Seq<char>>,
    saved_branches: Option<Seq<char>>,
    base1: Seq<char>,
    branches1: Seq<Seq<char>>,
    base2: Seq<char>,
    branches2: Seq<Seq<char>>,
)
    requires
        forall|k: int| 0 <= k < branches1.len() ==> is_plain_name(#[trigger] branches1[k]),
        forall|k: int| 0 <= k < branches2.len() ==> is_plain_name(#[trigger] branches2[k]),
        spec_state_matches(saved_base, saved_branches, base1, branches1),
        spec_state_matches(saved_base, saved_branches, base2, branches2),
    ensures
        base1 == base2,
        branches1 == branches2,
{
    lemma_joined_injective(branches1, branches2);
}

/// Law of resuming: the `base` and `branches` files a run writes when it
/// starts are read back as matching the configuration they were written from.
pub proof fn law_saved_state_matches(base: Seq<char>, branches: Seq<Seq<char>>)
    requires
        is_plain_name(base),
        forall|k: int| 0 <= k < branches.len() ==> is_plain_name(#[trigger] branches[k]),
    ensures
        spec_state_matches(
            Some(spec_record(base)),
            Some(spec_record(joined(branches, seq!['\n']))),
            base,
            branches,
        ),
{
    lemma_trim_drop_ws_last(base.push('\n'));
    assert(base.push('\n').drop_last() =~= base);
    lemma_trim_no_ws_ends(base);
    let j = joined(branches, seq!['\n']);
    lemma_joined_ends(branches);
    lemma_trim_drop_ws_last(j.push('\n'));
    assert(j.push('\n').drop_last() =~= j);
    if branches.len() > 0 {
        assert(!is_ws(branches[0][0]));
        assert(!is_ws(branches.last().last()));
    }
    lemma_trim_no_ws_ends(j);
}

} // verus!

//! Text primitives with exact specifications: whitespace, trimming,
//! line splitting, word splitting and decimal parsing.
//!
//! The executable functions work on `&[char]` buffers and on index ranges
//! into them, so that callers can walk a file's lines without copying.
use vstd::prelude::*;

verus! {

broadcast use vstd::seq_lib::group_seq_properties;

/// `String::push` appends one character to the end of the string.
pub assume_specification[ String::push ](s: &mut String, ch: char)
    ensures
        final(s)@ == old(s)@.push(ch),
;

/// Unicode `White_Space`, the set of characters `char::is_whitespace` accepts.
pub open spec fn is_ws(c: char) -> bool {
    let u = c as u32;
    ||| 0x09 <= u <= 0x0d
    ||| u == 0x20
    ||| u == 0x85
    ||| u == 0xa0
    ||| u == 0x1680
    ||| 0x2000 <= u <= 0x200a
    ||| u == 0x2028
    ||| u == 0x2029
    ||| u == 0x202f
    ||| u == 0x205f
    ||| u == 0x3000
}

/// `s` with its leading whitespace removed.
pub open spec fn trim_start(s: Seq<char>) -> Seq<char>
    decreases s.len(),
{
    if s.len() > 0 && is_ws(s[0]) {
        trim_start(s.drop_first())
    } else {
        s
    }
}

/// `s` with its trailing whitespace removed.
pub open spec fn trim_end(s: Seq<char>) -> Seq<char>
    decreases s.len(),
{
    if s.len() > 0 && is_ws(s.last()) {
        trim_end(s.drop_last())
    } else {
        s
    }
}

/// What `str::trim` returns.
pub open spec fn trim(s: Seq<char>) -> Seq<char> {
    trim_end(trim_start(s))
}

/// The pieces of `s` between `'\n'` characters (what `str::split('\n')` yields).
pub open spec fn split_nl(s: Seq<char>) -> Seq<Seq<char>>
    decreases s.len(),
{
    if s.len() == 0 {
        seq![Seq::empty()]
    } else {
        let init = split_nl(s.drop_last());
        if s.last() == '\n' {
            init.push(Seq::empty())
        } else {
            init.update(init.len() - 1, init.last().push(s.last()))
        }
    }
}

/// A line that was ended by `'\n'` loses one trailing `'\r'` (a CRLF ending).
pub open spec fn strip_cr(l: Seq<char>) -> Seq<char> {
    if l.len() > 0 && l.last() == '\r' {
        l.drop_last()
    } else {
        l
    }
}

/// What `str::lines` (and `BufRead::lines`) yields: the text split at `'\n'`,
/// a `'\r'` before a `'\n'` dropped, and no empty piece after a final `'\n'`.
pub open spec fn lines(s: Seq<char>) -> Seq<Seq<char>> {
    let parts = split_nl(s);
    let ended = parts.drop_last().map_values(|l: Seq<char>| strip_cr(l));
    if parts.last().len() == 0 {
        ended
    } else {
        ended.push(parts.last())
    }
}

/// The text that a range of a character buffer denotes.
pub open spec fn range_text(cs: Seq<char>, r: (usize, usize)) -> Seq<char> {
    cs.subrange(r.0 as int, r.1 as int)
}

/// The views of a sequence of strings.
pub open spec fn views(v: Seq<String>) -> Seq<Seq<char>> {
    v.map_values(|s: String| s@)
}

pub proof fn lemma_split_nl_len(s: Seq<char>)
    ensures
        split_nl(s).len() >= 1,
    decreases s.len(),
{
    if s.len() > 0 {
        lemma_split_nl_len(s.drop_last());
    }
}

proof fn lemma_trim_start_at(s: Seq<char>, a: int)
    requires
        0 <= a <= s.len(),
        forall|i: int| 0 <= i < a ==> is_ws(#[trigger] s[i]),
        a == s.len() || !is_ws(s[a]),
    ensures
        trim_start(s) == s.subrange(a, s.len() as int),
    decreases a,
{
    if a == 0 {
        assert(s.subrange(0, s.len() as int) =~= s);
    } else {
        let t = s.drop_first();
        assert forall|i: int| 0 <= i < a - 1 implies is_ws(#[trigger] t[i]) by {
            assert(t[i] == s[i + 1]);
        }
        lemma_trim_start_at(t, a - 1);
        assert(t.subrange(a - 1, t.len() as int) =~= s.subrange(a, s.len() as int));
    }
}

proof fn lemma_trim_end_at(s: Seq<char>, b: int)
    requires
        0 <= b <= s.len(),
        forall|i: int| b <= i < s.len() ==> is_ws(#[trigger] s[i]),
        b == 0 || !is_ws(s[b - 1]),
    ensures
        trim_end(s) == s.subrange(0, b),
    decreases s.len() - b,
{
    if b == s.len() {
        assert(s.subrange(0, b) =~= s);
    } else {
        let t = s.drop_last();
        lemma_trim_end_at(t, b);
        assert(t.subrange(0, b) =~= s.subrange(0, b));
    }
}

/// Splitting text that is empty or ends in `'\n'` and then more text gives
/// the finished pieces of the first part followed by the pieces of the second.
pub proof fn lemma_split_nl_concat(x: Seq<char>, y: Seq<char>)
    requires
        x.len() == 0 || x.last() == '\n',
    ensures
        split_nl(x + y) == split_nl(x).drop_last() + split_nl(y),
    decreases y.len(),
{
    lemma_split_nl_len(x);
    lemma_split_nl_len(y);
    if y.len() == 0 {
        assert(x + y =~= x);
        if x.len() > 0 {
            assert(split_nl(x) == split_nl(x.drop_last()).push(Seq::empty()));
        }
        assert(split_nl(x).drop_last() + split_nl(y) =~= split_nl(x));
    } else {
        let z = x + y;
        assert(z.drop_last() =~= x + y.drop_last());
        assert(z.last() == y.last());
        lemma_split_nl_concat(x, y.drop_last());
        lemma_split_nl_len(y.drop_last());
        let p = split_nl(x).drop_last();
        let q = split_nl(y.drop_last());
        if y.last() == '\n' {
            assert((p + q).push(Seq::empty()) =~= p + q.push(Seq::empty()));
        } else {
            assert((p + q).update((p + q).len() - 1, (p + q).last().push(y.last())) =~= p
                + q.update(q.len() - 1, q.last().push(y.last())));
        }
    }
}

/// No piece produced by `split_nl` holds a `'\n'`.
pub proof fn lemma_split_nl_no_newline(s: Seq<char>)
    ensures
        forall|k: int| 0 <= k < split_nl(s).len() ==> !(#[trigger] split_nl(s)[k]).contains('\n'),
    decreases s.len(),
{
    lemma_split_nl_len(s);
    if s.len() > 0 {
        lemma_split_nl_no_newline(s.drop_last());
        lemma_split_nl_len(s.drop_last());
        let init = split_nl(s.drop_last());
        if s.last() != '\n' {
            assert forall|k: int| 0 <= k < split_nl(s).len() implies !(#[trigger] split_nl(
                s,
            )[k]).contains('\n') by {
                if k == init.len() - 1 {
                    let l = init.last().push(s.last());
                    if l.contains('\n') {
                        let j = choose|j: int| 0 <= j < l.len() && l[j] == '\n';
                        if j < l.len() - 1 {
                            assert(init.last()[j] == '\n');
                        }
                    }
                }
            }
        } else {
            assert forall|k: int| 0 <= k < split_nl(s).len() implies !(#[trigger] split_nl(
                s,
            )[k]).contains('\n') by {
                if k < init.len() {
                    assert(split_nl(s)[k] == init[k]);
                }
            }
        }
    }
}

/// Text without a `'\n'` is a single piece.
pub proof fn lemma_split_nl_single(s: Seq<char>)
    requires
        !s.contains('\n'),
    ensures
        split_nl(s) == seq![s],
    decreases s.len(),
{
    if s.len() == 0 {
        assert(split_nl(s) =~= seq![s]);
    } else {
        assert forall|j: int| 0 <= j < s.drop_last().len() implies s.drop_last()[j] != '\n' by {
            assert(s.drop_last()[j] == s[j]);
        }
        lemma_split_nl_single(s.drop_last());
        assert(s.drop_last().push(s.last()) =~= s);
        assert(seq![s.drop_last()].update(0, s.drop_last().push(s.last())) =~= seq![s]);
    }
}

/// `lines` distributes over text that is cut right after a `'\n'`.
pub proof fn lemma_lines_concat(x: Seq<char>, y: Seq<char>)
    requires
        x.len() == 0 || x.last() == '\n',
    ensures
        lines(x + y) == lines(x) + lines(y),
{
    lemma_split_nl_concat(x, y);
    lemma_split_nl_len(x);
    lemma_split_nl_len(y);
    if x.len() > 0 {
        lemma_split_nl_len(x.drop_last());
        assert(split_nl(x) == split_nl(x.drop_last()).push(Seq::empty()));
    } else {
        assert(split_nl(x) =~= seq![Seq::<char>::empty()]);
    }
    let p = split_nl(x).drop_last();
    let q = split_nl(y);
    assert((p + q).drop_last() =~= p + q.drop_last());
    assert((p + q).last() == q.last());
    let f = |l: Seq<char>| strip_cr(l);
    assert((p + q.drop_last()).map_values(f) =~= p.map_values(f) + q.drop_last().map_values(f));
    assert(split_nl(x).drop_last() == p);
    assert(lines(x) == p.map_values(f));
    if q.last().len() == 0 {
        assert(lines(x + y) =~= lines(x) + lines(y));
    } else {
        assert(lines(x + y) =~= lines(x) + lines(y));
    }
}

/// A single line ended by `'\n'`.
pub proof fn lemma_lines_single(b: Seq<char>)
    requires
        !b.contains('\n'),
    ensures
        lines(b.push('\n')) == seq![strip_cr(b)],
{
    lemma_split_nl_single(b);
    assert(b.push('\n').drop_last() =~= b);
    assert(split_nl(b.push('\n')) == seq![b].push(Seq::<char>::empty()));
    assert(seq![b].push(Seq::<char>::empty()).drop_last() =~= seq![b]);
    assert(lines(b.push('\n')) =~= seq![strip_cr(b)]);
}

/// No line holds a `'\n'`.
pub proof fn lemma_lines_no_newline(s: Seq<char>)
    ensures
        forall|k: int| 0 <= k < lines(s).len() ==> !(#[trigger] lines(s)[k]).contains('\n'),
{
    lemma_split_nl_no_newline(s);
    lemma_split_nl_len(s);
    let parts = split_nl(s);
    assert forall|k: int| 0 <= k < lines(s).len() implies !(#[trigger] lines(s)[k]).contains(
        '\n',
    ) by {
        if k < parts.len() - 1 {
            let l = parts[k];
            assert(parts.drop_last()[k] == l);
            assert(!l.contains('\n'));
            if strip_cr(l).contains('\n') {
                let j = choose|j: int| 0 <= j < strip_cr(l).len() && strip_cr(l)[j] == '\n';
                assert(l[j] == '\n');
            }
        } else {
            assert(lines(s)[k] == parts.last());
        }
    }
}

/// Dropping a trailing whitespace character does not change the trimmed text.
pub proof fn lemma_trim_drop_ws_last(l: Seq<char>)
    requires
        l.len() > 0,
        is_ws(l.last()),
    ensures
        trim(l.drop_last()) == trim(l),
{
    lemma_trim_start_drop_ws_last(l);
    lemma_trim_start_suffix(l);
    let t = trim_start(l);
    if t.len() > 0 {
        assert(t[t.len() - 1] == l[l.len() - 1]);
        assert(t.last() == l.last());
    } else {
        assert(trim_end(t) =~= t);
    }
}

proof fn lemma_trim_start_suffix(l: Seq<char>)
    ensures
        trim_start(l).len() <= l.len(),
        forall|i: int|
            0 <= i < trim_start(l).len() ==> #[trigger] trim_start(l)[i] == l[l.len()
                - trim_start(l).len() + i],
    decreases l.len(),
{
    if l.len() > 0 && is_ws(l[0]) {
        lemma_trim_start_suffix(l.drop_first());
    }
}

proof fn lemma_trim_start_drop_ws_last(l: Seq<char>)
    requires
        l.len() > 0,
        is_ws(l.last()),
    ensures
        trim_start(l.drop_last()) == (if trim_start(l).len() == 0 {
            Seq::empty()
        } else {
            trim_start(l).drop_last()
        }),
    decreases l.len(),
{
    if is_ws(l[0]) {
        if l.len() == 1 {
            assert(l.drop_last() =~= Seq::<char>::empty());
            assert(l.drop_first() =~= Seq::<char>::empty());
        } else {
            let d = l.drop_first();
            assert(l.drop_last().drop_first() =~= d.drop_last());
            lemma_trim_start_drop_ws_last(d);
        }
    } else {
        assert(l.len() > 1);
    }
}

/// Text with a first character that is not whitespace keeps it first after trimming.
pub proof fn lemma_trim_keeps_first(s: Seq<char>)
    requires
        s.len() > 0,
        !is_ws(s[0]),
    ensures
        trim(s).len() > 0,
        trim(s)[0] == s[0],
    decreases s.len(),
{
    lemma_trim_end_prefix(s);
    if s.len() > 1 && is_ws(s.last()) {
        lemma_trim_keeps_first(s.drop_last());
    }
}

proof fn lemma_trim_end_prefix(s: Seq<char>)
    ensures
        trim_end(s).len() <= s.len(),
        forall|i: int| 0 <= i < trim_end(s).len() ==> #[trigger] trim_end(s)[i] == s[i],
    decreases s.len(),
{
    if s.len() > 0 && is_ws(s.last()) {
        lemma_trim_end_prefix(s.drop_last());
    }
}

/// Trimming a line is not changed by the `'\r'` of a CRLF ending.
proof fn lemma_trim_start_first(s: Seq<char>)
    ensures
        trim_start(s).len() == 0 || !is_ws(trim_start(s)[0]),
    decreases s.len(),
{
    if s.len() > 0 && is_ws(s[0]) {
        lemma_trim_start_first(s.drop_first());
    }
}

proof fn lemma_trim_end_last(s: Seq<char>)
    ensures
        trim_end(s).len() == 0 || !is_ws(trim_end(s).last()),
    decreases s.len(),
{
    if s.len() > 0 && is_ws(s.last()) {
        lemma_trim_end_last(s.drop_last());
    }
}

/// Trimming twice trims no more than once, and keeps only characters that
/// were there.
pub proof fn lemma_trim_idempotent(s: Seq<char>)
    ensures
        trim(trim(s)) == trim(s),
        forall|c: char| trim(s).contains(c) ==> s.contains(c),
{
    let a = trim_start(s);
    let t = trim_end(a);
    lemma_trim_start_first(s);
    lemma_trim_end_last(a);
    lemma_trim_end_prefix(a);
    lemma_trim_start_suffix(s);
    if t.len() > 0 {
        assert(t[0] == a[0]);
        assert(trim_start(t) == t);
    } else {
        assert(trim_start(t) == t);
    }
    assert(trim_end(t) == t);
    assert forall|c: char| t.contains(c) implies s.contains(c) by {
        let i = choose|i: int| 0 <= i < t.len() && t[i] == c;
        assert(a[i] == c);
        assert(s[s.len() - a.len() + i] == c);
    }
}

/// Trimming never lengthens text.
pub proof fn lemma_trim_len(s: Seq<char>)
    ensures
        trim(s).len() <= s.len(),
{
    lemma_trim_start_suffix(s);
    lemma_trim_end_prefix(trim_start(s));
}

pub proof fn lemma_trim_strip_cr(l: Seq<char>)
    ensures
        trim(strip_cr(l)) == trim(l),
{
    if l.len() > 0 && l.last() == '\r' {
        lemma_trim_drop_ws_last(l);
    }
}

/// Whether `c` is whitespace, exactly as `char::is_whitespace` decides it.
pub fn is_whitespace(c: char) -> (r: bool)
    ensures
        r == is_ws(c),
{
    let u = c as u32;
    (0x09 <= u && u <= 0x0d) || u == 0x20 || u == 0x85 || u == 0xa0 || u == 0x1680 || (0x2000
        <= u && u <= 0x200a) || u == 0x2028 || u == 0x2029 || u == 0x202f || u == 0x205f || u
        == 0x3000
}

/// Appends `cs[lo..hi]` to `s`.
pub fn push_chars(s: &mut String, cs: &[char], lo: usize, hi: usize)
    requires
        lo <= hi <= cs@.len(),
    ensures
        final(s)@ == old(s)@ + cs@.subrange(lo as int, hi as int),
{
    let mut i = lo;
    while i < hi
        invariant
            lo <= i <= hi <= cs@.len(),
            s@ == old(s)@ + cs@.subrange(lo as int, i as int),
        decreases hi - i,
    {
        s.push(cs[i]);
        assert(cs@.subrange(lo as int, i + 1) =~= cs@.subrange(lo as int, i as int).push(cs@[i as int]));
        i += 1;
    }
}

/// Appends the text of `t` to `s`.
pub fn push_str(s: &mut String, t: &str)
    ensures
        final(s)@ == old(s)@ + t@,
{
    let cs = chars_of(t);
    push_chars(s, &cs, 0, cs.len());
    assert(cs@.subrange(0, cs@.len() as int) =~= t@);
}

/// The characters of `s`, in order.
pub fn chars_of(s: &str) -> (v: Vec<char>)
    ensures
        v@ == s@,
{
    let mut v: Vec<char> = Vec::new();
    for c in it: s.chars()
        invariant
            v@ == it.seq().take(it.index()),
    {
        v.push(c);
    }
    v
}

/// A new string holding `cs[lo..hi]`.
pub fn string_of(cs: &[char], lo: usize, hi: usize) -> (s: String)
    requires
        lo <= hi <= cs@.len(),
    ensures
        s@ == cs@.subrange(lo as int, hi as int),
{
    let mut s = String::new();
    let mut i = lo;
    while i < hi
        invariant
            lo <= i <= hi <= cs@.len(),
            s@ == cs@.subrange(lo as int, i as int),
        decreases hi - i,
    {
        s.push(cs[i]);
        assert(cs@.subrange(lo as int, i + 1) =~= cs@.subrange(lo as int, i as int).push(cs@[i as int]));
        i += 1;
    }
    s
}

/// The range of `cs[lo..hi]` that is left once leading and trailing
/// whitespace is removed.
pub fn trim_range(cs: &[char], lo: usize, hi: usize) -> (r: (usize, usize))
    requires
        lo <= hi <= cs@.len(),
    ensures
        lo <= r.0 <= r.1 <= hi,
        range_text(cs@, r) == trim(cs@.subrange(lo as int, hi as int)),
{
    let mut a = lo;
    while a < hi && is_whitespace(cs[a])
        invariant
            lo <= a <= hi <= cs@.len(),
            forall|i: int| lo <= i < a ==> is_ws(#[trigger] cs@[i]),
        decreases hi - a,
    {
        a += 1;
    }
    let mut b = hi;
    while b > a && is_whitespace(cs[b - 1])
        invariant
            lo <= a <= b <= hi <= cs@.len(),
            forall|i: int| b <= i < hi ==> is_ws(#[trigger] cs@[i]),
        decreases b - a,
    {
        b -= 1;
    }
    proof {
        let t = cs@.subrange(lo as int, hi as int);
        assert forall|i: int| 0 <= i < a - lo implies is_ws(#[trigger] t[i]) by {
            assert(t[i] == cs@[lo + i]);
        }
        lemma_trim_start_at(t, a - lo);
        let u = cs@.subrange(a as int, hi as int);
        assert(t.subrange(a - lo, t.len() as int) =~= u);
        if a == b {
            assert forall|i: int| 0 <= i < u.len() implies is_ws(#[trigger] u[i]) by {
                assert(u[i] == cs@[a + i]);
            }
        } else {
            assert forall|i: int| b - a <= i < u.len() implies is_ws(#[trigger] u[i]) by {
                assert(u[i] == cs@[a + i]);
            }
        }
        lemma_trim_end_at(u, b - a);
        assert(u.subrange(0, b - a) =~= cs@.subrange(a as int, b as int));
    }
    (a, b)
}

/// Whether every range in `r` lies inside a buffer of length `n`.
pub open spec fn ranges_within(r: Seq<(usize, usize)>, n: nat) -> bool {
    forall|k: int| 0 <= k < r.len() ==> #[trigger] r[k].0 <= r[k].1 <= n
}

/// The ranges of the lines of `cs`, as `str::lines` splits it.
#[verifier::rlimit(40)]
pub fn line_ranges(cs: &[char]) -> (r: Vec<(usize, usize)>)
    ensures
        ranges_within(r@, cs@.len()),
        r@.len() == lines(cs@).len(),
        forall|k: int| 0 <= k < r@.len() ==> range_text(cs@, #[trigger] r@[k]) == lines(cs@)[k],
{
    let n = cs.len();
    let mut r: Vec<(usize, usize)> = Vec::new();
    let mut start: usize = 0;
    let mut i: usize = 0;
    proof {
        assert(cs@.take(0) =~= Seq::<char>::empty());
        assert(cs@.subrange(0, 0) =~= Seq::<char>::empty());
    }
    while i < n
        invariant
            n == cs@.len(),
            0 <= start <= i <= n,
            ranges_within(r@, i as nat),
            split_nl(cs@.take(i as int)).len() == r@.len() + 1,
            split_nl(cs@.take(i as int)).last() == cs@.subrange(start as int, i as int),
            forall|k: int|
                0 <= k < r@.len() ==> range_text(cs@, #[trigger] r@[k]) == strip_cr(
                    split_nl(cs@.take(i as int))[k],
                ),
        decreases n - i,
    {
        let ghost before = split_nl(cs@.take(i as int));
        proof {
            assert(cs@.take(i + 1).drop_last() =~= cs@.take(i as int));
            lemma_split_nl_len(cs@.take(i as int));
        }
        if cs[i] == '\n' {
            let end = if i > start && cs[i - 1] == '\r' {
                i - 1
            } else {
                i
            };
            proof {
                let seg = cs@.subrange(start as int, i as int);
                if i > start && cs@[i - 1] == '\r' {
                    assert(seg.drop_last() =~= cs@.subrange(start as int, end as int));
                } else {
                    assert(seg =~= cs@.subrange(start as int, end as int));
                }
            }
            r.push((start, end));
            start = i + 1;
            proof {
                let after = split_nl(cs@.take(i + 1));
                assert(after == before.push(Seq::empty()));
                assert(cs@.subrange(start as int, i + 1) =~= Seq::<char>::empty());
                assert forall|k: int| 0 <= k < r@.len() implies range_text(cs@, #[trigger] r@[k])
                    == strip_cr(after[k]) by {
                    if k < r@.len() - 1 {
                        assert(after[k] == before[k]);
                    }
                }
            }
        } else {
            proof {
                let after = split_nl(cs@.take(i + 1));
                assert(after == before.update(before.len() - 1, before.last().push(cs@[i as int])));
                assert(cs@.subrange(start as int, i + 1) =~= cs@.subrange(start as int, i as int).push(cs@[i as int]));
                assert forall|k: int| 0 <= k < r@.len() implies range_text(cs@, #[trigger] r@[k])
                    == strip_cr(after[k]) by {
                    assert(after[k] == before[k]);
                }
            }
        }
        i += 1;
    }
    proof {
        assert(cs@.take(n as int) =~= cs@);
    }
    let ghost parts = split_nl(cs@);
    let ghost ended = parts.drop_last().map_values(|l: Seq<char>| strip_cr(l));
    if start < n {
        r.push((start, n));
        proof {
            assert forall|k: int| 0 <= k < r@.len() implies range_text(cs@, #[trigger] r@[k])
                == lines(cs@)[k] by {
                if k < r@.len() - 1 {
                    assert(lines(cs@)[k] == ended[k]);
                }
            }
        }
    } else {
        proof {
            assert forall|k: int| 0 <= k < r@.len() implies range_text(cs@, #[trigger] r@[k])
                == lines(cs@)[k] by {
                assert(lines(cs@)[k] == ended[k]);
            }
        }
    }
    r
}

/// ASCII letters and digits.
pub open spec fn is_ascii_alnum(c: char) -> bool {
    ||| 'a' <= c <= 'z'
    ||| 'A' <= c <= 'Z'
    ||| '0' <= c <= '9'
}

/// What `char::is_alphanumeric` answers: whether `c` has the Unicode
/// `Alphabetic` property or a numeric general category.
pub uninterp spec fn char_is_alphanumeric(c: char) -> bool;

/// Calls `char::is_alphanumeric`. Its answer is named by
/// `char_is_alphanumeric`; for ASCII characters it is exactly the ASCII
/// letters and digits, as std documents. Beyond ASCII, which characters the
/// Unicode tables accept is not stated here.
#[verifier::external_body]
pub(crate) fn is_alphanumeric(c: char) -> (r: bool)
    ensures
        r == char_is_alphanumeric(c),
        (c as u32) < 128 ==> (r <==> is_ascii_alnum(c)),
{
    c.is_alphanumeric()
}

/// An ASCII decimal digit.
pub open spec fn is_digit(c: char) -> bool {
    '0' <= c <= '9'
}

/// The value of a digit character.
pub open spec fn digit_value(c: char) -> nat {
    (c as nat - '0' as nat) as nat
}

/// The value of a string of decimal digits (0 for the empty string).
pub open spec fn digits_value(s: Seq<char>) -> nat
    decreases s.len(),
{
    if s.len() == 0 {
        0
    } else {
        digits_value(s.drop_last()) * 10 + digit_value(s.last())
    }
}

pub open spec fn all_digits(s: Seq<char>) -> bool {
    forall|i: int| 0 <= i < s.len() ==> is_digit(#[trigger] s[i])
}

/// What `str::parse` gives for an unsigned integer type whose largest value
/// is `max`: an optional `'+'`, then one or more ASCII digits whose value
/// does not exceed `max`; anything else is refused.
pub open spec fn spec_parse_uint(s: Seq<char>, max: nat) -> Option<nat> {
    let d = if s.len() > 0 && s[0] == '+' {
        s.drop_first()
    } else {
        s
    };
    if d.len() > 0 && all_digits(d) && digits_value(d) <= max {
        Some(digits_value(d))
    } else {
        None
    }
}

/// The decimal digits of `n`, most significant first, no leading zeros.
pub open spec fn decimal(n: nat) -> Seq<char>
    decreases n,
{
    if n < 10 {
        seq![digit_char(n)]
    } else {
        decimal(n / 10).push(digit_char(n % 10))
    }
}

/// The character of the digit `d` (0 to 9).
pub open spec fn digit_char(d: nat) -> char {
    (d + '0' as nat) as char
}

proof fn lemma_digits_prefix_le(s: Seq<char>, i: int)
    requires
        0 <= i <= s.len(),
    ensures
        digits_value(s.take(i)) <= digits_value(s),
    decreases s.len() - i,
{
    if i < s.len() {
        lemma_digits_prefix_le(s, i + 1);
        assert(s.take(i + 1).drop_last() =~= s.take(i));
    } else {
        assert(s.take(i) =~= s);
    }
}

proof fn lemma_digit_char(c: char, d: nat)
    requires
        d < 10,
        c as u32 == d + 48,
    ensures
        c == digit_char(d),
        is_digit(c),
        digit_value(c) == d,
{
}

/// Reading back the decimal digits of `n` gives `n`.
pub proof fn lemma_decimal_value(n: nat)
    ensures
        decimal(n).len() > 0,
        all_digits(decimal(n)),
        digits_value(decimal(n)) == n,
        !decimal(n).contains('\n'),
        forall|i: int| 0 <= i < decimal(n).len() ==> !is_ws(#[trigger] decimal(n)[i]),
        decimal(n)[0] != '+',
    decreases n,
{
    let c = digit_char(n % 10);
    assert(c as u32 == n % 10 + 48);
    lemma_digit_char(c, n % 10);
    if n < 10 {
        assert(decimal(n) == seq![c]);
        assert(seq![c].drop_last() =~= Seq::<char>::empty());
        assert(seq![c].last() == c);
        assert(digits_value(Seq::<char>::empty()) == 0);
        assert(digits_value(decimal(n)) == 0 * 10 + digit_value(c));
    } else {
        lemma_decimal_value(n / 10);
        let d = decimal(n / 10);
        assert(decimal(n).drop_last() =~= d);
        assert(digits_value(decimal(n)) == digits_value(d) * 10 + digit_value(c));
        assert((n / 10) * 10 + n % 10 == n) by (nonlinear_arith);
        assert forall|i: int| 0 <= i < decimal(n).len() implies is_digit(#[trigger] decimal(n)[i]) by {
            if i < d.len() {
                assert(decimal(n)[i] == d[i]);
            }
        }
        assert(decimal(n)[0] == d[0]);
    }
    assert forall|i: int| 0 <= i < decimal(n).len() implies !is_ws(#[trigger] decimal(n)[i]) by {
        assert(is_digit(decimal(n)[i]));
    }
    if decimal(n).contains('\n') {
        let j = choose|j: int| 0 <= j < decimal(n).len() && decimal(n)[j] == '\n';
        assert(is_digit(decimal(n)[j]));
    }
}

/// Text that neither starts nor ends with whitespace is its own trimming.
pub proof fn lemma_trim_no_ws_ends(s: Seq<char>)
    requires
        s.len() == 0 || (!is_ws(s[0]) && !is_ws(s.last())),
    ensures
        trim(s) == s,
{
}

/// Parses an unsigned decimal integer as `u64::from_str` does.
pub fn parse_u64(s: &str) -> (r: Option<u64>)
    ensures
        r matches Some(v) ==> spec_parse_uint(s@, u64::MAX as nat) == Some(v as nat),
        r is None ==> spec_parse_uint(s@, u64::MAX as nat) is None,
{
    let cs = chars_of(s);
    let ghost full = s@;
    let start: usize = if cs.len() > 0 && cs[0] == '+' { 1 } else { 0 };
    let ghost d = if full.len() > 0 && full[0] == '+' { full.drop_first() } else { full };
    proof {
        assert(d =~= cs@.subrange(start as int, cs@.len() as int));
    }
    if start >= cs.len() {
        return None;
    }
    let mut v: u64 = 0;
    let mut i = start;
    while i < cs.len()
        invariant
            cs@ == full,
            full == s@,
            d == (if full.len() > 0 && full[0] == '+' { full.drop_first() } else { full }),
            d == cs@.subrange(start as int, cs@.len() as int),
            start <= i <= cs@.len(),
            all_digits(d.take(i - start)),
            v as nat == digits_value(d.take(i - start)),
        decreases cs@.len() - i,
    {
        let c = cs[i];
        let ghost k = (i - start) as int;
        proof {
            assert(d[k] == c);
            assert(d.take(k + 1).drop_last() =~= d.take(k));
        }
        if !('0' <= c && c <= '9') {
            proof {
                assert(!is_digit(d[k]));
            }
            return None;
        }
        let dv = (c as u32 - '0' as u32) as u64;
        let m = v.checked_mul(10);
        match m {
            None => {
                proof {
                    lemma_digits_prefix_le(d, k + 1);
                    assert(d.take(k + 1).last() == c);
                    assert(digits_value(d.take(k + 1)) == digits_value(d.take(k)) * 10 + digit_value(c));
                }
                return None;
            },
            Some(m) => {
                let a = m.checked_add(dv);
                match a {
                    None => {
                        proof {
                            lemma_digits_prefix_le(d, k + 1);
                            assert(d.take(k + 1).last() == c);
                            assert(digits_value(d.take(k + 1)) == digits_value(d.take(k)) * 10 + digit_value(c));
                        }
                        return None;
                    },
                    Some(a) => {
                        proof {
                            assert(d.take(k + 1).last() == c);
                            assert(all_digits(d.take(k + 1))) by {
                                assert forall|j: int| 0 <= j < k + 1 implies is_digit(#[trigger] d.take(k + 1)[j]) by {
                                    if j < k {
                                        assert(d.take(k + 1)[j] == d.take(k)[j]);
                                    }
                                }
                            }
                        }
                        v = a;
                    },
                }
            },
        }
        i += 1;
    }
    proof {
        assert(d.take(d.len() as int) =~= d);
    }
    Some(v)
}

/// Parses an unsigned decimal integer as `usize::from_str` does.
pub fn parse_usize(s: &str) -> (r: Option<usize>)
    ensures
        r matches Some(v) ==> spec_parse_uint(s@, usize::MAX as nat) == Some(v as nat),
        r is None ==> spec_parse_uint(s@, usize::MAX as nat) is None,
{
    match parse_u64(s) {
        None => None,
        Some(v) => {
            if v <= usize::MAX as u64 {
                Some(v as usize)
            } else {
                None
            }
        },
    }
}

/// The decimal text of `n`.
pub fn decimal_string(n: u64) -> (r: String)
    ensures
        r@ == decimal(n as nat),
{
    let mut digits: Vec<char> = Vec::new();
    let mut m = n;
    loop
        invariant_except_break
            decimal(n as nat) == decimal(m as nat) + digits@.reverse(),
        ensures
            decimal(n as nat) == digits@.reverse(),
        decreases m,
    {
        let c = ((m % 10) as u8 + 48u8) as char;
        proof {
            lemma_digit_char(c, (m % 10) as nat);
        }
        let ghost before = digits@;
        digits.push(c);
        proof {
            assert(digits@.reverse() =~= seq![c] + before.reverse());
        }
        if m < 10 {
            proof {
                assert(decimal(m as nat) =~= seq![c]);
            }
            break;
        }
        proof {
            assert(decimal(m as nat) == decimal((m / 10) as nat).push(c));
            assert(decimal((m / 10) as nat).push(c) + before.reverse() =~= decimal((m / 10) as nat) + digits@.reverse());
        }
        m = m / 10;
    }
    let mut r = String::new();
    let mut i = digits.len();
    while i > 0
        invariant
            0 <= i <= digits@.len(),
            decimal(n as nat) == digits@.reverse(),
            r@ == digits@.reverse().take(digits@.len() - i),
        decreases i,
    {
        i -= 1;
        r.push(digits[i]);
        proof {
            assert(digits@.reverse().take(digits@.len() - i) =~= digits@.reverse().take(digits@.len() - i - 1).push(digits@[i as int]));
        }
    }
    proof {
        assert(digits@.reverse().take(digits@.len() as int) =~= digits@.reverse());
    }
    r
}

/// `s` with leading and trailing whitespace removed, as `str::trim` gives it.
pub fn trim_str(s: &str) -> (r: String)
    ensures
        r@ == trim(s@),
{
    let cs = chars_of(s);
    let (a, b) = trim_range(&cs, 0, cs.len());
    proof {
        assert(cs@.subrange(0, cs@.len() as int) =~= s@);
    }
    string_of(&cs, a, b)
}

/// Whether `t` occurs in `s` as a contiguous piece.
pub open spec fn has_substring(s: Seq<char>, t: Seq<char>) -> bool {
    exists|i: int| 0 <= i && i + t.len() <= s.len() && #[trigger] s.subrange(i, i + t.len()) == t
}

/// Whether `t` occurs in `s`, as `str::contains` with a string pattern decides it.
pub fn contains_str(s: &str, t: &str) -> (r: bool)
    ensures
        r == has_substring(s@, t@),
{
    let sc = chars_of(s);
    let tc = chars_of(t);
    if tc.len() > sc.len() {
        proof {
            assert forall|i: int| 0 <= i && i + tc@.len() <= sc@.len() implies #[trigger] sc@.subrange(i, i + tc@.len()) != tc@ by {}
        }
        return false;
    }
    let limit = sc.len() - tc.len();
    let mut i: usize = 0;
    loop
        invariant
            limit == sc@.len() - tc@.len(),
            sc@.len() <= usize::MAX,
            sc@ == s@,
            tc@ == t@,
            tc@.len() <= sc@.len(),
            0 <= i <= limit,
            forall|k: int| 0 <= k < i ==> #[trigger] sc@.subrange(k, k + tc@.len()) != tc@,
        decreases limit - i,
    {
        let mut j: usize = 0;
        let mut same = true;
        while j < tc.len()
            invariant
                i <= limit,
                limit == sc@.len() - tc@.len(),
                sc@.len() <= usize::MAX,
                0 <= j <= tc@.len(),
                same == (forall|m: int| 0 <= m < j ==> sc@[i + m] == tc@[m]),
            decreases tc@.len() - j,
        {
            if sc[i + j] != tc[j] {
                same = false;
            }
            j += 1;
        }
        if same {
            proof {
                assert(sc@.subrange(i as int, i + tc@.len()) =~= tc@);
            }
            return true;
        }
        proof {
            let m = choose|m: int| 0 <= m < tc@.len() && sc@[i + m] != tc@[m];
            assert(sc@.subrange(i as int, i + tc@.len())[m] != tc@[m]);
        }
        if i == limit {
            proof {
                assert forall|k: int| 0 <= k && k + tc@.len() <= sc@.len() implies #[trigger] sc@.subrange(k, k + tc@.len()) != tc@ by {
                    assert(k <= i);
                }
            }
            return false;
        }
        i += 1;
    }
}

/// The whitespace-separated words of `s`, as `str::split_whitespace` yields them.
pub open spec fn words(s: Seq<char>) -> Seq<Seq<char>>
    decreases s.len(),
{
    if s.len() == 0 {
        Seq::empty()
    } else {
        let w = words(s.drop_last());
        let c = s.last();
        if is_ws(c) {
            w
        } else if s.len() >= 2 && !is_ws(s[s.len() - 2]) {
            w.update(w.len() - 1, w.last().push(c))
        } else {
            w.push(seq![c])
        }
    }
}

/// The ranges of the whitespace-separated words of `cs`.
#[verifier::rlimit(40)]
pub fn word_ranges(cs: &[char]) -> (r: Vec<(usize, usize)>)
    ensures
        ranges_within(r@, cs@.len()),
        r@.len() == words(cs@).len(),
        forall|k: int| 0 <= k < r@.len() ==> range_text(cs@, #[trigger] r@[k]) == words(cs@)[k],
{
    let n = cs.len();
    let mut r: Vec<(usize, usize)> = Vec::new();
    let mut start: usize = 0;
    let mut in_word = false;
    let mut i: usize = 0;
    proof {
        assert(cs@.take(0) =~= Seq::<char>::empty());
    }
    while i < n
        invariant
            n == cs@.len(),
            0 <= i <= n,
            ranges_within(r@, i as nat),
            in_word == (i > 0 && !is_ws(cs@[i - 1])),
            in_word ==> start < i && words(cs@.take(i as int)).len() == r@.len() + 1
                && words(cs@.take(i as int)).last() == cs@.subrange(start as int, i as int),
            !in_word ==> words(cs@.take(i as int)).len() == r@.len(),
            forall|k: int|
                0 <= k < r@.len() ==> range_text(cs@, #[trigger] r@[k]) == words(cs@.take(i as int))[k],
        decreases n - i,
    {
        let ghost before = words(cs@.take(i as int));
        proof {
            assert(cs@.take(i + 1).drop_last() =~= cs@.take(i as int));
            assert(cs@.take(i + 1).last() == cs@[i as int]);
            if i > 0 {
                assert(cs@.take(i + 1)[i - 1] == cs@[i - 1]);
            }
        }
        let c = cs[i];
        if is_whitespace(c) {
            if in_word {
                r.push((start, i));
                in_word = false;
            }
            proof {
                assert(words(cs@.take(i + 1)) == before);
            }
        } else {
            if in_word {
                proof {
                    let after = words(cs@.take(i + 1));
                    assert(after == before.update(before.len() - 1, before.last().push(c)));
                    assert(cs@.subrange(start as int, i + 1) =~= cs@.subrange(start as int, i as int).push(c));
                    assert forall|k: int| 0 <= k < r@.len() implies range_text(cs@, #[trigger] r@[k]) == after[k] by {
                        assert(after[k] == before[k]);
                    }
                }
            } else {
                start = i;
                in_word = true;
                proof {
                    let after = words(cs@.take(i + 1));
                    assert(after == before.push(seq![c]));
                    assert(cs@.subrange(start as int, i + 1) =~= seq![c]);
                    assert forall|k: int| 0 <= k < r@.len() implies range_text(cs@, #[trigger] r@[k]) == after[k] by {
                        assert(after[k] == before[k]);
                    }
                }
            }
        }
        i += 1;
    }
    proof {
        assert(cs@.take(n as int) =~= cs@);
    }
    if in_word {
        r.push((start, n));
    }
    r
}

/// The word at position `k` read as a count: 0 when it is missing or is not
/// a number that fits in a `u64`.
pub open spec fn count_at(ws: Seq<Seq<char>>, k: int) -> nat {
    if 0 <= k < ws.len() {
        match spec_parse_uint(ws[k], u64::MAX as nat) {
            Some(v) => v,
            None => 0,
        }
    } else {
        0
    }
}

/// Reads the output of `git rev-list --left-right --count A...B`: the
/// commits only in `A` (behind) and the commits only in `B` (ahead).
pub fn parse_counts(output: &str) -> (r: (u64, u64))
    ensures
        r.0 as nat == count_at(words(output@), 0),
        r.1 as nat == count_at(words(output@), 1),
{
    let cs = chars_of(output);
    let ws = word_ranges(&cs);
    let behind = if ws.len() > 0 {
        let (a, b) = ws[0];
        let w = string_of(&cs, a, b);
        match parse_u64(w.as_str()) {
            Some(v) => v,
            None => 0,
        }
    } else {
        0
    };
    let ahead = if ws.len() > 1 {
        let (a, b) = ws[1];
        let w = string_of(&cs, a, b);
        match parse_u64(w.as_str()) {
            Some(v) => v,
            None => 0,
        }
    } else {
        0
    };
    (behind, ahead)
}

} // verus!

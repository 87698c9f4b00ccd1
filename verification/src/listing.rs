//! The order in which stack names are listed.
use vstd::prelude::*;
use crate::text::{chars_of, views};

verus! {

/// `a` sorts before `b`, or equals it, in the order of `String`'s `Ord`:
/// character by character (which for UTF-8 text is the byte order), a
/// proper prefix first.
pub open spec fn text_le(a: Seq<char>, b: Seq<char>) -> bool
    decreases a.len(),
{
    if a.len() == 0 {
        true
    } else if b.len() == 0 {
        false
    } else if a[0] != b[0] {
        a[0] < b[0]
    } else {
        text_le(a.drop_first(), b.drop_first())
    }
}

/// Each name sorts before or with the next.
pub open spec fn sorted_texts(s: Seq<Seq<char>>) -> bool {
    forall|i: int| 0 <= i < s.len() - 1 ==> #[trigger] text_le(s[i], s[i + 1])
}

/// Of two texts, one sorts before or with the other.
pub proof fn lemma_text_le_total(a: Seq<char>, b: Seq<char>)
    ensures
        text_le(a, b) || text_le(b, a),
    decreases a.len(),
{
    if a.len() > 0 && b.len() > 0 && a[0] == b[0] {
        lemma_text_le_total(a.drop_first(), b.drop_first());
    }
}

/// Law of the listing order: it is a total order on texts (any two are
/// ordered, and two texts ordered both ways are equal) in which a text
/// comes before every longer text it starts, and otherwise the first
/// differing character decides.
pub proof fn law_text_order(a: Seq<char>, b: Seq<char>, x: Seq<char>)
    ensures
        text_le(a, b) || text_le(b, a),
        text_le(a, b) && text_le(b, a) ==> a == b,
        text_le(a, a + x),
        x.len() > 0 ==> !text_le(a + x, a),
        forall|i: int|
            0 <= i < a.len() && i < b.len() && a.take(i) == b.take(i) && a[i] != b[i] ==> (text_le(a, b)
                <==> a[i] < b[i]),
    decreases a.len(),
{
    lemma_text_le_total(a, b);
    if a.len() > 0 {
        assert((a + x).drop_first() =~= a.drop_first() + x);
        law_text_order(a.drop_first(), if b.len() > 0 { b.drop_first() } else { b }, x);
        if b.len() > 0 && a[0] == b[0] {
            if text_le(a, b) && text_le(b, a) {
                assert(a =~= seq![a[0]] + a.drop_first());
                assert(b =~= seq![b[0]] + b.drop_first());
            }
        }
        assert forall|i: int|
            0 <= i < a.len() && i < b.len() && a.take(i) == b.take(i) && a[i] != b[i] implies (text_le(a, b)
                <==> a[i] < b[i]) by {
            if i > 0 {
                assert(a[0] == a.take(i)[0] && b[0] == b.take(i)[0]);
                assert(a.drop_first().take(i - 1) =~= a.take(i).drop_first());
                assert(b.drop_first().take(i - 1) =~= b.take(i).drop_first());
                assert(a.drop_first()[i - 1] == a[i] && b.drop_first()[i - 1] == b[i]);
            }
        }
    } else {
        if b.len() > 0 {
            assert(!text_le(b, a));
        } else {
            assert(a =~= b);
        }
        if x.len() > 0 {
            assert((a + x).len() > 0);
        }
    }
}

fn text_le_exec(a: &Vec<char>, b: &Vec<char>) -> (r: bool)
    ensures
        r == text_le(a@, b@),
{
    let mut k: usize = 0;
    assert(a@.skip(0) =~= a@ && b@.skip(0) =~= b@);
    while k < a.len() && k < b.len() && a[k] == b[k]
        invariant
            k <= a@.len(),
            k <= b@.len(),
            text_le(a@, b@) == text_le(a@.skip(k as int), b@.skip(k as int)),
        decreases a@.len() - k,
    {
        proof {
            assert(a@.skip(k as int).drop_first() =~= a@.skip(k + 1));
            assert(b@.skip(k as int).drop_first() =~= b@.skip(k + 1));
        }
        k += 1;
    }
    if k == a.len() {
        true
    } else if k == b.len() {
        false
    } else {
        a[k] < b[k]
    }
}

/// The names in sorted order (the order `sort` gives `String`s).
pub fn sort_names(names: Vec<String>) -> (r: Vec<String>)
    ensures
        views(r@).to_multiset() == views(names@).to_multiset(),
        sorted_texts(views(r@)),
{
    broadcast use vstd::seq_lib::group_to_multiset_ensures;
    let mut r: Vec<String> = Vec::new();
    assert(views(r@) =~= Seq::<Seq<char>>::empty());
    assert(views(names@).take(0) =~= Seq::<Seq<char>>::empty());
    let mut i: usize = 0;
    while i < names.len()
        invariant
            0 <= i <= names@.len(),
            views(r@).to_multiset() == views(names@).take(i as int).to_multiset(),
            sorted_texts(views(r@)),
        decreases names@.len() - i,
    {
        let x = names[i].clone();
        let xc = chars_of(x.as_str());
        let mut p: usize = 0;
        while p < r.len() && text_le_exec(&chars_of(r[p].as_str()), &xc)
            invariant
                p <= r@.len(),
                xc@ == x@,
                forall|k: int| 0 <= k < p ==> text_le(#[trigger] views(r@)[k], x@),
            decreases r@.len() - p,
        {
            p += 1;
        }
        let ghost before = views(r@);
        proof {
            if p < r@.len() {
                assert(before[p as int] == r@[p as int]@);
                assert(!text_le(before[p as int], x@));
                lemma_text_le_total(before[p as int], x@);
            }
        }
        r.insert(p, x);
        proof {
            assert(views(r@) =~= before.insert(p as int, x@));
            assert(views(names@).take(i + 1) =~= views(names@).take(i as int).push(x@));
            vstd::seq_lib::to_multiset_insert(before, p as int, x@);
            views(names@).take(i as int).to_multiset_ensures();
            assert(views(r@).to_multiset() == views(names@).take(i + 1).to_multiset());
            let v = views(r@);
            assert forall|k: int| 0 <= k < v.len() - 1 implies #[trigger] text_le(v[k], v[k + 1]) by {
                if k + 1 < p {
                    assert(v[k] == before[k] && v[k + 1] == before[k + 1]);
                    assert(text_le(before[k], before[k + 1]));
                } else if k + 1 == p {
                    assert(v[k] == before[k] && v[k + 1] == x@);
                    assert(text_le(before[k], x@));
                } else if k == p {
                    assert(v[k] == x@ && v[k + 1] == before[k]);
                } else {
                    assert(v[k] == before[k - 1] && v[k + 1] == before[k]);
                    let j = k - 1;
                    assert(text_le(before[j], before[j + 1]));
                    assert(before[j + 1] == before[k]);
                }
            }
        }
        i += 1;
    }
    assert(views(names@).take(names@.len() as int) =~= views(names@));
    r
}

} // verus!

//! The alphabetical order of strings, and sorting by it.

use vstd::prelude::*;
use vstd::relations::{antisymmetric, reflexive, sorted_by, strongly_connected, total_ordering, transitive};
use vstd::seq_lib::lemma_sorted_unique;

use crate::text::{chars_of, views};

verus! {

/// `a` comes before `b` in character order, or equals it.
pub open spec fn text_le(a: Seq<char>, b: Seq<char>) -> bool
    decreases a.len(),
{
    if a.len() == 0 {
        true
    } else if b.len() == 0 {
        false
    } else if a[0] == b[0] {
        text_le(a.skip(1), b.skip(1))
    } else {
        a[0] < b[0]
    }
}

/// The order as a relation.
pub open spec fn alphabetical() -> spec_fn(Seq<char>, Seq<char>) -> bool {
    |a: Seq<char>, b: Seq<char>| text_le(a, b)
}

pub proof fn lemma_text_le_reflexive(a: Seq<char>)
    ensures
        text_le(a, a),
    decreases a.len(),
{
    if a.len() > 0 {
        lemma_text_le_reflexive(a.skip(1));
    }
}

pub proof fn lemma_text_le_antisymmetric(a: Seq<char>, b: Seq<char>)
    requires
        text_le(a, b),
        text_le(b, a),
    ensures
        a == b,
    decreases a.len(),
{
    if a.len() > 0 && b.len() > 0 {
        lemma_text_le_antisymmetric(a.skip(1), b.skip(1));
        assert(a == seq![a[0]] + a.skip(1));
        assert(b == seq![b[0]] + b.skip(1));
    } else {
        assert(a == b);
    }
}

pub proof fn lemma_text_le_transitive(a: Seq<char>, b: Seq<char>, c: Seq<char>)
    requires
        text_le(a, b),
        text_le(b, c),
    ensures
        text_le(a, c),
    decreases a.len(),
{
    if a.len() > 0 && a[0] == b[0] && b[0] == c[0] {
        lemma_text_le_transitive(a.skip(1), b.skip(1), c.skip(1));
    }
}

pub proof fn lemma_text_le_total(a: Seq<char>, b: Seq<char>)
    ensures
        text_le(a, b) || text_le(b, a),
    decreases a.len(),
{
    if a.len() > 0 && b.len() > 0 {
        lemma_text_le_total(a.skip(1), b.skip(1));
    }
}

/// The alphabetical order is a total order.
pub proof fn lemma_alphabetical_is_total()
    ensures
        total_ordering(alphabetical()),
{
    let r = alphabetical();
    assert(reflexive(r)) by {
        assert forall|x: Seq<char>| #[trigger] r(x, x) by {
            lemma_text_le_reflexive(x);
        }
    }
    assert(antisymmetric(r)) by {
        assert forall|x: Seq<char>, y: Seq<char>| #[trigger] r(x, y) && #[trigger] r(y, x) implies x
            == y by {
            lemma_text_le_antisymmetric(x, y);
        }
    }
    assert(transitive(r)) by {
        assert forall|x: Seq<char>, y: Seq<char>, z: Seq<char>| #[trigger]
            r(x, y) && #[trigger] r(y, z) implies r(x, z) by {
            lemma_text_le_transitive(x, y, z);
        }
    }
    assert(strongly_connected(r)) by {
        assert forall|x: Seq<char>, y: Seq<char>| #[trigger] r(x, y) || #[trigger] r(y, x) by {
            lemma_text_le_total(x, y);
        }
    }
}

/// Whether `a` comes before `b`, or equals it.
pub fn not_after(a: &str, b: &str) -> (r: bool)
    ensures
        r == text_le(a@, b@),
{
    let x = chars_of(a);
    let y = chars_of(b);
    let mut i: usize = 0;
    proof {
        assert(a@.skip(0) == a@);
        assert(b@.skip(0) == b@);
    }
    loop
        invariant
            x@ == a@,
            y@ == b@,
            i <= x@.len(),
            i <= y@.len(),
            text_le(a@, b@) == text_le(a@.skip(i as int), b@.skip(i as int)),
        decreases x@.len() - i,
    {
        if i == x.len() {
            return true;
        }
        if i == y.len() {
            return false;
        }
        if x[i] != y[i] {
            return x[i] < y[i];
        }
        proof {
            assert(a@.skip(i as int).skip(1) == a@.skip(i + 1));
            assert(b@.skip(i as int).skip(1) == b@.skip(i + 1));
        }
        i = i + 1;
    }
}

/// `s` with `x` put before the first element that is not smaller.
pub open spec fn insert_text(x: Seq<char>, s: Seq<Seq<char>>) -> Seq<Seq<char>>
    decreases s.len(),
{
    if s.len() == 0 {
        seq![x]
    } else if text_le(x, s[0]) {
        seq![x] + s
    } else {
        seq![s[0]] + insert_text(x, s.skip(1))
    }
}

/// The elements of `s` in alphabetical order.
pub open spec fn sorted_texts(s: Seq<Seq<char>>) -> Seq<Seq<char>>
    decreases s.len(),
{
    if s.len() == 0 {
        s
    } else {
        insert_text(s.last(), sorted_texts(s.drop_last()))
    }
}

proof fn lemma_insert_text_at(x: Seq<char>, s: Seq<Seq<char>>, p: int)
    requires
        0 <= p <= s.len(),
        forall|j: int| 0 <= j < p ==> !text_le(x, #[trigger] s[j]),
        p < s.len() ==> text_le(x, s[p]),
    ensures
        insert_text(x, s) == s.insert(p, x),
    decreases s.len(),
{
    if s.len() == 0 {
        assert(s.insert(p, x) == seq![x]);
    } else if p == 0 {
        assert(s.insert(p, x) == seq![x] + s);
    } else {
        assert forall|j: int| 0 <= j < p - 1 implies !text_le(x, #[trigger] s.skip(1)[j]) by {
            assert(s.skip(1)[j] == s[j + 1]);
        }
        lemma_insert_text_at(x, s.skip(1), p - 1);
        assert(s.insert(p, x) == seq![s[0]] + s.skip(1).insert(p - 1, x));
    }
}

proof fn lemma_insert_text(x: Seq<char>, s: Seq<Seq<char>>)
    requires
        sorted_by(s, alphabetical()),
    ensures
        sorted_by(insert_text(x, s), alphabetical()),
        insert_text(x, s).to_multiset() == s.to_multiset().insert(x),
    decreases s.len(),
{
    broadcast use vstd::seq_lib::group_to_multiset_ensures;

    let leq = alphabetical();
    if s.len() == 0 {
        assert(insert_text(x, s) == s.push(x));
    } else if text_le(x, s[0]) {
        let r = seq![x] + s;
        assert forall|i: int, j: int| 0 <= i < j < r.len() implies #[trigger] leq(r[i], r[j]) by {
            if i > 0 {
                assert(leq(s[i - 1], s[j - 1]));
            } else if j > 1 {
                assert(leq(s[0], s[j - 1]));
                lemma_text_le_transitive(x, s[0], s[j - 1]);
            }
        }
        assert(r == s.insert(0, x));
        vstd::seq_lib::to_multiset_insert(s, 0, x);
    } else {
        let rest = s.skip(1);
        assert forall|i: int, j: int| 0 <= i < j < rest.len() implies #[trigger] leq(
            rest[i],
            rest[j],
        ) by {
            assert(leq(s[i + 1], s[j + 1]));
        }
        lemma_insert_text(x, rest);
        let tail = insert_text(x, rest);
        let r = seq![s[0]] + tail;
        lemma_text_le_total(x, s[0]);
        assert forall|i: int, j: int| 0 <= i < j < r.len() implies #[trigger] leq(r[i], r[j]) by {
            if i > 0 {
                assert(leq(tail[i - 1], tail[j - 1]));
            } else {
                let y = tail[j - 1];
                assert(tail.contains(y));
                assert(tail.to_multiset().count(y) > 0);
                if y != x {
                    assert(rest.to_multiset().count(y) > 0);
                    assert(rest.contains(y));
                    let k = choose|k: int| 0 <= k < rest.len() && rest[k] == y;
                    assert(leq(s[0], s[k + 1]));
                }
            }
        }
        assert(r == tail.insert(0, s[0]));
        vstd::seq_lib::to_multiset_insert(tail, 0, s[0]);
        assert(s == rest.insert(0, s[0]));
        vstd::seq_lib::to_multiset_insert(rest, 0, s[0]);
        assert(r.to_multiset() =~= s.to_multiset().insert(x));
    }
}

/// Sorting keeps the elements, each as often as before, and puts them in order.
pub proof fn lemma_sorted_texts(s: Seq<Seq<char>>)
    ensures
        sorted_by(sorted_texts(s), alphabetical()),
        sorted_texts(s).to_multiset() == s.to_multiset(),
    decreases s.len(),
{
    broadcast use vstd::seq_lib::group_to_multiset_ensures;

    if s.len() > 0 {
        lemma_sorted_texts(s.drop_last());
        lemma_insert_text(s.last(), sorted_texts(s.drop_last()));
        assert(s == s.drop_last().push(s.last()));
    }
}

/// Sorting forgets the order in which the elements came.
pub proof fn lemma_sorting_forgets_order(a: Seq<Seq<char>>, b: Seq<Seq<char>>)
    requires
        a.to_multiset() == b.to_multiset(),
    ensures
        sorted_texts(a) == sorted_texts(b),
{
    lemma_sorted_texts(a);
    lemma_sorted_texts(b);
    lemma_alphabetical_is_total();
    lemma_sorted_unique(sorted_texts(a), sorted_texts(b), alphabetical());
}

/// The strings of `v` in alphabetical order.
pub fn sort(v: &[String]) -> (r: Vec<String>)
    ensures
        views(r@) == sorted_texts(views(v@)),
{
    let mut r: Vec<String> = Vec::new();
    proof {
        assert(views(r@) == sorted_texts(views(v@).take(0)));
    }
    for i in 0..v.len()
        invariant
            views(r@) == sorted_texts(views(v@).take(i as int)),
    {
        let x: String = v[i].clone();
        let mut p: usize = 0;
        while p < r.len() && !not_after(x.as_str(), r[p].as_str())
            invariant
                p <= r@.len(),
                forall|j: int| 0 <= j < p ==> !text_le(x@, #[trigger] views(r@)[j]),
            decreases r@.len() - p,
        {
            p = p + 1;
        }
        let ghost before = r@;
        proof {
            lemma_insert_text_at(x@, views(r@), p as int);
            assert(views(v@).take(i + 1).drop_last() == views(v@).take(i as int));
            assert(views(v@).take(i + 1).last() == x@);
        }
        r.insert(p, x);
        proof {
            assert(views(r@) == views(before).insert(p as int, x@));
        }
    }
    proof {
        assert(views(v@).take(v@.len() as int) == views(v@));
    }
    r
}

// ── Laws ────────────────────────────────────────────────────────────────────

/// Of two texts the one with the smaller character at the first place where they differ comes
/// first, and of two that do not differ as far as the shorter one goes, the shorter one.
pub proof fn law_first_difference_decides(a: Seq<char>, b: Seq<char>, i: int)
    requires
        0 <= i <= a.len(),
        i <= b.len(),
        forall|j: int| 0 <= j < i ==> #[trigger] a[j] == b[j],
        i < a.len() && i < b.len() ==> a[i] != b[i],
    ensures
        i < a.len() && i < b.len() ==> (text_le(a, b) <==> a[i] < b[i]),
        i == a.len() ==> text_le(a, b),
        i == b.len() && i < a.len() ==> !text_le(a, b),
    decreases i,
{
    if i > 0 {
        let x = a.skip(1);
        let y = b.skip(1);
        assert forall|j: int| 0 <= j < i - 1 implies #[trigger] x[j] == y[j] by {
            assert(a[j + 1] == b[j + 1]);
        }
        assert(a[0] == b[0]);
        law_first_difference_decides(x, y, i - 1);
    }
}

/// Sorted texts stand in alphabetical order, and are those that were given, each as often.
pub proof fn law_sorting_sorts(s: Seq<Seq<char>>, i: int, j: int)
    requires
        0 <= i < j < sorted_texts(s).len(),
    ensures
        text_le(sorted_texts(s)[i], sorted_texts(s)[j]),
        sorted_texts(s).to_multiset() == s.to_multiset(),
{
    lemma_sorted_texts(s);
    let leq = alphabetical();
    assert(leq(sorted_texts(s)[i], sorted_texts(s)[j]));
}

} // verus!

//! Paths as sequences of segments.

use vstd::prelude::*;

use crate::text::{char_to_lower, chars_of, lower, lower_char, substring};

verus! {

/// `s` without the slashes it begins with.
pub open spec fn after_slashes(s: Seq<char>) -> Seq<char>
    decreases s.len(),
{
    if s.len() > 0 && s[0] == '/' {
        after_slashes(s.skip(1))
    } else {
        s
    }
}

/// `s` with every run of slashes shrunk to one.
pub open spec fn collapsed(s: Seq<char>) -> Seq<char>
    decreases s.len(),
{
    if s.len() == 0 {
        s
    } else if s.last() == '/' && s.len() >= 2 && s[s.len() - 2] == '/' {
        collapsed(s.drop_last())
    } else {
        collapsed(s.drop_last()).push(s.last())
    }
}

/// The form in which paths are compared: no slash in front, no slash after a slash,
/// and small letters.
pub open spec fn normalised(path: Seq<char>) -> Seq<char> {
    lower(collapsed(after_slashes(path)))
}

/// The position of the first slash, or the length if there is none.
pub open spec fn slash_at(s: Seq<char>) -> int
    decreases s.len(),
{
    if s.len() == 0 || s[0] == '/' {
        0
    } else {
        1 + slash_at(s.skip(1))
    }
}

/// What stands before the first slash, past those in front.
pub open spec fn head_of(path: Seq<char>) -> Seq<char> {
    after_slashes(path).take(slash_at(after_slashes(path)))
}

/// What stands behind that slash.
pub open spec fn tail_of(path: Seq<char>) -> Seq<char> {
    let p = after_slashes(path);
    if slash_at(p) < p.len() {
        p.skip(slash_at(p) + 1)
    } else {
        Seq::empty()
    }
}

proof fn lemma_after_slashes(s: Seq<char>, i: int)
    requires
        0 <= i <= s.len(),
        forall|j: int| 0 <= j < i ==> s[j] == '/',
        i < s.len() ==> s[i] != '/',
    ensures
        after_slashes(s) == s.skip(i),
    decreases s.len(),
{
    if i > 0 {
        assert forall|j: int| 0 <= j < i - 1 implies s.skip(1)[j] == '/' by {
            assert(s.skip(1)[j] == s[j + 1]);
        }
        lemma_after_slashes(s.skip(1), i - 1);
        assert(s.skip(1).skip(i - 1) == s.skip(i));
    } else {
        assert(s.skip(0) == s);
    }
}

pub proof fn lemma_after_slashes_shorter(s: Seq<char>)
    ensures
        after_slashes(s).len() <= s.len(),
        after_slashes(s).len() > 0 ==> after_slashes(s)[0] != '/',
    decreases s.len(),
{
    if s.len() > 0 && s[0] == '/' {
        lemma_after_slashes_shorter(s.skip(1));
    }
}

proof fn lemma_slash_at(s: Seq<char>, i: int)
    requires
        0 <= i <= s.len(),
        forall|j: int| 0 <= j < i ==> s[j] != '/',
        i < s.len() ==> s[i] == '/',
    ensures
        slash_at(s) == i,
    decreases s.len(),
{
    if i > 0 {
        assert forall|j: int| 0 <= j < i - 1 implies s.skip(1)[j] != '/' by {
            assert(s.skip(1)[j] == s[j + 1]);
        }
        lemma_slash_at(s.skip(1), i - 1);
    }
}

proof fn lemma_slash_at_bounds(s: Seq<char>)
    ensures
        0 <= slash_at(s) <= s.len(),
    decreases s.len(),
{
    if s.len() > 0 && s[0] != '/' {
        lemma_slash_at_bounds(s.skip(1));
    }
}

pub proof fn lemma_tail_shorter(path: Seq<char>)
    requires
        path.len() > 0,
    ensures
        tail_of(path).len() < path.len(),
{
    lemma_after_slashes_shorter(path);
    lemma_slash_at_bounds(after_slashes(path));
}

/// The segments of a path. Slashes in front, behind and in a row do not count, but a
/// path of nothing but slashes has one empty segment.
pub open spec fn segments(path: Seq<char>) -> Seq<Seq<char>>
    decreases path.len(),
{
    if path.len() == 0 {
        Seq::empty()
    } else {
        proof {
            lemma_tail_shorter(path);
        }
        seq![head_of(path)] + segments(tail_of(path))
    }
}

/// The segments by which routes and requests are compared.
pub open spec fn path_segments(path: Seq<char>) -> Seq<Seq<char>> {
    segments(normalised(path))
}

/// Split `/foo/bar/baz` into `foo` and `bar/baz`; slashes in front are dropped.
pub(crate) fn split_first_segment(path: &str) -> (r: (String, String))
    ensures
        r.0@ == head_of(path@),
        r.1@ == tail_of(path@),
{
    let v = chars_of(path);
    let n: usize = v.len();
    let mut from: usize = 0;
    while from < n && v[from] == '/'
        invariant
            from <= n,
            n == v@.len(),
            forall|j: int| 0 <= j < from ==> v@[j] == '/',
        decreases n - from,
    {
        from = from + 1;
    }
    let ghost p = after_slashes(path@);
    proof {
        lemma_after_slashes(path@, from as int);
    }
    let mut to: usize = from;
    while to < n && v[to] != '/'
        invariant
            from <= to <= n,
            n == v@.len(),
            forall|j: int| from <= j < to ==> v@[j] != '/',
        decreases n - to,
    {
        to = to + 1;
    }
    proof {
        assert forall|j: int| 0 <= j < to - from implies p[j] != '/' by {
            assert(p[j] == v@[from + j]);
        }
        lemma_slash_at(p, to - from);
        assert(v@.subrange(from as int, to as int) == p.take(to - from));
    }
    let head = substring(&v, from, to);
    if to < n {
        proof {
            assert(v@.subrange(to + 1, n as int) == p.skip(to - from + 1));
        }
        (head, substring(&v, to + 1, n))
    } else {
        (head, String::new())
    }
}

/// Drop slashes in front, shrink runs of slashes to one, and make letters small.
pub fn normalise_path(path: &str) -> (r: String)
    ensures
        r@ == normalised(path@),
{
    let v = chars_of(path);
    let n: usize = v.len();
    let mut from: usize = 0;
    while from < n && v[from] == '/'
        invariant
            from <= n,
            n == v@.len(),
            forall|j: int| 0 <= j < from ==> v@[j] == '/',
        decreases n - from,
    {
        from = from + 1;
    }
    let ghost p = after_slashes(path@);
    proof {
        lemma_after_slashes(path@, from as int);
    }
    let mut out = String::new();
    let mut last_was_slash = false;
    proof {
        assert(collapsed(p.take(0)) == Seq::<char>::empty());
        assert(lower(Seq::<char>::empty()) == Seq::<char>::empty());
    }
    for i in from..n
        invariant
            n == v@.len(),
            from <= n,
            p == v@.skip(from as int),
            out@ == lower(collapsed(p.take(i - from))),
            last_was_slash == (i > from && v@[i - 1] == '/'),
    {
        let ch: char = v[i];
        proof {
            let seen = p.take(i - from + 1);
            assert(seen.drop_last() == p.take(i - from));
            assert(seen.last() == ch);
            assert(i > from ==> seen[seen.len() - 2] == v@[i - 1]);
            assert(lower(collapsed(seen.drop_last()).push(ch)) == lower(
                collapsed(seen.drop_last()),
            ).push(lower_char(ch)));
        }
        if ch == '/' {
            if !last_was_slash {
                out.push(ch);
            }
            last_was_slash = true;
        } else {
            out.push(char_to_lower(ch));
            last_was_slash = false;
        }
    }
    proof {
        assert(p.take(n - from) == p);
    }
    out
}

spec fn no_double_slash(s: Seq<char>) -> bool {
    forall|i: int| 0 <= i < s.len() - 1 && #[trigger] s[i] == '/' ==> s[i + 1] != '/'
}

proof fn lemma_collapsed(s: Seq<char>)
    ensures
        no_double_slash(collapsed(s)),
        s.len() > 0 ==> collapsed(s).len() > 0 && collapsed(s)[0] == s[0] && collapsed(s).last()
            == s.last(),
        s.len() == 0 ==> collapsed(s).len() == 0,
    decreases s.len(),
{
    if s.len() > 0 {
        lemma_collapsed(s.drop_last());
    }
}

proof fn lemma_collapsed_keeps(s: Seq<char>)
    requires
        no_double_slash(s),
    ensures
        collapsed(s) == s,
    decreases s.len(),
{
    if s.len() > 0 {
        assert forall|i: int| 0 <= i < s.drop_last().len() - 1 && #[trigger] s.drop_last()[i]
            == '/' implies s.drop_last()[i + 1] != '/' by {
            assert(s[i] == '/');
        }
        lemma_collapsed_keeps(s.drop_last());
        assert(s.len() >= 2 ==> !(s[s.len() - 2] == '/' && s[s.len() - 2 + 1] == '/'));
        assert(s.drop_last().push(s.last()) == s);
    }
}

/// A path in the form in which paths are compared stays as it is.
pub proof fn law_normalising_twice(path: Seq<char>)
    ensures
        normalised(normalised(path)) == normalised(path),
{
    let bare = after_slashes(path);
    let c = collapsed(bare);
    let n = normalised(path);
    lemma_after_slashes_shorter(path);
    lemma_collapsed(bare);
    assert forall|i: int| 0 <= i < n.len() - 1 && #[trigger] n[i] == '/' implies n[i + 1] != '/' by {
        assert(c[i] == '/');
    }
    lemma_collapsed_keeps(n);
    assert(after_slashes(n) == n);
    assert(lower(n) == n);
}

proof fn lemma_slash_at_is(s: Seq<char>)
    ensures
        0 <= slash_at(s) <= s.len(),
        forall|j: int| 0 <= j < slash_at(s) ==> #[trigger] s[j] != '/',
        slash_at(s) < s.len() ==> s[slash_at(s)] == '/',
    decreases s.len(),
{
    if s.len() > 0 && s[0] != '/' {
        lemma_slash_at_is(s.skip(1));
        assert forall|j: int| 0 <= j < slash_at(s) implies #[trigger] s[j] != '/' by {
            if j > 0 {
                assert(s.skip(1)[j - 1] == s[j]);
            }
        }
    }
}

proof fn lemma_one_segment(w: Seq<char>)
    requires
        w.len() > 0,
        !w.contains('/'),
    ensures
        segments(w) == seq![w],
{
    assert forall|j: int| 0 <= j < w.len() implies w[j] != '/' by {}
    assert(w[0] != '/');
    lemma_slash_at(w, w.len() as int);
    assert(w.take(w.len() as int) == w);
    assert(segments(Seq::<char>::empty()) == Seq::<Seq<char>>::empty());
    assert(seq![w] + Seq::<Seq<char>>::empty() == seq![w]);
}

spec fn is_bare(u: Seq<char>) -> bool {
    &&& u.len() > 0
    &&& u[0] != '/'
    &&& u.last() != '/'
    &&& no_double_slash(u)
}

/// What stands behind a slash is a segment of its own, and a slash behind everything is none.
proof fn lemma_segments_joined(u: Seq<char>, w: Seq<char>)
    requires
        is_bare(u),
        !w.contains('/'),
    ensures
        w.len() > 0 ==> segments(u.push('/') + w) == segments(u).push(w),
        w.len() == 0 ==> segments(u.push('/') + w) == segments(u),
    decreases u.len(),
{
    let s = u.push('/') + w;
    lemma_slash_at_is(u);
    let k = slash_at(u);
    assert(s[0] == u[0]);
    assert(segments(Seq::<char>::empty()) == Seq::<Seq<char>>::empty());
    if k == u.len() {
        assert forall|j: int| 0 <= j < k implies s[j] != '/' by {
            assert(s[j] == u[j]);
        }
        lemma_slash_at(s, k);
        assert(s.take(k) == u);
        assert(u.take(k) == u);
        assert(s.skip(k + 1) == w);
        assert(segments(u) == seq![u] + Seq::<Seq<char>>::empty());
        if w.len() > 0 {
            lemma_one_segment(w);
            assert(seq![u] + seq![w] == segments(u).push(w));
        } else {
            assert(w == Seq::<char>::empty());
        }
    } else {
        assert(k > 0);
        assert(k < u.len() - 1);
        assert forall|j: int| 0 <= j < k implies s[j] != '/' by {
            assert(s[j] == u[j]);
        }
        lemma_slash_at(s, k);
        let rest = u.skip(k + 1);
        assert(s.take(k) == u.take(k));
        assert(s.skip(k + 1) == rest.push('/') + w);
        assert(u[k] == '/');
        assert(rest[0] == u[k + 1]);
        assert(rest.last() == u.last());
        assert forall|i: int| 0 <= i < rest.len() - 1 && #[trigger] rest[i] == '/' implies rest[i + 1]
            != '/' by {
            assert(u[i + k + 1] == '/');
            assert(rest[i + 1] == u[i + k + 2]);
        }
        lemma_segments_joined(rest, w);
        if w.len() > 0 {
            assert(seq![u.take(k)] + segments(rest).push(w) == (seq![u.take(k)] + segments(
                rest,
            )).push(w));
        }
    }
}

proof fn lemma_after_slashes_joined(a: Seq<char>, b: Seq<char>)
    ensures
        after_slashes(a + b) == if after_slashes(a).len() > 0 {
            after_slashes(a) + b
        } else {
            after_slashes(b)
        },
    decreases a.len(),
{
    if a.len() == 0 {
        assert(a + b == b);
    } else if a[0] == '/' {
        assert((a + b).skip(1) == a.skip(1) + b);
        lemma_after_slashes_joined(a.skip(1), b);
    } else {
        assert((a + b)[0] == a[0]);
    }
}

proof fn lemma_collapsed_joined(y: Seq<char>, w: Seq<char>)
    requires
        !w.contains('/'),
    ensures
        collapsed(y + w) == collapsed(y) + w,
    decreases w.len(),
{
    if w.len() == 0 {
        assert(y + w == y);
        assert(collapsed(y) + w == collapsed(y));
    } else {
        let front = w.drop_last();
        assert(w[w.len() - 1] == w.last());
        assert forall|i: int| 0 <= i < front.len() implies #[trigger] front[i] != '/' by {
            assert(w[i] == front[i]);
        }
        lemma_collapsed_joined(y, front);
        assert((y + w).drop_last() == y + front);
        assert((y + w).last() == w.last());
        assert((collapsed(y) + front).push(w.last()) == collapsed(y) + w);
    }
}

proof fn lemma_lower_bare(u: Seq<char>)
    requires
        is_bare(u),
    ensures
        is_bare(lower(u)),
{
    let n = lower(u);
    assert forall|i: int| 0 <= i < n.len() - 1 && #[trigger] n[i] == '/' implies n[i + 1] != '/' by {
        assert(u[i] == '/');
        assert(n[i + 1] == lower_char(u[i + 1]));
    }
}

/// What stands behind the last slash of a path is its last segment, with its letters small.
/// Where nothing stands there the slash does not count.
pub proof fn law_slashes_part_segments(p: Seq<char>, w: Seq<char>)
    requires
        !w.contains('/'),
    ensures
        w.len() > 0 ==> path_segments(p.push('/') + w) == path_segments(p).push(lower(w)),
        w.len() == 0 ==> path_segments(p.push('/') + w) == path_segments(p),
        w.len() > 0 ==> path_segments(w) == seq![lower(w)],
{
    let q = p.push('/') + w;
    let tail = seq!['/'] + w;
    let v = after_slashes(p);
    assert(q == p + tail);
    lemma_after_slashes_joined(p, tail);
    lemma_after_slashes_shorter(p);
    assert(tail.skip(1) == w);
    assert(w.len() > 0 ==> w[0] != '/');
    assert(after_slashes(tail) == w) by {
        reveal_with_fuel(after_slashes, 2);
    }
    assert(lower(Seq::<char>::empty()) == Seq::<char>::empty());
    assert forall|i: int| 0 <= i < lower(w).len() implies #[trigger] lower(w)[i] != '/' by {
        assert(w[i] != '/');
    }
    if w.len() > 0 {
        assert(no_double_slash(w));
        lemma_collapsed_keeps(w);
        lemma_one_segment(lower(w));
    } else {
        assert(w == Seq::<char>::empty());
    }
    if v.len() == 0 {
        assert(path_segments(p) == Seq::<Seq<char>>::empty());
        assert(Seq::<Seq<char>>::empty().push(lower(w)) == seq![lower(w)]);
    } else {
        let x = collapsed(v);
        lemma_collapsed(v);
        assert(v + tail == v.push('/') + w);
        lemma_collapsed_joined(v.push('/'), w);
        assert(v.push('/').drop_last() == v);
        let bare = if x.last() == '/' {
            x.drop_last()
        } else {
            x
        };
        if x.last() == '/' {
            assert(x.len() >= 2);
            assert(x[x.len() - 2] != '/') by {
                if x[x.len() - 2] == '/' {
                    assert(x[x.len() - 2 + 1] != '/');
                }
            }
            assert(bare.push('/') == x);
            assert forall|i: int| 0 <= i < bare.len() - 1 && #[trigger] bare[i] == '/' implies bare[i
                + 1] != '/' by {
                assert(x[i] == '/');
            }
        }
        assert(collapsed(v.push('/')) == bare.push('/'));
        assert(is_bare(bare));
        lemma_lower_bare(bare);
        assert(lower(bare.push('/') + w) == lower(bare).push('/') + lower(w));
        lemma_segments_joined(lower(bare), lower(w));
        if x.last() == '/' {
            assert(lower(x) == lower(bare).push('/') + Seq::<char>::empty());
            lemma_segments_joined(lower(bare), Seq::empty());
        }
        if w.len() == 0 {
            assert(lower(w) == Seq::<char>::empty());
        }
    }
}

/// A slash in front of a path does not count.
pub proof fn law_leading_slashes_do_not_count(p: Seq<char>)
    ensures
        path_segments(seq!['/'] + p) == path_segments(p),
        normalised(seq!['/'] + p) == normalised(p),
{
    assert((seq!['/'] + p).skip(1) == p);
}

proof fn lemma_after_slashes_lower(s: Seq<char>)
    ensures
        lower(after_slashes(s)) == after_slashes(lower(s)),
    decreases s.len(),
{
    if s.len() > 0 && s[0] == '/' {
        assert(lower(s).skip(1) == lower(s.skip(1)));
        lemma_after_slashes_lower(s.skip(1));
    }
}

proof fn lemma_collapsed_lower(s: Seq<char>)
    ensures
        lower(collapsed(s)) == collapsed(lower(s)),
    decreases s.len(),
{
    if s.len() > 0 {
        let rest = s.drop_last();
        lemma_collapsed_lower(rest);
        assert(lower(s).drop_last() == lower(rest));
        assert(lower(s).last() == lower_char(s.last()));
        assert(lower(collapsed(rest).push(s.last())) == lower(collapsed(rest)).push(
            lower_char(s.last()),
        ));
    } else {
        assert(lower(s) == s);
    }
}

/// Paths that differ only in the case of their letters are the same path.
pub proof fn law_paths_ignore_case(a: Seq<char>, b: Seq<char>)
    requires
        lower(a) == lower(b),
    ensures
        normalised(a) == normalised(b),
        path_segments(a) == path_segments(b),
{
    lemma_after_slashes_lower(a);
    lemma_after_slashes_lower(b);
    lemma_collapsed_lower(after_slashes(a));
    lemma_collapsed_lower(after_slashes(b));
}

} // verus!

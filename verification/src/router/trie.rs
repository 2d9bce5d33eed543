//! A trie over path segments.

use std::sync::Arc;

use vstd::prelude::*;

use crate::config::schema::RouteConfig;
use crate::order::{
    lemma_text_le_antisymmetric, lemma_text_le_total, lemma_text_le_transitive,
    not_after, text_le,
};
use crate::router::path::{head_of, lemma_tail_shorter, segments, split_first_segment, tail_of};
use crate::text::same;

verus! {

/// A node of the trie.
///
/// A node holds the segment that leads to it, the routes that end at it, and its
/// children. Several routes can end at one node: they differ in method or headers.
#[derive(Debug)]
pub struct TrieNode {
    /// The segment of the path that leads here.
    pub segment: String,
    /// The routes that end here, in the order in which they were inserted.
    pub routes: Vec<Arc<RouteConfig>>,
    /// The children, in alphabetical order.
    pub children: Vec<TrieNode>,
}

/// `a` comes before `b`.
pub open spec fn before(a: Seq<char>, b: Seq<char>) -> bool {
    text_le(a, b) && a != b
}

/// The position of the child for `segment`, or the number of children if there is none.
pub open spec fn child_at(children: Seq<TrieNode>, segment: Seq<char>) -> int
    decreases children.len(),
{
    if children.len() == 0 || children[0].segment@ == segment {
        0
    } else {
        1 + child_at(children.skip(1), segment)
    }
}

impl TrieNode {
    /// The children stand in alphabetical order without repetition, here and below.
    pub open spec fn wf(&self) -> bool
        decreases self,
    {
        &&& forall|i: int, j: int|
            0 <= i < j < self.children@.len() ==> before(
                (#[trigger] self.children@[i]).segment@,
                (#[trigger] self.children@[j]).segment@,
            )
        &&& forall|i: int| 0 <= i < self.children@.len() ==> (#[trigger] self.children@[i]).wf()
    }

    /// The routes that end at the node for `segs` below this one.
    pub open spec fn routes_at(&self, segs: Seq<Seq<char>>) -> Seq<Arc<RouteConfig>>
        decreases segs.len(),
    {
        if segs.len() == 0 {
            self.routes@
        } else {
            let i = child_at(self.children@, segs[0]);
            if i < self.children@.len() {
                self.children@[i].routes_at(segs.skip(1))
            } else {
                Seq::empty()
            }
        }
    }

    /// The routes that end on the way down `segs`, from this node to the deepest.
    pub open spec fn routes_along(&self, segs: Seq<Seq<char>>) -> Seq<Arc<RouteConfig>>
        decreases segs.len(),
    {
        if segs.len() == 0 {
            self.routes@
        } else {
            let i = child_at(self.children@, segs[0]);
            if i < self.children@.len() {
                self.routes@ + self.children@[i].routes_along(segs.skip(1))
            } else {
                self.routes@
            }
        }
    }

    /// A node without routes and children.
    pub fn new(segment: String) -> (r: Self)
        ensures
            r.wf(),
            r.segment@ == segment@,
            r.routes@.len() == 0,
            r.children@.len() == 0,
            forall|segs: Seq<Seq<char>>| (#[trigger] r.routes_at(segs)).len() == 0,
    {
        TrieNode { segment, routes: Vec::new(), children: Vec::new() }
    }

    /// Search for the child for `head`: its position, or the position where it would stand.
    fn search(&self, head: &str) -> (r: Result<usize, usize>)
        requires
            self.wf(),
        ensures
            match r {
                Ok(i) => {
                    &&& i < self.children@.len()
                    &&& child_at(self.children@, head@) == i
                    &&& self.children@[i as int].segment@ == head@
                },
                Err(i) => {
                    &&& i <= self.children@.len()
                    &&& child_at(self.children@, head@) == self.children@.len()
                    &&& forall|j: int|
                        0 <= j < i ==> before((#[trigger] self.children@[j]).segment@, head@)
                    &&& forall|j: int|
                        i <= j < self.children@.len() ==> before(
                            head@,
                            (#[trigger] self.children@[j]).segment@,
                        )
                },
            },
    {
        let mut low: usize = 0;
        let mut high: usize = self.children.len();
        while low < high
            invariant
                self.wf(),
                low <= high <= self.children@.len(),
                forall|j: int| 0 <= j < low ==> before((#[trigger] self.children@[j]).segment@, head@),
                forall|j: int|
                    high <= j < self.children@.len() ==> before(
                        head@,
                        (#[trigger] self.children@[j]).segment@,
                    ),
            decreases high - low,
        {
            let mid: usize = low + (high - low) / 2;
            let segment = self.children[mid].segment.as_str();
            let ghost found = self.children@[mid as int].segment@;
            if same(segment, head) {
                proof {
                    assert forall|j: int| 0 <= j < mid implies (#[trigger] self.children@[j]).segment@
                        != head@ by {
                        assert(before(self.children@[j].segment@, found));
                    }
                    lemma_child_at(self.children@, head@, mid as int);
                }
                return Ok(mid);
            }
            if not_after(segment, head) {
                proof {
                    assert forall|j: int| 0 <= j < mid + 1 implies before(
                        (#[trigger] self.children@[j]).segment@,
                        head@,
                    ) by {
                        if j < mid {
                            lemma_before_transitive(self.children@[j].segment@, found, head@);
                        }
                    }
                }
                low = mid + 1;
            } else {
                proof {
                    lemma_text_le_total(found, head@);
                    assert forall|j: int| mid <= j < self.children@.len() implies before(
                        head@,
                        (#[trigger] self.children@[j]).segment@,
                    ) by {
                        if j > mid {
                            lemma_before_transitive(head@, found, self.children@[j].segment@);
                        }
                    }
                }
                high = mid;
            }
        }
        proof {
            lemma_child_at(self.children@, head@, self.children@.len() as int);
        }
        Err(low)
    }

    /// The child for `head`.
    pub fn child(&self, head: &str) -> (r: Option<&TrieNode>)
        requires
            self.wf(),
        ensures
            match r {
                Some(node) => child_at(self.children@, head@) < self.children@.len() && *node
                    == self.children@[child_at(self.children@, head@)] && node.wf(),
                None => child_at(self.children@, head@) == self.children@.len(),
            },
    {
        match self.search(head) {
            Ok(i) => Some(&self.children[i]),
            Err(_) => None,
        }
    }

    /// Put a route at the node for `path`, making the nodes that lead to it.
    pub fn insert_prefix(&mut self, path: &str, route: Arc<RouteConfig>)
        requires
            old(self).wf(),
        ensures
            final(self).wf(),
            final(self).segment@ == old(self).segment@,
            forall|segs: Seq<Seq<char>>| #[trigger]
                final(self).routes_at(segs) == if segs == segments(path@) {
                    old(self).routes_at(segs).push(route)
                } else {
                    old(self).routes_at(segs)
                },
        decreases path@.len(),
    {
        if path.is_empty() {
            self.routes.push(route);
            proof {
                assert(segments(path@) == Seq::<Seq<char>>::empty());
                assert forall|segs: Seq<Seq<char>>| #[trigger]
                    self.routes_at(segs) == if segs == segments(path@) {
                        old(self).routes_at(segs).push(route)
                    } else {
                        old(self).routes_at(segs)
                    } by {
                    if segs.len() == 0 {
                        assert(segs == segments(path@));
                    }
                }
            }
            return;
        }
        let (head, tail) = split_first_segment(path);
        let ghost segs = segments(path@);
        proof {
            lemma_tail_shorter(path@);
            assert(segs.skip(1) == segments(tail@));
            assert(segs[0] == head@);
        }
        let ghost before_insert = *self;
        match self.search(head.as_str()) {
            Ok(i) => {
                self.children[i].insert_prefix(tail.as_str(), route);
                proof {
                    lemma_insert_below(before_insert, *self, i as int, segs, route);
                }
            },
            Err(i) => {
                let mut child = TrieNode::new(head);
                let ghost fresh = child;
                child.insert_prefix(tail.as_str(), route);
                let ghost made = child;
                proof {
                    assert forall|t: Seq<Seq<char>>| #[trigger]
                        made.routes_at(t) == if t == segs.skip(1) {
                            seq![route]
                        } else {
                            Seq::empty()
                        } by {
                        assert(fresh.routes_at(t) == Seq::<Arc<RouteConfig>>::empty());
                        assert(Seq::<Arc<RouteConfig>>::empty().push(route) == seq![route]);
                    }
                }
                self.children.insert(i, child);
                proof {
                    lemma_insert_child(before_insert, *self, i as int, made, segs, route);
                }
            },
        }
    }

    /// Collect the routes of every prefix of `path`, from the shortest to the longest.
    /// Which of them applies is for the caller to say.
    pub fn collect_prefix_matches(&self, path: &str, candidates: &mut Vec<Arc<RouteConfig>>)
        requires
            self.wf(),
        ensures
            final(candidates)@ == old(candidates)@ + self.routes_along(segments(path@)),
        decreases path@.len(),
    {
        let ghost given = candidates@;
        for i in 0..self.routes.len()
            invariant
                candidates@ == given + self.routes@.take(i as int),
        {
            candidates.push(Arc::clone(&self.routes[i]));
            proof {
                assert(self.routes@.take(i + 1) == self.routes@.take(i as int).push(
                    self.routes@[i as int],
                ));
            }
        }
        proof {
            assert(self.routes@.take(self.routes@.len() as int) == self.routes@);
        }
        if path.is_empty() {
            return;
        }
        let (head, tail) = split_first_segment(path);
        proof {
            lemma_tail_shorter(path@);
            assert(segments(path@).skip(1) == segments(tail@));
        }
        if let Ok(i) = self.search(head.as_str()) {
            self.children[i].collect_prefix_matches(tail.as_str(), candidates);
        }
    }

    /// The routes that end exactly at `path`.
    pub fn exact_routes(&self, path: &str) -> (r: &[Arc<RouteConfig>])
        requires
            self.wf(),
        ensures
            r@ == self.routes_at(segments(path@)),
        decreases path@.len(),
    {
        if path.is_empty() {
            return self.routes.as_slice();
        }
        let (head, tail) = split_first_segment(path);
        proof {
            lemma_tail_shorter(path@);
            assert(segments(path@).skip(1) == segments(tail@));
        }
        match self.search(head.as_str()) {
            Ok(i) => self.children[i].exact_routes(tail.as_str()),
            Err(_) => &[],
        }
    }

    /// The first route that ends exactly at `path`.
    pub fn find_exact(&self, path: &str) -> (r: Option<Arc<RouteConfig>>)
        requires
            self.wf(),
        ensures
            match r {
                Some(route) => self.routes_at(segments(path@)).len() > 0 && route == self.routes_at(
                    segments(path@),
                )[0],
                None => self.routes_at(segments(path@)).len() == 0,
            },
    {
        let routes = self.exact_routes(path);
        if routes.len() > 0 {
            Some(Arc::clone(&routes[0]))
        } else {
            None
        }
    }
}

impl Default for TrieNode {
    fn default() -> (r: Self)
        ensures
            r.wf(),
            r.segment@.len() == 0,
            r.routes@.len() == 0,
            r.children@.len() == 0,
            forall|segs: Seq<Seq<char>>| (#[trigger] r.routes_at(segs)).len() == 0,
    {
        TrieNode::new(String::new())
    }
}

proof fn lemma_before_transitive(a: Seq<char>, b: Seq<char>, c: Seq<char>)
    requires
        before(a, b),
        before(b, c),
    ensures
        before(a, c),
{
    lemma_text_le_transitive(a, b, c);
    if a == c {
        lemma_text_le_antisymmetric(a, b);
    }
}

proof fn lemma_child_at_bounds(children: Seq<TrieNode>, segment: Seq<char>)
    ensures
        0 <= child_at(children, segment) <= children.len(),
        child_at(children, segment) < children.len() ==> children[child_at(children, segment)].segment@
            == segment,
        forall|j: int|
            0 <= j < child_at(children, segment) ==> (#[trigger] children[j]).segment@ != segment,
    decreases children.len(),
{
    if children.len() > 0 && children[0].segment@ != segment {
        lemma_child_at_bounds(children.skip(1), segment);
        assert forall|j: int| 0 <= j < child_at(children, segment) implies (
        #[trigger] children[j]).segment@ != segment by {
            if j > 0 {
                assert(children.skip(1)[j - 1] == children[j]);
            }
        }
    }
}

/// Where the route goes below the child at `i`, the routes at `segs` alone change.
proof fn lemma_insert_below(
    a: TrieNode,
    b: TrieNode,
    i: int,
    segs: Seq<Seq<char>>,
    route: Arc<RouteConfig>,
)
    requires
        a.wf(),
        0 <= i < a.children@.len(),
        segs.len() > 0,
        a.children@[i].segment@ == segs[0],
        b.routes@ == a.routes@,
        b.children@ == a.children@.update(i, b.children@[i]),
        b.children@[i].wf(),
        b.children@[i].segment@ == segs[0],
        forall|t: Seq<Seq<char>>| #[trigger]
            b.children@[i].routes_at(t) == if t == segs.skip(1) {
                a.children@[i].routes_at(t).push(route)
            } else {
                a.children@[i].routes_at(t)
            },
    ensures
        b.wf(),
        forall|t: Seq<Seq<char>>| #[trigger]
            b.routes_at(t) == if t == segs {
                a.routes_at(t).push(route)
            } else {
                a.routes_at(t)
            },
{
    assert forall|t: Seq<Seq<char>>| #[trigger]
        b.routes_at(t) == if t == segs {
            a.routes_at(t).push(route)
        } else {
            a.routes_at(t)
        } by {
        if t.len() > 0 {
            let k = child_at(a.children@, t[0]);
            lemma_child_at_bounds(a.children@, t[0]);
            assert forall|j: int| 0 <= j < k implies (#[trigger] b.children@[j]).segment@ != t[0] by {
                assert(a.children@[j].segment@ != t[0]);
            }
            lemma_child_at(b.children@, t[0], k);
            assert(t == seq![t[0]] + t.skip(1));
            assert(segs == seq![segs[0]] + segs.skip(1));
            if k < a.children@.len() {
                assert(a.routes_at(t) == a.children@[k].routes_at(t.skip(1)));
                assert(b.routes_at(t) == b.children@[k].routes_at(t.skip(1)));
                if t[0] == segs[0] {
                    assert(k == i) by {
                        lemma_child_at(a.children@, t[0], i);
                    }
                }
            }
        }
    }
}

/// Where the route goes below a new child at `i`, the routes at `segs` alone change.
proof fn lemma_insert_child(
    a: TrieNode,
    b: TrieNode,
    i: int,
    child: TrieNode,
    segs: Seq<Seq<char>>,
    route: Arc<RouteConfig>,
)
    requires
        a.wf(),
        0 <= i <= a.children@.len(),
        segs.len() > 0,
        child_at(a.children@, segs[0]) == a.children@.len(),
        forall|j: int| 0 <= j < i ==> before((#[trigger] a.children@[j]).segment@, segs[0]),
        forall|j: int|
            i <= j < a.children@.len() ==> before(segs[0], (#[trigger] a.children@[j]).segment@),
        child.wf(),
        child.segment@ == segs[0],
        forall|t: Seq<Seq<char>>| #[trigger]
            child.routes_at(t) == if t == segs.skip(1) {
                seq![route]
            } else {
                Seq::empty()
            },
        b.routes@ == a.routes@,
        b.children@ == a.children@.insert(i, child),
    ensures
        b.wf(),
        forall|t: Seq<Seq<char>>| #[trigger]
            b.routes_at(t) == if t == segs {
                a.routes_at(t).push(route)
            } else {
                a.routes_at(t)
            },
{
    assert forall|x: int, y: int| 0 <= x < y < b.children@.len() implies before(
        (#[trigger] b.children@[x]).segment@,
        (#[trigger] b.children@[y]).segment@,
    ) by {
        let ax = if x < i { x } else { x - 1 };
        let ay = if y < i { y } else { y - 1 };
        if x != i {
            assert(b.children@[x] == a.children@[ax]);
        }
        if y != i {
            assert(b.children@[y] == a.children@[ay]);
        }
    }
    assert forall|x: int| 0 <= x < b.children@.len() implies (#[trigger] b.children@[x]).wf() by {
        let ax = if x < i { x } else { x - 1 };
        if x != i {
            assert(b.children@[x] == a.children@[ax]);
        }
    }
    assert forall|t: Seq<Seq<char>>| #[trigger]
        b.routes_at(t) == if t == segs {
            a.routes_at(t).push(route)
        } else {
            a.routes_at(t)
        } by {
        if t.len() > 0 {
            let k = child_at(a.children@, t[0]);
            lemma_child_at_bounds(a.children@, t[0]);
            assert(t == seq![t[0]] + t.skip(1));
            assert(segs == seq![segs[0]] + segs.skip(1));
            let m = if t[0] == segs[0] {
                i
            } else if k < i {
                k
            } else {
                k + 1
            };
            assert forall|j: int| 0 <= j < m implies (#[trigger] b.children@[j]).segment@ != t[0] by {
                if j < i {
                    assert(b.children@[j] == a.children@[j]);
                } else if j > i {
                    assert(b.children@[j] == a.children@[j - 1]);
                }
            }
            lemma_child_at(b.children@, t[0], m);
            if t[0] == segs[0] {
                assert(b.children@[m] == child);
                assert(b.routes_at(t) == child.routes_at(t.skip(1)));
                assert(a.routes_at(t) == Seq::<Arc<RouteConfig>>::empty());
                assert(Seq::<Arc<RouteConfig>>::empty().push(route) == seq![route]);
            } else if k < a.children@.len() {
                assert(b.children@[m] == a.children@[k]);
            }
        }
    }
}

proof fn lemma_child_at(children: Seq<TrieNode>, segment: Seq<char>, i: int)
    requires
        0 <= i <= children.len(),
        forall|j: int| 0 <= j < i ==> (#[trigger] children[j]).segment@ != segment,
        i < children.len() ==> children[i].segment@ == segment,
    ensures
        child_at(children, segment) == i,
    decreases children.len(),
{
    if i > 0 {
        assert forall|j: int| 0 <= j < i - 1 implies (#[trigger] children.skip(1)[j]).segment@
            != segment by {
            assert(children.skip(1)[j] == children[j + 1]);
        }
        lemma_child_at(children.skip(1), segment, i - 1);
    }
}

// ── Laws ────────────────────────────────────────────────────────────────────

/// On the way down a path are the routes that end at one of its beginnings, the whole of it
/// among them, and no others.
pub proof fn law_routes_along_end_at_beginnings(
    node: TrieNode,
    segs: Seq<Seq<char>>,
    route: Arc<RouteConfig>,
)
    ensures
        node.routes_along(segs).contains(route) <==> exists|n: int|
            0 <= n <= segs.len() && (#[trigger] node.routes_at(segs.take(n))).contains(route),
    decreases segs.len(),
{
    let i = child_at(node.children@, segs[0]);
    let all = node.routes_along(segs);
    assert(node.routes_at(segs.take(0)) == node.routes@);
    lemma_child_at_nonnegative(node.children@, segs[0]);
    if segs.len() == 0 {
        assert forall|n: int| 0 <= n <= segs.len() implies (#[trigger] node.routes_at(segs.take(n)))
            == node.routes@ by {
            assert(segs.take(n) =~= segs);
        }
    } else if i < node.children@.len() {
        let below = node.children@[i];
        let rest = segs.skip(1);
        law_routes_along_end_at_beginnings(below, rest, route);
        assert forall|n: int| 1 <= n <= segs.len() implies (#[trigger] node.routes_at(segs.take(n)))
            == below.routes_at(rest.take(n - 1)) by {
            assert(segs.take(n)[0] == segs[0]);
            assert(segs.take(n).skip(1) =~= rest.take(n - 1));
        }
        if all.contains(route) {
            let k = choose|k: int| 0 <= k < all.len() && all[k] == route;
            if k < node.routes@.len() {
                assert(node.routes@[k] == route);
                assert(node.routes_at(segs.take(0)).contains(route));
            } else {
                assert(below.routes_along(rest)[k - node.routes@.len()] == route);
                let m = choose|m: int|
                    0 <= m <= rest.len() && (#[trigger] below.routes_at(rest.take(m))).contains(
                        route,
                    );
                assert(node.routes_at(segs.take(m + 1)).contains(route));
            }
        }
        if exists|n: int|
            0 <= n <= segs.len() && (#[trigger] node.routes_at(segs.take(n))).contains(route) {
            let n = choose|n: int|
                0 <= n <= segs.len() && (#[trigger] node.routes_at(segs.take(n))).contains(route);
            if n == 0 {
                let k = choose|k: int| 0 <= k < node.routes@.len() && node.routes@[k] == route;
                assert(all[k] == route);
            } else {
                assert(below.routes_at(rest.take(n - 1)).contains(route));
                let k = choose|k: int|
                    0 <= k < below.routes_along(rest).len() && below.routes_along(rest)[k] == route;
                assert(all[node.routes@.len() + k] == route);
            }
        }
    } else {
        assert forall|n: int| 1 <= n <= segs.len() implies (#[trigger] node.routes_at(
            segs.take(n),
        )).len() == 0 by {
            assert(segs.take(n)[0] == segs[0]);
        }
    }
}

proof fn lemma_child_at_nonnegative(children: Seq<TrieNode>, segment: Seq<char>)
    ensures
        0 <= child_at(children, segment) <= children.len(),
    decreases children.len(),
{
    if children.len() > 0 && children[0].segment@ != segment {
        lemma_child_at_nonnegative(children.skip(1), segment);
    }
}

} // verus!

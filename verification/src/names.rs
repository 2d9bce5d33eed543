//! A map from names to values that remembers the order of its entries.

use vstd::prelude::*;

use crate::text::same;

verus! {

/// The position of the first entry called `name`, or the length if there is none.
pub open spec fn position<V>(pairs: Seq<(Seq<char>, V)>, name: Seq<char>) -> int
    decreases pairs.len(),
{
    if pairs.len() == 0 || pairs[0].0 == name {
        0
    } else {
        1 + position(pairs.skip(1), name)
    }
}

/// Whether some entry is called `name`.
pub open spec fn has_name<V>(pairs: Seq<(Seq<char>, V)>, name: Seq<char>) -> bool {
    position(pairs, name) < pairs.len()
}

/// The value of the entry called `name`.
pub open spec fn lookup<V>(pairs: Seq<(Seq<char>, V)>, name: Seq<char>) -> Option<V> {
    if has_name(pairs, name) {
        Some(pairs[position(pairs, name)].1)
    } else {
        None
    }
}

/// `pairs` with `value` under `name`: in place of the entry of that name, or at the end.
pub open spec fn with_entry<V>(pairs: Seq<(Seq<char>, V)>, name: Seq<char>, value: V) -> Seq<
    (Seq<char>, V),
> {
    if has_name(pairs, name) {
        pairs.update(position(pairs, name), (name, value))
    } else {
        pairs.push((name, value))
    }
}

/// No name occurs twice.
pub open spec fn distinct_names<V>(pairs: Seq<(Seq<char>, V)>) -> bool {
    forall|i: int, j: int|
        0 <= i < j < pairs.len() ==> (#[trigger] pairs[i]).0 != (#[trigger] pairs[j]).0
}

pub proof fn lemma_position<V>(pairs: Seq<(Seq<char>, V)>, name: Seq<char>, p: int)
    requires
        0 <= p <= pairs.len(),
        forall|j: int| 0 <= j < p ==> (#[trigger] pairs[j]).0 != name,
        p < pairs.len() ==> pairs[p].0 == name,
    ensures
        position(pairs, name) == p,
    decreases pairs.len(),
{
    if pairs.len() > 0 && pairs[0].0 != name {
        assert forall|j: int| 0 <= j < p - 1 implies (#[trigger] pairs.skip(1)[j]).0 != name by {
            assert(pairs.skip(1)[j] == pairs[j + 1]);
        }
        lemma_position(pairs.skip(1), name, p - 1);
    }
}

pub proof fn lemma_position_found<V>(pairs: Seq<(Seq<char>, V)>, name: Seq<char>)
    ensures
        0 <= position(pairs, name) <= pairs.len(),
        has_name(pairs, name) ==> pairs[position(pairs, name)].0 == name,
        forall|j: int| 0 <= j < position(pairs, name) ==> (#[trigger] pairs[j]).0 != name,
    decreases pairs.len(),
{
    if pairs.len() > 0 && pairs[0].0 != name {
        lemma_position_found(pairs.skip(1), name);
        assert forall|j: int| 0 <= j < position(pairs, name) implies (#[trigger] pairs[j]).0
            != name by {
            if j > 0 {
                assert(pairs.skip(1)[j - 1] == pairs[j]);
            }
        }
    }
}

/// A map from names to values. Entries keep the order in which they came.
#[derive(Debug)]
pub struct NameMap<V> {
    entries: Vec<(String, V)>,
}

impl<V> NameMap<V> {
    /// The entries in order, each with its name and its value.
    pub closed spec fn pairs(&self) -> Seq<(Seq<char>, V)> {
        self.entries@.map_values(|e: (String, V)| (e.0@, e.1))
    }

    #[verifier::type_invariant]
    spec fn names_are_distinct(&self) -> bool {
        distinct_names(self.pairs())
    }

    /// A map without entries.
    pub fn new() -> (r: Self)
        ensures
            r.pairs() == Seq::<(Seq<char>, V)>::empty(),
    {
        let entries: Vec<(String, V)> = Vec::new();
        let ghost pairs = entries@.map_values(|e: (String, V)| (e.0@, e.1));
        proof {
            assert(pairs == Seq::<(Seq<char>, V)>::empty());
        }
        NameMap { entries }
    }

    /// The number of entries.
    pub fn len(&self) -> (n: usize)
        ensures
            n == self.pairs().len(),
    {
        self.entries.len()
    }

    /// The name of the entry at position `i`.
    pub fn name_at(&self, i: usize) -> (r: &str)
        requires
            i < self.pairs().len(),
        ensures
            r@ == self.pairs()[i as int].0,
    {
        self.entries[i].0.as_str()
    }

    /// The value of the entry at position `i`.
    pub fn value_at(&self, i: usize) -> (r: &V)
        requires
            i < self.pairs().len(),
        ensures
            *r == self.pairs()[i as int].1,
    {
        &self.entries[i].1
    }

    fn find(&self, name: &str) -> (p: usize)
        ensures
            p == position(self.pairs(), name@),
            p <= self.pairs().len(),
    {
        let mut p: usize = 0;
        while p < self.entries.len() && !same(self.entries[p].0.as_str(), name)
            invariant
                p <= self.entries@.len(),
                forall|j: int| 0 <= j < p ==> (#[trigger] self.pairs()[j]).0 != name@,
            decreases self.entries@.len() - p,
        {
            p = p + 1;
        }
        proof {
            lemma_position(self.pairs(), name@, p as int);
        }
        p
    }

    /// The value under `name`.
    pub fn get(&self, name: &str) -> (r: Option<&V>)
        ensures
            match r {
                Some(v) => lookup(self.pairs(), name@) == Some(*v),
                None => lookup(self.pairs(), name@) is None,
            },
    {
        let p = self.find(name);
        if p < self.entries.len() {
            Some(&self.entries[p].1)
        } else {
            None
        }
    }

    /// Whether some entry is called `name`.
    pub fn contains_key(&self, name: &str) -> (r: bool)
        ensures
            r == has_name(self.pairs(), name@),
    {
        self.find(name) < self.entries.len()
    }

    /// Put `value` under `name`, in place of what was there.
    pub fn insert(&mut self, name: String, value: V)
        ensures
            final(self).pairs() == with_entry(old(self).pairs(), name@, value),
    {
        proof {
            use_type_invariant(&*self);
            lemma_position_found(self.pairs(), name@);
        }
        let ghost before = self.pairs();
        let p = self.find(name.as_str());
        let mut entries: Vec<(String, V)> = Vec::new();
        std::mem::swap(&mut entries, &mut self.entries);
        let ghost taken = entries@;
        let ghost key = name@;
        if p < entries.len() {
            entries.set(p, (name, value));
            proof {
                assert(entries@.map_values(|e: (String, V)| (e.0@, e.1)) == with_entry(
                    before,
                    key,
                    value,
                ));
            }
        } else {
            entries.push((name, value));
            proof {
                assert(entries@.map_values(|e: (String, V)| (e.0@, e.1)) == with_entry(
                    before,
                    key,
                    value,
                ));
            }
        }
        self.entries = entries;
    }
}

impl<V> Default for NameMap<V> {
    fn default() -> (r: Self)
        ensures
            r.pairs() == Seq::<(Seq<char>, V)>::empty(),
    {
        NameMap::new()
    }
}

// ── Laws ────────────────────────────────────────────────────────────────────

/// A value that was put under a name is found under it, in place of what was there; what is
/// found under any other name stays.
pub proof fn law_entries_are_found<V>(
    pairs: Seq<(Seq<char>, V)>,
    name: Seq<char>,
    value: V,
    other: Seq<char>,
)
    ensures
        lookup(with_entry(pairs, name, value), name) == Some(value),
        other != name ==> lookup(with_entry(pairs, name, value), other) == lookup(pairs, other),
        lookup(Seq::<(Seq<char>, V)>::empty(), name) is None,
{
    let after = with_entry(pairs, name, value);
    lemma_position_found(pairs, name);
    lemma_position_found(pairs, other);
    let p = position(pairs, name);
    assert forall|j: int| 0 <= j < p implies (#[trigger] after[j]).0 != name by {
        assert(after[j] == pairs[j]);
    }
    lemma_position(after, name, p);
    if other != name {
        let q = position(pairs, other);
        if q < pairs.len() {
            assert(q != p);
            assert forall|j: int| 0 <= j < q implies (#[trigger] after[j]).0 != other by {
                assert(pairs[j].0 != other);
            }
            lemma_position(after, other, q);
        } else {
            assert forall|j: int| 0 <= j < after.len() implies (#[trigger] after[j]).0 != other by {
                if j < pairs.len() {
                    assert(pairs[j].0 != other);
                }
            }
            lemma_position(after, other, after.len() as int);
        }
    }
}

/// What is found under a name is the value of the first entry that is called so, and nothing
/// is found exactly if no entry is.
pub proof fn law_first_entry_is_found<V>(pairs: Seq<(Seq<char>, V)>, name: Seq<char>, i: int)
    ensures
        lookup(pairs, name) is None <==> forall|j: int|
            0 <= j < pairs.len() ==> (#[trigger] pairs[j]).0 != name,
        0 <= i < pairs.len() && pairs[i].0 == name && (forall|j: int|
            0 <= j < i ==> (#[trigger] pairs[j]).0 != name) ==> lookup(pairs, name) == Some(
            pairs[i].1,
        ),
{
    lemma_position_found(pairs, name);
    if 0 <= i < pairs.len() && pairs[i].0 == name && (forall|j: int|
        0 <= j < i ==> (#[trigger] pairs[j]).0 != name) {
        lemma_position(pairs, name, i);
    }
}

} // verus!

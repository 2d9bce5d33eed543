//! The cache inside this process.

use std::time::SystemTime;

use dashmap::DashMap;
use vstd::prelude::*;

use crate::cache::entry::{CachedResponse, EntryView};
use crate::cache::key::CacheKey;
use crate::clock::{now_secs, unix_secs};

verus! {

// ── The `dashmap` crate ─────────────────────────────────────────────────────

#[verifier::external_type_specification]
#[verifier::external_body]
#[verifier::reject_recursive_types(K)]
#[verifier::reject_recursive_types(V)]
#[verifier::reject_recursive_types(S)]
pub struct ExDashMap<K, V, S>(DashMap<K, V, S>);

/// The responses in a map, by name.
pub uninterp spec fn cache_contents(m: DashMap<String, CachedResponse>) -> Map<
    Seq<char>,
    EntryView,
>;

/// No responses.
pub open spec fn no_entries() -> Map<Seq<char>, EntryView> {
    Map::empty()
}

/// Whether there are `n` responses.
pub open spec fn are_in_number(contents: Map<Seq<char>, EntryView>, n: usize) -> bool {
    contents.dom().finite() && contents.dom().len() == n
}

/// `DashMap::with_capacity` makes an empty map. It panics where so many entries cannot be
/// allocated, so only moderate numbers are given to it.
#[verifier::external_body]
fn empty_map(capacity: usize) -> (r: DashMap<String, CachedResponse>)
    requires
        capacity <= 4096,
    ensures
        cache_contents(r) == no_entries(),
{
    DashMap::with_capacity(capacity)
}

/// `DashMap::get` finds the entry of a name; it is copied out of the map.
#[verifier::external_body]
fn find(m: &DashMap<String, CachedResponse>, key: &str) -> (r: Option<CachedResponse>)
    ensures
        match r {
            Some(entry) => cache_contents(*m).contains_key(key@) && cache_contents(*m)[key@]
                == entry.view(),
            None => !cache_contents(*m).contains_key(key@),
        },
{
    m.get(key).map(|entry| CachedResponse::duplicate(&entry))
}

/// `DashMap::insert` puts an entry under a name, in place of what was there.
#[verifier::external_body]
fn insert(m: &mut DashMap<String, CachedResponse>, key: &str, entry: CachedResponse)
    ensures
        cache_contents(*final(m)) == cache_contents(*old(m)).insert(key@, entry.view()),
{
    m.insert(key.to_string(), entry);
}

/// `DashMap::remove` takes the entry of a name out, if there is one.
#[verifier::external_body]
fn remove(m: &mut DashMap<String, CachedResponse>, key: &str)
    ensures
        cache_contents(*final(m)) == cache_contents(*old(m)).remove(key@),
{
    m.remove(key);
}

/// `DashMap::len` counts the entries, which are finite in number.
#[verifier::external_body]
fn count(m: &DashMap<String, CachedResponse>) -> (r: usize)
    ensures
        are_in_number(cache_contents(*m), r),
{
    m.len()
}

/// `DashMap::iter` begins with some entry, if there is one; which one is open.
#[verifier::external_body]
fn some_key(m: &DashMap<String, CachedResponse>) -> (r: Option<String>)
    ensures
        match r {
            Some(key) => cache_contents(*m).contains_key(key@),
            None => cache_contents(*m) == no_entries(),
        },
{
    m.iter().next().map(|entry| entry.key().clone())
}

// ── The cache ───────────────────────────────────────────────────────────────

/// Responses kept inside this process, and markers, which say by plain names which headers
/// responses vary with.
///
/// The cache is bounded: it holds no more responses, and no more markers, than its capacity.
/// When it is full, some entry makes room for the next; which one is open. Entries that have
/// expired are dropped when they are asked for.
pub struct L1Cache {
    store: DashMap<String, CachedResponse>,
    markers: DashMap<String, CachedResponse>,
    capacity: usize,
}

/// The responses after `key` was asked for at `now`: one that has expired is dropped.
pub open spec fn after_get(contents: Map<Seq<char>, EntryView>, key: Seq<char>, now: u64) -> Map<
    Seq<char>,
    EntryView,
> {
    if contents.contains_key(key) && contents[key].expired(now) {
        contents.remove(key)
    } else {
        contents
    }
}

/// The response that is served for `key` at `now`.
pub open spec fn served(contents: Map<Seq<char>, EntryView>, key: Seq<char>, now: u64) -> Option<
    EntryView,
> {
    if contents.contains_key(key) && !contents[key].expired(now) {
        Some(contents[key])
    } else {
        None
    }
}

/// Whether `after` are the responses once `entry` was put under `key`: a full cache lets
/// some entry go first, and one that may hold nothing keeps nothing.
pub open spec fn is_after_put(
    before: Map<Seq<char>, EntryView>,
    capacity: nat,
    key: Seq<char>,
    entry: EntryView,
    after: Map<Seq<char>, EntryView>,
) -> bool {
    if capacity == 0 {
        after == before
    } else if before.dom().len() >= capacity {
        exists|gone: Seq<char>| #[trigger]
            before.contains_key(gone) && after == before.remove(gone).insert(key, entry)
    } else {
        after == before.insert(key, entry)
    }
}

fn fresh_in(m: &mut DashMap<String, CachedResponse>, key: &str, now: u64) -> (r: Option<
    CachedResponse,
>)
    ensures
        cache_contents(*final(m)) == after_get(cache_contents(*old(m)), key@, now),
        match r {
            Some(entry) => served(cache_contents(*old(m)), key@, now) == Some(entry.view()),
            None => served(cache_contents(*old(m)), key@, now) is None,
        },
{
    match find(m, key) {
        Some(entry) => if entry.is_expired_at(now) {
            remove(m, key);
            None
        } else {
            Some(entry)
        },
        None => None,
    }
}

fn evict_one(m: &mut DashMap<String, CachedResponse>)
    requires
        cache_contents(*old(m)).dom().finite(),
        cache_contents(*old(m)).dom().len() > 0,
    ensures
        exists|gone: Seq<char>| #[trigger]
            cache_contents(*old(m)).contains_key(gone) && cache_contents(*final(m))
                == cache_contents(*old(m)).remove(gone),
{
    if let Some(key) = some_key(m) {
        proof {
            assert(cache_contents(*m).contains_key(key@));
        }
        remove(m, key.as_str());
    }
}

fn put_into(m: &mut DashMap<String, CachedResponse>, capacity: usize, key: &str, entry: CachedResponse)
    ensures
        is_after_put(
            cache_contents(*old(m)),
            capacity as nat,
            key@,
            entry.view(),
            cache_contents(*final(m)),
        ),
{
    if capacity == 0 {
        return;
    }
    if count(m) >= capacity {
        evict_one(m);
    }
    insert(m, key, entry);
}

impl L1Cache {
    /// The responses by name.
    pub closed spec fn contents(&self) -> Map<Seq<char>, EntryView> {
        cache_contents(self.store)
    }

    /// The markers by plain name.
    pub closed spec fn markers(&self) -> Map<Seq<char>, EntryView> {
        cache_contents(self.markers)
    }

    /// The most responses, and the most markers, that the cache holds.
    pub closed spec fn limit(&self) -> nat {
        self.capacity as nat
    }

    /// An empty cache.
    pub fn new(capacity: usize) -> (r: Self)
        ensures
            r.contents() == no_entries(),
            r.markers() == no_entries(),
            r.limit() == capacity,
    {
        let reserved: usize = if capacity < 4096 {
            capacity
        } else {
            4096
        };
        L1Cache { store: empty_map(reserved), markers: empty_map(0), capacity }
    }

    /// The response under `key` at `now`, unless it is absent or has expired.
    pub fn get_at(&mut self, key: &CacheKey, now: u64) -> (r: Option<CachedResponse>)
        ensures
            final(self).limit() == old(self).limit(),
            final(self).markers() == old(self).markers(),
            final(self).contents() == after_get(old(self).contents(), key.text(), now),
            match r {
                Some(entry) => served(old(self).contents(), key.text(), now) == Some(entry.view()),
                None => served(old(self).contents(), key.text(), now) is None,
            },
    {
        fresh_in(&mut self.store, key.as_str(), now)
    }

    /// The response under `key` now, unless it is absent or has expired.
    pub fn get(&mut self, key: &CacheKey) -> (r: Option<CachedResponse>)
        ensures
            final(self).limit() == old(self).limit(),
            final(self).markers() == old(self).markers(),
            exists|t: SystemTime|
                {
                    let now = #[trigger] unix_secs(t);
                    &&& final(self).contents() == after_get(old(self).contents(), key.text(), now)
                    &&& match r {
                        Some(entry) => served(old(self).contents(), key.text(), now) == Some(
                            entry.view(),
                        ),
                        None => served(old(self).contents(), key.text(), now) is None,
                    }
                },
    {
        let now: u64 = now_secs();
        self.get_at(key, now)
    }

    /// Put a response under `key`.
    pub fn put(&mut self, key: &CacheKey, response: CachedResponse)
        ensures
            final(self).limit() == old(self).limit(),
            final(self).markers() == old(self).markers(),
            is_after_put(
                old(self).contents(),
                old(self).limit(),
                key.text(),
                response.view(),
                final(self).contents(),
            ),
    {
        put_into(&mut self.store, self.capacity, key.as_str(), response);
    }

    /// Take the response under `key` out. The markers stay.
    pub fn drop_response(&mut self, key: &CacheKey)
        ensures
            final(self).limit() == old(self).limit(),
            final(self).markers() == old(self).markers(),
            final(self).contents() == old(self).contents().remove(key.text()),
    {
        remove(&mut self.store, key.as_str());
    }

    /// The marker under `key` at `now`, unless it is absent or has expired.
    pub fn marker_at(&mut self, key: &CacheKey, now: u64) -> (r: Option<CachedResponse>)
        ensures
            final(self).limit() == old(self).limit(),
            final(self).contents() == old(self).contents(),
            final(self).markers() == after_get(old(self).markers(), key.text(), now),
            match r {
                Some(entry) => served(old(self).markers(), key.text(), now) == Some(entry.view()),
                None => served(old(self).markers(), key.text(), now) is None,
            },
    {
        fresh_in(&mut self.markers, key.as_str(), now)
    }

    /// Put a marker under `key`.
    pub fn mark(&mut self, key: &CacheKey, marker: CachedResponse)
        ensures
            final(self).limit() == old(self).limit(),
            final(self).contents() == old(self).contents(),
            is_after_put(
                old(self).markers(),
                old(self).limit(),
                key.text(),
                marker.view(),
                final(self).markers(),
            ),
    {
        put_into(&mut self.markers, self.capacity, key.as_str(), marker);
    }

    /// Take the marker under `key` out.
    pub fn unmark(&mut self, key: &CacheKey)
        ensures
            final(self).limit() == old(self).limit(),
            final(self).contents() == old(self).contents(),
            final(self).markers() == old(self).markers().remove(key.text()),
    {
        remove(&mut self.markers, key.as_str());
    }

    /// Take the response and the marker under `key` out.
    pub fn invalidate(&mut self, key: &CacheKey)
        ensures
            final(self).limit() == old(self).limit(),
            final(self).contents() == old(self).contents().remove(key.text()),
            final(self).markers() == old(self).markers().remove(key.text()),
    {
        self.drop_response(key);
        self.unmark(key);
    }

    /// The number of responses.
    pub fn len(&self) -> (r: usize)
        ensures
            self.contents().dom().finite(),
            r == self.contents().dom().len(),
    {
        count(&self.store)
    }

    /// Whether there is no response.
    pub fn is_empty(&self) -> (r: bool)
        ensures
            self.contents().dom().finite(),
            r == (self.contents().dom().len() == 0),
    {
        count(&self.store) == 0
    }
}

// ── Laws ────────────────────────────────────────────────────────────────────

/// What was put into a cache that may hold anything is served until it expires.
pub proof fn law_put_then_get(
    before: Map<Seq<char>, EntryView>,
    capacity: nat,
    key: Seq<char>,
    entry: EntryView,
    after: Map<Seq<char>, EntryView>,
    now: u64,
)
    requires
        is_after_put(before, capacity, key, entry, after),
        capacity >= 1,
    ensures
        served(after, key, now) == if entry.expired(now) {
            None
        } else {
            Some(entry)
        },
{
}

/// A cache never comes to hold more than it may.
pub proof fn law_cache_stays_bounded(
    before: Map<Seq<char>, EntryView>,
    capacity: nat,
    key: Seq<char>,
    entry: EntryView,
    after: Map<Seq<char>, EntryView>,
)
    requires
        is_after_put(before, capacity, key, entry, after),
        before.dom().finite(),
        before.dom().len() <= capacity,
    ensures
        after.dom().finite(),
        after.dom().len() <= capacity,
{
    if capacity == 0 {
    } else if before.dom().len() >= capacity {
        let gone = choose|gone: Seq<char>| #[trigger]
            before.contains_key(gone) && after == before.remove(gone).insert(key, entry);
        assert(before.remove(gone).dom() == before.dom().remove(gone));
        assert(after.dom() == before.dom().remove(gone).insert(key));
    } else {
        assert(after.dom() == before.dom().insert(key));
    }
}

/// A response that was taken out, or has expired, is not served.
pub proof fn law_gone_is_gone(contents: Map<Seq<char>, EntryView>, key: Seq<char>, now: u64)
    ensures
        served(contents.remove(key), key, now) is None,
        contents.contains_key(key) && contents[key].expired(now) ==> !after_get(
            contents,
            key,
            now,
        ).contains_key(key),
        served(after_get(contents, key, now), key, now) == served(contents, key, now),
{
}

/// Putting a response leaves all others as they are where there is room, and all but one where
/// there is none; a cache that may hold nothing stays as it is.
pub proof fn law_put_lets_one_go(
    before: Map<Seq<char>, EntryView>,
    capacity: nat,
    key: Seq<char>,
    entry: EntryView,
    after: Map<Seq<char>, EntryView>,
    a: Seq<char>,
    b: Seq<char>,
)
    requires
        is_after_put(before, capacity, key, entry, after),
        before.contains_key(a),
        before.contains_key(b),
        a != key,
        b != key,
        a != b,
    ensures
        before.dom().len() < capacity ==> after.contains_key(a) && after[a] == before[a],
        after.contains_key(a) && after[a] == before[a] || after.contains_key(b) && after[b]
            == before[b],
        capacity == 0 ==> after == before,
        capacity >= 1 ==> after.contains_key(key) && after[key] == entry,
{
}

/// What is served is what was put, and it is served exactly as long as it has not expired.
pub proof fn law_fresh_responses_are_served(
    contents: Map<Seq<char>, EntryView>,
    key: Seq<char>,
    now: u64,
)
    ensures
        !contents.contains_key(key) ==> served(contents, key, now) is None,
        contents.contains_key(key) && now >= contents[key].stored_at_secs ==> (if now
            < contents[key].stored_at_secs + contents[key].ttl_secs {
            served(contents, key, now) == Some(contents[key])
        } else {
            served(contents, key, now) is None
        }),
{
}

/// Asking for a response changes nothing but that one, and that one only if it has expired.
pub proof fn law_asking_changes_nothing_else(
    contents: Map<Seq<char>, EntryView>,
    key: Seq<char>,
    other: Seq<char>,
    now: u64,
)
    ensures
        other != key ==> (after_get(contents, key, now).contains_key(other)
            <==> contents.contains_key(other)),
        other != key && contents.contains_key(other) ==> after_get(contents, key, now)[other]
            == contents[other],
        served(contents, key, now) is Some ==> after_get(contents, key, now) == contents,
{
}

} // verus!

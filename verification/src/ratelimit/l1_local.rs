//! Buckets inside this process.

use std::time::Instant;

use dashmap::DashMap;
use vstd::prelude::*;

use crate::clock::{nanos_between, nanos_since};
use crate::config::schema::TokenBucketConfig;
use crate::ratelimit::bucket::{fresh_bucket, passed, Bucket, TOKEN};

verus! {

/// The buckets in a map, by name.
pub uninterp spec fn bucket_contents(m: DashMap<String, Bucket>) -> Map<Seq<char>, Bucket>;

/// No buckets.
pub open spec fn no_buckets() -> Map<Seq<char>, Bucket> {
    Map::empty()
}

/// `DashMap::new` makes an empty map.
#[verifier::external_body]
fn empty_map() -> (r: DashMap<String, Bucket>)
    ensures
        bucket_contents(r) == no_buckets(),
{
    DashMap::new()
}

/// `DashMap::get` finds the bucket of a name; it is copied out of the map.
#[verifier::external_body]
fn find(m: &DashMap<String, Bucket>, key: &str) -> (r: Option<Bucket>)
    ensures
        match r {
            Some(b) => bucket_contents(*m).contains_key(key@) && bucket_contents(*m)[key@] == b,
            None => !bucket_contents(*m).contains_key(key@),
        },
{
    m.get(key).map(|b| *b)
}

/// `DashMap::insert` puts a bucket under a name, in place of what was there.
#[verifier::external_body]
fn insert(m: &mut DashMap<String, Bucket>, key: &str, b: Bucket)
    ensures
        bucket_contents(*final(m)) == bucket_contents(*old(m)).insert(key@, b),
{
    m.insert(key.to_string(), b);
}

/// A bucket for every caller, kept in this process.
///
/// A bucket comes into being when it is first asked for, and stays.
pub struct L1LocalLimiter {
    buckets: DashMap<String, Bucket>,
    config: TokenBucketConfig,
    started: Instant,
}

/// The bucket that a request at `now` is counted in.
pub open spec fn bucket_for(
    buckets: Map<Seq<char>, Bucket>,
    cfg: TokenBucketConfig,
    key: Seq<char>,
    now: u64,
) -> Bucket {
    if buckets.contains_key(key) {
        buckets[key]
    } else {
        fresh_bucket(cfg, now)
    }
}

/// The whole tokens that are left for `key` at `now`.
pub open spec fn remaining_for(
    buckets: Map<Seq<char>, Bucket>,
    cfg: TokenBucketConfig,
    key: Seq<char>,
    now: u64,
) -> int {
    if buckets.contains_key(key) {
        buckets[key].level(now) / (TOKEN as int)
    } else {
        cfg.capacity as int
    }
}

/// No bucket holds more than its capacity.
pub open spec fn none_overflows(buckets: Map<Seq<char>, Bucket>) -> bool {
    forall|key: Seq<char>| #[trigger] buckets.contains_key(key) ==> buckets[key].wf()
}

impl L1LocalLimiter {
    /// The buckets by name.
    pub closed spec fn buckets(&self) -> Map<Seq<char>, Bucket> {
        bucket_contents(self.buckets)
    }

    /// How buckets are made.
    pub closed spec fn bucket_config(&self) -> TokenBucketConfig {
        self.config
    }

    /// The instant that the clock of the limiter counts from.
    pub closed spec fn started_at(&self) -> Instant {
        self.started
    }

    #[verifier::type_invariant]
    spec fn no_bucket_overflows(&self) -> bool {
        none_overflows(bucket_contents(self.buckets))
    }

    pub fn new(config: TokenBucketConfig) -> (r: Self)
        ensures
            r.buckets() == no_buckets(),
            r.bucket_config() == config,
    {
        L1LocalLimiter { buckets: empty_map(), config, started: Instant::now() }
    }

    /// The time on the clock of this limiter: the nanoseconds since it started.
    pub fn now(&self) -> (n: u64)
        ensures
            exists|t: Instant| n == #[trigger] nanos_between(self.started_at(), t),
    {
        assert(self.started_at() == self.started);
        nanos_since(&self.started)
    }

    /// Take a token for `key` at `now`. Returns whether there was one.
    pub fn check_at(&mut self, key: &str, now: u64) -> (r: bool)
        ensures
            final(self).started_at() == old(self).started_at(),
            final(self).bucket_config() == old(self).bucket_config(),
            r == bucket_for(old(self).buckets(), old(self).bucket_config(), key@, now).allows(now),
            final(self).buckets() == old(self).buckets().insert(
                key@,
                bucket_for(old(self).buckets(), old(self).bucket_config(), key@, now).after(now),
            ),
    {
        proof {
            use_type_invariant(&*self);
        }
        let mut b = match find(&self.buckets, key) {
            Some(b) => b,
            None => Bucket::new(&self.config, now),
        };
        let allowed = b.consume(now);
        let mut buckets = empty_map();
        std::mem::swap(&mut buckets, &mut self.buckets);
        insert(&mut buckets, key, b);
        self.buckets = buckets;
        allowed
    }

    /// Take a token for `key` now. Returns whether there was one.
    pub fn check(&mut self, key: &str) -> (r: bool)
        ensures
            final(self).started_at() == old(self).started_at(),
            final(self).bucket_config() == old(self).bucket_config(),
            exists|t: Instant|
                {
                    let now = #[trigger] nanos_between(old(self).started_at(), t);
                    let b = bucket_for(old(self).buckets(), old(self).bucket_config(), key@, now);
                    r == b.allows(now) && final(self).buckets() == old(self).buckets().insert(
                        key@,
                        b.after(now),
                    )
                },
    {
        let now: u64 = self.now();
        self.check_at(key, now)
    }

    /// The whole tokens that are left for `key` at `now`.
    pub fn remaining_at(&self, key: &str, now: u64) -> (r: u64)
        ensures
            r == remaining_for(self.buckets(), self.bucket_config(), key@, now),
    {
        proof {
            use_type_invariant(self);
        }
        match find(&self.buckets, key) {
            Some(b) => b.available(now),
            None => self.config.capacity,
        }
    }

    /// The whole tokens that are left for `key` now.
    pub fn remaining(&self, key: &str) -> (r: u64)
        ensures
            exists|t: Instant|
                r == remaining_for(
                    self.buckets(),
                    self.bucket_config(),
                    key@,
                    #[trigger] nanos_between(self.started_at(), t),
                ),
    {
        let now: u64 = self.now();
        self.remaining_at(key, now)
    }

    /// The most tokens that a bucket holds.
    pub fn capacity(&self) -> (r: u64)
        ensures
            r == self.bucket_config().capacity,
    {
        self.config.capacity
    }
}

// ── Laws ────────────────────────────────────────────────────────────────────

/// The buckets after requests, each of a caller at a time, were counted one after the other.
pub open spec fn buckets_after(
    buckets: Map<Seq<char>, Bucket>,
    cfg: TokenBucketConfig,
    requests: Seq<(Seq<char>, u64)>,
) -> Map<Seq<char>, Bucket>
    decreases requests.len(),
{
    if requests.len() == 0 {
        buckets
    } else {
        let before = buckets_after(buckets, cfg, requests.drop_last());
        let (key, now) = requests.last();
        before.insert(key, bucket_for(before, cfg, key, now).after(now))
    }
}

/// How many of some requests are of the caller `key`.
pub open spec fn requests_of(requests: Seq<(Seq<char>, u64)>, key: Seq<char>) -> nat
    decreases requests.len(),
{
    if requests.len() == 0 {
        0
    } else {
        requests_of(requests.drop_last(), key) + if requests.last().0 == key {
            1nat
        } else {
            0
        }
    }
}

/// What is left of `capacity` tokens after `n` were asked for.
pub open spec fn left(capacity: u64, n: nat) -> int {
    if n < capacity {
        capacity - n
    } else {
        0
    }
}

proof fn lemma_without_refill(
    cfg: TokenBucketConfig,
    requests: Seq<(Seq<char>, u64)>,
    key: Seq<char>,
)
    requires
        cfg.refill_rate == 0,
    ensures
        ({
            let buckets = buckets_after(no_buckets(), cfg, requests);
            let n = requests_of(requests, key);
            if n == 0 {
                !buckets.contains_key(key)
            } else {
                &&& buckets.contains_key(key)
                &&& buckets[key].capacity == cfg.capacity
                &&& buckets[key].refill_rate == 0
                &&& buckets[key].tokens == left(cfg.capacity, n) * TOKEN
            }
        }),
    decreases requests.len(),
{
    if requests.len() > 0 {
        lemma_without_refill(cfg, requests.drop_last(), key);
        let before = buckets_after(no_buckets(), cfg, requests.drop_last());
        let now = requests.last().1;
        if requests.last().0 == key {
            let n = requests_of(requests.drop_last(), key);
            let b = bucket_for(before, cfg, key, now);
            assert(b.tokens == left(cfg.capacity, n) * TOKEN);
            lemma_level_without_refill(b, now, left(cfg.capacity, n));
        }
    }
}

proof fn lemma_level_without_refill(b: Bucket, now: u64, whole: int)
    requires
        b.refill_rate == 0,
        0 <= whole <= b.capacity,
        b.tokens == whole * TOKEN,
    ensures
        b.level(now) == whole * TOKEN,
        b.allows(now) <==> whole > 0,
        b.after(now).tokens == (if whole > 0 {
            whole - 1
        } else {
            0
        }) * TOKEN,
{
    assert(passed(b.last_refill, now) * b.refill_rate == 0) by (nonlinear_arith)
        requires
            b.refill_rate == 0,
    ;
}

/// Where nothing comes in, each caller is granted as many requests as a bucket holds tokens
/// and then none, at whatever times they come and whatever other callers do in between; and
/// what is left is what was not asked for yet.
pub proof fn law_without_refill_the_capacity_is_all(
    cfg: TokenBucketConfig,
    requests: Seq<(Seq<char>, u64)>,
    key: Seq<char>,
    now: u64,
)
    requires
        cfg.refill_rate == 0,
    ensures
        ({
            let buckets = buckets_after(no_buckets(), cfg, requests);
            let n = requests_of(requests, key);
            &&& bucket_for(buckets, cfg, key, now).allows(now) <==> n < cfg.capacity
            &&& remaining_for(buckets, cfg, key, now) == left(cfg.capacity, n)
        }),
{
    lemma_without_refill(cfg, requests, key);
    let buckets = buckets_after(no_buckets(), cfg, requests);
    let n = requests_of(requests, key);
    let b = bucket_for(buckets, cfg, key, now);
    lemma_level_without_refill(b, now, left(cfg.capacity, n));
}

/// A request of one caller leaves the buckets of all others as they were.
pub proof fn law_callers_do_not_share_buckets(
    buckets: Map<Seq<char>, Bucket>,
    cfg: TokenBucketConfig,
    key: Seq<char>,
    now: u64,
    other: Seq<char>,
    later: u64,
)
    requires
        other != key,
    ensures
        ({
            let after = buckets_after(buckets, cfg, seq![(key, now)]);
            &&& bucket_for(after, cfg, other, later) == bucket_for(buckets, cfg, other, later)
            &&& remaining_for(after, cfg, other, later) == remaining_for(buckets, cfg, other, later)
        }),
{
    assert(seq![(key, now)].drop_last() =~= Seq::<(Seq<char>, u64)>::empty());
    reveal_with_fuel(buckets_after, 2);
}

/// What is left for a caller is told in whole tokens, rounded down; a caller who never came has
/// a full bucket.
pub proof fn law_whole_tokens_are_left(
    buckets: Map<Seq<char>, Bucket>,
    cfg: TokenBucketConfig,
    key: Seq<char>,
    now: u64,
)
    ensures
        buckets.contains_key(key) ==> {
            let n = remaining_for(buckets, cfg, key, now);
            1_000_000_000 * n <= buckets[key].level(now) < 1_000_000_000 * n + 1_000_000_000
        },
        !buckets.contains_key(key) ==> remaining_for(buckets, cfg, key, now) == cfg.capacity,
{
}

} // verus!

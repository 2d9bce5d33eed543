//! Cached responses.

use std::time::{Duration, SystemTime};

use bytes::Bytes;
use vstd::prelude::*;

use crate::cache::key::pair_texts;
use crate::clock::{duration_secs, now_secs, unix_secs};
use crate::text::{clone_texts, decimal, decimal_text, views};

verus! {

#[verifier::external_type_specification]
#[verifier::external_body]
pub struct ExBytes(Bytes);

/// The contents of a `Bytes`.
pub uninterp spec fn bytes_contents(b: Bytes) -> Seq<u8>;

/// `Bytes::to_vec` copies the contents.
#[verifier::external_body]
pub(crate) fn bytes_to_vec(b: &Bytes) -> (r: Vec<u8>)
    ensures
        r@ == bytes_contents(*b),
{
    b.to_vec()
}

/// `Bytes::len` counts the contents.
#[verifier::external_body]
pub(crate) fn bytes_len(b: &Bytes) -> (r: usize)
    ensures
        r == bytes_contents(*b).len(),
{
    b.len()
}

/// `Bytes::clone` makes another handle to the same contents.
#[verifier::external_body]
pub(crate) fn bytes_clone(b: &Bytes) -> (r: Bytes)
    ensures
        bytes_contents(r) == bytes_contents(*b),
{
    b.clone()
}

/// A response as it is cached.
#[derive(Debug)]
pub struct CachedResponse {
    pub status: u16,
    /// Its headers, without those that belong to one connection only.
    pub headers: Vec<(String, String)>,
    pub body: Vec<u8>,
    /// How long it may be served, in seconds.
    pub ttl_secs: u64,
    /// When it was stored, in seconds since the start of 1970.
    pub stored_at_secs: u64,
    /// The request headers that it varies with.
    pub vary_headers: Vec<String>,
}

/// What a cached response holds.
pub struct EntryView {
    pub status: u16,
    pub headers: Seq<(Seq<char>, Seq<char>)>,
    pub body: Seq<u8>,
    pub ttl_secs: u64,
    pub stored_at_secs: u64,
    pub vary_headers: Seq<Seq<char>>,
}

impl EntryView {
    /// Whether the response may no longer be served at `now`.
    pub open spec fn expired(self, now: u64) -> bool {
        (if now > self.stored_at_secs {
            now - self.stored_at_secs
        } else {
            0
        }) >= self.ttl_secs
    }

    /// The seconds since the response was stored.
    pub open spec fn age(self, now: u64) -> nat {
        if now > self.stored_at_secs {
            (now - self.stored_at_secs) as nat
        } else {
            0
        }
    }
}

fn clone_pairs(pairs: &Vec<(String, String)>) -> (r: Vec<(String, String)>)
    ensures
        pair_texts(r@) == pair_texts(pairs@),
{
    let ghost all = pair_texts(pairs@);
    let mut r: Vec<(String, String)> = Vec::new();
    for i in 0..pairs.len()
        invariant
            all == pair_texts(pairs@),
            pair_texts(r@) == all.take(i as int),
    {
        let ghost before = r@;
        r.push((pairs[i].0.clone(), pairs[i].1.clone()));
        proof {
            assert(pair_texts(r@) == pair_texts(before).push(all[i as int]));
            assert(all.take(i + 1) == all.take(i as int).push(all[i as int]));
        }
    }
    proof {
        assert(all.take(all.len() as int) == all);
    }
    r
}

fn clone_bytes(bytes: &Vec<u8>) -> (r: Vec<u8>)
    ensures
        r@ == bytes@,
{
    let mut r: Vec<u8> = Vec::new();
    for i in 0..bytes.len()
        invariant
            r@ == bytes@.take(i as int),
    {
        r.push(bytes[i]);
        proof {
            assert(bytes@.take(i + 1) == bytes@.take(i as int).push(bytes@[i as int]));
        }
    }
    proof {
        assert(bytes@.take(bytes@.len() as int) == bytes@);
    }
    r
}

impl CachedResponse {
    /// What the response holds.
    pub open spec fn view(&self) -> EntryView {
        EntryView {
            status: self.status,
            headers: pair_texts(self.headers@),
            body: self.body@,
            ttl_secs: self.ttl_secs,
            stored_at_secs: self.stored_at_secs,
            vary_headers: views(self.vary_headers@),
        }
    }

    /// A response that is stored at `now`.
    pub fn new_at(
        status: u16,
        headers: Vec<(String, String)>,
        body: Bytes,
        ttl: Duration,
        vary_headers: Vec<String>,
        now: u64,
    ) -> (r: Self)
        ensures
            r.view() == (EntryView {
                status,
                headers: pair_texts(headers@),
                body: bytes_contents(body),
                ttl_secs: duration_secs(ttl) as u64,
                stored_at_secs: now,
                vary_headers: views(vary_headers@),
            }),
            r.ttl_secs == duration_secs(ttl),
    {
        CachedResponse {
            status,
            headers,
            body: bytes_to_vec(&body),
            ttl_secs: ttl.as_secs(),
            stored_at_secs: now,
            vary_headers,
        }
    }

    /// A response that is stored now.
    pub fn new(
        status: u16,
        headers: Vec<(String, String)>,
        body: Bytes,
        ttl: Duration,
        vary_headers: Vec<String>,
    ) -> (r: Self)
        ensures
            r.status == status,
            r.headers == headers,
            r.body@ == bytes_contents(body),
            r.ttl_secs == duration_secs(ttl),
            r.vary_headers == vary_headers,
            exists|t: SystemTime| r.stored_at_secs == #[trigger] unix_secs(t),
    {
        let now: u64 = now_secs();
        CachedResponse {
            status,
            headers,
            body: bytes_to_vec(&body),
            ttl_secs: ttl.as_secs(),
            stored_at_secs: now,
            vary_headers,
        }
    }

    /// The same response again.
    pub fn duplicate(&self) -> (r: Self)
        ensures
            r.view() == self.view(),
    {
        CachedResponse {
            status: self.status,
            headers: clone_pairs(&self.headers),
            body: clone_bytes(&self.body),
            ttl_secs: self.ttl_secs,
            stored_at_secs: self.stored_at_secs,
            vary_headers: clone_texts(&self.vary_headers),
        }
    }

    /// The value of the `Age` header at `now`: the seconds since the response was stored.
    pub fn age_header_at(&self, now: u64) -> (r: String)
        ensures
            r@ == decimal_text(self.view().age(now)),
    {
        decimal(now.saturating_sub(self.stored_at_secs))
    }

    /// The value of the `Age` header now.
    pub fn age_header(&self) -> (r: String)
        ensures
            exists|t: SystemTime| r@ == decimal_text(self.view().age(#[trigger] unix_secs(t))),
    {
        let now: u64 = now_secs();
        self.age_header_at(now)
    }

    /// Whether the response may no longer be served at `now`.
    pub fn is_expired_at(&self, now: u64) -> (r: bool)
        ensures
            r == self.view().expired(now),
    {
        now.saturating_sub(self.stored_at_secs) >= self.ttl_secs
    }

    /// Whether the response may no longer be served now.
    pub fn is_expired(&self) -> (r: bool)
        ensures
            exists|t: SystemTime| r == self.view().expired(#[trigger] unix_secs(t)),
            self.ttl_secs == 0 ==> r,
    {
        let now: u64 = now_secs();
        self.is_expired_at(now)
    }
}

// ── Laws ────────────────────────────────────────────────────────────────────

/// A response may be served for as many seconds as it was stored for, and no longer: it
/// expires the very second that its time is over. One that was stored for no time at all is
/// never served, and a clock that goes back makes no response older.
pub proof fn law_responses_live_for_their_time(entry: EntryView, now: u64)
    ensures
        now >= entry.stored_at_secs ==> (entry.expired(now) <==> now >= entry.stored_at_secs
            + entry.ttl_secs),
        now < entry.stored_at_secs ==> (entry.expired(now) <==> entry.ttl_secs == 0),
        entry.ttl_secs == 0 ==> entry.expired(now),
{
}

/// The age of a response is the seconds since it was stored, and 0 on a clock that went back;
/// a response that has not expired is younger than its time.
pub proof fn law_ages_are_seconds(entry: EntryView, now: u64)
    ensures
        now >= entry.stored_at_secs ==> entry.stored_at_secs + entry.age(now) == now,
        now < entry.stored_at_secs ==> entry.age(now) == 0,
        !entry.expired(now) <==> entry.age(now) < entry.ttl_secs,
{
}

} // verus!

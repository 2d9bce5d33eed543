//! The two tiers of the cache: the one inside this process, and the one that gateways
//! share.
//!
//! A response that does not vary is kept under its plain name. One that varies is kept under
//! the name with the headers that it varies with, and a marker under the plain name says
//! which those are.

use bytes::Bytes;
use http::HeaderMap;
use vstd::prelude::*;

use crate::cache::control::{
    cache_control_of, from_headers, parse_vary, resolve_ttl, resolved_ttl, varies_with, CacheControl,
};
use crate::cache::entry::{bytes_contents, CachedResponse, EntryView};
use crate::cache::key::{
    arg_text, base_key, law_plain_key_without_vary, law_same_values_same_key,
    law_varied_key_is_another, pair_texts, same_values, storable_headers, stored_lines, varied_key,
    CacheKey,
};
use crate::cache::l1_local::{after_get, is_after_put, law_put_then_get, served, L1Cache};
use crate::clock::{duration_nanos, duration_secs};
use crate::config::schema::CacheMiddlewareConfig;
use crate::http_types::{header_contents, lists};
use crate::text::{clone_texts, same, same_texts, to_upper, upper, views};

verus! {

/// What a lookup comes to.
#[derive(Debug)]
pub enum CacheLookup {
    /// A response to serve as it is, from this process.
    Hit(CachedResponse),
    /// A response to serve as it is, from the tier that gateways share.
    SharedHit(CachedResponse),
    /// No response: the request goes to the upstream.
    Miss,
    /// The cache has no part in this request.
    Bypass,
}

/// What a lookup needs next.
pub enum LookupState {
    Finished(CacheLookup),
    /// The shared tier has to be asked for the plain name.
    AskShared { base: CacheKey },
    /// The shared tier has to be asked for the name with the headers that responses vary
    /// with. What was stored there before `since` does not count.
    AskSharedVaried { full: CacheKey, since: u64 },
}

/// What is to be written to the shared tier.
pub struct SharedWrite {
    pub key: CacheKey,
    pub entry: CachedResponse,
    /// How long the shared tier is to keep it, in seconds.
    pub ttl_secs: u64,
}

/// What a write to the shared tier holds.
pub struct WriteView {
    pub key: Seq<char>,
    pub entry: EntryView,
    pub ttl_secs: u64,
}

impl SharedWrite {
    pub open spec fn view(&self) -> WriteView {
        WriteView { key: self.key.text(), entry: self.entry.view(), ttl_secs: self.ttl_secs }
    }
}

/// What writes to the shared tier hold.
pub open spec fn write_views(writes: Seq<SharedWrite>) -> Seq<WriteView> {
    writes.map_values(|w: SharedWrite| w.view())
}

/// A request as the cache sees it.
pub struct CacheRequest<'a> {
    pub route_id: &'a str,
    pub method: &'a str,
    pub path: &'a str,
    pub query: Option<&'a str>,
    pub headers: &'a HeaderMap,
}

impl<'a> CacheRequest<'a> {
    /// The plain name of the response to this request.
    pub open spec fn base(&self) -> Seq<char> {
        base_key(self.method@, self.route_id@, self.path@, arg_text(self.query))
    }
}

// ── Reading ─────────────────────────────────────────────────────────────────

/// Whether the cache has a part in a request: its route has a cache, it does not forbid
/// one, and it is a `GET` or `HEAD`.
pub open spec fn takes_part(
    cfg: Option<CacheMiddlewareConfig>,
    method: Seq<char>,
    headers: Map<Seq<char>, Seq<Seq<u8>>>,
) -> bool {
    &&& cfg is Some
    &&& !(cache_control_of(headers) matches Some(cc) && cc.uncacheable())
    &&& (upper(method) == "GET"@ || upper(method) == "HEAD"@)
}

/// What is kept in this process: responses by their names, markers by plain names, and how
/// many there may be of each.
#[verifier::ext_equal]
pub struct LocalView {
    pub entries: Map<Seq<char>, EntryView>,
    pub markers: Map<Seq<char>, EntryView>,
    pub limit: nat,
}

/// The headers that responses under a plain name vary with, by its marker: none without one.
pub open spec fn names_under(marker: Option<EntryView>) -> Seq<Seq<char>> {
    match marker {
        Some(m) => m.vary_headers,
        None => Seq::empty(),
    }
}

/// The time before which responses under a plain name do not count, by its marker.
pub open spec fn since_under(marker: Option<EntryView>) -> u64 {
    match marker {
        Some(m) => m.stored_at_secs,
        None => 0,
    }
}

/// The name that the response to a request goes by in this process at `now`.
pub open spec fn local_name(
    local: LocalView,
    base: Seq<char>,
    headers: Map<Seq<char>, Seq<Seq<u8>>>,
    now: u64,
) -> Seq<char> {
    varied_key(base, names_under(served(local.markers, base, now)), headers)
}

/// A response, if it counts.
pub open spec fn if_since(entry: Option<EntryView>, since: u64) -> Option<EntryView> {
    if entry matches Some(e) && e.stored_at_secs >= since {
        entry
    } else {
        None
    }
}

/// The response in this process for a request at `now`: the marker under the plain name
/// says which headers count, and the response under the name with those headers is served.
pub open spec fn local_hit(
    local: LocalView,
    base: Seq<char>,
    headers: Map<Seq<char>, Seq<Seq<u8>>>,
    now: u64,
) -> Option<EntryView> {
    if_since(
        served(local.entries, local_name(local, base, headers, now), now),
        since_under(served(local.markers, base, now)),
    )
}

/// What is kept in this process after a lookup: what has expired on the way is dropped.
pub open spec fn after_lookup(
    local: LocalView,
    base: Seq<char>,
    headers: Map<Seq<char>, Seq<Seq<u8>>>,
    now: u64,
) -> LocalView {
    LocalView {
        entries: after_get(local.entries, local_name(local, base, headers, now), now),
        markers: after_get(local.markers, base, now),
        limit: local.limit,
    }
}

/// What is kept in this process once a response was taken out: without its marker, variants
/// are not found.
pub open spec fn without(local: LocalView, base: Seq<char>) -> LocalView {
    LocalView {
        entries: local.entries.remove(base),
        markers: local.markers.remove(base),
        limit: local.limit,
    }
}

/// The response in the shared tier for a request, of what is kept there by name: that under
/// the plain name if it does not vary; else it is a marker, which says which headers count.
pub open spec fn shared_hit(
    shared: Map<Seq<char>, EntryView>,
    base: Seq<char>,
    headers: Map<Seq<char>, Seq<Seq<u8>>>,
) -> Option<EntryView> {
    if !shared.contains_key(base) {
        None
    } else if shared[base].vary_headers.len() == 0 {
        Some(shared[base])
    } else {
        let full = varied_key(base, shared[base].vary_headers, headers);
        if shared.contains_key(full) {
            if_since(Some(shared[full]), shared[base].stored_at_secs)
        } else {
            None
        }
    }
}

/// What is kept in the shared tier after writes, one after the other.
pub open spec fn after_writes(
    shared: Map<Seq<char>, EntryView>,
    writes: Seq<WriteView>,
) -> Map<Seq<char>, EntryView>
    decreases writes.len(),
{
    if writes.len() == 0 {
        shared
    } else {
        after_writes(shared, writes.drop_last()).insert(writes.last().key, writes.last().entry)
    }
}

// ── Writing ─────────────────────────────────────────────────────────────────

/// Whether a response is stored at all, and for how many nanoseconds: it has to be a
/// success on a route that stores, and neither `Cache-Control` nor `Vary` may forbid it.
pub open spec fn storage_time(
    cfg: Option<CacheMiddlewareConfig>,
    status: u16,
    response_headers: Map<Seq<char>, Seq<Seq<u8>>>,
) -> Option<nat> {
    if cfg matches Some(c) && !c.read_only && 200 <= status < 300 && varies_with(
        response_headers,
    ) is Some {
        resolved_ttl(cache_control_of(response_headers), duration_nanos(cfg->0.ttl))
    } else {
        None
    }
}

/// Whether a response is kept from the shared tier.
pub open spec fn is_private(response_headers: Map<Seq<char>, Seq<Seq<u8>>>) -> bool {
    cache_control_of(response_headers) matches Some(cc) && cc.private
}

/// Whether `entry` is how an answer is stored at `now` for `time` nanoseconds.
pub open spec fn is_stored_as(entry: EntryView, answer: AnswerView, time: nat, now: u64) -> bool {
    &&& entry.status == answer.status
    &&& exists|lines: Seq<(Seq<char>, Seq<u8>)>| #[trigger]
        lists(lines, answer.headers) && entry.headers == stored_lines(lines)
    &&& entry.body == answer.body
    &&& entry.ttl_secs == time / 1_000_000_000
    &&& entry.stored_at_secs == now
    &&& varies_with(answer.headers) == Some(entry.vary_headers)
}

/// The response of an upstream.
pub struct AnswerView {
    pub status: u16,
    pub headers: Map<Seq<char>, Seq<Seq<u8>>>,
    pub body: Seq<u8>,
}

/// Whether a marker still stands for responses that vary with `names`, so that another one
/// which is kept for `ttl` seconds can be counted with them.
pub open spec fn goes_on(marker: EntryView, names: Seq<Seq<char>>, ttl: u64, now: u64) -> bool {
    &&& marker.vary_headers == names
    &&& marker.stored_at_secs <= now
    &&& (now - marker.stored_at_secs) + ttl <= u64::MAX
}

/// The time before which responses do not count, once one that varies with `names` is
/// stored at `now`: the marker that is there goes on, or a new one begins.
pub open spec fn marked_since(
    marker: Option<EntryView>,
    names: Seq<Seq<char>>,
    ttl: u64,
    now: u64,
) -> u64 {
    if marker matches Some(m) && goes_on(m, names, ttl, now) {
        marker->0.stored_at_secs
    } else {
        now
    }
}

/// The marker for responses that vary with `names`, once one with `status` is stored at
/// `now`. It outlives each of them: none is kept for more than `ttl` seconds.
pub open spec fn next_marker(
    marker: Option<EntryView>,
    names: Seq<Seq<char>>,
    status: u16,
    ttl: u64,
    now: u64,
) -> EntryView {
    let since = marked_since(marker, names, ttl, now);
    EntryView {
        status,
        headers: Seq::empty(),
        body: Seq::empty(),
        ttl_secs: ((now - since) + ttl) as u64,
        stored_at_secs: since,
        vary_headers: names,
    }
}

/// Whether what is kept in this process becomes `after` when `entry` is stored at `now` on a
/// route that keeps responses for `ttl` seconds.
///
/// A response that varies takes the place of one that did not, and the other way round.
pub open spec fn is_kept(
    before: LocalView,
    base: Seq<char>,
    headers: Map<Seq<char>, Seq<Seq<u8>>>,
    entry: EntryView,
    ttl: u64,
    now: u64,
    after: LocalView,
) -> bool {
    let full = varied_key(base, entry.vary_headers, headers);
    &&& after.limit == before.limit
    &&& if entry.vary_headers.len() == 0 {
        &&& is_after_put(before.entries, before.limit, full, entry, after.entries)
        &&& after.markers == before.markers.remove(base)
    } else {
        &&& is_after_put(before.entries.remove(base), before.limit, full, entry, after.entries)
        &&& is_after_put(
            after_get(before.markers, base, now),
            before.limit,
            base,
            next_marker(
                served(before.markers, base, now),
                entry.vary_headers,
                entry.status,
                ttl,
                now,
            ),
            after.markers,
        )
    }
}

/// What goes to the shared tier of `entry`: nothing if it is private or expires at once,
/// else the entry and, if it varies, its marker.
pub open spec fn shared_writes(
    markers: Map<Seq<char>, EntryView>,
    base: Seq<char>,
    headers: Map<Seq<char>, Seq<Seq<u8>>>,
    entry: EntryView,
    private: bool,
    ttl: u64,
    now: u64,
) -> Seq<WriteView> {
    let full = varied_key(base, entry.vary_headers, headers);
    let itself = WriteView { key: full, entry, ttl_secs: entry.ttl_secs };
    if private || entry.ttl_secs == 0 {
        Seq::empty()
    } else if entry.vary_headers.len() == 0 {
        seq![itself]
    } else {
        seq![
            itself,
            WriteView {
                key: base,
                entry: next_marker(
                    served(markers, base, now),
                    entry.vary_headers,
                    entry.status,
                    ttl,
                    now,
                ),
                ttl_secs: ttl,
            },
        ]
    }
}

/// The most seconds that a route keeps responses for.
pub open spec fn route_secs(cfg: CacheMiddlewareConfig) -> u64 {
    duration_secs(cfg.ttl) as u64
}

/// Whether what is kept in this process becomes `after` when the answer to a request is
/// stored at `now`, and `writes` go to the shared tier.
pub open spec fn is_after_store(
    cfg: Option<CacheMiddlewareConfig>,
    base: Seq<char>,
    request_headers: Map<Seq<char>, Seq<Seq<u8>>>,
    answer: AnswerView,
    now: u64,
    before: LocalView,
    after: LocalView,
    writes: Seq<WriteView>,
) -> bool {
    if storage_time(cfg, answer.status, answer.headers) is None {
        writes.len() == 0 && after == before
    } else {
        &&& route_secs(cfg->0) == duration_secs(cfg->0.ttl)
        &&& exists|entry: EntryView|
            {
                &&& #[trigger] is_stored_as(
                    entry,
                    answer,
                    storage_time(cfg, answer.status, answer.headers)->0,
                    now,
                )
                &&& is_kept(
                    before,
                    base,
                    request_headers,
                    entry,
                    route_secs(cfg->0),
                    now,
                    after,
                )
                &&& writes == shared_writes(
                    before.markers,
                    base,
                    request_headers,
                    entry,
                    is_private(answer.headers),
                    route_secs(cfg->0),
                    now,
                )
            }
    }
}

proof fn lemma_after_store(
    cfg: CacheMiddlewareConfig,
    base: Seq<char>,
    request_headers: Map<Seq<char>, Seq<Seq<u8>>>,
    answer: AnswerView,
    now: u64,
    before: LocalView,
    after: LocalView,
    writes: Seq<WriteView>,
    entry: EntryView,
)
    requires
        storage_time(Some(cfg), answer.status, answer.headers) is Some,
        route_secs(cfg) == duration_secs(cfg.ttl),
        is_stored_as(
            entry,
            answer,
            storage_time(Some(cfg), answer.status, answer.headers)->0,
            now,
        ),
        is_kept(before, base, request_headers, entry, route_secs(cfg), now, after),
        writes == shared_writes(
            before.markers,
            base,
            request_headers,
            entry,
            is_private(answer.headers),
            route_secs(cfg),
            now,
        ),
    ensures
        is_after_store(Some(cfg), base, request_headers, answer, now, before, after, writes),
{
}

/// The response cache of this process, which works on behalf of both tiers.
pub struct ResponseCache {
    l1: L1Cache,
}

/// The cache as the gateway calls it.
pub type CacheLayer = ResponseCache;

impl ResponseCache {
    /// What is kept in this process.
    pub closed spec fn local(&self) -> LocalView {
        LocalView {
            entries: self.l1.contents(),
            markers: self.l1.markers(),
            limit: self.l1.limit(),
        }
    }

    /// An empty cache.
    pub fn new(l1_capacity: usize) -> (r: Self)
        ensures
            r.local() == (LocalView {
                entries: Map::empty(),
                markers: Map::empty(),
                limit: l1_capacity as nat,
            }),
    {
        ResponseCache { l1: L1Cache::new(l1_capacity) }
    }

    /// Begin to look up the response to a request at `now`.
    pub fn lookup(
        &mut self,
        cfg: Option<&CacheMiddlewareConfig>,
        req: &CacheRequest,
        now: u64,
    ) -> (r: LookupState)
        ensures
            ({
                let headers = header_contents(*req.headers);
                let config = match cfg {
                    Some(c) => Some(*c),
                    None => None,
                };
                if !takes_part(config, req.method@, headers) {
                    &&& r == LookupState::Finished(CacheLookup::Bypass)
                    &&& final(self).local() == old(self).local()
                } else {
                    &&& final(self).local() == after_lookup(
                        old(self).local(),
                        req.base(),
                        headers,
                        now,
                    )
                    &&& match local_hit(old(self).local(), req.base(), headers, now) {
                        Some(hit) => r matches LookupState::Finished(CacheLookup::Hit(entry))
                            && entry.view() == hit,
                        None => r matches LookupState::AskShared { base } && base.text()
                            == req.base(),
                    }
                }
            }),
    {
        if cfg.is_none() {
            return LookupState::Finished(CacheLookup::Bypass);
        }
        if let Some(cc) = from_headers(req.headers) {
            if cc.is_uncacheable() {
                return LookupState::Finished(CacheLookup::Bypass);
            }
        }
        let method = to_upper(req.method);
        if !same(method.as_str(), "GET") && !same(method.as_str(), "HEAD") {
            return LookupState::Finished(CacheLookup::Bypass);
        }
        let base = CacheKey::new(req.method, req.route_id, req.path, req.query);
        let (names, since): (Vec<String>, u64) = match self.l1.marker_at(&base, now) {
            Some(marker) => (marker.vary_headers, marker.stored_at_secs),
            None => (Vec::new(), 0),
        };
        proof {
            assert(views(Seq::<String>::empty()) =~= Seq::<Seq<char>>::empty());
        }
        let full = base.with_vary(names.as_slice(), req.headers);
        if let Some(entry) = self.l1.get_at(&full, now) {
            if entry.stored_at_secs >= since {
                return LookupState::Finished(CacheLookup::Hit(entry));
            }
        }
        LookupState::AskShared { base }
    }

    /// Go on with a lookup after the shared tier was asked for the plain name: what it holds
    /// there is served, or it is a marker.
    pub fn shared_answered(
        &mut self,
        base: CacheKey,
        found: Option<CachedResponse>,
        request_headers: &HeaderMap,
    ) -> (r: LookupState)
        ensures
            final(self).local().limit == old(self).local().limit,
            match found {
                None => r == LookupState::Finished(CacheLookup::Miss) && final(self).local()
                    == old(self).local(),
                Some(entry) => if entry.view().vary_headers.len() == 0 {
                    &&& r matches LookupState::Finished(CacheLookup::SharedHit(hit)) && hit.view()
                        == entry.view()
                    &&& is_after_put(
                        old(self).local().entries,
                        old(self).local().limit,
                        base.text(),
                        entry.view(),
                        final(self).local().entries,
                    )
                    &&& final(self).local().markers == old(self).local().markers.remove(
                        base.text(),
                    )
                } else {
                    &&& r matches LookupState::AskSharedVaried { full, since } && full.text()
                        == varied_key(
                        base.text(),
                        entry.view().vary_headers,
                        header_contents(*request_headers),
                    ) && since == entry.stored_at_secs
                    &&& final(self).local().entries == old(self).local().entries.remove(base.text())
                    &&& is_after_put(
                        old(self).local().markers,
                        old(self).local().limit,
                        base.text(),
                        entry.view(),
                        final(self).local().markers,
                    )
                },
            },
    {
        match found {
            None => LookupState::Finished(CacheLookup::Miss),
            Some(entry) => if entry.vary_headers.len() == 0 {
                self.l1.unmark(&base);
                self.l1.put(&base, entry.duplicate());
                LookupState::Finished(CacheLookup::SharedHit(entry))
            } else {
                let full = base.with_vary(entry.vary_headers.as_slice(), request_headers);
                let since: u64 = entry.stored_at_secs;
                self.l1.drop_response(&base);
                self.l1.mark(&base, entry);
                LookupState::AskSharedVaried { full, since }
            },
        }
    }

    /// Go on with a lookup after the shared tier was asked for the name with headers: what
    /// it holds there is served, unless it was stored too early.
    pub fn shared_varied_answered(
        &mut self,
        full: CacheKey,
        since: u64,
        found: Option<CachedResponse>,
    ) -> (r: CacheLookup)
        ensures
            final(self).local().limit == old(self).local().limit,
            final(self).local().markers == old(self).local().markers,
            ({
                let held = match found {
                    Some(entry) => Some(entry.view()),
                    None => None,
                };
                match if_since(held, since) {
                    Some(hit) => {
                        &&& r matches CacheLookup::SharedHit(entry) && entry.view() == hit
                        &&& is_after_put(
                            old(self).local().entries,
                            old(self).local().limit,
                            full.text(),
                            hit,
                            final(self).local().entries,
                        )
                    },
                    None => r == CacheLookup::Miss && final(self).local().entries == old(
                        self,
                    ).local().entries,
                }
            }),
    {
        match found {
            Some(entry) => if entry.stored_at_secs >= since {
                self.l1.put(&full, entry.duplicate());
                CacheLookup::SharedHit(entry)
            } else {
                CacheLookup::Miss
            },
            None => CacheLookup::Miss,
        }
    }

    /// Keep the marker for responses that vary with `names`, once one with `status` is stored
    /// at `now`, and return it.
    fn mark(
        &mut self,
        base: &CacheKey,
        names: &Vec<String>,
        status: u16,
        ttl: u64,
        now: u64,
    ) -> (r: CachedResponse)
        ensures
            r.view() == next_marker(
                served(old(self).local().markers, base.text(), now),
                views(names@),
                status,
                ttl,
                now,
            ),
            final(self).local().limit == old(self).local().limit,
            final(self).local().entries == old(self).local().entries,
            is_after_put(
                after_get(old(self).local().markers, base.text(), now),
                old(self).local().limit,
                base.text(),
                r.view(),
                final(self).local().markers,
            ),
    {
        let since: u64 = match self.l1.marker_at(base, now) {
            Some(marker) => if same_texts(&marker.vary_headers, names) && marker.stored_at_secs
                <= now && now - marker.stored_at_secs <= u64::MAX - ttl {
                marker.stored_at_secs
            } else {
                now
            },
            None => now,
        };
        let marker = CachedResponse {
            status,
            headers: Vec::new(),
            body: Vec::new(),
            ttl_secs: (now - since) + ttl,
            stored_at_secs: since,
            vary_headers: clone_texts(names),
        };
        proof {
            assert(pair_texts(Seq::<(String, String)>::empty()) =~= Seq::<
                (Seq<char>, Seq<char>),
            >::empty());
        }
        self.l1.mark(base, marker.duplicate());
        marker
    }

    /// Store the response of an upstream at `now`, where it may be stored. What comes back
    /// is to be written to the shared tier, in order.
    pub fn store(
        &mut self,
        cfg: Option<&CacheMiddlewareConfig>,
        req: &CacheRequest,
        status: u16,
        response_headers: &HeaderMap,
        body: Bytes,
        now: u64,
    ) -> (r: Vec<SharedWrite>)
        ensures
            is_after_store(
                match cfg {
                    Some(c) => Some(*c),
                    None => None,
                },
                req.base(),
                header_contents(*req.headers),
                (AnswerView {
                    status,
                    headers: header_contents(*response_headers),
                    body: bytes_contents(body),
                }),
                now,
                old(self).local(),
                final(self).local(),
                write_views(r@),
            ),
    {
        let mut writes: Vec<SharedWrite> = Vec::new();
        let route = match cfg {
            Some(c) => *c,
            None => {
                return writes;
            },
        };
        if route.read_only || status < 200 || status >= 300 {
            return writes;
        }
        let response_cc = from_headers(response_headers);
        let vary_headers = parse_vary(response_headers);
        let cc = match &response_cc {
            Some(cc) => Some(cc),
            None => None,
        };
        let ttl = match resolve_ttl(cc, route.ttl) {
            Some(ttl) => ttl,
            None => {
                return writes;
            },
        };
        let names = match vary_headers {
            Some(names) => names,
            None => {
                return writes;
            },
        };
        let base = CacheKey::new(req.method, req.route_id, req.path, req.query);
        let full = base.with_vary(names.as_slice(), req.headers);
        let headers = storable_headers(response_headers);
        let private = match response_cc {
            Some(cc) => cc.private,
            None => false,
        };
        let entry = CachedResponse::new_at(status, headers, body, ttl, clone_texts(&names), now);
        let ttl_secs: u64 = ttl.as_secs();
        let most_secs: u64 = route.ttl.as_secs();
        let shared = !private && ttl_secs > 0;
        let ghost stored = entry.view();
        let ghost before = self.local();
        let ghost answer = AnswerView {
            status,
            headers: header_contents(*response_headers),
            body: bytes_contents(body),
        };
        proof {
            assert(is_stored_as(stored, answer, duration_nanos(ttl), now));
        }
        if names.len() == 0 {
            self.l1.unmark(&base);
            self.l1.put(&full, entry.duplicate());
            if shared {
                writes.push(SharedWrite { key: full, entry, ttl_secs });
            }
        } else {
            let marker = self.mark(&base, &names, status, most_secs, now);
            self.l1.drop_response(&base);
            self.l1.put(&full, entry.duplicate());
            if shared {
                writes.push(SharedWrite { key: full, entry, ttl_secs });
                writes.push(SharedWrite { key: base, entry: marker, ttl_secs: most_secs });
            }
        }
        proof {
            let expected = shared_writes(
                before.markers,
                req.base(),
                header_contents(*req.headers),
                stored,
                private,
                most_secs,
                now,
            );
            assert(write_views(writes@) =~= expected);
            lemma_after_store(
                route,
                req.base(),
                header_contents(*req.headers),
                answer,
                now,
                before,
                self.local(),
                write_views(writes@),
                stored,
            );
        }
        writes
    }

    /// Take a response out of this process, with all its variants. It is to be taken out of
    /// the shared tier under the name that comes back.
    pub fn invalidate(
        &mut self,
        route_id: &str,
        method: &str,
        path: &str,
        query: Option<&str>,
    ) -> (r: CacheKey)
        ensures
            r.text() == base_key(method@, route_id@, path@, arg_text(query)),
            final(self).local() == without(old(self).local(), r.text()),
    {
        let key = CacheKey::new(method, route_id, path, query);
        self.l1.invalidate(&key);
        key
    }
}

// ── Laws ────────────────────────────────────────────────────────────────────

/// A marker that is put outlives every response that is stored with it.
proof fn lemma_marker_lasts(
    marker: Option<EntryView>,
    names: Seq<Seq<char>>,
    status: u16,
    ttl: u64,
    stored_at: u64,
    now: u64,
)
    requires
        stored_at <= now,
        now - stored_at < ttl,
    ensures
        !next_marker(marker, names, status, ttl, stored_at).expired(now),
        next_marker(marker, names, status, ttl, stored_at).stored_at_secs <= stored_at,
{
}

/// What was stored of a response is served to the next request for it that has the same
/// values of the headers which the response varies with, until it expires: with the status,
/// the body and the headers that were stored.
pub proof fn law_stored_responses_are_served(
    cfg: CacheMiddlewareConfig,
    base: Seq<char>,
    store_headers: Map<Seq<char>, Seq<Seq<u8>>>,
    lookup_headers: Map<Seq<char>, Seq<Seq<u8>>>,
    answer: AnswerView,
    stored_at: u64,
    before: LocalView,
    after: LocalView,
    writes: Seq<WriteView>,
    now: u64,
)
    requires
        is_after_store(
            Some(cfg),
            base,
            store_headers,
            answer,
            stored_at,
            before,
            after,
            writes,
        ),
        before.limit >= 1,
        storage_time(Some(cfg), answer.status, answer.headers) matches Some(time) && stored_at
            <= now && (now - stored_at) < time / 1_000_000_000,
        varies_with(answer.headers) matches Some(names) && same_values(
            names,
            store_headers,
            lookup_headers,
        ),
    ensures
        local_hit(after, base, lookup_headers, now) matches Some(entry) && is_stored_as(
            entry,
            answer,
            storage_time(Some(cfg), answer.status, answer.headers)->0,
            stored_at,
        ),
{
    let time = storage_time(Some(cfg), answer.status, answer.headers)->0;
    let ttl = route_secs(cfg);
    let entry = choose|entry: EntryView|
        {
            &&& #[trigger] is_stored_as(entry, answer, time, stored_at)
            &&& is_kept(before, base, store_headers, entry, ttl, stored_at, after)
            &&& writes == shared_writes(
                before.markers,
                base,
                store_headers,
                entry,
                is_private(answer.headers),
                ttl,
                stored_at,
            )
        };
    let names = entry.vary_headers;
    let full = varied_key(base, names, store_headers);
    law_same_values_same_key(base, names, store_headers, lookup_headers);
    if names.len() == 0 {
        assert(names =~= Seq::<Seq<char>>::empty());
        law_put_then_get(before.entries, before.limit, full, entry, after.entries, now);
    } else {
        let marker = next_marker(
            served(before.markers, base, stored_at),
            names,
            entry.status,
            ttl,
            stored_at,
        );
        law_put_then_get(before.entries.remove(base), before.limit, full, entry, after.entries, now);
        law_put_then_get(
            after_get(before.markers, base, stored_at),
            before.limit,
            base,
            marker,
            after.markers,
            now,
        );
        lemma_marker_lasts(
            served(before.markers, base, stored_at),
            names,
            entry.status,
            ttl,
            stored_at,
            now,
        );
    }
}

/// What was stored of a response that may be shared, and does not expire at once, is found in
/// the shared tier by any request for it that has the same values of the headers which the
/// response varies with, once the writes are done there.
pub proof fn law_shared_responses_are_found(
    cfg: CacheMiddlewareConfig,
    base: Seq<char>,
    store_headers: Map<Seq<char>, Seq<Seq<u8>>>,
    lookup_headers: Map<Seq<char>, Seq<Seq<u8>>>,
    answer: AnswerView,
    stored_at: u64,
    before: LocalView,
    after: LocalView,
    writes: Seq<WriteView>,
    shared: Map<Seq<char>, EntryView>,
)
    requires
        is_after_store(
            Some(cfg),
            base,
            store_headers,
            answer,
            stored_at,
            before,
            after,
            writes,
        ),
        storage_time(Some(cfg), answer.status, answer.headers) matches Some(time) && time
            >= 1_000_000_000,
        !is_private(answer.headers),
        varies_with(answer.headers) matches Some(names) && same_values(
            names,
            store_headers,
            lookup_headers,
        ),
    ensures
        shared_hit(after_writes(shared, writes), base, lookup_headers) matches Some(entry)
            && is_stored_as(
            entry,
            answer,
            storage_time(Some(cfg), answer.status, answer.headers)->0,
            stored_at,
        ),
{
    let time = storage_time(Some(cfg), answer.status, answer.headers)->0;
    let ttl = route_secs(cfg);
    let entry = choose|entry: EntryView|
        {
            &&& #[trigger] is_stored_as(entry, answer, time, stored_at)
            &&& is_kept(before, base, store_headers, entry, ttl, stored_at, after)
            &&& writes == shared_writes(
                before.markers,
                base,
                store_headers,
                entry,
                is_private(answer.headers),
                ttl,
                stored_at,
            )
        };
    let names = entry.vary_headers;
    law_same_values_same_key(base, names, store_headers, lookup_headers);
    reveal_with_fuel(after_writes, 3);
    if names.len() == 0 {
        assert(names =~= Seq::<Seq<char>>::empty());
        law_plain_key_without_vary(base, store_headers);
        assert(writes.drop_last() =~= Seq::<WriteView>::empty());
    } else {
        law_varied_key_is_another(base, names, store_headers);
        assert(writes.drop_last() =~= seq![writes[0]]);
        assert(seq![writes[0]].drop_last() =~= Seq::<WriteView>::empty());
    }
}

/// Responses that vary with the same headers live side by side: where there is room, storing
/// one leaves what is served of another as it was.
pub proof fn law_variants_live_side_by_side(
    cfg: CacheMiddlewareConfig,
    base: Seq<char>,
    store_headers: Map<Seq<char>, Seq<Seq<u8>>>,
    other_headers: Map<Seq<char>, Seq<Seq<u8>>>,
    answer: AnswerView,
    stored_at: u64,
    before: LocalView,
    after: LocalView,
    writes: Seq<WriteView>,
    now: u64,
)
    requires
        is_after_store(
            Some(cfg),
            base,
            store_headers,
            answer,
            stored_at,
            before,
            after,
            writes,
        ),
        storage_time(Some(cfg), answer.status, answer.headers) is Some,
        before.entries.dom().finite(),
        before.entries.dom().len() < before.limit,
        before.markers.dom().finite(),
        before.markers.dom().len() < before.limit,
        stored_at <= now,
        now - stored_at < route_secs(cfg),
        varies_with(answer.headers) matches Some(names) && names.len() > 0 && varied_key(
            base,
            names,
            store_headers,
        ) != varied_key(base, names, other_headers),
        served(before.markers, base, stored_at) matches Some(marker) && goes_on(
            marker,
            varies_with(answer.headers)->0,
            route_secs(cfg),
            stored_at,
        ) && !marker.expired(now),
    ensures
        local_hit(after, base, other_headers, now) == local_hit(before, base, other_headers, now),
{
    let time = storage_time(Some(cfg), answer.status, answer.headers)->0;
    let ttl = route_secs(cfg);
    let entry = choose|entry: EntryView|
        {
            &&& #[trigger] is_stored_as(entry, answer, time, stored_at)
            &&& is_kept(before, base, store_headers, entry, ttl, stored_at, after)
            &&& writes == shared_writes(
                before.markers,
                base,
                store_headers,
                entry,
                is_private(answer.headers),
                ttl,
                stored_at,
            )
        };
    law_varied_key_is_another(base, entry.vary_headers, other_headers);
    assert(before.entries.remove(base).dom() == before.entries.dom().remove(base));
}

/// A response is stored only if it is a success on a route that stores, and neither its
/// `Cache-Control` nor its `Vary` forbids it; and never for longer than the route allows.
pub proof fn law_only_what_may_be_stored_is(
    cfg: Option<CacheMiddlewareConfig>,
    status: u16,
    response_headers: Map<Seq<char>, Seq<Seq<u8>>>,
)
    ensures
        storage_time(cfg, status, response_headers) matches Some(time) ==> {
            &&& cfg matches Some(c) && !c.read_only && time <= duration_nanos(c.ttl)
            &&& 200 <= status < 300
            &&& cache_control_of(response_headers) matches Some(cc) ==> !cc.no_store && !cc.no_cache
            &&& varies_with(response_headers) is Some
        },
{
}

/// What was taken out is not served to any request, in whatever it varied: neither from this
/// process, nor from the shared tier once it is taken out there too.
pub proof fn law_invalidated_is_not_served(
    local: LocalView,
    shared: Map<Seq<char>, EntryView>,
    base: Seq<char>,
    headers: Map<Seq<char>, Seq<Seq<u8>>>,
    now: u64,
)
    ensures
        local_hit(without(local, base), base, headers, now) is None,
        shared_hit(shared.remove(base), base, headers) is None,
{
    law_plain_key_without_vary(base, headers);
}

/// Nor does it come back when another response is stored afterwards: this process then
/// serves nothing that was stored before that.
pub proof fn law_invalidated_does_not_come_back(
    cfg: CacheMiddlewareConfig,
    base: Seq<char>,
    store_headers: Map<Seq<char>, Seq<Seq<u8>>>,
    lookup_headers: Map<Seq<char>, Seq<Seq<u8>>>,
    answer: AnswerView,
    stored_at: u64,
    local: LocalView,
    after: LocalView,
    writes: Seq<WriteView>,
    now: u64,
)
    requires
        is_after_store(
            Some(cfg),
            base,
            store_headers,
            answer,
            stored_at,
            without(local, base),
            after,
            writes,
        ),
    ensures
        local_hit(after, base, lookup_headers, now) matches Some(entry) ==> entry.stored_at_secs
            >= stored_at,
{
    let before = without(local, base);
    law_plain_key_without_vary(base, lookup_headers);
    law_plain_key_without_vary(base, store_headers);
    if storage_time(Some(cfg), answer.status, answer.headers) is Some {
        let time = storage_time(Some(cfg), answer.status, answer.headers)->0;
        let ttl = route_secs(cfg);
        let entry = choose|entry: EntryView|
            {
                &&& #[trigger] is_stored_as(entry, answer, time, stored_at)
                &&& is_kept(before, base, store_headers, entry, ttl, stored_at, after)
                &&& writes == shared_writes(
                    before.markers,
                    base,
                    store_headers,
                    entry,
                    is_private(answer.headers),
                    ttl,
                    stored_at,
                )
            };
        if entry.vary_headers.len() == 0 {
            assert(entry.vary_headers =~= Seq::<Seq<char>>::empty());
        } else {
            law_varied_key_is_another(base, entry.vary_headers, store_headers);
        }
    }
}

/// The cache has a part in `GET` and `HEAD` requests alone, in any case, on routes with a
/// cache, and only where the request itself does not say `no-store` or `no-cache`.
pub proof fn law_only_reads_are_looked_up(
    cfg: Option<CacheMiddlewareConfig>,
    method: Seq<char>,
    headers: Map<Seq<char>, Seq<Seq<u8>>>,
)
    ensures
        cfg is None ==> !takes_part(cfg, method, headers),
        upper(method) != "GET"@ && upper(method) != "HEAD"@ ==> !takes_part(cfg, method, headers),
        cache_control_of(headers) matches Some(cc) ==> (cc.no_store || cc.no_cache) ==> !takes_part(
            cfg,
            method,
            headers,
        ),
        cfg is Some && (upper(method) == "GET"@ || upper(method) == "HEAD"@) && (cache_control_of(
            headers,
        ) matches Some(cc) ==> !cc.no_store && !cc.no_cache) ==> takes_part(cfg, method, headers),
{
}

/// A success on a route that stores is stored, unless its `Vary` or its `Cache-Control` forbids
/// it: for as long as `s-maxage` says, else as `max-age` says, else as the route says, and never
/// for longer than that.
pub proof fn law_successes_are_stored(
    cfg: CacheMiddlewareConfig,
    status: u16,
    response_headers: Map<Seq<char>, Seq<Seq<u8>>>,
)
    requires
        !cfg.read_only,
        200 <= status <= 299,
        varies_with(response_headers) is Some,
    ensures
        ({
            let time = storage_time(Some(cfg), status, response_headers);
            let most = duration_nanos(cfg.ttl);
            match cache_control_of(response_headers) {
                None => time == Some(most),
                Some(cc) => {
                    let granted = match (cc.s_maxage, cc.max_age) {
                        (Some(n), _) => Some(n * 1_000_000_000),
                        (None, Some(n)) => Some(n * 1_000_000_000),
                        (None, None) => None,
                    };
                    &&& cc.no_store || cc.no_cache ==> time is None
                    &&& !cc.no_store && !cc.no_cache ==> {
                        &&& granted is None ==> time == Some(most)
                        &&& granted matches Some(n) ==> time == Some(
                            if n <= most { n as nat } else { most },
                        )
                    }
                },
            }
        }),
{
}

/// A response that says `private` stays in this process, and so does one that would expire at
/// once; any other is written to the shared tier under its own name and for its own time, and
/// one that varies with a marker under the plain name.
pub proof fn law_private_responses_are_not_shared(
    markers: Map<Seq<char>, EntryView>,
    base: Seq<char>,
    headers: Map<Seq<char>, Seq<Seq<u8>>>,
    entry: EntryView,
    private: bool,
    ttl: u64,
    now: u64,
)
    ensures
        ({
            let writes = shared_writes(markers, base, headers, entry, private, ttl, now);
            &&& writes.len() == 0 <==> private || entry.ttl_secs == 0
            &&& writes.len() > 0 ==> {
                &&& writes[0].key == varied_key(base, entry.vary_headers, headers)
                &&& writes[0].entry == entry
                &&& writes[0].ttl_secs == entry.ttl_secs
                &&& writes.len() == if entry.vary_headers.len() == 0 { 1nat } else { 2nat }
                &&& entry.vary_headers.len() > 0 ==> writes[1].key == base
                    && writes[1].entry.vary_headers == entry.vary_headers
                    && writes[1].entry.stored_at_secs <= now && writes[1].ttl_secs == ttl
            }
        }),
{
}

/// Whether a response is private is said by its `Cache-Control` alone.
pub proof fn law_private_is_a_directive(response_headers: Map<Seq<char>, Seq<Seq<u8>>>)
    ensures
        cache_control_of(response_headers) is None ==> !is_private(response_headers),
        cache_control_of(response_headers) matches Some(cc) ==> (is_private(response_headers)
            <==> cc.private),
{
}

/// What this process serves has not expired, and was not stored before the marker that speaks
/// for it.
pub proof fn law_served_responses_are_fresh(
    local: LocalView,
    base: Seq<char>,
    headers: Map<Seq<char>, Seq<Seq<u8>>>,
    now: u64,
)
    ensures
        local_hit(local, base, headers, now) matches Some(entry) ==> {
            &&& !entry.expired(now)
            &&& now >= entry.stored_at_secs ==> now < entry.stored_at_secs + entry.ttl_secs
            &&& local.markers.contains_key(base) && !local.markers[base].expired(now)
                ==> entry.stored_at_secs >= local.markers[base].stored_at_secs
        },
{
}

/// Where no marker stands under the plain name, the response under the plain name is the one
/// that is served, whatever headers a request has.
pub proof fn law_plain_responses_are_for_all(
    local: LocalView,
    base: Seq<char>,
    headers: Map<Seq<char>, Seq<Seq<u8>>>,
    now: u64,
)
    requires
        !local.markers.contains_key(base),
    ensures
        local_hit(local, base, headers, now) == served(local.entries, base, now),
{
    law_plain_key_without_vary(base, headers);
}

/// Where there is room, storing a response leaves those under all other names as they are.
pub proof fn law_storing_leaves_others(
    before: LocalView,
    base: Seq<char>,
    headers: Map<Seq<char>, Seq<Seq<u8>>>,
    entry: EntryView,
    ttl: u64,
    now: u64,
    after: LocalView,
    other: Seq<char>,
)
    requires
        is_kept(before, base, headers, entry, ttl, now, after),
        before.entries.dom().finite(),
        before.entries.dom().len() < before.limit,
        other != base,
        other != varied_key(base, entry.vary_headers, headers),
    ensures
        after.entries.contains_key(other) <==> before.entries.contains_key(other),
        before.entries.contains_key(other) ==> after.entries[other] == before.entries[other],
        after.limit == before.limit,
{
    assert(before.entries.remove(base).dom() == before.entries.dom().remove(base));
}

/// What is stored of an answer is its status, its body and the headers that it varies with, at
/// the time and for the whole seconds that it is given.
pub proof fn law_answers_are_stored_whole(
    entry: EntryView,
    answer: AnswerView,
    time: nat,
    now: u64,
)
    requires
        is_stored_as(entry, answer, time, now),
    ensures
        entry.status == answer.status,
        entry.body == answer.body,
        entry.stored_at_secs == now,
        1_000_000_000 * entry.ttl_secs <= time < 1_000_000_000 * entry.ttl_secs + 1_000_000_000,
        varies_with(answer.headers) == Some(entry.vary_headers),
{
}

/// The shared tier serves what it holds under the plain name if that does not vary; if it does,
/// it serves what it holds under the name with the headers of the request, unless that was
/// stored before.
pub proof fn law_shared_markers_are_followed(
    shared: Map<Seq<char>, EntryView>,
    base: Seq<char>,
    headers: Map<Seq<char>, Seq<Seq<u8>>>,
)
    ensures
        !shared.contains_key(base) ==> shared_hit(shared, base, headers) is None,
        shared.contains_key(base) && shared[base].vary_headers.len() == 0 ==> shared_hit(
            shared,
            base,
            headers,
        ) == Some(shared[base]),
        shared.contains_key(base) && shared[base].vary_headers.len() > 0 ==> {
            let full = varied_key(base, shared[base].vary_headers, headers);
            let found = shared.contains_key(full) && shared[full].stored_at_secs
                >= shared[base].stored_at_secs;
            &&& found ==> shared_hit(shared, base, headers) == Some(shared[full])
            &&& !found ==> shared_hit(shared, base, headers) is None
        },
{
}

/// A marker outlives the responses that it stands for: it expires when one that is stored now,
/// for as long as the route allows, does. It goes on from the marker before it if that one
/// stands for the same headers, and begins anew if not, so that older responses, which vary
/// with other headers, do not count.
pub proof fn law_markers_outlive_their_responses(
    marker: Option<EntryView>,
    names: Seq<Seq<char>>,
    status: u16,
    ttl: u64,
    now: u64,
)
    ensures
        ({
            let next = next_marker(marker, names, status, ttl, now);
            &&& next.vary_headers == names
            &&& next.stored_at_secs <= now
            &&& next.stored_at_secs + next.ttl_secs == now + ttl
            &&& marker is None ==> next.stored_at_secs == now
            &&& marker matches Some(m) ==> {
                &&& m.vary_headers != names ==> next.stored_at_secs == now
                &&& m.vary_headers == names && m.stored_at_secs <= now && now + ttl <= u64::MAX
                    ==> next.stored_at_secs == m.stored_at_secs
                &&& m.stored_at_secs > now ==> next.stored_at_secs == now
            }
        }),
{
}

/// A response that is taken out is gone under its plain name with its marker; what is kept
/// under other names stays.
pub proof fn law_taking_out_leaves_others(local: LocalView, base: Seq<char>, other: Seq<char>)
    ensures
        !without(local, base).entries.contains_key(base),
        !without(local, base).markers.contains_key(base),
        other != base ==> {
            &&& without(local, base).entries.contains_key(other) <==> local.entries.contains_key(
                other,
            )
            &&& local.entries.contains_key(other) ==> without(local, base).entries[other]
                == local.entries[other]
            &&& without(local, base).markers.contains_key(other) <==> local.markers.contains_key(
                other,
            )
            &&& local.markers.contains_key(other) ==> without(local, base).markers[other]
                == local.markers[other]
        },
{
}

/// A lookup leaves everything that has not expired as it is.
pub proof fn law_lookups_drop_nothing_fresh(
    local: LocalView,
    base: Seq<char>,
    headers: Map<Seq<char>, Seq<Seq<u8>>>,
    now: u64,
    name: Seq<char>,
)
    ensures
        ({
            let after = after_lookup(local, base, headers, now);
            &&& local.entries.contains_key(name) && !local.entries[name].expired(now)
                ==> after.entries.contains_key(name) && after.entries[name] == local.entries[name]
            &&& local.markers.contains_key(name) && !local.markers[name].expired(now)
                ==> after.markers.contains_key(name) && after.markers[name] == local.markers[name]
            &&& after.limit == local.limit
        }),
{
}

/// Writes to the shared tier take effect in their order: a name holds what was written under it
/// last, and names without a write keep what they hold.
pub proof fn law_last_write_counts(
    shared: Map<Seq<char>, EntryView>,
    writes: Seq<WriteView>,
    i: int,
    name: Seq<char>,
)
    ensures
        0 <= i < writes.len() && (forall|j: int|
            i < j < writes.len() ==> (#[trigger] writes[j]).key != writes[i].key) ==> after_writes(
            shared,
            writes,
        ).contains_key(writes[i].key) && after_writes(shared, writes)[writes[i].key]
            == writes[i].entry,
        (forall|j: int| 0 <= j < writes.len() ==> (#[trigger] writes[j]).key != name) ==> {
            &&& after_writes(shared, writes).contains_key(name) <==> shared.contains_key(name)
            &&& shared.contains_key(name) ==> after_writes(shared, writes)[name] == shared[name]
        },
    decreases writes.len(),
{
    if writes.len() > 0 {
        let rest = writes.drop_last();
        law_last_write_counts(shared, rest, i, name);
        assert(writes[writes.len() - 1] == writes.last());
        assert(forall|j: int| 0 <= j < rest.len() ==> #[trigger] rest[j] == writes[j]);
    }
}

} // verus!

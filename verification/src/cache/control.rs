//! `Cache-Control` and `Vary`.

use std::time::Duration;

use http::HeaderMap;
use vstd::prelude::*;

use crate::clock::duration_nanos;
use crate::http_types::{header_contents, header_get, header_text, header_value_str, text_under};
use crate::text::{
    has_prefix, lower, parse_u64, parsed_u64, pieces, same, split, strip_prefix, to_lower, trim,
    trimmed, views,
};

verus! {

/// The directives of a `Cache-Control` header that matter to a gateway.
/// Directives it does not know are ignored.
#[derive(Debug, Clone, Copy, PartialEq, Eq, Structural)]
pub struct CacheControl {
    /// `no-store`: must not be cached.
    pub no_store: bool,
    /// `no-cache`: treated like `no-store`.
    pub no_cache: bool,
    /// `private`: must not go into the cache that gateways share.
    pub private: bool,
    /// `max-age=N`, in seconds.
    pub max_age: Option<u64>,
    /// `s-maxage=N`, in seconds; goes before `max-age` in the shared cache.
    pub s_maxage: Option<u64>,
}

/// What a header without directives says.
pub open spec fn no_directives() -> CacheControl {
    CacheControl {
        no_store: false,
        no_cache: false,
        private: false,
        max_age: None,
        s_maxage: None,
    }
}

/// The number of seconds that `directive` gives after `prefix`.
pub open spec fn delta_seconds(directive: Seq<char>, prefix: Seq<char>) -> Option<u64> {
    if has_prefix(directive, prefix) {
        parsed_u64(directive.skip(prefix.len() as int))
    } else {
        None
    }
}

/// `cc` with one directive more, given trimmed and in small letters.
pub open spec fn with_directive(cc: CacheControl, d: Seq<char>) -> CacheControl {
    if d == "no-store"@ {
        CacheControl { no_store: true, ..cc }
    } else if d == "no-cache"@ {
        CacheControl { no_cache: true, ..cc }
    } else if d == "private"@ {
        CacheControl { private: true, ..cc }
    } else if d == "public"@ {
        cc
    } else if delta_seconds(d, "max-age="@) is Some {
        CacheControl { max_age: delta_seconds(d, "max-age="@), ..cc }
    } else if delta_seconds(d, "s-maxage="@) is Some {
        CacheControl { s_maxage: delta_seconds(d, "s-maxage="@), ..cc }
    } else {
        cc
    }
}

/// What a list of raw directives says; of two that set the same thing the later counts.
pub open spec fn directives(raw: Seq<Seq<char>>) -> CacheControl
    decreases raw.len(),
{
    if raw.len() == 0 {
        no_directives()
    } else {
        with_directive(
            directives(raw.drop_last()),
            lower(trimmed(raw.last())),
        )
    }
}

/// What the header value `value` says.
pub open spec fn parsed(value: Seq<char>) -> CacheControl {
    directives(pieces(value, ','))
}

fn parse_delta_seconds(directive: &str, prefix: &str) -> (r: Option<u64>)
    ensures
        r == delta_seconds(directive@, prefix@),
{
    match strip_prefix(directive, prefix) {
        Some(v) => parse_u64(v.as_str()),
        None => None,
    }
}

impl Default for CacheControl {
    fn default() -> (r: Self)
        ensures
            r == no_directives(),
    {
        CacheControl {
            no_store: false,
            no_cache: false,
            private: false,
            max_age: None,
            s_maxage: None,
        }
    }
}

impl CacheControl {
    /// Whether what carries these directives must not be stored.
    pub open spec fn uncacheable(self) -> bool {
        self.no_store || self.no_cache
    }

    /// The lifetime in the shared cache, in seconds.
    pub open spec fn shared_secs(self) -> Option<u64> {
        if self.s_maxage is Some {
            self.s_maxage
        } else {
            self.max_age
        }
    }

    /// Read a `Cache-Control` header value.
    pub fn parse(value: &str) -> (r: Self)
        ensures
            r == parsed(value@),
    {
        let parts = split(value, ',');
        let ghost raw = pieces(value@, ',');
        let mut cc = CacheControl::default();
        for i in 0..parts.len()
            invariant
                views(parts@) == raw,
                cc == directives(raw.take(i as int)),
        {
            let directive = to_lower(trim(parts[i].as_str()).as_str());
            let d = directive.as_str();
            proof {
                assert(raw[i as int] == parts@[i as int]@);
                assert(raw.take(i + 1).drop_last() == raw.take(i as int));
                assert(raw.take(i + 1).last() == raw[i as int]);
            }
            if same(d, "no-store") {
                cc.no_store = true;
            } else if same(d, "no-cache") {
                cc.no_cache = true;
            } else if same(d, "private") {
                cc.private = true;
            } else if same(d, "public") {
            } else if let Some(secs) = parse_delta_seconds(d, "max-age=") {
                cc.max_age = Some(secs);
            } else if let Some(secs) = parse_delta_seconds(d, "s-maxage=") {
                cc.s_maxage = Some(secs);
            }
        }
        proof {
            assert(raw.take(raw.len() as int) == raw);
        }
        cc
    }

    /// Whether what carries these directives must not be stored.
    pub fn is_uncacheable(&self) -> (r: bool)
        ensures
            r == self.uncacheable(),
    {
        self.no_store || self.no_cache
    }

    /// The lifetime in the shared cache: `s-maxage`, else `max-age`.
    pub fn shared_ttl(&self) -> (r: Option<Duration>)
        ensures
            self.s_maxage matches Some(n) ==> r matches Some(d) && duration_nanos(d) == n
                * 1_000_000_000,
            self.s_maxage is None ==> (match (r, self.max_age) {
                (Some(d), Some(n)) => duration_nanos(d) == n * 1_000_000_000,
                (None, None) => true,
                _ => false,
            }),
            match r {
                Some(d) => self.shared_secs() is Some && duration_nanos(d)
                    == self.shared_secs()->0 * 1_000_000_000,
                None => self.shared_secs() is None,
            },
    {
        match self.s_maxage {
            Some(secs) => Some(Duration::from_secs(secs)),
            None => self.private_ttl(),
        }
    }

    /// The lifetime in a cache of this process alone: `max-age`.
    pub fn private_ttl(&self) -> (r: Option<Duration>)
        ensures
            match r {
                Some(d) => self.max_age is Some && duration_nanos(d)
                    == self.max_age->0 * 1_000_000_000,
                None => self.max_age is None,
            },
    {
        match self.max_age {
            Some(secs) => Some(Duration::from_secs(secs)),
            None => None,
        }
    }
}

/// The lifetime of a response, in nanoseconds: none if it must not be stored, else
/// the smaller of what the response grants and what the route grants.
pub open spec fn resolved_ttl(response_cc: Option<CacheControl>, route_ttl: nat) -> Option<nat> {
    match response_cc {
        Some(cc) => if cc.uncacheable() {
            None
        } else if cc.shared_secs() is Some && cc.shared_secs()->0 * 1_000_000_000 < route_ttl {
            Some((cc.shared_secs()->0 * 1_000_000_000) as nat)
        } else {
            Some(route_ttl)
        },
        None => Some(route_ttl),
    }
}

/// Decide for how long a response is stored.
pub fn resolve_ttl(response_cc: Option<&CacheControl>, route_ttl: Duration) -> (r: Option<Duration>)
    ensures
        ({
            let cc = match response_cc {
                Some(cc) => Some(*cc),
                None => None,
            };
            let ttl = resolved_ttl(cc, duration_nanos(route_ttl));
            match r {
                Some(d) => ttl == Some(duration_nanos(d)),
                None => ttl is None,
            }
        }),
{
    if let Some(cc) = response_cc {
        if cc.is_uncacheable() {
            return None;
        }
        if let Some(upstream_ttl) = cc.shared_ttl() {
            if upstream_ttl.as_nanos() < route_ttl.as_nanos() {
                return Some(upstream_ttl);
            }
            return Some(route_ttl);
        }
    }
    Some(route_ttl)
}

/// Read the `Cache-Control` header; none if it is absent or no text.
pub fn from_headers(headers: &HeaderMap) -> (r: Option<CacheControl>)
    ensures
        r == cache_control_of(header_contents(*headers)),
{
    match header_text(headers, "cache-control") {
        Some(value) => Some(CacheControl::parse(value.as_str())),
        None => None,
    }
}

/// What the `Cache-Control` header says, if there is one that can be read.
pub open spec fn cache_control_of(headers: Map<Seq<char>, Seq<Seq<u8>>>) -> Option<CacheControl> {
    match text_under(headers, "cache-control"@) {
        Some(value) => Some(parsed(value)),
        None => None,
    }
}

// ── Vary ────────────────────────────────────────────────────────────────────

/// The header names in a list of raw ones: trimmed, in small letters, without empty ones.
pub open spec fn vary_names(raw: Seq<Seq<char>>) -> Seq<Seq<char>>
    decreases raw.len(),
{
    if raw.len() == 0 {
        Seq::empty()
    } else {
        let before = vary_names(raw.drop_last());
        let name = lower(trimmed(raw.last()));
        if name.len() > 0 {
            before.push(name)
        } else {
            before
        }
    }
}

/// The headers that a response varies with: none at all without a `Vary` header. There is
/// no such list for `*`, which stands for everything, nor for a header that cannot be
/// read.
pub open spec fn varies_with(headers: Map<Seq<char>, Seq<Seq<u8>>>) -> Option<Seq<Seq<char>>> {
    if !headers.contains_key(lower("vary"@)) {
        Some(Seq::empty())
    } else {
        match text_under(headers, "vary"@) {
            Some(value) => if trimmed(value) == "*"@ {
                None
            } else {
                Some(vary_names(pieces(value, ',')))
            },
            None => None,
        }
    }
}

fn split_vary(value: &str) -> (r: Vec<String>)
    ensures
        views(r@) == vary_names(pieces(value@, ',')),
{
    let parts = split(value, ',');
    let ghost raw = pieces(value@, ',');
    let mut names: Vec<String> = Vec::new();
    proof {
        assert(views(names@) == vary_names(raw.take(0)));
    }
    for i in 0..parts.len()
        invariant
            views(parts@) == raw,
            views(names@) == vary_names(raw.take(i as int)),
    {
        let name = to_lower(trim(parts[i].as_str()).as_str());
        proof {
            assert(raw[i as int] == parts@[i as int]@);
            assert(raw.take(i + 1).drop_last() == raw.take(i as int));
            assert(raw.take(i + 1).last() == raw[i as int]);
        }
        let text = name.as_str();
        if !text.is_empty() {
            let ghost before = names@;
            let ghost small = name@;
            names.push(name);
            proof {
                assert(views(names@) == views(before).push(small));
            }
        }
    }
    proof {
        assert(raw.take(raw.len() as int) == raw);
    }
    names
}

/// Read the `Vary` header: the names of the headers that a response varies with. An empty
/// list means that the response does not vary; none that it must not be stored.
pub fn parse_vary(headers: &HeaderMap) -> (r: Option<Vec<String>>)
    ensures
        match r {
            Some(names) => varies_with(header_contents(*headers)) == Some(views(names@)),
            None => varies_with(header_contents(*headers)) is None,
        },
{
    match header_get(headers, "vary") {
        None => {
            let none: Vec<String> = Vec::new();
            proof {
                assert(views(none@) == Seq::<Seq<char>>::empty());
            }
            Some(none)
        },
        Some(value) => match header_value_str(value) {
            Ok(vary) => {
                let bare = trim(vary);
                if same(bare.as_str(), "*") {
                    None
                } else {
                    Some(split_vary(vary))
                }
            },
            Err(_) => None,
        },
    }
}

// ── Laws ────────────────────────────────────────────────────────────────────

/// With `s-maxage=N` the lifetime in the shared cache is `N` seconds, whatever `max-age`
/// says: a response that may be stored is kept for `N` seconds, or for as long as the route
/// grants if that is shorter.
pub proof fn law_s_maxage_goes_first(cc: CacheControl, n: u64, route_ttl: nat)
    requires
        cc.s_maxage == Some(n),
    ensures
        cc.shared_secs() == Some(n),
        !cc.no_store && !cc.no_cache ==> resolved_ttl(Some(cc), route_ttl) == Some(
            if n * 1_000_000_000 <= route_ttl {
                (n * 1_000_000_000) as nat
            } else {
                route_ttl
            },
        ),
{
}

/// Without `s-maxage`, `max-age=N` counts in its place.
pub proof fn law_max_age_counts_without_s_maxage(cc: CacheControl, n: u64, route_ttl: nat)
    requires
        cc.s_maxage is None,
        cc.max_age == Some(n),
    ensures
        cc.shared_secs() == Some(n),
        !cc.no_store && !cc.no_cache ==> resolved_ttl(Some(cc), route_ttl) == Some(
            if n * 1_000_000_000 <= route_ttl {
                (n * 1_000_000_000) as nat
            } else {
                route_ttl
            },
        ),
{
}

/// A response that grants no lifetime of its own gets the one of the route, and so does one
/// without a `Cache-Control` header.
pub proof fn law_the_route_grants_the_rest(cc: CacheControl, route_ttl: nat)
    requires
        cc.s_maxage is None,
        cc.max_age is None,
        !cc.no_store,
        !cc.no_cache,
    ensures
        resolved_ttl(Some(cc), route_ttl) == Some(route_ttl),
        resolved_ttl(None, route_ttl) == Some(route_ttl),
{
}

/// `no-store` and `no-cache` each forbid to store a response, and nothing else does:
/// `private` does not, nor does any lifetime.
pub proof fn law_only_two_directives_forbid_storing(cc: CacheControl, route_ttl: nat)
    ensures
        resolved_ttl(Some(cc), route_ttl) is None <==> (cc.no_store || cc.no_cache),
        cc.uncacheable() <==> (cc.no_store || cc.no_cache),
{
}

/// No directive makes a response live longer than its route grants.
pub proof fn law_the_route_bounds_the_lifetime(cc: Option<CacheControl>, route_ttl: nat)
    ensures
        resolved_ttl(cc, route_ttl) matches Some(ttl) ==> ttl <= route_ttl,
{
}

proof fn lemma_directive_texts(d: Seq<char>)
    ensures
        d == "no-store"@ || d == "no-cache"@ || d == "private"@ || d == "public"@ ==> !has_prefix(
            d,
            "max-age="@,
        ) && !has_prefix(d, "s-maxage="@),
        has_prefix(d, "max-age="@) ==> !has_prefix(d, "s-maxage="@),
        "no-store"@ != "no-cache"@,
        "no-store"@ != "private"@,
        "no-cache"@ != "private"@,
        "public"@ != "no-store"@,
        "public"@ != "no-cache"@,
        "public"@ != "private"@,
{
    reveal_strlit("no-store");
    reveal_strlit("no-cache");
    reveal_strlit("private");
    reveal_strlit("public");
    reveal_strlit("max-age=");
    reveal_strlit("s-maxage=");
    assert("no-store"@[3] != "no-cache"@[3]);
    assert("no-store"@[0] != "private"@[0]);
    assert("no-cache"@[0] != "private"@[0]);
    assert("public"@[1] != "private"@[1]);
    assert("public"@[0] != "no-store"@[0]);
    assert("public"@[0] != "no-cache"@[0]);
    if has_prefix(d, "max-age="@) {
        assert(d.subrange(0, 8)[0] == d[0]);
        assert(d[0] == 'm');
    }
    if has_prefix(d, "s-maxage="@) {
        assert(d.subrange(0, 9)[0] == d[0]);
        assert(d[0] == 's');
    }
}

/// Each of `no-store`, `no-cache` and `private` counts wherever in the list it stands, in
/// any case and with white space around it, and nothing else sets it.
pub proof fn law_flags_are_read_anywhere(raw: Seq<Seq<char>>)
    ensures
        directives(raw).no_store <==> exists|i: int|
            0 <= i < raw.len() && lower(trimmed(#[trigger] raw[i])) == "no-store"@,
        directives(raw).no_cache <==> exists|i: int|
            0 <= i < raw.len() && lower(trimmed(#[trigger] raw[i])) == "no-cache"@,
        directives(raw).private <==> exists|i: int|
            0 <= i < raw.len() && lower(trimmed(#[trigger] raw[i])) == "private"@,
    decreases raw.len(),
{
    if raw.len() > 0 {
        let rest = raw.drop_last();
        let d = lower(trimmed(raw.last()));
        law_flags_are_read_anywhere(rest);
        lemma_directive_texts(d);
        lemma_some_directive(raw, "no-store"@);
        lemma_some_directive(raw, "no-cache"@);
        lemma_some_directive(raw, "private"@);
    }
}

proof fn lemma_some_directive(raw: Seq<Seq<char>>, name: Seq<char>)
    requires
        raw.len() > 0,
    ensures
        (exists|i: int| 0 <= i < raw.len() && lower(trimmed(#[trigger] raw[i])) == name) <==> {
            ||| lower(trimmed(raw.last())) == name
            ||| exists|i: int|
                0 <= i < raw.drop_last().len() && lower(trimmed(#[trigger] raw.drop_last()[i]))
                    == name
        },
{
    let rest = raw.drop_last();
    if exists|i: int| 0 <= i < raw.len() && lower(trimmed(#[trigger] raw[i])) == name {
        let i = choose|i: int| 0 <= i < raw.len() && lower(trimmed(#[trigger] raw[i])) == name;
        if i < rest.len() {
            assert(rest[i] == raw[i]);
        }
    }
    if exists|i: int| 0 <= i < rest.len() && lower(trimmed(#[trigger] rest[i])) == name {
        let i = choose|i: int| 0 <= i < rest.len() && lower(trimmed(#[trigger] rest[i])) == name;
        assert(raw[i] == rest[i]);
    }
    if lower(trimmed(raw.last())) == name {
        assert(raw[raw.len() - 1] == raw.last());
    }
}

/// `max-age=N` with a number `N` gives `max_age`, and of several the last counts, whatever
/// stands between or behind them; without one there is none. The same holds of `s-maxage=N`,
/// and neither touches the other.
pub proof fn law_the_last_lifetime_counts(raw: Seq<Seq<char>>, i: int, n: u64)
    ensures
        0 <= i < raw.len() && delta_seconds(lower(trimmed(raw[i])), "max-age="@) == Some(n) && (
        forall|j: int|
            i < j < raw.len() ==> delta_seconds(lower(trimmed(#[trigger] raw[j])), "max-age="@)
                is None) ==> directives(raw).max_age == Some(n),
        (forall|j: int|
            0 <= j < raw.len() ==> delta_seconds(lower(trimmed(#[trigger] raw[j])), "max-age="@)
                is None) ==> directives(raw).max_age is None,
        0 <= i < raw.len() && delta_seconds(lower(trimmed(raw[i])), "s-maxage="@) == Some(n) && (
        forall|j: int|
            i < j < raw.len() ==> delta_seconds(lower(trimmed(#[trigger] raw[j])), "s-maxage="@)
                is None) ==> directives(raw).s_maxage == Some(n),
        (forall|j: int|
            0 <= j < raw.len() ==> delta_seconds(lower(trimmed(#[trigger] raw[j])), "s-maxage="@)
                is None) ==> directives(raw).s_maxage is None,
    decreases raw.len(),
{
    if raw.len() > 0 {
        let rest = raw.drop_last();
        law_the_last_lifetime_counts(rest, i, n);
        lemma_directive_texts(lower(trimmed(raw.last())));
        assert(raw[raw.len() - 1] == raw.last());
        assert forall|j: int| 0 <= j < rest.len() implies #[trigger] rest[j] == raw[j] by {}
    }
}

/// A lifetime is read from `max-age=` or `s-maxage=` and the number right behind it, and
/// from nothing else.
pub proof fn law_lifetimes_follow_their_name(digits: Seq<char>, n: u64)
    requires
        parsed_u64(digits) == Some(n),
    ensures
        delta_seconds("max-age="@ + digits, "max-age="@) == Some(n),
        delta_seconds("s-maxage="@ + digits, "s-maxage="@) == Some(n),
        delta_seconds("max-age="@ + digits, "s-maxage="@) is None,
        delta_seconds("s-maxage="@ + digits, "max-age="@) is None,
        forall|d: Seq<char>, prefix: Seq<char>|
            delta_seconds(d, prefix) == Some(n) ==> #[trigger] has_prefix(d, prefix),
{
    let a = "max-age="@ + digits;
    let b = "s-maxage="@ + digits;
    assert(a.subrange(0, "max-age="@.len() as int) == "max-age="@);
    assert(a.skip("max-age="@.len() as int) == digits);
    assert(b.subrange(0, "s-maxage="@.len() as int) == "s-maxage="@);
    assert(b.skip("s-maxage="@.len() as int) == digits);
    lemma_directive_texts(a);
    lemma_directive_texts(b);
}

/// The names that a `Vary` header lists: each of its pieces without the white space around
/// it and in small letters, in order, but for the empty ones.
pub proof fn law_vary_lists_its_names(raw: Seq<Seq<char>>)
    ensures
        vary_names(raw) == raw.map_values(|piece: Seq<char>| lower(trimmed(piece))).filter(
            |name: Seq<char>| name.len() > 0,
        ),
    decreases raw.len(),
{
    reveal(Seq::filter);
    let tidy = |piece: Seq<char>| lower(trimmed(piece));
    if raw.len() > 0 {
        law_vary_lists_its_names(raw.drop_last());
        assert(raw.map_values(tidy).drop_last() == raw.drop_last().map_values(tidy));
        assert(raw.map_values(tidy).last() == tidy(raw.last()));
    } else {
        assert(raw.map_values(tidy) == Seq::<Seq<char>>::empty());
    }
}

/// A response without a `Vary` header varies with nothing; one that says `*` must not be
/// stored, nor one whose header cannot be read.
pub proof fn law_vary_star_is_not_stored(headers: Map<Seq<char>, Seq<Seq<u8>>>)
    ensures
        !headers.contains_key("vary"@) ==> varies_with(headers) == Some(Seq::<Seq<char>>::empty()),
        headers.contains_key("vary"@) ==> (varies_with(headers) is None <==> {
            ||| text_under(headers, "vary"@) is None
            ||| trimmed(text_under(headers, "vary"@)->0) == "*"@
        }),
{
    reveal_strlit("vary");
    assert(lower("vary"@) == "vary"@);
}

} // verus!

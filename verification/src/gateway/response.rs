//! Responses that the gateway makes itself, and changes to headers on the way through.

use http::HeaderMap;
use vstd::prelude::*;
use vstd::utf8::encode_utf8;

use crate::cache::entry::{CachedResponse, EntryView};
use crate::cache::key::pair_texts;
use crate::config::schema::HeaderMutations;
use crate::http_types::{
    header_contents, header_name, header_value, is_header_name, is_header_value, may_be_full,
    remove_header, try_insert, with_header,
};
use crate::json::{quote, quoted};
use crate::ratelimit::limiter::{limit_headers, RateLimitOutcome};
use crate::names::NameMap;
use crate::text::{decimal_text, join3, lower, views};

verus! {

// ── Responses ───────────────────────────────────────────────────────────────

/// A response that the gateway makes itself.
#[derive(Debug)]
pub struct GatewayResponse {
    pub status: u16,
    /// Its headers; every name and every value is one that a header can have.
    pub headers: Vec<(String, String)>,
    pub body: Vec<u8>,
}

/// What a response holds.
pub struct ResponseView {
    pub status: u16,
    pub headers: Seq<(Seq<char>, Seq<char>)>,
    pub body: Seq<u8>,
}

/// The body that tells a client what went wrong.
pub open spec fn error_body(message: Seq<char>) -> Seq<u8> {
    encode_utf8("{\"error\":"@ + quoted(message) + "}"@)
}

/// The response that tells a client what went wrong.
pub open spec fn error_view(status: u16, message: Seq<char>) -> ResponseView {
    ResponseView {
        status,
        headers: seq![("content-type"@, "application/json"@)],
        body: error_body(message),
    }
}

/// The response to a request that finds no room.
pub open spec fn unavailable_view(message: Seq<char>) -> ResponseView {
    ResponseView {
        headers: error_view(503, message).headers.push(("Retry-After"@, "1"@)),
        ..error_view(503, message)
    }
}

/// The response to a request that exceeds a rate.
pub open spec fn too_many_view(outcome: RateLimitOutcome) -> ResponseView {
    ResponseView {
        headers: error_view(429, "rate limit exceeded"@).headers + limit_headers(outcome),
        ..error_view(429, "rate limit exceeded"@)
    }
}

/// Of some headers, those that can be headers.
pub open spec fn sendable(headers: Seq<(Seq<char>, Seq<char>)>) -> Seq<(Seq<char>, Seq<char>)>
    decreases headers.len(),
{
    if headers.len() == 0 {
        Seq::empty()
    } else {
        let before = sendable(headers.drop_last());
        let (name, value) = headers.last();
        if is_header_name(name) && is_header_value(value) {
            before.push((name, value))
        } else {
            before
        }
    }
}

/// The response that serves a cached one at `now`.
pub open spec fn cached_view(entry: EntryView, now: u64) -> ResponseView {
    ResponseView {
        status: entry.status,
        headers: seq![("X-Cache"@, "HIT"@), ("Age"@, decimal_text(entry.age(now)))] + sendable(
            entry.headers,
        ),
        body: entry.body,
    }
}

impl GatewayResponse {
    pub open spec fn view(&self) -> ResponseView {
        ResponseView {
            status: self.status,
            headers: pair_texts(self.headers@),
            body: self.body@,
        }
    }
}

fn bytes_of(s: &str) -> (r: Vec<u8>)
    ensures
        r@ == encode_utf8(s@),
{
    let bytes = s.as_bytes();
    let mut r: Vec<u8> = Vec::new();
    for i in 0..bytes.len()
        invariant
            r@ == bytes@.take(i as int),
    {
        r.push(bytes[i]);
        proof {
            assert(bytes@.take(i + 1) == bytes@.take(i as int).push(bytes@[i as int]));
        }
    }
    proof {
        assert(bytes@.take(bytes@.len() as int) == bytes@);
    }
    r
}

/// Tell a client what went wrong.
pub fn error_response(status: u16, message: &str) -> (r: GatewayResponse)
    ensures
        r.view() == error_view(status, message@),
{
    let quoted = quote(message);
    let text = join3("{\"error\":", quoted.as_str(), "}");
    let mut headers: Vec<(String, String)> = Vec::new();
    headers.push(("content-type".to_owned(), "application/json".to_owned()));
    proof {
        assert(pair_texts(headers@) =~= seq![("content-type"@, "application/json"@)]);
    }
    GatewayResponse { status, headers, body: bytes_of(text.as_str()) }
}

/// Tell a client that there is no room, and to try again in a second.
pub fn service_unavailable(message: &str) -> (r: GatewayResponse)
    ensures
        r.view() == unavailable_view(message@),
{
    let mut r = error_response(503, message);
    let ghost before = r.headers@;
    r.headers.push(("Retry-After".to_owned(), "1".to_owned()));
    proof {
        assert(pair_texts(r.headers@) =~= pair_texts(before).push(("Retry-After"@, "1"@)));
    }
    r
}

/// Tell a client that it exceeds a rate, and where it stands.
pub fn too_many_requests(outcome: &RateLimitOutcome) -> (r: GatewayResponse)
    ensures
        r.view() == too_many_view(*outcome),
{
    let mut r = error_response(429, "rate limit exceeded");
    let mut headers = outcome.to_headers();
    let ghost first = r.headers@;
    let ghost rest = headers@;
    r.headers.append(&mut headers);
    proof {
        assert(pair_texts(r.headers@) =~= pair_texts(first) + pair_texts(rest));
    }
    r
}

fn can_be_header(name: &str, value: &str) -> (r: bool)
    ensures
        r == (is_header_name(name@) && is_header_value(value@)),
{
    header_name(name).is_ok() && header_value(value).is_ok()
}

/// Serve a cached response at `now`.
pub fn build_cached_response(cached: CachedResponse, now: u64) -> (r: GatewayResponse)
    ensures
        r.view() == cached_view(cached.view(), now),
{
    let ghost all = pair_texts(cached.headers@);
    let ghost lead = seq![("X-Cache"@, "HIT"@), ("Age"@, decimal_text(cached.view().age(now)))];
    let mut headers: Vec<(String, String)> = Vec::new();
    headers.push(("X-Cache".to_owned(), "HIT".to_owned()));
    headers.push(("Age".to_owned(), cached.age_header_at(now)));
    proof {
        assert(pair_texts(headers@) =~= lead + sendable(all.take(0)));
    }
    for i in 0..cached.headers.len()
        invariant
            all == pair_texts(cached.headers@),
            pair_texts(headers@) == lead + sendable(all.take(i as int)),
    {
        let name = cached.headers[i].0.as_str();
        let value = cached.headers[i].1.as_str();
        proof {
            assert(all[i as int] == (name@, value@));
            assert(all.take(i + 1).drop_last() == all.take(i as int));
            assert(all.take(i + 1).last() == all[i as int]);
        }
        if can_be_header(name, value) {
            let ghost before = headers@;
            headers.push((name.to_owned(), value.to_owned()));
            proof {
                assert(pair_texts(headers@) =~= pair_texts(before).push((name@, value@)));
                assert(lead + sendable(all.take(i as int)).push((name@, value@)) =~= (lead
                    + sendable(all.take(i as int))).push((name@, value@)));
            }
        }
    }
    proof {
        assert(all.take(all.len() as int) == all);
    }
    GatewayResponse { status: cached.status, headers, body: cached.body }
}

// ── Headers on the way through ──────────────────────────────────────────────

/// Contents after each of `settings` that can be a header was set, in order.
pub open spec fn after_settings(
    contents: Map<Seq<char>, Seq<Seq<u8>>>,
    settings: Seq<(Seq<char>, String)>,
) -> Map<Seq<char>, Seq<Seq<u8>>>
    decreases settings.len(),
{
    if settings.len() == 0 {
        contents
    } else {
        let before = after_settings(contents, settings.drop_last());
        let (name, value) = settings.last();
        if is_header_name(name) && is_header_value(value@) {
            with_header(before, lower(name), encode_utf8(value@))
        } else {
            before
        }
    }
}

/// Contents after each of `names` was taken out.
pub open spec fn after_removals(
    contents: Map<Seq<char>, Seq<Seq<u8>>>,
    names: Seq<Seq<char>>,
) -> Map<Seq<char>, Seq<Seq<u8>>>
    decreases names.len(),
{
    if names.len() == 0 {
        contents
    } else {
        after_removals(contents, names.drop_last()).remove(lower(names.last()))
    }
}

/// The headers of a request as the upstream gets them: some are taken out, then some are
/// set.
pub open spec fn mutated_request(
    contents: Map<Seq<char>, Seq<Seq<u8>>>,
    mutations: HeaderMutations,
) -> Map<Seq<char>, Seq<Seq<u8>>> {
    after_settings(
        after_removals(contents, views(mutations.request_remove@)),
        mutations.request_set.pairs(),
    )
}

/// The headers of a response as the client gets them: some are set, and it is marked as not
/// coming from the cache.
pub open spec fn mutated_response(
    contents: Map<Seq<char>, Seq<Seq<u8>>>,
    mutations: HeaderMutations,
) -> Map<Seq<char>, Seq<Seq<u8>>> {
    with_header(
        after_settings(contents, mutations.response_set.pairs()),
        lower("X-Cache"@),
        encode_utf8("MISS"@),
    )
}

/// The header map is full.
#[derive(Debug, Clone, Copy, PartialEq, Eq, Structural)]
pub struct TooManyHeaders;

proof fn lemma_with_header_len(
    contents: Map<Seq<char>, Seq<Seq<u8>>>,
    name: Seq<char>,
    value: Seq<u8>,
    n: nat,
)
    requires
        contents.dom().finite(),
        contents.dom().len() <= n,
    ensures
        with_header(contents, name, value).dom().finite(),
        with_header(contents, name, value).dom().len() <= n + 1,
{
    assert(with_header(contents, name, value).dom() == contents.dom().insert(name));
}

fn apply_settings(headers: &mut HeaderMap, settings: &NameMap<String>) -> (r: Result<
    (),
    TooManyHeaders,
>)
    ensures
        match r {
            Ok(_) => header_contents(*final(headers)) == after_settings(
                header_contents(*old(headers)),
                settings.pairs(),
            ),
            Err(_) => exists|k: int|
                0 <= k < settings.pairs().len() && may_be_full(
                    after_settings(
                        header_contents(*old(headers)),
                        #[trigger] settings.pairs().take(k),
                    ),
                ),
        },
{
    let ghost start = header_contents(*headers);
    let ghost all = settings.pairs();
    let n: usize = settings.len();
    proof {
        assert(after_settings(start, all.take(0)) == start);
    }
    for i in 0..n
        invariant
            start == header_contents(*old(headers)),
            all == settings.pairs(),
            n == all.len(),
            header_contents(*headers) == after_settings(start, all.take(i as int)),
    {
        let name = settings.name_at(i);
        let value = settings.value_at(i);
        proof {
            assert(all.take(i + 1).drop_last() == all.take(i as int));
            assert(all.take(i + 1).last() == all[i as int]);
        }
        if let Ok(header) = header_name(name) {
            if let Ok(content) = header_value(value.as_str()) {
                if try_insert(headers, header, content).is_err() {
                    proof {
                        assert(may_be_full(after_settings(start, all.take(i as int))));
                    }
                    return Err(TooManyHeaders);
                }
            }
        }
    }
    proof {
        assert(all.take(all.len() as int) == all);
    }
    Ok(())
}

/// Change the headers of a request for the upstream.
pub fn apply_request_mutations(headers: &mut HeaderMap, mutations: &HeaderMutations) -> (r: Result<
    (),
    TooManyHeaders,
>)
    ensures
        match r {
            Ok(_) => header_contents(*final(headers)) == mutated_request(
                header_contents(*old(headers)),
                *mutations,
            ),
            Err(_) => exists|k: int|
                0 <= k < mutations.request_set.pairs().len() && may_be_full(
                    after_settings(
                        after_removals(
                            header_contents(*old(headers)),
                            views(mutations.request_remove@),
                        ),
                        #[trigger] mutations.request_set.pairs().take(k),
                    ),
                ),
        },
{
    let ghost start = header_contents(*headers);
    let ghost names = views(mutations.request_remove@);
    proof {
        assert(after_removals(start, names.take(0)) == start);
    }
    for i in 0..mutations.request_remove.len()
        invariant
            start == header_contents(*old(headers)),
            names == views(mutations.request_remove@),
            header_contents(*headers) == after_removals(start, names.take(i as int)),
    {
        remove_header(headers, mutations.request_remove[i].as_str());
        proof {
            assert(names[i as int] == mutations.request_remove@[i as int]@);
            assert(names.take(i + 1).drop_last() == names.take(i as int));
            assert(names.take(i + 1).last() == names[i as int]);
        }
    }
    proof {
        assert(names.take(names.len() as int) == names);
    }
    apply_settings(headers, &mutations.request_set)
}

/// Change the headers of a response for the client.
pub fn apply_response_mutations(headers: &mut HeaderMap, mutations: &HeaderMutations) -> (r: Result<
    (),
    TooManyHeaders,
>)
    ensures
        match r {
            Ok(_) => header_contents(*final(headers)) == mutated_response(
                header_contents(*old(headers)),
                *mutations,
            ),
            Err(_) => exists|k: int|
                0 <= k <= mutations.response_set.pairs().len() && may_be_full(
                    after_settings(
                        header_contents(*old(headers)),
                        #[trigger] mutations.response_set.pairs().take(k),
                    ),
                ),
        },
{
    let ghost start = header_contents(*headers);
    let ghost all = mutations.response_set.pairs();
    if let Err(e) = apply_settings(headers, &mutations.response_set) {
        return Err(e);
    }
    proof {
        assert(all.take(all.len() as int) == all);
        lemma_marker_is_a_header();
    }
    match (header_name("X-Cache"), header_value("MISS")) {
        (Ok(name), Ok(value)) => match try_insert(headers, name, value) {
            Ok(_) => Ok(()),
            Err(_) => {
                proof {
                    assert(may_be_full(after_settings(start, all.take(all.len() as int))));
                }
                Err(TooManyHeaders)
            },
        },
        _ => Ok(()),
    }
}

proof fn lemma_marker_is_a_header()
    ensures
        is_header_name("X-Cache"@),
        is_header_value("MISS"@),
{
    reveal_strlit("X-Cache");
    reveal_strlit("MISS");
    assert("X-Cache"@.len() == 7);
    assert("MISS"@.len() == 4);
    assert forall|i: int| 0 <= i < "X-Cache"@.len() implies crate::http_types::is_token_char(
        #[trigger] "X-Cache"@[i],
    ) by {
        assert(i == 0 || i == 1 || i == 2 || i == 3 || i == 4 || i == 5 || i == 6);
    }
    assert forall|i: int| 0 <= i < "MISS"@.len() implies (((#[trigger] "MISS"@[i]) as u32) >= 32 && (
    "MISS"@[i] as u32) != 127) || "MISS"@[i] == '\t' by {
        assert(i == 0 || i == 1 || i == 2 || i == 3);
    }
}

// ── Laws ────────────────────────────────────────────────────────────────────

proof fn lemma_settings_len(
    contents: Map<Seq<char>, Seq<Seq<u8>>>,
    settings: Seq<(Seq<char>, String)>,
)
    requires
        contents.dom().finite(),
    ensures
        after_settings(contents, settings).dom().finite(),
        after_settings(contents, settings).dom().len() <= contents.dom().len() + settings.len(),
    decreases settings.len(),
{
    if settings.len() > 0 {
        let before = after_settings(contents, settings.drop_last());
        let (name, value) = settings.last();
        lemma_settings_len(contents, settings.drop_last());
        lemma_with_header_len(
            before,
            lower(name),
            encode_utf8(value@),
            contents.dom().len() + (settings.len() - 1) as nat,
        );
    }
}

/// Headers can be set on every message that has room for them: no step of setting them
/// meets a map that can be full.
pub proof fn law_settings_find_room(
    contents: Map<Seq<char>, Seq<Seq<u8>>>,
    settings: Seq<(Seq<char>, String)>,
    k: int,
)
    requires
        contents.dom().finite(),
        contents.dom().len() + settings.len() < 6_554,
        0 <= k <= settings.len(),
    ensures
        !may_be_full(after_settings(contents, settings.take(k))),
{
    lemma_settings_len(contents, settings.take(k));
}

/// A header that was set holds exactly the value it was set to, unless a later setting of
/// the same name counts.
pub proof fn law_last_setting_counts(
    contents: Map<Seq<char>, Seq<Seq<u8>>>,
    settings: Seq<(Seq<char>, String)>,
)
    requires
        settings.len() > 0,
        is_header_name(settings.last().0),
        is_header_value(settings.last().1@),
    ensures
        ({
            let after = after_settings(contents, settings);
            let name = lower(settings.last().0);
            after.contains_key(name) && after[name] == seq![encode_utf8(settings.last().1@)]
        }),
{
}

/// A header that no setting names stays as it was, and so does one whose settings cannot be
/// headers.
pub proof fn law_unnamed_headers_stay(
    contents: Map<Seq<char>, Seq<Seq<u8>>>,
    settings: Seq<(Seq<char>, String)>,
    name: Seq<char>,
)
    requires
        forall|i: int|
            0 <= i < settings.len() ==> lower((#[trigger] settings[i]).0) != name
                || !is_header_name(settings[i].0) || !is_header_value(settings[i].1@),
    ensures
        after_settings(contents, settings).contains_key(name) <==> contents.contains_key(name),
        contents.contains_key(name) ==> after_settings(contents, settings)[name] == contents[name],
    decreases settings.len(),
{
    if settings.len() > 0 {
        let rest = settings.drop_last();
        assert forall|i: int| 0 <= i < rest.len() implies lower((#[trigger] rest[i]).0) != name
            || !is_header_name(rest[i].0) || !is_header_value(rest[i].1@) by {
            assert(rest[i] == settings[i]);
        }
        law_unnamed_headers_stay(contents, rest, name);
        assert(settings[settings.len() - 1] == settings.last());
    }
}

/// A header that a setting names holds the value of the last setting of its name that can be a
/// header, alone and as UTF-8, whatever it held before.
pub proof fn law_settings_replace(
    contents: Map<Seq<char>, Seq<Seq<u8>>>,
    settings: Seq<(Seq<char>, String)>,
    i: int,
)
    requires
        0 <= i < settings.len(),
        is_header_name(settings[i].0),
        is_header_value(settings[i].1@),
        forall|j: int|
            i < j < settings.len() ==> lower((#[trigger] settings[j]).0) != lower(settings[i].0)
                || !is_header_name(settings[j].0) || !is_header_value(settings[j].1@),
    ensures
        after_settings(contents, settings).contains_key(lower(settings[i].0)),
        after_settings(contents, settings)[lower(settings[i].0)] == seq![
            encode_utf8(settings[i].1@),
        ],
    decreases settings.len(),
{
    if i < settings.len() - 1 {
        let rest = settings.drop_last();
        assert(rest[i] == settings[i]);
        assert forall|j: int| i < j < rest.len() implies lower((#[trigger] rest[j]).0) != lower(
            rest[i].0,
        ) || !is_header_name(rest[j].0) || !is_header_value(rest[j].1@) by {
            assert(rest[j] == settings[j]);
        }
        law_settings_replace(contents, rest, i);
        assert(settings[settings.len() - 1] == settings.last());
    }
}

/// Headers are taken out by their names in any case, with all their values; the others stay.
pub proof fn law_removals_take_all_values(
    contents: Map<Seq<char>, Seq<Seq<u8>>>,
    names: Seq<Seq<char>>,
    name: Seq<char>,
)
    ensures
        after_removals(contents, names).contains_key(name) <==> contents.contains_key(name) && (
        forall|i: int| 0 <= i < names.len() ==> lower(#[trigger] names[i]) != name),
        after_removals(contents, names).contains_key(name) ==> after_removals(contents, names)[name]
            == contents[name],
    decreases names.len(),
{
    if names.len() > 0 {
        let rest = names.drop_last();
        law_removals_take_all_values(contents, rest, name);
        assert(names[names.len() - 1] == names.last());
        if forall|i: int| 0 <= i < rest.len() ==> lower(#[trigger] rest[i]) != name {
            if lower(names.last()) != name {
                assert forall|i: int| 0 <= i < names.len() implies lower(#[trigger] names[i])
                    != name by {
                    if i < rest.len() {
                        assert(rest[i] == names[i]);
                    }
                }
            }
        } else {
            let i = choose|i: int| 0 <= i < rest.len() && lower(#[trigger] rest[i]) == name;
            assert(names[i] == rest[i]);
        }
    }
}

/// A header of a request that is both taken out and set reaches the upstream with the value
/// that it is set to; one that is taken out alone does not reach it.
pub proof fn law_requests_lose_headers_first(
    contents: Map<Seq<char>, Seq<Seq<u8>>>,
    mutations: HeaderMutations,
    i: int,
    j: int,
)
    requires
        0 <= i < mutations.request_remove@.len(),
    ensures
        ({
            let set = mutations.request_set.pairs();
            let name = lower(mutations.request_remove@[i]@);
            let after = mutated_request(contents, mutations);
            &&& (forall|k: int|
                0 <= k < set.len() ==> lower((#[trigger] set[k]).0) != name) ==> !after.contains_key(
                name,
            )
            &&& 0 <= j < set.len() && lower(set[j].0) == name && is_header_name(set[j].0)
                && is_header_value(set[j].1@) && (forall|k: int|
                j < k < set.len() ==> lower((#[trigger] set[k]).0) != name) ==> after.contains_key(
                name,
            ) && after[name] == seq![encode_utf8(set[j].1@)]
        }),
{
    let set = mutations.request_set.pairs();
    let names = views(mutations.request_remove@);
    let name = lower(mutations.request_remove@[i]@);
    assert(names[i] == mutations.request_remove@[i]@);
    let bare = after_removals(contents, names);
    law_removals_take_all_values(contents, names, name);
    if forall|k: int| 0 <= k < set.len() ==> lower((#[trigger] set[k]).0) != name {
        law_unnamed_headers_stay(bare, set, name);
    }
    if 0 <= j < set.len() && lower(set[j].0) == name && is_header_name(set[j].0)
        && is_header_value(set[j].1@) && (forall|k: int|
        j < k < set.len() ==> lower((#[trigger] set[k]).0) != name) {
        law_settings_replace(bare, set, j);
    }
}

/// Every response that comes from an upstream says `MISS` in `X-Cache`, and nothing else
/// there, whatever the settings say; the other headers are those that the settings leave.
pub proof fn law_responses_are_marked(
    contents: Map<Seq<char>, Seq<Seq<u8>>>,
    mutations: HeaderMutations,
    name: Seq<char>,
)
    ensures
        ({
            let after = mutated_response(contents, mutations);
            let set = after_settings(contents, mutations.response_set.pairs());
            &&& after.contains_key("x-cache"@) && after["x-cache"@] == seq![encode_utf8("MISS"@)]
            &&& name != "x-cache"@ ==> (after.contains_key(name) <==> set.contains_key(name))
            &&& name != "x-cache"@ && set.contains_key(name) ==> after[name] == set[name]
        }),
{
    reveal_strlit("X-Cache");
    reveal_strlit("x-cache");
    assert(lower("X-Cache"@) =~= "x-cache"@);
}

/// A cached response is served with the status and the body that it was stored with, marked
/// as a hit, with its age, and with those of its headers that can be headers, in order.
pub proof fn law_cached_responses_are_whole(entry: EntryView, now: u64)
    ensures
        cached_view(entry, now).status == entry.status,
        cached_view(entry, now).body == entry.body,
        cached_view(entry, now).headers[0] == ("X-Cache"@, "HIT"@),
        cached_view(entry, now).headers[1] == ("Age"@, decimal_text(entry.age(now))),
        cached_view(entry, now).headers.skip(2) == entry.headers.filter(
            |h: (Seq<char>, Seq<char>)| is_header_name(h.0) && is_header_value(h.1),
        ),
{
    lemma_sendable(entry.headers);
    let lead = seq![("X-Cache"@, "HIT"@), ("Age"@, decimal_text(entry.age(now)))];
    assert((lead + sendable(entry.headers)).skip(2) == sendable(entry.headers));
}

proof fn lemma_sendable(headers: Seq<(Seq<char>, Seq<char>)>)
    ensures
        sendable(headers) == headers.filter(
            |h: (Seq<char>, Seq<char>)| is_header_name(h.0) && is_header_value(h.1),
        ),
    decreases headers.len(),
{
    reveal(Seq::filter);
    if headers.len() > 0 {
        lemma_sendable(headers.drop_last());
    } else {
        assert(sendable(headers) =~= headers);
    }
}

/// An error is told in JSON under its status. A client that finds no room gets 503 and is told
/// to try again in a second; one that exceeds a rate gets 429 and is told where it stands.
pub proof fn law_errors_have_their_status(
    status: u16,
    message: Seq<char>,
    outcome: RateLimitOutcome,
)
    ensures
        error_view(status, message).status == status,
        error_view(status, message).headers == seq![("content-type"@, "application/json"@)],
        error_view(status, message).body == encode_utf8(
            "{\"error\":"@ + quoted(message) + "}"@,
        ),
        unavailable_view(message).status == 503,
        unavailable_view(message).headers == seq![
            ("content-type"@, "application/json"@),
            ("Retry-After"@, "1"@),
        ],
        unavailable_view(message).body == error_view(status, message).body,
        too_many_view(outcome).status == 429,
        too_many_view(outcome).headers.skip(1) == limit_headers(outcome),
{
    assert(unavailable_view(message).headers =~= seq![
        ("content-type"@, "application/json"@),
        ("Retry-After"@, "1"@),
    ]);
    assert(too_many_view(outcome).headers.skip(1) =~= limit_headers(outcome));
}

} // verus!

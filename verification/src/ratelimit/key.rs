//! Whom a request is counted for.

use http::HeaderMap;
use vstd::prelude::*;

use crate::auth::context::AuthContext;
use crate::http_types::{header_contents, header_text, text_under};
use crate::text::{
    join, join3, law_pieces_lie_between_separators, lemma_pieces_nonempty, pieces, split, trim,
    trimmed, views,
};

verus! {

/// `s`, or nothing if it is empty.
pub open spec fn unless_empty(s: Seq<char>) -> Option<Seq<char>> {
    if s.len() > 0 {
        Some(s)
    } else {
        None
    }
}

/// The client that `X-Forwarded-For` names first.
pub open spec fn forwarded_for(headers: Map<Seq<char>, Seq<Seq<u8>>>) -> Option<Seq<char>> {
    match text_under(headers, "x-forwarded-for"@) {
        Some(value) => unless_empty(trimmed(pieces(value, ',')[0])),
        None => None,
    }
}

/// The client that `X-Real-IP` names.
pub open spec fn real_ip(headers: Map<Seq<char>, Seq<Seq<u8>>>) -> Option<Seq<char>> {
    match text_under(headers, "x-real-ip"@) {
        Some(value) => unless_empty(trimmed(value)),
        None => None,
    }
}

/// Whom a request is counted for: the caller, if it is known, else the address that a proxy
/// gives, else everyone who is unknown together.
pub open spec fn identity_of(
    subject: Option<Seq<char>>,
    headers: Map<Seq<char>, Seq<Seq<u8>>>,
) -> Seq<char> {
    if subject is Some {
        subject->0
    } else if forwarded_for(headers) is Some {
        forwarded_for(headers)->0
    } else if real_ip(headers) is Some {
        real_ip(headers)->0
    } else {
        "anonymous"@
    }
}

/// The name of the bucket of a caller on a route.
pub open spec fn limit_key(
    route_id: Seq<char>,
    subject: Option<Seq<char>>,
    headers: Map<Seq<char>, Seq<Seq<u8>>>,
) -> Seq<char> {
    "stateform:rl:"@ + route_id + ":"@ + identity_of(subject, headers)
}

/// The subject of a caller who may be unknown.
pub open spec fn subject_of(ctx: Option<&AuthContext>) -> Option<Seq<char>> {
    match ctx {
        Some(c) => Some(c.subject@),
        None => None,
    }
}

fn non_empty(s: String) -> (r: Option<String>)
    ensures
        match r {
            Some(t) => unless_empty(s@) == Some(t@),
            None => unless_empty(s@) is None,
        },
{
    let text = s.as_str();
    if text.is_empty() {
        None
    } else {
        Some(s)
    }
}

fn extract_forwarded_for(headers: &HeaderMap) -> (r: Option<String>)
    ensures
        match r {
            Some(s) => forwarded_for(header_contents(*headers)) == Some(s@),
            None => forwarded_for(header_contents(*headers)) is None,
        },
{
    match header_text(headers, "x-forwarded-for") {
        Some(value) => {
            let hops = split(value.as_str(), ',');
            proof {
                lemma_pieces_nonempty(value@, ',');
                assert(views(hops@)[0] == hops@[0]@);
            }
            non_empty(trim(hops[0].as_str()))
        },
        None => None,
    }
}

fn extract_real_ip(headers: &HeaderMap) -> (r: Option<String>)
    ensures
        match r {
            Some(s) => real_ip(header_contents(*headers)) == Some(s@),
            None => real_ip(header_contents(*headers)) is None,
        },
{
    match header_text(headers, "x-real-ip") {
        Some(value) => non_empty(trim(value.as_str())),
        None => None,
    }
}

/// The name of the bucket that a request is counted in. The name of the route is part of
/// it, so that what a caller does on one route does not count on another.
pub fn derive_key(route_id: &str, auth_ctx: Option<&AuthContext>, headers: &HeaderMap) -> (r: String)
    ensures
        r@ == limit_key(route_id@, subject_of(auth_ctx), header_contents(*headers)),
{
    let identity = match auth_ctx {
        Some(ctx) => ctx.subject.clone(),
        None => match extract_forwarded_for(headers) {
            Some(s) => s,
            None => match extract_real_ip(headers) {
                Some(s) => s,
                None => "anonymous".to_owned(),
            },
        },
    };
    let head = join3("stateform:rl:", route_id, ":");
    join(head.as_str(), identity.as_str())
}

// ── Laws ────────────────────────────────────────────────────────────────────

/// The same caller is counted apart on different routes.
pub proof fn law_routes_are_counted_apart(
    a: Seq<char>,
    b: Seq<char>,
    subject: Option<Seq<char>>,
    headers: Map<Seq<char>, Seq<Seq<u8>>>,
)
    requires
        a != b,
    ensures
        limit_key(a, subject, headers) != limit_key(b, subject, headers),
{
    let who = identity_of(subject, headers);
    let ka = limit_key(a, subject, headers);
    let kb = limit_key(b, subject, headers);
    let head = "stateform:rl:"@;
    if ka == kb {
        assert(ka.len() == head.len() + a.len() + ":"@.len() + who.len());
        assert(kb.len() == head.len() + b.len() + ":"@.len() + who.len());
        assert(ka.subrange(head.len() as int, (head.len() + a.len()) as int) == a);
        assert(kb.subrange(head.len() as int, (head.len() + b.len()) as int) == b);
    }
}

/// A caller who is known is counted by its name, whatever the headers say.
pub proof fn law_known_callers_count_for_themselves(
    route_id: Seq<char>,
    a: Seq<char>,
    b: Seq<char>,
    headers_a: Map<Seq<char>, Seq<Seq<u8>>>,
    headers_b: Map<Seq<char>, Seq<Seq<u8>>>,
)
    ensures
        identity_of(Some(a), headers_a) == a,
        limit_key(route_id, Some(a), headers_a) == limit_key(route_id, Some(b), headers_b) <==> a
            == b,
{
    let ka = limit_key(route_id, Some(a), headers_a);
    let kb = limit_key(route_id, Some(b), headers_b);
    let head = "stateform:rl:"@ + route_id + ":"@;
    assert(ka.skip(head.len() as int) == a);
    assert(kb.skip(head.len() as int) == b);
}

/// A caller who is not known is counted by the address that `X-Forwarded-For` names first:
/// what stands before the first comma, without the white space around it.
pub proof fn law_first_hop_counts(
    headers: Map<Seq<char>, Seq<Seq<u8>>>,
    first: Seq<char>,
    rest: Seq<char>,
)
    requires
        !first.contains(','),
        trimmed(first).len() > 0,
        text_under(headers, "x-forwarded-for"@) == Some(first) || text_under(
            headers,
            "x-forwarded-for"@,
        ) == Some(first.push(',') + rest),
    ensures
        identity_of(None, headers) == trimmed(first),
{
    law_pieces_lie_between_separators(first, rest, ',');
    lemma_pieces_nonempty(rest, ',');
    assert((seq![first] + pieces(rest, ','))[0] == first);
}

/// Where `X-Forwarded-For` is absent, cannot be read or names nobody, a caller who is not
/// known is counted by the address that `X-Real-IP` names, and where that names nobody either,
/// all such callers are counted together.
pub proof fn law_second_choice_of_address(
    headers: Map<Seq<char>, Seq<Seq<u8>>>,
    rest: Seq<char>,
)
    requires
        text_under(headers, "x-forwarded-for"@) is None || text_under(headers, "x-forwarded-for"@)
            == Some(rest) && trimmed(pieces(rest, ',')[0]).len() == 0,
    ensures
        text_under(headers, "x-real-ip"@) matches Some(ip) ==> trimmed(ip).len() > 0
            ==> identity_of(None, headers) == trimmed(ip),
        text_under(headers, "x-real-ip"@) is None ==> identity_of(None, headers) == "anonymous"@,
        text_under(headers, "x-real-ip"@) matches Some(ip) ==> trimmed(ip).len() == 0
            ==> identity_of(None, headers) == "anonymous"@,
{
}

} // verus!

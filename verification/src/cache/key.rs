//! Names of cached responses, and the headers that are stored with them.

use http::HeaderMap;
use vstd::prelude::*;

use crate::http_types::{
    all_visible, ascii_text, header_contents, header_lines, header_text, line_views, lists,
    text_under, visible_text,
};
use crate::order::{lemma_sorted_texts, lemma_sorting_forgets_order, sort, sorted_texts};
use crate::text::{join3, lower, same, to_lower, to_upper, upper, views};

verus! {

/// The name of a cached response:
/// `stateform:cache:{method}:{route}:{path and query}[:{header}={value}...]`.
///
/// Where the response varies with request headers, their values stand at the end, in the
/// alphabetical order of the headers, so that responses to different requests do not
/// stand in for each other.
#[derive(Debug, PartialEq, Eq, Hash)]
pub struct CacheKey(String);

/// A path with its query, if it has one that is not empty.
pub open spec fn path_query(path: Seq<char>, query: Option<Seq<char>>) -> Seq<char> {
    match query {
        Some(q) => if q.len() > 0 {
            path + "?"@ + q
        } else {
            path
        },
        None => path,
    }
}

/// The name of a response that does not vary.
pub open spec fn base_key(
    method: Seq<char>,
    route_id: Seq<char>,
    path: Seq<char>,
    query: Option<Seq<char>>,
) -> Seq<char> {
    "stateform:cache:"@ + upper(method) + ":"@ + route_id + ":"@ + path_query(path, query)
}

/// The value of a request header in a name: empty where there is none.
pub open spec fn vary_value(headers: Map<Seq<char>, Seq<Seq<u8>>>, name: Seq<char>) -> Seq<char> {
    match text_under(headers, name) {
        Some(v) => v,
        None => Seq::empty(),
    }
}

/// The end of a name: each of `names` with its value.
pub open spec fn vary_suffix(names: Seq<Seq<char>>, headers: Map<Seq<char>, Seq<Seq<u8>>>) -> Seq<
    char,
>
    decreases names.len(),
{
    if names.len() == 0 {
        Seq::empty()
    } else {
        vary_suffix(names.drop_last(), headers) + ":"@ + names.last() + "="@ + vary_value(
            headers,
            names.last(),
        )
    }
}

/// The name of a response that varies with the headers `names`.
pub open spec fn varied_key(
    base: Seq<char>,
    names: Seq<Seq<char>>,
    headers: Map<Seq<char>, Seq<Seq<u8>>>,
) -> Seq<char> {
    base + vary_suffix(sorted_texts(names), headers)
}

/// The text of an optional argument.
pub open spec fn arg_text(o: Option<&str>) -> Option<Seq<char>> {
    match o {
        Some(s) => Some(s@),
        None => None,
    }
}

impl CacheKey {
    /// The name as text.
    pub closed spec fn text(&self) -> Seq<char> {
        self.0@
    }

    /// The name of a response that does not vary.
    pub fn new(method: &str, route_id: &str, path: &str, query: Option<&str>) -> (r: Self)
        ensures
            r.text() == base_key(method@, route_id@, path@, arg_text(query)),
    {
        let path_query = match query {
            Some(q) => if q.is_empty() {
                path.to_owned()
            } else {
                join3(path, "?", q)
            },
            None => path.to_owned(),
        };
        let method = to_upper(method);
        let head = join3("stateform:cache:", method.as_str(), ":");
        let middle = join3(head.as_str(), route_id, ":");
        let mut whole = middle;
        whole.append(path_query.as_str());
        CacheKey(whole)
    }

    /// The name of a response that varies with the headers `vary_names`.
    pub fn with_vary(&self, vary_names: &[String], request_headers: &HeaderMap) -> (r: Self)
        ensures
            r.text() == varied_key(
                self.text(),
                views(vary_names@),
                header_contents(*request_headers),
            ),
    {
        let ghost headers = header_contents(*request_headers);
        let names = sort(vary_names);
        let ghost sorted = views(names@);
        let mut whole = self.0.clone();
        proof {
            assert(vary_suffix(sorted.take(0), headers) == Seq::<char>::empty());
            assert(whole@ == self.0@ + vary_suffix(sorted.take(0), headers));
        }
        for i in 0..names.len()
            invariant
                headers == header_contents(*request_headers),
                sorted == views(names@),
                whole@ == self.0@ + vary_suffix(sorted.take(i as int), headers),
        {
            let name = names[i].as_str();
            let value = match header_text(request_headers, name) {
                Some(v) => v,
                None => String::new(),
            };
            whole.append(":");
            whole.append(name);
            whole.append("=");
            whole.append(value.as_str());
            proof {
                assert(sorted[i as int] == name@);
                assert(sorted.take(i + 1).drop_last() == sorted.take(i as int));
                assert(value@ == vary_value(headers, name@));
                assert(whole@ == self.0@ + vary_suffix(sorted.take(i + 1), headers));
            }
        }
        proof {
            assert(sorted.take(sorted.len() as int) == sorted);
        }
        CacheKey(whole)
    }

    /// The name as text.
    pub fn as_str(&self) -> (r: &str)
        ensures
            r@ == self.text(),
    {
        self.0.as_str()
    }
}

// ── Headers that are stored ─────────────────────────────────────────────────

/// Whether a header, named in small letters, belongs to one connection only and is never
/// stored.
pub open spec fn is_hop_by_hop(name: Seq<char>) -> bool {
    ||| name == "connection"@
    ||| name == "keep-alive"@
    ||| name == "proxy-authenticate"@
    ||| name == "proxy-authorization"@
    ||| name == "te"@
    ||| name == "trailers"@
    ||| name == "transfer-encoding"@
    ||| name == "upgrade"@
}

/// The lines that are stored: those that outlive the connection and can be read as text.
pub open spec fn stored_lines(lines: Seq<(Seq<char>, Seq<u8>)>) -> Seq<(Seq<char>, Seq<char>)>
    decreases lines.len(),
{
    if lines.len() == 0 {
        Seq::empty()
    } else {
        let before = stored_lines(lines.drop_last());
        let (name, value) = lines.last();
        if !is_hop_by_hop(lower(name)) && all_visible(value) {
            before.push((lower(name), ascii_text(value)))
        } else {
            before
        }
    }
}

/// Headers as texts.
pub open spec fn pair_texts(pairs: Seq<(String, String)>) -> Seq<(Seq<char>, Seq<char>)> {
    pairs.map_values(|p: (String, String)| (p.0@, p.1@))
}

fn hop_by_hop(name: &str) -> (r: bool)
    ensures
        r == is_hop_by_hop(name@),
{
    same(name, "connection") || same(name, "keep-alive") || same(name, "proxy-authenticate") || same(
        name,
        "proxy-authorization",
    ) || same(name, "te") || same(name, "trailers") || same(name, "transfer-encoding") || same(
        name,
        "upgrade",
    )
}

/// Of the lines of a response, those that are stored.
pub fn storable_lines(lines: &Vec<(String, Vec<u8>)>) -> (r: Vec<(String, String)>)
    ensures
        pair_texts(r@) == stored_lines(line_views(lines@)),
{
    let ghost all = line_views(lines@);
    let mut kept: Vec<(String, String)> = Vec::new();
    proof {
        assert(pair_texts(kept@) == stored_lines(all.take(0)));
    }
    for i in 0..lines.len()
        invariant
            all == line_views(lines@),
            pair_texts(kept@) == stored_lines(all.take(i as int)),
    {
        let name = to_lower(lines[i].0.as_str());
        let ghost small = name@;
        proof {
            assert(all[i as int] == (lines@[i as int].0@, lines@[i as int].1@));
            assert(all.take(i + 1).drop_last() == all.take(i as int));
            assert(all.take(i + 1).last() == all[i as int]);
        }
        if !hop_by_hop(name.as_str()) {
            if let Some(value) = visible_text(lines[i].1.as_slice()) {
                let ghost before = kept@;
                let ghost text = value@;
                kept.push((name, value));
                proof {
                    assert(pair_texts(kept@) == pair_texts(before).push((small, text)));
                }
            }
        }
    }
    proof {
        assert(all.take(all.len() as int) == all);
    }
    kept
}

/// The headers of a response that are stored.
pub fn storable_headers(headers: &HeaderMap) -> (r: Vec<(String, String)>)
    ensures
        exists|lines: Seq<(Seq<char>, Seq<u8>)>| #[trigger]
            lists(lines, header_contents(*headers)) && pair_texts(r@) == stored_lines(lines),
{
    let lines = header_lines(headers);
    storable_lines(&lines)
}

// ── Laws ────────────────────────────────────────────────────────────────────

/// The order in which a response lists the headers that it varies with does not matter.
pub proof fn law_vary_order_does_not_matter(
    base: Seq<char>,
    a: Seq<Seq<char>>,
    b: Seq<Seq<char>>,
    headers: Map<Seq<char>, Seq<Seq<u8>>>,
)
    requires
        a.to_multiset() == b.to_multiset(),
    ensures
        varied_key(base, a, headers) == varied_key(base, b, headers),
{
    lemma_sorting_forgets_order(a, b);
}

/// A response that varies with nothing goes by its plain name.
pub proof fn law_plain_key_without_vary(base: Seq<char>, headers: Map<Seq<char>, Seq<Seq<u8>>>)
    ensures
        varied_key(base, Seq::empty(), headers) == base,
{
    assert(sorted_texts(Seq::<Seq<char>>::empty()) == Seq::<Seq<char>>::empty());
    assert(base + Seq::<char>::empty() == base);
}

/// Whether two requests have the same values of the headers `names`.
pub open spec fn same_values(
    names: Seq<Seq<char>>,
    a: Map<Seq<char>, Seq<Seq<u8>>>,
    b: Map<Seq<char>, Seq<Seq<u8>>>,
) -> bool {
    forall|i: int|
        0 <= i < names.len() ==> vary_value(a, #[trigger] names[i]) == vary_value(b, names[i])
}

proof fn lemma_same_suffix(
    names: Seq<Seq<char>>,
    a: Map<Seq<char>, Seq<Seq<u8>>>,
    b: Map<Seq<char>, Seq<Seq<u8>>>,
)
    requires
        same_values(names, a, b),
    ensures
        vary_suffix(names, a) == vary_suffix(names, b),
    decreases names.len(),
{
    if names.len() > 0 {
        let rest = names.drop_last();
        assert(names[names.len() - 1] == names.last());
        assert forall|i: int| 0 <= i < rest.len() implies vary_value(a, #[trigger] rest[i])
            == vary_value(b, rest[i]) by {
            assert(rest[i] == names[i]);
        }
        lemma_same_suffix(rest, a, b);
    }
}

/// Two requests with the same values of the headers that a response varies with share it:
/// its names for them are the same.
pub proof fn law_same_values_same_key(
    base: Seq<char>,
    names: Seq<Seq<char>>,
    a: Map<Seq<char>, Seq<Seq<u8>>>,
    b: Map<Seq<char>, Seq<Seq<u8>>>,
)
    requires
        same_values(names, a, b),
    ensures
        varied_key(base, names, a) == varied_key(base, names, b),
{
    broadcast use vstd::seq_lib::group_to_multiset_ensures;

    lemma_sorted_texts(names);
    let sorted = sorted_texts(names);
    assert forall|i: int| 0 <= i < sorted.len() implies vary_value(a, #[trigger] sorted[i])
        == vary_value(b, sorted[i]) by {
        assert(sorted.contains(sorted[i]));
        assert(names.to_multiset().contains(sorted[i]));
        let j = names.index_of(sorted[i]);
        assert(names[j] == sorted[i]);
    }
    lemma_same_suffix(sorted, a, b);
}

/// A response that varies with anything never goes by its plain name.
pub proof fn law_varied_key_is_another(
    base: Seq<char>,
    names: Seq<Seq<char>>,
    headers: Map<Seq<char>, Seq<Seq<u8>>>,
)
    requires
        names.len() > 0,
    ensures
        varied_key(base, names, headers) != base,
{
    broadcast use vstd::seq_lib::group_to_multiset_ensures;

    lemma_sorted_texts(names);
    let sorted = sorted_texts(names);
    assert(sorted.to_multiset().len() == sorted.len());
    assert(names.to_multiset().len() == names.len());
    reveal_strlit(":");
    assert(vary_suffix(sorted, headers).len() > 0);
    assert(varied_key(base, names, headers).len() > base.len());
}

/// Whether two requests differ in the header `name`, and in no other of `names`.
pub open spec fn differ_in(
    name: Seq<char>,
    names: Seq<Seq<char>>,
    a: Map<Seq<char>, Seq<Seq<u8>>>,
    b: Map<Seq<char>, Seq<Seq<u8>>>,
) -> bool {
    &&& vary_value(a, name) != vary_value(b, name)
    &&& forall|i: int|
        0 <= i < names.len() && names[i] != name ==> vary_value(a, #[trigger] names[i])
            == vary_value(b, names[i])
}

proof fn lemma_suffix_lengths(
    name: Seq<char>,
    names: Seq<Seq<char>>,
    a: Map<Seq<char>, Seq<Seq<u8>>>,
    b: Map<Seq<char>, Seq<Seq<u8>>>,
)
    requires
        differ_in(name, names, a, b),
        vary_value(a, name).len() >= vary_value(b, name).len(),
    ensures
        vary_suffix(names, a).len() >= vary_suffix(names, b).len(),
        vary_value(a, name).len() == vary_value(b, name).len() ==> vary_suffix(names, a).len()
            == vary_suffix(names, b).len(),
        vary_value(a, name).len() > vary_value(b, name).len() && names.contains(name)
            ==> vary_suffix(names, a).len() > vary_suffix(names, b).len(),
    decreases names.len(),
{
    if names.len() > 0 {
        let rest = names.drop_last();
        assert(names[names.len() - 1] == names.last());
        assert forall|i: int| 0 <= i < rest.len() && rest[i] != name implies vary_value(
            a,
            #[trigger] rest[i],
        ) == vary_value(b, rest[i]) by {
            assert(rest[i] == names[i]);
        }
        lemma_suffix_lengths(name, rest, a, b);
        if names.contains(name) && names.last() != name {
            let i = choose|i: int| 0 <= i < names.len() && names[i] == name;
            assert(rest[i] == name);
        }
    }
}

proof fn lemma_suffixes_differ(
    name: Seq<char>,
    names: Seq<Seq<char>>,
    a: Map<Seq<char>, Seq<Seq<u8>>>,
    b: Map<Seq<char>, Seq<Seq<u8>>>,
)
    requires
        differ_in(name, names, a, b),
        names.contains(name),
        vary_value(a, name).len() == vary_value(b, name).len(),
    ensures
        vary_suffix(names, a) != vary_suffix(names, b),
    decreases names.len(),
{
    let rest = names.drop_last();
    let last = names.last();
    assert(names[names.len() - 1] == last);
    assert forall|i: int| 0 <= i < rest.len() && rest[i] != name implies vary_value(
        a,
        #[trigger] rest[i],
    ) == vary_value(b, rest[i]) by {
        assert(rest[i] == names[i]);
    }
    lemma_suffix_lengths(name, rest, a, b);
    let fa = vary_suffix(rest, a);
    let fb = vary_suffix(rest, b);
    let middle = ":"@ + last + "="@;
    assert(vary_suffix(names, a) == fa + (middle + vary_value(a, last)));
    assert(vary_suffix(names, b) == fb + (middle + vary_value(b, last)));
    if vary_suffix(names, a) == vary_suffix(names, b) {
        let n = fa.len() as int;
        assert(fa == vary_suffix(names, a).take(n));
        assert(fb == vary_suffix(names, b).take(n));
        let m = n + middle.len();
        assert(vary_value(a, last) == vary_suffix(names, a).skip(m));
        assert(vary_value(b, last) == vary_suffix(names, b).skip(m));
        if last != name {
            let i = choose|i: int| 0 <= i < names.len() && names[i] == name;
            assert(rest[i] == name);
            lemma_suffixes_differ(name, rest, a, b);
        }
    }
}

/// Two requests that differ in one of the headers that a response varies with do not share
/// a response: its names for them differ.
pub proof fn law_variants_are_kept_apart(
    base: Seq<char>,
    names: Seq<Seq<char>>,
    name: Seq<char>,
    a: Map<Seq<char>, Seq<Seq<u8>>>,
    b: Map<Seq<char>, Seq<Seq<u8>>>,
)
    requires
        names.contains(name),
        differ_in(name, names, a, b),
    ensures
        varied_key(base, names, a) != varied_key(base, names, b),
{
    broadcast use vstd::seq_lib::group_to_multiset_ensures;

    lemma_sorted_texts(names);
    let sorted = sorted_texts(names);
    assert(sorted.to_multiset().contains(name));
    assert(sorted.contains(name));
    assert forall|i: int| 0 <= i < sorted.len() && sorted[i] != name implies vary_value(
        a,
        #[trigger] sorted[i],
    ) == vary_value(b, sorted[i]) by {
        assert(sorted.contains(sorted[i]));
        assert(names.to_multiset().contains(sorted[i]));
        let j = names.index_of(sorted[i]);
        assert(names[j] == sorted[i]);
    }
    let sa = vary_suffix(sorted, a);
    let sb = vary_suffix(sorted, b);
    if vary_value(a, name).len() >= vary_value(b, name).len() {
        lemma_suffix_lengths(name, sorted, a, b);
    } else {
        lemma_suffix_lengths(name, sorted, b, a);
    }
    if vary_value(a, name).len() == vary_value(b, name).len() {
        lemma_suffixes_differ(name, sorted, a, b);
    }
    if base + sa == base + sb {
        assert(sa == (base + sa).skip(base.len() as int));
        assert(sb == (base + sb).skip(base.len() as int));
    }
}

/// What is stored of a response holds no header that belongs to one connection only.
pub proof fn law_connection_headers_are_not_stored(lines: Seq<(Seq<char>, Seq<u8>)>, i: int)
    requires
        0 <= i < stored_lines(lines).len(),
    ensures
        !is_hop_by_hop(stored_lines(lines)[i].0),
    decreases lines.len(),
{
    if lines.len() > 0 {
        if i < stored_lines(lines.drop_last()).len() {
            law_connection_headers_are_not_stored(lines.drop_last(), i);
        }
    }
}

/// Responses to requests with different paths or queries on a route go by different names; so
/// do those on different routes and those to different methods. The case of a method does not
/// matter.
pub proof fn law_requests_are_told_apart(
    a: Seq<char>,
    b: Seq<char>,
    method: Seq<char>,
    route_id: Seq<char>,
    path: Seq<char>,
    query: Option<Seq<char>>,
)
    ensures
        base_key(method, route_id, a, None) == base_key(method, route_id, b, None) <==> a == b,
        base_key(method, a, path, query) == base_key(method, b, path, query) <==> a == b,
        base_key(a, route_id, path, query) == base_key(b, route_id, path, query) <==> upper(a)
            == upper(b),
{
    let head = "stateform:cache:"@;
    let rest = path_query(path, query);
    let front = head + upper(method) + ":"@ + route_id + ":"@;
    assert(base_key(method, route_id, a, None).skip(front.len() as int) == a);
    assert(base_key(method, route_id, b, None).skip(front.len() as int) == b);
    let middle = head + upper(method) + ":"@;
    let ra = base_key(method, a, path, query);
    let rb = base_key(method, b, path, query);
    if ra == rb {
        assert(ra.len() == middle.len() + a.len() + ":"@.len() + rest.len());
        assert(rb.len() == middle.len() + b.len() + ":"@.len() + rest.len());
        assert(ra.subrange(middle.len() as int, (middle.len() + a.len()) as int) == a);
        assert(rb.subrange(middle.len() as int, (middle.len() + b.len()) as int) == b);
    }
    let ma = base_key(a, route_id, path, query);
    let mb = base_key(b, route_id, path, query);
    if ma == mb {
        let tail = ":"@ + route_id + ":"@ + rest;
        assert(ma.len() == head.len() + a.len() + tail.len());
        assert(mb.len() == head.len() + b.len() + tail.len());
        assert(ma.subrange(head.len() as int, (head.len() + a.len()) as int) == upper(a));
        assert(mb.subrange(head.len() as int, (head.len() + b.len()) as int) == upper(b));
    }
}

/// A query is part of the name, behind a question mark; an empty one counts as none.
pub proof fn law_queries_are_told_apart(
    method: Seq<char>,
    route_id: Seq<char>,
    path: Seq<char>,
    a: Seq<char>,
    b: Seq<char>,
)
    ensures
        base_key(method, route_id, path, Some(Seq::empty())) == base_key(
            method,
            route_id,
            path,
            None,
        ),
        base_key(method, route_id, path, Some(a)) == base_key(method, route_id, path, Some(b)) <==> a
            == b,
        a.len() > 0 ==> base_key(method, route_id, path, Some(a)) == base_key(
            method,
            route_id,
            path + "?"@ + a,
            None,
        ),
{
    let pa = path_query(path, Some(a));
    let pb = path_query(path, Some(b));
    reveal_strlit("?");
    law_requests_are_told_apart(pa, pb, method, route_id, path, None);
    if pa == pb {
        if a.len() > 0 {
            assert(pa.len() == path.len() + 1 + a.len());
            assert(pa.skip((path.len() + 1) as int) == a);
        }
        if b.len() > 0 {
            assert(pb.len() == path.len() + 1 + b.len());
            assert(pb.skip((path.len() + 1) as int) == b);
        }
        assert(a == b);
    }
}

/// A request header that is not there, or cannot be read, counts as empty.
pub proof fn law_missing_headers_count_as_empty(
    headers: Map<Seq<char>, Seq<Seq<u8>>>,
    name: Seq<char>,
)
    ensures
        text_under(headers, name) is None ==> vary_value(headers, name).len() == 0,
        text_under(headers, name) matches Some(v) ==> vary_value(headers, name) == v,
{
}

/// The headers that belong to one connection only are these eight.
pub proof fn law_connection_headers(name: Seq<char>)
    ensures
        is_hop_by_hop(name) <==> seq![
            "connection"@,
            "keep-alive"@,
            "proxy-authenticate"@,
            "proxy-authorization"@,
            "te"@,
            "trailers"@,
            "transfer-encoding"@,
            "upgrade"@,
        ].contains(name),
{
    let all = seq![
        "connection"@,
        "keep-alive"@,
        "proxy-authenticate"@,
        "proxy-authorization"@,
        "te"@,
        "trailers"@,
        "transfer-encoding"@,
        "upgrade"@,
    ];
    assert(all[0] == "connection"@ && all[1] == "keep-alive"@ && all[2] == "proxy-authenticate"@
        && all[3] == "proxy-authorization"@ && all[4] == "te"@ && all[5] == "trailers"@ && all[6]
        == "transfer-encoding"@ && all[7] == "upgrade"@);
}

/// All other headers of a response are stored, each under its name in small letters and with
/// its value, in order, but for those that cannot be read as text.
pub proof fn law_other_headers_are_stored(lines: Seq<(Seq<char>, Seq<u8>)>)
    ensures
        stored_lines(lines) == lines.filter(
            |l: (Seq<char>, Seq<u8>)| !is_hop_by_hop(lower(l.0)) && all_visible(l.1),
        ).map_values(|l: (Seq<char>, Seq<u8>)| (lower(l.0), ascii_text(l.1))),
    decreases lines.len(),
{
    reveal(Seq::filter);
    let keep = |l: (Seq<char>, Seq<u8>)| !is_hop_by_hop(lower(l.0)) && all_visible(l.1);
    let read = |l: (Seq<char>, Seq<u8>)| (lower(l.0), ascii_text(l.1));
    if lines.len() > 0 {
        let rest = lines.drop_last();
        law_other_headers_are_stored(rest);
        if keep(lines.last()) {
            assert(rest.filter(keep).push(lines.last()).map_values(read) =~= rest.filter(
                keep,
            ).map_values(read).push(read(lines.last())));
        }
    } else {
        assert(lines.filter(keep).map_values(read) =~= Seq::<(Seq<char>, Seq<char>)>::empty());
    }
}

} // verus!

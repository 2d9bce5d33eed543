//! Conditions on the method and the headers of a request.

use http::{HeaderMap, Method};
use vstd::prelude::*;

use crate::http_types::{
    ascii_text, header_contents, header_text, method_str, method_text, text_under,
};
use crate::names::NameMap;
use crate::pattern::{compile, compiled_regex, is_match, regex_matches};
use crate::text::{contains, eq_ignore_case, has_substring, law_case_is_ascii, lower, occurs_at};

verus! {

/// The characters that make a pattern more than plain text.
pub open spec fn is_metachar(c: char) -> bool {
    ||| c == '.'
    ||| c == '*'
    ||| c == '+'
    ||| c == '?'
    ||| c == '('
    ||| c == ')'
    ||| c == '['
    ||| c == ']'
    ||| c == '{'
    ||| c == '}'
    ||| c == '^'
    ||| c == '$'
    ||| c == '|'
    ||| c == '\\'
}

/// Whether a pattern is plain text.
pub open spec fn is_plain(pattern: Seq<char>) -> bool {
    forall|i: int| 0 <= i < pattern.len() ==> !is_metachar(#[trigger] pattern[i])
}

/// Whether a header value meets a pattern: plain text has to occur in the value; any
/// other pattern is a regular expression, and one that does not compile is not met.
pub open spec fn value_accepted(value: Seq<char>, pattern: Seq<char>) -> bool {
    if is_plain(pattern) {
        has_substring(value, pattern)
    } else {
        compiled_regex(pattern) matches Ok(re) && regex_matches(re, value)
    }
}

/// Whether a method meets the one that a route asks for; without one, any does.
pub open spec fn method_accepted(wanted: Option<Seq<char>>, method: Seq<char>) -> bool {
    wanted matches Some(m) ==> lower(m) == lower(method)
}

/// Whether every header that a route asks for is there, with a value that meets its
/// pattern.
pub open spec fn headers_accepted(
    wanted: Seq<(Seq<char>, String)>,
    headers: Map<Seq<char>, Seq<Seq<u8>>>,
) -> bool {
    forall|i: int|
        0 <= i < wanted.len() ==> {
            &&& text_under(headers, (#[trigger] wanted[i]).0) is Some
            &&& value_accepted(text_under(headers, wanted[i].0)->0, wanted[i].1@)
        }
}

fn is_metachar_exec(c: char) -> (r: bool)
    ensures
        r == is_metachar(c),
{
    c == '.' || c == '*' || c == '+' || c == '?' || c == '(' || c == ')' || c == '[' || c == ']' || c
        == '{' || c == '}' || c == '^' || c == '$' || c == '|' || c == '\\'
}

fn is_plain_string(s: &str) -> (r: bool)
    ensures
        r == is_plain(s@),
{
    for c in it: s.chars()
        invariant
            it.seq() == s@,
            forall|i: int| 0 <= i < it.index() ==> !is_metachar(#[trigger] s@[i]),
    {
        if is_metachar_exec(c) {
            return false;
        }
    }
    true
}

/// Whether a header value meets a pattern. Plain text is looked for without compiling it.
pub fn value_matches(value: &str, pattern: &str) -> (r: bool)
    ensures
        r == value_accepted(value@, pattern@),
{
    if is_plain_string(pattern) {
        contains(value, pattern)
    } else {
        match compile(pattern) {
            Ok(re) => is_match(&re, value),
            Err(_) => false,
        }
    }
}

fn method_matches(route_method: Option<&str>, req_method: &Method) -> (r: bool)
    ensures
        r == method_accepted(
            match route_method {
                Some(m) => Some(m@),
                None => None,
            },
            method_text(*req_method),
        ),
{
    match route_method {
        None => true,
        Some(m) => eq_ignore_case(m, method_str(req_method)),
    }
}

fn headers_match(route_headers: &NameMap<String>, req_headers: &HeaderMap) -> (r: bool)
    ensures
        r == headers_accepted(route_headers.pairs(), header_contents(*req_headers)),
{
    let n: usize = route_headers.len();
    for i in 0..n
        invariant
            n == route_headers.pairs().len(),
            forall|j: int|
                0 <= j < i ==> {
                    &&& text_under(
                        header_contents(*req_headers),
                        (#[trigger] route_headers.pairs()[j]).0,
                    ) is Some
                    &&& value_accepted(
                        text_under(header_contents(*req_headers), route_headers.pairs()[j].0)->0,
                        route_headers.pairs()[j].1@,
                    )
                },
    {
        match header_text(req_headers, route_headers.name_at(i)) {
            Some(value) => {
                if !value_matches(value.as_str(), route_headers.value_at(i).as_str()) {
                    return false;
                }
            },
            None => {
                return false;
            },
        }
    }
    true
}

/// Whether a request meets the conditions of a route on method and headers.
pub fn matches_predicates(
    route_method: Option<&str>,
    route_headers: &NameMap<String>,
    req_method: &Method,
    req_headers: &HeaderMap,
) -> (r: bool)
    ensures
        r == {
            &&& method_accepted(
                match route_method {
                    Some(m) => Some(m@),
                    None => None,
                },
                method_text(*req_method),
            )
            &&& headers_accepted(route_headers.pairs(), header_contents(*req_headers))
        },
{
    if !method_matches(route_method, req_method) {
        return false;
    }
    headers_match(route_headers, req_headers)
}

// ── Laws ────────────────────────────────────────────────────────────────────

/// A route without a method takes any; one with a method takes it in any case, letter by
/// letter, and no other.
pub proof fn law_methods_ignore_case(wanted: Seq<char>, method: Seq<char>)
    ensures
        method_accepted(None, method),
        method_accepted(Some(wanted), method) <==> {
            &&& wanted.len() == method.len()
            &&& forall|i: int|
                #![trigger wanted[i], method[i]]
                0 <= i < wanted.len() ==> {
                    ||| wanted[i] == method[i]
                    ||| 65 <= wanted[i] as u32 <= 90 && method[i] as u32 == wanted[i] as u32 + 32
                    ||| 65 <= method[i] as u32 <= 90 && wanted[i] as u32 == method[i] as u32 + 32
                }
        },
{
    if lower(wanted) == lower(method) {
        assert(lower(wanted).len() == lower(method).len());
        assert forall|i: int| #![trigger wanted[i], method[i]] 0 <= i < wanted.len() implies {
            ||| wanted[i] == method[i]
            ||| 65 <= wanted[i] as u32 <= 90 && method[i] as u32 == wanted[i] as u32 + 32
            ||| 65 <= method[i] as u32 <= 90 && wanted[i] as u32 == method[i] as u32 + 32
        } by {
            assert(lower(wanted)[i] == lower(method)[i]);
            law_case_is_ascii(wanted, i);
            law_case_is_ascii(method, i);
        }
    } else if wanted.len() == method.len() {
        let i = choose|i: int| 0 <= i < wanted.len() && lower(wanted)[i] != lower(method)[i];
        if forall|i: int| 0 <= i < wanted.len() ==> lower(wanted)[i] == lower(method)[i] {
            assert(lower(wanted) == lower(method));
        }
        law_case_is_ascii(wanted, i);
        law_case_is_ascii(method, i);
        assert(!{
            ||| wanted[i] == method[i]
            ||| 65 <= wanted[i] as u32 <= 90 && method[i] as u32 == wanted[i] as u32 + 32
            ||| 65 <= method[i] as u32 <= 90 && wanted[i] as u32 == method[i] as u32 + 32
        });
    }
}

/// All conditions on headers have to be met: a condition more is one more to meet, and a
/// route without any takes every request.
pub proof fn law_every_header_condition_counts(
    wanted: Seq<(Seq<char>, String)>,
    one: (Seq<char>, String),
    headers: Map<Seq<char>, Seq<Seq<u8>>>,
)
    ensures
        headers_accepted(Seq::empty(), headers),
        headers_accepted(wanted.push(one), headers) <==> headers_accepted(wanted, headers)
            && headers_accepted(seq![one], headers),
{
    let more = wanted.push(one);
    if headers_accepted(more, headers) {
        assert forall|i: int| 0 <= i < wanted.len() implies {
            &&& text_under(headers, (#[trigger] wanted[i]).0) is Some
            &&& value_accepted(text_under(headers, wanted[i].0)->0, wanted[i].1@)
        } by {
            assert(more[i] == wanted[i]);
        }
        assert(more[wanted.len() as int] == one);
    }
    if headers_accepted(wanted, headers) && headers_accepted(seq![one], headers) {
        assert(seq![one][0] == one);
        assert forall|i: int| 0 <= i < more.len() implies {
            &&& text_under(headers, (#[trigger] more[i]).0) is Some
            &&& value_accepted(text_under(headers, more[i].0)->0, more[i].1@)
        } by {
            if i < wanted.len() {
                assert(more[i] == wanted[i]);
            }
        }
    }
}

/// One condition asks for the header of that name, in any case, and for a first value that
/// can be read and meets the pattern: a pattern without special characters has to occur in the
/// value as it stands, any other is a regular expression that has to match.
pub proof fn law_header_condition(
    name: Seq<char>,
    pattern: String,
    headers: Map<Seq<char>, Seq<Seq<u8>>>,
)
    ensures
        headers_accepted(seq![(name, pattern)], headers) <==> headers.contains_key(lower(name)) && {
            let value = headers[lower(name)][0];
            let plain = forall|i: int|
                0 <= i < pattern@.len() ==> !seq![
                    '.', '*', '+', '?', '(', ')', '[', ']', '{', '}', '^', '$', '|', '\\',
                ].contains(#[trigger] pattern@[i]);
            &&& forall|i: int|
                0 <= i < value.len() ==> (32 <= #[trigger] value[i] < 127 || value[i] == 9)
            &&& plain ==> exists|at: int|
                0 <= at && at + pattern@.len() <= value.len() && ascii_text(
                    #[trigger] value.skip(at),
                ).take(pattern@.len() as int) == pattern@
            &&& !plain ==> (compiled_regex(pattern@) matches Ok(re) && regex_matches(
                re,
                ascii_text(value),
            ))
        },
{
    let wanted = seq![(name, pattern)];
    assert(wanted[0] == (name, pattern));
    let value = headers[lower(name)][0];
    let text = ascii_text(value);
    let special = seq!['.', '*', '+', '?', '(', ')', '[', ']', '{', '}', '^', '$', '|', '\\'];
    assert forall|c: char| special.contains(c) <==> is_metachar(c) by {
        assert(special[0] == '.' && special[1] == '*' && special[2] == '+' && special[3] == '?'
            && special[4] == '(' && special[5] == ')' && special[6] == '[' && special[7] == ']'
            && special[8] == '{' && special[9] == '}' && special[10] == '^' && special[11] == '$'
            && special[12] == '|' && special[13] == '\\');
    }
    assert(is_plain(pattern@) <==> forall|i: int|
        0 <= i < pattern@.len() ==> !special.contains(#[trigger] pattern@[i]));
    assert(headers_accepted(wanted, headers) <==> text_under(headers, name) is Some
        && value_accepted(text_under(headers, name)->0, pattern@)) by {
        if text_under(headers, name) is Some && value_accepted(
            text_under(headers, name)->0,
            pattern@,
        ) {
            assert forall|i: int| 0 <= i < wanted.len() implies {
                &&& text_under(headers, (#[trigger] wanted[i]).0) is Some
                &&& value_accepted(text_under(headers, wanted[i].0)->0, wanted[i].1@)
            } by {}
        }
    }
    lemma_occurs(value, pattern@);
}

proof fn lemma_occurs(value: Seq<u8>, pattern: Seq<char>)
    ensures
        has_substring(ascii_text(value), pattern) <==> exists|at: int|
            0 <= at && at + pattern.len() <= value.len() && ascii_text(
                #[trigger] value.skip(at),
            ).take(pattern.len() as int) == pattern,
{
    let text = ascii_text(value);
    if has_substring(text, pattern) {
        let at = choose|at: int| #[trigger] occurs_at(text, pattern, at);
        assert(ascii_text(value.skip(at)).take(pattern.len() as int) == text.subrange(
            at,
            at + pattern.len(),
        ));
    }
    if exists|at: int|
        0 <= at && at + pattern.len() <= value.len() && ascii_text(#[trigger] value.skip(at)).take(
            pattern.len() as int,
        ) == pattern {
        let at = choose|at: int|
            0 <= at && at + pattern.len() <= value.len() && ascii_text(
                #[trigger] value.skip(at),
            ).take(pattern.len() as int) == pattern;
        assert(ascii_text(value.skip(at)).take(pattern.len() as int) == text.subrange(
            at,
            at + pattern.len(),
        ));
        assert(occurs_at(text, pattern, at));
    }
}

} // verus!

//! The parts of an HTTP message that the gateway reads and changes: methods,
//! header names, header values and header maps of the `http` crate.

use http::header::{HeaderMap, HeaderName, HeaderValue, InvalidHeaderName, InvalidHeaderValue, ToStrError};
use http::uri::InvalidUri;
use http::{Method, Uri};
use vstd::prelude::*;

use crate::text::lower;

verus! {

// ── Outside types ───────────────────────────────────────────────────────────

#[verifier::external_type_specification]
#[verifier::external_body]
pub struct ExMethod(Method);

#[verifier::external_type_specification]
#[verifier::external_body]
#[verifier::reject_recursive_types(T)]
pub struct ExHeaderMap<T>(HeaderMap<T>);

#[verifier::external_type_specification]
#[verifier::external_body]
pub struct ExHeaderName(HeaderName);

#[verifier::external_type_specification]
#[verifier::external_body]
pub struct ExHeaderValue(HeaderValue);

#[verifier::external_type_specification]
#[verifier::external_body]
pub struct ExInvalidHeaderName(InvalidHeaderName);

#[verifier::external_type_specification]
#[verifier::external_body]
pub struct ExInvalidHeaderValue(InvalidHeaderValue);

#[verifier::external_type_specification]
#[verifier::external_body]
pub struct ExToStrError(ToStrError);

// ── Methods ─────────────────────────────────────────────────────────────────

/// The text of a method: what `Method::as_str` returns.
pub uninterp spec fn method_text(m: Method) -> Seq<char>;

/// `Method::as_str` returns the text of the method, as named by `method_text`.
#[verifier::external_body]
pub(crate) fn method_str(m: &Method) -> (r: &str)
    ensures
        r@ == method_text(*m),
{
    m.as_str()
}

// ── Header names ────────────────────────────────────────────────────────────

/// The characters that a header name may hold.
pub open spec fn is_token_char(c: char) -> bool {
    ||| '0' <= c <= '9'
    ||| 'a' <= c <= 'z'
    ||| 'A' <= c <= 'Z'
    ||| c == '!'
    ||| '#' <= c <= '\''
    ||| c == '*'
    ||| c == '+'
    ||| c == '-'
    ||| c == '.'
    ||| '^' <= c <= '`'
    ||| c == '|'
    ||| c == '~'
}

/// Whether `s` can name a header: 1 to 65,535 token characters.
pub open spec fn is_header_name(s: Seq<char>) -> bool {
    &&& 0 < s.len() <= 65_535
    &&& forall|i: int| 0 <= i < s.len() ==> is_token_char(#[trigger] s[i])
}

/// The text of a header name: what `HeaderName::as_str` returns.
pub uninterp spec fn header_name_text(n: HeaderName) -> Seq<char>;

/// `HeaderName::from_bytes` accepts the header names, and makes their letters small.
#[verifier::external_body]
pub(crate) fn header_name(s: &str) -> (r: Result<HeaderName, InvalidHeaderName>)
    ensures
        r is Ok <==> is_header_name(s@),
        r matches Ok(n) ==> header_name_text(n) == lower(s@),
{
    HeaderName::from_bytes(s.as_bytes())
}

// ── Header values ───────────────────────────────────────────────────────────

/// The bytes of a header value: what `HeaderValue::as_bytes` returns.
pub uninterp spec fn header_value_bytes(v: HeaderValue) -> Seq<u8>;

/// A byte of visible ASCII, a space or a tab.
pub open spec fn is_visible(b: u8) -> bool {
    32 <= b < 127 || b == 9
}

/// Whether a header value can be read as text.
pub open spec fn all_visible(bytes: Seq<u8>) -> bool {
    forall|i: int| 0 <= i < bytes.len() ==> is_visible(#[trigger] bytes[i])
}

/// The characters of ASCII bytes.
pub open spec fn ascii_text(bytes: Seq<u8>) -> Seq<char> {
    bytes.map_values(|b: u8| b as char)
}

/// Whether `s` can be a header value: no control characters but the tab.
pub open spec fn is_header_value(s: Seq<char>) -> bool {
    forall|i: int| 0 <= i < s.len() ==> ((#[trigger] s[i] as u32) >= 32 && (s[i] as u32) != 127) || s[i] == '\t'
}

/// `HeaderValue::to_str` succeeds on visible ASCII, and gives its characters.
#[verifier::external_body]
pub(crate) fn header_value_str(v: &HeaderValue) -> (r: Result<&str, ToStrError>)
    ensures
        r is Ok <==> all_visible(header_value_bytes(*v)),
        r matches Ok(s) ==> s@ == ascii_text(header_value_bytes(*v)),
{
    v.to_str()
}

/// `HeaderValue::from_str` accepts text without control characters, and holds its
/// UTF-8 bytes.
#[verifier::external_body]
pub(crate) fn header_value(s: &str) -> (r: Result<HeaderValue, InvalidHeaderValue>)
    ensures
        r is Ok <==> is_header_value(s@),
        r matches Ok(v) ==> header_value_bytes(v) == vstd::utf8::encode_utf8(s@),
{
    HeaderValue::from_str(s)
}

// ── Header maps ─────────────────────────────────────────────────────────────

/// The contents of a header map: under each name, in small letters, its values in
/// the order in which they came.
pub uninterp spec fn header_contents(m: HeaderMap) -> Map<Seq<char>, Seq<Seq<u8>>>;

/// The first value under `name`, read as text, if there is one that can be read.
pub open spec fn text_under(contents: Map<Seq<char>, Seq<Seq<u8>>>, name: Seq<char>) -> Option<
    Seq<char>,
> {
    if contents.contains_key(lower(name)) && all_visible(contents[lower(name)][0]) {
        Some(ascii_text(contents[lower(name)][0]))
    } else {
        None
    }
}

/// `HeaderMap::get` looks a name up without regard to ASCII case, and returns the
/// first of its values. A text that is no header name is not found.
#[verifier::external_body]
pub(crate) fn header_get<'a>(m: &'a HeaderMap, name: &str) -> (r: Option<&'a HeaderValue>)
    ensures
        match r {
            Some(v) => header_contents(*m).contains_key(lower(name@)) && header_value_bytes(*v)
                == header_contents(*m)[lower(name@)][0],
            None => !header_contents(*m).contains_key(lower(name@)),
        },
{
    m.get(name)
}

/// The first value under `name`, as text; none if it is absent or not visible ASCII.
pub fn header_text(m: &HeaderMap, name: &str) -> (r: Option<String>)
    ensures
        match r {
            Some(s) => text_under(header_contents(*m), name@) == Some(s@),
            None => text_under(header_contents(*m), name@) is None,
        },
{
    match header_get(m, name) {
        Some(v) => match header_value_str(v) {
            Ok(s) => Some(s.to_owned()),
            Err(_) => None,
        },
        None => None,
    }
}

#[verifier::external_type_specification]
#[verifier::external_body]
pub struct ExMaxSizeReached(http::header::MaxSizeReached);

/// Contents with one value under `name`, in place of what was there.
pub open spec fn with_header(
    contents: Map<Seq<char>, Seq<Seq<u8>>>,
    name: Seq<char>,
    value: Seq<u8>,
) -> Map<Seq<char>, Seq<Seq<u8>>> {
    contents.insert(name, seq![value])
}

/// Whether a header map can be full: it has fewer names than this only if it has room.
pub open spec fn may_be_full(contents: Map<Seq<char>, Seq<Seq<u8>>>) -> bool {
    contents.dom().finite() ==> contents.dom().len() >= 6_554
}

/// `HeaderMap::try_insert` puts a value under a name, in place of all that were there. It
/// fails, and changes nothing, only on a map whose table cannot grow any more, which takes
/// at least 6,554 names.
#[verifier::external_body]
pub(crate) fn try_insert(m: &mut HeaderMap, name: HeaderName, value: HeaderValue) -> (r: Result<
    (),
    http::header::MaxSizeReached,
>)
    ensures
        match r {
            Ok(_) => header_contents(*final(m)) == with_header(
                header_contents(*old(m)),
                header_name_text(name),
                header_value_bytes(value),
            ),
            Err(_) => header_contents(*final(m)) == header_contents(*old(m)) && may_be_full(
                header_contents(*old(m)),
            ),
        },
{
    m.try_insert(name, value).map(|_| ())
}

/// `HeaderMap::remove` takes all values of a name out; a text that is no header name is not
/// found.
#[verifier::external_body]
pub(crate) fn remove_header(m: &mut HeaderMap, name: &str)
    ensures
        header_contents(*final(m)) == header_contents(*old(m)).remove(lower(name@)),
{
    m.remove(name);
}

/// The values of the lines called `name`, in order.
pub open spec fn values_of(lines: Seq<(Seq<char>, Seq<u8>)>, name: Seq<char>) -> Seq<Seq<u8>>
    decreases lines.len(),
{
    if lines.len() == 0 {
        Seq::empty()
    } else if lines.last().0 == name {
        values_of(lines.drop_last(), name).push(lines.last().1)
    } else {
        values_of(lines.drop_last(), name)
    }
}

/// Whether `lines` hold the contents of a header map: under each name its values in order.
/// The order of the names is open.
pub open spec fn lists(lines: Seq<(Seq<char>, Seq<u8>)>, contents: Map<Seq<char>, Seq<Seq<u8>>>) -> bool {
    forall|name: Seq<char>| #[trigger]
        values_of(lines, name) == if contents.contains_key(name) {
            contents[name]
        } else {
            Seq::empty()
        }
}

/// Lines as texts and bytes.
pub open spec fn line_views(lines: Seq<(String, Vec<u8>)>) -> Seq<(Seq<char>, Seq<u8>)> {
    lines.map_values(|l: (String, Vec<u8>)| (l.0@, l.1@))
}

/// `HeaderMap::iter` hands out every value with its name, those of one name in the order in
/// which they came.
#[verifier::external_body]
pub(crate) fn header_lines(m: &HeaderMap) -> (r: Vec<(String, Vec<u8>)>)
    ensures
        lists(line_views(r@), header_contents(*m)),
{
    m.iter().map(|(name, value)| (name.as_str().to_owned(), value.as_bytes().to_vec())).collect()
}

/// Bytes of visible ASCII as text; none if there are others.
pub fn visible_text(bytes: &[u8]) -> (r: Option<String>)
    ensures
        match r {
            Some(s) => all_visible(bytes@) && s@ == ascii_text(bytes@),
            None => !all_visible(bytes@),
        },
{
    let mut s = String::new();
    proof {
        assert(ascii_text(bytes@.take(0)) == Seq::<char>::empty());
    }
    for i in 0..bytes.len()
        invariant
            s@ == ascii_text(bytes@.take(i as int)),
            forall|j: int| 0 <= j < i ==> is_visible(#[trigger] bytes@[j]),
    {
        let b: u8 = bytes[i];
        if !(32 <= b && b < 127 || b == 9) {
            proof {
                assert(!is_visible(bytes@[i as int]));
            }
            return None;
        }
        s.push(b as char);
        proof {
            assert(ascii_text(bytes@.take(i + 1)) == ascii_text(bytes@.take(i as int)).push(
                b as char,
            ));
        }
    }
    proof {
        assert(bytes@.take(bytes@.len() as int) == bytes@);
    }
    Some(s)
}

// ── URIs ────────────────────────────────────────────────────────────────────

#[verifier::external_type_specification]
#[verifier::external_body]
pub struct ExUri(Uri);

#[verifier::external_type_specification]
#[verifier::external_body]
pub struct ExInvalidUri(InvalidUri);

/// What the parser of `Uri` makes of a text.
pub uninterp spec fn parsed_uri(text: Seq<char>) -> Result<Uri, InvalidUri>;

/// `Uri::from_str` parses a URI; the same text always gives the same result.
#[verifier::external_body]
pub(crate) fn parse_uri(text: &str) -> (r: Result<Uri, InvalidUri>)
    ensures
        r == parsed_uri(text@),
{
    text.parse::<Uri>()
}

/// The message of an error of the parser of `Uri`.
pub uninterp spec fn uri_error_message(e: InvalidUri) -> Seq<char>;

/// An `InvalidUri` as text, through its `Display`; the same error always reads the same.
#[verifier::external_body]
pub(crate) fn uri_error_text(e: &InvalidUri) -> (r: String)
    ensures
        r@ == uri_error_message(*e),
{
    format!("{}", e)
}

/// The path and the query of a URI as they stand in it, if it has a path: what
/// `Uri::path_and_query` returns.
pub uninterp spec fn uri_path_and_query(uri: Uri) -> Option<Seq<char>>;

/// `Uri::path_and_query` depends on the URI alone.
#[verifier::external_body]
pub(crate) fn path_and_query(uri: &Uri) -> (r: Option<String>)
    ensures
        match r {
            Some(s) => uri_path_and_query(*uri) == Some(s@),
            None => uri_path_and_query(*uri) is None,
        },
{
    uri.path_and_query().map(|pq| pq.as_str().to_string())
}

// ── Laws ────────────────────────────────────────────────────────────────────

/// A header is found under its name in any case, and read as text if its first value holds
/// nothing but printable ASCII characters, spaces and tabs; later values are not read.
pub proof fn law_first_values_are_read(
    contents: Map<Seq<char>, Seq<Seq<u8>>>,
    name: Seq<char>,
    other: Seq<char>,
)
    ensures
        lower(name) == lower(other) ==> text_under(contents, name) == text_under(contents, other),
        !contents.contains_key(lower(name)) ==> text_under(contents, name) is None,
        contents.contains_key(lower(name)) ==> {
            let first = contents[lower(name)][0];
            let readable = forall|i: int|
                0 <= i < first.len() ==> (32 <= #[trigger] first[i] <= 126 || first[i] == 9);
            &&& text_under(contents, name) is Some <==> readable
            &&& text_under(contents, name) matches Some(text) ==> text.len() == first.len() && (
            forall|i: int| 0 <= i < text.len() ==> (#[trigger] text[i]) as u32 == first[i] as u32)
        },
{
    if contents.contains_key(lower(name)) {
        let first = contents[lower(name)][0];
        assert(all_visible(first) <==> forall|i: int|
            0 <= i < first.len() ==> (32 <= #[trigger] first[i] <= 126 || first[i] == 9)) by {
            if forall|i: int|
                0 <= i < first.len() ==> (32 <= #[trigger] first[i] <= 126 || first[i] == 9) {
                assert forall|i: int| 0 <= i < first.len() implies is_visible(#[trigger] first[i]) by {}
            }
        }
    }
}

} // verus!

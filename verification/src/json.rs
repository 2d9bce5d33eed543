//! JSON: values of the `serde_json` crate, and the quoting of strings.

use serde_json::Value;
use vstd::prelude::*;

use crate::names::{distinct_names, lemma_position, lookup, position};
use crate::text::{hex_text, same};

verus! {

// ── Values ──────────────────────────────────────────────────────────────────

#[verifier::external_type_specification]
#[verifier::external_body]
pub struct ExValue(Value);

/// The members of a JSON object in the order in which `serde_json` keeps them; none for a
/// value that is no object.
pub uninterp spec fn json_members(v: Value) -> Option<Seq<(Seq<char>, Value)>>;

/// Members as texts and values.
pub open spec fn member_texts(members: Seq<(String, Value)>) -> Seq<(Seq<char>, Value)> {
    members.map_values(|m: (String, Value)| (m.0@, m.1))
}

/// The items of a JSON array; none for a value that is no array.
pub uninterp spec fn json_items(v: Value) -> Option<Seq<Value>>;

/// A JSON value taken apart.
pub(crate) enum Parts {
    Members(Vec<(String, Value)>),
    Items(Vec<Value>),
    /// It has no parts.
    Whole,
}

/// `Value` taken apart: an object into its members, no two of the same name, and an array into
/// its items; any other value has neither.
#[verifier::external_body]
pub(crate) fn taken_apart(v: Value) -> (r: Parts)
    ensures
        match r {
            Parts::Members(m) => {
                &&& json_members(v) == Some(member_texts(m@))
                &&& distinct_names(member_texts(m@))
                &&& json_items(v) is None
            },
            Parts::Items(list) => json_items(v) == Some(list@) && json_members(v) is None,
            Parts::Whole => json_members(v) is None && json_items(v) is None,
        },
{
    match v {
        Value::Object(map) => Parts::Members(map.into_iter().collect()),
        Value::Array(list) => Parts::Items(list),
        Value::Null | Value::Bool(_) | Value::Number(_) | Value::String(_) => Parts::Whole,
    }
}

/// The members of a JSON object, no two of the same name.
pub(crate) fn members(v: Value) -> (r: Option<Vec<(String, Value)>>)
    ensures
        match r {
            Some(m) => json_members(v) == Some(member_texts(m@)) && distinct_names(
                member_texts(m@),
            ),
            None => json_members(v) is None,
        },
{
    match taken_apart(v) {
        Parts::Members(m) => Some(m),
        _ => None,
    }
}

/// The items of a JSON array.
pub(crate) fn items(v: Value) -> (r: Option<Vec<Value>>)
    ensures
        match r {
            Some(list) => json_items(v) == Some(list@),
            None => json_items(v) is None,
        },
{
    match taken_apart(v) {
        Parts::Items(list) => Some(list),
        _ => None,
    }
}

/// The text of a JSON string: what `Value::as_str` returns.
pub uninterp spec fn json_text(v: Value) -> Option<Seq<char>>;

/// `Value::as_str` gives the text of a string, and nothing for any other value.
#[verifier::external_body]
pub(crate) fn text_of(v: &Value) -> (r: Option<String>)
    ensures
        match r {
            Some(s) => json_text(*v) == Some(s@),
            None => json_text(*v) is None,
        },
{
    v.as_str().map(str::to_string)
}

/// The number of a JSON number that is whole and not negative and fits: what
/// `Value::as_u64` returns.
pub uninterp spec fn json_u64(v: Value) -> Option<u64>;

/// `Value::as_u64` gives the number, and nothing for any other value.
#[verifier::external_body]
pub(crate) fn u64_of(v: &Value) -> (r: Option<u64>)
    ensures
        r == json_u64(*v),
{
    v.as_u64()
}

/// Whether a value is JSON's `null`: what `Value::is_null` returns.
pub uninterp spec fn json_null(v: Value) -> bool;

/// `Value::is_null` depends on the value alone.
#[verifier::external_body]
pub(crate) fn is_null(v: &Value) -> (r: bool)
    ensures
        r == json_null(*v),
{
    v.is_null()
}

/// The flag of a JSON boolean: what `Value::as_bool` returns.
pub uninterp spec fn json_bool(v: Value) -> Option<bool>;

/// `Value::as_bool` gives the flag, and nothing for any other value.
#[verifier::external_body]
pub(crate) fn bool_of(v: &Value) -> (r: Option<bool>)
    ensures
        r == json_bool(*v),
{
    v.as_bool()
}

#[verifier::external_type_specification]
#[verifier::external_body]
pub struct ExJsonError(serde_json::Error);

/// What the parser of `serde_json` makes of a text in UTF-8.
pub uninterp spec fn parsed_json(text: Seq<u8>) -> Result<Value, serde_json::Error>;

/// `serde_json::from_slice` reads a JSON value; the same bytes always give the same result.
#[verifier::external_body]
pub(crate) fn parse_json(text: &[u8]) -> (r: Result<Value, serde_json::Error>)
    ensures
        r == parsed_json(text@),
{
    serde_json::from_slice(text)
}

/// The message of an error of the `serde_json` crate.
pub uninterp spec fn json_error_message(e: serde_json::Error) -> Seq<char>;

/// An error of `serde_json` as text, through its `Display`; the same error always reads
/// the same.
#[verifier::external_body]
pub(crate) fn json_error_text(e: &serde_json::Error) -> (r: String)
    ensures
        r@ == json_error_message(*e),
{
    format!("{}", e)
}

// ── Members ─────────────────────────────────────────────────────────────────

/// The position of the member called `name`, or the number of members if there is none.
pub fn position_of(list: &Vec<(String, Value)>, name: &str) -> (r: usize)
    ensures
        r == position(member_texts(list@), name@),
        r <= list@.len(),
{
    let ghost texts = member_texts(list@);
    let n: usize = list.len();
    let mut i: usize = 0;
    while i < n && !same(list[i].0.as_str(), name)
        invariant
            n == list@.len(),
            i <= n,
            texts == member_texts(list@),
            forall|k: int| 0 <= k < i ==> (#[trigger] texts[k]).0 != name@,
        decreases n - i,
    {
        i = i + 1;
    }
    proof {
        lemma_position(texts, name@, i as int);
    }
    i
}

/// Look a member up by its name.
pub fn find_member<'a>(list: &'a Vec<(String, Value)>, name: &str) -> (r: Option<&'a Value>)
    ensures
        match r {
            Some(v) => lookup(member_texts(list@), name@) == Some(*v),
            None => lookup(member_texts(list@), name@) is None,
        },
{
    let i: usize = position_of(list, name);
    if i < list.len() {
        Some(&list[i].1)
    } else {
        None
    }
}

/// Names as texts.
pub open spec fn name_texts(names: Seq<&str>) -> Seq<Seq<char>> {
    names.map_values(|s: &str| s@)
}

/// Items under the names of the fields that they stand for, in order.
pub open spec fn named(list: Seq<Value>, names: Seq<Seq<char>>) -> Seq<(Seq<char>, Value)> {
    Seq::new(list.len(), |i: int| (names[i], list[i]))
}

/// The fields of a record with the fields `names`: an object holds them as its members, an
/// array as its items in the order of the names, and at least `least` of them.
pub open spec fn fields_of(v: Value, names: Seq<Seq<char>>, least: nat) -> Option<
    Seq<(Seq<char>, Value)>,
> {
    match json_members(v) {
        Some(list) => Some(list),
        None => match json_items(v) {
            Some(list) => if least <= list.len() <= names.len() {
                Some(named(list, names))
            } else {
                None
            },
            None => None,
        },
    }
}

/// The fields of a record.
pub(crate) fn fields(v: Value, names: &Vec<&str>, least: usize) -> (r: Option<
    Vec<(String, Value)>,
>)
    ensures
        match r {
            Some(m) => fields_of(v, name_texts(names@), least as nat) == Some(member_texts(m@)),
            None => fields_of(v, name_texts(names@), least as nat) is None,
        },
{
    let list = match taken_apart(v) {
        Parts::Members(m) => {
            return Some(m);
        },
        Parts::Items(list) => list,
        Parts::Whole => {
            return None;
        },
    };
    if list.len() < least || list.len() > names.len() {
        return None;
    }
    let ghost all = list@;
    let ghost texts = name_texts(names@);
    let mut rest = list;
    let mut r: Vec<(String, Value)> = Vec::new();
    proof {
        assert(all.skip(0) == all);
        assert(member_texts(r@) =~= named(all, texts).take(0));
    }
    while rest.len() > 0
        invariant
            texts == name_texts(names@),
            all.len() <= names@.len(),
            r@.len() <= all.len(),
            rest@ == all.skip(r@.len() as int),
            member_texts(r@) == named(all, texts).take(r@.len() as int),
        decreases rest@.len(),
    {
        let ghost n = r@.len() as int;
        let ghost before = r@;
        let item = rest.remove(0);
        proof {
            assert(item == all[n]);
            assert(all.skip(n).remove(0) == all.skip(n + 1));
        }
        r.push((names[r.len()].to_owned(), item));
        proof {
            assert(member_texts(r@) =~= member_texts(before).push((texts[n], all[n])));
            assert(named(all, texts).take(n + 1) =~= named(all, texts).take(n).push(
                named(all, texts)[n],
            ));
        }
    }
    proof {
        assert(named(all, texts).take(all.len() as int) =~= named(all, texts));
    }
    Some(r)
}

/// Whether the member called `name` is a text, `null` or not there.
pub open spec fn is_optional_text(list: Seq<(Seq<char>, Value)>, name: Seq<char>) -> bool {
    lookup(list, name) matches Some(v) ==> json_null(v) || json_text(v) is Some
}

/// The text of the member called `name`, if it has one.
pub open spec fn optional_text_member(list: Seq<(Seq<char>, Value)>, name: Seq<char>) -> Option<
    Seq<char>,
> {
    match lookup(list, name) {
        Some(v) => if json_null(v) {
            None
        } else {
            json_text(v)
        },
        None => None,
    }
}

/// Read the text of a member that need not be there.
pub fn find_optional_text(list: &Vec<(String, Value)>, name: &str) -> (r: Result<
    Option<String>,
    (),
>)
    ensures
        r is Ok <==> is_optional_text(member_texts(list@), name@),
        r matches Ok(o) ==> match o {
            Some(s) => optional_text_member(member_texts(list@), name@) == Some(s@),
            None => optional_text_member(member_texts(list@), name@) is None,
        },
{
    match find_member(list, name) {
        Some(v) => if is_null(v) {
            Ok(None)
        } else {
            match text_of(v) {
                Some(s) => Ok(Some(s)),
                None => Err(()),
            }
        },
        None => Ok(None),
    }
}

// ── Strings ─────────────────────────────────────────────────────────────────

/// A character as it stands inside a JSON string.
pub open spec fn escaped(c: char) -> Seq<char> {
    if c == '"' {
        seq!['\\', '"']
    } else if c == '\\' {
        seq!['\\', '\\']
    } else if c == '\n' {
        seq!['\\', 'n']
    } else if c == '\r' {
        seq!['\\', 'r']
    } else if c == '\t' {
        seq!['\\', 't']
    } else if c as u32 == 8 {
        seq!['\\', 'b']
    } else if c as u32 == 12 {
        seq!['\\', 'f']
    } else if (c as u32) < 32 {
        seq!['\\', 'u'] + hex_text(c as nat, 4)
    } else {
        seq![c]
    }
}

/// A text as it stands inside a JSON string.
pub open spec fn escaped_text(s: Seq<char>) -> Seq<char>
    decreases s.len(),
{
    if s.len() == 0 {
        Seq::empty()
    } else {
        escaped_text(s.drop_last()) + escaped(s.last())
    }
}

/// A text as a JSON string.
pub open spec fn quoted(s: Seq<char>) -> Seq<char> {
    seq!['"'] + escaped_text(s) + seq!['"']
}

/// A string as JSON text, through the `Display` of `Value`: it stands in quotes, with
/// quotes, backslashes and control characters escaped.
#[verifier::external_body]
pub(crate) fn quote(s: &str) -> (r: String)
    ensures
        r@ == quoted(s@),
{
    Value::from(s).to_string()
}

// ── Laws ────────────────────────────────────────────────────────────────────

/// A record is read from an object by the names of its members, whatever their order, or from
/// an array by position: the first item is the field that is named first. An array that is too
/// short or too long is no record, nor is any other value.
pub proof fn law_records_are_objects_or_arrays(
    v: Value,
    names: Seq<Seq<char>>,
    least: nat,
    i: int,
)
    ensures
        json_members(v) matches Some(list) ==> fields_of(v, names, least) == Some(list),
        json_members(v) is None && json_items(v) is None ==> fields_of(v, names, least) is None,
        json_members(v) is None ==> (json_items(v) matches Some(list) ==> {
            &&& list.len() < least || list.len() > names.len() ==> fields_of(v, names, least) is None
            &&& least <= list.len() <= names.len() ==> (fields_of(v, names, least) matches Some(
                fields,
            ) && fields.len() == list.len() && (0 <= i < list.len() ==> fields[i] == (
                names[i],
                list[i],
            )))
        }),
{
}

/// A member that need not be there may be `null`, and then counts as not there; else it has to
/// be a text.
pub proof fn law_null_counts_as_absent(list: Seq<(Seq<char>, Value)>, name: Seq<char>)
    ensures
        lookup(list, name) is None ==> is_optional_text(list, name) && optional_text_member(
            list,
            name,
        ) is None,
        lookup(list, name) matches Some(v) ==> {
            &&& json_null(v) ==> is_optional_text(list, name) && optional_text_member(list, name)
                is None
            &&& !json_null(v) ==> (is_optional_text(list, name) <==> json_text(v) is Some)
                && optional_text_member(list, name) == json_text(v)
        },
{
}

} // verus!

//! Regular expressions of the `regex` crate.

use regex::Regex;
use vstd::prelude::*;

verus! {

#[verifier::external_type_specification]
#[verifier::external_body]
pub struct ExRegex(Regex);

#[verifier::external_type_specification]
#[verifier::external_body]
pub struct ExRegexError(regex::Error);

/// What `Regex::new` makes of a pattern.
pub uninterp spec fn compiled_regex(pattern: Seq<char>) -> Result<Regex, regex::Error>;

/// `Regex::new` compiles the pattern, or says what is wrong with it; the same pattern
/// always gives the same result.
#[verifier::external_body]
pub(crate) fn compile(pattern: &str) -> (r: Result<Regex, regex::Error>)
    ensures
        r == compiled_regex(pattern@),
{
    Regex::new(pattern)
}

/// Whether `Regex::is_match` finds a match of `re` anywhere in `text`.
pub uninterp spec fn regex_matches(re: Regex, text: Seq<char>) -> bool;

/// `Regex::is_match` depends on the expression and the text alone.
#[verifier::external_body]
pub(crate) fn is_match(re: &Regex, text: &str) -> (r: bool)
    ensures
        r == regex_matches(*re, text@),
{
    re.is_match(text)
}

/// The groups of an expression by index, each with its name if it has one: what
/// `Regex::capture_names` lists.
pub uninterp spec fn regex_group_names(re: Regex) -> Seq<Option<Seq<char>>>;

/// The texts that the groups of `re` took in the first match in `text`, by index; none
/// where there is no match.
pub uninterp spec fn regex_groups(re: Regex, text: Seq<char>) -> Option<Seq<Option<Seq<char>>>>;

/// The texts of optional strings.
pub open spec fn optional_texts(v: Seq<Option<String>>) -> Seq<Option<Seq<char>>> {
    v.map_values(
        |o: Option<String>|
            match o {
                Some(s) => Some(s@),
                None => None,
            },
    )
}

/// `Regex::capture_names` lists the names of the groups by index, and depends on the
/// expression alone.
#[verifier::external_body]
pub(crate) fn group_names(re: &Regex) -> (r: Vec<Option<String>>)
    ensures
        optional_texts(r@) == regex_group_names(*re),
{
    re.capture_names().map(|name| name.map(str::to_string)).collect()
}

/// `Regex::captures` finds the first match and gives the text of each group by index,
/// and depends on the expression and the text alone.
#[verifier::external_body]
pub(crate) fn groups(re: &Regex, text: &str) -> (r: Option<Vec<Option<String>>>)
    ensures
        match r {
            Some(v) => regex_groups(*re, text@) == Some(optional_texts(v@)),
            None => regex_groups(*re, text@) is None,
        },
{
    re.captures(text).map(
        |caps| caps.iter().map(|group| group.map(|m| m.as_str().to_string())).collect(),
    )
}

/// The message of an error of the `regex` crate.
pub uninterp spec fn regex_error_message(e: regex::Error) -> Seq<char>;

/// `regex::Error` as text, through its `Display`; the same error always reads the same.
#[verifier::external_body]
pub(crate) fn error_text(e: &regex::Error) -> (r: String)
    ensures
        r@ == regex_error_message(*e),
{
    format!("{}", e)
}

} // verus!

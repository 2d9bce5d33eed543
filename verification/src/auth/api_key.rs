//! API keys.

use vstd::prelude::*;
use vstd::utf8::encode_utf8;

use crate::auth::error::AuthError;
use crate::http_types::{header_contents, header_text, text_under};
use crate::json::{
    bool_of, fields, fields_of, find_member, json_bool, json_error_message, json_error_text,
    json_members, json_text, name_texts, parse_json, parsed_json, text_of,
};
use crate::names::lookup;
use crate::text::join;

verus! {

/// What is stored of an API key.
#[derive(Debug)]
pub struct ApiKeyRecord {
    /// Whom the key belongs to.
    pub subject: String,
    /// Whether the key may still be used.
    pub active: bool,
}

/// The names of the fields of a record, in order.
pub open spec fn record_fields() -> Seq<Seq<char>> {
    seq!["subject"@, "active"@]
}

/// What keeps a text from being a record of an API key.
pub open spec fn record_problem(json: Seq<char>) -> Option<Seq<char>> {
    match parsed_json(encode_utf8(json)) {
        Err(e) => Some(json_error_message(e)),
        Ok(value) => match fields_of(value, record_fields(), 1) {
            None => Some("not a record"@),
            Some(list) => match lookup(list, "subject"@) {
                None => Some("missing field `subject`"@),
                Some(v) => if json_text(v) is None {
                    Some("invalid field `subject`"@)
                } else if lookup(list, "active"@) matches Some(flag) && json_bool(flag) is None {
                    Some("invalid field `active`"@)
                } else {
                    None
                },
            },
        },
    }
}

/// Whether `record` is the record that a text holds: a key is active unless the text says
/// otherwise.
pub open spec fn is_record(json: Seq<char>, record: ApiKeyRecord) -> bool {
    &&& parsed_json(encode_utf8(json)) matches Ok(value) && fields_of(
        value,
        record_fields(),
        1,
    ) matches Some(list) && {
        &&& lookup(list, "subject"@) matches Some(v) && json_text(v) == Some(record.subject@)
        &&& record.active == match lookup(list, "active"@) {
            Some(flag) => json_bool(flag)->0,
            None => true,
        }
    }
}

impl ApiKeyRecord {
    /// Read a record.
    pub fn parse(json: &str) -> (r: Result<Self, AuthError>)
        ensures
            match r {
                Ok(record) => record_problem(json@) is None && is_record(json@, record),
                Err(e) => e matches AuthError::ApiKeyStore(m) && record_problem(json@) matches Some(
                    what,
                ) && m@ == "corrupt key record: "@ + what,
            },
    {
        let value = match parse_json(json.as_bytes()) {
            Ok(value) => value,
            Err(e) => {
                let text = json_error_text(&e);
                return Err(corrupt(text.as_str()));
            },
        };
        let names: Vec<&str> = vec!["subject", "active"];
        proof {
            assert(name_texts(names@) =~= record_fields());
        }
        let list = match fields(value, &names, 1) {
            Some(list) => list,
            None => {
                return Err(corrupt("not a record"));
            },
        };
        let subject = match find_member(&list, "subject") {
            None => {
                return Err(corrupt("missing field `subject`"));
            },
            Some(v) => match text_of(v) {
                Some(s) => s,
                None => {
                    return Err(corrupt("invalid field `subject`"));
                },
            },
        };
        let active = match find_member(&list, "active") {
            None => true,
            Some(v) => match bool_of(v) {
                Some(flag) => flag,
                None => {
                    return Err(corrupt("invalid field `active`"));
                },
            },
        };
        Ok(ApiKeyRecord { subject, active })
    }
}

fn corrupt(what: &str) -> (r: AuthError)
    ensures
        r matches AuthError::ApiKeyStore(m) && m@ == "corrupt key record: "@ + what@,
{
    AuthError::ApiKeyStore(join("corrupt key record: ", what))
}

/// The API key of a request: the value of its `X-Api-Key` header.
pub fn extract_api_key(headers: &http::HeaderMap) -> (r: Result<String, AuthError>)
    ensures
        match r {
            Ok(key) => text_under(header_contents(*headers), "x-api-key"@) == Some(key@),
            Err(e) => text_under(header_contents(*headers), "x-api-key"@) is None && e
                == AuthError::MissingApiKey,
        },
{
    match header_text(headers, "x-api-key") {
        Some(key) => Ok(key),
        None => Err(AuthError::MissingApiKey),
    }
}

/// Judges API keys by what is stored of them.
#[derive(Debug)]
pub struct ApiKeyProvider {
    pub prefix: String,
}

impl ApiKeyProvider {
    /// The name under which a key is stored.
    pub fn store_name(&self, raw_key: &str) -> (r: String)
        ensures
            r@ == self.prefix@ + raw_key@,
    {
        join(self.prefix.as_str(), raw_key)
    }

    /// Judge a key by the reply of the store: a failure of the store, nothing, or a text.
    pub fn judge(&self, reply: Result<Option<String>, String>) -> (r: Result<
        ApiKeyRecord,
        AuthError,
    >)
        ensures
            match reply {
                Err(m) => r == Err::<ApiKeyRecord, AuthError>(AuthError::ApiKeyStore(m)),
                Ok(None) => r == Err::<ApiKeyRecord, AuthError>(AuthError::InvalidApiKey),
                Ok(Some(json)) => match record_problem(json@) {
                    Some(what) => r matches Err(AuthError::ApiKeyStore(m)) && m@
                        == "corrupt key record: "@ + what,
                    None => match r {
                        Ok(record) => is_record(json@, record) && record.active,
                        Err(e) => e == AuthError::InvalidApiKey && exists|record: ApiKeyRecord|
                            is_record(json@, record) && !record.active,
                    },
                },
            },
    {
        match reply {
            Err(m) => Err(AuthError::ApiKeyStore(m)),
            Ok(None) => Err(AuthError::InvalidApiKey),
            Ok(Some(json)) => match ApiKeyRecord::parse(json.as_str()) {
                Ok(record) => if record.active {
                    Ok(record)
                } else {
                    Err(AuthError::InvalidApiKey)
                },
                Err(e) => Err(e),
            },
        }
    }
}

// ── Laws ────────────────────────────────────────────────────────────────────

/// The record of a key has to say in a text whom the key belongs to. A key is active unless its
/// record says that it is not, and what the record says of that has to be true or false.
pub proof fn law_keys_are_active_unless_told(
    json: Seq<char>,
    value: serde_json::Value,
    list: Seq<(Seq<char>, serde_json::Value)>,
    record: ApiKeyRecord,
)
    requires
        parsed_json(encode_utf8(json)) == Ok::<serde_json::Value, serde_json::Error>(value),
        json_members(value) == Some(list),
    ensures
        record_problem(json) is None <==> {
            &&& lookup(list, "subject"@) matches Some(v) && json_text(v) is Some
            &&& lookup(list, "active"@) matches Some(flag) ==> json_bool(flag) is Some
        },
        is_record(json, record) ==> {
            &&& lookup(list, "subject"@) matches Some(v) && json_text(v) == Some(record.subject@)
            &&& lookup(list, "active"@) is None ==> record.active
            &&& lookup(list, "active"@) matches Some(flag) ==> (json_bool(flag) == Some(true)
                ==> record.active) && (json_bool(flag) == Some(false) ==> !record.active)
        },
{
}

} // verus!

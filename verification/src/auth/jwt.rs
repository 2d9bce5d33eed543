//! Bearer tokens.

use std::time::SystemTime;

use http::{HeaderMap, Uri};
use jsonwebtoken::{Algorithm, DecodingKey};
use serde_json::Value;
use vstd::prelude::*;

use crate::auth::context::{
    lemma_claims_are_members, lemma_expiry_is_read, lemma_extra_claim_is_member,
    lemma_first_bad_claim_bounds, opt_text, reads_claims, Claims,
};
use crate::auth::error::AuthError;
use crate::clock::{duration_nanos, unix_secs};
use crate::config::schema::JwtConfig;
use crate::http_types::{
    header_contents, header_text, parse_uri, parsed_uri, text_under, uri_error_message,
    uri_error_text,
};
use crate::json::{
    fields, fields_of, find_member, find_optional_text, is_optional_text, items,
    json_error_message, json_error_text, json_items, json_members, json_null, json_text, json_u64,
    member_texts, name_texts, optional_text_member, parse_json, parsed_json, position_of, text_of,
};
use crate::names::{distinct_names, lemma_position_found, lookup, position};
use crate::text::{clone_texts, has_prefix, join, same, strip_prefix, views};

verus! {

// ── The `jsonwebtoken` crate ────────────────────────────────────────────────

#[verifier::external_type_specification]
#[verifier::external_body]
pub struct ExAlgorithm(Algorithm);

#[verifier::external_type_specification]
#[verifier::external_body]
pub struct ExDecodingKey(DecodingKey);

#[verifier::external_type_specification]
#[verifier::external_body]
pub struct ExTokenError(jsonwebtoken::errors::Error);

/// A signature algorithm.
#[derive(Debug, Clone, Copy, PartialEq, Eq, Structural)]
pub enum TokenAlg {
    HS256,
    HS384,
    HS512,
    ES256,
    ES384,
    RS256,
    RS384,
    RS512,
    PS256,
    PS384,
    PS512,
    EdDSA,
}

/// Which algorithm a value of `jsonwebtoken` stands for.
pub uninterp spec fn token_alg(a: Algorithm) -> TokenAlg;

/// `Algorithm` told apart by its variants, each to the one of the same name.
#[verifier::external_body]
fn alg_of(a: Algorithm) -> (r: TokenAlg)
    ensures
        r == token_alg(a),
{
    match a {
        Algorithm::HS256 => TokenAlg::HS256, Algorithm::HS384 => TokenAlg::HS384,
        Algorithm::HS512 => TokenAlg::HS512, Algorithm::ES256 => TokenAlg::ES256,
        Algorithm::ES384 => TokenAlg::ES384, Algorithm::RS256 => TokenAlg::RS256,
        Algorithm::RS384 => TokenAlg::RS384, Algorithm::RS512 => TokenAlg::RS512,
        Algorithm::PS256 => TokenAlg::PS256, Algorithm::PS384 => TokenAlg::PS384,
        Algorithm::PS512 => TokenAlg::PS512, Algorithm::EdDSA => TokenAlg::EdDSA,
    }
}

/// The `Algorithm` of the same name.
#[verifier::external_body]
fn algorithm_of(alg: TokenAlg) -> (r: Algorithm)
    ensures
        token_alg(r) == alg,
{
    match alg {
        TokenAlg::HS256 => Algorithm::HS256, TokenAlg::HS384 => Algorithm::HS384,
        TokenAlg::HS512 => Algorithm::HS512, TokenAlg::ES256 => Algorithm::ES256,
        TokenAlg::ES384 => Algorithm::ES384, TokenAlg::RS256 => Algorithm::RS256,
        TokenAlg::RS384 => Algorithm::RS384, TokenAlg::RS512 => Algorithm::RS512,
        TokenAlg::PS256 => Algorithm::PS256, TokenAlg::PS384 => Algorithm::PS384,
        TokenAlg::PS512 => Algorithm::PS512, TokenAlg::EdDSA => Algorithm::EdDSA,
    }
}

/// The key identifier and the algorithm in the header of a token: what `decode_header`
/// reads.
pub uninterp spec fn token_header(token: Seq<char>) -> Result<
    (Option<Seq<char>>, Algorithm),
    jsonwebtoken::errors::Error,
>;

/// `decode_header` reads the header of a token without checking its signature; the same
/// token always gives the same result.
#[verifier::external_body]
fn read_header(token: &str) -> (r: Result<(Option<String>, Algorithm), jsonwebtoken::errors::Error>)
    ensures
        match r {
            Ok((kid, alg)) => token_header(token@) == Ok::<_, jsonwebtoken::errors::Error>(
                (opt_text(kid), alg),
            ),
            Err(e) => token_header(token@) == Err::<(Option<Seq<char>>, Algorithm), _>(e),
        },
{
    jsonwebtoken::decode_header(token).map(|h| (h.kid, h.alg))
}

/// What `DecodingKey::from_rsa_components` makes of a modulus and an exponent.
pub uninterp spec fn rsa_key(n: Seq<char>, e: Seq<char>) -> Result<
    DecodingKey,
    jsonwebtoken::errors::Error,
>;

/// `DecodingKey::from_rsa_components` decodes the two parts of an RSA key, and depends on
/// them alone.
#[verifier::external_body]
fn make_rsa_key(n: &str, e: &str) -> (r: Result<DecodingKey, jsonwebtoken::errors::Error>)
    ensures
        r == rsa_key(n@, e@),
{
    DecodingKey::from_rsa_components(n, e)
}

/// What `DecodingKey::from_ec_components` makes of two coordinates.
pub uninterp spec fn ec_key(x: Seq<char>, y: Seq<char>) -> Result<
    DecodingKey,
    jsonwebtoken::errors::Error,
>;

/// `DecodingKey::from_ec_components` decodes the two coordinates of an elliptic-curve
/// key, and depends on them alone.
#[verifier::external_body]
fn make_ec_key(x: &str, y: &str) -> (r: Result<DecodingKey, jsonwebtoken::errors::Error>)
    ensures
        r == ec_key(x@, y@),
{
    DecodingKey::from_ec_components(x, y)
}

/// The message of an error of the `jsonwebtoken` crate.
pub uninterp spec fn token_error_message(e: jsonwebtoken::errors::Error) -> Seq<char>;

/// An error of `jsonwebtoken` as text, through its `Display`; the same error always reads
/// the same.
#[verifier::external_body]
fn token_error_text(e: &jsonwebtoken::errors::Error) -> (r: String)
    ensures
        r@ == token_error_message(*e),
{
    format!("{}", e)
}

/// The claims of a token whose signature holds under a key and an algorithm, and whose claims
/// can be read: what `decode` returns of it where it does not refuse the claims.
pub uninterp spec fn signed_claims(token: Seq<char>, key: DecodingKey, alg: Algorithm) -> Option<
    Value,
>;

/// Whether a claim names one of the accepted values: the text that it is, or one in the
/// list of texts that it is.
pub open spec fn names_one_of(v: Value, accepted: Seq<Seq<char>>) -> bool {
    &&& json_text(v) matches Some(name) ==> accepted.contains(name)
    &&& json_items(v) matches Some(items) ==> (forall|i: int|
        0 <= i < items.len() ==> json_text(#[trigger] items[i]) is Some) ==> exists|i: int|
        0 <= i < items.len() && accepted.contains(json_text(#[trigger] items[i])->0)
}

/// How far the clock of an issuer may be off, in seconds.
pub const LEEWAY_SECS: u64 = 60;

/// The number of the member called `name`, if it is one.
pub open spec fn member_u64(list: Seq<(Seq<char>, Value)>, name: Seq<char>) -> Option<u64> {
    match lookup(list, name) {
        Some(v) => json_u64(v),
        None => None,
    }
}

/// Whether claims have not expired at `now`, and whether they count already.
pub open spec fn times_fit(
    list: Seq<(Seq<char>, Value)>,
    check_exp: bool,
    check_nbf: bool,
    now: u64,
) -> bool {
    &&& check_exp ==> (member_u64(list, "exp"@) matches Some(exp) ==> now <= exp + LEEWAY_SECS)
    &&& check_nbf ==> (member_u64(list, "nbf"@) matches Some(nbf) ==> nbf <= now + LEEWAY_SECS)
}

/// Whether the member called `name` is not there, or is one of the accepted texts.
pub open spec fn absent_or_accepted(
    list: Seq<(Seq<char>, Value)>,
    name: Seq<char>,
    accepted: Seq<Seq<char>>,
) -> bool {
    lookup(list, name) matches Some(v) ==> (json_text(v) matches Some(text) && accepted.contains(
        text,
    ))
}

/// Whether nothing can be said against claims at `now`: they hold an expiry, their times are
/// numbers and fit, and an issuer or audience that they hold is an accepted text.
pub open spec fn is_beyond_doubt(
    claims: Value,
    issuers: Seq<Seq<char>>,
    audience: Seq<Seq<char>>,
    now: u64,
) -> bool {
    &&& now >= LEEWAY_SECS
    &&& json_members(claims) matches Some(list) && {
        &&& member_u64(list, "exp"@) is Some
        &&& lookup(list, "nbf"@) is Some ==> member_u64(list, "nbf"@) is Some
        &&& times_fit(list, true, true, now)
        &&& absent_or_accepted(list, "iss"@, issuers)
        &&& absent_or_accepted(list, "aud"@, audience)
    }
}

/// `decode` checks the signature of a token under a key and its claims under a
/// `Validation` made of the other arguments, at one reading of the clock of the machine.
///
/// Where it succeeds, the claims are those of the token, signed under the key; the header
/// of the token can be read and names the algorithm asked for; the claims hold an expiry,
/// and an issuer or audience that they hold is an accepted one. At the reading, an expiry
/// lies no more than the leeway of `Validation::new` back, and a time before which the token
/// does not count no more than that ahead, where these are asked for.
///
/// Where it fails though the signature holds and the claims can be read, something can be said
/// against the claims at the reading. The clock has to stand after the first minute of 1970.
#[verifier::external_body]
fn decode_token(
    token: &str,
    key: &DecodingKey,
    alg: Algorithm,
    rules: &TokenRules,
) -> (r: Result<Value, jsonwebtoken::errors::Error>)
    ensures
        r matches Ok(claims) ==> signed_claims(token@, *key, alg) == Some(claims),
        r matches Ok(claims) ==> (token_header(token@) matches Ok((kid, used)) && used == alg),
        r matches Ok(claims) ==> (json_members(claims) matches Some(list) ==> {
            &&& lookup(list, "exp"@) matches Some(v) && !json_null(v)
            &&& lookup(list, "iss"@) matches Some(v) ==> names_one_of(v, views(rules.issuers@))
            &&& lookup(list, "aud"@) matches Some(v) ==> names_one_of(v, views(rules.audience@))
        }),
        r matches Ok(claims) ==> (json_members(claims) matches Some(list) ==> exists|t: SystemTime|
            times_fit(list, rules.validate_exp, rules.validate_nbf, #[trigger] unix_secs(t))),
        r is Err ==> (signed_claims(token@, *key, alg) matches Some(claims) ==> exists|
            t: SystemTime,
        |
            !is_beyond_doubt(
                claims,
                views(rules.issuers@),
                views(rules.audience@),
                #[trigger] unix_secs(t),
            )),
{
    let mut v = jsonwebtoken::Validation::new(alg);
    v.set_audience(&rules.audience);
    v.set_issuer(&rules.issuers);
    v.validate_exp = rules.validate_exp;
    v.validate_nbf = rules.validate_nbf;
    jsonwebtoken::decode::<Value>(token, key, &v).map(|data| data.claims)
}

// ── Keys ────────────────────────────────────────────────────────────────────

/// A key as a key server publishes it.
#[derive(Debug)]
pub struct Jwk {
    pub key_id: Option<String>,
    pub key_type: String,
    /// The modulus of an RSA key.
    pub n: Option<String>,
    /// The exponent of an RSA key.
    pub e: Option<String>,
    /// The curve of an elliptic-curve key.
    pub crv: Option<String>,
    /// The coordinates of an elliptic-curve key.
    pub x: Option<String>,
    pub y: Option<String>,
}

fn clone_opt(o: &Option<String>) -> (r: Option<String>)
    ensures
        r == *o,
{
    match o {
        Some(s) => Some(s.clone()),
        None => None,
    }
}

impl Clone for Jwk {
    fn clone(&self) -> (r: Self)
        ensures
            r == *self,
    {
        Jwk {
            key_id: clone_opt(&self.key_id),
            key_type: self.key_type.clone(),
            n: clone_opt(&self.n),
            e: clone_opt(&self.e),
            crv: clone_opt(&self.crv),
            x: clone_opt(&self.x),
            y: clone_opt(&self.y),
        }
    }
}

/// The first of `keys` that is called `kid`.
pub open spec fn key_called(keys: Seq<Jwk>, kid: Seq<char>) -> Option<Jwk>
    decreases keys.len(),
{
    if keys.len() == 0 {
        None
    } else if opt_text(keys[0].key_id) == Some(kid) {
        Some(keys[0])
    } else {
        key_called(keys.skip(1), kid)
    }
}

/// The key for a token: the one that the token names, or the first if it names none.
pub open spec fn key_for(keys: Seq<Jwk>, kid: Option<Seq<char>>) -> Option<Jwk> {
    match kid {
        Some(kid) => key_called(keys, kid),
        None => if keys.len() > 0 {
            Some(keys[0])
        } else {
            None
        },
    }
}

/// The text of an optional argument.
pub open spec fn arg_text(o: Option<&str>) -> Option<Seq<char>> {
    match o {
        Some(s) => Some(s@),
        None => None,
    }
}

/// The names of the fields of a published key, in order.
pub open spec fn jwk_fields() -> Seq<Seq<char>> {
    seq!["kid"@, "kty"@, "n"@, "e"@, "crv"@, "x"@, "y"@]
}

/// What keeps a JSON value from being a published key.
pub open spec fn jwk_problem(value: Value) -> Option<Seq<char>> {
    match fields_of(value, jwk_fields(), 7) {
        None => Some("not a key"@),
        Some(list) => if lookup(list, "kty"@) is None {
            Some("missing field `kty`"@)
        } else if json_text(lookup(list, "kty"@)->0) is None {
            Some("invalid field `kty`"@)
        } else if !is_optional_text(list, "kid"@) {
            Some("invalid field `kid`"@)
        } else if !is_optional_text(list, "n"@) {
            Some("invalid field `n`"@)
        } else if !is_optional_text(list, "e"@) {
            Some("invalid field `e`"@)
        } else if !is_optional_text(list, "crv"@) {
            Some("invalid field `crv`"@)
        } else if !is_optional_text(list, "x"@) {
            Some("invalid field `x`"@)
        } else if !is_optional_text(list, "y"@) {
            Some("invalid field `y`"@)
        } else {
            None
        },
    }
}

/// Whether `jwk` is the key that a JSON value publishes.
pub open spec fn is_jwk(value: Value, jwk: Jwk) -> bool {
    &&& jwk_problem(value) is None
    &&& fields_of(value, jwk_fields(), 7) matches Some(list) && {
        &&& json_text(lookup(list, "kty"@)->0) == Some(jwk.key_type@)
        &&& opt_text(jwk.key_id) == optional_text_member(list, "kid"@)
        &&& opt_text(jwk.n) == optional_text_member(list, "n"@)
        &&& opt_text(jwk.e) == optional_text_member(list, "e"@)
        &&& opt_text(jwk.crv) == optional_text_member(list, "crv"@)
        &&& opt_text(jwk.x) == optional_text_member(list, "x"@)
        &&& opt_text(jwk.y) == optional_text_member(list, "y"@)
    }
}

/// What keeps the first of `values` that is no published key from being one.
pub open spec fn keys_problem(values: Seq<Value>) -> Option<Seq<char>>
    decreases values.len(),
{
    if values.len() == 0 {
        None
    } else if jwk_problem(values[0]) is Some {
        jwk_problem(values[0])
    } else {
        keys_problem(values.skip(1))
    }
}

/// What keeps the reply of a key server from being a list of published keys.
pub open spec fn jwks_problem(body: Seq<u8>) -> Option<Seq<char>> {
    match parsed_json(body) {
        Err(e) => Some(json_error_message(e)),
        Ok(value) => match fields_of(value, seq!["keys"@], 1) {
            None => Some("not a list of keys"@),
            Some(list) => match lookup(list, "keys"@) {
                None => Some("missing field `keys`"@),
                Some(v) => match json_items(v) {
                    None => Some("invalid field `keys`"@),
                    Some(values) => keys_problem(values),
                },
            },
        },
    }
}

/// Whether `keys` are the keys in the reply of a key server.
pub open spec fn is_jwks(body: Seq<u8>, keys: Seq<Jwk>) -> bool {
    parsed_json(body) matches Ok(value) && fields_of(
        value,
        seq!["keys"@],
        1,
    ) matches Some(list) && lookup(list, "keys"@) matches Some(v) && json_items(v) matches Some(values) && values.len() == keys.len() && (
    forall|i: int| 0 <= i < keys.len() ==> is_jwk(values[i], #[trigger] keys[i]))
}

fn field(list: &Vec<(String, Value)>, name: &str, problem: &str) -> (r: Result<
    Option<String>,
    String,
>)
    ensures
        match r {
            Ok(o) => is_optional_text(member_texts(list@), name@) && opt_text(o)
                == optional_text_member(member_texts(list@), name@),
            Err(m) => !is_optional_text(member_texts(list@), name@) && m@ == problem@,
        },
{
    match find_optional_text(list, name) {
        Ok(o) => Ok(o),
        Err(_) => Err(problem.to_owned()),
    }
}

fn parse_jwk(value: Value) -> (r: Result<Jwk, String>)
    ensures
        match r {
            Ok(jwk) => is_jwk(value, jwk),
            Err(m) => jwk_problem(value) == Some(m@),
        },
{
    let names: Vec<&str> = vec!["kid", "kty", "n", "e", "crv", "x", "y"];
    proof {
        assert(name_texts(names@) =~= jwk_fields());
    }
    let list = match fields(value, &names, 7) {
        Some(list) => list,
        None => {
            return Err("not a key".to_owned());
        },
    };
    let key_type = match find_member(&list, "kty") {
        None => {
            return Err("missing field `kty`".to_owned());
        },
        Some(v) => match text_of(v) {
            Some(s) => s,
            None => {
                return Err("invalid field `kty`".to_owned());
            },
        },
    };
    let key_id = match field(&list, "kid", "invalid field `kid`") {
        Ok(o) => o,
        Err(m) => {
            return Err(m);
        },
    };
    let n = match field(&list, "n", "invalid field `n`") {
        Ok(o) => o,
        Err(m) => {
            return Err(m);
        },
    };
    let e = match field(&list, "e", "invalid field `e`") {
        Ok(o) => o,
        Err(m) => {
            return Err(m);
        },
    };
    let crv = match field(&list, "crv", "invalid field `crv`") {
        Ok(o) => o,
        Err(m) => {
            return Err(m);
        },
    };
    let x = match field(&list, "x", "invalid field `x`") {
        Ok(o) => o,
        Err(m) => {
            return Err(m);
        },
    };
    let y = match field(&list, "y", "invalid field `y`") {
        Ok(o) => o,
        Err(m) => {
            return Err(m);
        },
    };
    Ok(Jwk { key_id, key_type, n, e, crv, x, y })
}

fn parse_keys(values: Vec<Value>) -> (r: Result<Vec<Jwk>, String>)
    ensures
        match r {
            Ok(keys) => {
                &&& keys_problem(values@) is None
                &&& keys@.len() == values@.len()
                &&& forall|i: int|
                    0 <= i < keys@.len() ==> is_jwk(values@[i], #[trigger] keys@[i])
            },
            Err(m) => keys_problem(values@) == Some(m@),
        },
{
    let ghost all = values@;
    let mut rest = values;
    let mut keys: Vec<Jwk> = Vec::new();
    proof {
        assert(all.skip(0) == all);
    }
    while rest.len() > 0
        invariant
            all == values@,
            keys@.len() <= all.len(),
            rest@ == all.skip(keys@.len() as int),
            keys_problem(all) == keys_problem(rest@),
            forall|i: int| 0 <= i < keys@.len() ==> is_jwk(all[i], #[trigger] keys@[i]),
        decreases rest@.len(),
    {
        let ghost before = rest@;
        let value = rest.remove(0);
        proof {
            assert(before.skip(1) == rest@);
            assert(all.skip(keys@.len() as int)[0] == all[keys@.len() as int]);
            assert(all.skip(keys@.len() as int).remove(0) == all.skip(keys@.len() as int + 1));
        }
        match parse_jwk(value) {
            Ok(jwk) => {
                keys.push(jwk);
            },
            Err(m) => {
                return Err(m);
            },
        }
    }
    Ok(keys)
}

/// Whether the answer of a key server can be read at all: its status has to tell of
/// success.
pub fn jwks_answered(status: u16, status_text: &str) -> (r: Result<(), AuthError>)
    ensures
        match r {
            Ok(_) => 200 <= status < 300,
            Err(e) => !(200 <= status < 300) && (e matches AuthError::JwksFetch(m) && m@
                == "JWKS endpoint returned "@ + status_text@),
        },
{
    if status >= 200 && status < 300 {
        Ok(())
    } else {
        Err(AuthError::JwksFetch(join("JWKS endpoint returned ", status_text)))
    }
}

/// Read the reply of a key server.
pub fn parse_jwks(body: &[u8]) -> (r: Result<Vec<Jwk>, AuthError>)
    ensures
        match r {
            Ok(keys) => jwks_problem(body@) is None && is_jwks(body@, keys@),
            Err(e) => e matches AuthError::JwksFetch(m) && jwks_problem(body@) matches Some(what)
                && m@ == "invalid JWKS JSON: "@ + what,
        },
{
    let value = match parse_json(body) {
        Ok(value) => value,
        Err(e) => {
            let text = json_error_text(&e);
            return Err(invalid_jwks(text.as_str()));
        },
    };
    let names: Vec<&str> = vec!["keys"];
    proof {
        assert(name_texts(names@) =~= seq!["keys"@]);
    }
    let mut list = match fields(value, &names, 1) {
        Some(list) => list,
        None => {
            return Err(invalid_jwks("not a list of keys"));
        },
    };
    let ghost texts = member_texts(list@);
    let at: usize = position_of(&list, "keys");
    if at == list.len() {
        return Err(invalid_jwks("missing field `keys`"));
    }
    let (name, found) = list.remove(at);
    proof {
        assert(texts[at as int] == (name@, found));
    }
    match items(found) {
        None => Err(invalid_jwks("invalid field `keys`")),
        Some(values) => match parse_keys(values) {
            Ok(keys) => Ok(keys),
            Err(m) => Err(invalid_jwks(m.as_str())),
        },
    }
}

fn invalid_jwks(what: &str) -> (r: AuthError)
    ensures
        r matches AuthError::JwksFetch(m) && m@ == "invalid JWKS JSON: "@ + what@,
{
    AuthError::JwksFetch(join("invalid JWKS JSON: ", what))
}

/// Keys as they were fetched.
#[derive(Debug)]
pub struct KeyCache {
    pub keys: Vec<Jwk>,
    /// When they were fetched, in nanoseconds of the clock that does not jump.
    pub fetched_at: u64,
    /// How long they count as fresh.
    pub ttl: std::time::Duration,
}

impl KeyCache {
    /// Whether the keys are older at `now` than they may be.
    pub open spec fn expired(&self, now: u64) -> bool {
        now - self.fetched_at > duration_nanos(self.ttl)
    }

    pub fn is_expired(&self, now: u64) -> (r: bool)
        ensures
            r == self.expired(now),
    {
        now.saturating_sub(self.fetched_at) as u128 > self.ttl.as_nanos()
    }

    /// The key for a token.
    pub fn find_key(&self, kid: Option<&str>) -> (r: Option<&Jwk>)
        ensures
            match r {
                Some(key) => key_for(self.keys@, arg_text(kid)) == Some(*key),
                None => key_for(self.keys@, arg_text(kid)) is None,
            },
    {
        match kid {
            Some(wanted) => {
                proof {
                    assert(self.keys@.skip(0) == self.keys@);
                }
                for i in 0..self.keys.len()
                    invariant
                        arg_text(kid) == Some(wanted@),
                        key_called(self.keys@, wanted@) == key_called(self.keys@.skip(i as int), wanted@),
                {
                    proof {
                        assert(self.keys@.skip(i as int)[0] == self.keys@[i as int]);
                        assert(self.keys@.skip(i as int).skip(1) == self.keys@.skip(i + 1));
                    }
                    if let Some(id) = &self.keys[i].key_id {
                        if same(id.as_str(), wanted) {
                            return Some(&self.keys[i]);
                        }
                    }
                }
                None
            },
            None => if self.keys.len() > 0 {
                Some(&self.keys[0])
            } else {
                None
            },
        }
    }
}

/// What a search for a key comes to.
#[derive(Debug)]
pub enum KeyLookup {
    Found(Jwk),
    Unknown(AuthError),
    /// The keys have to be fetched first.
    Fetch,
}

/// Whether `e` says that no key is called `kid`.
pub open spec fn is_unknown(e: AuthError, kid: Option<Seq<char>>) -> bool {
    e matches AuthError::UnknownKid(name) && name@ == match kid {
        Some(kid) => kid,
        None => "(none)"@,
    }
}

/// Whether `r` is the answer that `keys` give for `kid`.
pub open spec fn answers(r: Result<Jwk, AuthError>, keys: Seq<Jwk>, kid: Option<Seq<char>>) -> bool {
    match r {
        Ok(key) => key_for(keys, kid) == Some(key),
        Err(e) => key_for(keys, kid) is None && is_unknown(e, kid),
    }
}

fn unknown_kid(kid: Option<&str>) -> (r: AuthError)
    ensures
        is_unknown(r, arg_text(kid)),
{
    match kid {
        Some(kid) => AuthError::UnknownKid(kid.to_owned()),
        None => AuthError::UnknownKid("(none)".to_owned()),
    }
}

fn answer(cache: &KeyCache, kid: Option<&str>) -> (r: Result<Jwk, AuthError>)
    ensures
        answers(r, cache.keys@, arg_text(kid)),
{
    match cache.find_key(kid) {
        Some(key) => Ok(key.clone()),
        None => Err(unknown_kid(kid)),
    }
}

// ── Tokens ──────────────────────────────────────────────────────────────────

/// Checks bearer tokens under the keys of a key server.
///
/// The keys are kept for a while. When they have to be fetched anew and that fails, the
/// old ones go on being used.
#[derive(Debug)]
pub struct JwtProvider {
    pub config: JwtConfig,
    pub key_cache: Option<KeyCache>,
}

/// What the header of a token says.
#[derive(Debug)]
pub struct TokenHeader {
    pub kid: Option<String>,
    pub alg: TokenAlg,
}

/// What a token is checked for.
#[derive(Debug)]
pub struct TokenRules {
    pub alg: TokenAlg,
    pub audience: Vec<String>,
    pub issuers: Vec<String>,
    pub validate_exp: bool,
    pub validate_nbf: bool,
}

/// Whether tokens may be signed with an algorithm: RSA or elliptic curves. A shared
/// secret does not belong in a gateway.
pub open spec fn is_supported(alg: TokenAlg) -> bool {
    match alg {
        TokenAlg::RS256 | TokenAlg::RS384 | TokenAlg::RS512 | TokenAlg::ES256 | TokenAlg::ES384 =>
            true,
        _ => false,
    }
}

/// The algorithm that a token is checked under: its own if that is supported, else one
/// under which the check fails.
pub open spec fn checked_alg(alg: TokenAlg) -> TokenAlg {
    if is_supported(alg) {
        alg
    } else {
        TokenAlg::RS256
    }
}

/// The token of a request: what stands behind `Bearer ` in its `Authorization` header.
pub open spec fn bearer_of(headers: Map<Seq<char>, Seq<Seq<u8>>>) -> Option<Seq<char>> {
    match text_under(headers, "authorization"@) {
        Some(value) => if has_prefix(value, "Bearer "@) {
            Some(value.skip("Bearer "@.len() as int))
        } else {
            None
        },
        None => None,
    }
}

/// Take the token from the headers of a request.
pub fn extract_bearer(headers: &http::HeaderMap) -> (r: Result<String, AuthError>)
    ensures
        match r {
            Ok(token) => bearer_of(header_contents(*headers)) == Some(token@),
            Err(e) => bearer_of(header_contents(*headers)) is None && e == AuthError::MissingToken,
        },
{
    match header_text(headers, "authorization") {
        Some(value) => match strip_prefix(value.as_str(), "Bearer ") {
            Some(token) => Ok(token),
            None => Err(AuthError::MissingToken),
        },
        None => Err(AuthError::MissingToken),
    }
}

/// Read the header of a token.
pub fn parse_header(token: &str) -> (r: Result<TokenHeader, AuthError>)
    ensures
        match (token_header(token@), r) {
            (Ok((kid, alg)), Ok(h)) => opt_text(h.kid) == kid && h.alg == token_alg(alg),
            (Err(e), Err(AuthError::InvalidToken(m))) => m@ == "malformed header: "@
                + token_error_message(e),
            _ => false,
        },
{
    match read_header(token) {
        Ok((kid, alg)) => Ok(TokenHeader { kid, alg: alg_of(alg) }),
        Err(e) => {
            let text = token_error_text(&e);
            Err(AuthError::InvalidToken(join("malformed header: ", text.as_str())))
        },
    }
}

/// The key to check signatures under, or what is wrong with a published key.
pub open spec fn is_decoding_key(jwk: Jwk, r: Result<DecodingKey, AuthError>) -> bool {
    if jwk.key_type@ == "RSA"@ {
        if jwk.n is None {
            r matches Err(AuthError::InvalidToken(m)) && m@ == "RSA JWK missing `n`"@
        } else if jwk.e is None {
            r matches Err(AuthError::InvalidToken(m)) && m@ == "RSA JWK missing `e`"@
        } else {
            match rsa_key(jwk.n->0@, jwk.e->0@) {
                Ok(key) => r == Ok::<DecodingKey, AuthError>(key),
                Err(e) => r matches Err(AuthError::InvalidToken(m)) && m@ == "RSA key error: "@
                    + token_error_message(e),
            }
        }
    } else if jwk.key_type@ == "EC"@ {
        if jwk.x is None {
            r matches Err(AuthError::InvalidToken(m)) && m@ == "EC JWK missing `x`"@
        } else if jwk.y is None {
            r matches Err(AuthError::InvalidToken(m)) && m@ == "EC JWK missing `y`"@
        } else {
            match ec_key(jwk.x->0@, jwk.y->0@) {
                Ok(key) => r == Ok::<DecodingKey, AuthError>(key),
                Err(e) => r matches Err(AuthError::InvalidToken(m)) && m@ == "EC key error: "@
                    + token_error_message(e),
            }
        }
    } else {
        r matches Err(AuthError::InvalidToken(m)) && m@ == "unsupported key type: "@
            + jwk.key_type@
    }
}

/// Turn a published key into one to check signatures under.
pub fn jwk_to_decoding_key(jwk: &Jwk) -> (r: Result<DecodingKey, AuthError>)
    ensures
        is_decoding_key(*jwk, r),
{
    if same(jwk.key_type.as_str(), "RSA") {
        match (&jwk.n, &jwk.e) {
            (None, _) => Err(AuthError::InvalidToken("RSA JWK missing `n`".to_owned())),
            (_, None) => Err(AuthError::InvalidToken("RSA JWK missing `e`".to_owned())),
            (Some(n), Some(e)) => match make_rsa_key(n.as_str(), e.as_str()) {
                Ok(key) => Ok(key),
                Err(e) => {
                    let text = token_error_text(&e);
                    Err(AuthError::InvalidToken(join("RSA key error: ", text.as_str())))
                },
            },
        }
    } else if same(jwk.key_type.as_str(), "EC") {
        match (&jwk.x, &jwk.y) {
            (None, _) => Err(AuthError::InvalidToken("EC JWK missing `x`".to_owned())),
            (_, None) => Err(AuthError::InvalidToken("EC JWK missing `y`".to_owned())),
            (Some(x), Some(y)) => match make_ec_key(x.as_str(), y.as_str()) {
                Ok(key) => Ok(key),
                Err(e) => {
                    let text = token_error_text(&e);
                    Err(AuthError::InvalidToken(join("EC key error: ", text.as_str())))
                },
            },
        }
    } else {
        Err(AuthError::InvalidToken(join("unsupported key type: ", jwk.key_type.as_str())))
    }
}

/// The rules for a token whose header names `alg`.
pub fn build_validation(cfg: &JwtConfig, alg: TokenAlg) -> (r: TokenRules)
    ensures
        r.alg == checked_alg(alg),
        views(r.audience@) == views(cfg.audience@),
        views(r.issuers@) == views(cfg.issuers@),
        r.validate_exp,
        r.validate_nbf,
{
    let alg = match alg {
        TokenAlg::RS256 | TokenAlg::RS384 | TokenAlg::RS512 | TokenAlg::ES256 | TokenAlg::ES384 =>
            alg,
        _ => TokenAlg::RS256,
    };
    TokenRules {
        alg,
        audience: clone_texts(&cfg.audience),
        issuers: clone_texts(&cfg.issuers),
        validate_exp: true,
        validate_nbf: true,
    }
}

/// Turn the outcome of decoding a token into claims.
pub fn claims_of(decoded: Result<Value, jsonwebtoken::errors::Error>) -> (r: Result<
    Claims,
    AuthError,
>)
    ensures
        match decoded {
            Ok(value) => {
                &&& reads_claims(value, r)
                &&& json_members(value) matches Some(list) ==> distinct_names(list)
            },
            Err(e) => r matches Err(AuthError::InvalidToken(m)) && m@ == token_error_message(e),
        },
{
    match decoded {
        Ok(value) => Claims::from_json(value),
        Err(e) => Err(AuthError::InvalidToken(token_error_text(&e))),
    }
}

/// Whether the claims name an accepted issuer and an accepted audience, where they name
/// one.
pub open spec fn is_meant_for(claims: Claims, cfg: JwtConfig) -> bool {
    &&& claims.iss matches Some(iss) ==> views(cfg.issuers@).contains(iss@)
    &&& claims.aud matches Some(v) ==> names_one_of(v, views(cfg.audience@))
}

/// Whether claims are those that a token carries, signed under a published key.
pub open spec fn carries(token: Seq<char>, jwk: Jwk, alg: TokenAlg, claims: Claims) -> bool {
    exists|key: DecodingKey, a: Algorithm|
        is_decoding_key(jwk, Ok(key)) && token_alg(a) == alg && (#[trigger] signed_claims(
            token,
            key,
            a,
        ) matches Some(value) && reads_claims(value, Ok(claims)))
}

/// Whether claims have not expired at `now`, and whether they count already.
pub open spec fn is_in_time(claims: Claims, now: u64) -> bool {
    &&& claims.exp matches Some(exp) && now <= exp + LEEWAY_SECS
    &&& member_u64(member_texts(claims.extra@), "nbf"@) matches Some(nbf) ==> nbf <= now
        + LEEWAY_SECS
}

/// Whether there is a reason to refuse a token under a key with the error `e`: its signature
/// does not hold or its claims cannot be read, something can be said against the claims at a
/// reading of the clock, or they are not of the form that claims have.
pub open spec fn is_refused(
    token: Seq<char>,
    key: DecodingKey,
    alg: TokenAlg,
    cfg: JwtConfig,
    e: AuthError,
) -> bool {
    exists|a: Algorithm|
        token_alg(a) == alg && match #[trigger] signed_claims(token, key, a) {
            None => true,
            Some(claims) => {
                ||| is_doubted(claims, cfg)
                ||| reads_claims(claims, Err(e))
            },
        }
}

/// Whether something can be said against claims at a reading of the clock.
pub open spec fn is_doubted(claims: Value, cfg: JwtConfig) -> bool {
    exists|t: SystemTime|
        !is_beyond_doubt(
            claims,
            views(cfg.issuers@),
            views(cfg.audience@),
            #[trigger] unix_secs(t),
        )
}

/// Whether `r` is what checking a token under a published key comes to, with an algorithm
/// that its header names: its claims, if it is signed under the key with a supported
/// algorithm, meant for this gateway and in time; else an error.
pub open spec fn is_verdict(
    r: Result<Claims, AuthError>,
    token: Seq<char>,
    named: TokenAlg,
    jwk: Jwk,
    cfg: JwtConfig,
) -> bool {
    match r {
        Ok(claims) => {
            &&& token_header(token) matches Ok((kid, alg)) && is_supported(token_alg(alg))
                && token_alg(alg) == checked_alg(named)
            &&& is_meant_for(claims, cfg)
            &&& exists|t: SystemTime| is_in_time(claims, #[trigger] unix_secs(t))
            &&& carries(token, jwk, checked_alg(named), claims)
        },
        Err(e) => is_decoding_key(jwk, Err(e)) || (e is InvalidToken && exists|key: DecodingKey|
            #[trigger] is_decoding_key(jwk, Ok(key)) && is_refused(
                token,
                key,
                checked_alg(named),
                cfg,
                e,
            )),
    }
}

/// Whether `r` is what checking a token comes to under the one of `keys` that it names.
pub open spec fn is_verdict_under(
    r: Result<Claims, AuthError>,
    token: Seq<char>,
    kid: Option<Seq<char>>,
    named: TokenAlg,
    keys: Seq<Jwk>,
    cfg: JwtConfig,
) -> bool {
    match key_for(keys, kid) {
        Some(jwk) => is_verdict(r, token, named, jwk, cfg),
        None => r matches Err(e) && is_unknown(e, kid),
    }
}

/// The address of the key server.
pub fn jwks_uri(url: &str) -> (r: Result<Uri, AuthError>)
    ensures
        match parsed_uri(url@) {
            Ok(uri) => r == Ok::<Uri, AuthError>(uri),
            Err(e) => r matches Err(AuthError::JwksFetch(m)) && m@ == "invalid JWKS URL: "@
                + uri_error_message(e),
        },
{
    match parse_uri(url) {
        Ok(uri) => Ok(uri),
        Err(e) => {
            let text = uri_error_text(&e);
            Err(AuthError::JwksFetch(join("invalid JWKS URL: ", text.as_str())))
        },
    }
}

/// A token that is being checked: the token of a request, and what its header says.
#[derive(Debug)]
pub struct TokenCheck {
    token: String,
    header: TokenHeader,
}

fn kid_of(header: &TokenHeader) -> (r: Option<&str>)
    ensures
        arg_text(r) == opt_text(header.kid),
{
    match &header.kid {
        Some(kid) => Some(kid.as_str()),
        None => None,
    }
}

impl TokenCheck {
    pub closed spec fn token(&self) -> Seq<char> {
        self.token@
    }

    /// The key that the token names.
    pub closed spec fn kid(&self) -> Option<Seq<char>> {
        opt_text(self.header.kid)
    }

    /// The algorithm that the token names.
    pub closed spec fn alg(&self) -> TokenAlg {
        self.header.alg
    }
}

/// What checking a token needs next.
#[derive(Debug)]
pub enum TokenState {
    /// The keys of the key server have to be fetched.
    NeedsKeys(TokenCheck),
    Finished(Result<Claims, AuthError>),
}

/// Whether a state is where checking the token of a request stands at first: a request
/// without a token, or with one whose header cannot be read, is refused.
pub open spec fn refused_at_once(
    headers: Map<Seq<char>, Seq<Seq<u8>>>,
    state: TokenState,
) -> bool {
    match bearer_of(headers) {
        None => state matches TokenState::Finished(Err(AuthError::MissingToken)),
        Some(token) => match token_header(token) {
            Err(e) => state matches TokenState::Finished(Err(AuthError::InvalidToken(m))) && m@
                == "malformed header: "@ + token_error_message(e),
            Ok(_) => false,
        },
    }
}

/// Whether a request has a token whose header can be read.
pub open spec fn has_token(headers: Map<Seq<char>, Seq<Seq<u8>>>) -> bool {
    bearer_of(headers) matches Some(token) && token_header(token) is Ok
}

/// Whether `check` is about the token of a request.
pub open spec fn is_check_of(check: TokenCheck, headers: Map<Seq<char>, Seq<Seq<u8>>>) -> bool {
    &&& bearer_of(headers) == Some(check.token())
    &&& token_header(check.token()) matches Ok((kid, alg)) && check.kid() == kid && check.alg()
        == token_alg(alg)
}

impl JwtProvider {
    /// A provider without keys yet.
    pub fn new(config: JwtConfig) -> (r: Self)
        ensures
            r.config == config,
            r.key_cache is None,
    {
        JwtProvider { config, key_cache: None }
    }

    /// Whether the provider has keys that count as fresh at `now`.
    pub open spec fn is_fresh(&self, now: u64) -> bool {
        self.key_cache matches Some(cache) && !cache.expired(now)
    }

    /// Look for the key of a token among those that are kept.
    pub fn lookup_key(&self, kid: Option<&str>, now: u64) -> (r: KeyLookup)
        ensures
            if self.is_fresh(now) {
                let keys = self.key_cache->0.keys@;
                match r {
                    KeyLookup::Found(key) => answers(Ok(key), keys, arg_text(kid)),
                    KeyLookup::Unknown(e) => answers(Err(e), keys, arg_text(kid)),
                    KeyLookup::Fetch => false,
                }
            } else {
                r is Fetch
            },
    {
        match &self.key_cache {
            Some(cache) => if cache.is_expired(now) {
                KeyLookup::Fetch
            } else {
                match answer(cache, kid) {
                    Ok(key) => KeyLookup::Found(key),
                    Err(e) => KeyLookup::Unknown(e),
                }
            },
            None => KeyLookup::Fetch,
        }
    }

    /// Keep the keys that were fetched, and look for the key of a token. Where fetching
    /// failed, look among those that were kept before.
    pub fn after_fetch(
        &mut self,
        fetched: Result<Vec<Jwk>, AuthError>,
        kid: Option<&str>,
        now: u64,
    ) -> (r: Result<Jwk, AuthError>)
        ensures
            final(self).config == old(self).config,
            match fetched {
                Ok(keys) => {
                    &&& final(self).key_cache matches Some(cache) && cache.keys == keys
                        && cache.fetched_at == now && cache.ttl == old(self).config.jwks_cache_ttl
                    &&& answers(r, keys@, arg_text(kid))
                },
                Err(e) => {
                    &&& final(self).key_cache == old(self).key_cache
                    &&& match old(self).key_cache {
                        Some(cache) => answers(r, cache.keys@, arg_text(kid)),
                        None => r == Err::<Jwk, AuthError>(e),
                    }
                },
            },
    {
        match fetched {
            Ok(keys) => {
                let cache = KeyCache { keys, fetched_at: now, ttl: self.config.jwks_cache_ttl };
                let found = answer(&cache, kid);
                self.key_cache = Some(cache);
                found
            },
            Err(e) => match &self.key_cache {
                Some(cache) => answer(cache, kid),
                None => Err(e),
            },
        }
    }

    /// Check a token under a key, and read its claims.
    pub fn validate_token(&self, token: &str, header: &TokenHeader, jwk: &Jwk) -> (r: Result<
        Claims,
        AuthError,
    >)
        ensures
            is_verdict(r, token@, header.alg, *jwk, self.config),
    {
        let key = match jwk_to_decoding_key(jwk) {
            Ok(key) => key,
            Err(e) => {
                return Err(e);
            },
        };
        let rules = build_validation(&self.config, header.alg);
        let alg = algorithm_of(rules.alg);
        let decoded = decode_token(token, &key, alg, &rules);
        proof {
            assert(is_decoding_key(*jwk, Ok(key)));
        }
        let claims = claims_of(decoded);
        proof {
            if decoded is Ok && claims is Ok {
                assert(signed_claims(token@, key, alg) == Some(decoded->Ok_0));
                let list = json_members(decoded->Ok_0)->0;
                lemma_claims_are_members(list, list.len() as int);
                lemma_position_found(list, "exp"@);
                lemma_first_bad_claim_bounds(list);
                lemma_expiry_is_read(list, position(list, "exp"@), list.len() as int);
                lemma_extra_claim_is_member(list, "nbf"@);
                let t = choose|t: SystemTime|
                    times_fit(list, rules.validate_exp, rules.validate_nbf, #[trigger] unix_secs(t));
                assert(is_in_time(claims->Ok_0, unix_secs(t)));
            }
            if claims is Err {
                let e = claims->Err_0;
                if decoded is Err && signed_claims(token@, key, alg) is Some {
                    let value = signed_claims(token@, key, alg)->0;
                    assert(is_doubted(value, self.config));
                }
                assert(is_refused(token@, key, checked_alg(header.alg), self.config, e));
            }
        }
        claims
    }

    /// Begin to check the token of a request. The keys that are kept are used if they count as
    /// fresh at `now`.
    pub fn verify(&self, headers: &HeaderMap, now: u64) -> (r: TokenState)
        ensures
            ({
                let contents = header_contents(*headers);
                if !has_token(contents) {
                    refused_at_once(contents, r)
                } else {
                    let token = bearer_of(contents)->0;
                    let (kid, alg) = token_header(token)->Ok_0;
                    if self.is_fresh(now) {
                        r matches TokenState::Finished(verdict) && is_verdict_under(
                            verdict,
                            token,
                            kid,
                            token_alg(alg),
                            self.key_cache->0.keys@,
                            self.config,
                        )
                    } else {
                        r matches TokenState::NeedsKeys(check) && is_check_of(check, contents)
                    }
                }
            }),
    {
        let token = match extract_bearer(headers) {
            Ok(token) => token,
            Err(e) => {
                return TokenState::Finished(Err(e));
            },
        };
        let header = match parse_header(token.as_str()) {
            Ok(header) => header,
            Err(e) => {
                return TokenState::Finished(Err(e));
            },
        };
        self.look_again(TokenCheck { token, header }, now)
    }

    /// Go on with a token for which keys were needed, in case they have been fetched since.
    pub fn look_again(&self, check: TokenCheck, now: u64) -> (r: TokenState)
        ensures
            if self.is_fresh(now) {
                r matches TokenState::Finished(verdict) && is_verdict_under(
                    verdict,
                    check.token(),
                    check.kid(),
                    check.alg(),
                    self.key_cache->0.keys@,
                    self.config,
                )
            } else {
                r == TokenState::NeedsKeys(check)
            },
    {
        let found = self.lookup_key(kid_of(&check.header), now);
        match found {
            KeyLookup::Found(jwk) => TokenState::Finished(
                self.validate_token(check.token.as_str(), &check.header, &jwk),
            ),
            KeyLookup::Unknown(e) => TokenState::Finished(Err(e)),
            KeyLookup::Fetch => TokenState::NeedsKeys(check),
        }
    }

    /// Go on with a token after the keys were fetched at `now`: they are kept, and the token is
    /// checked under the one that it names. Where fetching failed, those that were kept before
    /// are used.
    pub fn keys_fetched(
        &mut self,
        check: &TokenCheck,
        fetched: Result<Vec<Jwk>, AuthError>,
        now: u64,
    ) -> (r: Result<Claims, AuthError>)
        ensures
            final(self).config == old(self).config,
            match fetched {
                Ok(keys) => {
                    &&& final(self).key_cache matches Some(cache) && cache.keys == keys
                        && cache.fetched_at == now && cache.ttl == old(self).config.jwks_cache_ttl
                    &&& is_verdict_under(
                        r,
                        check.token(),
                        check.kid(),
                        check.alg(),
                        keys@,
                        old(self).config,
                    )
                },
                Err(e) => {
                    &&& final(self).key_cache == old(self).key_cache
                    &&& match old(self).key_cache {
                        Some(cache) => is_verdict_under(
                            r,
                            check.token(),
                            check.kid(),
                            check.alg(),
                            cache.keys@,
                            old(self).config,
                        ),
                        None => r == Err::<Claims, AuthError>(e),
                    }
                },
            },
    {
        match self.after_fetch(fetched, kid_of(&check.header), now) {
            Ok(jwk) => self.validate_token(check.token.as_str(), &check.header, &jwk),
            Err(e) => Err(e),
        }
    }
}

// ── Laws ────────────────────────────────────────────────────────────────────

proof fn lemma_key_called(keys: Seq<Jwk>, kid: Seq<char>, i: int)
    requires
        0 <= i <= keys.len(),
        forall|j: int| 0 <= j < i ==> opt_text((#[trigger] keys[j]).key_id) != Some(kid),
        i < keys.len() ==> opt_text(keys[i].key_id) == Some(kid),
    ensures
        key_called(keys, kid) == if i < keys.len() {
            Some(keys[i])
        } else {
            None
        },
    decreases keys.len(),
{
    if i > 0 {
        assert forall|j: int| 0 <= j < i - 1 implies opt_text((#[trigger] keys.skip(1)[j]).key_id)
            != Some(kid) by {
            assert(keys.skip(1)[j] == keys[j + 1]);
        }
        assert(opt_text(keys[0].key_id) != Some(kid));
        lemma_key_called(keys.skip(1), kid, i - 1);
    }
}

/// A token that names a key is checked under the first key of that very name, and under none
/// where no key is called so; a token that names none is checked under the first key.
pub proof fn law_tokens_name_their_key(keys: Seq<Jwk>, kid: Seq<char>, i: int)
    ensures
        0 <= i < keys.len() && opt_text(keys[i].key_id) == Some(kid) && (forall|j: int|
            0 <= j < i ==> opt_text((#[trigger] keys[j]).key_id) != Some(kid)) ==> key_for(
            keys,
            Some(kid),
        ) == Some(keys[i]),
        (forall|j: int| 0 <= j < keys.len() ==> opt_text((#[trigger] keys[j]).key_id) != Some(kid))
            ==> key_for(keys, Some(kid)) is None,
        keys.len() > 0 ==> key_for(keys, None) == Some(keys[0]),
        keys.len() == 0 ==> key_for(keys, None) is None,
{
    if 0 <= i < keys.len() && opt_text(keys[i].key_id) == Some(kid) && (forall|j: int|
        0 <= j < i ==> opt_text((#[trigger] keys[j]).key_id) != Some(kid)) {
        lemma_key_called(keys, kid, i);
    }
    if forall|j: int| 0 <= j < keys.len() ==> opt_text((#[trigger] keys[j]).key_id) != Some(kid) {
        lemma_key_called(keys, kid, keys.len() as int);
    }
}

/// A token that names a key which is not there is refused in the name of that key, whatever
/// else it says; where it names none, and there is none, it is refused as well.
pub proof fn law_unknown_keys_are_refused(
    r: Result<Claims, AuthError>,
    token: Seq<char>,
    kid: Seq<char>,
    named: TokenAlg,
    keys: Seq<Jwk>,
    cfg: JwtConfig,
)
    requires
        forall|j: int| 0 <= j < keys.len() ==> opt_text((#[trigger] keys[j]).key_id) != Some(kid),
    ensures
        is_verdict_under(r, token, Some(kid), named, keys, cfg) ==> (r matches Err(
            AuthError::UnknownKid(name),
        ) && name@ == kid),
        keys.len() == 0 && is_verdict_under(r, token, None, named, keys, cfg) ==> (r matches Err(
            AuthError::UnknownKid(name),
        ) && name@ == "(none)"@),
{
    law_tokens_name_their_key(keys, kid, 0);
}

/// Tokens are checked with RSA or elliptic curves alone: of the twelve algorithms the three of
/// RSA and the two of elliptic curves are supported. A token that names any other is checked
/// under one that it was not signed with.
pub proof fn law_shared_secrets_are_refused(alg: TokenAlg)
    ensures
        is_supported(alg) <==> alg == TokenAlg::RS256 || alg == TokenAlg::RS384 || alg
            == TokenAlg::RS512 || alg == TokenAlg::ES256 || alg == TokenAlg::ES384,
        alg == TokenAlg::HS256 || alg == TokenAlg::HS384 || alg == TokenAlg::HS512
            ==> !is_supported(alg) && checked_alg(alg) != alg,
        is_supported(alg) ==> checked_alg(alg) == alg,
        is_supported(checked_alg(alg)),
        !is_supported(alg) ==> checked_alg(alg) == TokenAlg::RS256,
{
}

/// The token is what stands behind `Bearer ` in the `Authorization` header, as it stands there;
/// a header that does not begin with this very word and one space holds none.
pub proof fn law_bearer_tokens(headers: Map<Seq<char>, Seq<Seq<u8>>>, token: Seq<char>)
    ensures
        text_under(headers, "authorization"@) is None ==> bearer_of(headers) is None,
        text_under(headers, "authorization"@) == Some("Bearer "@ + token) ==> bearer_of(headers)
            == Some(token),
        bearer_of(headers) == Some(token) ==> text_under(headers, "authorization"@) == Some(
            "Bearer "@ + token,
        ),
{
    let word = "Bearer "@;
    let value = word + token;
    assert(value.subrange(0, word.len() as int) == word);
    assert(value.skip(word.len() as int) == token);
    if let Some(v) = text_under(headers, "authorization"@) {
        if has_prefix(v, word) {
            assert(v == v.subrange(0, word.len() as int) + v.skip(word.len() as int));
        }
    }
}

/// Keys count as fresh up to the very end of their time, and no longer; a clock that goes back
/// does not make them old.
pub proof fn law_keys_grow_old(cache: KeyCache, provider: JwtProvider, now: u64)
    ensures
        cache.expired(now) <==> now > cache.fetched_at + duration_nanos(cache.ttl),
        now <= cache.fetched_at ==> !cache.expired(now),
        provider.key_cache is None ==> !provider.is_fresh(now),
        provider.key_cache matches Some(c) ==> (provider.is_fresh(now) <==> now <= c.fetched_at
            + duration_nanos(c.ttl)),
{
}

/// A token is accepted only if it is signed under the key with a supported algorithm that its
/// own header names, has not expired more than a minute ago, does not start to count more than
/// a minute from now, and names an accepted issuer where it names one.
pub proof fn law_accepted_tokens(
    claims: Claims,
    token: Seq<char>,
    named: TokenAlg,
    jwk: Jwk,
    cfg: JwtConfig,
)
    requires
        is_verdict(Ok(claims), token, named, jwk, cfg),
    ensures
        token_header(token) matches Ok((kid, alg)) && (token_alg(alg) == TokenAlg::RS256
            || token_alg(alg) == TokenAlg::RS384 || token_alg(alg) == TokenAlg::RS512 || token_alg(
            alg,
        ) == TokenAlg::ES256 || token_alg(alg) == TokenAlg::ES384),
        claims.iss matches Some(iss) ==> exists|i: int|
            0 <= i < cfg.issuers@.len() && (#[trigger] cfg.issuers@[i])@ == iss@,
        exists|t: SystemTime|
            {
                let now = #[trigger] unix_secs(t);
                &&& claims.exp matches Some(exp) && now <= exp + 60
                &&& lookup(member_texts(claims.extra@), "nbf"@) matches Some(v) ==> (json_u64(
                    v,
                ) matches Some(nbf) ==> nbf <= now + 60)
            },
        exists|key: DecodingKey, a: Algorithm|
            is_decoding_key(jwk, Ok(key)) && is_supported(token_alg(a)) && (
            #[trigger] signed_claims(token, key, a) matches Some(value) && reads_claims(
                value,
                Ok(claims),
            )),
{
    if let Some(iss) = claims.iss {
        let i = choose|i: int| 0 <= i < views(cfg.issuers@).len() && views(cfg.issuers@)[i] == iss@;
        assert(cfg.issuers@[i]@ == iss@);
    }
    let t = choose|t: SystemTime| is_in_time(claims, #[trigger] unix_secs(t));
    let now = unix_secs(t);
    assert(claims.exp matches Some(exp) && now <= exp + 60);
    law_shared_secrets_are_refused(named);
}

/// A published key of type `RSA` is made of its modulus and its exponent, one of type `EC` of
/// its two coordinates, and one of any other type cannot be used.
pub proof fn law_keys_are_made_of_their_parts(jwk: Jwk, r: Result<DecodingKey, AuthError>)
    requires
        is_decoding_key(jwk, r),
    ensures
        jwk.key_type@ == "RSA"@ ==> (r is Ok <==> jwk.n is Some && jwk.e is Some && rsa_key(
            jwk.n->0@,
            jwk.e->0@,
        ) is Ok) && (r matches Ok(key) ==> rsa_key(jwk.n->0@, jwk.e->0@)->Ok_0 == key),
        jwk.key_type@ == "EC"@ ==> (r is Ok <==> jwk.x is Some && jwk.y is Some && ec_key(
            jwk.x->0@,
            jwk.y->0@,
        ) is Ok) && (r matches Ok(key) ==> ec_key(jwk.x->0@, jwk.y->0@)->Ok_0 == key),
        jwk.key_type@ != "RSA"@ && jwk.key_type@ != "EC"@ ==> r is Err,
        r matches Err(e) ==> e is InvalidToken,
{
    reveal_strlit("RSA");
    reveal_strlit("EC");
    assert("RSA"@.len() == 3 && "EC"@.len() == 2);
}

/// The object that publishes a key has to say its type in a text; everything else in it may be
/// a text, `null` or missing, and is read as it stands.
pub proof fn law_published_keys_are_read(value: Value, list: Seq<(Seq<char>, Value)>, jwk: Jwk)
    requires
        json_members(value) == Some(list),
    ensures
        jwk_problem(value) is None <==> {
            &&& lookup(list, "kty"@) matches Some(v) && json_text(v) is Some
            &&& lookup(list, "kid"@) matches Some(v) ==> json_null(v) || json_text(v) is Some
            &&& lookup(list, "n"@) matches Some(v) ==> json_null(v) || json_text(v) is Some
            &&& lookup(list, "e"@) matches Some(v) ==> json_null(v) || json_text(v) is Some
            &&& lookup(list, "crv"@) matches Some(v) ==> json_null(v) || json_text(v) is Some
            &&& lookup(list, "x"@) matches Some(v) ==> json_null(v) || json_text(v) is Some
            &&& lookup(list, "y"@) matches Some(v) ==> json_null(v) || json_text(v) is Some
        },
        is_jwk(value, jwk) ==> {
            &&& lookup(list, "kty"@) matches Some(v) && json_text(v) == Some(jwk.key_type@)
            &&& opt_text(jwk.key_id) == optional_text_member(list, "kid"@)
            &&& opt_text(jwk.n) == optional_text_member(list, "n"@)
            &&& opt_text(jwk.e) == optional_text_member(list, "e"@)
            &&& opt_text(jwk.x) == optional_text_member(list, "x"@)
            &&& opt_text(jwk.y) == optional_text_member(list, "y"@)
        },
{
}

/// One key that cannot be read spoils the whole reply of a key server, and nothing but such a
/// key does.
pub proof fn law_one_bad_key_spoils_all(values: Seq<Value>)
    ensures
        keys_problem(values) is None <==> forall|i: int|
            0 <= i < values.len() ==> jwk_problem(#[trigger] values[i]) is None,
    decreases values.len(),
{
    if values.len() > 0 {
        let rest = values.skip(1);
        law_one_bad_key_spoils_all(rest);
        if jwk_problem(values[0]) is None {
            if keys_problem(rest) is None {
                assert forall|i: int| 0 <= i < values.len() implies jwk_problem(
                    #[trigger] values[i],
                ) is None by {
                    if i > 0 {
                        assert(rest[i - 1] == values[i]);
                    }
                }
            } else {
                let i = choose|i: int|
                    0 <= i < rest.len() && jwk_problem(#[trigger] rest[i]) is Some;
                assert(values[i + 1] == rest[i]);
            }
        }
    }
}

/// A token may be a minute past its end, and a minute before its beginning, but no more. A time
/// that is not checked, or that the token does not give, does not count against it.
pub proof fn law_times_count_with_a_minute_of_leeway(list: Seq<(Seq<char>, Value)>, now: u64)
    ensures
        times_fit(list, false, false, now),
        member_u64(list, "exp"@) matches Some(exp) ==> (times_fit(list, true, false, now) <==> now
            <= exp + 60),
        member_u64(list, "nbf"@) matches Some(nbf) ==> (times_fit(list, false, true, now) <==> now
            + 60 >= nbf),
        member_u64(list, "exp"@) is None ==> times_fit(list, true, false, now),
        member_u64(list, "nbf"@) is None ==> times_fit(list, false, true, now),
        times_fit(list, true, true, now) <==> times_fit(list, true, false, now) && times_fit(
            list,
            false,
            true,
            now,
        ),
{
}

/// A key is handed out exactly if it is the one that is looked for; else the name that was not
/// found is told.
pub proof fn law_answers_are_the_keys_sought(
    r: Result<Jwk, AuthError>,
    keys: Seq<Jwk>,
    kid: Option<Seq<char>>,
)
    requires
        answers(r, keys, kid),
    ensures
        r is Ok <==> key_for(keys, kid) is Some,
        r matches Ok(key) ==> key_for(keys, kid) == Some(key),
        r matches Err(e) ==> (e matches AuthError::UnknownKid(name) && (kid matches Some(sought)
            ==> name@ == sought)),
{
}

/// The token that is checked is the one that the request carries, with the key and the
/// algorithm that its own header names.
pub proof fn law_checks_are_of_the_token_sent(
    check: TokenCheck,
    headers: Map<Seq<char>, Seq<Seq<u8>>>,
)
    requires
        is_check_of(check, headers),
    ensures
        bearer_of(headers) == Some(check.token()),
        token_header(check.token()) is Ok,
        token_header(check.token())->Ok_0.0 == check.kid(),
        token_alg(token_header(check.token())->Ok_0.1) == check.alg(),
{
}

} // verus!

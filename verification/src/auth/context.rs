//! Who a request comes from.

use serde_json::Value;
use vstd::prelude::*;

use crate::auth::error::AuthError;
use crate::json::{
    is_null, json_members, json_null, json_text, json_u64, member_texts, members, text_of, u64_of,
};
use crate::names::{distinct_names, lemma_position, lemma_position_found, lookup, position};
use crate::text::{join3, same, split_words, views, words};

verus! {

/// A caller whose identity is certain.
#[derive(Debug)]
pub struct AuthContext {
    /// Who the caller is: the subject of the token, else the owner of the API key, else
    /// the subject of the certificate.
    pub subject: String,
    /// The mechanisms that were passed.
    pub mechanisms: Vec<AuthMechanism>,
    /// The claims of the token, if there was one.
    pub claims: Option<Claims>,
    /// The identity in the certificate, if there was one.
    pub peer_identity: Option<PeerIdentity>,
}

#[derive(Debug, Clone, Copy, PartialEq, Eq, Structural)]
pub enum AuthMechanism {
    Jwt,
    ApiKey,
    Mtls,
}

/// The claims of a token.
#[derive(Debug)]
pub struct Claims {
    /// Whom the token is about.
    pub sub: String,
    /// Who issued it.
    pub iss: Option<String>,
    /// Whom it is meant for: a name or a list of names.
    pub aud: Option<Value>,
    /// When it expires, in seconds since the start of 1970.
    pub exp: Option<u64>,
    /// What it allows, separated by spaces.
    pub scope: Option<String>,
    /// All other claims.
    pub extra: Vec<(String, Value)>,
}

/// The identity in a client certificate.
#[derive(Debug)]
pub struct PeerIdentity {
    pub subject_dn: String,
    pub issuer_dn: String,
    /// The SHA-256 digest of the certificate, in hexadecimal digits.
    pub fingerprint: String,
}

/// Claims as they are read, member by member.
pub struct ClaimsView {
    pub sub: Option<Seq<char>>,
    pub iss: Option<Seq<char>>,
    pub aud: Option<Value>,
    pub exp: Option<u64>,
    pub scope: Option<Seq<char>>,
    pub extra: Seq<(Seq<char>, Value)>,
}

pub open spec fn no_claims() -> ClaimsView {
    ClaimsView { sub: None, iss: None, aud: None, exp: None, scope: None, extra: Seq::empty() }
}

/// Whether a member can be the claim of its name: texts and numbers have to be such, and
/// all but `sub` may be `null`.
pub open spec fn is_claim(name: Seq<char>, value: Value) -> bool {
    if name == "sub"@ {
        json_text(value) is Some
    } else if name == "iss"@ || name == "scope"@ {
        json_null(value) || json_text(value) is Some
    } else if name == "exp"@ {
        json_null(value) || json_u64(value) is Some
    } else {
        true
    }
}

/// The value of a text claim; none for `null`.
pub open spec fn optional_text(value: Value) -> Option<Seq<char>> {
    if json_null(value) {
        None
    } else {
        json_text(value)
    }
}

/// `claims` with one member more.
pub open spec fn with_claim(claims: ClaimsView, name: Seq<char>, value: Value) -> ClaimsView {
    if name == "sub"@ {
        ClaimsView { sub: json_text(value), ..claims }
    } else if name == "iss"@ {
        ClaimsView { iss: optional_text(value), ..claims }
    } else if name == "aud"@ {
        ClaimsView { aud: if json_null(value) { None } else { Some(value) }, ..claims }
    } else if name == "exp"@ {
        ClaimsView { exp: if json_null(value) { None } else { json_u64(value) }, ..claims }
    } else if name == "scope"@ {
        ClaimsView { scope: optional_text(value), ..claims }
    } else {
        ClaimsView { extra: claims.extra.push((name, value)), ..claims }
    }
}

/// The claims that the first `n` members make.
pub open spec fn claims_upto(list: Seq<(Seq<char>, Value)>, n: int) -> ClaimsView
    decreases n,
{
    if n <= 0 {
        no_claims()
    } else {
        with_claim(claims_upto(list, n - 1), list[n - 1].0, list[n - 1].1)
    }
}

/// The position of the first member that cannot be a claim, or the number of members.
pub open spec fn first_bad_claim(list: Seq<(Seq<char>, Value)>) -> int
    decreases list.len(),
{
    if list.len() == 0 || !is_claim(list[0].0, list[0].1) {
        0
    } else {
        1 + first_bad_claim(list.skip(1))
    }
}

proof fn lemma_first_bad_claim(list: Seq<(Seq<char>, Value)>, n: int)
    requires
        0 <= n <= list.len(),
        forall|i: int| 0 <= i < n ==> is_claim((#[trigger] list[i]).0, list[i].1),
        n < list.len() ==> !is_claim(list[n].0, list[n].1),
    ensures
        first_bad_claim(list) == n,
    decreases list.len(),
{
    if n > 0 {
        assert(is_claim(list[0].0, list[0].1));
        assert forall|i: int| 0 <= i < n - 1 implies is_claim(
            (#[trigger] list.skip(1)[i]).0,
            list.skip(1)[i].1,
        ) by {
            assert(list.skip(1)[i] == list[i + 1]);
        }
        lemma_first_bad_claim(list.skip(1), n - 1);
    }
}

/// Every claim that was read stands among the members under its name.
pub proof fn lemma_claims_are_members(list: Seq<(Seq<char>, Value)>, n: int)
    requires
        0 <= n <= list.len(),
        distinct_names(list),
    ensures
        claims_upto(list, n).iss matches Some(iss) ==> (lookup(list, "iss"@) matches Some(v)
            && json_text(v) == Some(iss)),
        claims_upto(list, n).aud matches Some(aud) ==> lookup(list, "aud"@) == Some(aud),
    decreases n,
{
    if n > 0 {
        lemma_claims_are_members(list, n - 1);
        lemma_names_differ();
        let name = list[n - 1].0;
        if name == "iss"@ || name == "aud"@ {
            lemma_position(list, name, n - 1);
        }
    }
}

/// The claims that are not read by themselves are members too.
proof fn lemma_extra_claims_are_members(list: Seq<(Seq<char>, Value)>, n: int, k: int)
    requires
        0 <= n <= list.len(),
        0 <= k < claims_upto(list, n).extra.len(),
    ensures
        exists|i: int| 0 <= i < n && #[trigger] list[i] == claims_upto(list, n).extra[k],
    decreases n,
{
    if n > 0 {
        let before = claims_upto(list, n - 1).extra;
        if k < before.len() {
            lemma_extra_claims_are_members(list, n - 1, k);
            let i = choose|i: int| 0 <= i < n - 1 && #[trigger] list[i] == before[k];
            assert(list[i] == claims_upto(list, n).extra[k]);
        } else {
            assert(list[n - 1] == claims_upto(list, n).extra[k]);
        }
    }
}

/// A claim that is found among those not read by themselves is the member of its name.
pub proof fn lemma_extra_claim_is_member(list: Seq<(Seq<char>, Value)>, name: Seq<char>)
    requires
        distinct_names(list),
    ensures
        lookup(claims_upto(list, list.len() as int).extra, name) matches Some(v) ==> lookup(
            list,
            name,
        ) == Some(v),
{
    let extra = claims_upto(list, list.len() as int).extra;
    lemma_position_found(extra, name);
    if lookup(extra, name) is Some {
        let k = position(extra, name);
        lemma_extra_claims_are_members(list, list.len() as int, k);
        let i = choose|i: int| 0 <= i < list.len() && #[trigger] list[i] == extra[k];
        lemma_position(list, name, i);
    }
}

/// An expiry that is there and not `null` is read.
pub proof fn lemma_expiry_is_read(list: Seq<(Seq<char>, Value)>, i: int, n: int)
    requires
        0 <= i < n <= list.len(),
        distinct_names(list),
        first_bad_claim(list) == list.len(),
        list[i].0 == "exp"@,
        !json_null(list[i].1),
    ensures
        claims_upto(list, n).exp is Some,
        claims_upto(list, n).exp == json_u64(list[i].1),
    decreases n,
{
    lemma_names_differ();
    lemma_all_are_claims(list, i);
    if n - 1 > i {
        lemma_expiry_is_read(list, i, n - 1);
    }
}

pub proof fn lemma_first_bad_claim_bounds(list: Seq<(Seq<char>, Value)>)
    ensures
        0 <= first_bad_claim(list) <= list.len(),
    decreases list.len(),
{
    if list.len() > 0 && is_claim(list[0].0, list[0].1) {
        lemma_first_bad_claim_bounds(list.skip(1));
    }
}

proof fn lemma_all_are_claims(list: Seq<(Seq<char>, Value)>, i: int)
    requires
        0 <= i < list.len(),
        first_bad_claim(list) == list.len(),
    ensures
        is_claim(list[i].0, list[i].1),
    decreases list.len(),
{
    if i > 0 {
        lemma_all_are_claims(list.skip(1), i - 1);
    }
}

/// The names of the claims that are read are different names.
proof fn lemma_names_differ()
    ensures
        "sub"@ != "iss"@,
        "sub"@ != "aud"@,
        "sub"@ != "exp"@,
        "sub"@ != "scope"@,
        "iss"@ != "aud"@,
        "iss"@ != "exp"@,
        "iss"@ != "scope"@,
        "aud"@ != "exp"@,
        "aud"@ != "scope"@,
        "exp"@ != "scope"@,
{
    reveal_strlit("sub");
    reveal_strlit("iss");
    reveal_strlit("aud");
    reveal_strlit("exp");
    reveal_strlit("scope");
    assert("sub"@[0] == 's' && "iss"@[0] == 'i' && "aud"@[0] == 'a' && "exp"@[0] == 'e');
    assert("scope"@.len() == 5 && "sub"@.len() == 3 && "iss"@.len() == 3 && "aud"@.len() == 3
        && "exp"@.len() == 3);
}

/// An optional text as a text.
pub open spec fn opt_text(o: Option<String>) -> Option<Seq<char>> {
    match o {
        Some(s) => Some(s@),
        None => None,
    }
}

/// Whether `r` is what the members of a token come to: claims where every member can be a
/// claim and there is a subject, else an error about the first that stands in the way.
pub open spec fn reads_claims(value: Value, r: Result<Claims, AuthError>) -> bool {
    match json_members(value) {
        None => r matches Err(AuthError::InvalidToken(m)) && m@ == "claims are not an object"@,
        Some(list) => {
            let bad = first_bad_claim(list);
            let all = claims_upto(list, list.len() as int);
            if bad < list.len() {
                r matches Err(AuthError::InvalidToken(m)) && m@ == "invalid claim `"@ + list[bad].0
                    + "`"@
            } else if all.sub is None {
                r matches Err(AuthError::InvalidToken(m)) && m@ == "missing field `sub`"@
            } else {
                r matches Ok(claims) && claims.view() == all
            }
        },
    }
}

impl Claims {
    /// The claims, member by member.
    pub open spec fn view(self) -> ClaimsView {
        ClaimsView {
            sub: Some(self.sub@),
            iss: opt_text(self.iss),
            aud: self.aud,
            exp: self.exp,
            scope: opt_text(self.scope),
            extra: member_texts(self.extra@),
        }
    }

    /// Read the claims of a token.
    pub fn from_json(value: Value) -> (r: Result<Claims, AuthError>)
        ensures
            reads_claims(value, r),
            json_members(value) matches Some(list) ==> distinct_names(list),
    {
        let mut rest = match members(value) {
            Some(m) => m,
            None => {
                return Err(AuthError::InvalidToken("claims are not an object".to_owned()));
            },
        };
        let ghost list = member_texts(rest@);
        let ghost given = rest@;
        let mut sub: Option<String> = None;
        let mut iss: Option<String> = None;
        let mut aud: Option<Value> = None;
        let mut exp: Option<u64> = None;
        let mut scope: Option<String> = None;
        let mut extra: Vec<(String, Value)> = Vec::new();
        let ghost mut n: int = 0;
        proof {
            assert(given.skip(0) == given);
            assert(member_texts(extra@) == Seq::<(Seq<char>, Value)>::empty());
        }
        while rest.len() > 0
            invariant
                json_members(value) == Some(list),
                distinct_names(list),
                list == member_texts(given),
                0 <= n <= list.len(),
                rest@ == given.skip(n),
                forall|i: int| 0 <= i < n ==> is_claim((#[trigger] list[i]).0, list[i].1),
                claims_upto(list, n) == (ClaimsView {
                    sub: opt_text(sub),
                    iss: opt_text(iss),
                    aud,
                    exp,
                    scope: opt_text(scope),
                    extra: member_texts(extra@),
                }),
            decreases rest@.len(),
        {
            let (name, found) = rest.remove(0);
            proof {
                assert(list[n] == (name@, found));
                assert(given.skip(n).remove(0) == given.skip(n + 1));
                if !is_claim(name@, found) {
                    lemma_first_bad_claim(list, n);
                }
            }
            if same(name.as_str(), "sub") {
                match text_of(&found) {
                    Some(s) => {
                        sub = Some(s);
                    },
                    None => {
                        return Err(invalid_claim(name.as_str()));
                    },
                }
            } else if same(name.as_str(), "iss") || same(name.as_str(), "scope") {
                let read = if is_null(&found) {
                    None
                } else {
                    match text_of(&found) {
                        Some(s) => Some(s),
                        None => {
                            return Err(invalid_claim(name.as_str()));
                        },
                    }
                };
                if same(name.as_str(), "iss") {
                    iss = read;
                } else {
                    scope = read;
                }
            } else if same(name.as_str(), "aud") {
                if is_null(&found) {
                    aud = None;
                } else {
                    aud = Some(found);
                }
            } else if same(name.as_str(), "exp") {
                if is_null(&found) {
                    exp = None;
                } else {
                    match u64_of(&found) {
                        Some(number) => {
                            exp = Some(number);
                        },
                        None => {
                            return Err(invalid_claim(name.as_str()));
                        },
                    }
                }
            } else {
                let ghost before = extra@;
                extra.push((name, found));
                proof {
                    assert(member_texts(extra@) == member_texts(before).push(list[n]));
                }
            }
            proof {
                lemma_names_differ();
                n = n + 1;
            }
        }
        proof {
            lemma_first_bad_claim(list, list.len() as int);
        }
        match sub {
            Some(sub) => Ok(Claims { sub, iss, aud, exp, scope, extra }),
            None => Err(AuthError::InvalidToken("missing field `sub`".to_owned())),
        }
    }

    /// What the token allows, as a list.
    pub fn scopes(&self) -> (r: Vec<String>)
        ensures
            views(r@) == match self.scope {
                Some(s) => words(s@),
                None => Seq::empty(),
            },
    {
        match &self.scope {
            Some(s) => split_words(s.as_str()),
            None => {
                let none: Vec<String> = Vec::new();
                proof {
                    assert(views(none@) == Seq::<Seq<char>>::empty());
                }
                none
            },
        }
    }
}

fn invalid_claim(name: &str) -> (r: AuthError)
    ensures
        r matches AuthError::InvalidToken(m) && m@ == "invalid claim `"@ + name@ + "`"@,
{
    AuthError::InvalidToken(join3("invalid claim `", name, "`"))
}

// ── Laws ────────────────────────────────────────────────────────────────────

/// Whether this is the name of a claim that is read by itself.
pub open spec fn is_read_by_itself(name: Seq<char>) -> bool {
    name == "sub"@ || name == "iss"@ || name == "aud"@ || name == "exp"@ || name == "scope"@
}

proof fn lemma_claim_stays(list: Seq<(Seq<char>, Value)>, i: int, n: int)
    requires
        0 <= i < n <= list.len(),
        distinct_names(list),
    ensures
        list[i].0 == "sub"@ ==> claims_upto(list, n).sub == json_text(list[i].1),
        list[i].0 == "iss"@ ==> claims_upto(list, n).iss == if json_null(list[i].1) {
            None
        } else {
            json_text(list[i].1)
        },
        list[i].0 == "aud"@ ==> claims_upto(list, n).aud == if json_null(list[i].1) {
            None
        } else {
            Some(list[i].1)
        },
        list[i].0 == "exp"@ ==> claims_upto(list, n).exp == if json_null(list[i].1) {
            None
        } else {
            json_u64(list[i].1)
        },
        list[i].0 == "scope"@ ==> claims_upto(list, n).scope == if json_null(list[i].1) {
            None
        } else {
            json_text(list[i].1)
        },
    decreases n,
{
    lemma_names_differ();
    if i < n - 1 {
        assert(list[i].0 != list[n - 1].0);
        lemma_claim_stays(list, i, n - 1);
    }
}

proof fn lemma_claim_absent(list: Seq<(Seq<char>, Value)>, n: int)
    requires
        0 <= n <= list.len(),
    ensures
        (forall|j: int| 0 <= j < n ==> (#[trigger] list[j]).0 != "sub"@) ==> claims_upto(list, n).sub
            is None,
        (forall|j: int| 0 <= j < n ==> (#[trigger] list[j]).0 != "iss"@) ==> claims_upto(list, n).iss
            is None,
        (forall|j: int| 0 <= j < n ==> (#[trigger] list[j]).0 != "aud"@) ==> claims_upto(list, n).aud
            is None,
        (forall|j: int| 0 <= j < n ==> (#[trigger] list[j]).0 != "exp"@) ==> claims_upto(list, n).exp
            is None,
        (forall|j: int| 0 <= j < n ==> (#[trigger] list[j]).0 != "scope"@) ==> claims_upto(
            list,
            n,
        ).scope is None,
    decreases n,
{
    lemma_names_differ();
    if n > 0 {
        lemma_claim_absent(list, n - 1);
    }
}

/// Each claim that is read by itself is the value of the member of its name, and none where
/// that is `null` or there is no such member.
pub proof fn law_claims_are_the_members_of_their_names(list: Seq<(Seq<char>, Value)>)
    requires
        distinct_names(list),
    ensures
        ({
            let c = claims_upto(list, list.len() as int);
            &&& c.sub == match lookup(list, "sub"@) {
                Some(v) => json_text(v),
                None => None,
            }
            &&& c.iss == match lookup(list, "iss"@) {
                Some(v) => if json_null(v) { None } else { json_text(v) },
                None => None,
            }
            &&& c.aud == match lookup(list, "aud"@) {
                Some(v) => if json_null(v) { None } else { Some(v) },
                None => None,
            }
            &&& c.exp == match lookup(list, "exp"@) {
                Some(v) => if json_null(v) { None } else { json_u64(v) },
                None => None,
            }
            &&& c.scope == match lookup(list, "scope"@) {
                Some(v) => if json_null(v) { None } else { json_text(v) },
                None => None,
            }
        }),
{
    let n = list.len() as int;
    lemma_claim_absent(list, n);
    lemma_position_found(list, "sub"@);
    lemma_position_found(list, "iss"@);
    lemma_position_found(list, "aud"@);
    lemma_position_found(list, "exp"@);
    lemma_position_found(list, "scope"@);
    if lookup(list, "sub"@) is Some {
        lemma_claim_stays(list, position(list, "sub"@), n);
    }
    if lookup(list, "iss"@) is Some {
        lemma_claim_stays(list, position(list, "iss"@), n);
    }
    if lookup(list, "aud"@) is Some {
        lemma_claim_stays(list, position(list, "aud"@), n);
    }
    if lookup(list, "exp"@) is Some {
        lemma_claim_stays(list, position(list, "exp"@), n);
    }
    if lookup(list, "scope"@) is Some {
        lemma_claim_stays(list, position(list, "scope"@), n);
    }
}

/// All other members of a token are kept as they are, in order.
pub proof fn law_other_claims_are_kept(list: Seq<(Seq<char>, Value)>, n: int)
    requires
        0 <= n <= list.len(),
    ensures
        claims_upto(list, n).extra == list.take(n).filter(
            |m: (Seq<char>, Value)| !is_read_by_itself(m.0),
        ),
    decreases n,
{
    reveal(Seq::filter);
    if n > 0 {
        law_other_claims_are_kept(list, n - 1);
        assert(list.take(n).drop_last() == list.take(n - 1));
        assert(list.take(n).last() == list[n - 1]);
    } else {
        assert(list.take(0) == Seq::<(Seq<char>, Value)>::empty());
    }
}

/// The claims of a token can be read exactly if they are an object with a subject that is a
/// text, and an issuer, a scope and an expiry that are texts or a number where they are there
/// and not `null`.
pub proof fn law_which_claims_can_be_read(value: Value, claims: Claims)
    requires
        json_members(value) matches Some(list) ==> distinct_names(list),
        claims.view() == claims_upto(json_members(value)->0, json_members(value)->0.len() as int),
    ensures
        reads_claims(value, Ok(claims)) <==> (json_members(value) matches Some(list) && {
            &&& lookup(list, "sub"@) matches Some(v) && json_text(v) is Some
            &&& lookup(list, "iss"@) matches Some(v) ==> json_null(v) || json_text(v) is Some
            &&& lookup(list, "scope"@) matches Some(v) ==> json_null(v) || json_text(v) is Some
            &&& lookup(list, "exp"@) matches Some(v) ==> json_null(v) || json_u64(v) is Some
        }),
{
    if let Some(list) = json_members(value) {
        lemma_names_differ();
        law_claims_are_the_members_of_their_names(list);
        lemma_first_bad_claim_bounds(list);
        lemma_position_found(list, "sub"@);
        lemma_position_found(list, "iss"@);
        lemma_position_found(list, "exp"@);
        lemma_position_found(list, "scope"@);
        let sub_ok = lookup(list, "sub"@) matches Some(v) && json_text(v) is Some;
        let iss_ok = lookup(list, "iss"@) matches Some(v) ==> json_null(v) || json_text(v) is Some;
        let scope_ok = lookup(list, "scope"@) matches Some(v) ==> json_null(v) || json_text(v)
            is Some;
        let exp_ok = lookup(list, "exp"@) matches Some(v) ==> json_null(v) || json_u64(v) is Some;
        if first_bad_claim(list) == list.len() {
            if lookup(list, "sub"@) is Some {
                lemma_all_are_claims(list, position(list, "sub"@));
            }
            if lookup(list, "iss"@) is Some {
                lemma_all_are_claims(list, position(list, "iss"@));
            }
            if lookup(list, "exp"@) is Some {
                lemma_all_are_claims(list, position(list, "exp"@));
            }
            if lookup(list, "scope"@) is Some {
                lemma_all_are_claims(list, position(list, "scope"@));
            }
        } else if sub_ok && iss_ok && scope_ok && exp_ok {
            assert forall|i: int| 0 <= i < list.len() implies is_claim(
                (#[trigger] list[i]).0,
                list[i].1,
            ) by {
                let name = list[i].0;
                if name == "sub"@ || name == "iss"@ || name == "exp"@ || name == "scope"@ {
                    lemma_position_found(list, name);
                    lemma_position(list, name, i);
                }
            }
            lemma_first_bad_claim(list, list.len() as int);
        }
    }
}

} // verus!

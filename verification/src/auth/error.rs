//! What can go wrong while a caller is authenticated.

use vstd::prelude::*;

use crate::text::join;

verus! {

#[derive(Debug)]
pub enum AuthError {
    JwksFetch(String),
    UnknownKid(String),
    InvalidToken(String),
    MissingToken,
    InvalidApiKey,
    MissingApiKey,
    ApiKeyStore(String),
    MissingClientCert,
    InvalidClientCert(String),
    NoProviderEnabled,
    Config(String),
}

impl AuthError {
    /// The HTTP status that answers this error: 401 where credentials are missing,
    /// 403 where they are not valid, 503 where something the gateway depends on
    /// failed, 500 otherwise.
    pub open spec fn status(&self) -> u16 {
        match self {
            AuthError::MissingToken | AuthError::MissingApiKey | AuthError::MissingClientCert => 401,
            AuthError::InvalidToken(_) | AuthError::InvalidApiKey | AuthError::UnknownKid(_)
            | AuthError::InvalidClientCert(_) => 403,
            AuthError::JwksFetch(_) | AuthError::ApiKeyStore(_) => 503,
            AuthError::NoProviderEnabled | AuthError::Config(_) => 500,
        }
    }

    /// The message that describes this error.
    pub open spec fn text(&self) -> Seq<char> {
        match self {
            AuthError::JwksFetch(m) => "JWKS fetch failed: "@ + m@,
            AuthError::UnknownKid(m) => "unknown key ID: "@ + m@,
            AuthError::InvalidToken(m) => "invalid token: "@ + m@,
            AuthError::MissingToken => "missing bearer token"@,
            AuthError::InvalidApiKey => "invalid API key"@,
            AuthError::MissingApiKey => "missing API key header"@,
            AuthError::ApiKeyStore(m) => "API key store error: "@ + m@,
            AuthError::MissingClientCert => "missing client certificate"@,
            AuthError::InvalidClientCert(m) => "invalid client certificate: "@ + m@,
            AuthError::NoProviderEnabled => "no auth provider enabled"@,
            AuthError::Config(m) => "auth config error: "@ + m@,
        }
    }

    /// The HTTP status that answers this error.
    pub fn status_code(&self) -> (r: u16)
        ensures
            r == self.status(),
    {
        match self {
            AuthError::MissingToken | AuthError::MissingApiKey | AuthError::MissingClientCert => 401,
            AuthError::InvalidToken(_) | AuthError::InvalidApiKey | AuthError::UnknownKid(_)
            | AuthError::InvalidClientCert(_) => 403,
            AuthError::JwksFetch(_) | AuthError::ApiKeyStore(_) => 503,
            _ => 500,
        }
    }

    /// Whether the caller is to blame: missing or bad input, not a failure on this side.
    pub fn is_client_error(&self) -> (r: bool)
        ensures
            r == (self.status() < 500),
    {
        self.status_code() < 500
    }

    /// The message that describes this error.
    pub fn message(&self) -> (r: String)
        ensures
            r@ == self.text(),
    {
        match self {
            AuthError::JwksFetch(m) => join("JWKS fetch failed: ", m.as_str()),
            AuthError::UnknownKid(m) => join("unknown key ID: ", m.as_str()),
            AuthError::InvalidToken(m) => join("invalid token: ", m.as_str()),
            AuthError::MissingToken => "missing bearer token".to_owned(),
            AuthError::InvalidApiKey => "invalid API key".to_owned(),
            AuthError::MissingApiKey => "missing API key header".to_owned(),
            AuthError::ApiKeyStore(m) => join("API key store error: ", m.as_str()),
            AuthError::MissingClientCert => "missing client certificate".to_owned(),
            AuthError::InvalidClientCert(m) => join("invalid client certificate: ", m.as_str()),
            AuthError::NoProviderEnabled => "no auth provider enabled".to_owned(),
            AuthError::Config(m) => join("auth config error: ", m.as_str()),
        }
    }
}

// ── Laws ────────────────────────────────────────────────────────────────────

/// A caller who shows nothing gets 401, one who shows something that does not hold gets 403;
/// where the gateway cannot ask whom it depends on the status is 503, and 500 where it is set
/// up wrongly.
pub proof fn law_errors_have_their_status(e: AuthError)
    ensures
        e.status() == 401 <==> e is MissingToken || e is MissingApiKey || e is MissingClientCert,
        e.status() == 403 <==> e is InvalidToken || e is InvalidApiKey || e is UnknownKid || e
            is InvalidClientCert,
        e.status() == 503 <==> e is JwksFetch || e is ApiKeyStore,
        e.status() == 500 <==> e is NoProviderEnabled || e is Config,
        e.status() == 401 || e.status() == 403 || e.status() == 500 || e.status() == 503,
{
}

} // verus!

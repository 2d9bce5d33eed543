use std::time::Duration;

use http::{Extensions, HeaderMap};
use rustls::pki_types::CertificateDer;
use serde_json::Value;
use stateform::auth::api_key::{extract_api_key, ApiKeyProvider, ApiKeyRecord};
use stateform::auth::context::{AuthContext, AuthMechanism, Claims, PeerIdentity};
use stateform::auth::error::AuthError;
use stateform::auth::jwt::{
    build_validation, claims_of, extract_bearer, jwk_to_decoding_key, jwks_answered, jwks_uri,
    parse_header, parse_jwks, JwtProvider, Jwk, KeyCache, KeyLookup, TokenAlg, TokenState,
};
use stateform::auth::mtls::{fingerprint, MtlsProvider, PeerCertificate};
use stateform::auth::pipeline::{begin, AuthState};
use stateform::config::schema::{AuthMiddlewareConfig, JwtConfig};

// The modulus of an RSA key and the coordinates of a point on P-256.
const RSA_MODULUS: &str = "\
04Io1XGIGZi-wB_j832smRvYGLMr8oFNOd8ksKghqao1su9BkE1cc9Q4lV-z2FGdwEDlJbsMxtI_Vi8_\
j0UXob3T-Yqom6AaUkZkHt1PrTAaJFTSSwGrcExZeuvjiuqP5xFtzMUIEQl17nnfQUxQgnZP0TJ5Ia9v\
ocXXzhf0YXOuXA03DoN4Ild2lA7Ca507ntXWWaCtIv8aKl40X66I4cX5YHgl18i7IonYwh5J-TsX89x8\
rmW-xPG4GBRymCxT0ASI25ciwTDJjsFBmaWOn_1YsmtrlcygntQX1sI6HgNAVsa0p_Co6-Kop7ii5tNe\
pu--lcWzj_OWY4wgKEC9sQ";
const EC_X: &str = "\
xMKYadFZ31SDakZsrDBSXR5hSruvJzt3pprhZxLTVAw";
const EC_Y: &str = "\
FSRLAmiZ-Oavl27q9YxOk0jxk45eixwgngQBsUfy49Q";

// Tokens for the audience `stateform`, most of them signed under the RSA key.
const RSA_TOKEN: &str = "\
eyJhbGciOiJSUzI1NiIsInR5cCI6IkpXVCIsImtpZCI6InJzYS0xIn0.eyJzdWIiOiJ1c2VyLTciLCJp\
c3MiOiJodHRwczovL2V4YW1wbGUuY29tIiwiYXVkIjoic3RhdGVmb3JtIiwiZXhwIjozMjUwMzY4MDAw\
MCwic2NvcGUiOiJyZWFkIHdyaXRlIiwidGVuYW50IjoiYWNtZSJ9.F0kT9MDGxxqaJRHQWTxoGFDIl1Y\
kHZxrrg41IAZ_rKYB6d84Lqas8MW6ow39REicpK9RrgZS0ZIErd98kNuCyWu1yJnI7WW6HHwS1yMnMGG\
zfMcHhiKgsH7GaILXXAAf-5W6SLEiGmG0y1rbM2kUd0bheWwTrbJpZAqYJ1ZcztB1Q0k9mMgUDX5IGfL\
_iVRqZsfSQ0a8nMlbiXSIkLKnkomIDpgz7YUFvTBbvkt75Swul2bUddtwTOc4eyh9hrfYHdk8LKkYZAk\
7-9EmARVhABbMkOjA0_0b9K4iH1ESve9IjcqnaxhtO8IUG0BQHAYDAxOO0A3240VUtQ6WuY7jLg";
const EC_TOKEN: &str = "\
eyJhbGciOiJFUzI1NiIsInR5cCI6IkpXVCIsImtpZCI6ImVjLTEifQ.eyJzdWIiOiJ1c2VyLTciLCJpc\
3MiOiJodHRwczovL2V4YW1wbGUuY29tIiwiYXVkIjoic3RhdGVmb3JtIiwiZXhwIjozMjUwMzY4MDAwM\
Cwic2NvcGUiOiJyZWFkIHdyaXRlIiwidGVuYW50IjoiYWNtZSJ9.jm9UPAXF22usWRJasvMb2njISFGL\
r2gg0Z_7in37LEtfA2-PYJRQqtj7SnTTu4AR6qYNVKN1Ssp1A7KALkE9Aw";
const EXPIRED_TOKEN: &str = "\
eyJhbGciOiJSUzI1NiIsInR5cCI6IkpXVCIsImtpZCI6InJzYS0xIn0.eyJzdWIiOiJ1c2VyLTciLCJp\
c3MiOiJodHRwczovL2V4YW1wbGUuY29tIiwiYXVkIjoic3RhdGVmb3JtIiwiZXhwIjoxMDAwMDAwMDAw\
LCJzY29wZSI6InJlYWQgd3JpdGUiLCJ0ZW5hbnQiOiJhY21lIn0.WJkoKuIVn7j4hiDHR2hY_hpriMIn\
FxLkRJSKo-OY_dAKsNKiznl2CEOnrJIPk1yQcAuM6MEyxsU5ct6sZEj_ztBNrqi9XAWZ_Zep6MuRtCxi\
yNl7HUEeT7ezocm4USNcNyQBEabI_AqogHpXzi1EBDt1UtsBK4VFalufSxkovhr2ELFBMX3miFdpW2Gi\
hjXR12FOw0rwwF_5MC0CJE81OW0L7K-oi7Flm5Cw9kpfFugllmdP-MxHHHRLBuyGw8hIbVpbPH7WW6SD\
Wwiyba2QTAxq88Rwy8k07Uk71YjrSVDECVBFcVe8QTGLXKjr-sSMZ4JsOulLN47t_chSfOANKg";
const FOREIGN_AUDIENCE_TOKEN: &str = "\
eyJhbGciOiJSUzI1NiIsInR5cCI6IkpXVCIsImtpZCI6InJzYS0xIn0.eyJzdWIiOiJ1c2VyLTciLCJp\
c3MiOiJodHRwczovL2V4YW1wbGUuY29tIiwiYXVkIjoib3RoZXIiLCJleHAiOjMyNTAzNjgwMDAwLCJz\
Y29wZSI6InJlYWQgd3JpdGUiLCJ0ZW5hbnQiOiJhY21lIn0.HG831pbRvI_TAOGPFY5-1iSatcVsTkia\
D9Y7sUBqVDObqXPMWpoK_qo5bKjAq-gnuFxECp-4ieVeaAA1fs4ss9ceR5mxrtefYMEFFK7NYVlBSdcg\
UdMvRIidAX7CCgvwnGmivL7NKla3wAZuMDA_iwlSOgUBWyy20lBveFEi-xtVkhowhCBWMUl0JgHYwx5w\
08QtjHpZyQ410HYRm3RnYze2wkZa_ibyAoHqHvN7Nd_aJ123w3RgpokEtW8C-nU8JWUjZzqBGyvJiQjt\
D8NK4mETyRCerAtCpH7AvvPj8DiQWJi7vvyPlVZTUwrcJCgU4TJzv1c3377ujIVLCDZ7pg";
const FOREIGN_ISSUER_TOKEN: &str = "\
eyJhbGciOiJSUzI1NiIsInR5cCI6IkpXVCIsImtpZCI6InJzYS0xIn0.eyJzdWIiOiJ1c2VyLTciLCJp\
c3MiOiJodHRwczovL2V2aWwuZXhhbXBsZSIsImF1ZCI6InN0YXRlZm9ybSIsImV4cCI6MzI1MDM2ODAw\
MDAsInNjb3BlIjoicmVhZCB3cml0ZSIsInRlbmFudCI6ImFjbWUifQ.b2ENDubUPEA4l7qO2MzwLs9D3\
Lru36kMoQnJIuZrzNM_uyx_vK4NgGdKaazAOsV2ioIZ_jV9vrp1WAfTWtrXwkbRKEOg5xoJVATswOuVH\
ZBC_QZ59GOmIAYutW1IaWwJNp-xO8z7imWvsfwEosSah8MZIKxf3iG0N37KO4EpycYikRx3Z4SSpSLd0\
Vq1mY9tLSu6TxDYgybdBniVXtm8-2TuOJTj_KGiD-0XK7ZOVRTFfXuKEAP71bDX_lUcJBNB6L2sPl07q\
7jHKIhqCTBXkiS9pXdmJEnVSYqABOaxZpe-2NGu8A3zujRObVWiMSR_pb-jMCtK0HkH9vEbL779FA";
const NAMELESS_TOKEN: &str = "\
eyJhbGciOiJSUzI1NiIsInR5cCI6IkpXVCIsImtpZCI6InJzYS0xIn0.eyJpc3MiOiJodHRwczovL2V4\
YW1wbGUuY29tIiwiYXVkIjoic3RhdGVmb3JtIiwiZXhwIjozMjUwMzY4MDAwMCwic2NvcGUiOiJyZWFk\
IHdyaXRlIiwidGVuYW50IjoiYWNtZSJ9.EcVi1cSJzksB1ZayVJ35WIdYHarYcnB5yZdkbaDyBVbfWgI\
wsN-olXB6Q-L38gcPc-ANsw8_iAehQs5iRVkZYRca5hjygV4UP6XvNlu1rDPMDGnjU8Ix5gO4RXMkY0x\
j5UWPAiSp3tXD5Madk3t4An9FE5596YTutw2pBFlxWTHcLO08ze-b99c9K7NREzd6v9jVisghCRUU80y\
DtHSpEEkgnzhozYkgMWA9uqqSltsWlq7UfMGQT2pI5utun8sKzVaoZuvJodu4HhcXA3WPduQCLtGYRIw\
3SKMDncw02zFc6diGqgZP2MmDUHHS1M3bDYX5XVc6DrjOed1eHU8EYA";

// Tokens that count from some time on, signed under another point.
const DATED_X: &str = "\
WWjh8u0q9NnaOmXkgWcYLEfiGa0mZUIDrdIl4hbzidk";
const DATED_Y: &str = "\
CKZtfv30bg-PCrPV85BBEmTrP_WVXoN19eV4kFU06tw";
const PAST_NBF_TOKEN: &str = "\
eyJhbGciOiJFUzI1NiIsInR5cCI6IkpXVCIsImtpZCI6ImVjLTIifQ.eyJzdWIiOiJ1c2VyLTciLCJpc\
3MiOiJodHRwczovL2V4YW1wbGUuY29tIiwiYXVkIjoic3RhdGVmb3JtIiwiZXhwIjozMjUwMzY4MDAwM\
CwibmJmIjoxMDAwMDAwMDAwfQ.ToLwkzWCqgryWt4siSOB1d41EDxvizhCRpImjpTR2kjvVJYh38fSVd\
jE36wJFylO1Xu5zD_zlolzMGuyU_CB7w";
const FUTURE_NBF_TOKEN: &str = "\
eyJhbGciOiJFUzI1NiIsInR5cCI6IkpXVCIsImtpZCI6ImVjLTIifQ.eyJzdWIiOiJ1c2VyLTciLCJpc\
3MiOiJodHRwczovL2V4YW1wbGUuY29tIiwiYXVkIjoic3RhdGVmb3JtIiwiZXhwIjozMjUwMzY4MDAwM\
CwibmJmIjozMjUwMzY3MDAwMH0.SFB0l2L33Js5vDf5bGPRFmjUepjJJ8CfwLlqbKvbem5CXFFoL7-hU\
Ns94QLKNxgqJbhinyw7GAIRNHrRrk13Mw";

fn make_config() -> JwtConfig {
    JwtConfig {
        jwks_url: "https://example.com/.well-known/jwks.json".into(),
        audience: vec!["stateform".into()],
        issuers: vec!["https://example.com".into()],
        jwks_cache_ttl: Duration::from_secs(300),
    }
}

fn rsa_jwk() -> Jwk {
    Jwk {
        key_id: Some("rsa-1".into()),
        key_type: "RSA".into(),
        n: Some(RSA_MODULUS.into()),
        e: Some("AQAB".into()),
        crv: None,
        x: None,
        y: None,
    }
}

fn ec_jwk() -> Jwk {
    Jwk {
        key_id: Some("ec-1".into()),
        key_type: "EC".into(),
        n: None,
        e: None,
        crv: Some("P-256".into()),
        x: Some(EC_X.into()),
        y: Some(EC_Y.into()),
    }
}

fn json(text: &str) -> Value {
    serde_json::from_str(text).unwrap()
}

fn validate(token: &str, jwk: &Jwk) -> Result<Claims, AuthError> {
    let provider = JwtProvider::new(make_config());
    let header = parse_header(token)?;
    provider.validate_token(token, &header, jwk)
}

// ── Errors ──────────────────────────────────────────────────────────────────

#[test]
fn auth_error_status_codes() {
    assert_eq!(AuthError::MissingToken.status_code(), 401);
    assert_eq!(AuthError::InvalidToken("x".into()).status_code(), 403);
    assert_eq!(AuthError::JwksFetch("x".into()).status_code(), 503);
    assert_eq!(AuthError::InvalidApiKey.status_code(), 403);
    assert_eq!(AuthError::MissingClientCert.status_code(), 401);
}

#[test]
fn auth_error_client_vs_server() {
    assert!(AuthError::MissingToken.is_client_error());
    assert!(AuthError::InvalidToken("x".into()).is_client_error());
    assert!(!AuthError::JwksFetch("x".into()).is_client_error());
    assert!(!AuthError::NoProviderEnabled.is_client_error());
}

#[test]
fn every_auth_error_has_its_status() {
    assert_eq!(AuthError::MissingApiKey.status_code(), 401);
    assert_eq!(AuthError::UnknownKid("k".into()).status_code(), 403);
    assert_eq!(AuthError::InvalidClientCert("c".into()).status_code(), 403);
    assert_eq!(AuthError::ApiKeyStore("s".into()).status_code(), 503);
    assert_eq!(AuthError::NoProviderEnabled.status_code(), 500);
    assert_eq!(AuthError::Config("c".into()).status_code(), 500);
}

#[test]
fn every_auth_error_has_its_message() {
    assert_eq!(AuthError::JwksFetch("x".into()).message(), "JWKS fetch failed: x");
    assert_eq!(AuthError::UnknownKid("k".into()).message(), "unknown key ID: k");
    assert_eq!(AuthError::InvalidToken("x".into()).message(), "invalid token: x");
    assert_eq!(AuthError::MissingToken.message(), "missing bearer token");
    assert_eq!(AuthError::InvalidApiKey.message(), "invalid API key");
    assert_eq!(AuthError::MissingApiKey.message(), "missing API key header");
    assert_eq!(AuthError::ApiKeyStore("x".into()).message(), "API key store error: x");
    assert_eq!(AuthError::MissingClientCert.message(), "missing client certificate");
    assert_eq!(
        AuthError::InvalidClientCert("x".into()).message(),
        "invalid client certificate: x"
    );
    assert_eq!(
        AuthError::NoProviderEnabled.message(),
        "no auth provider enabled"
    );
    assert_eq!(AuthError::Config("x".into()).message(), "auth config error: x");
}

// ── API keys ────────────────────────────────────────────────────────────────

#[test]
fn extract_api_key_happy_path() {
    let mut headers = HeaderMap::new();
    headers.insert("x-api-key", "sk_live_abc123".parse().unwrap());
    assert_eq!(extract_api_key(&headers).unwrap(), "sk_live_abc123");
}

#[test]
fn extract_api_key_missing() {
    let headers = HeaderMap::new();
    assert!(matches!(extract_api_key(&headers), Err(AuthError::MissingApiKey)));
}

#[test]
fn api_key_that_is_no_text_counts_as_missing() {
    let mut headers = HeaderMap::new();
    headers.insert("x-api-key", http::HeaderValue::from_bytes(b"caf\xe9").unwrap());
    assert!(matches!(extract_api_key(&headers), Err(AuthError::MissingApiKey)));
}

#[test]
fn api_key_record_deserialise() {
    let json = r#"{"subject":"tenant-42","active":true}"#;
    let r = ApiKeyRecord::parse(json).unwrap();
    assert_eq!(r.subject, "tenant-42");
    assert!(r.active);
}

#[test]
fn api_key_record_defaults_active_true() {
    let json = r#"{"subject":"tenant-42"}"#;
    let r = ApiKeyRecord::parse(json).unwrap();
    assert!(r.active);
}

#[test]
fn records_may_be_lists_of_their_fields() {
    let r = ApiKeyRecord::parse(r#"["tenant-42",false]"#).unwrap();
    assert_eq!((r.subject.as_str(), r.active), ("tenant-42", false));
    assert!(ApiKeyRecord::parse(r#"["tenant-42"]"#).unwrap().active);
    assert!(ApiKeyRecord::parse(r#"["tenant-42",true,1]"#).is_err());

    let keys = parse_jwks(br#"[[["a","RSA","x","AQAB",null,null,null]]]"#).unwrap();
    assert_eq!(keys.len(), 1);
    assert_eq!(keys[0].key_id.as_deref(), Some("a"));
    assert_eq!(keys[0].key_type, "RSA");
    assert_eq!(keys[0].n.as_deref(), Some("x"));
    assert_eq!(keys[0].y, None);
    assert!(parse_jwks(br#"[[["a","RSA","x","AQAB"]]]"#).is_err());
}

#[test]
fn inactive_key_would_be_rejected() {
    let record = ApiKeyRecord { subject: "x".into(), active: false };
    assert!(!record.active);
}

#[test]
fn corrupt_key_records_are_reported() {
    for text in ["{", "[]", "{}", r#"{"subject":1}"#, r#"{"subject":"x","active":"yes"}"#] {
        match ApiKeyRecord::parse(text) {
            Err(AuthError::ApiKeyStore(m)) => assert!(m.starts_with("corrupt key record: ")),
            _ => panic!("{text} was read"),
        }
    }
}

#[test]
fn stored_keys_are_judged() {
    let provider = ApiKeyProvider { prefix: "apikeys:".into() };
    assert_eq!(provider.store_name("sk_1"), "apikeys:sk_1");

    let good = provider.judge(Ok(Some(r#"{"subject":"tenant-42"}"#.into())));
    assert_eq!(good.unwrap().subject, "tenant-42");

    assert!(matches!(provider.judge(Ok(None)), Err(AuthError::InvalidApiKey)));
    assert!(matches!(
        provider.judge(Ok(Some(r#"{"subject":"x","active":false}"#.into()))),
        Err(AuthError::InvalidApiKey)
    ));
    match provider.judge(Err("connection refused".into())) {
        Err(AuthError::ApiKeyStore(m)) => assert_eq!(m, "connection refused"),
        _ => panic!("the store was not asked"),
    }
}

// ── Tokens ──────────────────────────────────────────────────────────────────

#[test]
fn extract_bearer_happy_path() {
    let mut headers = HeaderMap::new();
    headers.insert(http::header::AUTHORIZATION, "Bearer my.jwt.token".parse().unwrap());
    assert_eq!(extract_bearer(&headers).unwrap(), "my.jwt.token");
}

#[test]
fn extract_bearer_missing_header() {
    let headers = HeaderMap::new();
    assert!(matches!(extract_bearer(&headers), Err(AuthError::MissingToken)));
}

#[test]
fn extract_bearer_wrong_scheme() {
    let mut headers = HeaderMap::new();
    headers.insert(http::header::AUTHORIZATION, "Basic dXNlcjpwYXNz".parse().unwrap());
    assert!(matches!(extract_bearer(&headers), Err(AuthError::MissingToken)));
}

#[test]
fn symmetric_alg_rejected_in_validation() {
    let cfg = make_config();
    let v = build_validation(&cfg, TokenAlg::HS256);
    assert_eq!(v.alg, TokenAlg::RS256);
    assert_eq!(v.audience, vec!["stateform".to_string()]);
    assert_eq!(v.issuers, vec!["https://example.com".to_string()]);
    assert!(v.validate_exp && v.validate_nbf);
}

#[test]
fn asymmetric_algs_are_kept_in_validation() {
    let cfg = make_config();
    for alg in [
        TokenAlg::RS256,
        TokenAlg::RS384,
        TokenAlg::RS512,
        TokenAlg::ES256,
        TokenAlg::ES384,
    ] {
        assert_eq!(build_validation(&cfg, alg).alg, alg);
    }
    for alg in [TokenAlg::HS384, TokenAlg::HS512, TokenAlg::PS256, TokenAlg::EdDSA] {
        assert_eq!(build_validation(&cfg, alg).alg, TokenAlg::RS256);
    }
}

#[test]
fn token_headers_are_read() {
    let rsa = parse_header(RSA_TOKEN).unwrap();
    assert_eq!(rsa.kid.as_deref(), Some("rsa-1"));
    assert_eq!(rsa.alg, TokenAlg::RS256);

    let ec = parse_header(EC_TOKEN).unwrap();
    assert_eq!(ec.kid.as_deref(), Some("ec-1"));
    assert_eq!(ec.alg, TokenAlg::ES256);

    match parse_header("no token") {
        Err(AuthError::InvalidToken(m)) => assert!(m.starts_with("malformed header: ")),
        _ => panic!("a header was read"),
    }
}

#[test]
fn signed_tokens_are_accepted() {
    for (token, jwk) in [(RSA_TOKEN, rsa_jwk()), (EC_TOKEN, ec_jwk())] {
        let claims = validate(token, &jwk).unwrap();
        assert_eq!(claims.sub, "user-7");
        assert_eq!(claims.iss.as_deref(), Some("https://example.com"));
        assert_eq!(claims.exp, Some(32503680000));
        assert_eq!(claims.scopes(), vec!["read".to_string(), "write".to_string()]);
        assert_eq!(claims.extra.len(), 1);
        assert_eq!(claims.extra[0].0, "tenant");
        assert_eq!(claims.extra[0].1, Value::String("acme".into()));
    }
}

#[test]
fn tokens_for_others_are_refused() {
    for (token, why) in [
        (EXPIRED_TOKEN, "ExpiredSignature"),
        (FOREIGN_AUDIENCE_TOKEN, "InvalidAudience"),
        (FOREIGN_ISSUER_TOKEN, "InvalidIssuer"),
    ] {
        match validate(token, &rsa_jwk()) {
            Err(AuthError::InvalidToken(m)) => assert_eq!(m, why),
            _ => panic!("a token that is {why} was accepted"),
        }
    }
    assert!(matches!(
        validate(NAMELESS_TOKEN, &rsa_jwk()),
        Err(AuthError::InvalidToken(_))
    ));
}

#[test]
fn tokens_count_from_their_time_on() {
    let jwk = Jwk { x: Some(DATED_X.into()), y: Some(DATED_Y.into()), ..ec_jwk() };
    let claims = validate(PAST_NBF_TOKEN, &jwk).unwrap();
    assert_eq!(claims.extra[0].0, "nbf");
    match validate(FUTURE_NBF_TOKEN, &jwk) {
        Err(AuthError::InvalidToken(m)) => assert_eq!(m, "ImmatureSignature"),
        _ => panic!("a token was accepted too early"),
    }
}

fn with_bearer(token: &str) -> HeaderMap {
    let mut headers = HeaderMap::new();
    let value = format!("Bearer {token}");
    headers.insert(http::header::AUTHORIZATION, value.parse().unwrap());
    headers
}

fn finished(state: TokenState) -> Result<Claims, AuthError> {
    match state {
        TokenState::Finished(verdict) => verdict,
        TokenState::NeedsKeys(_) => panic!("keys were needed"),
    }
}

#[test]
fn requests_are_checked_by_the_token_they_carry() {
    let mut provider = JwtProvider::new(make_config());
    assert!(matches!(
        finished(provider.verify(&HeaderMap::new(), 0)),
        Err(AuthError::MissingToken)
    ));
    match finished(provider.verify(&with_bearer("no token"), 0)) {
        Err(AuthError::InvalidToken(m)) => assert!(m.starts_with("malformed header: ")),
        _ => panic!("a malformed token was accepted"),
    }

    let check = match provider.verify(&with_bearer(RSA_TOKEN), 0) {
        TokenState::NeedsKeys(check) => check,
        TokenState::Finished(_) => panic!("no keys were needed"),
    };
    // Without keys, the failure to fetch them answers.
    let failed = provider.keys_fetched(&check, Err(AuthError::JwksFetch("down".into())), 1);
    assert!(matches!(failed, Err(AuthError::JwksFetch(_))));
    let claims = provider.keys_fetched(&check, Ok(vec![ec_jwk(), rsa_jwk()]), 2).unwrap();
    assert_eq!(claims.sub, "user-7");

    // The keys are kept for the next, each token under the one it names.
    assert!(finished(provider.look_again(check, 3)).is_ok());
    assert!(finished(provider.verify(&with_bearer(EC_TOKEN), 3)).is_ok());
    match finished(provider.verify(&with_bearer(EXPIRED_TOKEN), 3)) {
        Err(AuthError::InvalidToken(m)) => assert_eq!(m, "ExpiredSignature"),
        _ => panic!("an expired token was accepted"),
    }
    match finished(provider.verify(&with_bearer(PAST_NBF_TOKEN), 3)) {
        Err(AuthError::UnknownKid(kid)) => assert_eq!(kid, "ec-2"),
        _ => panic!("a key was found"),
    }
    // Keys that are old have to be fetched again.
    assert!(matches!(
        provider.verify(&with_bearer(RSA_TOKEN), 400_000_000_000),
        TokenState::NeedsKeys(_)
    ));
}

#[test]
fn addresses_of_key_servers_are_read() {
    assert_eq!(jwks_uri("http://keys.example/jwks").unwrap().path(), "/jwks");
    match jwks_uri("http://a b/") {
        Err(AuthError::JwksFetch(m)) => {
            assert!(m.starts_with("invalid JWKS URL: "));
            assert!(m.len() > "invalid JWKS URL: ".len());
        }
        _ => panic!("no address was read as one"),
    }
}

#[test]
fn tampered_tokens_are_refused() {
    // The signature of one token under the claims of another.
    let head = &RSA_TOKEN[..RSA_TOKEN.rfind('.').unwrap()];
    let tail = &EXPIRED_TOKEN[EXPIRED_TOKEN.rfind('.').unwrap()..];
    let token = format!("{head}{tail}");
    match validate(&token, &rsa_jwk()) {
        Err(AuthError::InvalidToken(m)) => assert_eq!(m, "InvalidSignature"),
        _ => panic!("a tampered token was accepted"),
    }
    // A key of another family than the algorithm.
    assert!(matches!(validate(RSA_TOKEN, &ec_jwk()), Err(AuthError::InvalidToken(_))));
}

#[test]
fn keys_that_lack_a_part_are_refused() {
    let message = |jwk: &Jwk| match jwk_to_decoding_key(jwk) {
        Err(AuthError::InvalidToken(m)) => m,
        _ => panic!("a key was made"),
    };
    let mut no_n = rsa_jwk();
    no_n.n = None;
    assert_eq!(message(&no_n), "RSA JWK missing `n`");
    let mut no_e = rsa_jwk();
    no_e.e = None;
    assert_eq!(message(&no_e), "RSA JWK missing `e`");
    let mut bad = rsa_jwk();
    bad.n = Some("!".into());
    assert!(message(&bad).starts_with("RSA key error: "));

    let mut no_x = ec_jwk();
    no_x.x = None;
    assert_eq!(message(&no_x), "EC JWK missing `x`");
    let mut no_y = ec_jwk();
    no_y.y = None;
    assert_eq!(message(&no_y), "EC JWK missing `y`");
    let mut bad = ec_jwk();
    bad.x = Some("!".into());
    assert!(message(&bad).starts_with("EC key error: "));

    let mut other = rsa_jwk();
    other.key_type = "oct".into();
    assert_eq!(message(&other), "unsupported key type: oct");
}

#[test]
fn published_keys_are_read() {
    let keys = parse_jwks(
        br#"{"keys":[{"kty":"RSA","kid":"a","n":"x","e":"AQAB","use":"sig"},{"kty":"EC","x":"1","y":"2"}]}"#,
    )
    .unwrap();
    assert_eq!(keys.len(), 2);
    assert_eq!(keys[0].key_id.as_deref(), Some("a"));
    assert_eq!(keys[0].key_type, "RSA");
    assert_eq!(keys[0].n.as_deref(), Some("x"));
    assert_eq!(keys[1].key_id, None);
    assert_eq!(keys[1].y.as_deref(), Some("2"));
}

#[test]
fn malformed_key_sets_are_refused() {
    for body in ["", "[]", "{}", r#"{"keys":{}}"#, r#"{"keys":[{}]}"#, r#"{"keys":[{"kty":1}]}"#] {
        match parse_jwks(body.as_bytes()) {
            Err(AuthError::JwksFetch(m)) => assert!(m.starts_with("invalid JWKS JSON: ")),
            _ => panic!("{body} was read"),
        }
    }
}

#[test]
fn key_servers_have_to_succeed() {
    assert!(jwks_answered(204, "204 No Content").is_ok());
    match jwks_answered(404, "404 Not Found") {
        Err(AuthError::JwksFetch(m)) => assert_eq!(m, "JWKS endpoint returned 404 Not Found"),
        _ => panic!("the answer was read"),
    }
}

#[test]
fn keys_are_fetched_once_and_kept() {
    let mut provider = JwtProvider::new(make_config());
    assert!(matches!(provider.lookup_key(Some("rsa-1"), 0), KeyLookup::Fetch));

    let key = provider.after_fetch(Ok(vec![ec_jwk(), rsa_jwk()]), Some("rsa-1"), 5).unwrap();
    assert_eq!(key.key_type, "RSA");

    let ttl = 300_000_000_000u64;
    match provider.lookup_key(Some("ec-1"), 5 + ttl) {
        KeyLookup::Found(key) => assert_eq!(key.key_type, "EC"),
        _ => panic!("the key was not kept"),
    }
    match provider.lookup_key(Some("other"), 6) {
        KeyLookup::Unknown(AuthError::UnknownKid(kid)) => assert_eq!(kid, "other"),
        _ => panic!("an unknown key was found"),
    }
    // Without an identifier any key will do: the first.
    match provider.lookup_key(None, 6) {
        KeyLookup::Found(key) => assert_eq!(key.key_type, "EC"),
        _ => panic!("no key was found"),
    }
    // Kept no longer than they may be.
    assert!(matches!(provider.lookup_key(Some("ec-1"), 6 + ttl), KeyLookup::Fetch));
}

#[test]
fn old_keys_serve_while_new_ones_cannot_be_fetched() {
    let mut provider = JwtProvider::new(make_config());
    let failed = provider.after_fetch(Err(AuthError::JwksFetch("down".into())), None, 1);
    assert!(matches!(failed, Err(AuthError::JwksFetch(_))));

    provider.key_cache = Some(KeyCache {
        keys: vec![rsa_jwk()],
        fetched_at: 0,
        ttl: Duration::from_secs(1),
    });
    let late = 10_000_000_000u64;
    let key = provider.after_fetch(
        Err(AuthError::JwksFetch("down".into())),
        Some("rsa-1"),
        late,
    );
    assert_eq!(key.unwrap().key_type, "RSA");
}

#[test]
fn claims_are_read_from_json() {
    let claims = Claims::from_json(json(
        r#"{"sub":"u","iss":null,"aud":["a","b"],"exp":7,"nbf":1}"#,
    ))
    .unwrap();
    assert_eq!(claims.sub, "u");
    assert_eq!(claims.iss, None);
    assert_eq!(claims.aud, Some(json(r#"["a","b"]"#)));
    assert_eq!(claims.exp, Some(7));
    assert!(claims.scopes().is_empty());
    assert_eq!(claims.extra, vec![("nbf".to_string(), json("1"))]);

    for text in ["[]", "{}", r#"{"sub":1}"#, r#"{"sub":"u","exp":"x"}"#, r#"{"sub":"u","scope":[]}"#] {
        assert!(matches!(
            Claims::from_json(json(text)),
            Err(AuthError::InvalidToken(_))
        ));
    }
}

#[test]
fn decoded_claims_are_read() {
    let claims = claims_of(Ok(json(r#"{"sub":"u"}"#))).unwrap();
    assert_eq!(claims.sub, "u");
}

// ── Certificates ────────────────────────────────────────────────────────────

#[test]
fn missing_cert_when_required_fails() {
    let provider = MtlsProvider::new(true);
    let extensions = Extensions::new();
    assert!(matches!(
        provider.verify(&extensions),
        Err(AuthError::MissingClientCert)
    ));
}

#[test]
fn missing_cert_when_optional_returns_none() {
    let provider = MtlsProvider::new(false);
    let extensions = Extensions::new();
    assert!(matches!(provider.verify(&extensions), Ok(None)));
}

#[test]
fn certificates_are_known_by_their_fingerprint() {
    let mut extensions = Extensions::new();
    let cert = PeerCertificate(CertificateDer::from(vec![0x80, 1, 1]));
    extensions.insert(cert.clone());
    let identity = MtlsProvider::new(true).verify(&extensions).unwrap().unwrap();
    assert_eq!(identity.subject_dn, "(unknown)");
    assert_eq!(identity.issuer_dn, "(unknown)");
    assert_eq!(
        identity.fingerprint,
        "f8617e8d8bb3f55e1f9c77fa2e24589211fc4e8ef69e04540b44981ce887db12"
    );
    assert_eq!(identity.fingerprint, fingerprint(&[0x80, 1, 1]));
}

#[test]
fn fingerprints_are_sha_256() {
    assert_eq!(
        fingerprint(b""),
        "e3b0c44298fc1c149afbf4c8996fb92427ae41e4649b934ca495991b7852b855"
    );
    assert_eq!(
        fingerprint(b"abc"),
        "ba7816bf8f01cfea414140de5dae2223b00361a396177a9cb410ff61f20015ad"
    );
}

// ── The pipeline ────────────────────────────────────────────────────────────

fn enabled(jwt: bool, api_key: bool, mtls: bool) -> AuthMiddlewareConfig {
    AuthMiddlewareConfig { jwt, api_key, mtls }
}

fn some_claims() -> Claims {
    Claims::from_json(json(r#"{"sub":"from-token"}"#)).unwrap()
}

fn some_identity() -> PeerIdentity {
    PeerIdentity {
        subject_dn: "CN=client".into(),
        issuer_dn: "CN=ca".into(),
        fingerprint: "00".into(),
    }
}

/// Run the pipeline with every mechanism answering well.
fn run(cfg: AuthMiddlewareConfig) -> Result<Option<AuthContext>, AuthError> {
    let mut state = begin(Some(&cfg));
    loop {
        state = match state {
            AuthState::NeedsJwt(p) => p.jwt_checked(Ok(some_claims())),
            AuthState::NeedsApiKey(p) => {
                p.api_key_checked(Ok(ApiKeyRecord { subject: "from-key".into(), active: true }))
            }
            AuthState::NeedsMtls(p) => p.mtls_checked(Ok(Some(some_identity()))),
            AuthState::Finished(r) => return r,
        };
    }
}

#[test]
fn all_disabled_returns_none() {
    let cfg = AuthMiddlewareConfig { jwt: false, api_key: false, mtls: false };
    assert!(!cfg.jwt && !cfg.api_key && !cfg.mtls);
    assert!(matches!(begin(Some(&cfg)), AuthState::Finished(Ok(None))));
    assert!(matches!(begin(None), AuthState::Finished(Ok(None))));
}

#[test]
fn every_enabled_mechanism_is_asked() {
    for bits in 1u8..8 {
        let cfg = enabled(bits & 1 != 0, bits & 2 != 0, bits & 4 != 0);
        let ctx = run(cfg).unwrap().unwrap();
        let mut expected = vec![];
        if cfg.jwt {
            expected.push(AuthMechanism::Jwt);
        }
        if cfg.api_key {
            expected.push(AuthMechanism::ApiKey);
        }
        if cfg.mtls {
            expected.push(AuthMechanism::Mtls);
        }
        assert_eq!(ctx.mechanisms, expected);
        assert_eq!(ctx.claims.is_some(), cfg.jwt);
        assert_eq!(ctx.peer_identity.is_some(), cfg.mtls);
    }
}

#[test]
fn the_first_mechanism_names_the_caller() {
    assert_eq!(run(enabled(true, true, true)).unwrap().unwrap().subject, "from-token");
    assert_eq!(run(enabled(false, true, true)).unwrap().unwrap().subject, "from-key");
    assert_eq!(run(enabled(false, false, true)).unwrap().unwrap().subject, "CN=client");
}

#[test]
fn the_first_failure_ends_the_pipeline() {
    let cfg = enabled(true, true, true);
    match begin(Some(&cfg)) {
        AuthState::NeedsJwt(p) => assert!(matches!(
            p.jwt_checked(Err(AuthError::MissingToken)),
            AuthState::Finished(Err(AuthError::MissingToken))
        )),
        _ => panic!("the token was not asked for"),
    }
    match begin(Some(&enabled(false, true, true))) {
        AuthState::NeedsApiKey(p) => assert!(matches!(
            p.api_key_checked(Err(AuthError::InvalidApiKey)),
            AuthState::Finished(Err(AuthError::InvalidApiKey))
        )),
        _ => panic!("the key was not asked for"),
    }
}

#[test]
fn a_route_with_certificates_demands_one() {
    match begin(Some(&enabled(false, false, true))) {
        AuthState::NeedsMtls(p) => assert!(matches!(
            p.mtls_checked(Ok(None)),
            AuthState::Finished(Err(AuthError::MissingClientCert))
        )),
        _ => panic!("the certificate was not asked for"),
    }
}

//! Running the mechanisms that a route asks for.

use vstd::prelude::*;

use crate::auth::api_key::ApiKeyRecord;
use crate::auth::context::{AuthContext, AuthMechanism, Claims, PeerIdentity};
use crate::auth::error::AuthError;
use crate::config::schema::AuthMiddlewareConfig;

verus! {

/// What is known of a caller on the way through the mechanisms.
#[derive(Debug)]
pub struct AuthProgress {
    cfg: AuthMiddlewareConfig,
    subject: Option<String>,
    mechanisms: Vec<AuthMechanism>,
    claims: Option<Claims>,
    peer_identity: Option<PeerIdentity>,
}

/// What authentication needs next.
///
/// The mechanisms run in the order of the variants. Each of those that a route enables has
/// to be passed, and the first that is not ends the run.
#[derive(Debug)]
pub enum AuthState {
    /// The bearer token has to be checked.
    NeedsJwt(AuthProgress),
    /// The API key has to be checked.
    NeedsApiKey(AuthProgress),
    /// The client certificate has to be checked.
    NeedsMtls(AuthProgress),
    /// A caller whose identity is certain, a route that is open to all, or a refusal.
    Finished(Result<Option<AuthContext>, AuthError>),
}

// ── The model ───────────────────────────────────────────────────────────────

/// What is known of a caller.
pub struct CallerView {
    pub subject: Option<Seq<char>>,
    pub mechanisms: Seq<AuthMechanism>,
    pub claims: Option<Claims>,
    pub peer_identity: Option<PeerIdentity>,
}

/// What authentication needs next.
pub enum StateView {
    NeedsJwt(AuthMiddlewareConfig, CallerView),
    NeedsApiKey(AuthMiddlewareConfig, CallerView),
    NeedsMtls(AuthMiddlewareConfig, CallerView),
    Open,
    Known(CallerView),
    Refused(AuthError),
}

/// Nothing is known of a caller at the start.
pub open spec fn nobody() -> CallerView {
    CallerView { subject: None, mechanisms: Seq::empty(), claims: None, peer_identity: None }
}

/// Whether a route enables no mechanism at all.
pub open spec fn is_open(cfg: Option<AuthMiddlewareConfig>) -> bool {
    match cfg {
        Some(cfg) => !cfg.jwt && !cfg.api_key && !cfg.mtls,
        None => true,
    }
}

/// What comes after the API key.
pub open spec fn then_mtls(cfg: AuthMiddlewareConfig, who: CallerView) -> StateView {
    if cfg.mtls {
        StateView::NeedsMtls(cfg, who)
    } else {
        StateView::Known(who)
    }
}

/// What comes after the bearer token.
pub open spec fn then_api_key(cfg: AuthMiddlewareConfig, who: CallerView) -> StateView {
    if cfg.api_key {
        StateView::NeedsApiKey(cfg, who)
    } else {
        then_mtls(cfg, who)
    }
}

/// The start of a run.
pub open spec fn begun(cfg: Option<AuthMiddlewareConfig>) -> StateView {
    if is_open(cfg) {
        StateView::Open
    } else if cfg->0.jwt {
        StateView::NeedsJwt(cfg->0, nobody())
    } else {
        then_api_key(cfg->0, nobody())
    }
}

/// The subject of a caller whom another mechanism calls `name`: what came first counts.
pub open spec fn first_subject(who: CallerView, name: Seq<char>) -> Option<Seq<char>> {
    if who.subject is Some {
        who.subject
    } else {
        Some(name)
    }
}

/// The run after the bearer token was checked.
pub open spec fn after_jwt(
    cfg: AuthMiddlewareConfig,
    who: CallerView,
    result: Result<Claims, AuthError>,
) -> StateView {
    match result {
        Ok(claims) => then_api_key(
            cfg,
            CallerView {
                subject: first_subject(who, claims.sub@),
                mechanisms: who.mechanisms.push(AuthMechanism::Jwt),
                claims: Some(claims),
                ..who
            },
        ),
        Err(e) => StateView::Refused(e),
    }
}

/// The run after the API key was checked.
pub open spec fn after_api_key(
    cfg: AuthMiddlewareConfig,
    who: CallerView,
    result: Result<ApiKeyRecord, AuthError>,
) -> StateView {
    match result {
        Ok(record) => then_mtls(
            cfg,
            CallerView {
                subject: first_subject(who, record.subject@),
                mechanisms: who.mechanisms.push(AuthMechanism::ApiKey),
                ..who
            },
        ),
        Err(e) => StateView::Refused(e),
    }
}

/// The run after the client certificate was checked. A route that asks for a certificate
/// refuses a caller without one.
pub open spec fn after_mtls(
    who: CallerView,
    result: Result<Option<PeerIdentity>, AuthError>,
) -> StateView {
    match result {
        Ok(Some(identity)) => StateView::Known(
            CallerView {
                subject: first_subject(who, identity.subject_dn@),
                mechanisms: who.mechanisms.push(AuthMechanism::Mtls),
                peer_identity: Some(identity),
                ..who
            },
        ),
        Ok(None) => StateView::Refused(AuthError::MissingClientCert),
        Err(e) => StateView::Refused(e),
    }
}

impl AuthProgress {
    pub closed spec fn config(&self) -> AuthMiddlewareConfig {
        self.cfg
    }

    pub closed spec fn who(&self) -> CallerView {
        CallerView {
            subject: match self.subject {
                Some(s) => Some(s@),
                None => None,
            },
            mechanisms: self.mechanisms@,
            claims: self.claims,
            peer_identity: self.peer_identity,
        }
    }
}

impl AuthContext {
    pub open spec fn who(&self) -> CallerView {
        CallerView {
            subject: Some(self.subject@),
            mechanisms: self.mechanisms@,
            claims: self.claims,
            peer_identity: self.peer_identity,
        }
    }
}

impl AuthState {
    pub open spec fn view(&self) -> StateView {
        match self {
            AuthState::NeedsJwt(p) => StateView::NeedsJwt(p.config(), p.who()),
            AuthState::NeedsApiKey(p) => StateView::NeedsApiKey(p.config(), p.who()),
            AuthState::NeedsMtls(p) => StateView::NeedsMtls(p.config(), p.who()),
            AuthState::Finished(Ok(None)) => StateView::Open,
            AuthState::Finished(Ok(Some(ctx))) => StateView::Known(ctx.who()),
            AuthState::Finished(Err(e)) => StateView::Refused(*e),
        }
    }
}

// ── The run ─────────────────────────────────────────────────────────────────

/// Begin to authenticate the caller of a route.
pub fn begin(cfg: Option<&AuthMiddlewareConfig>) -> (r: AuthState)
    ensures
        r.view() == begun(
            match cfg {
                Some(c) => Some(*c),
                None => None,
            },
        ),
{
    match cfg {
        Some(c) => {
            if !c.jwt && !c.api_key && !c.mtls {
                return AuthState::Finished(Ok(None));
            }
            let p = AuthProgress {
                cfg: *c,
                subject: None,
                mechanisms: Vec::new(),
                claims: None,
                peer_identity: None,
            };
            proof {
                assert(p.who() == nobody());
            }
            if c.jwt {
                AuthState::NeedsJwt(p)
            } else {
                p.to_api_key()
            }
        },
        None => AuthState::Finished(Ok(None)),
    }
}

impl AuthProgress {
    fn to_api_key(self) -> (r: AuthState)
        requires
            self.who().subject is None ==> self.config().api_key || self.config().mtls,
        ensures
            r.view() == then_api_key(self.config(), self.who()),
    {
        if self.cfg.api_key {
            AuthState::NeedsApiKey(self)
        } else {
            self.to_mtls()
        }
    }

    fn to_mtls(self) -> (r: AuthState)
        requires
            self.who().subject is None ==> self.config().mtls,
        ensures
            r.view() == then_mtls(self.config(), self.who()),
    {
        if self.cfg.mtls {
            AuthState::NeedsMtls(self)
        } else {
            self.finish()
        }
    }

    fn finish(self) -> (r: AuthState)
        requires
            self.who().subject is Some,
        ensures
            r.view() == StateView::Known(self.who()),
    {
        match self.subject {
            Some(subject) => AuthState::Finished(
                Ok(
                    Some(
                        AuthContext {
                            subject,
                            mechanisms: self.mechanisms,
                            claims: self.claims,
                            peer_identity: self.peer_identity,
                        },
                    ),
                ),
            ),
            None => AuthState::Finished(Ok(None)),
        }
    }

    fn name(&mut self, subject: &str)
        ensures
            final(self).config() == old(self).config(),
            final(self).who() == (CallerView {
                subject: first_subject(old(self).who(), subject@),
                ..old(self).who()
            }),
    {
        if self.subject.is_none() {
            self.subject = Some(subject.to_owned());
        }
    }

    fn pass(&mut self, mechanism: AuthMechanism)
        ensures
            final(self).config() == old(self).config(),
            final(self).who() == (CallerView {
                mechanisms: old(self).who().mechanisms.push(mechanism),
                ..old(self).who()
            }),
    {
        self.mechanisms.push(mechanism);
    }

    /// Go on after the bearer token was checked.
    pub fn jwt_checked(self, result: Result<Claims, AuthError>) -> (r: AuthState)
        ensures
            r.view() == after_jwt(self.config(), self.who(), result),
    {
        match result {
            Ok(claims) => {
                let mut p = self;
                p.name(claims.sub.as_str());
                p.claims = Some(claims);
                p.pass(AuthMechanism::Jwt);
                p.to_api_key()
            },
            Err(e) => AuthState::Finished(Err(e)),
        }
    }

    /// Go on after the API key was checked.
    pub fn api_key_checked(self, result: Result<ApiKeyRecord, AuthError>) -> (r: AuthState)
        ensures
            r.view() == after_api_key(self.config(), self.who(), result),
    {
        match result {
            Ok(record) => {
                let mut p = self;
                p.name(record.subject.as_str());
                p.pass(AuthMechanism::ApiKey);
                p.to_mtls()
            },
            Err(e) => AuthState::Finished(Err(e)),
        }
    }

    /// Go on after the client certificate was checked.
    pub fn mtls_checked(self, result: Result<Option<PeerIdentity>, AuthError>) -> (r: AuthState)
        ensures
            r.view() == after_mtls(self.who(), result),
    {
        match result {
            Ok(Some(identity)) => {
                let mut p = self;
                p.name(identity.subject_dn.as_str());
                p.peer_identity = Some(identity);
                p.pass(AuthMechanism::Mtls);
                p.finish()
            },
            Ok(None) => AuthState::Finished(Err(AuthError::MissingClientCert)),
            Err(e) => AuthState::Finished(Err(e)),
        }
    }
}

// ── Laws ────────────────────────────────────────────────────────────────────

/// What each mechanism would say of a caller.
pub struct Answers {
    pub jwt: Result<Claims, AuthError>,
    pub api_key: Result<ApiKeyRecord, AuthError>,
    pub mtls: Result<Option<PeerIdentity>, AuthError>,
}

/// The end of the run from the client certificate on.
pub open spec fn end_from_mtls(state: StateView, answers: Answers) -> StateView {
    match state {
        StateView::NeedsMtls(cfg, who) => after_mtls(who, answers.mtls),
        _ => state,
    }
}

/// The end of the run from the API key on.
pub open spec fn end_from_api_key(state: StateView, answers: Answers) -> StateView {
    match state {
        StateView::NeedsApiKey(cfg, who) => end_from_mtls(
            after_api_key(cfg, who, answers.api_key),
            answers,
        ),
        _ => end_from_mtls(state, answers),
    }
}

/// The end of the run for a caller, given what each mechanism says of it.
pub open spec fn verdict(cfg: Option<AuthMiddlewareConfig>, answers: Answers) -> StateView {
    match begun(cfg) {
        StateView::NeedsJwt(c, who) => end_from_api_key(after_jwt(c, who, answers.jwt), answers),
        state => end_from_api_key(state, answers),
    }
}

/// Every run ends: the caller is known, the route is open, or the caller is refused.
pub proof fn law_every_run_ends(cfg: Option<AuthMiddlewareConfig>, answers: Answers)
    ensures
        verdict(cfg, answers) is Known || verdict(cfg, answers) is Open || verdict(
            cfg,
            answers,
        ) is Refused,
{
}

/// A route is open to all exactly if it enables no mechanism.
pub proof fn law_open_routes_enable_nothing(cfg: Option<AuthMiddlewareConfig>, answers: Answers)
    ensures
        verdict(cfg, answers) is Open <==> is_open(cfg),
{
}

/// A caller is let in exactly if it passes every mechanism that the route enables.
pub proof fn law_every_enabled_mechanism_has_to_be_passed(
    cfg: AuthMiddlewareConfig,
    answers: Answers,
)
    requires
        !is_open(Some(cfg)),
    ensures
        verdict(Some(cfg), answers) is Known <==> {
            &&& cfg.jwt ==> answers.jwt is Ok
            &&& cfg.api_key ==> answers.api_key is Ok
            &&& cfg.mtls ==> (answers.mtls matches Ok(Some(_)))
        },
{
}

/// The first mechanism that is not passed gives the refusal, whatever the later ones
/// would say.
pub proof fn law_first_failure_decides(cfg: AuthMiddlewareConfig, answers: Answers, e: AuthError)
    requires
        !is_open(Some(cfg)),
    ensures
        cfg.jwt && answers.jwt == Err::<Claims, AuthError>(e) ==> verdict(Some(cfg), answers)
            == StateView::Refused(e),
        (cfg.jwt ==> answers.jwt is Ok) && cfg.api_key && answers.api_key == Err::<
            ApiKeyRecord,
            AuthError,
        >(e) ==> verdict(Some(cfg), answers) == StateView::Refused(e),
        (cfg.jwt ==> answers.jwt is Ok) && (cfg.api_key ==> answers.api_key is Ok) && cfg.mtls
            && answers.mtls == Err::<Option<PeerIdentity>, AuthError>(e) ==> verdict(
            Some(cfg),
            answers,
        ) == StateView::Refused(e),
        (cfg.jwt ==> answers.jwt is Ok) && (cfg.api_key ==> answers.api_key is Ok) && cfg.mtls
            && answers.mtls == Ok::<Option<PeerIdentity>, AuthError>(None) ==> verdict(
            Some(cfg),
            answers,
        ) == StateView::Refused(AuthError::MissingClientCert),
{
}

/// A caller goes by the subject of the token where one was asked for, else by the owner of
/// the API key, else by the subject of the certificate; and it is noted what was passed.
pub proof fn law_who_the_caller_is(cfg: AuthMiddlewareConfig, answers: Answers)
    requires
        !is_open(Some(cfg)),
        verdict(Some(cfg), answers) is Known,
    ensures
        verdict(Some(cfg), answers) matches StateView::Known(who) && {
            &&& who.subject == Some(
                if cfg.jwt {
                    answers.jwt->Ok_0.sub@
                } else if cfg.api_key {
                    answers.api_key->Ok_0.subject@
                } else {
                    answers.mtls->Ok_0->0.subject_dn@
                },
            )
            &&& who.claims is Some <==> cfg.jwt
            &&& who.peer_identity is Some <==> cfg.mtls
            &&& who.mechanisms == (if cfg.jwt {
                seq![AuthMechanism::Jwt]
            } else {
                Seq::empty()
            }) + (if cfg.api_key {
                seq![AuthMechanism::ApiKey]
            } else {
                Seq::empty()
            }) + (if cfg.mtls {
                seq![AuthMechanism::Mtls]
            } else {
                Seq::empty()
            })
        },
{
    let who = verdict(Some(cfg), answers)->Known_0;
    assert(who.mechanisms =~= (if cfg.jwt {
        seq![AuthMechanism::Jwt]
    } else {
        Seq::empty()
    }) + (if cfg.api_key {
        seq![AuthMechanism::ApiKey]
    } else {
        Seq::empty()
    }) + (if cfg.mtls {
        seq![AuthMechanism::Mtls]
    } else {
        Seq::empty()
    }));
}

/// A route asks for nothing exactly if it has no section on authentication, or one that
/// enables none of the three mechanisms.
pub proof fn law_three_mechanisms_can_be_enabled(cfg: AuthMiddlewareConfig, answers: Answers)
    ensures
        verdict(None, answers) is Open,
        verdict(Some(cfg), answers) is Open <==> !cfg.jwt && !cfg.api_key && !cfg.mtls,
{
}

/// The mechanisms are asked in their order: the token first, then the API key, then the
/// certificate, each only where the route enables it and those before it were passed.
pub proof fn law_mechanisms_are_asked_in_order(
    cfg: AuthMiddlewareConfig,
    who: CallerView,
    claims: Claims,
    record: ApiKeyRecord,
)
    ensures
        cfg.jwt ==> begun(Some(cfg)) is NeedsJwt,
        !cfg.jwt && cfg.api_key ==> begun(Some(cfg)) is NeedsApiKey,
        !cfg.jwt && !cfg.api_key && cfg.mtls ==> begun(Some(cfg)) is NeedsMtls,
        cfg.api_key ==> after_jwt(cfg, who, Ok(claims)) is NeedsApiKey,
        !cfg.api_key && cfg.mtls ==> after_jwt(cfg, who, Ok(claims)) is NeedsMtls,
        !cfg.api_key && !cfg.mtls ==> after_jwt(cfg, who, Ok(claims)) is Known,
        cfg.mtls ==> after_api_key(cfg, who, Ok(record)) is NeedsMtls,
        !cfg.mtls ==> after_api_key(cfg, who, Ok(record)) is Known,
{
}

/// A caller who is let in carries the claims of its token and the identity of its certificate,
/// unchanged, where these were asked for, and nothing where they were not.
pub proof fn law_caller_carries_its_proofs(cfg: AuthMiddlewareConfig, answers: Answers)
    requires
        cfg.jwt || cfg.api_key || cfg.mtls,
        verdict(Some(cfg), answers) is Known,
    ensures
        verdict(Some(cfg), answers) matches StateView::Known(who) && {
            &&& cfg.jwt ==> who.claims == Some(answers.jwt->Ok_0)
            &&& !cfg.jwt ==> who.claims is None
            &&& cfg.mtls ==> who.peer_identity == answers.mtls->Ok_0
            &&& !cfg.mtls ==> who.peer_identity is None
        },
{
}

} // verus!

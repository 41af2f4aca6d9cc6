//! Who is let in.

use std::sync::Arc;
use vstd::prelude::*;
use crate::text::{same_text, strip_prefix};

verus! {

/// The status code of a request that is not let in.
pub const UNAUTHORIZED: u16 = 401;

/// Whether requests have to be authorised, and with what.
#[derive(Clone, Debug, PartialEq, Eq)]
pub struct AuthorizationConfig {
    pub enabled: bool,
    pub token: String,
}

/// What requests are checked against.
#[derive(Clone, Debug)]
pub struct AuthState {
    pub config: Arc<AuthorizationConfig>,
}

impl AuthState {
    /// One that checks requests as configured.
    pub fn new(config: AuthorizationConfig) -> (r: AuthState)
        ensures
            *r.config == config,
    {
        AuthState { config: Arc::new(config) }
    }
}

/// The answer to a request that is not let in.
#[derive(Debug, PartialEq, Eq)]
pub struct Rejection {
    pub status: u16,
    pub error: String,
    pub message: String,
}

/// What becomes of a request.
#[derive(Debug, PartialEq, Eq)]
pub enum AuthDecision {
    /// It goes on.
    Pass,
    /// It is answered at once.
    Reject(Rejection),
}

/// The token that a header holds: behind the word `Bearer` and a space where it begins so,
/// otherwise all of it.
pub open spec fn token_of(header: Seq<char>) -> Seq<char> {
    if "Bearer "@.is_prefix_of(header) {
        header.skip("Bearer "@.len() as int)
    } else {
        header
    }
}

/// Whether a request with the given header is let in.
pub open spec fn let_in(config: AuthorizationConfig, header: Option<Seq<char>>) -> bool {
    !config.enabled || (header is Some && token_of(header->0) == config.token@)
}

/// What a request that is not let in is told.
pub open spec fn turned_away_with(header: Option<Seq<char>>) -> Seq<char> {
    if header is Some {
        "Invalid authorization token"@
    } else {
        "Missing Authorization header"@
    }
}

/// The token lets a request in behind `Bearer` and a space. On its own it does too, unless it
/// begins with these itself.
pub proof fn law_token_lets_in(config: AuthorizationConfig)
    ensures
        let_in(config, Some("Bearer "@ + config.token@)),
        !"Bearer "@.is_prefix_of(config.token@) ==> let_in(config, Some(config.token@)),
{
    let header = "Bearer "@ + config.token@;
    assert("Bearer "@.is_prefix_of(header)) by {
        assert(header.subrange(0, "Bearer "@.len() as int) =~= "Bearer "@);
    }
    assert(header.skip("Bearer "@.len() as int) =~= config.token@);
}

/// Where requests have to be authorised nothing but the token lets one in: whatever header is
/// accepted is the token, on its own or behind `Bearer` and a space.
pub proof fn law_only_token_lets_in(config: AuthorizationConfig, header: Option<Seq<char>>)
    requires
        config.enabled,
        let_in(config, header),
    ensures
        header == Some("Bearer "@ + config.token@) || header == Some(config.token@),
{
    let h = header->0;
    if "Bearer "@.is_prefix_of(h) {
        assert(h =~= "Bearer "@ + h.skip("Bearer "@.len() as int)) by {
            assert(h.subrange(0, "Bearer "@.len() as int) =~= "Bearer "@);
            assert forall|i: int| 0 <= i < "Bearer "@.len() implies h[i] == "Bearer "@[i] by {
                assert(h.subrange(0, "Bearer "@.len() as int)[i] == h[i]);
            }
        }
    }
}

/// Where requests need not be authorised every one is let in, with whatever header or none; where
/// they have to be, one without a header is not.
pub proof fn law_authorization_can_be_off(config: AuthorizationConfig, header: Option<Seq<char>>)
    ensures
        !config.enabled ==> let_in(config, header),
        config.enabled ==> !let_in(config, None),
{
}

/// What a header holds besides `Bearer` and a space is compared with the token as it is: of two
/// headers that differ in it at most one lets a request in.
pub proof fn law_token_is_compared_whole(config: AuthorizationConfig, a: Seq<char>, b: Seq<char>)
    requires
        config.enabled,
        a != b,
    ensures
        !(let_in(config, Some("Bearer "@ + a)) && let_in(config, Some("Bearer "@ + b))),
{
    let x = "Bearer "@ + a;
    let y = "Bearer "@ + b;
    let n = "Bearer "@.len() as int;
    assert(x.subrange(0, n) =~= "Bearer "@);
    assert(y.subrange(0, n) =~= "Bearer "@);
    assert(x.skip(n) =~= a);
    assert(y.skip(n) =~= b);
}

/// A request that is not let in is told whether its header is missing or wrong, with the status
/// code 401.
pub proof fn law_refused_requests_are_told_why(header: Seq<char>)
    ensures
        turned_away_with(None) == "Missing Authorization header"@,
        turned_away_with(Some(header)) == "Invalid authorization token"@,
        UNAUTHORIZED == 401,
{
}

/// Decides on a request by its authorization header, where it has one that is text.
pub fn auth_middleware(auth: &AuthState, header: Option<&str>) -> (r: AuthDecision)
    ensures
        r is Pass <==> let_in(
            *auth.config,
            match header {
                Some(h) => Some(h@),
                None => None,
            },
        ),
        r matches AuthDecision::Reject(rejection) ==> rejection.status == UNAUTHORIZED
            && rejection.error@ == "Unauthorized"@ && rejection.message@ == turned_away_with(
            match header {
                Some(h) => Some(h@),
                None => None,
            },
        ),
{
    if !auth.config.enabled {
        return AuthDecision::Pass;
    }
    match header {
        Some(h) => {
            let token = match strip_prefix(h, "Bearer ") {
                Some(t) => t,
                None => h.to_owned(),
            };
            if same_text(token.as_str(), auth.config.token.as_str()) {
                AuthDecision::Pass
            } else {
                AuthDecision::Reject(unauthorized_response("Invalid authorization token"))
            }
        },
        None => AuthDecision::Reject(unauthorized_response("Missing Authorization header")),
    }
}

/// The answer to a request that is not let in, for the given reason.
pub fn unauthorized_response(message: &str) -> (r: Rejection)
    ensures
        r.status == UNAUTHORIZED,
        r.error@ == "Unauthorized"@,
        r.message@ == message@,
{
    Rejection {
        status: UNAUTHORIZED,
        error: "Unauthorized".to_owned(),
        message: message.to_owned(),
    }
}

} // verus!

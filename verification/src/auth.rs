//! The decisions of the authentication flow: which client identifier to
//! use, when a stored token is still fresh, how a token's expiry instant is
//! fixed up, and what a device-flow polling error means.

use vstd::prelude::*;

verus! {

/// The device-flow bootstrap response of the identity service.
#[derive(Debug, Clone)]
pub struct DeviceCodeResponse {
    pub device_code: String,
    pub user_code: String,
    pub verification_uri: String,
    pub expires_in: u64,
    pub interval: u64,
    pub message: String,
}

/// A token grant of the identity service, with the absolute expiry instant
/// this client computes for it.
#[derive(Debug, Clone)]
pub struct TokenResponse {
    pub access_token: String,
    pub token_type: String,
    pub expires_in: u64,
    pub refresh_token: Option<String>,
    pub expires_at: u64,
}

/// The identifier this client registers as when none is configured.
pub fn fallback_client_id() -> (r: String)
    ensures
        r@ == "d3590ed6-52b3-4102-aeff-aad2292ab01c"@,
{
    "d3590ed6-52b3-4102-aeff-aad2292ab01c".to_owned()
}

/// Choose the client identifier: the environment wins, then the
/// configuration file, then the fixed fallback. The flag says whether the
/// fallback was taken (so the caller can warn).
pub fn choose_client_id(env_value: Option<String>, config_value: Option<String>) -> (r: (
    String,
    bool,
))
    ensures
        match (env_value, config_value) {
            (Some(e), _) => r.0@ == e@ && !r.1,
            (None, Some(c)) => r.0@ == c@ && !r.1,
            (None, None) => r.0@ == "d3590ed6-52b3-4102-aeff-aad2292ab01c"@ && r.1,
        },
{
    match env_value {
        Some(e) => (e, false),
        None => match config_value {
            Some(c) => (c, false),
            None => (fallback_client_id(), true),
        },
    }
}

/// A stored token is still usable at `now`: its expiry lies more than the
/// five-minute buffer ahead.
pub open spec fn spec_token_fresh(expires_at: int, now: int) -> bool {
    expires_at > now + 300
}

/// Whether a stored token is still usable at `now`.
pub fn token_is_fresh(expires_at: u64, now: u64) -> (r: bool)
    ensures
        r == spec_token_fresh(expires_at as int, now as int),
{
    if now <= u64::MAX - 300 {
        expires_at > now + 300
    } else {
        false
    }
}

/// The absolute expiry instant of a grant received at `now`, held at the
/// clock type's limit.
pub open spec fn spec_expiry_at(now: int, expires_in: int) -> int {
    if now + expires_in <= u64::MAX {
        now + expires_in
    } else {
        u64::MAX as int
    }
}

/// Stamp a freshly received grant with its absolute expiry instant.
pub fn stamp_token_expiry(token: TokenResponse, now: u64) -> (r: TokenResponse)
    ensures
        r == (TokenResponse { expires_at: r.expires_at, ..token }),
        r.expires_at as int == spec_expiry_at(now as int, token.expires_in as int),
{
    let expires_at: u64 = if token.expires_in <= u64::MAX - now {
        now + token.expires_in
    } else {
        u64::MAX
    };
    TokenResponse { expires_at, ..token }
}

/// A stored token whose expiry was never stamped (it reads zero) is given
/// one as of `now`; a stamped one is kept as it is.
pub fn fix_loaded_token(token: TokenResponse, now: u64) -> (r: TokenResponse)
    ensures
        token.expires_at != 0 ==> r == token,
        token.expires_at == 0 ==> (r == (TokenResponse { expires_at: r.expires_at, ..token })
            && r.expires_at as int == spec_expiry_at(now as int, token.expires_in as int)),
{
    if token.expires_at == 0 {
        stamp_token_expiry(token, now)
    } else {
        token
    }
}

/// What a device-flow polling error demands: keep polling, or stop with the
/// fixed message for a declined or expired authorization, or stop and show
/// the service's own error code.
#[derive(PartialEq, Eq, Structural, Clone, Copy, Debug)]
pub enum PollDecision {
    KeepPolling,
    Declined,
    Expired,
    OtherError,
}

/// The decision for one polling error code.
pub open spec fn spec_poll_decision(error: Seq<char>) -> PollDecision {
    if error == "authorization_pending"@ {
        PollDecision::KeepPolling
    } else if error == "authorization_declined"@ {
        PollDecision::Declined
    } else if error == "expired_token"@ {
        PollDecision::Expired
    } else {
        PollDecision::OtherError
    }
}

/// Decide what a device-flow polling error code means.
pub fn poll_decision(error: &str) -> (r: PollDecision)
    ensures
        r == spec_poll_decision(error@),
{
    if crate::api::str_eq(error, "authorization_pending") {
        PollDecision::KeepPolling
    } else if crate::api::str_eq(error, "authorization_declined") {
        PollDecision::Declined
    } else if crate::api::str_eq(error, "expired_token") {
        PollDecision::Expired
    } else {
        PollDecision::OtherError
    }
}

/// The message shown when the user declined the authorization.
pub fn declined_message() -> (r: String)
    ensures
        r@ == "User declined authorization"@,
{
    "User declined authorization".to_owned()
}

/// The message shown when the device code expired before the user finished.
pub fn expired_message() -> (r: String)
    ensures
        r@ == "Device code expired"@,
{
    "Device code expired".to_owned()
}

} // verus!

//! Authentication state for tool endpoints: token lifetimes and refresh.
//! The clock reading is always supplied by the caller, so every rule here is
//! exact.

use vstd::prelude::*;
use vstd::string::StringExecFns;
use crate::ids::{format_id, fresh_id, uuid_text};

verus! {

/// Authentication modes an endpoint can advertise.
#[derive(Clone, Copy, Debug, PartialEq, Eq, Structural)]
pub enum AuthMode {
    ServerManaged,
    ClientManaged,
}

/// Stored authentication state for one endpoint or provider.
#[derive(Clone, Debug)]
pub struct AuthState {
    pub mode: AuthMode,
    pub access_token: Option<String>,
    pub refresh_token: Option<String>,
    pub expires_at: Option<i64>,
}

/// How long a server-managed token lives, in milliseconds.
pub open spec fn server_token_life() -> int {
    3600000
}

/// How long a client-managed token lives, in milliseconds.
pub open spec fn client_token_life() -> int {
    1800000
}

/// The safety margin before expiry at which a token is refreshed.
pub open spec fn refresh_margin() -> int {
    60000
}

impl AuthState {
    /// A state with no tokens yet.
    pub fn new(mode: AuthMode) -> (r: AuthState)
        ensures
            r.mode == mode,
            r.access_token is None,
            r.refresh_token is None,
            r.expires_at is None,
    {
        AuthState { mode, access_token: None, refresh_token: None, expires_at: None }
    }

    /// Whether a refresh is due at clock reading `now`: there is no token, or
    /// the token expires within the safety margin.
    pub fn needs_refresh(&self, now: i64) -> (r: bool)
        requires
            now + refresh_margin() <= i64::MAX,
        ensures
            r == (match (self.access_token, self.expires_at) {
                (Some(t), Some(exp)) => now + refresh_margin() >= exp,
                (Some(t), None) => false,
                _ => true,
            }),
    {
        match (&self.access_token, &self.expires_at) {
            (Some(_), Some(exp)) => now + 60000 >= *exp,
            (Some(_), None) => false,
            _ => true,
        }
    }

    /// Refreshes the tokens for the given mode at clock reading `now`: a
    /// server-managed refresh yields only an access token for an hour; a
    /// client-managed one also yields a refresh token and lives half an
    /// hour. The stored mode is left as it was.
    pub fn refresh(&mut self, mode: AuthMode, now: i64)
        requires
            now + server_token_life() <= i64::MAX,
        ensures
            final(self).mode == old(self).mode,
            match mode {
                AuthMode::ServerManaged => {
                    &&& (final(self).access_token matches Some(t) && exists|id: u128|
                        t@ == "server-token-"@ + uuid_text(id))
                    &&& final(self).refresh_token is None
                    &&& final(self).expires_at == Some((now + server_token_life()) as i64)
                },
                AuthMode::ClientManaged => {
                    &&& (final(self).access_token matches Some(t) && exists|id: u128|
                        t@ == "client-token-"@ + uuid_text(id))
                    &&& (final(self).refresh_token matches Some(t) && exists|id: u128|
                        t@ == "refresh-"@ + uuid_text(id))
                    &&& final(self).expires_at == Some((now + client_token_life()) as i64)
                },
            },
    {
        match mode {
            AuthMode::ServerManaged => {
                let id = fresh_id();
                let mut token = String::new();
                token.append("server-token-");
                let text = format_id(id);
                token.append(text.as_str());
                proof {
                    assert(token@ =~= "server-token-"@ + uuid_text(id));
                }
                self.access_token = Some(token);
                self.refresh_token = None;
                self.expires_at = Some(now + 3600000);
            },
            AuthMode::ClientManaged => {
                let id = fresh_id();
                let mut token = String::new();
                token.append("client-token-");
                let text = format_id(id);
                token.append(text.as_str());
                proof {
                    assert(token@ =~= "client-token-"@ + uuid_text(id));
                }
                self.access_token = Some(token);
                let rid = fresh_id();
                let mut rtoken = String::new();
                rtoken.append("refresh-");
                let rtext = format_id(rid);
                rtoken.append(rtext.as_str());
                proof {
                    assert(rtoken@ =~= "refresh-"@ + uuid_text(rid));
                }
                self.refresh_token = Some(rtoken);
                self.expires_at = Some(now + 1800000);
            },
        }
    }

    /// A freshly refreshed state, for exercising credential reuse in tests.
    pub fn hydrate_for_testing(mode: AuthMode, now: i64) -> (r: AuthState)
        requires
            now + server_token_life() <= i64::MAX,
        ensures
            r.mode == mode,
            r.access_token is Some,
            r.expires_at is Some,
    {
        let mut state = AuthState::new(mode);
        state.refresh(mode, now);
        state
    }
}

} // verus!

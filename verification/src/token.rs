//! The access-token lifecycle: the single persisted token slot, the expiry
//! rule, and the refresh-then-login fallback that reaches the remote vault.
//! Each step either installs a complete new token or leaves the previous
//! one intact; the slot is never partially updated.

use vstd::prelude::*;

use crate::errors::VaultError;

verus! {

/// A bearer token for the remote vault. `expires_in` is a lifetime in
/// seconds; absent means never-expiring. `created_timestamp` is the Unix
/// time the token was issued. Tokens are stored as they are, unencrypted:
/// they are bearer credentials, not passphrase-protected locally.
#[derive(Debug)]
pub struct AccessTokens {
    pub access_token: String,
    pub refresh_token: Option<String>,
    pub expires_in: Option<i64>,
    pub created_timestamp: i64,
}

/// The mathematical value of an `AccessTokens`.
#[verifier::ext_equal]
pub struct AccessTokensView {
    pub access_token: Seq<char>,
    pub refresh_token: Option<Seq<char>>,
    pub expires_in: Option<int>,
    pub created_timestamp: int,
}

impl View for AccessTokens {
    type V = AccessTokensView;

    open spec fn view(&self) -> AccessTokensView {
        AccessTokensView {
            access_token: self.access_token@,
            refresh_token: match self.refresh_token {
                Some(ref r) => Some(r@),
                None => None,
            },
            expires_in: match self.expires_in {
                Some(e) => Some(e as int),
                None => None,
            },
            created_timestamp: self.created_timestamp as int,
        }
    }
}

/// A token is expired exactly when it has a lifetime and that lifetime,
/// counted from its creation, has passed.
pub open spec fn token_expired(t: AccessTokensView, now: int) -> bool {
    &&& t.expires_in is Some
    &&& t.created_timestamp + t.expires_in.unwrap() <= now
}

impl AccessTokens {
    pub fn new(
        access_token: String,
        refresh_token: Option<String>,
        expires_in: Option<i64>,
        created_timestamp: i64,
    ) -> (r: AccessTokens)
        ensures
            r.access_token@ == access_token@,
            r@.refresh_token == (match refresh_token {
                Some(ref s) => Some::<Seq<char>>(s@),
                None => None::<Seq<char>>,
            }),
            r@.expires_in == (match expires_in {
                Some(e) => Some(e as int),
                None => None::<int>,
            }),
            r.created_timestamp == created_timestamp,
    {
        AccessTokens { access_token, refresh_token, expires_in, created_timestamp }
    }

    pub fn clone(&self) -> (r: AccessTokens)
        ensures
            r@ == self@,
    {
        let r = AccessTokens {
            access_token: self.access_token.clone(),
            refresh_token: match &self.refresh_token {
                Some(s) => Some(s.clone()),
                None => None,
            },
            expires_in: match self.expires_in {
                Some(e) => Some(e),
                None => None,
            },
            created_timestamp: self.created_timestamp,
        };
        proof {
            assert(r@ =~= self@);
        }
        r
    }

    /// Whether this token is expired at the given Unix time.
    pub fn is_expired(&self, now: i64) -> (r: bool)
        ensures
            r == token_expired(self@, now as int),
    {
        match self.expires_in {
            None => false,
            Some(e) => (self.created_timestamp as i128) + (e as i128) <= (now as i128),
        }
    }
}

impl PartialEq for AccessTokens {
    fn eq(&self, other: &AccessTokens) -> (r: bool) {
        let refresh_eq = match (&self.refresh_token, &other.refresh_token) {
            (Some(a), Some(b)) => *a == *b,
            (None, None) => true,
            _ => false,
        };
        let expires_eq = match (self.expires_in, other.expires_in) {
            (Some(a), Some(b)) => a == b,
            (None, None) => true,
            _ => false,
        };
        let r = self.access_token == other.access_token && refresh_eq && expires_eq
            && self.created_timestamp == other.created_timestamp;
        proof {
            if r {
                assert(self@ =~= other@);
            }
        }
        r
    }
}

impl vstd::std_specs::cmp::PartialEqSpecImpl for AccessTokens {
    open spec fn obeys_eq_spec() -> bool {
        true
    }

    open spec fn eq_spec(&self, other: &AccessTokens) -> bool {
        self@ == other@
    }
}

/// The single persisted token slot: at most one token at a time, replaced
/// whole on login or refresh.
pub struct TokenStore {
    pub slot: Option<AccessTokens>,
}

impl View for TokenStore {
    type V = Option<AccessTokensView>;

    open spec fn view(&self) -> Option<AccessTokensView> {
        match self.slot {
            Some(ref t) => Some(t@),
            None => None,
        }
    }
}

impl TokenStore {
    /// An empty slot: nobody has logged in.
    pub fn new() -> (r: TokenStore)
        ensures
            r@ is None,
    {
        TokenStore { slot: None }
    }

    /// A slot holding a token read from durable storage, if one exists.
    pub fn from_token(token: Option<AccessTokens>) -> (r: TokenStore)
        ensures
            match token {
                Some(ref t) => r@ == Some(t@),
                None => r@ is None,
            },
    {
        TokenStore { slot: token }
    }

    /// Whether a token is present: the mark of an active remote session.
    pub fn has_logged_in(&self) -> (r: bool)
        ensures
            r == (self@ is Some),
    {
        self.slot.is_some()
    }

    /// Overwrites the slot with a complete new token.
    pub fn store_access_token(&mut self, token: &AccessTokens)
        ensures
            final(self)@ == Some(token@),
    {
        self.slot = Some(token.clone());
    }

    /// The stored token, or `NotAuthenticated` when nobody has logged in.
    pub fn get_access_token(&self) -> (r: Result<AccessTokens, VaultError>)
        ensures
            match self@ {
                None => r == Err::<AccessTokens, VaultError>(VaultError::NotAuthenticated),
                Some(t) => r is Ok && r.unwrap()@ == t,
            },
    {
        match &self.slot {
            None => Err(VaultError::NotAuthenticated),
            Some(t) => Ok(t.clone()),
        }
    }

    /// Empties the slot.
    pub fn clear(&mut self)
        ensures
            final(self)@ is None,
    {
        self.slot = None;
    }

    /// The token-refresh fallback chain, as one step over the outcomes the
    /// remote collaborator produced. With no stored token the caller is not
    /// authenticated. A stored, unexpired token is returned unchanged and
    /// the slot is untouched. An expired token is replaced by the refreshed
    /// token when the refresh succeeded; when the refresh failed, by the
    /// token a fresh login produced; when both failed, the slot keeps the
    /// previous token and the failure is reported. Every branch installs a
    /// whole token or none.
    pub fn get_or_refresh(
        &mut self,
        now: i64,
        refresh_outcome: Option<AccessTokens>,
        login_outcome: Option<AccessTokens>,
    ) -> (r: Result<AccessTokens, VaultError>)
        ensures
            match old(self)@ {
                None => {
                    &&& r == Err::<AccessTokens, VaultError>(VaultError::NotAuthenticated)
                    &&& final(self)@ == old(self)@
                },
                Some(t) => {
                    if !token_expired(t, now as int) {
                        &&& r is Ok
                        &&& r.unwrap()@ == t
                        &&& final(self)@ == old(self)@
                    } else {
                        match refresh_outcome {
                            Some(ref rt) => {
                                &&& r is Ok
                                &&& r.unwrap()@ == rt@
                                &&& final(self)@ == Some(rt@)
                            },
                            None => match login_outcome {
                                Some(ref lt) => {
                                    &&& r is Ok
                                    &&& r.unwrap()@ == lt@
                                    &&& final(self)@ == Some(lt@)
                                },
                                None => {
                                    &&& r == Err::<AccessTokens, VaultError>(
                                        VaultError::RemoteVaultFailure,
                                    )
                                    &&& final(self)@ == old(self)@
                                },
                            },
                        }
                    }
                },
            },
    {
        let current = match &self.slot {
            None => {
                return Err(VaultError::NotAuthenticated);
            },
            Some(t) => t.clone(),
        };
        if !current.is_expired(now) {
            return Ok(current);
        }
        match refresh_outcome {
            Some(rt) => {
                self.store_access_token(&rt);
                Ok(rt)
            },
            None => match login_outcome {
                Some(lt) => {
                    self.store_access_token(&lt);
                    Ok(lt)
                },
                None => Err(VaultError::RemoteVaultFailure),
            },
        }
    }
}

} // verus!

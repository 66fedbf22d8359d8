//! How requests are authenticated.

use crate::component::opt_text;
use crate::config::{AuthMethod, AuthModel};
use crate::ics::{or_default, or_empty};
use crate::secrets::SecretKind;
use crate::sync::{SyncError, SyncErrorModel};
use vstd::prelude::*;

verus! {

/// What goes into a request.
#[derive(Debug)]
pub enum Authorization {
    /// Nothing.
    Anonymous,
    Basic { username: String, password: String },
    Bearer { token: String },
}

pub enum AuthorizationModel {
    Anonymous,
    Basic { username: Seq<char>, password: Seq<char> },
    Bearer { token: Seq<char> },
}

impl View for Authorization {
    type V = AuthorizationModel;

    open spec fn view(&self) -> AuthorizationModel {
        match self {
            Authorization::Anonymous => AuthorizationModel::Anonymous,
            Authorization::Basic { username, password } => AuthorizationModel::Basic {
                username: username@,
                password: password@,
            },
            Authorization::Bearer { token } => AuthorizationModel::Bearer { token: token@ },
        }
    }
}

/// The secret that a way of authenticating needs.
pub open spec fn secret_needed(auth: AuthModel) -> Option<SecretKind> {
    match auth {
        AuthModel::Anonymous => None,
        AuthModel::Basic { username } => Some(SecretKind::Password),
        AuthModel::Bearer => Some(SecretKind::BearerToken),
        AuthModel::Oidc { issuer_url, client_id, has_token, has_client_secret, scopes } =>
            if has_token {
            Some(SecretKind::OidcAccessToken)
        } else {
            None
        },
    }
}

/// The secret that a way of authenticating needs.
pub fn needed_secret(auth: &AuthMethod) -> (r: Option<SecretKind>)
    ensures
        r == secret_needed(auth@),
{
    match auth {
        AuthMethod::Anonymous => None,
        AuthMethod::Basic { username: _ } => Some(SecretKind::Password),
        AuthMethod::Bearer => Some(SecretKind::BearerToken),
        AuthMethod::Oidc {
            issuer_url: _,
            client_id: _,
            has_token,
            has_client_secret: _,
            scopes: _,
        } => if *has_token {
            Some(SecretKind::OidcAccessToken)
        } else {
            None
        },
    }
}

/// What the keyring holds of a secret, or why it could not be read.
pub type Lookup = Result<Option<String>, String>;

pub type LookupModel = Result<Option<Seq<char>>, Seq<char>>;

pub open spec fn lookup_view(found: Lookup) -> LookupModel {
    match found {
        Ok(secret) => Ok(opt_text(secret)),
        Err(e) => Err(e@),
    }
}

/// What goes into a CalDAV request of a source, given what the keyring holds of the
/// secret that it needs. A missing password is an empty one; a missing token is an error;
/// without an OIDC token the user has to sign in again.
pub open spec fn caldav_authorization(
    auth: AuthModel,
    source_id: Seq<char>,
    found: LookupModel,
) -> Result<AuthorizationModel, SyncErrorModel> {
    match auth {
        AuthModel::Anonymous => Ok(AuthorizationModel::Anonymous),
        AuthModel::Basic { username } => match found {
            Ok(password) => Ok(
                AuthorizationModel::Basic { username, password: or_empty(password) },
            ),
            Err(e) => Err(
                SyncErrorModel::Other("Failed to load password from keyring: "@ + e),
            ),
        },
        AuthModel::Bearer => match found {
            Ok(Some(token)) => Ok(AuthorizationModel::Bearer { token }),
            Ok(None) => Err(SyncErrorModel::Other("Bearer token not found in keyring"@)),
            Err(e) => Err(
                SyncErrorModel::Other("Failed to load bearer token from keyring: "@ + e),
            ),
        },
        AuthModel::Oidc { issuer_url, client_id, has_token, has_client_secret, scopes } =>
            if !has_token {
            Err(SyncErrorModel::AuthExpired(source_id))
        } else {
            match found {
                Ok(Some(token)) => Ok(AuthorizationModel::Bearer { token }),
                Ok(None) => Err(SyncErrorModel::AuthExpired(source_id)),
                Err(e) => Err(
                    SyncErrorModel::Other("Failed to load OIDC token from keyring: "@ + e),
                ),
            }
        },
    }
}

pub open spec fn sync_authorization_view(r: Result<Authorization, SyncError>) -> Result<
    AuthorizationModel,
    SyncErrorModel,
> {
    match r {
        Ok(a) => Ok(a@),
        Err(e) => Err(e@),
    }
}

pub fn joined(prefix: &str, text: &str) -> (r: String)
    ensures
        r@ == prefix@ + text@,
{
    let mut r = prefix.to_owned();
    r.append(text);
    r
}

/// What goes into a CalDAV request.
pub fn authorize(auth: &AuthMethod, source_id: &str, found: Lookup) -> (r: Result<
    Authorization,
    SyncError,
>)
    ensures
        sync_authorization_view(r) == caldav_authorization(auth@, source_id@, lookup_view(found)),
{
    match auth {
        AuthMethod::Anonymous => Ok(Authorization::Anonymous),
        AuthMethod::Basic { username } => match found {
            Ok(password) => Ok(
                Authorization::Basic {
                    username: username.clone(),
                    password: or_default(password),
                },
            ),
            Err(e) => Err(
                SyncError::Other(joined("Failed to load password from keyring: ", e.as_str())),
            ),
        },
        AuthMethod::Bearer => match found {
            Ok(Some(token)) => Ok(Authorization::Bearer { token }),
            Ok(None) => Err(SyncError::Other("Bearer token not found in keyring".to_owned())),
            Err(e) => Err(
                SyncError::Other(joined("Failed to load bearer token from keyring: ", e.as_str())),
            ),
        },
        AuthMethod::Oidc {
            issuer_url: _,
            client_id: _,
            has_token,
            has_client_secret: _,
            scopes: _,
        } => if !*has_token {
            Err(SyncError::AuthExpired(source_id.to_owned()))
        } else {
            match found {
                Ok(Some(token)) => Ok(Authorization::Bearer { token }),
                Ok(None) => Err(SyncError::AuthExpired(source_id.to_owned())),
                Err(e) => Err(
                    SyncError::Other(
                        joined("Failed to load OIDC token from keyring: ", e.as_str()),
                    ),
                ),
            }
        },
    }
}

/// What goes into a request for an ICS feed, given what the keyring holds of the secret
/// that it needs.
pub open spec fn feed_authorization(auth: AuthModel, found: LookupModel) -> Result<
    AuthorizationModel,
    Seq<char>,
> {
    match auth {
        AuthModel::Anonymous => Ok(AuthorizationModel::Anonymous),
        AuthModel::Basic { username } => match found {
            Ok(password) => Ok(
                AuthorizationModel::Basic { username, password: or_empty(password) },
            ),
            Err(e) => Err("Failed to load password from keyring: "@ + e),
        },
        AuthModel::Bearer => match found {
            Ok(Some(token)) => Ok(AuthorizationModel::Bearer { token }),
            Ok(None) => Err("Bearer token not found in keyring"@),
            Err(e) => Err("Failed to load bearer token: "@ + e),
        },
        AuthModel::Oidc { issuer_url, client_id, has_token, has_client_secret, scopes } =>
            if !has_token {
            Err("OIDC authentication required"@)
        } else {
            match found {
                Ok(Some(token)) => Ok(AuthorizationModel::Bearer { token }),
                Ok(None) => Err("OIDC token not found"@),
                Err(e) => Err("Failed to load OIDC token: "@ + e),
            }
        },
    }
}

pub open spec fn feed_authorization_view(r: Result<Authorization, String>) -> Result<
    AuthorizationModel,
    Seq<char>,
> {
    match r {
        Ok(a) => Ok(a@),
        Err(e) => Err(e@),
    }
}

/// What goes into a request for an ICS feed.
pub fn authorize_feed(auth: &AuthMethod, found: Lookup) -> (r: Result<Authorization, String>)
    ensures
        feed_authorization_view(r) == feed_authorization(auth@, lookup_view(found)),
{
    match auth {
        AuthMethod::Anonymous => Ok(Authorization::Anonymous),
        AuthMethod::Basic { username } => match found {
            Ok(password) => Ok(
                Authorization::Basic {
                    username: username.clone(),
                    password: or_default(password),
                },
            ),
            Err(e) => Err(joined("Failed to load password from keyring: ", e.as_str())),
        },
        AuthMethod::Bearer => match found {
            Ok(Some(token)) => Ok(Authorization::Bearer { token }),
            Ok(None) => Err("Bearer token not found in keyring".to_owned()),
            Err(e) => Err(joined("Failed to load bearer token: ", e.as_str())),
        },
        AuthMethod::Oidc {
            issuer_url: _,
            client_id: _,
            has_token,
            has_client_secret: _,
            scopes: _,
        } => if !*has_token {
            Err("OIDC authentication required".to_owned())
        } else {
            match found {
                Ok(Some(token)) => Ok(Authorization::Bearer { token }),
                Ok(None) => Err("OIDC token not found".to_owned()),
                Err(e) => Err(joined("Failed to load OIDC token: ", e.as_str())),
            }
        },
    }
}

// ── Refreshing a token ─────────────────────────────────────────────

/// What a refresh of an OIDC token is asked with.
#[derive(Debug)]
pub struct RefreshRequest {
    pub issuer_url: String,
    pub client_id: String,
    pub client_secret: Option<String>,
    pub refresh_token: String,
}

pub struct RefreshModel {
    pub issuer_url: Seq<char>,
    pub client_id: Seq<char>,
    pub client_secret: Option<Seq<char>>,
    pub refresh_token: Seq<char>,
}

impl View for RefreshRequest {
    type V = RefreshModel;

    open spec fn view(&self) -> RefreshModel {
        RefreshModel {
            issuer_url: self.issuer_url@,
            client_id: self.client_id@,
            client_secret: opt_text(self.client_secret),
            refresh_token: self.refresh_token@,
        }
    }
}

pub open spec fn refresh_view(r: Option<RefreshRequest>) -> Option<RefreshModel> {
    match r {
        Some(r) => Some(r@),
        None => None,
    }
}

/// What a refresh is asked with: only OIDC can be refreshed, and only with a refresh token
/// in the keyring; a confidential client adds its secret if the keyring holds it.
pub open spec fn refresh_with(
    auth: AuthModel,
    refresh_token: LookupModel,
    client_secret: LookupModel,
) -> Option<RefreshModel> {
    match auth {
        AuthModel::Oidc { issuer_url, client_id, has_token, has_client_secret, scopes } => match refresh_token {
            Ok(Some(token)) => Some(
                RefreshModel {
                    issuer_url,
                    client_id,
                    client_secret: if has_client_secret && client_secret is Ok {
                        client_secret->Ok_0
                    } else {
                        None
                    },
                    refresh_token: token,
                },
            ),
            _ => None,
        },
        _ => None,
    }
}

/// Whether the tokens of a way of authenticating can be refreshed at all.
pub fn can_refresh(auth: &AuthMethod) -> (r: bool)
    ensures
        r == (auth@ is Oidc),
{
    match auth {
        AuthMethod::Oidc {
            issuer_url: _,
            client_id: _,
            has_token: _,
            has_client_secret: _,
            scopes: _,
        } => true,
        _ => false,
    }
}

/// The secret that a confidential client adds to a refresh.
pub fn needed_client_secret(auth: &AuthMethod) -> (r: Option<SecretKind>)
    ensures
        r == (match auth@ {
            AuthModel::Oidc {
                issuer_url,
                client_id,
                has_token,
                has_client_secret,
                scopes,
            } => if has_client_secret {
                Some(SecretKind::OidcClientSecret)
            } else {
                None
            },
            _ => None,
        }),
{
    match auth {
        AuthMethod::Oidc {
            issuer_url: _,
            client_id: _,
            has_token: _,
            has_client_secret,
            scopes: _,
        } => if *has_client_secret {
            Some(SecretKind::OidcClientSecret)
        } else {
            None
        },
        _ => None,
    }
}

/// What a refresh is asked with, given what the keyring holds.
pub fn refresh_request(auth: &AuthMethod, refresh_token: Lookup, client_secret: Lookup) -> (r:
    Option<RefreshRequest>)
    ensures
        refresh_view(r) == refresh_with(
            auth@,
            lookup_view(refresh_token),
            lookup_view(client_secret),
        ),
{
    match auth {
        AuthMethod::Oidc { issuer_url, client_id, has_token: _, has_client_secret, scopes: _ } => {
            let token = match refresh_token {
                Ok(Some(token)) => token,
                _ => return None,
            };
            let secret = if *has_client_secret {
                match client_secret {
                    Ok(secret) => secret,
                    Err(_) => None,
                }
            } else {
                None
            };
            Some(
                RefreshRequest {
                    issuer_url: issuer_url.clone(),
                    client_id: client_id.clone(),
                    client_secret: secret,
                    refresh_token: token,
                },
            )
        },
        _ => None,
    }
}

/// The tokens that a refresh gives.
#[derive(Debug)]
pub struct Tokens {
    pub access_token: String,
    pub refresh_token: Option<String>,
}

pub open spec fn outcome_view(r: Result<Option<String>, SyncError>) -> Result<
    Option<Seq<char>>,
    SyncErrorModel,
> {
    match r {
        Ok(Some(token)) => Ok(Some(token@)),
        Ok(None) => Ok(None),
        Err(e) => Err(e@),
    }
}

/// What comes of a refresh that was tried: the new access token, or that the user has to sign
/// in again.
pub fn refresh_outcome(source_id: &str, tried: Result<Tokens, String>) -> (r: Result<
    Option<String>,
    SyncError,
>)
    ensures
        outcome_view(r) == (match tried {
            Ok(tokens) => Ok(Some(tokens.access_token@)),
            Err(_) => Err(SyncErrorModel::AuthExpired(source_id@)),
        }),
{
    match tried {
        Ok(tokens) => Ok(Some(tokens.access_token)),
        Err(_) => Err(SyncError::AuthExpired(source_id.to_owned())),
    }
}

/// The secrets to file after a refresh, each with its kind.
pub open spec fn secrets_to_file(
    access_token: Seq<char>,
    refresh_token: Option<Seq<char>>,
) -> Seq<(SecretKind, Seq<char>)> {
    let first = seq![(SecretKind::OidcAccessToken, access_token)];
    match refresh_token {
        Some(t) => first.push((SecretKind::OidcRefreshToken, t)),
        None => first,
    }
}

pub open spec fn filed_view(v: Seq<(SecretKind, String)>) -> Seq<(SecretKind, Seq<char>)> {
    v.map_values(|p: (SecretKind, String)| (p.0, p.1@))
}

/// The secrets to file after a refresh.
pub fn refreshed_secrets(tokens: &Tokens) -> (r: Vec<(SecretKind, String)>)
    ensures
        filed_view(r@) == secrets_to_file(tokens.access_token@, opt_text(tokens.refresh_token)),
{
    let mut r: Vec<(SecretKind, String)> = Vec::new();
    r.push((SecretKind::OidcAccessToken, tokens.access_token.clone()));
    if let Some(t) = &tokens.refresh_token {
        r.push((SecretKind::OidcRefreshToken, t.clone()));
    }
    proof {
        assert(filed_view(r@) =~= secrets_to_file(
            tokens.access_token@,
            opt_text(tokens.refresh_token),
        ));
    }
    r
}

} // verus!

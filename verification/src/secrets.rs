//! The secrets of a calendar source, and how they are filed in the keyring.
//!
//! Each secret is keyed by `(application, source_id, secret_kind)`.

use crate::config::CALENDAR_CONFIG_ID;
use vstd::prelude::*;

verus! {

/// The kinds of secrets we store per calendar source.
#[derive(Clone, Copy, Debug, PartialEq, Eq, Structural)]
pub enum SecretKind {
    Password,
    BearerToken,
    OidcAccessToken,
    OidcRefreshToken,
    OidcClientSecret,
    CacheEncryptionKey,
}

/// The name under which a kind of secret is filed.
pub open spec fn kind_name(kind: SecretKind) -> Seq<char> {
    match kind {
        SecretKind::Password => "password"@,
        SecretKind::BearerToken => "bearer_token"@,
        SecretKind::OidcAccessToken => "oidc_access_token"@,
        SecretKind::OidcRefreshToken => "oidc_refresh_token"@,
        SecretKind::OidcClientSecret => "oidc_client_secret"@,
        SecretKind::CacheEncryptionKey => "cache_encryption_key"@,
    }
}

impl SecretKind {
    /// The name under which the kind is filed.
    pub fn as_str(self) -> (r: &'static str)
        ensures
            r@ == kind_name(self),
    {
        match self {
            SecretKind::Password => "password",
            SecretKind::BearerToken => "bearer_token",
            SecretKind::OidcAccessToken => "oidc_access_token",
            SecretKind::OidcRefreshToken => "oidc_refresh_token",
            SecretKind::OidcClientSecret => "oidc_client_secret",
            SecretKind::CacheEncryptionKey => "cache_encryption_key",
        }
    }
}

/// No two kinds are filed under one name.
pub proof fn lemma_kind_names_differ(a: SecretKind, b: SecretKind)
    ensures
        kind_name(a) == kind_name(b) <==> a == b,
{
    reveal_strlit("password");
    reveal_strlit("bearer_token");
    reveal_strlit("oidc_access_token");
    reveal_strlit("oidc_refresh_token");
    reveal_strlit("oidc_client_secret");
    reveal_strlit("cache_encryption_key");
    assert("password"@.len() == 8 && "bearer_token"@.len() == 12);
    assert("oidc_access_token"@.len() == 17 && "oidc_refresh_token"@.len() == 18);
    assert("oidc_client_secret"@.len() == 18 && "cache_encryption_key"@.len() == 20);
    assert("oidc_refresh_token"@[5] != "oidc_client_secret"@[5]);
}

/// The source under which the key of the cache is filed.
pub const CACHE_KEY_SOURCE_ID: &'static str = "__cache_encryption__";

pub open spec fn attributes_model(v: Seq<(&str, &str)>) -> Seq<(Seq<char>, Seq<char>)> {
    v.map_values(|p: (&str, &str)| (p.0@, p.1@))
}

/// The attributes by which a secret is found again.
pub open spec fn attributes_of(source_id: Seq<char>, kind: SecretKind) -> Seq<
    (Seq<char>, Seq<char>),
> {
    seq![
        ("application"@, CALENDAR_CONFIG_ID@),
        ("source_id"@, source_id),
        ("secret_kind"@, kind_name(kind)),
    ]
}

/// The attributes by which a secret is found again.
pub fn attributes<'a>(source_id: &'a str, kind: SecretKind) -> (r: Vec<(&'a str, &'a str)>)
    ensures
        attributes_model(r@) == attributes_of(source_id@, kind),
{
    let mut r: Vec<(&'a str, &'a str)> = Vec::new();
    r.push(("application", CALENDAR_CONFIG_ID));
    r.push(("source_id", source_id));
    r.push(("secret_kind", kind.as_str()));
    proof {
        assert(attributes_model(r@) =~= attributes_of(source_id@, kind));
    }
    r
}

/// Secrets of two sources, or of two kinds, have different attributes.
pub proof fn lemma_attributes_differ(a: Seq<char>, b: Seq<char>, k: SecretKind, l: SecretKind)
    ensures
        attributes_of(a, k) == attributes_of(b, l) <==> a == b && k == l,
{
    lemma_kind_names_differ(k, l);
    assert(attributes_of(a, k)[1].1 == a && attributes_of(b, l)[1].1 == b);
    assert(attributes_of(a, k)[2].1 == kind_name(k) && attributes_of(b, l)[2].1 == kind_name(l));
}

/// The label that a secret carries in the keyring.
pub fn secret_label(source_id: &str, kind: SecretKind) -> (r: String)
    ensures
        r@ == "COSMIC Calendar – "@ + source_id@ + " – "@ + kind_name(kind),
{
    let mut r = "COSMIC Calendar – ".to_owned();
    r.append(source_id);
    r.append(" – ");
    r.append(kind.as_str());
    r
}

/// The kinds of secrets that go with a source.
pub fn all_kinds() -> (r: Vec<SecretKind>)
    ensures
        r@ == seq![
            SecretKind::Password,
            SecretKind::BearerToken,
            SecretKind::OidcAccessToken,
            SecretKind::OidcRefreshToken,
            SecretKind::OidcClientSecret,
            SecretKind::CacheEncryptionKey,
        ],
        forall|kind: SecretKind| #[trigger] r@.contains(kind),
{
    let mut r: Vec<SecretKind> = Vec::new();
    r.push(SecretKind::Password);
    r.push(SecretKind::BearerToken);
    r.push(SecretKind::OidcAccessToken);
    r.push(SecretKind::OidcRefreshToken);
    r.push(SecretKind::OidcClientSecret);
    r.push(SecretKind::CacheEncryptionKey);
    proof {
        assert forall|kind: SecretKind| #[trigger] r@.contains(kind) by {
            match kind {
                SecretKind::Password => assert(r@[0] == kind),
                SecretKind::BearerToken => assert(r@[1] == kind),
                SecretKind::OidcAccessToken => assert(r@[2] == kind),
                SecretKind::OidcRefreshToken => assert(r@[3] == kind),
                SecretKind::OidcClientSecret => assert(r@[4] == kind),
                SecretKind::CacheEncryptionKey => assert(r@[5] == kind),
            }
        }
    }
    r
}

/// Which of the items that a search found holds the secret.
#[derive(Clone, Copy, Debug, PartialEq, Eq, Structural)]
pub enum Found {
    /// The first of the unlocked items.
    Unlocked,
    /// The first of the locked items, which is to be unlocked.
    Locked,
    /// There is no secret.
    Nothing,
}

/// Which item to read, given how many unlocked and how many locked ones there are.
pub fn item_to_read(unlocked: usize, locked: usize) -> (r: Found)
    ensures
        r == (if unlocked > 0 {
            Found::Unlocked
        } else if locked > 0 {
            Found::Locked
        } else {
            Found::Nothing
        }),
{
    if unlocked > 0 {
        Found::Unlocked
    } else if locked > 0 {
        Found::Locked
    } else {
        Found::Nothing
    }
}

} // verus!

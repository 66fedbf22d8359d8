//! How requests are signed, and what becomes of them.

use crate::auth::{
    caldav_authorization, feed_authorization, refresh_with, secret_needed, secrets_to_file,
    AuthorizationModel, LookupModel,
};
use crate::cache::{applet_file, joined_path};
use crate::caldav::Operation;
use crate::config::AuthModel;
use crate::exchange::{
    after_refresh, after_reply, after_second_reply, after_signing, fresh_exchange, ReplyModel,
    StageModel,
};
use crate::secrets::SecretKind;
use crate::sync::SyncErrorModel;
use vstd::prelude::*;

verus! {

// ── Signing ────────────────────────────────────────────────────────

/// Whether an authorization shows a secret in the way that suits a way of authenticating: a
/// password beside its own user name, a token alone.
pub open spec fn shows_secret(
    auth: AuthModel,
    secret: Seq<char>,
    shown: AuthorizationModel,
) -> bool {
    match shown {
        AuthorizationModel::Basic { username, password } => auth is Basic && username
            == auth->Basic_username && password == secret,
        AuthorizationModel::Bearer { token } => (auth is Bearer || auth is Oidc) && token == secret,
        AuthorizationModel::Anonymous => false,
    }
}

/// With the secret in the keyring a request of any source is signed with that very secret,
/// for calendars and for feeds alike. A source that needs none is not signed, whatever the
/// keyring holds.
pub proof fn lemma_signed_with_secret(auth: AuthModel, source_id: Seq<char>, secret: Seq<char>)
    ensures
        ({
            let found: LookupModel = Ok(Some(secret));
            let calendar = caldav_authorization(auth, source_id, found);
            let feed = feed_authorization(auth, found);
            &&& secret_needed(auth) is Some ==> {
                &&& calendar is Ok
                &&& feed is Ok
                &&& shows_secret(auth, secret, calendar->Ok_0)
                &&& shows_secret(auth, secret, feed->Ok_0)
            }
            &&& auth is Anonymous ==> {
                &&& secret_needed(auth) is None
                &&& calendar == Ok::<AuthorizationModel, SyncErrorModel>(
                    AuthorizationModel::Anonymous,
                )
                &&& feed == Ok::<AuthorizationModel, Seq<char>>(AuthorizationModel::Anonymous)
            }
        }),
        auth is Basic ==> secret_needed(auth) == Some(SecretKind::Password),
        auth is Bearer ==> secret_needed(auth) == Some(SecretKind::BearerToken),
        auth is Oidc && auth->Oidc_has_token ==> secret_needed(auth) == Some(
            SecretKind::OidcAccessToken,
        ),
{
}

/// Without a token no request that needs one is signed. For want of an OIDC token the user has
/// to sign in to this very source; any other failure is told in words. A failure of the keyring
/// is always an error for a source that needs it, and its cause is told.
pub proof fn lemma_unsigned(auth: AuthModel, source_id: Seq<char>, cause: Seq<char>)
    ensures
        ({
            let missing: LookupModel = Ok(None);
            let broken: LookupModel = Err(cause);
            let expired = Err::<AuthorizationModel, SyncErrorModel>(
                SyncErrorModel::AuthExpired(source_id),
            );
            &&& auth is Oidc ==> caldav_authorization(auth, source_id, missing) == expired
            &&& auth is Oidc && !auth->Oidc_has_token ==> caldav_authorization(
                auth,
                source_id,
                broken,
            ) == expired
            &&& auth is Bearer ==> caldav_authorization(auth, source_id, missing) is Err
                && caldav_authorization(auth, source_id, missing)->Err_0 is Other
            &&& auth is Bearer || auth is Oidc ==> feed_authorization(auth, missing) is Err
            &&& secret_needed(auth) is Some ==> {
                &&& caldav_authorization(auth, source_id, broken) is Err
                &&& caldav_authorization(auth, source_id, broken)->Err_0 is Other
                &&& ends_with(caldav_authorization(auth, source_id, broken)->Err_0->Other_0, cause)
                &&& feed_authorization(auth, broken) is Err
                &&& ends_with(feed_authorization(auth, broken)->Err_0, cause)
            }
            &&& auth is Basic ==> caldav_authorization(auth, source_id, missing) == Ok::<
                AuthorizationModel,
                SyncErrorModel,
            >(AuthorizationModel::Basic {
                username: auth->Basic_username,
                password: Seq::empty(),
            })
        }),
{
    assert forall|a: Seq<char>| ends_with(#[trigger] (a + cause), cause) by {
        assert((a + cause).skip(a.len() as int) =~= cause);
    }
}

/// Whether a text ends with another.
pub open spec fn ends_with(s: Seq<char>, end: Seq<char>) -> bool {
    s.len() >= end.len() && s.skip(s.len() - end.len()) == end
}

/// Only OIDC is refreshed, and only with a refresh token. The request goes to the own issuer,
/// with the own client and that token; the secret of the client goes along if and only if the
/// client has one and it was found.
pub proof fn lemma_refresh(auth: AuthModel, token: LookupModel, secret: LookupModel)
    ensures
        ({
            let r = refresh_with(auth, token, secret);
            &&& r is Some <==> auth is Oidc && token is Ok && token->Ok_0 is Some
            &&& r is Some ==> {
                &&& r->0.issuer_url == auth->Oidc_issuer_url
                &&& r->0.client_id == auth->Oidc_client_id
                &&& Ok::<Option<Seq<char>>, Seq<char>>(Some(r->0.refresh_token)) == token
                &&& auth->Oidc_has_client_secret && secret is Ok ==> r->0.client_secret
                    == secret->Ok_0
                &&& !auth->Oidc_has_client_secret || secret is Err ==> r->0.client_secret is None
            }
        }),
{
}

/// After a refresh the new access token is filed as such, and a new refresh token too where
/// there is one; without one the old refresh token stays.
pub proof fn lemma_filed(access: Seq<char>, refresh: Option<Seq<char>>, kind: SecretKind, s: Seq<char>)
    ensures
        secrets_to_file(access, refresh).contains((kind, s)) <==> (kind
            == SecretKind::OidcAccessToken && s == access) || (kind == SecretKind::OidcRefreshToken
            && refresh == Some(s)),
{
    let r = secrets_to_file(access, refresh);
    assert(r[0] == (SecretKind::OidcAccessToken, access));
    if refresh is Some {
        assert(r[1] == (SecretKind::OidcRefreshToken, refresh->0));
    }
}

// ── Requests ───────────────────────────────────────────────────────

/// A request that is signed, that the server refuses for want of a sign-in, and that is sent
/// again with a new token is taken if and only if the second reply is a success. The second
/// time it goes with the new token.
pub proof fn lemma_sent_again(
    op: Operation,
    url: Seq<char>,
    source_id: Seq<char>,
    text: Seq<char>,
    token: Seq<char>,
    status: u16,
    words: Seq<char>,
)
    ensures
        ({
            let x = after_signing(fresh_exchange(op, url, source_id), Ok(()));
            let y = after_reply(x, ReplyModel::Status(401, text));
            let z = after_refresh(y, Ok(Some(token)));
            let end = after_second_reply(z, ReplyModel::Status(status, words));
            &&& x.stage == StageModel::Sending
            &&& y.stage == StageModel::Refreshing
            &&& z.stage == StageModel::SendingAgain(token)
            &&& end.stage is Accepted <==> 200 <= status < 300
            &&& end.stage is Accepted || end.stage is Refused
        }),
{
}

/// A request that succeeds at once is taken without a refresh. One that does not get through is
/// refused, and its cause is told. One that cannot be refreshed needs a new sign-in to its own
/// source.
pub proof fn lemma_sent_once(
    op: Operation,
    url: Seq<char>,
    source_id: Seq<char>,
    status: u16,
    text: Seq<char>,
    cause: Seq<char>,
    error: SyncErrorModel,
)
    requires
        200 <= status < 300,
    ensures
        ({
            let x = after_signing(fresh_exchange(op, url, source_id), Ok(()));
            let lost = after_reply(x, ReplyModel::Lost(cause));
            let y = after_reply(x, ReplyModel::Status(401, text));
            &&& after_reply(x, ReplyModel::Status(status, text)).stage == StageModel::Accepted
            &&& lost.stage is Refused
            &&& lost.stage->Refused_0 is Other
            &&& ends_with(lost.stage->Refused_0->Other_0, cause)
            &&& after_refresh(y, Ok(None)).stage == StageModel::Refused(
                SyncErrorModel::AuthExpired(source_id),
            )
            &&& after_refresh(y, Err(error)).stage == StageModel::Refused(error)
        }),
{
    let words = crate::caldav::failure(op, false, url, cause);
    assert(words.skip(words.len() - cause.len()) =~= cause);
}

/// A request that cannot be signed is not sent. Only a creation tries to refresh the sign-in
/// first.
pub proof fn lemma_not_sent(op: Operation, url: Seq<char>, source_id: Seq<char>, e: SyncErrorModel)
    ensures
        ({
            let x = after_signing(fresh_exchange(op, url, source_id), Err(e));
            &&& x.stage == StageModel::Refreshing <==> op == Operation::Create && e is AuthExpired
            &&& !(op == Operation::Create && e is AuthExpired) ==> x.stage == StageModel::Refused(e)
        }),
{
}

// ── Files ──────────────────────────────────────────────────────────

/// The files of the applet lie under the directory that is set, and else under the home
/// directory; there are none where neither is known.
pub proof fn lemma_files(dir: Seq<char>, home: Seq<char>, name: Seq<char>, other: Option<Seq<char>>)
    requires
        dir.len() > 0,
        dir.last() != '/',
        home.len() > 0,
        home.last() != '/',
    ensures
        applet_file(Some(dir), other, name) == Some(
            dir + "/cosmic/com.system76.CosmicAppletTime.Calendar/v1/"@ + name,
        ),
        applet_file(None, Some(home), name) == Some(
            home + "/.config/cosmic/com.system76.CosmicAppletTime.Calendar/v1/"@ + name,
        ),
        applet_file(Some(Seq::empty()), Some(home), name) == applet_file(None, Some(home), name),
        applet_file(None, None, name) is None,
{
    reveal_strlit("/cosmic/com.system76.CosmicAppletTime.Calendar/v1/");
    reveal_strlit("/.config/cosmic/com.system76.CosmicAppletTime.Calendar/v1/");
    reveal_strlit("cosmic");
    reveal_strlit(".config");
    reveal_strlit("com.system76.CosmicAppletTime.Calendar");
    reveal_strlit("v1");
    let a = joined_path(dir, "cosmic"@);
    let b = joined_path(a, "com.system76.CosmicAppletTime.Calendar"@);
    let c = joined_path(b, "v1"@);
    assert(a.last() == 'c' && b.last() == 'r' && c.last() == '1');
    assert(joined_path(c, name) =~= dir + "/cosmic/com.system76.CosmicAppletTime.Calendar/v1/"@
        + name);
    let h = joined_path(home, ".config"@);
    assert(h.last() == 'g');
    let a = joined_path(h, "cosmic"@);
    let b = joined_path(a, "com.system76.CosmicAppletTime.Calendar"@);
    let c = joined_path(b, "v1"@);
    assert(a.last() == 'c' && b.last() == 'r' && c.last() == '1');
    assert(joined_path(c, name) =~= home
        + "/.config/cosmic/com.system76.CosmicAppletTime.Calendar/v1/"@ + name);
}

} // verus!

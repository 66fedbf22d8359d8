use calendar_core::auth::{
    authorize, authorize_feed, can_refresh, needed_client_secret, needed_secret, refresh_outcome,
    refresh_request, refreshed_secrets, Authorization, Tokens,
};
use calendar_core::config::{
    ca_certificate, default_calendar_color, default_oidc_scopes, same_sources, stored_color,
    AuthMethod, CalendarConfig, EncryptionMode, SourceConfig, SourceType, StoredColor,
    CALENDAR_CONFIG_ID,
};
use calendar_core::secrets::{
    all_kinds, attributes, item_to_read, secret_label, Found, SecretKind, CACHE_KEY_SOURCE_ID,
};
use calendar_core::sync::SyncError;

fn oidc(has_token: bool, has_client_secret: bool) -> AuthMethod {
    AuthMethod::Oidc {
        issuer_url: "https://i".into(),
        client_id: "c".into(),
        has_token,
        has_client_secret,
        scopes: default_oidc_scopes(),
    }
}

#[test]
fn defaults_of_the_configuration() {
    let c = CalendarConfig::default();
    assert!(c.sources.is_empty());
    assert_eq!(c.sync_interval_minutes, 15);
    assert_eq!(c.upcoming_count, 5);
    assert_eq!(c.calendar_app, "");
    assert_eq!((c.sync_range_past_days, c.sync_range_future_days), (30, 90));
    assert_eq!(c.encryption_mode, EncryptionMode::Auto);
    assert_eq!(EncryptionMode::default(), EncryptionMode::Auto);
    assert_eq!(AuthMethod::default(), AuthMethod::Anonymous);
    assert_eq!(default_oidc_scopes(), vec!["openid".to_string(), "offline_access".to_string()]);
    assert_eq!(CALENDAR_CONFIG_ID, "com.system76.CosmicAppletTime.Calendar");
}

#[test]
fn new_sources_have_identifiers_of_their_own() {
    let file = || SourceType::IcsFile { path: "/tmp/test.ics".into() };
    let a = SourceConfig::new("A".into(), "#FFFF00".into(), file());
    let b = SourceConfig::new("A".into(), "#FFFF00".into(), file());
    assert_ne!(a.id, b.id);
    assert_eq!(a.id.len(), 36);
    assert_eq!(a.id.as_bytes()[8], b'-');
    assert!(a.enabled);
    assert_eq!(a.name, "A");
    assert_eq!(a.color, "#FFFF00");
    assert_eq!(a.ca_cert_path, None);
    let copy = vec![a.clone()];
    assert!(same_sources(&copy, &vec![a.clone()]));
    assert!(!same_sources(&copy, &vec![b]));
    let mut changed = a.clone();
    changed.enabled = false;
    assert!(!same_sources(&copy, &vec![changed]));
}

#[test]
fn stored_colors_in_all_forms() {
    assert_eq!(default_calendar_color(), "#0078D4");
    assert_eq!(stored_color(StoredColor::Text("#FF0000".into())), "#FF0000");
    assert_eq!(stored_color(StoredColor::Text("".into())), "");
    assert_eq!(stored_color(StoredColor::Nothing), "#0078D4");
    assert_eq!(stored_color(StoredColor::Unit("None".into())), "#0078D4");
    assert_eq!(stored_color(StoredColor::Unit("red".into())), "red");
    assert_eq!(stored_color(StoredColor::Holding("Some".into(), "#1".into())), "#1");
    assert_eq!(stored_color(StoredColor::Holding("x".into(), "#1".into())), "x");
}

#[test]
fn an_empty_certificate_path_is_none() {
    assert_eq!(ca_certificate(&None), None);
    assert_eq!(ca_certificate(&Some("".into())), None);
    assert_eq!(ca_certificate(&Some("/ca.pem".into())), Some("/ca.pem"));
}

#[test]
fn secrets_are_filed_by_attributes() {
    let a = attributes("src", SecretKind::BearerToken);
    assert_eq!(
        a,
        vec![
            ("application", CALENDAR_CONFIG_ID),
            ("source_id", "src"),
            ("secret_kind", "bearer_token")
        ]
    );
    assert_eq!(secret_label("s", SecretKind::Password), "COSMIC Calendar – s – password");
    assert_eq!(all_kinds().len(), 6);
    assert_eq!(SecretKind::CacheEncryptionKey.as_str(), "cache_encryption_key");
    assert_eq!(CACHE_KEY_SOURCE_ID, "__cache_encryption__");
    assert_eq!(item_to_read(1, 1), Found::Unlocked);
    assert_eq!(item_to_read(0, 1), Found::Locked);
    assert_eq!(item_to_read(0, 0), Found::Nothing);
}

#[test]
fn requests_are_authorized() {
    let basic = AuthMethod::Basic { username: "u".into() };
    assert_eq!(needed_secret(&basic), Some(SecretKind::Password));
    assert_eq!(needed_secret(&AuthMethod::Bearer), Some(SecretKind::BearerToken));
    assert_eq!(needed_secret(&oidc(true, false)), Some(SecretKind::OidcAccessToken));
    assert_eq!(needed_secret(&oidc(false, false)), None);
    assert_eq!(needed_secret(&AuthMethod::Anonymous), None);
    assert!(matches!(authorize(&AuthMethod::Anonymous, "s", Ok(None)), Ok(Authorization::Anonymous)));
    match authorize(&basic, "s", Ok(None)) {
        Ok(Authorization::Basic { username, password }) => {
            assert_eq!((username.as_str(), password.as_str()), ("u", ""))
        }
        _ => panic!("expected Basic"),
    }
    match authorize(&AuthMethod::Bearer, "s", Ok(Some("t".into()))) {
        Ok(Authorization::Bearer { token }) => assert_eq!(token, "t"),
        _ => panic!("expected Bearer"),
    }
    let text = |r: Result<Authorization, calendar_core::sync::SyncError>| r.unwrap_err().message();
    assert_eq!(
        text(authorize(&basic, "s", Err("locked".into()))),
        "Failed to load password from keyring: locked"
    );
    assert_eq!(text(authorize(&AuthMethod::Bearer, "s", Ok(None))), "Bearer token not found in keyring");
    assert_eq!(
        text(authorize(&AuthMethod::Bearer, "s", Err("x".into()))),
        "Failed to load bearer token from keyring: x"
    );
    assert_eq!(text(authorize(&oidc(true, false), "s", Ok(None))), "Authentication expired for source s");
    assert_eq!(
        text(authorize(&oidc(true, false), "s", Err("x".into()))),
        "Failed to load OIDC token from keyring: x"
    );
    assert_eq!(
        text(authorize(&oidc(false, false), "s", Ok(Some("t".into())))),
        "Authentication expired for source s"
    );
}

#[test]
fn feeds_are_authorized() {
    let text = |r: Result<Authorization, String>| r.unwrap_err();
    assert_eq!(text(authorize_feed(&AuthMethod::Bearer, Ok(None))), "Bearer token not found in keyring");
    assert_eq!(text(authorize_feed(&AuthMethod::Bearer, Err("x".into()))), "Failed to load bearer token: x");
    assert_eq!(text(authorize_feed(&oidc(true, false), Ok(None))), "OIDC token not found");
    assert_eq!(text(authorize_feed(&oidc(true, false), Err("x".into()))), "Failed to load OIDC token: x");
    assert_eq!(text(authorize_feed(&oidc(false, false), Ok(None))), "OIDC authentication required");
    assert!(authorize_feed(&AuthMethod::Anonymous, Ok(None)).is_ok());
}

#[test]
fn only_oidc_is_refreshed() {
    assert!(can_refresh(&oidc(false, false)));
    assert!(!can_refresh(&AuthMethod::Bearer));
    let lookup = |s: &str| Ok(Some(s.to_string()));
    assert!(refresh_request(&AuthMethod::Bearer, lookup("r"), lookup("c")).is_none());
    assert!(refresh_request(&oidc(true, true), Ok(None), lookup("c")).is_none());
    assert!(refresh_request(&oidc(true, true), Err("x".into()), lookup("c")).is_none());
    let r = refresh_request(&oidc(true, true), lookup("r"), lookup("c")).unwrap();
    assert_eq!(r.refresh_token, "r");
    assert_eq!(r.client_secret.as_deref(), Some("c"));
    assert_eq!(r.issuer_url, "https://i");
    let public = refresh_request(&oidc(true, false), lookup("r"), lookup("c")).unwrap();
    assert_eq!(public.client_secret, None);
    let filed = refreshed_secrets(&Tokens {
        access_token: "a".into(),
        refresh_token: Some("b".into()),
    });
    assert_eq!(
        filed,
        vec![
            (SecretKind::OidcAccessToken, "a".to_string()),
            (SecretKind::OidcRefreshToken, "b".to_string())
        ]
    );
}

/// The color of a calendar that was stored as JSON.
fn color_in(json: &str) -> String {
    let stored: serde_json::Value = serde_json::from_str(json).unwrap();
    stored_color(match &stored["color"] {
        serde_json::Value::String(s) => StoredColor::Text(s.clone()),
        serde_json::Value::Null => StoredColor::Nothing,
        other => panic!("no color: {other}"),
    })
}

#[test]
fn color_hex_full() {
    let json = r##"{"href":"h","display_name":"c","color":"#FF0000","enabled":true}"##;
    assert_eq!(color_in(json), "#FF0000");
}

#[test]
fn color_empty_string_preserved() {
    let json = r##"{"href":"h","display_name":"c","color":"","enabled":true}"##;
    let color = color_in(json);
    assert!(color.is_empty() || color == "#0078D4");
}

#[test]
fn color_non_standard_preserved() {
    let json = r##"{"href":"h","display_name":"c","color":"rgb(255,0,0)","enabled":true}"##;
    assert_eq!(color_in(json), "rgb(255,0,0)");
}

#[test]
fn color_compat_current_format() {
    let json = r##"{"href":"h","display_name":"Cal","color":"#FF0000","enabled":true}"##;
    assert_eq!(color_in(json), "#FF0000");
}

#[test]
fn color_compat_null() {
    let json = r##"{"href":"h","display_name":"Cal","color":null,"enabled":true}"##;
    assert_eq!(color_in(json), "#0078D4");
}

#[test]
fn a_failed_refresh_needs_a_new_sign_in() {
    let tokens = Tokens { access_token: "new".into(), refresh_token: None };
    assert!(matches!(refresh_outcome("s", Ok(tokens)), Ok(Some(t)) if t == "new"));
    assert!(matches!(
        refresh_outcome("s", Err("no net".into())),
        Err(SyncError::AuthExpired(id)) if id == "s"
    ));
    assert_eq!(needed_client_secret(&oidc(true, true)), Some(SecretKind::OidcClientSecret));
    assert_eq!(needed_client_secret(&oidc(true, false)), None);
    assert_eq!(needed_client_secret(&AuthMethod::Bearer), None);
}

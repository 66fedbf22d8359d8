//! The configuration of the calendar sources.

use crate::component::{copy_text, opt_text, texts_view};
use crate::datetime::text_view;
use crate::text::same_text;
use vstd::prelude::*;

verus! {

pub const CALENDAR_CONFIG_ID: &'static str = "com.system76.CosmicAppletTime.Calendar";

/// Controls how cache files (event_cache.json, ctag_cache.json) are encrypted
/// on disk.  Credentials always live in the keyring regardless of this setting.
#[derive(Clone, Copy, Debug, PartialEq, Eq, Structural)]
pub enum EncryptionMode {
    /// No encryption — plain JSON on disk.
    Off,
    /// Transparent encryption with a random key stored in the keyring.
    Auto,
    /// User-supplied passphrase → Argon2id-derived key, held in RAM while applet runs.
    Manual,
}

impl Default for EncryptionMode {
    fn default() -> (r: EncryptionMode)
        ensures
            r == EncryptionMode::Auto,
    {
        EncryptionMode::Auto
    }
}

// ── The model ──────────────────────────────────────────────────────

pub enum AuthModel {
    Anonymous,
    Basic { username: Seq<char> },
    Bearer,
    Oidc {
        issuer_url: Seq<char>,
        client_id: Seq<char>,
        has_token: bool,
        has_client_secret: bool,
        scopes: Seq<Seq<char>>,
    },
}

#[verifier::ext_equal]
pub struct CollectionModel {
    pub href: Seq<char>,
    pub display_name: Seq<char>,
    pub color: Seq<char>,
    pub enabled: bool,
    pub ctag: Option<Seq<char>>,
    pub sync_token: Option<Seq<char>>,
}

pub enum SourceTypeModel {
    CalDav { url: Seq<char>, auth: AuthModel, calendars: Seq<CollectionModel> },
    IcsUrl { url: Seq<char>, auth: AuthModel },
    IcsFile { path: Seq<char> },
}

pub struct SourceModel {
    pub id: Seq<char>,
    pub name: Seq<char>,
    pub enabled: bool,
    pub color: Seq<char>,
    pub source_type: SourceTypeModel,
    pub ca_cert_path: Option<Seq<char>>,
}

pub struct ConfigModel {
    pub sources: Seq<SourceModel>,
    pub sync_interval_minutes: u64,
    pub upcoming_count: usize,
    pub calendar_app: Seq<char>,
    pub sync_range_past_days: u32,
    pub sync_range_future_days: u32,
    pub encryption_mode: EncryptionMode,
}

// ── The types ──────────────────────────────────────────────────────

/// How a request is authenticated.
#[derive(Debug, PartialEq, Eq)]
pub enum AuthMethod {
    /// No authentication.
    Anonymous,
    /// Basic auth – username stored here, password in Secret Service keyring.
    Basic { username: String },
    /// Bearer token – token stored in Secret Service keyring.
    Bearer,
    /// OIDC – issuer/client metadata here, tokens in Secret Service keyring.
    Oidc {
        issuer_url: String,
        client_id: String,
        /// Whether an access token has been saved in the keyring.
        has_token: bool,
        /// Whether a client secret has been saved in the keyring
        /// (confidential/private client).  When `false` the client is
        /// treated as a public OIDC client.
        has_client_secret: bool,
        /// OAuth2 scopes to request.  Defaults to `["openid", "offline_access"]`.
        scopes: Vec<String>,
    },
}

/// A single calendar collection discovered on a CalDAV server.
#[derive(Debug, PartialEq, Eq)]
pub struct CalDavCalendar {
    /// The href / collection URL for this calendar.
    pub href: String,
    /// Human-readable name from the server (`displayname` property).
    pub display_name: String,
    /// Server-provided color (e.g. from `calendar-color` property).
    pub color: String,
    /// Whether the user has opted to sync this calendar.
    pub enabled: bool,
    /// Cached ctag from the server.  If unchanged across syncs the calendar
    /// does not need to be re-fetched.
    ///
    /// Ephemeral sync state, not part of the stored configuration.
    pub ctag: Option<String>,
    /// WebDAV sync-token for incremental sync (RFC 6578).
    ///
    /// Ephemeral sync state, not part of the stored configuration.
    pub sync_token: Option<String>,
}

/// Where the events of a source come from.
#[derive(Debug, PartialEq, Eq)]
pub enum SourceType {
    CalDav {
        url: String,
        auth: AuthMethod,
        /// Calendars discovered via PROPFIND.  New calendars are added
        /// with `enabled: false` so the user can opt-in.
        calendars: Vec<CalDavCalendar>,
    },
    IcsUrl { url: String, auth: AuthMethod },
    IcsFile { path: String },
}

/// A source of calendars.
#[derive(Debug, PartialEq, Eq)]
pub struct SourceConfig {
    pub id: String,
    pub name: String,
    pub enabled: bool,
    pub color: String,
    pub source_type: SourceType,
    /// Optional path to a PEM-encoded CA certificate for self-hosted servers.
    pub ca_cert_path: Option<String>,
}

/// The configuration of the applet's calendars.
#[derive(Debug, PartialEq, Eq)]
pub struct CalendarConfig {
    pub sources: Vec<SourceConfig>,
    pub sync_interval_minutes: u64,
    pub upcoming_count: usize,
    pub calendar_app: String,
    pub sync_range_past_days: u32,
    pub sync_range_future_days: u32,
    pub encryption_mode: EncryptionMode,
}

impl View for AuthMethod {
    type V = AuthModel;

    open spec fn view(&self) -> AuthModel {
        match self {
            AuthMethod::Anonymous => AuthModel::Anonymous,
            AuthMethod::Basic { username } => AuthModel::Basic { username: username@ },
            AuthMethod::Bearer => AuthModel::Bearer,
            AuthMethod::Oidc { issuer_url, client_id, has_token, has_client_secret, scopes } =>
                AuthModel::Oidc {
                issuer_url: issuer_url@,
                client_id: client_id@,
                has_token: *has_token,
                has_client_secret: *has_client_secret,
                scopes: texts_view(scopes@),
            },
        }
    }
}

impl View for CalDavCalendar {
    type V = CollectionModel;

    open spec fn view(&self) -> CollectionModel {
        CollectionModel {
            href: self.href@,
            display_name: self.display_name@,
            color: self.color@,
            enabled: self.enabled,
            ctag: opt_text(self.ctag),
            sync_token: opt_text(self.sync_token),
        }
    }
}

pub open spec fn collections_view(v: Seq<CalDavCalendar>) -> Seq<CollectionModel> {
    v.map_values(|c: CalDavCalendar| c@)
}

impl View for SourceType {
    type V = SourceTypeModel;

    open spec fn view(&self) -> SourceTypeModel {
        match self {
            SourceType::CalDav { url, auth, calendars } => SourceTypeModel::CalDav {
                url: url@,
                auth: auth@,
                calendars: collections_view(calendars@),
            },
            SourceType::IcsUrl { url, auth } => SourceTypeModel::IcsUrl { url: url@, auth: auth@ },
            SourceType::IcsFile { path } => SourceTypeModel::IcsFile { path: path@ },
        }
    }
}

impl View for SourceConfig {
    type V = SourceModel;

    open spec fn view(&self) -> SourceModel {
        SourceModel {
            id: self.id@,
            name: self.name@,
            enabled: self.enabled,
            color: self.color@,
            source_type: self.source_type@,
            ca_cert_path: opt_text(self.ca_cert_path),
        }
    }
}

pub open spec fn sources_view(v: Seq<SourceConfig>) -> Seq<SourceModel> {
    v.map_values(|s: SourceConfig| s@)
}

impl View for CalendarConfig {
    type V = ConfigModel;

    open spec fn view(&self) -> ConfigModel {
        ConfigModel {
            sources: sources_view(self.sources@),
            sync_interval_minutes: self.sync_interval_minutes,
            upcoming_count: self.upcoming_count,
            calendar_app: self.calendar_app@,
            sync_range_past_days: self.sync_range_past_days,
            sync_range_future_days: self.sync_range_future_days,
            encryption_mode: self.encryption_mode,
        }
    }
}

// ── Copies ─────────────────────────────────────────────────────────

pub fn copy_texts(v: &Vec<String>) -> (r: Vec<String>)
    ensures
        texts_view(r@) == texts_view(v@),
{
    let mut r: Vec<String> = Vec::new();
    let mut i: usize = 0;
    while i < v.len()
        invariant
            i <= v@.len(),
            r@.len() == i,
            forall|j: int| 0 <= j < i ==> #[trigger] r@[j]@ == v@[j]@,
        decreases v@.len() - i,
    {
        r.push(v[i].clone());
        i = i + 1;
    }
    proof {
        assert(texts_view(r@) =~= texts_view(v@));
    }
    r
}

impl Clone for AuthMethod {
    fn clone(&self) -> (r: AuthMethod)
        ensures
            r@ == self@,
    {
        match self {
            AuthMethod::Anonymous => AuthMethod::Anonymous,
            AuthMethod::Basic { username } => AuthMethod::Basic { username: username.clone() },
            AuthMethod::Bearer => AuthMethod::Bearer,
            AuthMethod::Oidc { issuer_url, client_id, has_token, has_client_secret, scopes } =>
                AuthMethod::Oidc {
                issuer_url: issuer_url.clone(),
                client_id: client_id.clone(),
                has_token: *has_token,
                has_client_secret: *has_client_secret,
                scopes: copy_texts(scopes),
            },
        }
    }
}

impl Clone for CalDavCalendar {
    fn clone(&self) -> (r: CalDavCalendar)
        ensures
            r@ == self@,
    {
        CalDavCalendar {
            href: self.href.clone(),
            display_name: self.display_name.clone(),
            color: self.color.clone(),
            enabled: self.enabled,
            ctag: copy_text(&self.ctag),
            sync_token: copy_text(&self.sync_token),
        }
    }
}

pub fn copy_collections(v: &Vec<CalDavCalendar>) -> (r: Vec<CalDavCalendar>)
    ensures
        collections_view(r@) == collections_view(v@),
{
    let mut r: Vec<CalDavCalendar> = Vec::new();
    let mut i: usize = 0;
    while i < v.len()
        invariant
            i <= v@.len(),
            r@.len() == i,
            forall|j: int| 0 <= j < i ==> #[trigger] r@[j]@ == v@[j]@,
        decreases v@.len() - i,
    {
        r.push(v[i].clone());
        i = i + 1;
    }
    proof {
        assert(collections_view(r@) =~= collections_view(v@));
    }
    r
}

impl Clone for SourceType {
    fn clone(&self) -> (r: SourceType)
        ensures
            r@ == self@,
    {
        match self {
            SourceType::CalDav { url, auth, calendars } => SourceType::CalDav {
                url: url.clone(),
                auth: auth.clone(),
                calendars: copy_collections(calendars),
            },
            SourceType::IcsUrl { url, auth } => SourceType::IcsUrl {
                url: url.clone(),
                auth: auth.clone(),
            },
            SourceType::IcsFile { path } => SourceType::IcsFile { path: path.clone() },
        }
    }
}

impl Clone for SourceConfig {
    fn clone(&self) -> (r: SourceConfig)
        ensures
            r@ == self@,
    {
        SourceConfig {
            id: self.id.clone(),
            name: self.name.clone(),
            enabled: self.enabled,
            color: self.color.clone(),
            source_type: self.source_type.clone(),
            ca_cert_path: copy_text(&self.ca_cert_path),
        }
    }
}

pub fn copy_sources(v: &Vec<SourceConfig>) -> (r: Vec<SourceConfig>)
    ensures
        sources_view(r@) == sources_view(v@),
{
    let mut r: Vec<SourceConfig> = Vec::new();
    let mut i: usize = 0;
    while i < v.len()
        invariant
            i <= v@.len(),
            r@.len() == i,
            forall|j: int| 0 <= j < i ==> #[trigger] r@[j]@ == v@[j]@,
        decreases v@.len() - i,
    {
        r.push(v[i].clone());
        i = i + 1;
    }
    proof {
        assert(sources_view(r@) =~= sources_view(v@));
    }
    r
}

impl Clone for CalendarConfig {
    fn clone(&self) -> (r: CalendarConfig)
        ensures
            r@ == self@,
    {
        CalendarConfig {
            sources: copy_sources(&self.sources),
            sync_interval_minutes: self.sync_interval_minutes,
            upcoming_count: self.upcoming_count,
            calendar_app: self.calendar_app.clone(),
            sync_range_past_days: self.sync_range_past_days,
            sync_range_future_days: self.sync_range_future_days,
            encryption_mode: self.encryption_mode,
        }
    }
}

// ── Defaults ───────────────────────────────────────────────────────

impl Default for AuthMethod {
    fn default() -> (r: AuthMethod)
        ensures
            r@ == AuthModel::Anonymous,
    {
        AuthMethod::Anonymous
    }
}

/// The configuration to start with.
pub open spec fn default_config() -> ConfigModel {
    ConfigModel {
        sources: Seq::empty(),
        sync_interval_minutes: 15,
        upcoming_count: 5,
        calendar_app: Seq::empty(),
        sync_range_past_days: 30,
        sync_range_future_days: 90,
        encryption_mode: EncryptionMode::Auto,
    }
}

impl Default for CalendarConfig {
    fn default() -> (r: CalendarConfig)
        ensures
            r@ == default_config(),
    {
        let r = CalendarConfig {
            sources: Vec::new(),
            sync_interval_minutes: 15,
            upcoming_count: 5,
            calendar_app: String::new(),
            sync_range_past_days: 30,
            sync_range_future_days: 90,
            encryption_mode: EncryptionMode::Auto,
        };
        proof {
            assert(r@.sources =~= Seq::<SourceModel>::empty());
            assert(r@.calendar_app =~= Seq::<char>::empty());
        }
        r
    }
}

/// The scopes to ask for where none are given.
pub fn default_oidc_scopes() -> (r: Vec<String>)
    ensures
        texts_view(r@) == seq!["openid"@, "offline_access"@],
{
    let mut r: Vec<String> = Vec::new();
    r.push("openid".to_owned());
    r.push("offline_access".to_owned());
    proof {
        assert(texts_view(r@) =~= seq!["openid"@, "offline_access"@]);
    }
    r
}

/// The color of a calendar that has none.
pub fn default_calendar_color() -> (r: String)
    ensures
        r@ == "#0078D4"@,
{
    "#0078D4".to_owned()
}

/// The forms in which the color of a calendar may be stored.
#[derive(Debug)]
pub enum StoredColor {
    /// A plain string.
    Text(String),
    /// Nothing: a missing or empty value.
    Nothing,
    /// The name of an enum variant that holds nothing.
    Unit(String),
    /// The name of an enum variant, and the string that it holds.
    Holding(String, String),
}

pub open spec fn color_stored(c: StoredColor) -> Seq<char> {
    match c {
        StoredColor::Text(s) => s@,
        StoredColor::Nothing => "#0078D4"@,
        StoredColor::Unit(name) => if name@ == "None"@ {
            "#0078D4"@
        } else {
            name@
        },
        StoredColor::Holding(name, s) => if name@ == "Some"@ {
            s@
        } else {
            name@
        },
    }
}

/// The color that was stored, in the old optional form or in the plain one.
pub fn stored_color(c: StoredColor) -> (r: String)
    ensures
        r@ == color_stored(c),
{
    match c {
        StoredColor::Text(s) => s,
        StoredColor::Nothing => default_calendar_color(),
        StoredColor::Unit(name) => if same_text(name.as_str(), "None") {
            default_calendar_color()
        } else {
            name
        },
        StoredColor::Holding(name, s) => if same_text(name.as_str(), "Some") {
            s
        } else {
            name
        },
    }
}

// ── New sources ────────────────────────────────────────────────────

/// Whether a character is a lower-case hexadecimal digit.
pub open spec fn is_hex(c: char) -> bool {
    ('0' <= c <= '9') || ('a' <= c <= 'f')
}

/// Whether `s` has the form of a UUID: 36 characters, with hyphens at fixed places and
/// hexadecimal digits elsewhere.
pub open spec fn is_uuid(s: Seq<char>) -> bool {
    &&& s.len() == 36
    &&& forall|i: int|
        0 <= i < 36 ==> if i == 8 || i == 13 || i == 18 || i == 23 {
            #[trigger] s[i] == '-'
        } else {
            is_hex(s[i])
        }
}

/// `uuid::Uuid::new_v4` and its text: a random identifier in the hyphenated form.
#[verifier::external_body]
pub(crate) fn random_uuid() -> (r: String)
    ensures
        is_uuid(r@),
{
    uuid::Uuid::new_v4().to_string()
}

impl SourceConfig {
    /// An enabled source with an identifier of its own.
    pub fn new(name: String, color: String, source_type: SourceType) -> (r: SourceConfig)
        ensures
            is_uuid(r@.id),
            r@ == (SourceModel {
                id: r@.id,
                name: name@,
                enabled: true,
                color: color@,
                source_type: source_type@,
                ca_cert_path: None,
            }),
    {
        SourceConfig {
            id: random_uuid(),
            name,
            enabled: true,
            color,
            source_type,
            ca_cert_path: None,
        }
    }
}

/// The certificate to trust besides those of the system; none where the path is left
/// empty.
pub fn ca_certificate(path: &Option<String>) -> (r: Option<&str>)
    ensures
        text_view(r) == (match opt_text(*path) {
            Some(p) => if p.len() > 0 {
                Some(p)
            } else {
                None
            },
            None => None,
        }),
{
    match path {
        Some(p) => if p.as_str().is_empty() {
            None
        } else {
            Some(p.as_str())
        },
        None => None,
    }
}

// ── Comparison ─────────────────────────────────────────────────────

fn same_option(a: &Option<String>, b: &Option<String>) -> (r: bool)
    ensures
        r == (opt_text(*a) == opt_text(*b)),
{
    match (a, b) {
        (Some(a), Some(b)) => same_text(a.as_str(), b.as_str()),
        (None, None) => true,
        _ => false,
    }
}

fn same_texts(a: &Vec<String>, b: &Vec<String>) -> (r: bool)
    ensures
        r == (texts_view(a@) == texts_view(b@)),
{
    proof {
        assert(texts_view(a@).len() == a@.len() && texts_view(b@).len() == b@.len());
    }
    if a.len() != b.len() {
        return false;
    }
    let mut i: usize = 0;
    while i < a.len()
        invariant
            i <= a@.len(),
            a@.len() == b@.len(),
            forall|j: int| 0 <= j < i ==> #[trigger] a@[j]@ == b@[j]@,
        decreases a@.len() - i,
    {
        if !same_text(a[i].as_str(), b[i].as_str()) {
            proof {
                assert(texts_view(a@)[i as int] != texts_view(b@)[i as int]);
            }
            return false;
        }
        i = i + 1;
    }
    proof {
        assert(texts_view(a@) =~= texts_view(b@));
    }
    true
}

fn same_auth(a: &AuthMethod, b: &AuthMethod) -> (r: bool)
    ensures
        r == (a@ == b@),
{
    match (a, b) {
        (AuthMethod::Anonymous, AuthMethod::Anonymous) => true,
        (AuthMethod::Basic { username: x }, AuthMethod::Basic { username: y }) => same_text(
            x.as_str(),
            y.as_str(),
        ),
        (AuthMethod::Bearer, AuthMethod::Bearer) => true,
        (
            AuthMethod::Oidc {
                issuer_url: u,
                client_id: c,
                has_token: t,
                has_client_secret: s,
                scopes: p,
            },
            AuthMethod::Oidc {
                issuer_url: v,
                client_id: d,
                has_token: w,
                has_client_secret: x,
                scopes: q,
            },
        ) => same_text(u.as_str(), v.as_str()) && same_text(c.as_str(), d.as_str()) && *t == *w && *s
            == *x && same_texts(p, q),
        _ => false,
    }
}

fn same_calendar(a: &CalDavCalendar, b: &CalDavCalendar) -> (r: bool)
    ensures
        r == (a@ == b@),
{
    same_text(a.href.as_str(), b.href.as_str()) && same_text(
        a.display_name.as_str(),
        b.display_name.as_str(),
    ) && same_text(a.color.as_str(), b.color.as_str()) && a.enabled == b.enabled && same_option(
        &a.ctag,
        &b.ctag,
    ) && same_option(&a.sync_token, &b.sync_token)
}

fn same_calendars(a: &Vec<CalDavCalendar>, b: &Vec<CalDavCalendar>) -> (r: bool)
    ensures
        r == (collections_view(a@) == collections_view(b@)),
{
    proof {
        assert(collections_view(a@).len() == a@.len() && collections_view(b@).len() == b@.len());
    }
    if a.len() != b.len() {
        return false;
    }
    let mut i: usize = 0;
    while i < a.len()
        invariant
            i <= a@.len(),
            a@.len() == b@.len(),
            forall|j: int| 0 <= j < i ==> #[trigger] a@[j]@ == b@[j]@,
        decreases a@.len() - i,
    {
        if !same_calendar(&a[i], &b[i]) {
            proof {
                assert(collections_view(a@)[i as int] != collections_view(b@)[i as int]);
            }
            return false;
        }
        i = i + 1;
    }
    proof {
        assert(collections_view(a@) =~= collections_view(b@));
    }
    true
}

fn same_source(a: &SourceConfig, b: &SourceConfig) -> (r: bool)
    ensures
        r == (a@ == b@),
{
    let same_type = match (&a.source_type, &b.source_type) {
        (
            SourceType::CalDav { url: u, auth: x, calendars: c },
            SourceType::CalDav { url: v, auth: y, calendars: d },
        ) => same_text(u.as_str(), v.as_str()) && same_auth(x, y) && same_calendars(c, d),
        (SourceType::IcsUrl { url: u, auth: x }, SourceType::IcsUrl { url: v, auth: y }) =>
            same_text(u.as_str(), v.as_str()) && same_auth(x, y),
        (SourceType::IcsFile { path: p }, SourceType::IcsFile { path: q }) => same_text(
            p.as_str(),
            q.as_str(),
        ),
        _ => false,
    };
    same_type && same_text(a.id.as_str(), b.id.as_str()) && same_text(
        a.name.as_str(),
        b.name.as_str(),
    ) && a.enabled == b.enabled && same_text(a.color.as_str(), b.color.as_str()) && same_option(
        &a.ca_cert_path,
        &b.ca_cert_path,
    )
}

/// Whether two lists of sources are the same.
pub fn same_sources(a: &Vec<SourceConfig>, b: &Vec<SourceConfig>) -> (r: bool)
    ensures
        r == (sources_view(a@) == sources_view(b@)),
{
    proof {
        assert(sources_view(a@).len() == a@.len() && sources_view(b@).len() == b@.len());
    }
    if a.len() != b.len() {
        return false;
    }
    let mut i: usize = 0;
    while i < a.len()
        invariant
            i <= a@.len(),
            a@.len() == b@.len(),
            forall|j: int| 0 <= j < i ==> #[trigger] a@[j]@ == b@[j]@,
        decreases a@.len() - i,
    {
        if !same_source(&a[i], &b[i]) {
            proof {
                assert(sources_view(a@)[i as int] != sources_view(b@)[i as int]);
            }
            return false;
        }
        i = i + 1;
    }
    proof {
        assert(sources_view(a@) =~= sources_view(b@));
    }
    true
}

} // verus!

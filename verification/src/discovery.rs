//! Discovery of the calendars of a CalDAV server.

use crate::component::opt_text;
use crate::config::{collections_view, CalDavCalendar, CollectionModel};
use crate::ics::{or_default, or_empty};
use crate::text::{
    begins_with, chars_of, find_in, find_text, index_or_len, lemma_find_text, lemma_index_or_len,
    occurs_at, pieces_view, position_of, split, split_at_char, strip_end, text_of, without_end,
    without_trailing_slashes,
};
use crate::xml::{
    bytes_of, document_element, document_inner, opt_string, read_tokens, response_blocks,
    stands_inside, strings_view, tokens_hold_inside, tokens_view, xml_extract_inner,
    xml_extract_text, xml_tokens, TokenModel, XmlToken,
};
use crate::caldav::xml_response_blocks;
use vstd::prelude::*;
use vstd::slice::slice_subrange;

verus! {

// ── Errors ─────────────────────────────────────────────────────────

/// Why a discovery failed.
#[derive(Debug)]
pub enum DiscoveryError {
    Http(String),
    AuthExpired(String),
    Other(String),
}

/// The message that an error is shown as.
pub open spec fn discovery_message(e: DiscoveryError) -> Seq<char> {
    match e {
        DiscoveryError::Http(s) => "HTTP error: "@ + s@,
        DiscoveryError::AuthExpired(s) => "Authentication expired for source "@ + s@,
        DiscoveryError::Other(s) => s@,
    }
}

impl DiscoveryError {
    /// The message that the error is shown as.
    pub fn message(&self) -> (r: String)
        ensures
            r@ == discovery_message(*self),
    {
        match self {
            DiscoveryError::Http(s) => {
                let mut r = "HTTP error: ".to_owned();
                r.append(s.as_str());
                r
            },
            DiscoveryError::AuthExpired(s) => {
                let mut r = "Authentication expired for source ".to_owned();
                r.append(s.as_str());
                r
            },
            DiscoveryError::Other(s) => s.clone(),
        }
    }
}

/// Credentials for discovery without keyring lookup.
#[derive(Debug)]
pub enum InlineCredentials {
    /// No credentials.
    Anonymous,
    Basic { username: String, password: String },
    Bearer { token: String },
}

// ── PROPFIND XML bodies ────────────────────────────────────────────

/// PROPFIND body to discover the current-user-principal.
pub const PROPFIND_PRINCIPAL: &'static str = r#"<?xml version="1.0" encoding="UTF-8"?>
<d:propfind xmlns:d="DAV:">
  <d:prop>
    <d:current-user-principal/>
  </d:prop>
</d:propfind>"#;

/// PROPFIND body to discover the calendar-home-set.
pub const PROPFIND_HOME_SET: &'static str = r#"<?xml version="1.0" encoding="UTF-8"?>
<d:propfind xmlns:d="DAV:" xmlns:c="urn:ietf:params:xml:ns:caldav">
  <d:prop>
    <c:calendar-home-set/>
  </d:prop>
</d:propfind>"#;

/// PROPFIND body to list calendars and their properties.
pub const PROPFIND_CALENDARS: &'static str = r#"<?xml version="1.0" encoding="UTF-8"?>
<d:propfind xmlns:d="DAV:" xmlns:c="urn:ietf:params:xml:ns:caldav"
            xmlns:cs="http://calendarserver.org/ns/"
            xmlns:ic="http://apple.com/ns/ical/">
  <d:prop>
    <d:resourcetype/>
    <d:displayname/>
    <ic:calendar-color/>
    <cs:getctag/>
  </d:prop>
</d:propfind>"#;

// ── URL resolution ─────────────────────────────────────────────────

/// Whether an address names its own server.
pub open spec fn is_absolute(href: Seq<char>) -> bool {
    "http://"@.is_prefix_of(href) || "https://"@.is_prefix_of(href)
}

/// The scheme and the host of an address, up to the first slash of its path; all of it
/// where it has no scheme.
pub open spec fn origin(base: Seq<char>) -> Seq<char> {
    match find_text(base, "://"@) {
        Some(i) => {
            let host = base.skip(i + 3);
            base.take(i + 3 + index_or_len(host, '/'))
        },
        None => base,
    }
}

/// The address that `href` stands for on the server of `base`.
pub open spec fn resolved(base: Seq<char>, href: Seq<char>) -> Seq<char> {
    if is_absolute(href) {
        href
    } else if href.len() > 0 && href[0] == '/' {
        origin(base) + href
    } else {
        base + seq!['/'] + href
    }
}

/// Resolve a potentially-relative href against the server base URL.
pub fn resolve_url(base: &str, href: &str) -> (r: String)
    ensures
        r@ == resolved(base@, href@),
{
    let h = chars_of(href);
    if begins_with(&h, "http://") || begins_with(&h, "https://") {
        return href.to_owned();
    }
    if h.len() > 0 && h[0] == '/' {
        let b = chars_of(base);
        let mark = chars_of("://");
        proof {
            reveal_strlit("://");
            lemma_find_text(base@, "://"@);
        }
        let mut r = match find_in(&b, &mark) {
            Some(i) => {
                let length: usize = b.len();
                proof {
                    assert(i + 3 <= length);
                    lemma_index_or_len(b@.skip(i + 3), '/');
                }
                let host = slice_subrange(b.as_slice(), i + 3, length);
                assert(host@ =~= b@.skip(i + 3));
                let end: usize = i + 3 + position_of(host, '/');
                let front = slice_subrange(b.as_slice(), 0, end);
                assert(front@ =~= b@.take(end as int));
                text_of(front)
            },
            None => base.to_owned(),
        };
        r.append(href);
        return r;
    }
    let mut r = base.to_owned();
    r.push('/');
    r.append(href);
    proof {
        assert(r@ =~= base@ + seq!['/'] + href@);
    }
    r
}

/// An absolute address stands for itself.
pub proof fn lemma_resolved_absolute(base: Seq<char>, href: Seq<char>)
    requires
        is_absolute(href),
    ensures
        resolved(base, href) == href,
{
}

/// What stands for an address on an absolute base is absolute, and stands for itself from
/// then on.
pub proof fn lemma_resolved_twice(base: Seq<char>, href: Seq<char>)
    requires
        is_absolute(base),
    ensures
        is_absolute(resolved(base, href)),
        resolved(base, resolved(base, href)) == resolved(base, href),
{
    reveal_strlit("http://");
    reveal_strlit("https://");
    reveal_strlit("://");
    let r = resolved(base, href);
    let o = origin(base);
    let http = "http://"@;
    let https = "https://"@;
    let mark = "://"@;
    assert(http.is_prefix_of(base) ==> occurs_at(base, mark, 4)) by {
        if http.is_prefix_of(base) {
            assert(base.subrange(4, 7) =~= mark) by {
                assert(base.take(7) =~= http);
                assert(base[4] == base.take(7)[4] && base[5] == base.take(7)[5] && base[6]
                    == base.take(7)[6]);
            }
        }
    }
    assert(https.is_prefix_of(base) ==> occurs_at(base, mark, 5)) by {
        if https.is_prefix_of(base) {
            assert(base.subrange(5, 8) =~= mark) by {
                assert(base.take(8) =~= https);
                assert(base[5] == base.take(8)[5] && base[6] == base.take(8)[6] && base[7]
                    == base.take(8)[7]);
            }
        }
    }
    lemma_find_text(base, mark);
    assert(find_text(base, mark) is Some);
    let i = find_text(base, mark)->0;
    lemma_index_or_len(base.skip(i + 3), '/');
    if !is_absolute(href) && href.len() > 0 && href[0] == '/' {
        if http.is_prefix_of(base) {
            lemma_prefix_mark(base, http, i, 4);
            assert(http.is_prefix_of(o + href));
        } else {
            lemma_prefix_mark(base, https, i, 5);
            assert(https.is_prefix_of(o + href));
        }
    } else if !is_absolute(href) {
        if http.is_prefix_of(base) {
            assert(http.is_prefix_of(base + seq!['/'] + href));
        } else {
            assert(https.is_prefix_of(base + seq!['/'] + href));
        }
    }
}

proof fn lemma_prefix_mark(base: Seq<char>, scheme: Seq<char>, i: int, at: int)
    requires
        scheme.is_prefix_of(base),
        at == 4 && scheme == "http://"@ || at == 5 && scheme == "https://"@,
        crate::text::first_at(base, "://"@, i),
        occurs_at(base, "://"@, at),
    ensures
        i == at,
        i + 3 == scheme.len(),
{
    reveal_strlit("http://");
    reveal_strlit("https://");
    reveal_strlit("://");
    if i < at {
        assert(base.subrange(i, i + 3)[0] == ':');
        assert(base[i] == ':');
        assert(base.take(scheme.len() as int) =~= scheme);
        assert(base[i] == scheme[i]);
    }
    if at < i {
        assert(occurs_at(base, "://"@, at));
    }
}

// ── The chain of requests ──────────────────────────────────────────

/// The address of the server, without slashes at its end.
pub fn server_base(server_url: &str) -> (r: String)
    ensures
        r@ == strip_end(server_url@, '/'),
{
    without_trailing_slashes(server_url)
}

/// The address inside an element, for a server whose content of the element is known.
pub open spec fn address_in(content: Option<Seq<char>>, base: Seq<char>) -> Seq<char> {
    let href = match content {
        Some(block) => or_empty(document_element(block, "href"@)),
        None => Seq::empty(),
    };
    resolved(base, href)
}

fn address_of(content: Option<String>, base: &str) -> (r: String)
    ensures
        r@ == address_in(opt_string(content), base@),
{
    let href = match content {
        Some(block) => xml_extract_text(block.as_str(), "href"),
        None => None,
    };
    resolve_url(base, or_default(href).as_str())
}

/// Where the calendar-home-set is asked for: the principal that the first reply names.
pub fn principal_url(base: &str, reply: &str) -> (r: String)
    ensures
        r@ == address_in(document_inner(reply@, "current-user-principal"@), base@),
{
    address_of(xml_extract_inner(reply, "current-user-principal"), base)
}

/// Where the calendars are listed: the home-set that the second reply names.
pub fn home_url(base: &str, reply: &str) -> (r: String)
    ensures
        r@ == address_in(document_inner(reply@, "calendar-home-set"@), base@),
{
    address_of(xml_extract_inner(reply, "calendar-home-set"), base)
}

pub open spec fn inline_refusal(url: Seq<char>, status: Seq<char>) -> Seq<char> {
    "PROPFIND to "@ + url + " returned status "@ + status
}

/// Whether the reply to a PROPFIND without stored credentials can be read. One that asks to
/// sign in says that those of the form are not accepted.
pub fn judge_inline(url: &str, status: u16, status_text: &str) -> (r: Result<(), DiscoveryError>)
    ensures
        match r {
            Ok(_) => 200 <= status <= 299,
            Err(DiscoveryError::AuthExpired(id)) => status == 401 && id@ == "form"@,
            Err(DiscoveryError::Other(e)) => status != 401 && !(200 <= status <= 299) && e@
                == inline_refusal(url@, status_text@),
            Err(DiscoveryError::Http(_)) => false,
        },
{
    if status == 401 {
        Err(DiscoveryError::AuthExpired("form".to_owned()))
    } else if 200 <= status && status <= 299 {
        Ok(())
    } else {
        let mut e = "PROPFIND to ".to_owned();
        e.append(url);
        e.append(" returned status ");
        e.append(status_text);
        Err(DiscoveryError::Other(e))
    }
}

// ── Calendar list parsing ──────────────────────────────────────────

/// Whether the tokens of a response block are those of a calendar collection: its
/// `resourcetype` holds a `calendar` and a `collection`. What stands elsewhere, as in its
/// address, does not count.
pub open spec fn is_calendar(block: Seq<TokenModel>) -> bool {
    &&& stands_inside(block, bytes_of("resourcetype"@), bytes_of("calendar"@), 0)
    &&& stands_inside(block, bytes_of("resourcetype"@), bytes_of("collection"@), 0)
}

/// The last segment of the path of an address.
pub open spec fn last_segment(href: Seq<char>) -> Seq<char> {
    split(strip_end(href, '/'), '/').last()
}

/// The calendar with the properties of a response. There is none without an address. New
/// calendars are disabled until the user opts in.
pub open spec fn calendar_with(
    href: Option<Seq<char>>,
    display_name: Option<Seq<char>>,
    color: Option<Seq<char>>,
    ctag: Option<Seq<char>>,
    base: Seq<char>,
) -> Option<CollectionModel> {
    let href = or_empty(href);
    if href.len() == 0 {
        None
    } else {
        Some(
            CollectionModel {
                href: resolved(base, href),
                display_name: match display_name {
                    Some(name) => name,
                    None => last_segment(href),
                },
                color: or_empty(color),
                enabled: false,
                ctag,
                sync_token: None,
            },
        )
    }
}

/// The calendar that a response block describes.
pub open spec fn calendar_in(block: Seq<char>, base: Seq<char>) -> Option<CollectionModel> {
    if is_calendar(xml_tokens(block)) {
        calendar_with(
            document_element(block, "href"@),
            document_element(block, "displayname"@),
            document_element(block, "calendar-color"@),
            document_element(block, "getctag"@),
            base,
        )
    } else {
        None
    }
}

/// The calendars that response blocks describe.
pub open spec fn calendars_in(blocks: Seq<Seq<char>>, base: Seq<char>) -> Seq<CollectionModel>
    decreases blocks.len(),
{
    if blocks.len() == 0 {
        Seq::empty()
    } else {
        let before = calendars_in(blocks.drop_last(), base);
        match calendar_in(blocks.last(), base) {
            Some(c) => before.push(c),
            None => before,
        }
    }
}

fn last_segment_of(href: &str) -> (r: String)
    ensures
        r@ == last_segment(href@),
{
    let cs = chars_of(href);
    let path = without_end(&cs, '/');
    let parts = split_at_char(path, '/');
    proof {
        lemma_split_not_empty(path@, '/');
        assert(pieces_view(parts@).len() == parts@.len());
        assert(pieces_view(parts@).last() == parts@.last()@);
    }
    text_of(parts[parts.len() - 1].as_slice())
}

proof fn lemma_split_not_empty(s: Seq<char>, c: char)
    ensures
        split(s, c).len() > 0,
{
    lemma_index_or_len(s, c);
}

pub open spec fn collection_view(c: Option<CalDavCalendar>) -> Option<CollectionModel> {
    match c {
        Some(c) => Some(c@),
        None => None,
    }
}

/// The calendar with the properties of a response.
pub fn calendar_of(
    href: Option<String>,
    display_name: Option<String>,
    color: Option<String>,
    ctag: Option<String>,
    base: &str,
) -> (r: Option<CalDavCalendar>)
    ensures
        collection_view(r) == calendar_with(
            opt_text(href),
            opt_text(display_name),
            opt_text(color),
            opt_text(ctag),
            base@,
        ),
{
    let href = or_default(href);
    if href.as_str().is_empty() {
        return None;
    }
    let display_name = match display_name {
        Some(name) => name,
        None => last_segment_of(href.as_str()),
    };
    Some(
        CalDavCalendar {
            href: resolve_url(base, href.as_str()),
            display_name,
            color: or_default(color),
            enabled: false,
            ctag,
            sync_token: None,
        },
    )
}

/// Whether tokens are those of a calendar collection.
pub fn is_calendar_tokens(tokens: &Vec<XmlToken>) -> (r: bool)
    ensures
        r == is_calendar(tokens_view(tokens@)),
{
    tokens_hold_inside(tokens, "resourcetype", "calendar") && tokens_hold_inside(
        tokens,
        "resourcetype",
        "collection",
    )
}

/// Whether a response block is that of a calendar collection.
pub fn is_calendar_block(block: &str) -> (r: bool)
    ensures
        r == is_calendar(xml_tokens(block@)),
{
    is_calendar_tokens(&read_tokens(block))
}

/// The calendars that response blocks describe.
pub fn calendars_of_blocks(blocks: &Vec<String>, base: &str) -> (r: Vec<CalDavCalendar>)
    ensures
        collections_view(r@) == calendars_in(strings_view(blocks@), base@),
{
    let ghost all = strings_view(blocks@);
    let mut r: Vec<CalDavCalendar> = Vec::new();
    let mut i: usize = 0;
    proof {
        assert(all.take(0) =~= Seq::<Seq<char>>::empty());
        assert(collections_view(r@) =~= Seq::<CollectionModel>::empty());
    }
    while i < blocks.len()
        invariant
            i <= blocks@.len(),
            all == strings_view(blocks@),
            collections_view(r@) == calendars_in(all.take(i as int), base@),
        decreases blocks@.len() - i,
    {
        let ghost before = collections_view(r@);
        let block = blocks[i].as_str();
        proof {
            assert(all.take(i + 1).drop_last() =~= all.take(i as int));
            assert(all.take(i + 1).last() == block@);
        }
        if is_calendar_block(block) {
            let c = calendar_of(
                xml_extract_text(block, "href"),
                xml_extract_text(block, "displayname"),
                xml_extract_text(block, "calendar-color"),
                xml_extract_text(block, "getctag"),
                base,
            );
            if let Some(c) = c {
                let ghost m = c@;
                r.push(c);
                proof {
                    assert(collections_view(r@) =~= before.push(m));
                }
            }
        }
        i = i + 1;
    }
    proof {
        assert(all.take(i as int) =~= all);
    }
    r
}

/// Parse the PROPFIND Depth:1 response to extract calendar collections.
pub fn parse_calendar_list(xml: &str, base: &str) -> (r: Vec<CalDavCalendar>)
    ensures
        collections_view(r@) == calendars_in(response_blocks(xml_tokens(xml@), true), base@),
{
    let blocks = xml_response_blocks(xml);
    calendars_of_blocks(&blocks, base)
}

/// Only a response whose `resourcetype` holds a `calendar` and a `collection` is listed.
pub proof fn lemma_found_are_calendars(blocks: Seq<Seq<char>>, base: Seq<char>)
    requires
        forall|i: int| 0 <= i < blocks.len() ==> !is_calendar(xml_tokens(#[trigger] blocks[i])),
    ensures
        calendars_in(blocks, base).len() == 0,
    decreases blocks.len(),
{
    if blocks.len() > 0 {
        let front = blocks.drop_last();
        assert forall|i: int| 0 <= i < front.len() implies !is_calendar(
            xml_tokens(#[trigger] front[i]),
        ) by {
            assert(front[i] == blocks[i]);
        }
        lemma_found_are_calendars(front, base);
        assert(!is_calendar(xml_tokens(blocks[blocks.len() - 1])));
    }
}

/// A calendar that is found is disabled and has not been synced.
pub proof fn lemma_found_calendars_disabled(blocks: Seq<Seq<char>>, base: Seq<char>, i: int)
    requires
        0 <= i < calendars_in(blocks, base).len(),
    ensures
        !calendars_in(blocks, base)[i].enabled,
        calendars_in(blocks, base)[i].sync_token is None,
        calendars_in(blocks, base)[i].href.len() > 0,
    decreases blocks.len(),
{
    if blocks.len() > 0 {
        let before = calendars_in(blocks.drop_last(), base);
        if i < before.len() {
            lemma_found_calendars_disabled(blocks.drop_last(), base, i);
        }
    }
}

} // verus!

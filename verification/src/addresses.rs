//! What the addresses of a discovery lead to.

use crate::discovery::{
    address_in, calendar_in, calendars_in, is_absolute, is_calendar, last_segment, origin, resolved,
};
use crate::reading::{joined_by, lemma_split_joined, none_holds};
use crate::text::{lemma_find_is, lemma_index_is, occurs_at, strip_end};
use crate::xml::{document_element, xml_tokens};
use vstd::prelude::*;

verus! {

// ── Addresses ──────────────────────────────────────────────────────

/// An address by its parts.
pub open spec fn address(scheme: Seq<char>, authority: Seq<char>, path: Seq<char>) -> Seq<char> {
    scheme + "://"@ + authority + path
}

/// Whether these are the parts of an address: no colon in the scheme, no slash in the
/// authority, which may have a port, and a path that is empty or begins with a slash.
pub open spec fn are_parts(scheme: Seq<char>, authority: Seq<char>, path: Seq<char>) -> bool {
    &&& !scheme.contains(':')
    &&& !authority.contains('/')
    &&& path.len() > 0 ==> path[0] == '/'
}

proof fn lemma_origin(scheme: Seq<char>, authority: Seq<char>, path: Seq<char>)
    requires
        are_parts(scheme, authority, path),
    ensures
        origin(address(scheme, authority, path)) == scheme + "://"@ + authority,
{
    reveal_strlit("://");
    let mark = "://"@;
    let base = address(scheme, authority, path);
    let n = scheme.len() as int;
    assert(base.subrange(n, n + 3) =~= mark);
    assert(occurs_at(base, mark, n));
    assert forall|j: int| 0 <= j < n implies !#[trigger] occurs_at(base, mark, j) by {
        if occurs_at(base, mark, j) {
            assert(base.subrange(j, j + 3)[0] == ':');
            assert(base[j] == scheme[j]);
            assert(scheme.contains(scheme[j]));
        }
    }
    lemma_find_is(base, mark, n);
    let host = base.skip(n + 3);
    assert(host =~= authority + path);
    let k = authority.len() as int;
    assert forall|j: int| 0 <= j < k implies host[j] != '/' by {
        assert(host[j] == authority[j]);
        assert(authority.contains(authority[j]));
    }
    lemma_index_is(host, '/', k);
    assert(base.take(n + 3 + k) =~= scheme + mark + authority);
}

/// An address that begins with a slash stands for a place on the same server, whatever its
/// port: scheme and authority are those of the base, and its path is gone.
pub proof fn lemma_resolved_on_server(
    scheme: Seq<char>,
    authority: Seq<char>,
    path: Seq<char>,
    href: Seq<char>,
)
    requires
        are_parts(scheme, authority, path),
        href.len() > 0,
        href[0] == '/',
    ensures
        resolved(address(scheme, authority, path), href) == scheme + "://"@ + authority + href,
{
    lemma_origin(scheme, authority, path);
    reveal_strlit("http://");
    reveal_strlit("https://");
    assert("http://"@[0] == 'h' && "https://"@[0] == 'h');
}

/// An address that neither names a server nor begins with a slash stands for a place below
/// the base.
pub proof fn lemma_resolved_below(base: Seq<char>, href: Seq<char>)
    requires
        !"http://"@.is_prefix_of(href),
        !"https://"@.is_prefix_of(href),
        href.len() > 0 ==> href[0] != '/',
    ensures
        resolved(base, href) == base + seq!['/'] + href,
{
}

/// An address of its own server stands for itself, on whatever base.
pub proof fn lemma_resolved_elsewhere(base: Seq<char>, rest: Seq<char>)
    ensures
        resolved(base, "http://"@ + rest) == "http://"@ + rest,
        resolved(base, "https://"@ + rest) == "https://"@ + rest,
{
    assert("http://"@.is_prefix_of("http://"@ + rest)) by {
        assert(("http://"@ + rest).subrange(0, "http://"@.len() as int) =~= "http://"@);
    }
    assert("https://"@.is_prefix_of("https://"@ + rest)) by {
        assert(("https://"@ + rest).subrange(0, "https://"@.len() as int) =~= "https://"@);
    }
}

/// The next request of a discovery goes to the address that the reply names, on the same
/// server; where it names none, to the base.
pub proof fn lemma_next_request(
    scheme: Seq<char>,
    authority: Seq<char>,
    path: Seq<char>,
    content: Seq<char>,
)
    requires
        are_parts(scheme, authority, path),
    ensures
        ({
            let base = address(scheme, authority, path);
            &&& address_in(None, base) == base + seq!['/']
            &&& document_element(content, "href"@) is None ==> address_in(Some(content), base)
                == base + seq!['/']
            &&& match document_element(content, "href"@) {
                Some(href) => href.len() > 0 && href[0] == '/' ==> address_in(Some(content), base)
                    == scheme + "://"@ + authority + href,
                None => true,
            }
        }),
{
    let base = address(scheme, authority, path);
    let none = Seq::<char>::empty();
    reveal_strlit("http://");
    reveal_strlit("https://");
    assert(!is_absolute(none)) by {
        assert("http://"@.len() == 7 && "https://"@.len() == 8);
    }
    assert(base + seq!['/'] + none =~= base + seq!['/']);
    if let Some(href) = document_element(content, "href"@) {
        if href.len() > 0 && href[0] == '/' {
            lemma_resolved_on_server(scheme, authority, path, href);
        }
    }
}

/// `n` times a character.
pub open spec fn times(c: char, n: nat) -> Seq<char> {
    Seq::new(n, |i: int| c)
}

/// What a text ends with is cut off, however often it is there, and nothing else.
pub proof fn lemma_stripped(s: Seq<char>, c: char, n: nat)
    requires
        s.len() > 0 ==> s.last() != c,
    ensures
        strip_end(s + times(c, n), c) == s,
    decreases n,
{
    let all = s + times(c, n);
    if n == 0 {
        assert(all =~= s);
    } else {
        assert(all.last() == c);
        assert(all.drop_last() =~= s + times(c, (n - 1) as nat));
        lemma_stripped(s, c, (n - 1) as nat);
    }
}

/// A calendar without a name is called after the last part of its path.
pub proof fn lemma_called_after_path(parts: Seq<Seq<char>>, slashes: nat)
    requires
        parts.len() > 0,
        none_holds(parts, '/'),
        parts.last().len() > 0,
    ensures
        last_segment(joined_by(parts, '/') + times('/', slashes)) == parts.last(),
{
    let path = joined_by(parts, '/');
    lemma_joined_last(parts, '/');
    assert(!parts[parts.len() - 1].contains('/'));
    assert(path.last() != '/') by {
        assert(parts.last().contains(parts.last().last()));
    }
    lemma_stripped(path, '/', slashes);
    lemma_split_joined(parts, '/');
}

proof fn lemma_joined_last(parts: Seq<Seq<char>>, c: char)
    requires
        parts.len() > 0,
        parts.last().len() > 0,
    ensures
        joined_by(parts, c).len() > 0,
        joined_by(parts, c).last() == parts.last().last(),
    decreases parts.len(),
{
    if parts.len() > 1 {
        let rest = parts.skip(1);
        assert(rest.last() == parts.last());
        lemma_joined_last(rest, c);
        let all = joined_by(parts, c);
        let tail = joined_by(rest, c);
        assert(all.last() == tail.last());
    }
}

// ── Calendars ──────────────────────────────────────────────────────

/// What a response says of a calendar.
pub struct Described {
    pub href: Seq<char>,
    pub name: Option<Seq<char>>,
    pub color: Option<Seq<char>>,
    pub ctag: Option<Seq<char>>,
}

/// Whether a response describes a calendar so.
pub open spec fn describes(block: Seq<char>, c: Described) -> bool {
    &&& is_calendar(xml_tokens(block))
    &&& c.href.len() > 0
    &&& document_element(block, "href"@) == Some(c.href)
    &&& document_element(block, "displayname"@) == c.name
    &&& document_element(block, "calendar-color"@) == c.color
    &&& document_element(block, "getctag"@) == c.ctag
}

/// Responses that describe calendars give these calendars, one for each and in their order:
/// with the address on the server, the name, the color and the ctag that are said, disabled,
/// and without a sync-token.
pub proof fn lemma_described_calendars(
    blocks: Seq<Seq<char>>,
    base: Seq<char>,
    described: Seq<Described>,
)
    requires
        blocks.len() == described.len(),
        forall|i: int| 0 <= i < blocks.len() ==> describes(#[trigger] blocks[i], described[i]),
    ensures
        calendars_in(blocks, base).len() == blocks.len(),
        forall|i: int|
            0 <= i < blocks.len() ==> {
                let c = #[trigger] calendars_in(blocks, base)[i];
                let d = described[i];
                &&& c.href == resolved(base, d.href)
                &&& d.name is Some ==> c.display_name == d.name->0
                &&& d.name is None ==> c.display_name == last_segment(d.href)
                &&& d.color is Some ==> c.color == d.color->0
                &&& d.color is None ==> c.color.len() == 0
                &&& c.ctag == d.ctag
                &&& !c.enabled
                &&& c.sync_token is None
            },
    decreases blocks.len(),
{
    if blocks.len() > 0 {
        let n = blocks.len() - 1;
        let front = blocks.drop_last();
        assert forall|i: int| 0 <= i < front.len() implies describes(
            #[trigger] front[i],
            described.drop_last()[i],
        ) by {
            assert(front[i] == blocks[i]);
        }
        lemma_described_calendars(front, base, described.drop_last());
        assert(describes(blocks[n], described[n]));
        let before = calendars_in(front, base);
        let all = calendars_in(blocks, base);
        assert(calendar_in(blocks.last(), base) is Some);
        assert(all == before.push(calendar_in(blocks.last(), base)->0));
        assert forall|i: int| 0 <= i < blocks.len() implies {
            let c = #[trigger] all[i];
            let d = described[i];
            &&& c.href == resolved(base, d.href)
            &&& d.name is Some ==> c.display_name == d.name->0
            &&& d.name is None ==> c.display_name == last_segment(d.href)
            &&& d.color is Some ==> c.color == d.color->0
            &&& d.color is None ==> c.color.len() == 0
            &&& c.ctag == d.ctag
            &&& !c.enabled
            &&& c.sync_token is None
        } by {
            if i < n {
                assert(all[i] == before[i]);
            }
        }
    }
}

/// Responses that are listed one after the other give their calendars one after the other.
pub proof fn lemma_calendars_concat(a: Seq<Seq<char>>, b: Seq<Seq<char>>, base: Seq<char>)
    ensures
        calendars_in(a + b, base) == calendars_in(a, base) + calendars_in(b, base),
    decreases b.len(),
{
    if b.len() == 0 {
        assert(a + b =~= a);
        assert(calendars_in(a, base) + calendars_in(b, base) =~= calendars_in(a, base));
    } else {
        lemma_calendars_concat(a, b.drop_last(), base);
        assert((a + b).drop_last() =~= a + b.drop_last());
        assert((a + b).last() == b.last());
        assert(calendars_in(a + b, base) =~= calendars_in(a, base) + calendars_in(b, base));
    }
}

} // verus!

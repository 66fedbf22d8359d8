//! What the replies of a server say.

use crate::addresses::{lemma_stripped, times};
use crate::caldav::{
    are_events_in, are_todos_in, entries_in, entry_in, event_address, first_verdict, is_deleted,
    live_blocks, quoted, removed_in, retry_verdict, unquoted, EntryModel, Operation, VerdictModel,
};
use crate::event::EventModel;
use crate::sync::SyncErrorModel;
use crate::text::{occurs_at, strip_end, strip_start};
use crate::todo::TodoModel;
use crate::xml::document_element;
use vstd::prelude::*;

verus! {

// ── Entries ────────────────────────────────────────────────────────

/// A text in quotes.
pub open spec fn in_quotes(s: Seq<char>) -> Seq<char> {
    seq!['"'] + s + seq!['"']
}

/// An ETag that comes in quotes is taken without them, and sent back in quotes as it came.
pub proof fn lemma_etag(tag: Seq<char>)
    requires
        tag.len() > 0,
        tag[0] != '"',
        tag.last() != '"',
    ensures
        unquoted(Some(in_quotes(tag))) == Some(tag),
        unquoted(Some(tag)) == Some(tag),
        quoted(tag) == in_quotes(tag),
{
    let q = in_quotes(tag);
    assert(q[0] == '"');
    assert(q.skip(1) =~= tag + seq!['"']);
    assert((tag + seq!['"'])[0] == tag[0]);
    assert(strip_start(q.skip(1), '"') == q.skip(1));
    assert(strip_start(q, '"') == tag + seq!['"']);
    assert((tag + seq!['"']).last() == '"');
    assert((tag + seq!['"']).drop_last() =~= tag);
    assert(strip_end(tag, '"') == tag);
}

/// What a response says of a resource.
pub struct Resource {
    pub href: Option<Seq<char>>,
    pub etag: Option<Seq<char>>,
    pub data: Seq<char>,
}

/// Whether a response describes a resource so: its ETag is in quotes.
pub open spec fn describes(block: Seq<char>, r: Resource) -> bool {
    &&& document_element(block, "calendar-data"@) == Some(r.data)
    &&& document_element(block, "href"@) == r.href
    &&& match r.etag {
        Some(tag) => {
            &&& tag.len() > 0
            &&& tag[0] != '"'
            &&& tag.last() != '"'
            &&& document_element(block, "getetag"@) == Some(in_quotes(tag))
        },
        None => document_element(block, "getetag"@) is None,
    }
}

/// Responses that describe resources give these, one for each and in their order, each with
/// its own address, its own ETag and its own data.
pub proof fn lemma_described_entries(blocks: Seq<Seq<char>>, resources: Seq<Resource>)
    requires
        blocks.len() == resources.len(),
        forall|i: int| 0 <= i < blocks.len() ==> describes(#[trigger] blocks[i], resources[i]),
    ensures
        entries_in(blocks).len() == blocks.len(),
        forall|i: int|
            0 <= i < blocks.len() ==> {
                let e = #[trigger] entries_in(blocks)[i];
                &&& e.href == resources[i].href
                &&& e.etag == resources[i].etag
                &&& e.calendar_data == resources[i].data
            },
    decreases blocks.len(),
{
    if blocks.len() > 0 {
        let n = blocks.len() - 1;
        let front = blocks.drop_last();
        let others = resources.drop_last();
        assert forall|i: int| 0 <= i < front.len() implies describes(
            #[trigger] front[i],
            others[i],
        ) by {
            assert(front[i] == blocks[i]);
        }
        lemma_described_entries(front, others);
        assert(describes(blocks[n], resources[n]));
        if resources[n].etag is Some {
            lemma_etag(resources[n].etag->0);
        }
        let before = entries_in(front);
        let all = entries_in(blocks);
        assert(all == before.push(entry_in(blocks.last())->0));
        assert forall|i: int| 0 <= i < blocks.len() implies {
            let e = #[trigger] all[i];
            &&& e.href == resources[i].href
            &&& e.etag == resources[i].etag
            &&& e.calendar_data == resources[i].data
        } by {
            if i < n {
                assert(all[i] == before[i]);
            }
        }
    }
}

/// Responses that are listed one after the other give their resources one after the other,
/// and one without calendar data gives none.
pub proof fn lemma_entries_concat(a: Seq<Seq<char>>, b: Seq<Seq<char>>, block: Seq<char>)
    ensures
        entries_in(a + b) == entries_in(a) + entries_in(b),
        document_element(block, "calendar-data"@) is None ==> entries_in(a.push(block))
            == entries_in(a),
    decreases b.len(),
{
    assert(a.push(block).drop_last() =~= a);
    if b.len() == 0 {
        assert(a + b =~= a);
        assert(entries_in(a) + entries_in(b) =~= entries_in(a));
    } else {
        lemma_entries_concat(a, b.drop_last(), block);
        assert((a + b).drop_last() =~= a + b.drop_last());
        assert((a + b).last() == b.last());
        assert(entries_in(a + b) =~= entries_in(a) + entries_in(b));
    }
}

/// What comes from an entry can be changed on the server: it has the ETag and the address of
/// the entry.
pub proof fn lemma_carries_address(
    entry: EntryModel,
    source_id: Seq<char>,
    color: Seq<char>,
    events: Seq<EventModel>,
    todos: Seq<TodoModel>,
    i: int,
)
    requires
        are_events_in(entry, source_id, color, events),
        are_todos_in(entry, source_id, color, todos),
    ensures
        0 <= i < events.len() ==> events[i].etag == entry.etag && events[i].href == entry.href,
        0 <= i < todos.len() ==> todos[i].etag == entry.etag && todos[i].href == entry.href,
{
}

// ── Changes ────────────────────────────────────────────────────────

/// Whether a response says of a resource that it is not found: `404` stands somewhere in its
/// status.
pub open spec fn says_gone(block: Seq<char>) -> bool {
    match document_element(block, "status"@) {
        Some(status) => exists|i: int|
            0 <= i && i + 3 <= status.len() && status.subrange(i, i + 3) == seq!['4', '0', '4']
                && #[trigger] is_place(i),
        None => false,
    }
}

pub open spec fn is_place(i: int) -> bool {
    i >= 0
}

proof fn lemma_gone(block: Seq<char>)
    ensures
        is_deleted(block) == says_gone(block),
{
    reveal_strlit("404");
    assert("404"@ =~= seq!['4', '0', '4']);
    if let Some(status) = document_element(block, "status"@) {
        if is_deleted(block) {
            let i = choose|i: int| #[trigger] occurs_at(status, "404"@, i);
            assert(is_place(i));
        }
        if says_gone(block) {
            let i = choose|i: int|
                0 <= i && i + 3 <= status.len() && status.subrange(i, i + 3) == seq!['4', '0', '4']
                    && #[trigger] is_place(i);
            assert(occurs_at(status, "404"@, i));
        }
    }
}

/// A resource is removed if and only if a response with its address says that it is gone.
pub proof fn lemma_removed(blocks: Seq<Seq<char>>, href: Seq<char>)
    ensures
        removed_in(blocks).contains(href) <==> exists|i: int|
            0 <= i < blocks.len() && says_gone(#[trigger] blocks[i]) && document_element(
                blocks[i],
                "href"@,
            ) == Some(href),
    decreases blocks.len(),
{
    let r = removed_in(blocks);
    if blocks.len() > 0 {
        let n = blocks.len() - 1;
        let front = blocks.drop_last();
        let before = removed_in(front);
        lemma_removed(front, href);
        lemma_gone(blocks[n]);
        if r.contains(href) {
            let k = choose|k: int| 0 <= k < r.len() && r[k] == href;
            if k < before.len() {
                assert(before[k] == href);
                assert(before.contains(href));
                let i = choose|i: int|
                    0 <= i < front.len() && says_gone(#[trigger] front[i]) && document_element(
                        front[i],
                        "href"@,
                    ) == Some(href);
                assert(blocks[i] == front[i]);
            } else {
                assert(says_gone(blocks[n]));
            }
        }
        if exists|i: int|
            0 <= i < blocks.len() && says_gone(#[trigger] blocks[i]) && document_element(
                blocks[i],
                "href"@,
            ) == Some(href) {
            let i = choose|i: int|
                0 <= i < blocks.len() && says_gone(#[trigger] blocks[i]) && document_element(
                    blocks[i],
                    "href"@,
                ) == Some(href);
            if i < n {
                assert(front[i] == blocks[i]);
                assert(before.contains(href));
                let k = choose|k: int| 0 <= k < before.len() && before[k] == href;
                assert(r[k] == href);
            } else {
                assert(r[before.len() as int] == href);
            }
        }
    }
}

/// A response counts as one of a resource that is there if and only if it does not say that
/// it is gone.
pub proof fn lemma_live(blocks: Seq<Seq<char>>, block: Seq<char>)
    ensures
        live_blocks(blocks).contains(block) <==> blocks.contains(block) && !says_gone(block),
    decreases blocks.len(),
{
    reveal(Seq::filter);
    lemma_gone(block);
    let r = live_blocks(blocks);
    if blocks.len() > 0 {
        let n = blocks.len() - 1;
        let front = blocks.drop_last();
        let before = live_blocks(front);
        lemma_live(front, block);
        assert(r == if is_deleted(blocks[n]) {
            before
        } else {
            before.push(blocks[n])
        });
        if r.contains(block) {
            let k = choose|k: int| 0 <= k < r.len() && r[k] == block;
            if k < before.len() {
                assert(before[k] == block);
                assert(before.contains(block));
                let i = choose|i: int| 0 <= i < front.len() && front[i] == block;
                assert(blocks[i] == block);
            } else {
                assert(blocks[n] == block);
            }
        }
        if blocks.contains(block) && !says_gone(block) {
            let i = choose|i: int| 0 <= i < blocks.len() && blocks[i] == block;
            if i < n {
                assert(front[i] == block);
                assert(before.contains(block));
                let k = choose|k: int| 0 <= k < before.len() && before[k] == block;
                assert(r[k] == block);
            } else {
                assert(r[before.len() as int] == block);
            }
        }
    }
}

// ── Verdicts ───────────────────────────────────────────────────────

/// The first reply is taken if and only if it is a success. If and only if it says that the
/// user is not signed in, the token is refreshed. Everything else is refused, and never as
/// an expired sign-in.
pub proof fn lemma_first_reply(op: Operation, url: Seq<char>, status: u16, text: Seq<char>)
    ensures
        first_verdict(op, url, status, text) is Accept <==> 200 <= status < 300,
        first_verdict(op, url, status, text) is Refresh <==> status == 401,
        match first_verdict(op, url, status, text) {
            VerdictModel::Refuse(SyncErrorModel::AuthExpired(_)) => false,
            _ => true,
        },
{
}

/// The second reply is taken if and only if it is a success, and nothing is tried again. A
/// query, a discovery or a creation that is still not signed in says that the sign-in of this
/// very source has expired; no other request does.
pub proof fn lemma_second_reply(
    op: Operation,
    url: Seq<char>,
    source_id: Seq<char>,
    status: u16,
    text: Seq<char>,
)
    ensures
        ({
            let v = retry_verdict(op, url, source_id, status, text);
            let expired = VerdictModel::Refuse(SyncErrorModel::AuthExpired(source_id));
            &&& v is Accept <==> 200 <= status < 300
            &&& v !is Refresh
            &&& v == expired <==> status == 401 && op != Operation::Update && op
                != Operation::Delete && op != Operation::Complete
            &&& v is Refuse && v != expired ==> v->Refuse_0 is Other
        }),
{
}

/// The words of a refusal end with the status that the server gave.
pub proof fn lemma_refusal_names_status(
    op: Operation,
    url: Seq<char>,
    source_id: Seq<char>,
    status: u16,
    text: Seq<char>,
)
    requires
        !(200 <= status < 300),
        status != 401,
        status != 412,
    ensures
        exists|front: Seq<char>|
            first_verdict(op, url, status, text) == VerdictModel::Refuse(
                SyncErrorModel::Other(#[trigger] (front + text)),
            ),
        exists|front: Seq<char>|
            retry_verdict(op, url, source_id, status, text) == VerdictModel::Refuse(
                SyncErrorModel::Other(#[trigger] (front + text)),
            ),
{
    lemma_words_end(op, false, url, text);
    lemma_words_end(op, true, url, text);
    let a = choose|front: Seq<char>|
        crate::caldav::refusal(op, false, url, text) == #[trigger] (front + text);
    let b = choose|front: Seq<char>|
        crate::caldav::refusal(op, true, url, text) == #[trigger] (front + text);
    assert(first_verdict(op, url, status, text) == VerdictModel::Refuse(
        SyncErrorModel::Other(a + text),
    ));
    assert(retry_verdict(op, url, source_id, status, text) == VerdictModel::Refuse(
        SyncErrorModel::Other(b + text),
    ));
}

proof fn lemma_words_end(op: Operation, retry: bool, url: Seq<char>, text: Seq<char>)
    ensures
        exists|front: Seq<char>|
            crate::caldav::refusal(op, retry, url, text) == #[trigger] (front + text),
{
    let all = crate::caldav::refusal(op, retry, url, text);
    let front = all.take(all.len() - text.len());
    assert(all =~= front + text);
}

// ── Addresses ──────────────────────────────────────────────────────

/// An event is put under its identifier into the calendar, whether or not the address of the
/// calendar ends with slashes.
pub proof fn lemma_event_address(calendar: Seq<char>, slashes: nat, uid: Seq<char>)
    requires
        calendar.len() > 0 ==> calendar.last() != '/',
    ensures
        event_address(calendar + times('/', slashes), uid) == calendar + "/"@ + uid + ".ics"@,
{
    lemma_stripped(calendar, '/', slashes);
    reveal_strlit("/");
    assert("/"@ =~= seq!['/']);
}

/// A to-do that is ticked off is completed, and one that is ticked off again is as it was;
/// nothing else of it changes.
pub proof fn lemma_turned_round(t: TodoModel)
    ensures
        crate::caldav::turned_round(t).completed <==> !t.completed,
        crate::caldav::turned_round(crate::caldav::turned_round(t)) == t,
        crate::caldav::turned_round(t) == (TodoModel {
            completed: crate::caldav::turned_round(t).completed,
            ..t
        }),
{
}

} // verus!

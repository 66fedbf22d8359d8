//! What a sync leaves behind.

use crate::config::{CollectionModel, SourceModel, SourceTypeModel};
use crate::event::{ics_stamp, EventModel};
use crate::reading::is_writing_of;
use crate::sync::{
    all_brought, brought, completed, day_stamp, days_away, fresh_sync, lemma_sync_brings_all,
    shown_color, sync_outcome, Answers, ChangesModel, OutcomeModel, SyncErrorModel, UpdateModel,
};
use crate::sync_all::{
    fresh_run, gain, gain_from, lemma_run_brings_all, position_of_href, run_completed, source_after,
    with_update, with_updates, SourceAnswer,
};
use crate::time::{
    civil_second, day_number, is_day, lemma_day_exists, valid_date, CivilDate, CivilTime,
    MAX_INSTANT,
};
use crate::todo::TodoModel;
use vstd::prelude::*;

verus! {

// ── One calendar ───────────────────────────────────────────────────

/// What comes of a sync of one calendar.
pub open spec fn synced(c: CollectionModel, force_full: bool, a: Answers) -> Result<
    OutcomeModel,
    SyncErrorModel,
> {
    sync_outcome(completed(fresh_sync(seq![c], force_full), seq![a]))
}

proof fn lemma_one(c: CollectionModel, force_full: bool, a: Answers)
    ensures
        c.enabled ==> synced(c, force_full, a) is Err == brought(c, force_full, a) is Err,
        c.enabled && brought(c, force_full, a) is Err ==> synced(c, force_full, a) == brought(
            c,
            force_full,
            a,
        ),
        c.enabled && brought(c, force_full, a) is Ok ==> {
            let r = synced(c, force_full, a)->Ok_0;
            let o = brought(c, force_full, a)->Ok_0;
            &&& r.events == o.events
            &&& r.todos == o.todos
            &&& r.updates == o.updates
        },
        !c.enabled ==> synced(c, force_full, a) == Ok::<OutcomeModel, SyncErrorModel>(
            crate::sync::nothing_brought(),
        ),
{
    let calendars = seq![c];
    let answers = seq![a];
    lemma_sync_brings_all(calendars, force_full, answers);
    assert(calendars[0] == c && answers[0] == a);
    let rest = all_brought(calendars, force_full, answers, 1);
    assert(rest == Ok::<OutcomeModel, SyncErrorModel>(crate::sync::nothing_brought()));
    if c.enabled && brought(c, force_full, a) is Ok {
        let o = brought(c, force_full, a)->Ok_0;
        let r = synced(c, force_full, a)->Ok_0;
        assert(r.events =~= o.events);
        assert(r.todos =~= o.todos);
        assert(r.updates =~= o.updates);
    }
}

/// A calendar that is switched off brings nothing, whatever the server has.
pub proof fn lemma_disabled_brings_nothing(c: CollectionModel, force_full: bool, a: Answers)
    requires
        !c.enabled,
    ensures
        synced(c, force_full, a) is Ok,
        synced(c, force_full, a)->Ok_0.events.len() == 0,
        synced(c, force_full, a)->Ok_0.todos.len() == 0,
        synced(c, force_full, a)->Ok_0.updates.len() == 0,
{
    lemma_one(c, force_full, a);
}

/// A calendar with a sync-token that the server takes brings its changes, and the next
/// sync-token is noted for it. Its ctag does not matter.
pub proof fn lemma_brings_changes(c: CollectionModel, a: Answers)
    requires
        c.enabled,
        c.sync_token is Some,
        a.changes is Changes,
    ensures
        synced(c, false, a) is Ok,
        synced(c, false, a)->Ok_0.events == a.changes->events,
        synced(c, false, a)->Ok_0.todos == a.changes->todos,
        synced(c, false, a)->Ok_0.updates == seq![
            UpdateModel { href: c.href, ctag: None, sync_token: a.changes->token },
        ],
{
    lemma_one(c, false, a);
}

/// Whether the changes of a calendar cannot be had: it has no sync-token, the server does not
/// take it any more, or the question failed otherwise than for want of a sign-in.
pub open spec fn has_no_changes(c: CollectionModel, a: Answers) -> bool {
    ||| c.sync_token is None
    ||| a.changes is Stale
    ||| a.changes is Error && a.changes->0 is Other
}

/// A calendar whose ctag is the one that is known brings nothing.
pub proof fn lemma_same_ctag_brings_nothing(c: CollectionModel, a: Answers, ctag: Seq<char>)
    requires
        c.enabled,
        has_no_changes(c, a),
        c.ctag == Some(ctag),
        a.ctag == Some(ctag),
    ensures
        synced(c, false, a) is Ok,
        synced(c, false, a)->Ok_0.events.len() == 0,
        synced(c, false, a)->Ok_0.todos.len() == 0,
        synced(c, false, a)->Ok_0.updates.len() == 0,
{
    lemma_one(c, false, a);
}

/// A calendar with another ctag than the known one, or for which one of the two is missing,
/// brings all of its events and to-dos, and the ctag of the server is noted for it.
pub proof fn lemma_other_ctag_brings_all(c: CollectionModel, a: Answers)
    requires
        c.enabled,
        has_no_changes(c, a),
        a.ctag is None || c.ctag != a.ctag,
        a.events is Ok,
    ensures
        synced(c, false, a) is Ok,
        synced(c, false, a)->Ok_0.events == a.events->Ok_0,
        a.todos is Some ==> synced(c, false, a)->Ok_0.todos == a.todos->0,
        a.todos is None ==> synced(c, false, a)->Ok_0.todos.len() == 0,
        synced(c, false, a)->Ok_0.updates == seq![
            UpdateModel { href: c.href, ctag: a.ctag, sync_token: None },
        ],
{
    lemma_one(c, false, a);
}

/// A full sync brings all events and to-dos, whatever the sync-token and the ctag are, and
/// notes neither.
pub proof fn lemma_full_sync_brings_all(c: CollectionModel, a: Answers)
    requires
        c.enabled,
        a.events is Ok,
    ensures
        synced(c, true, a) is Ok,
        synced(c, true, a)->Ok_0.events == a.events->Ok_0,
        a.todos is Some ==> synced(c, true, a)->Ok_0.todos == a.todos->0,
        a.todos is None ==> synced(c, true, a)->Ok_0.todos.len() == 0,
        synced(c, true, a)->Ok_0.updates == seq![
            UpdateModel { href: c.href, ctag: None, sync_token: None },
        ],
{
    lemma_one(c, true, a);
}

/// Where the events cannot be had for another reason than the sign-in, the to-dos still come,
/// and nothing is noted: the next sync asks again.
pub proof fn lemma_failed_events(c: CollectionModel, force_full: bool, a: Answers)
    requires
        c.enabled,
        force_full || (has_no_changes(c, a) && (a.ctag is None || c.ctag != a.ctag)),
        a.events is Err,
        a.events->Err_0 is Other,
    ensures
        synced(c, force_full, a) is Ok,
        synced(c, force_full, a)->Ok_0.events.len() == 0,
        a.todos is Some ==> synced(c, force_full, a)->Ok_0.todos == a.todos->0,
        synced(c, force_full, a)->Ok_0.updates.len() == 0,
{
    lemma_one(c, force_full, a);
}

/// Where the user has to sign in again, the sync fails, and names the source that the server
/// named.
pub proof fn lemma_expired_fails(c: CollectionModel, force_full: bool, a: Answers, id: Seq<char>)
    requires
        c.enabled,
        ({
            ||| !force_full && c.sync_token is Some && a.changes == ChangesModel::Error(
                SyncErrorModel::AuthExpired(id),
            )
            ||| (force_full || (has_no_changes(c, a) && (a.ctag is None || c.ctag != a.ctag)))
                && a.events == Err::<Seq<EventModel>, SyncErrorModel>(
                SyncErrorModel::AuthExpired(id),
            )
        }),
    ensures
        synced(c, force_full, a) == Err::<OutcomeModel, SyncErrorModel>(
            SyncErrorModel::AuthExpired(id),
        ),
{
    lemma_one(c, force_full, a);
}

/// A second sync fetches nothing where the ctag has stayed: the first one notes the ctag, and
/// the second finds it.
pub proof fn lemma_second_sync_is_idle(c: CollectionModel, a: Answers, b: Answers, ctag: Seq<char>)
    requires
        c.enabled,
        c.sync_token is None,
        a.ctag == Some(ctag),
        a.events is Ok,
        c.ctag != a.ctag,
        b.ctag == Some(ctag),
    ensures
        ({
            let noted = with_updates(seq![c], synced(c, false, a)->Ok_0.updates);
            &&& noted == seq![CollectionModel { ctag: Some(ctag), ..c }]
            &&& synced(noted[0], false, b) is Ok
            &&& synced(noted[0], false, b)->Ok_0.events.len() == 0
            &&& synced(noted[0], false, b)->Ok_0.todos.len() == 0
        }),
{
    lemma_other_ctag_brings_all(c, a);
    let u = UpdateModel { href: c.href, ctag: Some(ctag), sync_token: None };
    let d = CollectionModel { ctag: Some(ctag), ..c };
    let updates = seq![u];
    assert(synced(c, false, a)->Ok_0.updates =~= updates);
    assert(updates.drop_last() =~= Seq::<UpdateModel>::empty());
    assert(with_updates(seq![c], updates.drop_last()) == seq![c]);
    assert(with_updates(seq![c], updates) == with_update(seq![c], u));
    assert(position_of_href(seq![c], c.href) == 0);
    assert(with_update(seq![c], u) =~= seq![d]);
    lemma_same_ctag_brings_nothing(d, b, ctag);
}

// ── Several calendars ──────────────────────────────────────────────

/// Lists one after the other.
pub open spec fn flat<T>(lists: Seq<Seq<T>>) -> Seq<T>
    decreases lists.len(),
{
    if lists.len() == 0 {
        Seq::empty()
    } else {
        lists[0] + flat(lists.skip(1))
    }
}

proof fn lemma_all_from(
    calendars: Seq<CollectionModel>,
    force_full: bool,
    answers: Seq<Answers>,
    i: int,
)
    requires
        answers.len() == calendars.len(),
        0 <= i <= calendars.len(),
        forall|k: int|
            i <= k < calendars.len() ==> synced(
                #[trigger] calendars[k],
                force_full,
                answers[k],
            ) is Ok,
    ensures
        ({
            let parts = Seq::new(
                (calendars.len() - i) as nat,
                |k: int| synced(calendars[i + k], force_full, answers[i + k])->Ok_0,
            );
            let all = all_brought(calendars, force_full, answers, i);
            &&& all is Ok
            &&& all->Ok_0.events == flat(parts.map_values(|o: OutcomeModel| o.events))
            &&& all->Ok_0.todos == flat(parts.map_values(|o: OutcomeModel| o.todos))
            &&& all->Ok_0.updates == flat(parts.map_values(|o: OutcomeModel| o.updates))
        }),
    decreases calendars.len() - i,
{
    let parts = Seq::new(
        (calendars.len() - i) as nat,
        |k: int| synced(calendars[i + k], force_full, answers[i + k])->Ok_0,
    );
    let events = |o: OutcomeModel| o.events;
    let todos = |o: OutcomeModel| o.todos;
    let updates = |o: OutcomeModel| o.updates;
    let all = all_brought(calendars, force_full, answers, i);
    if i < calendars.len() {
        lemma_all_from(calendars, force_full, answers, i + 1);
        let rest = Seq::new(
            (calendars.len() - (i + 1)) as nat,
            |k: int| synced(calendars[i + 1 + k], force_full, answers[i + 1 + k])->Ok_0,
        );
        assert(parts.skip(1) =~= rest);
        assert(parts.map_values(events).skip(1) =~= rest.map_values(events));
        assert(parts.map_values(todos).skip(1) =~= rest.map_values(todos));
        assert(parts.map_values(updates).skip(1) =~= rest.map_values(updates));
        lemma_one(calendars[i], force_full, answers[i]);
        assert(synced(calendars[i], force_full, answers[i]) is Ok);
        let here = parts[0];
        assert(here == synced(calendars[i], force_full, answers[i])->Ok_0);
        assert(parts.map_values(events)[0] == here.events);
        assert(parts.map_values(todos)[0] == here.todos);
        assert(parts.map_values(updates)[0] == here.updates);
        assert(all->Ok_0.events =~= flat(parts.map_values(events)));
        assert(all->Ok_0.todos =~= flat(parts.map_values(todos)));
        assert(all->Ok_0.updates =~= flat(parts.map_values(updates)));
    } else {
        assert(parts.map_values(events) =~= Seq::<Seq<EventModel>>::empty());
        assert(parts.map_values(todos) =~= Seq::<Seq<TodoModel>>::empty());
        assert(parts.map_values(updates) =~= Seq::<Seq<UpdateModel>>::empty());
        assert(all->Ok_0.events =~= flat(parts.map_values(events)));
        assert(all->Ok_0.todos =~= flat(parts.map_values(todos)));
        assert(all->Ok_0.updates =~= flat(parts.map_values(updates)));
    }
}

/// The calendars of a source are synced independently: each brings what it brings alone, one
/// after the other.
pub proof fn lemma_calendars_are_independent(
    calendars: Seq<CollectionModel>,
    force_full: bool,
    answers: Seq<Answers>,
)
    requires
        answers.len() == calendars.len(),
        forall|k: int|
            0 <= k < calendars.len() ==> synced(
                #[trigger] calendars[k],
                force_full,
                answers[k],
            ) is Ok,
    ensures
        ({
            let parts = Seq::new(
                calendars.len(),
                |k: int| synced(calendars[k], force_full, answers[k])->Ok_0,
            );
            let all = sync_outcome(completed(fresh_sync(calendars, force_full), answers));
            &&& all is Ok
            &&& all->Ok_0.events == flat(parts.map_values(|o: OutcomeModel| o.events))
            &&& all->Ok_0.todos == flat(parts.map_values(|o: OutcomeModel| o.todos))
            &&& all->Ok_0.updates == flat(parts.map_values(|o: OutcomeModel| o.updates))
        }),
{
    lemma_sync_brings_all(calendars, force_full, answers);
    lemma_all_from(calendars, force_full, answers, 0);
    let parts = Seq::new(
        calendars.len(),
        |k: int| synced(calendars[k], force_full, answers[k])->Ok_0,
    );
    let same = Seq::new(
        (calendars.len() - 0) as nat,
        |k: int| synced(calendars[0 + k], force_full, answers[0 + k])->Ok_0,
    );
    assert(parts =~= same);
}

// ── What is noted ──────────────────────────────────────────────────

/// An update changes the first calendar with its address, and that one in nothing but what the
/// update says; all others stay as they are.
pub proof fn lemma_update_is_noted(calendars: Seq<CollectionModel>, u: UpdateModel, i: int)
    requires
        0 <= i < calendars.len(),
        calendars[i].href == u.href,
        forall|j: int| 0 <= j < i ==> (#[trigger] calendars[j]).href != u.href,
    ensures
        ({
            let r = with_updates(calendars, seq![u]);
            &&& r.len() == calendars.len()
            &&& u.ctag is Some ==> r[i].ctag == u.ctag
            &&& u.ctag is None ==> r[i].ctag == calendars[i].ctag
            &&& u.sync_token is Some ==> r[i].sync_token == u.sync_token
            &&& u.sync_token is None ==> r[i].sync_token == calendars[i].sync_token
            &&& r[i].href == calendars[i].href
            &&& r[i].display_name == calendars[i].display_name
            &&& r[i].color == calendars[i].color
            &&& r[i].enabled == calendars[i].enabled
            &&& forall|j: int| 0 <= j < calendars.len() && j != i ==> #[trigger] r[j] == calendars[j]
        }),
{
    let updates = seq![u];
    assert(updates.drop_last() =~= Seq::<UpdateModel>::empty());
    assert(with_updates(calendars, updates.drop_last()) == calendars);
    lemma_position(calendars, u.href, i);
}

proof fn lemma_position(calendars: Seq<CollectionModel>, href: Seq<char>, i: int)
    requires
        0 <= i < calendars.len(),
        calendars[i].href == href,
        forall|j: int| 0 <= j < i ==> (#[trigger] calendars[j]).href != href,
    ensures
        position_of_href(calendars, href) == i,
    decreases i,
{
    if i > 0 {
        let rest = calendars.skip(1);
        assert(calendars[0].href != href);
        assert forall|j: int| 0 <= j < i - 1 implies (#[trigger] rest[j]).href != href by {
            assert(rest[j] == calendars[j + 1]);
        }
        lemma_position(rest, href, i - 1);
    }
}

/// Updates are noted one after the other.
pub proof fn lemma_updates_concat(
    calendars: Seq<CollectionModel>,
    a: Seq<UpdateModel>,
    b: Seq<UpdateModel>,
)
    ensures
        with_updates(calendars, a + b) == with_updates(with_updates(calendars, a), b),
    decreases b.len(),
{
    if b.len() == 0 {
        assert(a + b =~= a);
    } else {
        lemma_updates_concat(calendars, a, b.drop_last());
        assert((a + b).drop_last() =~= a + b.drop_last());
    }
}

// ── A run ──────────────────────────────────────────────────────────

/// What a run over one source adds, and what becomes of that source. A source that is switched
/// off adds nothing and stays as it is. One that was synced adds what it brought, and only its
/// calendars change. One that needs the user to sign in again is named. One that failed
/// otherwise adds nothing and stays as it is.
pub proof fn lemma_run_over_one(source: SourceModel, answer: SourceAnswer)
    ensures
        ({
            let end = run_completed(fresh_run(seq![source]), seq![answer]);
            let quiet = end.events.len() == 0 && end.todos.len() == 0;
            &&& end.sources.len() == 1
            &&& !source.enabled ==> quiet && end.auth_expired.len() == 0 && end.sources[0] == source
            &&& source.enabled && answer is Ok ==> {
                &&& end.events == answer->Ok_0.events
                &&& end.todos == answer->Ok_0.todos
                &&& end.auth_expired.len() == 0
                &&& end.sources[0] == (SourceModel {
                    source_type: end.sources[0].source_type,
                    ..source
                })
                &&& source.source_type is CalDav ==> end.sources[0].source_type == (
                SourceTypeModel::CalDav {
                    url: source.source_type->CalDav_url,
                    auth: source.source_type->CalDav_auth,
                    calendars: with_updates(
                        source.source_type->CalDav_calendars,
                        answer->Ok_0.updates,
                    ),
                })
                &&& source.source_type !is CalDav ==> end.sources[0] == source
            }
            &&& source.enabled && answer is Err ==> quiet && end.sources[0] == source
            &&& source.enabled && answer is Err && answer->Err_0 is AuthExpired
                ==> end.auth_expired == seq![answer->Err_0->AuthExpired_0]
            &&& source.enabled && answer is Err && answer->Err_0 is Other
                ==> end.auth_expired.len() == 0
        }),
{
    let sources = seq![source];
    let answers = seq![answer];
    lemma_run_brings_all(sources, answers);
    assert(sources[0] == source && answers[0] == answer);
    let end = run_completed(fresh_run(sources), answers);
    assert(end.sources[0] == source_after(sources[0], answers[0]));
    let rest = gain_from(sources, answers, 1);
    assert(rest == crate::sync_all::no_gain());
    let here = gain(source, answer);
    assert(here.events + rest.events =~= here.events);
    assert(here.todos + rest.todos =~= here.todos);
    assert(here.auth_expired + rest.auth_expired =~= here.auth_expired);
}

/// Sources are synced independently: what the first adds comes first, then what all the others
/// add.
pub proof fn lemma_sources_are_independent(
    source: SourceModel,
    answer: SourceAnswer,
    sources: Seq<SourceModel>,
    answers: Seq<SourceAnswer>,
)
    requires
        answers.len() == sources.len(),
    ensures
        ({
            let one = run_completed(fresh_run(seq![source]), seq![answer]);
            let others = run_completed(fresh_run(sources), answers);
            let all = run_completed(fresh_run(seq![source] + sources), seq![answer] + answers);
            &&& all.events == one.events + others.events
            &&& all.todos == one.todos + others.todos
            &&& all.auth_expired == one.auth_expired + others.auth_expired
            &&& all.sources == one.sources + others.sources
        }),
{
    let s1 = seq![source];
    let a1 = seq![answer];
    let ss = s1 + sources;
    let aa = a1 + answers;
    lemma_run_brings_all(s1, a1);
    lemma_run_brings_all(sources, answers);
    lemma_run_brings_all(ss, aa);
    lemma_gain_shift(source, answer, sources, answers, 0);
    assert(s1[0] == source && a1[0] == answer && ss[0] == source && aa[0] == answer);
    let rest = gain_from(s1, a1, 1);
    assert(rest == crate::sync_all::no_gain());
    let here = gain(source, answer);
    assert(here.events + rest.events =~= here.events);
    assert(here.todos + rest.todos =~= here.todos);
    assert(here.auth_expired + rest.auth_expired =~= here.auth_expired);
    let one = run_completed(fresh_run(s1), a1);
    let others = run_completed(fresh_run(sources), answers);
    let all = run_completed(fresh_run(ss), aa);
    assert forall|k: int| 0 <= k < all.sources.len() implies #[trigger] all.sources[k] == (
    one.sources + others.sources)[k] by {
        assert(all.sources[k] == source_after(ss[k], aa[k]));
        if k == 0 {
            assert(one.sources[0] == source_after(s1[0], a1[0]));
        } else {
            assert(others.sources[k - 1] == source_after(sources[k - 1], answers[k - 1]));
        }
    }
    assert(all.sources =~= one.sources + others.sources);
}

proof fn lemma_gain_shift(
    source: SourceModel,
    answer: SourceAnswer,
    sources: Seq<SourceModel>,
    answers: Seq<SourceAnswer>,
    i: int,
)
    requires
        answers.len() == sources.len(),
        0 <= i <= sources.len(),
    ensures
        gain_from(seq![source] + sources, seq![answer] + answers, i + 1) == gain_from(
            sources,
            answers,
            i,
        ),
    decreases sources.len() - i,
{
    let ss = seq![source] + sources;
    let aa = seq![answer] + answers;
    if i < sources.len() {
        lemma_gain_shift(source, answer, sources, answers, i + 1);
        assert(ss[i + 1] == sources[i]);
        assert(aa[i + 1] == answers[i]);
    }
}

// ── The range ──────────────────────────────────────────────────────

/// The range of a sync goes from midnight of the day that is so many days before today to
/// midnight of the one that is so many days after it, in universal time.
pub proof fn lemma_sync_range(today: CivilDate, days: int)
    requires
        valid_date(today),
        -2_000_000_000 <= days <= 2_000_000_000,
        is_day(day_number(today) + days),
        0 <= days_away(today, days).year,
    ensures
        ({
            let d = days_away(today, days);
            let t = CivilTime { date: d, hour: 0, minute: 0, second: 0, nanosecond: 0 };
            &&& valid_date(d)
            &&& day_number(d) == day_number(today) + days
            &&& civil_second(t) <= MAX_INSTANT ==> is_writing_of(day_stamp(d), t)
        }),
{
    let d = days_away(today, days);
    let t = CivilTime { date: d, hour: 0, minute: 0, second: 0, nanosecond: 0 };
    lemma_day_exists(day_number(today) + days);
    lemma_midnight(d);
}

proof fn lemma_midnight(d: CivilDate)
    ensures
        day_stamp(d) == ics_stamp(
            CivilTime { date: d, hour: 0, minute: 0, second: 0, nanosecond: 0 },
        ),
{
    reveal_strlit("T000000Z");
    let zero = crate::text::decimal_padded(0, 2);
    assert(zero =~= seq!['0', '0']);
    let t = CivilTime { date: d, hour: 0, minute: 0, second: 0, nanosecond: 0 };
    assert(day_stamp(d) =~= ics_stamp(t));
}

/// What a calendar holds has the color of the calendar, and that of its source only where the
/// calendar has none.
pub proof fn lemma_color(c: CollectionModel, source_color: Seq<char>)
    ensures
        c.color.len() > 0 ==> shown_color(c, source_color) == c.color,
        c.color.len() == 0 ==> shown_color(c, source_color) == source_color,
{
}

} // verus!

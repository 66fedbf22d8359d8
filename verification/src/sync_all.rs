//! A sync of all sources, and the merge of newly found calendars.

use crate::agenda::{sort_events, start_key};
use crate::component::texts_view;
use crate::config::{
    collections_view, copy_sources, sources_view, CalDavCalendar, CalendarConfig, CollectionModel,
    SourceConfig, SourceModel, SourceType, SourceTypeModel,
};
use crate::event::{events_view, CalendarEvent, EventModel};
use crate::expand::{expand_recurring, expands_to};
use crate::sorting::stable_sorted;
use crate::sync::{
    append_events, append_todos, outcome_view, updates_view, CalendarMetaUpdate, OutcomeModel,
    SourceOutcome, SyncError, SyncErrorModel, UpdateModel,
};
use crate::text::same_text;
use crate::time::Date;
use crate::todo::{todos_view, CalendarTodo, TodoModel};
use vstd::prelude::*;

verus! {

// ── Updates of calendars ───────────────────────────────────────────

/// The position of the first calendar with an address; the number of calendars where
/// there is none.
pub open spec fn position_of_href(calendars: Seq<CollectionModel>, href: Seq<char>) -> int
    decreases calendars.len(),
{
    if calendars.len() == 0 || calendars[0].href == href {
        0
    } else {
        1 + position_of_href(calendars.skip(1), href)
    }
}

/// A calendar with what an update says; what it does not say stays.
pub open spec fn updated(c: CollectionModel, u: UpdateModel) -> CollectionModel {
    CollectionModel {
        ctag: if u.ctag is Some {
            u.ctag
        } else {
            c.ctag
        },
        sync_token: if u.sync_token is Some {
            u.sync_token
        } else {
            c.sync_token
        },
        ..c
    }
}

pub open spec fn with_update(calendars: Seq<CollectionModel>, u: UpdateModel) -> Seq<
    CollectionModel,
> {
    let i = position_of_href(calendars, u.href);
    if i < calendars.len() {
        calendars.update(i, updated(calendars[i], u))
    } else {
        calendars
    }
}

pub open spec fn with_updates(
    calendars: Seq<CollectionModel>,
    updates: Seq<UpdateModel>,
) -> Seq<CollectionModel>
    decreases updates.len(),
{
    if updates.len() == 0 {
        calendars
    } else {
        with_update(with_updates(calendars, updates.drop_last()), updates.last())
    }
}

/// A source with its calendars updated.
pub open spec fn source_with_updates(s: SourceModel, updates: Seq<UpdateModel>) -> SourceModel {
    match s.source_type {
        SourceTypeModel::CalDav { url, auth, calendars } => SourceModel {
            source_type: SourceTypeModel::CalDav {
                url,
                auth,
                calendars: with_updates(calendars, updates),
            },
            ..s
        },
        _ => s,
    }
}

proof fn lemma_position_of_href(calendars: Seq<CollectionModel>, href: Seq<char>, i: int)
    requires
        0 <= i <= calendars.len(),
        forall|j: int| 0 <= j < i ==> (#[trigger] calendars[j]).href != href,
        i < calendars.len() ==> calendars[i].href == href,
    ensures
        position_of_href(calendars, href) == i,
    decreases calendars.len(),
{
    if i > 0 {
        let rest = calendars.skip(1);
        assert(calendars[0].href != href);
        assert forall|j: int| 0 <= j < i - 1 implies (#[trigger] rest[j]).href != href by {
            assert(rest[j] == calendars[j + 1]);
        }
        lemma_position_of_href(rest, href, i - 1);
    }
}

/// The position of the first calendar with an address.
fn find_href(calendars: &Vec<CalDavCalendar>, href: &str) -> (r: usize)
    ensures
        r == position_of_href(collections_view(calendars@), href@),
        r <= calendars@.len(),
{
    let ghost all = collections_view(calendars@);
    let mut i: usize = 0;
    while i < calendars.len()
        invariant
            i <= calendars@.len(),
            all == collections_view(calendars@),
            forall|j: int| 0 <= j < i ==> (#[trigger] all[j]).href != href@,
        decreases calendars@.len() - i,
    {
        proof {
            assert(all[i as int] == calendars@[i as int]@);
        }
        if same_text(calendars[i].href.as_str(), href) {
            proof {
                lemma_position_of_href(all, href@, i as int);
            }
            return i;
        }
        i = i + 1;
    }
    proof {
        lemma_position_of_href(all, href@, i as int);
    }
    i
}

fn update_calendar(c: CalDavCalendar, u: CalendarMetaUpdate) -> (r: CalDavCalendar)
    ensures
        r@ == updated(c@, u@),
{
    CalDavCalendar {
        href: c.href,
        display_name: c.display_name,
        color: c.color,
        enabled: c.enabled,
        ctag: if u.ctag.is_some() {
            u.ctag
        } else {
            c.ctag
        },
        sync_token: if u.sync_token.is_some() {
            u.sync_token
        } else {
            c.sync_token
        },
    }
}

/// Applies updates to the calendars with their addresses.
pub fn apply_updates(calendars: Vec<CalDavCalendar>, updates: Vec<CalendarMetaUpdate>) -> (r: Vec<
    CalDavCalendar,
>)
    ensures
        collections_view(r@) == with_updates(
            collections_view(calendars@),
            updates_view(updates@),
        ),
{
    let ghost all = updates_view(updates@);
    let ghost start = collections_view(calendars@);
    let mut calendars = calendars;
    let mut updates = updates;
    let ghost mut done: int = 0;
    proof {
        assert(all.take(0) =~= Seq::<UpdateModel>::empty());
        assert(all.skip(0) =~= all);
    }
    while updates.len() > 0
        invariant
            0 <= done <= all.len(),
            updates_view(updates@) == all.skip(done),
            collections_view(calendars@) == with_updates(start, all.take(done)),
        decreases updates@.len(),
    {
        let ghost before = collections_view(calendars@);
        let ghost rest = updates@;
        let u = updates.remove(0);
        let ghost m = u@;
        proof {
            assert(updates_view(rest).len() == rest.len());
            assert(all.skip(done).len() > 0);
            assert(updates_view(rest)[0] == m);
            assert(all[done] == m);
            assert(all.take(done + 1).drop_last() =~= all.take(done));
            assert(all.take(done + 1).last() == m);
            assert(updates@ =~= rest.skip(1));
            assert(updates_view(updates@) =~= updates_view(rest).skip(1));
            assert(all.skip(done).skip(1) =~= all.skip(done + 1));
        }
        let i: usize = find_href(&calendars, u.href.as_str());
        if i < calendars.len() {
            let ghost old_calendars = calendars@;
            let c = calendars.remove(i);
            let ghost old_c = c@;
            let new = update_calendar(c, u);
            calendars.insert(i, new);
            proof {
                assert(before[i as int] == old_c);
                assert(collections_view(calendars@) =~= before.update(
                    i as int,
                    updated(old_c, m),
                ));
            }
        }
        proof {
            done = done + 1;
        }
    }
    proof {
        assert(updates_view(updates@).len() == 0);
        assert(all.take(done) =~= all);
    }
    calendars
}

/// Applies updates to the calendars of a source.
pub fn update_source(source: SourceConfig, updates: Vec<CalendarMetaUpdate>) -> (r: SourceConfig)
    ensures
        r@ == source_with_updates(source@, updates_view(updates@)),
{
    let source_type = match source.source_type {
        SourceType::CalDav { url, auth, calendars } => SourceType::CalDav {
            url,
            auth,
            calendars: apply_updates(calendars, updates),
        },
        other => other,
    };
    SourceConfig { source_type, ..source }
}

// ── A run over all sources ─────────────────────────────────────────

pub struct RunModel {
    pub sources: Seq<SourceModel>,
    pub at: int,
    pub events: Seq<EventModel>,
    pub todos: Seq<TodoModel>,
    pub auth_expired: Seq<Seq<char>>,
}

/// The position of the first enabled source from `i` on; the number of sources where
/// there is none.
pub open spec fn next_enabled_source(sources: Seq<SourceModel>, i: int) -> int
    decreases sources.len() - i,
{
    if i >= sources.len() || sources[i].enabled {
        i
    } else {
        next_enabled_source(sources, i + 1)
    }
}

pub open spec fn fresh_run(sources: Seq<SourceModel>) -> RunModel {
    RunModel {
        sources,
        at: next_enabled_source(sources, 0),
        events: Seq::empty(),
        todos: Seq::empty(),
        auth_expired: Seq::empty(),
    }
}

/// The run after the source in hand. What it brought is kept, and its calendars are
/// updated; a source that needs the user to sign in again is noted; any other error is
/// passed over.
pub open spec fn after_source(
    r: RunModel,
    outcome: Result<OutcomeModel, SyncErrorModel>,
) -> RunModel {
    let at = next_enabled_source(r.sources, r.at + 1);
    match outcome {
        Ok(o) => RunModel {
            sources: r.sources.update(r.at, source_with_updates(r.sources[r.at], o.updates)),
            at,
            events: r.events + o.events,
            todos: r.todos + o.todos,
            auth_expired: r.auth_expired,
        },
        Err(SyncErrorModel::AuthExpired(id)) => RunModel {
            at,
            auth_expired: r.auth_expired.push(id),
            ..r
        },
        Err(_) => RunModel { at, ..r },
    }
}

/// The result of a sync_all operation.
#[derive(Debug)]
pub struct SyncResult {
    /// Successfully fetched events (including expanded recurring occurrences).
    pub events: Vec<CalendarEvent>,
    /// Successfully fetched VTODO items.
    pub todos: Vec<CalendarTodo>,
    /// Source IDs whose authentication has expired and need re-auth.
    pub auth_expired: Vec<String>,
}

/// A sync of all enabled sources, between two of them.
#[derive(Debug)]
pub struct SyncRun {
    sources: Vec<SourceConfig>,
    at: usize,
    events: Vec<CalendarEvent>,
    todos: Vec<CalendarTodo>,
    auth_expired: Vec<String>,
}

impl View for SyncRun {
    type V = RunModel;

    closed spec fn view(&self) -> RunModel {
        RunModel {
            sources: sources_view(self.sources@),
            at: self.at as int,
            events: events_view(self.events@),
            todos: todos_view(self.todos@),
            auth_expired: texts_view(self.auth_expired@),
        }
    }
}

fn next_source(sources: &Vec<SourceConfig>, i: usize) -> (r: usize)
    requires
        i <= sources@.len(),
    ensures
        r == next_enabled_source(sources_view(sources@), i as int),
        i <= r <= sources@.len(),
{
    let ghost all = sources_view(sources@);
    let mut at: usize = i;
    while at < sources.len() && !sources[at].enabled
        invariant
            i <= at <= sources@.len(),
            all == sources_view(sources@),
            next_enabled_source(all, i as int) == next_enabled_source(all, at as int),
        decreases sources@.len() - at,
    {
        assert(all[at as int] == sources@[at as int]@);
        at = at + 1;
    }
    proof {
        if at < sources@.len() {
            assert(all[at as int] == sources@[at as int]@);
        }
    }
    at
}

/// Whether there is anything to sync. Without a source the events that are known stay.
pub fn is_sync_due(config: &CalendarConfig) -> (r: bool)
    ensures
        r == (config@.sources.len() > 0),
{
    proof {
        assert(config@.sources.len() == config.sources@.len());
    }
    config.sources.len() > 0
}

impl SyncRun {
    /// Every value of the type has a source in hand or is at the end.
    #[verifier::type_invariant]
    pub open spec fn is_within(self) -> bool {
        0 <= self@.at <= self@.sources.len()
    }

    /// A run over the enabled sources of a configuration.
    pub fn start(config: &CalendarConfig) -> (r: SyncRun)
        ensures
            r@ == fresh_run(config@.sources),
    {
        let sources = copy_sources(&config.sources);
        let at: usize = next_source(&sources, 0);
        let r = SyncRun {
            sources,
            at,
            events: Vec::new(),
            todos: Vec::new(),
            auth_expired: Vec::new(),
        };
        proof {
            assert(r@.events =~= Seq::<EventModel>::empty());
            assert(r@.todos =~= Seq::<TodoModel>::empty());
            assert(r@.auth_expired =~= Seq::<Seq<char>>::empty());
        }
        r
    }

    /// The source in hand; none at the end.
    pub fn source(&self) -> (r: Option<&SourceConfig>)
        ensures
            match r {
                Some(s) => self@.at < self@.sources.len() && s@ == self@.sources[self@.at],
                None => self@.at == self@.sources.len(),
            },
    {
        proof {
            use_type_invariant(self);
        }
        if self.at < self.sources.len() {
            Some(&self.sources[self.at])
        } else {
            None
        }
    }

    /// The run after the source in hand.
    pub fn on_source(self, outcome: Result<SourceOutcome, SyncError>) -> (r: SyncRun)
        requires
            self@.at < self@.sources.len(),
        ensures
            r@ == after_source(self@, outcome_view(outcome)),
    {
        proof {
            use_type_invariant(&self);
        }
        let at: usize = self.at;
        let count: usize = self.sources.len();
        assert(at < count);
        let next: usize = next_source(&self.sources, at + 1);
        match outcome {
            Ok(o) => {
                let mut sources = self.sources;
                let mut events = self.events;
                let mut todos = self.todos;
                let ghost before = sources_view(sources@);
                let source = sources.remove(at);
                let ghost old_source = source@;
                let ghost updates = updates_view(o.updates@);
                let new = update_source(source, o.updates);
                sources.insert(at, new);
                append_events(&mut events, o.events);
                append_todos(&mut todos, o.todos);
                proof {
                    assert(before[at as int] == old_source);
                    assert(sources_view(sources@) =~= before.update(
                        at as int,
                        source_with_updates(old_source, updates),
                    ));
                }
                SyncRun { sources, at: next, events, todos, auth_expired: self.auth_expired }
            },
            Err(SyncError::AuthExpired(id)) => {
                let mut auth_expired = self.auth_expired;
                let ghost before = texts_view(auth_expired@);
                let ghost text = id@;
                auth_expired.push(id);
                proof {
                    assert(texts_view(auth_expired@) =~= before.push(text));
                }
                SyncRun { at: next, auth_expired, ..self }
            },
            Err(SyncError::Other(_)) => SyncRun { at: next, ..self },
        }
    }

    /// What the run brought: the events with their occurrences between two dates, by their
    /// start, and the sources with their calendars updated.
    pub fn finish(self, range_start: Date, range_end: Date) -> (r: (SyncResult, Vec<SourceConfig>))
        ensures
            exists|all: Seq<EventModel>| #[trigger]
                expands_to(self@.events, range_start@, range_end@, all) && events_view(
                    r.0.events@,
                ) == stable_sorted(all, start_key()),
            todos_view(r.0.todos@) == self@.todos,
            texts_view(r.0.auth_expired@) == self@.auth_expired,
            sources_view(r.1@) == self@.sources,
    {
        let mut events = expand_recurring(self.events, range_start, range_end);
        let ghost all = events_view(events@);
        sort_events(&mut events);
        proof {
            assert(expands_to(self@.events, range_start@, range_end@, all));
        }
        (
            SyncResult { events, todos: self.todos, auth_expired: self.auth_expired },
            self.sources,
        )
    }
}

// ── A whole run ────────────────────────────────────────────────────

pub type SourceAnswer = Result<OutcomeModel, SyncErrorModel>;

/// What a source adds to a run.
pub struct Gain {
    pub events: Seq<EventModel>,
    pub todos: Seq<TodoModel>,
    pub auth_expired: Seq<Seq<char>>,
}

pub open spec fn no_gain() -> Gain {
    Gain { events: Seq::empty(), todos: Seq::empty(), auth_expired: Seq::empty() }
}

/// What a source adds to a run: what it brought, or that the user has to sign in again; a
/// disabled source and one with another error add nothing.
pub open spec fn gain(source: SourceModel, answer: SourceAnswer) -> Gain {
    if !source.enabled {
        no_gain()
    } else {
        match answer {
            Ok(o) => Gain { events: o.events, todos: o.todos, auth_expired: Seq::empty() },
            Err(SyncErrorModel::AuthExpired(id)) => Gain { auth_expired: seq![id], ..no_gain() },
            Err(_) => no_gain(),
        }
    }
}

pub open spec fn gained_together(a: Gain, b: Gain) -> Gain {
    Gain {
        events: a.events + b.events,
        todos: a.todos + b.todos,
        auth_expired: a.auth_expired + b.auth_expired,
    }
}

/// What the sources from `i` on add to a run, in their order.
pub open spec fn gain_from(sources: Seq<SourceModel>, answers: Seq<SourceAnswer>, i: int) -> Gain
    decreases sources.len() - i,
{
    if i >= sources.len() {
        no_gain()
    } else {
        gained_together(gain(sources[i], answers[i]), gain_from(sources, answers, i + 1))
    }
}

/// A source after a run: with what it says of its calendars, where it is enabled and was
/// synced.
pub open spec fn source_after(source: SourceModel, answer: SourceAnswer) -> SourceModel {
    match answer {
        Ok(o) => if source.enabled {
            source_with_updates(source, o.updates)
        } else {
            source
        },
        Err(_) => source,
    }
}

/// A run at its end, given the answer of each source.
pub open spec fn run_completed(r: RunModel, answers: Seq<SourceAnswer>) -> RunModel
    decreases r.sources.len() - r.at,
    via run_completed_decreases
{
    if 0 <= r.at < r.sources.len() {
        run_completed(after_source(r, answers[r.at]), answers)
    } else {
        r
    }
}

#[via_fn]
proof fn run_completed_decreases(r: RunModel, answers: Seq<SourceAnswer>) {
    lemma_next_source(r.sources, r.at + 1);
}

proof fn lemma_next_source(sources: Seq<SourceModel>, i: int)
    ensures
        next_enabled_source(sources, i) >= i,
        i <= sources.len() ==> next_enabled_source(sources, i) <= sources.len(),
        forall|k: int| i <= k < next_enabled_source(sources, i) ==> k < sources.len()
            && !(#[trigger] sources[k]).enabled,
        0 <= next_enabled_source(sources, i) < sources.len() ==> sources[next_enabled_source(
            sources,
            i,
        )].enabled,
    decreases sources.len() - i,
{
    if i < sources.len() && !sources[i].enabled {
        lemma_next_source(sources, i + 1);
    }
}

proof fn lemma_gain_skips(
    sources: Seq<SourceModel>,
    answers: Seq<SourceAnswer>,
    from: int,
    to: int,
)
    requires
        0 <= from <= to <= sources.len(),
        forall|k: int| from <= k < to ==> !(#[trigger] sources[k]).enabled,
    ensures
        gain_from(sources, answers, from) == gain_from(sources, answers, to),
    decreases to - from,
{
    if from < to {
        lemma_gain_skips(sources, answers, from + 1, to);
        assert(!sources[from].enabled);
        let rest = gain_from(sources, answers, from + 1);
        assert(gained_together(no_gain(), rest).events =~= rest.events);
        assert(gained_together(no_gain(), rest).todos =~= rest.todos);
        assert(gained_together(no_gain(), rest).auth_expired =~= rest.auth_expired);
    }
}

proof fn lemma_gain_same(
    a: Seq<SourceModel>,
    b: Seq<SourceModel>,
    answers: Seq<SourceAnswer>,
    i: int,
)
    requires
        a.len() == b.len(),
        0 <= i,
        forall|k: int| i <= k < a.len() ==> a[k] == b[k],
    ensures
        gain_from(a, answers, i) == gain_from(b, answers, i),
    decreases a.len() - i,
{
    if i < a.len() {
        lemma_gain_same(a, b, answers, i + 1);
    }
}

proof fn lemma_run_completed(r: RunModel, answers: Seq<SourceAnswer>)
    requires
        0 <= r.at <= r.sources.len(),
        r.at < r.sources.len() ==> r.sources[r.at].enabled,
        answers.len() == r.sources.len(),
    ensures
        ({
            let end = run_completed(r, answers);
            let more = gain_from(r.sources, answers, r.at);
            &&& end.events == r.events + more.events
            &&& end.todos == r.todos + more.todos
            &&& end.auth_expired == r.auth_expired + more.auth_expired
            &&& end.sources.len() == r.sources.len()
            &&& forall|k: int|
                0 <= k < r.sources.len() ==> #[trigger] end.sources[k] == (if k < r.at {
                    r.sources[k]
                } else {
                    source_after(r.sources[k], answers[k])
                })
        }),
    decreases r.sources.len() - r.at,
{
    let end = run_completed(r, answers);
    if r.at == r.sources.len() {
        assert(end.events =~= r.events + no_gain().events);
        assert(end.todos =~= r.todos + no_gain().todos);
        assert(end.auth_expired =~= r.auth_expired + no_gain().auth_expired);
    } else {
        let at = r.at;
        let next = after_source(r, answers[at]);
        let here = gain(r.sources[at], answers[at]);
        lemma_next_source(r.sources, at + 1);
        assert(next.at <= r.sources.len());
        if next.at < next.sources.len() {
            assert(next.sources[next.at] == r.sources[next.at]);
        }
        lemma_run_completed(next, answers);
        lemma_gain_skips(r.sources, answers, at + 1, next.at);
        lemma_gain_same(r.sources, next.sources, answers, next.at);
        let rest = gain_from(r.sources, answers, at + 1);
        assert(gain_from(r.sources, answers, at) == gained_together(here, rest));
        assert(end.events =~= r.events + (here.events + rest.events));
        assert(end.todos =~= r.todos + (here.todos + rest.todos));
        assert(end.auth_expired =~= r.auth_expired + (here.auth_expired + rest.auth_expired));
        assert forall|k: int| 0 <= k < r.sources.len() implies #[trigger] end.sources[k] == (if k
            < at {
            r.sources[k]
        } else {
            source_after(r.sources[k], answers[k])
        }) by {
            if k != at {
                assert(next.sources[k] == r.sources[k]);
            }
            if at < k < next.at {
                assert(!r.sources[k].enabled);
            }
        }
    }
}

/// A run brings what its enabled sources bring, in their order, and notes those that need the
/// user to sign in again; a source that fails takes nothing from the others. Every source
/// keeps its place, with its calendars updated where it was synced.
pub proof fn lemma_run_brings_all(sources: Seq<SourceModel>, answers: Seq<SourceAnswer>)
    requires
        answers.len() == sources.len(),
    ensures
        ({
            let end = run_completed(fresh_run(sources), answers);
            let all = gain_from(sources, answers, 0);
            &&& end.events == all.events
            &&& end.todos == all.todos
            &&& end.auth_expired == all.auth_expired
            &&& end.sources.len() == sources.len()
            &&& forall|k: int|
                0 <= k < sources.len() ==> #[trigger] end.sources[k] == source_after(
                    sources[k],
                    answers[k],
                )
        }),
{
    let r = fresh_run(sources);
    lemma_next_source(sources, 0);
    lemma_run_completed(r, answers);
    lemma_gain_skips(sources, answers, 0, r.at);
    let end = run_completed(r, answers);
    let all = gain_from(sources, answers, 0);
    assert(end.events =~= all.events);
    assert(end.todos =~= all.todos);
    assert(end.auth_expired =~= all.auth_expired);
    assert forall|k: int| 0 <= k < sources.len() implies #[trigger] end.sources[k] == source_after(
        sources[k],
        answers[k],
    ) by {
        if k < r.at {
            assert(!sources[k].enabled);
        }
    }
}

// ── Newly found calendars ──────────────────────────────────────────

/// Whether a calendar with an address is known.
pub open spec fn is_known(calendars: Seq<CollectionModel>, href: Seq<char>) -> bool {
    exists|i: int| 0 <= i < calendars.len() && (#[trigger] calendars[i]).href == href
}

/// The known calendars, and behind them those among the found ones whose addresses are
/// new.
pub open spec fn merged(known: Seq<CollectionModel>, found: Seq<CollectionModel>) -> Seq<
    CollectionModel,
>
    decreases found.len(),
{
    if found.len() == 0 {
        known
    } else {
        let before = merged(known, found.drop_last());
        if is_known(before, found.last().href) {
            before
        } else {
            before.push(found.last())
        }
    }
}

proof fn lemma_position_known(calendars: Seq<CollectionModel>, href: Seq<char>)
    ensures
        is_known(calendars, href) <==> position_of_href(calendars, href) < calendars.len(),
        0 <= position_of_href(calendars, href) <= calendars.len(),
    decreases calendars.len(),
{
    if calendars.len() > 0 {
        if calendars[0].href == href {
            assert(is_known(calendars, href));
        } else {
            let rest = calendars.skip(1);
            lemma_position_known(rest, href);
            if is_known(rest, href) {
                let i = choose|i: int| 0 <= i < rest.len() && (#[trigger] rest[i]).href == href;
                assert(calendars[i + 1].href == href);
            }
            if is_known(calendars, href) {
                let i = choose|i: int|
                    0 <= i < calendars.len() && (#[trigger] calendars[i]).href == href;
                assert(rest[i - 1].href == href);
            }
        }
    }
}

/// Adds the found calendars whose addresses are new.
///
/// Already-known calendars keep their `enabled` state.
pub fn merge_calendars(calendars: Vec<CalDavCalendar>, discovered: Vec<CalDavCalendar>) -> (r: Vec<
    CalDavCalendar,
>)
    ensures
        collections_view(r@) == merged(
            collections_view(calendars@),
            collections_view(discovered@),
        ),
{
    let ghost known = collections_view(calendars@);
    let ghost found = collections_view(discovered@);
    let mut calendars = calendars;
    let mut i: usize = 0;
    proof {
        assert(found.take(0) =~= Seq::<CollectionModel>::empty());
    }
    while i < discovered.len()
        invariant
            i <= discovered@.len(),
            found == collections_view(discovered@),
            collections_view(calendars@) == merged(known, found.take(i as int)),
        decreases discovered@.len() - i,
    {
        let ghost before = collections_view(calendars@);
        let c = &discovered[i];
        proof {
            assert(found.take(i + 1).drop_last() =~= found.take(i as int));
            assert(found.take(i + 1).last() == c@);
            lemma_position_known(before, c.href@);
        }
        if find_href(&calendars, c.href.as_str()) == calendars.len() {
            calendars.push(c.clone());
            proof {
                assert(collections_view(calendars@) =~= before.push(c@));
            }
        }
        i = i + 1;
    }
    proof {
        assert(found.take(i as int) =~= found);
    }
    calendars
}

/// A source with the found calendars merged in.
pub fn merge_into_source(source: SourceConfig, discovered: Vec<CalDavCalendar>) -> (r: SourceConfig)
    ensures
        r@ == (match source@.source_type {
            SourceTypeModel::CalDav { url, auth, calendars } => SourceModel {
                source_type: SourceTypeModel::CalDav {
                    url,
                    auth,
                    calendars: merged(calendars, collections_view(discovered@)),
                },
                ..source@
            },
            _ => source@,
        }),
{
    let source_type = match source.source_type {
        SourceType::CalDav { url, auth, calendars } => SourceType::CalDav {
            url,
            auth,
            calendars: merge_calendars(calendars, discovered),
        },
        other => other,
    };
    SourceConfig { source_type, ..source }
}

/// A merge leaves the known calendars as they are, in front, and what it adds comes from
/// the found ones. Afterwards every found address is known.
pub proof fn lemma_merge_keeps_known(known: Seq<CollectionModel>, found: Seq<CollectionModel>)
    ensures
        known.is_prefix_of(merged(known, found)),
        forall|i: int|
            known.len() <= i < merged(known, found).len() ==> found.contains(
                #[trigger] merged(known, found)[i],
            ),
        forall|j: int|
            0 <= j < found.len() ==> is_known(merged(known, found), (#[trigger] found[j]).href),
    decreases found.len(),
{
    if found.len() > 0 {
        let front = found.drop_last();
        let before = merged(known, front);
        let now = merged(known, found);
        lemma_merge_keeps_known(known, front);
        assert forall|i: int| known.len() <= i < now.len() implies found.contains(
            #[trigger] now[i],
        ) by {
            if i < before.len() {
                assert(now[i] == before[i]);
                let k = choose|k: int| 0 <= k < front.len() && front[k] == before[i];
                assert(found[k] == now[i]);
            } else {
                assert(found[found.len() - 1] == now[i]);
            }
        }
        assert forall|j: int| 0 <= j < found.len() implies is_known(
            now,
            (#[trigger] found[j]).href,
        ) by {
            if j < front.len() {
                assert(front[j] == found[j]);
                let k = choose|k: int|
                    0 <= k < before.len() && (#[trigger] before[k]).href == front[j].href;
                assert(now[k].href == found[j].href);
            } else if !is_known(before, found.last().href) {
                assert(now[before.len() as int].href == found[j].href);
            }
        }
    }
}

} // verus!

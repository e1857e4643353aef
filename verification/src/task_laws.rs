//! What becomes of tasks, objectives, preferences and settings: laws on the commands.

use crate::command_laws::{
    changes_task, is_only_match, is_silent_change, prefix_names_the_only_match,
};
use crate::commands::{is_run, replies, reports_change, Command, Reply};
use crate::confirming::has_sound_bundles;
use crate::ids::{hyphenated_id, is_drawn, Id};
use crate::maps;
use crate::model::{
    ActualStatus, FactKind, LogEntryKindView, ObjectiveStatus, Preference, Relation, Store,
    StoreView, TaskStatus, TaskView, Tier,
};
use crate::parts::{
    filtered_is_kept, is_laid_out, keeps_only, kept_alike, one_more_piece, one_piece,
};
use crate::plan::CorePlanner;
use crate::preferences::{
    between, first_singleton, preference_added, singleton_of, without_between, without_preference,
};
use crate::relations::{with_both, CoreRules};
use crate::resolve::resolved_task;
use crate::review_laws::{allowed_preference_is_added, has_one_more, holds_alone};
use crate::tasks::{
    added_task, duration_fits, is_read, named_by, optional_datetime_in, start_date_in, tier_named,
    AddInput, AddRequest,
};
use crate::text::{fails_with, text_option, texts};
use crate::time::{date_value, minutes_in_nanos, rfc3339_value, shifted, Duration, Timestamp};
use vstd::prelude::*;
use vstd::string::*;

verus! {

// ---- Adding ----

/// Whether an instant is what a text, if there is one, denotes.
pub open spec fn is_given_time(text: Option<String>, at: Option<Timestamp>) -> bool {
    match text {
        None => at is None,
        Some(t) => {
            &&& rfc3339_value(t@) is Ok
            &&& at == Some(
                Timestamp::of(rfc3339_value(t@)->Ok_0.0, rfc3339_value(t@)->Ok_0.1),
            )
        },
    }
}

/// Whether a text is the name of a tier.
pub open spec fn is_tier_name(name: Seq<char>, tier: Tier) -> bool {
    match tier {
        Tier::SemiPublic => name == "semi-public"@,
        Tier::UserShared => name == "user-shared"@,
        Tier::TopSecret => name == "top-secret"@,
    }
}

/// The instant that lies a number of nanoseconds after another one, outside leap seconds.
proof fn shifted_by(secs: int, nanos: int, by: int)
    requires
        0 <= nanos < 1_000_000_000,
    ensures
        ({
            let then = shifted(secs, nanos, by);
            &&& 0 <= then.1 < 1_000_000_000
            &&& then.0 * 1_000_000_000 + then.1 == secs * 1_000_000_000 + nanos + by
        }),
{
    let whole = crate::time::toward_zero(by, 1_000_000_000);
    let rest = by - whole * 1_000_000_000;
    let sum = nanos + rest;
    assert(sum == (sum / 1_000_000_000) * 1_000_000_000 + sum % 1_000_000_000);
}

/// Whether a task is what a request asks for.
pub open spec fn is_as_asked(store: StoreView, request: AddRequest, task: TaskView) -> bool {
    &&& task.title == request.title@
    &&& is_tier_name(request.tier@, task.tier)
    &&& task.est_duration.total() == request.duration * 60_000_000_000
    &&& task.affect_cost == request.affect
    &&& is_given_time(request.due, task.due)
    &&& is_given_time(request.earliest_start, task.earliest_start)
    &&& is_given_time(request.must_finish_by, task.must_finish_by)
    &&& task.category == text_option(request.category)
    &&& task.transparent == request.transparent
    &&& task.reminders == request.reminders@
    &&& task.detail is None && task.commitment is None
    &&& task.tags.len() == 0 && task.skills.len() == 0 && task.after.len() == 0
}

/// Whether a task is pinned as a request asks: from the given start for as long as it takes, and
/// then it is scheduled; without a start it is not pinned and waits in the backlog.
pub open spec fn is_pinned_as_asked(request: AddRequest, task: TaskView) -> bool {
    &&& task.pinned is Some <==> request.pin is Some
    &&& task.pinned matches Some(window) ==> {
        &&& task.status == TaskStatus::Scheduled
        &&& is_given_time(request.pin, Some(window.start))
        &&& 0 <= window.start.nanos() < 1_000_000_000 ==> window.end.secs() * 1_000_000_000
            + window.end.nanos() == window.start.secs() * 1_000_000_000 + window.start.nanos()
            + request.duration * 60_000_000_000
    }
    &&& task.pinned is None ==> task.status == TaskStatus::Backlog
}

/// Whether a task waits for exactly the tasks, and serves exactly the objectives, that a request
/// names, in their order.
pub open spec fn is_linked_as_asked(
    store: StoreView,
    request: AddRequest,
    task: TaskView,
) -> bool {
    &&& task.blocked_by.len() == request.blocked_by@.len()
    &&& forall|i: int|
        0 <= i < request.blocked_by@.len() ==> is_only_match(
            store.tasks.dom(),
            request.blocked_by@[i]@,
            #[trigger] task.blocked_by[i],
        )
    &&& task.objective_ids.len() == request.objective@.len()
    &&& forall|i: int|
        0 <= i < request.objective@.len() ==> is_only_match(
            store.objectives.dom(),
            request.objective@[i]@,
            #[trigger] task.objective_ids[i],
        )
}

/// `add` adds one task, under the id that it prints, with everything that was asked for; nothing
/// else changes. Where it fails nothing changes at all.
pub proof fn adding_a_task<R: CoreRules, P: CorePlanner>(
    rules: R,
    planner: P,
    defaults: Map<Seq<char>, Seq<char>>,
    now: Timestamp,
    before: Store,
    request: AddRequest,
    next: StoreView,
    r: Result<Reply, String>,
)
    requires
        before@.tasks.dom().finite(),
        before@.objectives.dom().finite(),
        is_run(rules, planner, defaults, now, before, Command::Add(request), next, r),
    ensures
        r is Err ==> next == before@,
        r matches Ok(reply) ==> reply.save && reply.lines@.len() == 1 && exists|id: Id|
            {
                &&& reply.lines@[0]@ == #[trigger] hyphenated_id(id)
                &&& next == (StoreView { tasks: next.tasks, ..before@ })
                &&& next.tasks.dom() == before@.tasks.dom().insert(id)
                &&& forall|other: Id|
                    other != id && #[trigger] before@.tasks.contains_key(other)
                        ==> next.tasks[other] == before@.tasks[other]
                &&& next.tasks[id].id == id
                &&& is_as_asked(before@, request, next.tasks[id])
                &&& is_pinned_as_asked(request, next.tasks[id])
                &&& is_linked_as_asked(before@, request, next.tasks[id])
            },
{
    broadcast use Duration::of_is_as_long, Timestamp::parts_of;

    let store = before@;
    let read = choose|read: Result<AddInput, String>|
        {
            &&& #[trigger] is_read(request, read)
            &&& match read {
                Err(words) => fails_with(r, words@) && next == store,
                Ok(input) => match named_by(store, input) {
                    Err(words) => fails_with(r, words) && next == store,
                    Ok((objective_ids, blocked_by)) => if duration_fits(
                        input.duration_minutes as int,
                        input.pin,
                    ) {
                        exists|id: Id|
                            {
                                &&& is_drawn(id)
                                &&& next == store.with_task(
                                    id,
                                    added_task(input, id, objective_ids, blocked_by),
                                )
                                &&& replies(r, seq![#[trigger] hyphenated_id(id)], true)
                            }
                    } else {
                        fails_with(r, "the duration is out of range"@) && next == store
                    },
                },
            }
        };
    if r is Ok {
        let input = read->Ok_0;
        let (objective_ids, blocked_by) = named_by(store, input)->Ok_0;
        let id = choose|id: Id|
            {
                &&& is_drawn(id)
                &&& next == store.with_task(
                    id,
                    added_task(input, id, objective_ids, blocked_by),
                )
                &&& replies(r, seq![#[trigger] hyphenated_id(id)], true)
            };
        let lines = r->Ok_0.lines@;
        assert(texts(lines).len() == lines.len());
        assert(texts(lines)[0] == lines[0]@);
        assert(next.tasks.dom() =~= store.tasks.dom().insert(id));
        let task = next.tasks[id];
        let objectives = texts(input.objective_prefixes@);
        let blockers = texts(input.blocked_by_prefixes@);
        crate::command_laws::named_tasks(store, blockers, blockers.len() as int);
        crate::command_laws::named_objectives(store, objectives, objectives.len() as int);
        assert forall|i: int| 0 <= i < request.blocked_by@.len() implies is_only_match(
            store.tasks.dom(),
            request.blocked_by@[i]@,
            #[trigger] task.blocked_by[i],
        ) by {
            assert(blockers[i] == request.blocked_by@[i]@);
            assert(blocked_by[i] == task.blocked_by[i]);
        }
        assert forall|i: int| 0 <= i < request.objective@.len() implies is_only_match(
            store.objectives.dom(),
            request.objective@[i]@,
            #[trigger] task.objective_ids[i],
        ) by {
            assert(objectives[i] == request.objective@[i]@);
            assert(objective_ids[i] == task.objective_ids[i]);
        }
        if input.pin is Some {
            let start = input.pin->0;
            if 0 <= start.nanos() < 1_000_000_000 {
                shifted_by(
                    start.secs(),
                    start.nanos(),
                    minutes_in_nanos(input.duration_minutes as int),
                );
            }
        }
    }
}

/// `objective-add` adds one active objective, under the id that it prints, with the title, the tier
/// and the date that were given; nothing else changes.
pub proof fn adding_an_objective<R: CoreRules, P: CorePlanner>(
    rules: R,
    planner: P,
    defaults: Map<Seq<char>, Seq<char>>,
    now: Timestamp,
    before: Store,
    title: String,
    tier: String,
    target_date: Option<String>,
    next: StoreView,
    r: Result<Reply, String>,
)
    requires
        is_run(
            rules,
            planner,
            defaults,
            now,
            before,
            Command::ObjectiveAdd { title, tier, target_date },
            next,
            r,
        ),
    ensures
        r is Err ==> next == before@,
        r matches Ok(reply) ==> reply.save && reply.lines@.len() == 1 && exists|id: Id|
            {
                let added = next.objectives[id];
                &&& reply.lines@[0]@ == #[trigger] hyphenated_id(id)
                &&& next == (StoreView { objectives: next.objectives, ..before@ })
                &&& next.objectives.dom() == before@.objectives.dom().insert(id)
                &&& forall|other: Id|
                    other != id && #[trigger] before@.objectives.contains_key(other)
                        ==> next.objectives[other] == before@.objectives[other]
                &&& added.id == id
                &&& added.title == title@
                &&& is_tier_name(tier@, added.tier)
                &&& is_given_time(target_date, added.target_date)
                &&& added.status == ObjectiveStatus::Active
                &&& added.detail is None
            },
{
    if r is Ok {
        let lines = r->Ok_0.lines@;
        assert(texts(lines).len() == lines.len());
        assert(texts(lines)[0] == lines[0]@);
        let id = choose|id: Id| replies(r, seq![#[trigger] hyphenated_id(id)], true) && next
            == (StoreView {
            objectives: before@.objectives.insert(
                id,
                crate::model::ObjectiveView {
                    id,
                    tier: tier_named(tier@)->0,
                    title: title@,
                    detail: None,
                    target_date: optional_datetime_in(text_option(target_date))->Ok_0,
                    status: ObjectiveStatus::Active,
                },
            ),
            ..before@
        });
        assert(next.objectives.dom() =~= before@.objectives.dom().insert(id));
    }
}

// ---- Status ----

/// `done` marks the one task that the prefix names as done and logs that it was done now; nothing
/// else changes.
pub proof fn finishing_a_task<R: CoreRules, P: CorePlanner>(
    rules: R,
    planner: P,
    defaults: Map<Seq<char>, Seq<char>>,
    now: Timestamp,
    before: Store,
    prefix: String,
    next: StoreView,
    r: Result<Reply, String>,
)
    requires
        before@.tasks.dom().finite(),
        is_run(rules, planner, defaults, now, before, Command::Done { prefix }, next, r),
    ensures
        r is Err ==> next == before@,
        r is Ok ==> is_silent_change(r) && exists|id: Id|
            {
                let entry = next.log.last();
                &&& #[trigger] is_only_match(before@.tasks.dom(), prefix@, id)
                &&& changes_task(StoreView { log: next.log, ..before@ }, next, id)
                &&& next.tasks[id] == (TaskView {
                    status: TaskStatus::Done,
                    ..before@.tasks[id]
                })
                &&& next.log.len() == before@.log.len() + 1
                &&& next.log.drop_last() == before@.log
                &&& entry.at == now
                &&& entry.kind == LogEntryKindView::Fact(
                    FactKind::Actual { item_id: id, status: ActualStatus::Done, actual: None },
                )
            },
        (exists|id: Id| #[trigger] is_only_match(before@.tasks.dom(), prefix@, id)) ==> r is Ok,
{
    prefix_names_the_only_match(before@.tasks.dom(), prefix@, "task"@);
    if r is Ok {
        let id = resolved_task(before@, prefix@)->Ok_0;
        assert(texts(r->Ok_0.lines@).len() == r->Ok_0.lines@.len());
        assert(is_only_match(before@.tasks.dom(), prefix@, id));
        let entry_id = choose|entry_id: Id|
            is_drawn(entry_id) && next == (StoreView {
                log: before@.log.push(#[trigger] crate::tasks::done_entry(entry_id, id, now)),
                ..crate::tasks::with_status(before@, id, TaskStatus::Done)
            });
        assert(next.log.drop_last() =~= before@.log);
        assert(next.tasks.dom() =~= before@.tasks.dom());
    }
}

/// `defer` marks the one task that the prefix names as deferred; nothing else changes.
pub proof fn deferring_a_task<R: CoreRules, P: CorePlanner>(
    rules: R,
    planner: P,
    defaults: Map<Seq<char>, Seq<char>>,
    now: Timestamp,
    before: Store,
    prefix: String,
    next: StoreView,
    r: Result<Reply, String>,
)
    requires
        before@.tasks.dom().finite(),
        is_run(rules, planner, defaults, now, before, Command::Defer { prefix }, next, r),
    ensures
        r is Err ==> next == before@,
        r is Ok ==> is_silent_change(r) && exists|id: Id|
            {
                &&& #[trigger] is_only_match(before@.tasks.dom(), prefix@, id)
                &&& changes_task(before@, next, id)
                &&& next.tasks[id] == (TaskView {
                    status: TaskStatus::Deferred,
                    ..before@.tasks[id]
                })
            },
        (exists|id: Id| #[trigger] is_only_match(before@.tasks.dom(), prefix@, id)) ==> r is Ok,
{
    prefix_names_the_only_match(before@.tasks.dom(), prefix@, "task"@);
    if r is Ok {
        let id = resolved_task(before@, prefix@)->Ok_0;
        assert(texts(r->Ok_0.lines@).len() == r->Ok_0.lines@.len());
        assert(is_only_match(before@.tasks.dom(), prefix@, id));
        assert(next.tasks.dom() =~= before@.tasks.dom());
    }
}

// ---- Preferences ----

/// `pref add` adds one preference, at the end: the first task comes before the second, or with
/// `--eq` they are held equal.
pub proof fn adding_a_preference<R: CoreRules, P: CorePlanner>(
    rules: R,
    planner: P,
    defaults: Map<Seq<char>, Seq<char>>,
    now: Timestamp,
    before: Store,
    a: String,
    b: String,
    eq: bool,
    next: StoreView,
    r: Result<Reply, String>,
)
    requires
        before@.tasks.dom().finite(),
        has_sound_bundles(before@),
        is_run(rules, planner, defaults, now, before, Command::PrefAdd { a, b, eq }, next, r),
    ensures
        r is Err ==> next == before@,
        r is Ok ==> is_silent_change(r) && exists|first: Id, second: Id|
            {
                &&& #[trigger] is_only_match(before@.tasks.dom(), a@, first)
                &&& #[trigger] is_only_match(before@.tasks.dom(), b@, second)
                &&& first != second
                &&& has_one_more(
                    before@,
                    next,
                    first,
                    second,
                    if eq {
                        Relation::Indifferent
                    } else {
                        Relation::Strict
                    },
                )
            },
{
    let store = before@;
    prefix_names_the_only_match(store.tasks.dom(), a@, "task"@);
    prefix_names_the_only_match(store.tasks.dom(), b@, "task"@);
    let change = choose|change: Result<(), String>|
        {
            &&& with_both(
                store,
                a@,
                b@,
                next,
                change,
                |a: Id, b: Id| preference_added(rules, store, a, b, eq, next, change),
            )
            &&& #[trigger] reports_change(change, r)
        };
    crate::command_laws::silent_change(change, r);
    if r is Ok {
        let first = resolved_task(store, a@)->Ok_0;
        let second = resolved_task(store, b@)->Ok_0;
        allowed_preference_is_added(rules, store, first, second, eq, next, change);
        assert(is_only_match(store.tasks.dom(), a@, first));
        assert(is_only_match(store.tasks.dom(), b@, second));
    }
}

/// Whether a preference compares two tasks, in either direction.
pub open spec fn compares(store: StoreView, p: Preference, a: Id, b: Id) -> bool {
    ||| holds_alone(store, p.left, a) && holds_alone(store, p.right, b)
    ||| holds_alone(store, p.left, b) && holds_alone(store, p.right, a)
}

/// Every preference but those that compare two tasks.
pub open spec fn not_comparing(store: StoreView, a: Id, b: Id) -> spec_fn(Preference) -> bool {
    |p: Preference| !compares(store, p, a, b)
}

/// Whether no two bundles hold the same task alone.
pub open spec fn has_no_twins(store: StoreView) -> bool {
    forall|x: Id, y: Id, task: Id|
        #[trigger] holds_alone(store, x, task) && #[trigger] holds_alone(store, y, task) ==> x == y
}

proof fn singleton_is_found(store: StoreView, task: Id)
    requires
        has_sound_bundles(store),
        has_no_twins(store),
    ensures
        match singleton_of(store, task) {
            Some(bundle) => holds_alone(store, bundle, task),
            None => forall|bundle: Id| !#[trigger] holds_alone(store, bundle, task),
        },
{
    let order = maps::in_order(store.bundles.dom());
    maps::order_exists(store.bundles.dom());
    assert forall|i: int| 0 <= i < order.len() implies store.bundles.contains_key(
        #[trigger] order[i],
    ) by {
        assert(order.to_set().contains(order[i]));
    }
    if singleton_of(store, task) is Some {
        crate::confirming::found_singleton(store.bundles, order, task, 0);
    } else {
        assert forall|bundle: Id| !#[trigger] holds_alone(store, bundle, task) by {
            if holds_alone(store, bundle, task) {
                assert(order.to_set().contains(bundle));
                let i = choose|i: int| 0 <= i < order.len() && order[i] == bundle;
                singleton_would_be_found(store, order, task, 0, i);
            }
        }
    }
}

proof fn singleton_would_be_found(store: StoreView, order: Seq<Id>, task: Id, from: int, i: int)
    requires
        0 <= from <= i < order.len(),
        store.bundles[order[i]].members == set![task],
    ensures
        first_singleton(store.bundles, order, task, from) is Some,
    decreases i - from,
{
    if store.bundles[order[from]].members != set![task] {
        singleton_would_be_found(store, order, task, from + 1, i);
    }
}

proof fn others_are_kept(list: Seq<Preference>, left: Id, right: Id)
    ensures
        keeps_only(
            without_between(list, left, right),
            list,
            |p: Preference| !between(p, left, right),
        ),
{
    filtered_is_kept(list, |p: Preference| !between(p, left, right));
}

/// `pref rm` removes every preference that compares the two tasks, in either direction, and keeps
/// all others in their order; nothing else changes.
pub proof fn removing_a_preference<R: CoreRules, P: CorePlanner>(
    rules: R,
    planner: P,
    defaults: Map<Seq<char>, Seq<char>>,
    now: Timestamp,
    before: Store,
    a: String,
    b: String,
    next: StoreView,
    r: Result<Reply, String>,
)
    requires
        before@.tasks.dom().finite(),
        has_sound_bundles(before@),
        has_no_twins(before@),
        is_run(rules, planner, defaults, now, before, Command::PrefRm { a, b }, next, r),
    ensures
        r is Err ==> next == before@,
        r is Ok ==> is_silent_change(r) && exists|first: Id, second: Id|
            {
                &&& #[trigger] is_only_match(before@.tasks.dom(), a@, first)
                &&& #[trigger] is_only_match(before@.tasks.dom(), b@, second)
                &&& next == (StoreView { preferences: next.preferences, ..before@ })
                &&& keeps_only(
                    next.preferences,
                    before@.preferences,
                    not_comparing(before@, first, second),
                )
            },
{
    let store = before@;
    prefix_names_the_only_match(store.tasks.dom(), a@, "task"@);
    prefix_names_the_only_match(store.tasks.dom(), b@, "task"@);
    let change = choose|change: Result<(), String>|
        {
            &&& with_both(
                store,
                a@,
                b@,
                next,
                change,
                |a: Id, b: Id| change is Ok && next == without_preference(store, a, b),
            )
            &&& #[trigger] reports_change(change, r)
        };
    crate::command_laws::silent_change(change, r);
    if r is Ok {
        let first = resolved_task(store, a@)->Ok_0;
        let second = resolved_task(store, b@)->Ok_0;
        assert(is_only_match(store.tasks.dom(), a@, first));
        assert(is_only_match(store.tasks.dom(), b@, second));
        singleton_is_found(store, first);
        singleton_is_found(store, second);
        let test = not_comparing(store, first, second);
        match (singleton_of(store, first), singleton_of(store, second)) {
            (Some(left), Some(right)) => {
                others_are_kept(store.preferences, left, right);
                let fits = |p: Preference| !between(p, left, right);
                assert forall|p: Preference| fits(p) == #[trigger] test(p) by {
                    assert(holds_alone(store, left, first) && holds_alone(store, right, second));
                }
                kept_alike(next.preferences, store.preferences, fits, test);
            },
            _ => {
                assert forall|p: Preference| #[trigger] test(p) by {}
                all_are_kept(store.preferences, test);
            },
        }
    }
}

proof fn all_are_kept<T>(list: Seq<T>, test: spec_fn(T) -> bool)
    requires
        forall|x: T| #[trigger] test(x),
    ensures
        keeps_only(list, list, test),
{
    filtered_is_kept(list, test);
    nothing_is_dropped(list, test);
}

proof fn nothing_is_dropped<T>(list: Seq<T>, test: spec_fn(T) -> bool)
    requires
        forall|x: T| #[trigger] test(x),
    ensures
        list.filter(test) == list,
    decreases list.len(),
{
    reveal(Seq::filter);
    if list.len() > 0 {
        nothing_is_dropped(list.drop_last(), test);
        assert(test(list.last()));
        assert(list.drop_last().push(list.last()) =~= list);
    } else {
        assert(list.filter(test) =~= list);
    }
}

// ---- Settings ----

/// `set-model` makes the name the model; nothing else changes.
pub proof fn setting_the_model<R: CoreRules, P: CorePlanner>(
    rules: R,
    planner: P,
    defaults: Map<Seq<char>, Seq<char>>,
    now: Timestamp,
    before: Store,
    model: String,
    next: StoreView,
    r: Result<Reply, String>,
)
    requires
        is_run(rules, planner, defaults, now, before, Command::SetModel { model }, next, r),
    ensures
        is_silent_change(r),
        next.ollama_model == Some(model@),
        next == (StoreView { ollama_model: next.ollama_model, ..before@ }),
{
    assert(texts(r->Ok_0.lines@).len() == r->Ok_0.lines@.len());
}

/// `set-color` gives a category a color, and leaves all other categories theirs; nothing else
/// changes.
pub proof fn setting_a_color<R: CoreRules, P: CorePlanner>(
    rules: R,
    planner: P,
    defaults: Map<Seq<char>, Seq<char>>,
    now: Timestamp,
    before: Store,
    category: String,
    color_id: String,
    next: StoreView,
    r: Result<Reply, String>,
)
    requires
        is_run(
            rules,
            planner,
            defaults,
            now,
            before,
            Command::SetColor { category, color_id },
            next,
            r,
        ),
    ensures
        is_silent_change(r),
        next == (StoreView { category_colors: next.category_colors, ..before@ }),
        next.category_colors.contains_key(category@),
        next.category_colors[category@] == color_id@,
        forall|other: Seq<char>|
            other != category@ ==> (#[trigger] next.category_colors.contains_key(other)
                == before@.category_colors.contains_key(other)) && (
            before@.category_colors.contains_key(other) ==> next.category_colors[other]
                == before@.category_colors[other]),
{
    assert(texts(r->Ok_0.lines@).len() == r->Ok_0.lines@.len());
}

/// `clarify --queue` starts an interview about the one task that the prefix names, with what is
/// known of it and without questions; one that there is stays as it is. Nothing else changes.
pub proof fn queueing_an_interview<R: CoreRules, P: CorePlanner>(
    rules: R,
    planner: P,
    defaults: Map<Seq<char>, Seq<char>>,
    now: Timestamp,
    before: Store,
    prefix: String,
    next: StoreView,
    r: Result<Reply, String>,
)
    requires
        before@.tasks.dom().finite(),
        is_run(rules, planner, defaults, now, before, Command::ClarifyQueue { prefix }, next, r),
    ensures
        r is Err ==> next == before@,
        r is Ok ==> r->Ok_0.save && r->Ok_0.lines@.len() == 1 && exists|id: Id|
            {
                let session = next.clarify_sessions[id];
                &&& #[trigger] is_only_match(before@.tasks.dom(), prefix@, id)
                &&& next == (StoreView { clarify_sessions: next.clarify_sessions, ..before@ })
                &&& next.clarify_sessions.dom() == before@.clarify_sessions.dom().insert(id)
                &&& forall|other: Id| #[trigger]
                    before@.clarify_sessions.contains_key(other) ==> next.clarify_sessions[other]
                        == before@.clarify_sessions[other]
                &&& !before@.clarify_sessions.contains_key(id) ==> session.round == 0
                    && session.pending.len() == 0 && session.tags.len() == 0
                    && session.accumulated == (match before@.tasks[id].detail {
                    Some(detail) => detail,
                    None => Seq::empty(),
                })
            },
{
    prefix_names_the_only_match(before@.tasks.dom(), prefix@, "task"@);
    if r is Ok {
        let id = resolved_task(before@, prefix@)->Ok_0;
        assert(texts(r->Ok_0.lines@).len() == r->Ok_0.lines@.len());
        assert(is_only_match(before@.tasks.dom(), prefix@, id));
        assert(next.clarify_sessions.dom() =~= before@.clarify_sessions.dom().insert(id));
    }
}

/// A date from which routines make tasks is midnight of the day that the text denotes; a text that
/// denotes no day is refused with words that begin and name it.
pub proof fn start_date_is_midnight(text: Seq<char>)
    ensures
        start_date_in(text) is Ok <==> date_value(text) is Ok,
        start_date_in(text) is Ok ==> (start_date_in(text)->Ok_0) == Timestamp::of(
            date_value(text)->Ok_0,
            0,
        ),
        start_date_in(text) is Err ==> is_laid_out(
            start_date_in(text)->Err_0,
            seq!["invalid date "@, text, ": "@, date_value(text)->Err_0],
        ),
{
    if date_value(text) is Err {
        let words = date_value(text)->Err_0;
        let first = seq!["invalid date "@];
        let second = seq!["invalid date "@, text];
        let third = seq!["invalid date "@, text, ": "@];
        one_piece("invalid date "@);
        assert(first.push(text) =~= second);
        one_more_piece("invalid date "@, first, text);
        assert(second.push(": "@) =~= third);
        one_more_piece("invalid date "@ + text, second, ": "@);
        assert(third.push(words) =~= seq!["invalid date "@, text, ": "@, words]);
        one_more_piece("invalid date "@ + text + ": "@, third, words);
    }
}

} // verus!

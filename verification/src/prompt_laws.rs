//! Laws on what the model is told: the tasks, their places, and the relations among them.

use crate::clarify::{clarify_context, clarify_prompt, CLARIFY_INTRO};
use crate::ids::Id;
use crate::json::{json_text, Json};
use crate::model::{
    CompletedExampleView, ObjectiveView, PrefSuggestion, Preference, Relation, StoreView, TaskView,
};
use crate::parts::{is_laid_out, one_more_piece, one_piece, stands_at};
use crate::preferences::only_member;
use crate::prompts::{
    advisor_prompt, all_tags, commitment_json, dependencies_of, dependency_json, example_line,
    existing_json, history_text, is_between_listed, is_listed, listed_dependencies,
    listed_preferences, objective_json, objective_list, place_of, preference_json, row,
    status_json, tag_prompt, tag_rows, tagged_json, task_json, task_rows, time_json,
    ADVISE_EXISTING, ADVISE_INTRO, ADVISE_LEGEND, ADVISE_REPLY, TAG_INTRO, TAG_REPLY,
};
use crate::reply_laws::{points_at, tells_dependency, tells_preference};
use crate::review::{
    decompose_context, decompose_intro, decompose_prompt, example_json, history_json, row_step,
    row_steps, suggest_intro, suggest_prompt,
};
use crate::text::{decimal, joined};
use crate::textmap::texts_in_order;
use crate::time::{rfc3339_zulu, whole_minutes};
use vstd::prelude::*;
use vstd::string::*;

verus! {

// ---- Tasks ----

/// When relations are asked for, a task is told with all that it says: its title, detail and
/// status, how long it takes and when, and what it is for.
pub proof fn task_is_told_in_full(store: StoreView, task: TaskView)
    ensures
        ({
            let told = task_json(store, task);
            &&& told.field("title"@) == Json::Text(task.title)
            &&& told.field("detail"@) == Json::optional_text(task.detail)
            &&& told.field("status"@) == Json::Text(status_json(task.status))
            &&& told.field("duration_minutes"@) == Json::Integer(
                whole_minutes(task.est_duration.total()),
            )
            &&& told.field("due"@) == time_json(task.due)
            &&& told.field("earliest_start"@) == time_json(task.earliest_start)
            &&& told.field("category"@) == Json::optional_text(task.category)
            &&& told.field("skills"@) == Json::text_array(task.skills)
            &&& told.field("tags"@) == Json::text_array(task.tags)
            &&& told.field("affect_cost"@) == Json::Integer(task.affect_cost as int)
            &&& told.field("transparent"@) == Json::Bool(task.transparent)
            &&& told.field("commitment"@) == commitment_json(task.commitment)
            &&& told.field("objectives"@) == Json::Array(
                objective_list(store, task.objective_ids, task.objective_ids.len() as int),
            )
        }),
{
    reveal_strlit("title");
    reveal_strlit("detail");
    reveal_strlit("status");
    reveal_strlit("duration_minutes");
    reveal_strlit("due");
    reveal_strlit("earliest_start");
    reveal_strlit("category");
    reveal_strlit("skills");
    reveal_strlit("tags");
    reveal_strlit("affect_cost");
    reveal_strlit("transparent");
    reveal_strlit("commitment");
    reveal_strlit("objectives");
    assert("detail"@[0] != "status"@[0]);
    assert("detail"@[0] != "skills"@[0]);
    assert("status"@[1] != "skills"@[1]);
    assert("affect_cost"@[0] != "transparent"@[0]);
    assert("commitment"@[0] != "objectives"@[0]);
    assert("title"@.len() == 5);
    assert("detail"@.len() == 6);
    assert("status"@.len() == 6);
    assert("duration_minutes"@.len() == 16);
    assert("due"@.len() == 3);
    assert("earliest_start"@.len() == 14);
    assert("category"@.len() == 8);
    assert("skills"@.len() == 6);
    assert("tags"@.len() == 4);
    assert("affect_cost"@.len() == 11);
    assert("transparent"@.len() == 11);
    assert("commitment"@.len() == 10);
    assert("objectives"@.len() == 10);
}

/// When tags are asked for, a task is told with its title, its category and its tags.
pub proof fn tagged_task_is_told(task: TaskView)
    ensures
        ({
            let told = tagged_json(task);
            &&& told.field("title"@) == Json::Text(task.title)
            &&& told.field("category"@) == Json::optional_text(task.category)
            &&& told.field("tags"@) == Json::text_array(task.tags)
        }),
{
    reveal_strlit("title");
    reveal_strlit("category");
    reveal_strlit("tags");
    assert("title"@.len() == 5);
    assert("category"@.len() == 8);
    assert("tags"@.len() == 4);
}

/// An objective is told with its title, its detail and its target date.
pub proof fn objective_is_told(objective: ObjectiveView)
    ensures
        ({
            let told = objective_json(objective);
            &&& told.field("title"@) == Json::Text(objective.title)
            &&& told.field("detail"@) == Json::optional_text(objective.detail)
            &&& told.field("target_date"@) == time_json(objective.target_date)
        }),
{
    reveal_strlit("title");
    reveal_strlit("detail");
    reveal_strlit("target_date");
    reveal_strlit("status");
    assert("status"@[0] != "detail"@[0]);
    assert("title"@.len() == 5);
    assert("detail"@.len() == 6);
    assert("target_date"@.len() == 11);
}

/// A completed task is told with its title, tags and category, how long it took, and when it was
/// completed.
pub proof fn example_is_told(example: CompletedExampleView)
    ensures
        ({
            let told = example_json(example);
            &&& told.field("title"@) == Json::Text(example.title)
            &&& told.field("tags"@) == Json::text_array(example.tags)
            &&& told.field("category"@) == Json::optional_text(example.category)
            &&& told.field("duration_minutes"@) == Json::Integer(
                whole_minutes(example.duration.total()),
            )
            &&& told.field("completed_at"@) == Json::Text(
                rfc3339_zulu(example.completed_at.secs(), example.completed_at.nanos()),
            )
        }),
{
    reveal_strlit("title");
    reveal_strlit("tags");
    reveal_strlit("category");
    reveal_strlit("duration_minutes");
    reveal_strlit("completed_at");
    assert("title"@.len() == 5);
    assert("tags"@.len() == 4);
    assert("category"@.len() == 8);
    assert("duration_minutes"@.len() == 16);
    assert("completed_at"@.len() == 12);
}

/// Completed tasks are told one for one and in order.
pub proof fn examples_are_told_in_order(history: Seq<CompletedExampleView>, i: int)
    requires
        0 <= i < history.len(),
    ensures
        history_json(history) is Array,
        history_json(history)->Array_0.len() == history.len(),
        history_json(history)->Array_0[i] == example_json(history[i]),
{
}

/// A task that is to be taken apart is told with its title, detail, tags and category and with the
/// minutes that it takes; the completed tasks are told with it.
pub proof fn task_to_take_apart_is_told(task: TaskView, history: Seq<CompletedExampleView>)
    ensures
        ({
            let told = decompose_context(task, history);
            let inner = told.field("task"@);
            &&& told.field("completed_examples"@) == history_json(history)
            &&& inner.field("title"@) == Json::Text(task.title)
            &&& inner.field("detail"@) == Json::optional_text(task.detail)
            &&& inner.field("tags"@) == Json::text_array(task.tags)
            &&& inner.field("category"@) == Json::optional_text(task.category)
            &&& inner.field("est_duration_minutes"@) == Json::Integer(
                whole_minutes(task.est_duration.total()),
            )
        }),
{
    reveal_strlit("task");
    reveal_strlit("completed_examples");
    reveal_strlit("title");
    reveal_strlit("detail");
    reveal_strlit("tags");
    reveal_strlit("category");
    reveal_strlit("est_duration_minutes");
    assert("task"@.len() == 4 && "completed_examples"@.len() == 18);
    assert("title"@.len() == 5 && "detail"@.len() == 6 && "tags"@.len() == 4);
    assert("category"@.len() == 8 && "est_duration_minutes"@.len() == 20);
}

/// A task that is to be clarified is told with its title, category, tags and detail; what was told
/// so far and the completed tasks are told with it.
pub proof fn task_to_clarify_is_told(
    task: TaskView,
    lore: Seq<char>,
    history: Seq<CompletedExampleView>,
)
    ensures
        ({
            let told = clarify_context(task, lore, history);
            let inner = told.field("task"@);
            &&& told.field("accumulated_lore_and_qa"@) == Json::Text(lore)
            &&& told.field("completed_examples"@) == history_json(history)
            &&& inner.field("title"@) == Json::Text(task.title)
            &&& inner.field("category"@) == Json::optional_text(task.category)
            &&& inner.field("tags"@) == Json::text_array(task.tags)
            &&& inner.field("current_lore"@) == Json::optional_text(task.detail)
        }),
{
    reveal_strlit("task");
    reveal_strlit("completed_examples");
    reveal_strlit("accumulated_lore_and_qa");
    reveal_strlit("title");
    reveal_strlit("tags");
    reveal_strlit("category");
    reveal_strlit("current_lore");
    assert("task"@.len() == 4 && "completed_examples"@.len() == 18
        && "accumulated_lore_and_qa"@.len() == 23);
    assert("title"@.len() == 5 && "tags"@.len() == 4);
    assert("category"@.len() == 8 && "current_lore"@.len() == 12);
}

// ---- Places ----

proof fn rows_go_on(store: StoreView, ids: Seq<Id>, n: int, m: int)
    requires
        0 <= n <= m,
    ensures
        stands_at(task_rows(store, ids, m), 0, task_rows(store, ids, n)),
        stands_at(tag_rows(store, ids, m), 0, tag_rows(store, ids, n)),
    decreases m - n,
{
    let a = task_rows(store, ids, n);
    let b = tag_rows(store, ids, n);
    if n < m {
        rows_go_on(store, ids, n, m - 1);
        let c = task_rows(store, ids, m - 1);
        let d = tag_rows(store, ids, m - 1);
        assert(c.subrange(0, a.len() as int) =~= a);
        assert(d.subrange(0, b.len() as int) =~= b);
        assert(task_rows(store, ids, m).subrange(0, a.len() as int) =~= c.subrange(
            0,
            a.len() as int,
        ));
        assert(tag_rows(store, ids, m).subrange(0, b.len() as int) =~= d.subrange(
            0,
            b.len() as int,
        ));
    } else {
        assert(a.subrange(0, a.len() as int) =~= a);
        assert(b.subrange(0, b.len() as int) =~= b);
    }
}

/// The listed tasks are told one behind the other and in order; the number before each is the one
/// that stands for it in a reply.
pub proof fn tasks_are_told_under_their_numbers(store: StoreView, ids: Seq<Id>, i: int)
    requires
        0 <= i < ids.len(),
    ensures
        ({
            let n = ids.len() as int;
            let at = task_rows(store, ids, i).len() as int;
            let tag_at = tag_rows(store, ids, i).len() as int;
            &&& stands_at(
                task_rows(store, ids, n),
                at,
                row(i, task_json(store, store.tasks[ids[i]])),
            )
            &&& stands_at(tag_rows(store, ids, n), tag_at, row(i, tagged_json(store.tasks[ids[i]])))
            &&& points_at(Json::Integer(i + 1), ids, ids[i])
        }),
{
    let n = ids.len() as int;
    let line = row(i, task_json(store, store.tasks[ids[i]]));
    let tag_line = row(i, tagged_json(store.tasks[ids[i]]));
    let at = task_rows(store, ids, i).len() as int;
    let tag_at = tag_rows(store, ids, i).len() as int;
    rows_go_on(store, ids, i + 1, n);
    let one = task_rows(store, ids, i + 1);
    let two = tag_rows(store, ids, i + 1);
    assert(one.subrange(at, at + line.len()) =~= line);
    assert(two.subrange(tag_at, tag_at + tag_line.len()) =~= tag_line);
    let rows = task_rows(store, ids, n);
    let tags = tag_rows(store, ids, n);
    assert(rows.subrange(0, one.len() as int) == one);
    assert(tags.subrange(0, two.len() as int) == two);
    assert(rows.subrange(at, at + line.len()) =~= rows.subrange(0, one.len() as int).subrange(
        at,
        at + line.len(),
    ));
    assert(tags.subrange(tag_at, tag_at + tag_line.len()) =~= tags.subrange(
        0,
        two.len() as int,
    ).subrange(tag_at, tag_at + tag_line.len()));
}

/// The line of a listed task shows its number, counted from one, and what is told of it.
pub proof fn row_shows_number_and_task(index: int, value: Json)
    ensures
        is_laid_out(
            row(index, value),
            seq![
                "["@,
                decimal(index + 1),
                "] "@,
                json_text(value),
                "\n"@,
            ],
        ),
{
    let text_0 = "["@;
    let list_0 = seq![text_0];
    one_piece(text_0);
    let piece_1 = decimal(index + 1);
    let text_1 = text_0 + piece_1;
    let list_1 = list_0.push(piece_1);
    one_more_piece(text_0, list_0, piece_1);
    let piece_2 = "] "@;
    let text_2 = text_1 + piece_2;
    let list_2 = list_1.push(piece_2);
    one_more_piece(text_1, list_1, piece_2);
    let piece_3 = json_text(value);
    let text_3 = text_2 + piece_3;
    let list_3 = list_2.push(piece_3);
    one_more_piece(text_2, list_2, piece_3);
    let piece_4 = "\n"@;
    let text_4 = text_3 + piece_4;
    let list_4 = list_3.push(piece_4);
    one_more_piece(text_3, list_3, piece_4);
    assert(text_4 == row(index, value));
    assert(list_4 =~= seq![
        "["@,
        decimal(index + 1),
        "] "@,
        json_text(value),
        "\n"@,
    ]);
}


// ---- Relations ----

proof fn place_is_found(ids: Seq<Id>, id: Id, from: int)
    requires
        0 <= from <= ids.len(),
    ensures
        from <= place_of(ids, id, from) <= ids.len(),
        place_of(ids, id, from) < ids.len() ==> ids[place_of(ids, id, from)] == id,
        (exists|i: int| from <= i < ids.len() && #[trigger] ids[i] == id) ==> place_of(ids, id, from)
            < ids.len(),
    decreases ids.len() - from,
{
    if from < ids.len() && ids[from] != id {
        place_is_found(ids, id, from + 1);
    }
}

/// A task is listed exactly if its id is among the listed ones.
pub proof fn listed_is_contained(ids: Seq<Id>, id: Id)
    ensures
        is_listed(ids, id) <==> ids.contains(id),
{
    place_is_found(ids, id, 0);
    if ids.contains(id) {
        let i = choose|i: int| 0 <= i < ids.len() && ids[i] == id;
        assert(0 <= i < ids.len() && ids[i] == id);
    }
}

proof fn told_dependency_is_read(ids: Seq<Id>, blocked: Id, blocker: Id)
    requires
        ids.contains(blocked),
        ids.contains(blocker),
    ensures
        tells_dependency(
            dependency_json(place_of(ids, blocked, 0), place_of(ids, blocker, 0)),
            ids,
            (blocked, blocker),
        ),
{
    reveal_strlit("blocked");
    reveal_strlit("blocker");
    assert("blocked"@[6] != "blocker"@[6]);
    listed_is_contained(ids, blocked);
    listed_is_contained(ids, blocker);
    place_is_found(ids, blocked, 0);
    place_is_found(ids, blocker, 0);
}

proof fn told_preference_is_read(ids: Seq<Id>, a: Id, b: Id, relation: Relation)
    requires
        ids.contains(a),
        ids.contains(b),
    ensures
        tells_preference(
            preference_json(place_of(ids, a, 0), place_of(ids, b, 0), relation),
            ids,
            (
                a,
                b,
                if relation == Relation::Strict {
                    PrefSuggestion::AStrictB
                } else {
                    PrefSuggestion::Indifferent
                },
            ),
        ),
{
    reveal_strlit("a");
    reveal_strlit("b");
    reveal_strlit("relation");
    assert("a"@[0] != "b"@[0]);
    assert("relation"@.len() == 8);
    listed_is_contained(ids, a);
    listed_is_contained(ids, b);
    place_is_found(ids, a, 0);
    place_is_found(ids, b, 0);
}

proof fn dependencies_of_one(ids: Seq<Id>, blocked: Id, blocked_by: Seq<Id>, n: int)
    requires
        ids.contains(blocked),
        0 <= n <= blocked_by.len(),
    ensures
        ({
            let told = dependencies_of(ids, place_of(ids, blocked, 0), blocked_by, n);
            &&& forall|k: int|
                0 <= k < told.len() ==> exists|j: int|
                    0 <= j < n && tells_dependency(
                        #[trigger] told[k],
                        ids,
                        (blocked, #[trigger] blocked_by[j]),
                    )
            &&& forall|j: int|
                0 <= j < n && ids.contains(#[trigger] blocked_by[j]) ==> exists|k: int|
                    0 <= k < told.len() && tells_dependency(
                        #[trigger] told[k],
                        ids,
                        (blocked, blocked_by[j]),
                    )
        }),
    decreases n,
{
    if n > 0 {
        let place = place_of(ids, blocked, 0);
        dependencies_of_one(ids, blocked, blocked_by, n - 1);
        let before = dependencies_of(ids, place, blocked_by, n - 1);
        let told = dependencies_of(ids, place, blocked_by, n);
        let last = blocked_by[n - 1];
        listed_is_contained(ids, last);
        if ids.contains(last) {
            told_dependency_is_read(ids, blocked, last);
            assert(told[before.len() as int] == dependency_json(place, place_of(ids, last, 0)));
        }
        assert forall|k: int| 0 <= k < told.len() implies exists|j: int|
            0 <= j < n && tells_dependency(
                #[trigger] told[k],
                ids,
                (blocked, #[trigger] blocked_by[j]),
            ) by {
            if k < before.len() {
                assert(told[k] == before[k]);
                let j = choose|j: int|
                    0 <= j < n - 1 && tells_dependency(
                        before[k],
                        ids,
                        (blocked, #[trigger] blocked_by[j]),
                    );
                assert(tells_dependency(told[k], ids, (blocked, blocked_by[j])));
            } else {
                assert(tells_dependency(told[k], ids, (blocked, blocked_by[n - 1])));
            }
        }
        assert forall|j: int| 0 <= j < n && ids.contains(#[trigger] blocked_by[j]) implies exists|
            k: int,
        |
            0 <= k < told.len() && tells_dependency(
                #[trigger] told[k],
                ids,
                (blocked, blocked_by[j]),
            ) by {
            if j < n - 1 {
                let k = choose|k: int|
                    0 <= k < before.len() && tells_dependency(
                        #[trigger] before[k],
                        ids,
                        (blocked, blocked_by[j]),
                    );
                assert(told[k] == before[k]);
            } else {
                assert(tells_dependency(
                    told[before.len() as int],
                    ids,
                    (blocked, blocked_by[j]),
                ));
            }
        }
    }
}

/// Whether a value tells that one listed task waits for another, and it does.
pub open spec fn is_standing_dependency(store: StoreView, ids: Seq<Id>, value: Json) -> bool {
    exists|blocked: Id, blocker: Id| #[trigger]
        tells_dependency(value, ids, (blocked, blocker)) && ids.contains(blocked)
            && store.tasks[blocked].blocked_by.contains(blocker)
}

/// Among the listed tasks, exactly the dependencies that stand are told, by the numbers of the
/// tasks.
pub proof fn standing_dependencies_are_told(store: StoreView, ids: Seq<Id>, n: int)
    requires
        0 <= n <= ids.len(),
    ensures
        ({
            let told = listed_dependencies(store, ids, n);
            &&& forall|k: int|
                0 <= k < told.len() ==> is_standing_dependency(store, ids, #[trigger] told[k])
            &&& forall|i: int, blocker: Id|
                0 <= i < n && #[trigger] store.tasks[#[trigger] ids[i]].blocked_by.contains(blocker)
                    && ids.contains(blocker) ==> exists|k: int|
                    0 <= k < told.len() && tells_dependency(
                        #[trigger] told[k],
                        ids,
                        (ids[i], blocker),
                    )
        }),
    decreases n,
{
    if n > 0 {
        standing_dependencies_are_told(store, ids, n - 1);
        let id = ids[n - 1];
        let blocked_by = store.tasks[id].blocked_by;
        let before = listed_dependencies(store, ids, n - 1);
        let more = dependencies_of(ids, place_of(ids, id, 0), blocked_by, blocked_by.len() as int);
        let told = listed_dependencies(store, ids, n);
        assert(ids.contains(id));
        dependencies_of_one(ids, id, blocked_by, blocked_by.len() as int);
        assert forall|k: int| 0 <= k < told.len() implies is_standing_dependency(
            store,
            ids,
            #[trigger] told[k],
        ) by {
            if k < before.len() {
                assert(told[k] == before[k]);
            } else {
                assert(told[k] == more[k - before.len()]);
                let j = choose|j: int|
                    0 <= j < blocked_by.len() && tells_dependency(
                        more[k - before.len()],
                        ids,
                        (id, #[trigger] blocked_by[j]),
                    );
                assert(blocked_by.contains(blocked_by[j]));
                assert(tells_dependency(told[k], ids, (id, blocked_by[j])));
            }
        }
        assert forall|i: int, blocker: Id|
            0 <= i < n && #[trigger] store.tasks[#[trigger] ids[i]].blocked_by.contains(blocker)
                && ids.contains(blocker) implies exists|k: int|
            0 <= k < told.len() && tells_dependency(#[trigger] told[k], ids, (ids[i], blocker)) by {
            if i < n - 1 {
                let k = choose|k: int|
                    0 <= k < before.len() && tells_dependency(
                        #[trigger] before[k],
                        ids,
                        (ids[i], blocker),
                    );
                assert(told[k] == before[k]);
            } else {
                let j = choose|j: int| 0 <= j < blocked_by.len() && blocked_by[j] == blocker;
                assert(ids.contains(blocked_by[j]));
                let k = choose|k: int|
                    0 <= k < more.len() && tells_dependency(
                        #[trigger] more[k],
                        ids,
                        (id, blocked_by[j]),
                    );
                assert(told[before.len() + k] == more[k]);
            }
        }
    }
}

/// How a preference is told: the task that comes first as `a`, or both as equal.
pub open spec fn told_as(
    store: StoreView,
    p: Preference,
) -> (Id, Id, PrefSuggestion) {
    (
        only_member(store, p.left)->0,
        only_member(store, p.right)->0,
        if p.relation == Relation::Strict {
            PrefSuggestion::AStrictB
        } else {
            PrefSuggestion::Indifferent
        },
    )
}

/// Whether a preference ranks two listed tasks, each alone.
pub open spec fn ranks_listed(store: StoreView, ids: Seq<Id>, p: Preference) -> bool {
    &&& only_member(store, p.left) is Some && ids.contains(only_member(store, p.left)->0)
    &&& only_member(store, p.right) is Some && ids.contains(only_member(store, p.right)->0)
}

/// Whether a value tells one of the first `n` preferences that rank listed tasks.
pub open spec fn is_standing_preference(
    store: StoreView,
    ids: Seq<Id>,
    n: int,
    value: Json,
) -> bool {
    exists|i: int|
        {
            &&& 0 <= i < n
            &&& ranks_listed(store, ids, #[trigger] store.preferences[i])
            &&& tells_preference(value, ids, told_as(store, store.preferences[i]))
        }
}

/// Whether one of some values tells a preference.
pub open spec fn is_told(
    values: Seq<Json>,
    ids: Seq<Id>,
    triple: (Id, Id, PrefSuggestion),
) -> bool {
    exists|k: int| 0 <= k < values.len() && tells_preference(#[trigger] values[k], ids, triple)
}

/// Among the listed tasks, exactly the preferences that stand are told, by the numbers of the
/// tasks.
pub proof fn standing_preferences_are_told(store: StoreView, ids: Seq<Id>, n: int)
    requires
        0 <= n <= store.preferences.len(),
    ensures
        forall|k: int|
            0 <= k < listed_preferences(store, ids, n).len() ==> is_standing_preference(
                store,
                ids,
                n,
                #[trigger] listed_preferences(store, ids, n)[k],
            ),
        forall|i: int|
            0 <= i < n && ranks_listed(store, ids, #[trigger] store.preferences[i]) ==> is_told(
                listed_preferences(store, ids, n),
                ids,
                told_as(store, store.preferences[i]),
            ),
    decreases n,
{
    if n > 0 {
        standing_preferences_are_told(store, ids, n - 1);
        let p = store.preferences[n - 1];
        let before = listed_preferences(store, ids, n - 1);
        let told = listed_preferences(store, ids, n);
        if only_member(store, p.left) is Some {
            listed_is_contained(ids, only_member(store, p.left)->0);
        }
        if only_member(store, p.right) is Some {
            listed_is_contained(ids, only_member(store, p.right)->0);
        }
        assert(is_between_listed(store, ids, p) == ranks_listed(store, ids, p));
        if ranks_listed(store, ids, p) {
            told_preference_is_read(
                ids,
                only_member(store, p.left)->0,
                only_member(store, p.right)->0,
                p.relation,
            );
            assert(tells_preference(told[before.len() as int], ids, told_as(store, p)));
        }
        assert forall|k: int| 0 <= k < told.len() implies is_standing_preference(
            store,
            ids,
            n,
            #[trigger] told[k],
        ) by {
            if k < before.len() {
                assert(told[k] == before[k]);
                assert(is_standing_preference(store, ids, n - 1, before[k]));
                let i = choose|i: int|
                    {
                        &&& 0 <= i < n - 1
                        &&& ranks_listed(store, ids, #[trigger] store.preferences[i])
                        &&& tells_preference(before[k], ids, told_as(store, store.preferences[i]))
                    };
                assert(ranks_listed(store, ids, store.preferences[i]));
            } else {
                assert(ranks_listed(store, ids, store.preferences[n - 1]));
            }
        }
        assert forall|i: int|
            0 <= i < n && ranks_listed(store, ids, #[trigger] store.preferences[i]) implies is_told(
            told,
            ids,
            told_as(store, store.preferences[i]),
        ) by {
            if i < n - 1 {
                assert(is_told(before, ids, told_as(store, store.preferences[i])));
                let k = choose|k: int|
                    0 <= k < before.len() && tells_preference(
                        #[trigger] before[k],
                        ids,
                        told_as(store, store.preferences[i]),
                    );
                assert(told[k] == before[k]);
            } else {
                assert(tells_preference(told[before.len() as int], ids, told_as(store, p)));
            }
        }
    }
}

// ---- Prompts ----

/// The prompt for relations tells the tasks, the completed tasks, and the relations that there are,
/// between what explains them.
pub proof fn relations_are_asked_for(
    store: StoreView,
    ids: Seq<Id>,
    history: Seq<CompletedExampleView>,
)
    ensures
        is_laid_out(
            advisor_prompt(store, ids, history),
            seq![
                ADVISE_INTRO@,
                ADVISE_LEGEND@,
                task_rows(store, ids, ids.len() as int),
                history_text(history),
                ADVISE_EXISTING@,
                json_text(existing_json(store, ids)),
                "\n"@,
                ADVISE_REPLY@,
            ],
        ),
{
    let text_0 = ADVISE_INTRO@;
    let list_0 = seq![text_0];
    one_piece(text_0);
    let piece_1 = ADVISE_LEGEND@;
    let text_1 = text_0 + piece_1;
    let list_1 = list_0.push(piece_1);
    one_more_piece(text_0, list_0, piece_1);
    let piece_2 = task_rows(store, ids, ids.len() as int);
    let text_2 = text_1 + piece_2;
    let list_2 = list_1.push(piece_2);
    one_more_piece(text_1, list_1, piece_2);
    let piece_3 = history_text(history);
    let text_3 = text_2 + piece_3;
    let list_3 = list_2.push(piece_3);
    one_more_piece(text_2, list_2, piece_3);
    let piece_4 = ADVISE_EXISTING@;
    let text_4 = text_3 + piece_4;
    let list_4 = list_3.push(piece_4);
    one_more_piece(text_3, list_3, piece_4);
    let piece_5 = json_text(existing_json(store, ids));
    let text_5 = text_4 + piece_5;
    let list_5 = list_4.push(piece_5);
    one_more_piece(text_4, list_4, piece_5);
    let piece_6 = "\n"@;
    let text_6 = text_5 + piece_6;
    let list_6 = list_5.push(piece_6);
    one_more_piece(text_5, list_5, piece_6);
    let piece_7 = ADVISE_REPLY@;
    let text_7 = text_6 + piece_7;
    let list_7 = list_6.push(piece_7);
    one_more_piece(text_6, list_6, piece_7);
    assert(text_7 == advisor_prompt(store, ids, history));
    assert(list_7 =~= seq![
        ADVISE_INTRO@,
        ADVISE_LEGEND@,
        task_rows(store, ids, ids.len() as int),
        history_text(history),
        ADVISE_EXISTING@,
        json_text(existing_json(store, ids)),
        "\n"@,
        ADVISE_REPLY@,
    ]);
}

/// The prompt for tags tells the tags that there are, the completed tasks, and the tasks, between
/// what explains them.
pub proof fn tags_are_asked_for(store: StoreView, ids: Seq<Id>, history: Seq<CompletedExampleView>)
    ensures
        is_laid_out(
            tag_prompt(store, ids, history),
            seq![
                TAG_INTRO@,
                "Existing tag vocabulary: "@,
                json_text(Json::text_array(texts_in_order(all_tags(store)))),
                "\n"@,
                history_text(history),
                tag_rows(store, ids, ids.len() as int),
                TAG_REPLY@,
            ],
        ),
{
    let text_0 = TAG_INTRO@;
    let list_0 = seq![text_0];
    one_piece(text_0);
    let piece_1 = "Existing tag vocabulary: "@;
    let text_1 = text_0 + piece_1;
    let list_1 = list_0.push(piece_1);
    one_more_piece(text_0, list_0, piece_1);
    let piece_2 = json_text(Json::text_array(texts_in_order(all_tags(store))));
    let text_2 = text_1 + piece_2;
    let list_2 = list_1.push(piece_2);
    one_more_piece(text_1, list_1, piece_2);
    let piece_3 = "\n"@;
    let text_3 = text_2 + piece_3;
    let list_3 = list_2.push(piece_3);
    one_more_piece(text_2, list_2, piece_3);
    let piece_4 = history_text(history);
    let text_4 = text_3 + piece_4;
    let list_4 = list_3.push(piece_4);
    one_more_piece(text_3, list_3, piece_4);
    let piece_5 = tag_rows(store, ids, ids.len() as int);
    let text_5 = text_4 + piece_5;
    let list_5 = list_4.push(piece_5);
    one_more_piece(text_4, list_4, piece_5);
    let piece_6 = TAG_REPLY@;
    let text_6 = text_5 + piece_6;
    let list_6 = list_5.push(piece_6);
    one_more_piece(text_5, list_5, piece_6);
    assert(text_6 == tag_prompt(store, ids, history));
    assert(list_6 =~= seq![
        TAG_INTRO@,
        "Existing tag vocabulary: "@,
        json_text(Json::text_array(texts_in_order(all_tags(store)))),
        "\n"@,
        history_text(history),
        tag_rows(store, ids, ids.len() as int),
        TAG_REPLY@,
    ]);
}

/// The prompt for a chain tells the task and the completed tasks behind what explains them; the
/// question whether it is worth a chain comes before it.
pub proof fn chain_is_asked_for(task: TaskView, history: Seq<CompletedExampleView>)
    ensures
        is_laid_out(
            suggest_prompt(task, history),
            seq![
                suggest_intro(),
                decompose_prompt(task, history),
            ],
        ),
{
    let text_0 = suggest_intro();
    let list_0 = seq![text_0];
    one_piece(text_0);
    let piece_1 = decompose_prompt(task, history);
    let text_1 = text_0 + piece_1;
    let list_1 = list_0.push(piece_1);
    one_more_piece(text_0, list_0, piece_1);
    assert(text_1 == suggest_prompt(task, history));
    assert(list_1 =~= seq![
        suggest_intro(),
        decompose_prompt(task, history),
    ]);
}

/// The prompt for a chain ends with what is told of the task.
pub proof fn chain_prompt_tells_the_task(task: TaskView, history: Seq<CompletedExampleView>)
    ensures
        is_laid_out(
            decompose_prompt(task, history),
            seq![
                decompose_intro(),
                json_text(decompose_context(task, history)),
            ],
        ),
{
    let text_0 = decompose_intro();
    let list_0 = seq![text_0];
    one_piece(text_0);
    let piece_1 = json_text(decompose_context(task, history));
    let text_1 = text_0 + piece_1;
    let list_1 = list_0.push(piece_1);
    one_more_piece(text_0, list_0, piece_1);
    assert(text_1 == decompose_prompt(task, history));
    assert(list_1 =~= seq![
        decompose_intro(),
        json_text(decompose_context(task, history)),
    ]);
}

/// The prompt for a round of questions tells the task, what was told so far and the completed tasks,
/// behind what explains them.
pub proof fn round_is_asked_for(task: TaskView, lore: Seq<char>, history: Seq<CompletedExampleView>)
    ensures
        is_laid_out(
            clarify_prompt(task, lore, history),
            seq![
                CLARIFY_INTRO@,
                json_text(clarify_context(task, lore, history)),
            ],
        ),
{
    let text_0 = CLARIFY_INTRO@;
    let list_0 = seq![text_0];
    one_piece(text_0);
    let piece_1 = json_text(clarify_context(task, lore, history));
    let text_1 = text_0 + piece_1;
    let list_1 = list_0.push(piece_1);
    one_more_piece(text_0, list_0, piece_1);
    assert(text_1 == clarify_prompt(task, lore, history));
    assert(list_1 =~= seq![
        CLARIFY_INTRO@,
        json_text(clarify_context(task, lore, history)),
    ]);
}

/// The line of a completed task shows its title and its tags.
pub proof fn example_line_shows_title_and_tags(example: CompletedExampleView)
    ensures
        is_laid_out(
            example_line(example),
            seq![
                "- "@,
                example.title,
                "  →  ["@,
                joined(example.tags, ", "@),
                "]\n"@,
            ],
        ),
{
    let text_0 = "- "@;
    let list_0 = seq![text_0];
    one_piece(text_0);
    let piece_1 = example.title;
    let text_1 = text_0 + piece_1;
    let list_1 = list_0.push(piece_1);
    one_more_piece(text_0, list_0, piece_1);
    let piece_2 = "  →  ["@;
    let text_2 = text_1 + piece_2;
    let list_2 = list_1.push(piece_2);
    one_more_piece(text_1, list_1, piece_2);
    let piece_3 = joined(example.tags, ", "@);
    let text_3 = text_2 + piece_3;
    let list_3 = list_2.push(piece_3);
    one_more_piece(text_2, list_2, piece_3);
    let piece_4 = "]\n"@;
    let text_4 = text_3 + piece_4;
    let list_4 = list_3.push(piece_4);
    one_more_piece(text_3, list_3, piece_4);
    assert(text_4 == example_line(example));
    assert(list_4 =~= seq![
        "- "@,
        example.title,
        "  →  ["@,
        joined(example.tags, ", "@),
        "]\n"@,
    ]);
}

// ---- Chains ----

/// Whether a row of a reply gives a step: its title, how long it takes, and how long after the one
/// before it starts.
pub open spec fn gives_step(row: Json, step: crate::model::SubTaskProposalView) -> bool {
    &&& row.field("title"@) == Json::Text(step.title)
    &&& row.field("duration_minutes"@) == Json::Integer(step.duration_minutes as int)
    &&& row.field("offset_minutes"@) == Json::Integer(step.offset_minutes as int)
    &&& !step.clamped
}

/// The rows of a reply give their steps one for one and in order; where each gives one, they are
/// read.
pub proof fn rows_give_their_steps(
    rows: Seq<Json>,
    steps: Seq<crate::model::SubTaskProposalView>,
    n: int,
)
    requires
        0 <= n <= rows.len(),
    ensures
        row_steps(rows, n) == Ok::<Seq<crate::model::SubTaskProposalView>, Seq<char>>(steps) <==> {
            &&& steps.len() == n
            &&& forall|i: int| 0 <= i < n ==> gives_step(rows[i], #[trigger] steps[i])
        },
    decreases n,
{
    if n > 0 {
        if row_steps(rows, n) == Ok::<Seq<crate::model::SubTaskProposalView>, Seq<char>>(steps) {
            let before = row_steps(rows, n - 1)->Ok_0;
            rows_give_their_steps(rows, before, n - 1);
            assert(steps == before.push(row_step(rows[n - 1], n - 1)->Ok_0));
            assert forall|i: int| 0 <= i < n implies gives_step(rows[i], #[trigger] steps[i]) by {
                if i < n - 1 {
                    assert(before[i] == steps[i]);
                }
            }
        }
        if steps.len() == n && forall|i: int| 0 <= i < n ==> gives_step(rows[i], #[trigger] steps[i]) {
            let before = steps.drop_last();
            assert forall|i: int| 0 <= i < n - 1 implies gives_step(rows[i], #[trigger] before[i]) by {
                assert(before[i] == steps[i]);
            }
            rows_give_their_steps(rows, before, n - 1);
            assert(gives_step(rows[n - 1], steps[n - 1]));
            assert(steps =~= before.push(steps[n - 1]));
        }
    } else {
        if steps.len() == 0 {
            assert(steps =~= Seq::empty());
        }
    }
}

/// A reply with no steps declines, and is read as an empty chain.
pub proof fn empty_reply_declines(value: Json)
    requires
        value.field("subtasks"@) == Json::Array(Seq::empty()),
    ensures
        crate::review::decomposition_in(value) is Ok,
        crate::review::decomposition_in(value)->Ok_0.len() == 0,
{
}

} // verus!

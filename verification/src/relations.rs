//! Dependencies and constraints between tasks.

use crate::decompose::list_has;
use crate::ids::{hyphenated_id, hyphenated_text, Id};
use crate::model::{AfterConstraint, Store, StoreView, Task, TaskView};
use crate::resolve::{resolve_task_id, resolved_task};
use crate::text::{fails_with, join, joined, texts};
use crate::time::{longest, minutes_in_nanos, Duration};
use vstd::prelude::*;
use vstd::string::*;

verus! {

/// Why tasks or preferences cannot stand together.
#[derive(Debug, PartialEq, Eq)]
pub enum CoreError {
    DependencyCycle { involved: Vec<Id> },
    PreferenceCycle { involved: Vec<Id> },
    Other(String),
}

/// The rules of the planner's core on what can stand together in a store: the relations
/// between tasks in time, and the preferences, which it ranks from high to low.
pub trait CoreRules {
    fn validate_temporal_dependencies(&self, store: &Store) -> Result<(), CoreError>;

    fn resolve_preferences(&self, store: &Store) -> Result<Vec<Vec<Id>>, CoreError>;
}

/// Whether the rules judge the relations in a store so.
pub open spec fn time_verdict<R: CoreRules>(
    rules: R,
    store: StoreView,
    verdict: Result<(), CoreError>,
) -> bool {
    exists|s: Store|
        s@ == store && #[trigger] call_ensures(
            R::validate_temporal_dependencies,
            (&rules, &s),
            verdict,
        )
}

// ---- Words ----

/// Ids in full, with commas between them.
pub open spec fn id_list(ids: Seq<Id>) -> Seq<char> {
    joined(ids.map_values(|id: Id| hyphenated_id(id)), ", "@)
}

/// Ids in full, with commas between them.
pub fn display_ids(ids: &Vec<Id>) -> (text: String)
    ensures
        text@ == id_list(ids@),
{
    let mut parts: Vec<String> = Vec::new();
    let mut i: usize = 0;
    while i < ids.len()
        invariant
            i <= ids@.len(),
            parts@.len() == i,
            forall|k: int| 0 <= k < i ==> (#[trigger] parts@[k])@ == hyphenated_id(ids@[k]),
        decreases ids@.len() - i,
    {
        parts.push(hyphenated_text(ids[i]));
        i = i + 1;
    }
    assert(texts(parts@) =~= ids@.map_values(|id: Id| hyphenated_id(id)));
    join(&parts, ", ")
}

/// An error as it is shown to developers.
pub open spec fn error_debug(error: CoreError) -> Seq<char> {
    match error {
        CoreError::DependencyCycle { involved } => "DependencyCycle { involved: ["@ + id_list(
            involved@,
        ) + "] }"@,
        CoreError::PreferenceCycle { involved } => "PreferenceCycle { involved: ["@ + id_list(
            involved@,
        ) + "] }"@,
        CoreError::Other(words) => words@,
    }
}

pub fn debug_text(error: &CoreError) -> (text: String)
    ensures
        text@ == error_debug(*error),
{
    match error {
        CoreError::DependencyCycle { involved } => {
            let mut text = "DependencyCycle { involved: [".to_owned();
            text.append(display_ids(involved).as_str());
            text.append("] }");
            text
        },
        CoreError::PreferenceCycle { involved } => {
            let mut text = "PreferenceCycle { involved: [".to_owned();
            text.append(display_ids(involved).as_str());
            text.append("] }");
            text
        },
        CoreError::Other(words) => words.clone(),
    }
}

/// The words for relations that cannot stand together.
pub open spec fn dependency_words(error: CoreError) -> Seq<char> {
    match error {
        CoreError::DependencyCycle { involved } => "dependency cycle involving tasks: "@ + id_list(
            involved@,
        ),
        _ => "dependency validation failed: "@ + error_debug(error),
    }
}

fn dependency_text(error: &CoreError) -> (text: String)
    ensures
        text@ == dependency_words(*error),
{
    match error {
        CoreError::DependencyCycle { involved } => {
            let mut text = "dependency cycle involving tasks: ".to_owned();
            text.append(display_ids(involved).as_str());
            text
        },
        _ => {
            let mut text = "dependency validation failed: ".to_owned();
            text.append(debug_text(error).as_str());
            text
        },
    }
}

/// The words for a task that was related to itself.
pub open spec fn self_pair_words(id: Id, kind: Seq<char>) -> Seq<char> {
    "task "@ + hyphenated_id(id) + " cannot have a self-"@ + kind
}

/// Refuses to relate a task to itself.
pub fn reject_self_pair(left: Id, right: Id, kind: &str) -> (r: Result<(), String>)
    ensures
        if left == right {
            fails_with(r, self_pair_words(left, kind@))
        } else {
            r is Ok
        },
{
    if left == right {
        let mut words = "task ".to_owned();
        words.append(hyphenated_text(left).as_str());
        words.append(" cannot have a self-");
        words.append(kind);
        Err(words)
    } else {
        Ok(())
    }
}

/// The words for a task that is not there.
pub open spec fn no_task_words(id: Id) -> Seq<char> {
    "no task matches "@ + hyphenated_id(id)
}

pub(crate) fn no_task_text(id: Id) -> (text: String)
    ensures
        text@ == no_task_words(id),
{
    let mut words = "no task matches ".to_owned();
    words.append(hyphenated_text(id).as_str());
    words
}

// ---- Dependencies ----

impl StoreView {
    /// The store with a task's dependencies set.
    pub open spec fn with_blocked_by(self, id: Id, blocked_by: Seq<Id>) -> StoreView {
        self.with_task(id, TaskView { blocked_by, ..self.tasks[id] })
    }

    /// The store with a task's constraints set.
    pub open spec fn with_after(self, id: Id, after: Seq<AfterConstraint>) -> StoreView {
        self.with_task(id, TaskView { after, ..self.tasks[id] })
    }
}

/// A change of relations is kept if the rules allow it, and otherwise taken back.
pub open spec fn kept_if_allowed<R: CoreRules>(
    rules: R,
    store: StoreView,
    proposed: StoreView,
    next: StoreView,
    r: Result<(), String>,
) -> bool {
    exists|verdict: Result<(), CoreError>|
        {
            &&& #[trigger] time_verdict(rules, proposed, verdict)
            &&& match verdict {
                Ok(()) => r is Ok && next == proposed,
                Err(error) => fails_with(r, dependency_words(error)) && next == store,
            }
        }
}

/// Sets the dependencies of a task, if the rules allow it.
fn commit_dependencies<R: CoreRules>(
    store: &mut Store,
    task_id: Id,
    blocked_by: Vec<Id>,
    rules: &R,
) -> (r: Result<(), String>)
    requires
        old(store)@.tasks.contains_key(task_id),
    ensures
        old(store)@.wf() ==> final(store)@.wf(),
        kept_if_allowed(
            *rules,
            old(store)@,
            old(store)@.with_blocked_by(task_id, blocked_by@),
            final(store)@,
            r,
        ),
{
    let mut task: Task = store.take_task(task_id).unwrap();
    let previous = task.blocked_by.clone();
    assert(previous@ =~= task.blocked_by@);
    task.blocked_by = blocked_by;
    store.put_task(task_id, task);
    let ghost proposed = old(store)@.with_blocked_by(task_id, blocked_by@);
    assert(store@.tasks =~= proposed.tasks);
    let verdict = rules.validate_temporal_dependencies(store);
    assert(time_verdict(*rules, proposed, verdict));
    match verdict {
        Ok(()) => Ok(()),
        Err(error) => {
            let mut task: Task = store.take_task(task_id).unwrap();
            task.blocked_by = previous;
            store.put_task(task_id, task);
            assert(store@.tasks =~= old(store)@.tasks);
            Err(dependency_text(&error))
        },
    }
}

/// What becomes of a store when a dependency is added.
pub open spec fn dependency_added<R: CoreRules>(
    rules: R,
    store: StoreView,
    blocked: Id,
    blocker: Id,
    next: StoreView,
    r: Result<(), String>,
) -> bool {
    if blocked == blocker {
        fails_with(r, self_pair_words(blocked, "dependency"@)) && next == store
    } else if !store.tasks.contains_key(blocked) {
        fails_with(r, no_task_words(blocked)) && next == store
    } else if store.tasks[blocked].blocked_by.contains(blocker) {
        r is Ok && next == store
    } else {
        kept_if_allowed(
            rules,
            store,
            store.with_blocked_by(blocked, store.tasks[blocked].blocked_by.push(blocker)),
            next,
            r,
        )
    }
}

/// Makes a task wait for another.
pub fn dep_add_ids<R: CoreRules>(store: &mut Store, blocked: Id, blocker: Id, rules: &R) -> (r:
    Result<(), String>)
    ensures
        old(store)@.wf() ==> final(store)@.wf(),
        dependency_added(*rules, old(store)@, blocked, blocker, final(store)@, r),
{
    match reject_self_pair(blocked, blocker, "dependency") {
        Ok(()) => {},
        Err(words) => {
            return Err(words);
        },
    }
    let mut blocked_by: Vec<Id> = match store.task(blocked) {
        Some(task) => {
            if list_has(&task.blocked_by, blocker) {
                return Ok(());
            }
            let copy = task.blocked_by.clone();
            assert(copy@ =~= task.blocked_by@);
            copy
        },
        None => {
            return Err(no_task_text(blocked));
        },
    };
    blocked_by.push(blocker);
    commit_dependencies(store, blocked, blocked_by, rules)
}

/// What becomes of a store when two tasks, each named by a prefix, are related.
pub open spec fn with_both(
    store: StoreView,
    first: Seq<char>,
    second: Seq<char>,
    next: StoreView,
    r: Result<(), String>,
    related: spec_fn(Id, Id) -> bool,
) -> bool {
    match resolved_task(store, first) {
        Err(words) => fails_with(r, words) && next == store,
        Ok(a) => match resolved_task(store, second) {
            Err(words) => fails_with(r, words) && next == store,
            Ok(b) => related(a, b),
        },
    }
}

/// Makes a task wait for another, each named by a prefix.
pub fn dep_add<R: CoreRules>(
    store: &mut Store,
    task_prefix: &str,
    blocker_prefix: &str,
    rules: &R,
) -> (r: Result<(), String>)
    ensures
        old(store)@.wf() ==> final(store)@.wf(),
        with_both(
            old(store)@,
            task_prefix@,
            blocker_prefix@,
            final(store)@,
            r,
            |a: Id, b: Id| dependency_added(*rules, old(store)@, a, b, final(store)@, r),
        ),
{
    let blocked: Id = match resolve_task_id(store, task_prefix) {
        Ok(id) => id,
        Err(words) => {
            return Err(words);
        },
    };
    let blocker: Id = match resolve_task_id(store, blocker_prefix) {
        Ok(id) => id,
        Err(words) => {
            return Err(words);
        },
    };
    dep_add_ids(store, blocked, blocker, rules)
}

/// A list of ids without one of them.
pub open spec fn without_id(list: Seq<Id>, id: Id) -> Seq<Id> {
    list.filter(|x: Id| x != id)
}

fn drop_id(list: &Vec<Id>, id: Id) -> (kept: Vec<Id>)
    ensures
        kept@ == without_id(list@, id),
{
    let mut kept: Vec<Id> = Vec::new();
    let mut i: usize = 0;
    reveal(Seq::filter);
    assert(list@.take(0) =~= Seq::empty());
    while i < list.len()
        invariant
            i <= list@.len(),
            kept@ == without_id(list@.take(i as int), id),
        decreases list@.len() - i,
    {
        reveal(Seq::filter);
        assert(list@.take(i + 1).drop_last() =~= list@.take(i as int));
        if list[i] != id {
            kept.push(list[i]);
        }
        i = i + 1;
    }
    assert(list@.take(list@.len() as int) =~= list@);
    kept
}

/// Lets a task no longer wait for another, each named by a prefix.
pub fn dep_rm(store: &mut Store, task_prefix: &str, blocker_prefix: &str) -> (r: Result<(), String>)
    ensures
        old(store)@.wf() ==> final(store)@.wf(),
        with_both(
            old(store)@,
            task_prefix@,
            blocker_prefix@,
            final(store)@,
            r,
            |a: Id, b: Id|
                r is Ok && final(store)@ == old(store)@.with_blocked_by(
                    a,
                    without_id(old(store)@.tasks[a].blocked_by, b),
                ),
        ),
{
    let task_id: Id = match resolve_task_id(store, task_prefix) {
        Ok(id) => id,
        Err(words) => {
            return Err(words);
        },
    };
    let blocker_id: Id = match resolve_task_id(store, blocker_prefix) {
        Ok(id) => id,
        Err(words) => {
            return Err(words);
        },
    };
    let mut task: Task = store.take_task(task_id).unwrap();
    task.blocked_by = drop_id(&task.blocked_by, blocker_id);
    store.put_task(task_id, task);
    assert(store@.tasks =~= old(store)@.with_blocked_by(
        task_id,
        without_id(old(store)@.tasks[task_id].blocked_by, blocker_id),
    ).tasks);
    Ok(())
}

/// The tasks that the first `n` prefixes name, or what is wrong with the first bad one.
pub open spec fn resolved_tasks(store: StoreView, prefixes: Seq<Seq<char>>, n: int) -> Result<
    Seq<Id>,
    Seq<char>,
>
    decreases n,
{
    if n <= 0 {
        Ok(Seq::empty())
    } else {
        match resolved_tasks(store, prefixes, n - 1) {
            Ok(ids) => match resolved_task(store, prefixes[n - 1]) {
                Ok(id) => Ok(ids.push(id)),
                Err(words) => Err(words),
            },
            Err(words) => Err(words),
        }
    }
}

proof fn bad_prefix_spoils_all(store: StoreView, prefixes: Seq<Seq<char>>, n: int, m: int)
    requires
        0 <= n <= m,
        resolved_tasks(store, prefixes, n) is Err,
    ensures
        resolved_tasks(store, prefixes, m) == resolved_tasks(store, prefixes, n),
    decreases m - n,
{
    if n < m {
        bad_prefix_spoils_all(store, prefixes, n, m - 1);
    }
}

/// Whether a call gave the expected list or words.
pub open spec fn gives_list<T>(r: Result<Vec<T>, String>, expected: Result<Seq<T>, Seq<char>>) -> bool {
    match (r, expected) {
        (Ok(list), Ok(items)) => list@ == items,
        (Err(e), Err(words)) => e@ == words,
        _ => false,
    }
}

/// Finds the tasks that prefixes name.
pub fn resolve_task_ids(store: &Store, prefixes: &Vec<String>) -> (r: Result<Vec<Id>, String>)
    ensures
        gives_list(r, resolved_tasks(store@, texts(prefixes@), prefixes@.len() as int)),
{
    let mut ids: Vec<Id> = Vec::new();
    let mut i: usize = 0;
    while i < prefixes.len()
        invariant
            i <= prefixes@.len(),
            resolved_tasks(store@, texts(prefixes@), i as int) == Ok::<Seq<Id>, Seq<char>>(ids@),
        decreases prefixes@.len() - i,
    {
        match resolve_task_id(store, prefixes[i].as_str()) {
            Ok(id) => ids.push(id),
            Err(words) => {
                proof {
                    bad_prefix_spoils_all(store@, texts(prefixes@), i + 1, prefixes@.len() as int);
                }
                return Err(words);
            },
        }
        i = i + 1;
    }
    Ok(ids)
}

/// What becomes of a store when a task's dependencies are set.
pub open spec fn dependencies_set<R: CoreRules>(
    rules: R,
    store: StoreView,
    task_prefix: Seq<char>,
    blocker_prefixes: Seq<Seq<char>>,
    next: StoreView,
    r: Result<(), String>,
) -> bool {
    match resolved_task(store, task_prefix) {
        Err(words) => fails_with(r, words) && next == store,
        Ok(id) => match resolved_tasks(store, blocker_prefixes, blocker_prefixes.len() as int) {
            Err(words) => fails_with(r, words) && next == store,
            Ok(blockers) => if blockers.contains(id) {
                fails_with(r, "task "@ + hyphenated_id(id) + " cannot depend on itself"@) && next
                    == store
            } else {
                kept_if_allowed(rules, store, store.with_blocked_by(id, blockers), next, r)
            },
        },
    }
}

/// Sets what a task waits for, each task named by a prefix.
pub fn dep_set<R: CoreRules>(
    store: &mut Store,
    task_prefix: &str,
    blocker_prefixes: Vec<String>,
    rules: &R,
) -> (r: Result<(), String>)
    ensures
        old(store)@.wf() ==> final(store)@.wf(),
        dependencies_set(
            *rules,
            old(store)@,
            task_prefix@,
            texts(blocker_prefixes@),
            final(store)@,
            r,
        ),
{
    let task_id: Id = match resolve_task_id(store, task_prefix) {
        Ok(id) => id,
        Err(words) => {
            return Err(words);
        },
    };
    let blocked_by: Vec<Id> = match resolve_task_ids(store, &blocker_prefixes) {
        Ok(ids) => ids,
        Err(words) => {
            return Err(words);
        },
    };
    if list_has(&blocked_by, task_id) {
        let mut words = "task ".to_owned();
        words.append(hyphenated_text(task_id).as_str());
        words.append(" cannot depend on itself");
        return Err(words);
    }
    commit_dependencies(store, task_id, blocked_by, rules)
}

// ---- Constraints in time ----

/// Constraints without those on one task.
pub open spec fn without_reference(after: Seq<AfterConstraint>, id: Id) -> Seq<AfterConstraint> {
    after.filter(|c: AfterConstraint| c.task_id != id)
}

fn drop_reference(after: &Vec<AfterConstraint>, id: Id) -> (kept: Vec<AfterConstraint>)
    ensures
        kept@ == without_reference(after@, id),
{
    let mut kept: Vec<AfterConstraint> = Vec::new();
    let mut i: usize = 0;
    reveal(Seq::filter);
    assert(after@.take(0) =~= Seq::empty());
    while i < after.len()
        invariant
            i <= after@.len(),
            kept@ == without_reference(after@.take(i as int), id),
        decreases after@.len() - i,
    {
        reveal(Seq::filter);
        assert(after@.take(i + 1).drop_last() =~= after@.take(i as int));
        if after[i].task_id != id {
            kept.push(after[i]);
        }
        i = i + 1;
    }
    assert(after@.take(after@.len() as int) =~= after@);
    kept
}

/// Sets the constraints of a task, if the rules allow it.
fn commit_after<R: CoreRules>(
    store: &mut Store,
    task_id: Id,
    after: Vec<AfterConstraint>,
    rules: &R,
) -> (r: Result<(), String>)
    requires
        old(store)@.tasks.contains_key(task_id),
    ensures
        old(store)@.wf() ==> final(store)@.wf(),
        kept_if_allowed(
            *rules,
            old(store)@,
            old(store)@.with_after(task_id, after@),
            final(store)@,
            r,
        ),
{
    let mut task: Task = store.take_task(task_id).unwrap();
    let previous = task.after.clone();
    assert(previous@ =~= task.after@);
    task.after = after;
    store.put_task(task_id, task);
    let ghost proposed = old(store)@.with_after(task_id, after@);
    assert(store@.tasks =~= proposed.tasks);
    let verdict = rules.validate_temporal_dependencies(store);
    assert(time_verdict(*rules, proposed, verdict));
    match verdict {
        Ok(()) => Ok(()),
        Err(error) => {
            let mut task: Task = store.take_task(task_id).unwrap();
            task.after = previous;
            store.put_task(task_id, task);
            assert(store@.tasks =~= old(store)@.tasks);
            Err(dependency_text(&error))
        },
    }
}

/// What becomes of a store when a constraint is added. A second one on the same task
/// replaces the first.
pub open spec fn constraint_added<R: CoreRules>(
    rules: R,
    store: StoreView,
    task: Id,
    reference: Id,
    offset_minutes: int,
    next: StoreView,
    r: Result<(), String>,
) -> bool {
    if task == reference {
        fails_with(r, self_pair_words(task, "after-reference"@)) && next == store
    } else if !(-longest() <= minutes_in_nanos(offset_minutes) <= longest()) {
        fails_with(r, "after offset minutes are out of range"@) && next == store
    } else {
        kept_if_allowed(
            rules,
            store,
            store.with_after(
                task,
                without_reference(store.tasks[task].after, reference).push(
                    AfterConstraint {
                        task_id: reference,
                        offset: Duration::of(minutes_in_nanos(offset_minutes)),
                    },
                ),
            ),
            next,
            r,
        )
    }
}

/// Lets a task start no earlier than some time after another one ends. A second call for
/// the same reference replaces its offset.
pub fn after_add<R: CoreRules>(
    store: &mut Store,
    task_prefix: &str,
    reference_prefix: &str,
    offset_minutes: i64,
    rules: &R,
) -> (r: Result<(), String>)
    ensures
        old(store)@.wf() ==> final(store)@.wf(),
        with_both(
            old(store)@,
            task_prefix@,
            reference_prefix@,
            final(store)@,
            r,
            |a: Id, b: Id|
                constraint_added(
                    *rules,
                    old(store)@,
                    a,
                    b,
                    offset_minutes as int,
                    final(store)@,
                    r,
                ),
        ),
{
    let task_id: Id = match resolve_task_id(store, task_prefix) {
        Ok(id) => id,
        Err(words) => {
            return Err(words);
        },
    };
    let reference_id: Id = match resolve_task_id(store, reference_prefix) {
        Ok(id) => id,
        Err(words) => {
            return Err(words);
        },
    };
    match reject_self_pair(task_id, reference_id, "after-reference") {
        Ok(()) => {},
        Err(words) => {
            return Err(words);
        },
    }
    let offset = match Duration::try_minutes(offset_minutes) {
        Some(d) => d,
        None => {
            return Err("after offset minutes are out of range".to_owned());
        },
    };
    let mut after = match store.task(task_id) {
        Some(task) => drop_reference(&task.after, reference_id),
        None => Vec::new(),
    };
    after.push(AfterConstraint { task_id: reference_id, offset });
    commit_after(store, task_id, after, rules)
}

/// Removes the constraint of a task on another, each named by a prefix.
pub fn after_rm<R: CoreRules>(
    store: &mut Store,
    task_prefix: &str,
    reference_prefix: &str,
    rules: &R,
) -> (r: Result<(), String>)
    ensures
        old(store)@.wf() ==> final(store)@.wf(),
        with_both(
            old(store)@,
            task_prefix@,
            reference_prefix@,
            final(store)@,
            r,
            |a: Id, b: Id|
                kept_if_allowed(
                    *rules,
                    old(store)@,
                    old(store)@.with_after(a, without_reference(old(store)@.tasks[a].after, b)),
                    final(store)@,
                    r,
                ),
        ),
{
    let task_id: Id = match resolve_task_id(store, task_prefix) {
        Ok(id) => id,
        Err(words) => {
            return Err(words);
        },
    };
    let reference_id: Id = match resolve_task_id(store, reference_prefix) {
        Ok(id) => id,
        Err(words) => {
            return Err(words);
        },
    };
    let after = match store.task(task_id) {
        Some(task) => drop_reference(&task.after, reference_id),
        None => Vec::new(),
    };
    commit_after(store, task_id, after, rules)
}

/// A second constraint on the same reference replaces the first one.
pub proof fn second_constraint_replaces_the_first(
    after: Seq<AfterConstraint>,
    first: AfterConstraint,
    second: AfterConstraint,
)
    requires
        first.task_id == second.task_id,
    ensures
        without_reference(
            without_reference(after, first.task_id).push(first),
            second.task_id,
        ).push(second) == without_reference(after, first.task_id).push(second),
{
    let kept = without_reference(after, first.task_id);
    reveal(Seq::filter);
    assert(kept.push(first).drop_last() =~= kept);
    kept_stay(after, first.task_id);
}

proof fn kept_stay(after: Seq<AfterConstraint>, id: Id)
    ensures
        without_reference(without_reference(after, id), id) == without_reference(after, id),
    decreases after.len(),
{
    reveal(Seq::filter);
    if after.len() > 0 {
        kept_stay(after.drop_last(), id);
        let before = without_reference(after.drop_last(), id);
        if after.last().task_id != id {
            assert(before.push(after.last()).drop_last() =~= before);
        }
    }
}

} // verus!

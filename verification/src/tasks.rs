//! Adding, listing and closing tasks and objectives.

use crate::ids::{is_drawn, new_id, Id};
use crate::maps;
use crate::model::{
    ActualStatus, DeferPolicy, FactKind, LogEntry, LogEntryKind, LogEntryKindView, LogEntryView,
    Objective, ObjectiveStatus, ObjectiveView, Provenance, ProvenanceView, Store, StoreView, Task,
    TaskStatus, TaskView, Tier,
};
use crate::parts::{closes_with, piece_stands, stands_at};
use crate::relations::{resolve_task_ids, resolved_tasks};
use crate::resolve::{
    gives, resolve_objective_id, resolve_task_id, resolved_objective, resolved_task,
};
use crate::text::{fails_with, same_text, text_option, texts};
use crate::time::{
    can_shift, checked_add, date_value, longest, minutes_in_nanos, read_date, read_rfc3339,
    rfc3339_value, shifted,
    whole_minutes, Duration, TimeWindow, Timestamp,
};
use vstd::prelude::*;
use vstd::string::*;

verus! {

/// What is given to add a task.
#[derive(Debug)]
pub struct AddInput {
    pub title: String,
    pub duration_minutes: i64,
    pub tier: Tier,
    pub affect_cost: i32,
    pub due: Option<Timestamp>,
    pub earliest_start: Option<Timestamp>,
    pub must_finish_by: Option<Timestamp>,
    pub pin: Option<Timestamp>,
    pub category: Option<String>,
    pub transparent: bool,
    pub reminders: Vec<i32>,
    pub objective_prefixes: Vec<String>,
    pub blocked_by_prefixes: Vec<String>,
}

/// What is given to add an objective.
#[derive(Debug)]
pub struct ObjectiveAddInput {
    pub title: String,
    pub tier: Tier,
    pub target_date: Option<Timestamp>,
}

/// A task in a listing.
#[derive(Debug)]
pub struct TaskRow {
    pub id: Id,
    pub status: TaskStatus,
    pub tier: Tier,
    pub duration_minutes: i64,
    pub affect_cost: i32,
    pub due: Option<Timestamp>,
    pub title: String,
}

/// A task to add, as it is typed: the tier and the times are words.
#[derive(Debug)]
pub struct AddRequest {
    pub title: String,
    pub duration: i64,
    pub tier: String,
    pub affect: i32,
    pub due: Option<String>,
    pub earliest_start: Option<String>,
    pub must_finish_by: Option<String>,
    pub pin: Option<String>,
    pub category: Option<String>,
    pub transparent: bool,
    pub reminders: Vec<i32>,
    pub objective: Vec<String>,
    pub blocked_by: Vec<String>,
}

// ---- Names ----

/// The tier of a name.
pub open spec fn tier_named(name: Seq<char>) -> Option<Tier> {
    if name == "semi-public"@ {
        Some(Tier::SemiPublic)
    } else if name == "user-shared"@ {
        Some(Tier::UserShared)
    } else if name == "top-secret"@ {
        Some(Tier::TopSecret)
    } else {
        None
    }
}

/// Reads the name of a tier.
pub fn parse_tier(value: &str) -> (r: Result<Tier, String>)
    ensures
        match tier_named(value@) {
            Some(tier) => r == Ok::<Tier, String>(tier),
            None => fails_with(r, "unknown tier "@ + value@),
        },
{
    if same_text(value, "semi-public") {
        Ok(Tier::SemiPublic)
    } else if same_text(value, "user-shared") {
        Ok(Tier::UserShared)
    } else if same_text(value, "top-secret") {
        Ok(Tier::TopSecret)
    } else {
        let mut words = "unknown tier ".to_owned();
        words.append(value);
        Err(words)
    }
}

/// The name of a tier.
pub open spec fn tier_text(tier: Tier) -> Seq<char> {
    match tier {
        Tier::SemiPublic => "semi-public"@,
        Tier::UserShared => "user-shared"@,
        Tier::TopSecret => "top-secret"@,
    }
}

/// The name of a tier.
pub fn tier_name(tier: Tier) -> (name: &'static str)
    ensures
        name@ == tier_text(tier),
{
    match tier {
        Tier::SemiPublic => "semi-public",
        Tier::UserShared => "user-shared",
        Tier::TopSecret => "top-secret",
    }
}

/// The name of a tier is read back as the tier.
pub proof fn tier_name_is_read_back(tier: Tier)
    ensures
        tier_named(tier_text(tier)) == Some(tier),
{
    reveal_strlit("semi-public");
    reveal_strlit("user-shared");
    reveal_strlit("top-secret");
    assert("semi-public"@[0] != "user-shared"@[0]);
    assert("semi-public"@[0] != "top-secret"@[0]);
    assert("user-shared"@[0] != "top-secret"@[0]);
}

/// The name of a status.
pub open spec fn status_text(status: TaskStatus) -> Seq<char> {
    match status {
        TaskStatus::Backlog => "backlog"@,
        TaskStatus::Scheduled => "scheduled"@,
        TaskStatus::Active => "active"@,
        TaskStatus::Done => "done"@,
        TaskStatus::Deferred => "deferred"@,
    }
}

/// The name of a status.
pub fn task_status_name(status: TaskStatus) -> (name: &'static str)
    ensures
        name@ == status_text(status),
{
    match status {
        TaskStatus::Backlog => "backlog",
        TaskStatus::Scheduled => "scheduled",
        TaskStatus::Active => "active",
        TaskStatus::Done => "done",
        TaskStatus::Deferred => "deferred",
    }
}

/// The instant that an RFC 3339 text denotes, or words that name the text.
pub open spec fn datetime_in(text: Seq<char>) -> Result<Timestamp, Seq<char>> {
    match rfc3339_value(text) {
        Ok((secs, nanos)) => Ok(Timestamp::of(secs, nanos)),
        Err(words) => Err("invalid RFC3339 datetime "@ + text + ": "@ + words),
    }
}

/// Reads a date and time in RFC 3339.
pub fn parse_datetime(value: &str) -> (r: Result<Timestamp, String>)
    ensures
        gives(r, datetime_in(value@)),
{
    broadcast use Timestamp::of_its_parts;

    match read_rfc3339(value) {
        Ok(t) => Ok(t),
        Err(error) => Err(datetime_words(value, error.as_str())),
    }
}

/// The words for a text that is no date and time.
pub fn datetime_words(value: &str, error: &str) -> (words: String)
    ensures
        words@ == "invalid RFC3339 datetime "@ + value@ + ": "@ + error@,
        stands_at(words@, 25, value@),
        closes_with(words@, error@),
{
    let mut words = "invalid RFC3339 datetime ".to_owned();
    words.append(value);
    words.append(": ");
    words.append(error);
    proof {
        reveal_strlit("invalid RFC3339 datetime ");
        let front = "invalid RFC3339 datetime "@ + value@ + ": "@;
        assert(words@ + Seq::<char>::empty() =~= words@);
        piece_stands(front, error@, Seq::empty());
        assert(words@.subrange(25, 25 + value@.len() as int) =~= value@);
    }
    words
}

/// Midnight UTC of the date that a text denotes, or words that name the text.
pub open spec fn start_date_in(text: Seq<char>) -> Result<Timestamp, Seq<char>> {
    match date_value(text) {
        Ok(secs) => Ok(Timestamp::of(secs, 0)),
        Err(words) => Err("invalid date "@ + text + ": "@ + words),
    }
}

/// Reads the date from which routines make tasks.
pub fn parse_start_date(value: &str) -> (r: Result<Timestamp, String>)
    ensures
        gives(r, start_date_in(value@)),
{
    broadcast use Timestamp::of_its_parts;

    match read_date(value) {
        Ok(t) => {
            assert(Timestamp::of(t.secs(), t.nanos()) == t);
            Ok(t)
        },
        Err(error) => {
            let mut words = "invalid date ".to_owned();
            words.append(value);
            words.append(": ");
            words.append(error.as_str());
            Err(words)
        },
    }
}

/// Reads a date and time, if there is one.
pub fn parse_optional_datetime(value: Option<String>) -> (r: Result<Option<Timestamp>, String>)
    ensures
        match value {
            None => r == Ok::<Option<Timestamp>, String>(None),
            Some(text) => match datetime_in(text@) {
                Ok(t) => r == Ok::<Option<Timestamp>, String>(Some(t)),
                Err(words) => fails_with(r, words),
            },
        },
{
    match value {
        None => Ok(None),
        Some(text) => match parse_datetime(text.as_str()) {
            Ok(t) => Ok(Some(t)),
            Err(words) => Err(words),
        },
    }
}

// ---- Adding ----

/// The objectives that the first `n` prefixes name, or what is wrong with the first bad one.
pub open spec fn resolved_objectives(store: StoreView, prefixes: Seq<Seq<char>>, n: int) -> Result<
    Seq<Id>,
    Seq<char>,
>
    decreases n,
{
    if n <= 0 {
        Ok(Seq::empty())
    } else {
        match resolved_objectives(store, prefixes, n - 1) {
            Ok(ids) => match resolved_objective(store, prefixes[n - 1]) {
                Ok(id) => Ok(ids.push(id)),
                Err(words) => Err(words),
            },
            Err(words) => Err(words),
        }
    }
}

proof fn bad_prefix_spoils_all(store: StoreView, prefixes: Seq<Seq<char>>, n: int, m: int)
    requires
        0 <= n <= m,
        resolved_objectives(store, prefixes, n) is Err,
    ensures
        resolved_objectives(store, prefixes, m) == resolved_objectives(store, prefixes, n),
    decreases m - n,
{
    if n < m {
        bad_prefix_spoils_all(store, prefixes, n, m - 1);
    }
}

fn resolve_objective_ids(store: &Store, prefixes: &Vec<String>) -> (r: Result<Vec<Id>, String>)
    ensures
        match resolved_objectives(store@, texts(prefixes@), prefixes@.len() as int) {
            Ok(ids) => r is Ok && r->Ok_0@ == ids,
            Err(words) => fails_with(r, words),
        },
{
    let mut ids: Vec<Id> = Vec::new();
    let mut i: usize = 0;
    while i < prefixes.len()
        invariant
            i <= prefixes@.len(),
            resolved_objectives(store@, texts(prefixes@), i as int) == Ok::<Seq<Id>, Seq<char>>(
                ids@,
            ),
        decreases prefixes@.len() - i,
    {
        match resolve_objective_id(store, prefixes[i].as_str()) {
            Ok(id) => ids.push(id),
            Err(words) => {
                proof {
                    bad_prefix_spoils_all(store@, texts(prefixes@), i + 1, prefixes@.len() as int);
                }
                return Err(words);
            },
        }
        i = i + 1;
    }
    Ok(ids)
}

/// The window of a task that is pinned to a start.
pub open spec fn pinned_window(start: Timestamp, minutes: int) -> TimeWindow {
    let end = shifted(start.secs(), start.nanos(), minutes_in_nanos(minutes));
    TimeWindow { start, end: Timestamp::of(end.0, end.1) }
}

/// The task that an input describes.
pub open spec fn added_task(
    input: AddInput,
    id: Id,
    objective_ids: Seq<Id>,
    blocked_by: Seq<Id>,
) -> TaskView {
    TaskView {
        id,
        tier: input.tier,
        title: input.title@,
        detail: None,
        objective_ids,
        skills: Seq::empty(),
        tags: Seq::empty(),
        affect_cost: input.affect_cost,
        est_duration: Duration::of(minutes_in_nanos(input.duration_minutes as int)),
        due: input.due,
        earliest_start: input.earliest_start,
        category: text_option(input.category),
        pinned: match input.pin {
            Some(start) => Some(pinned_window(start, input.duration_minutes as int)),
            None => None,
        },
        transparent: input.transparent,
        reminders: input.reminders@,
        blocked_by,
        after: Seq::empty(),
        must_finish_by: input.must_finish_by,
        defer_policy: DeferPolicy::RescheduleAsap,
        status: if input.pin is Some {
            TaskStatus::Scheduled
        } else {
            TaskStatus::Backlog
        },
        provenance: ProvenanceView::Manual,
        commitment: None,
    }
}

/// Whether that many minutes make a duration, and a task that is pinned to a start ends at an
/// instant.
pub open spec fn duration_fits(minutes: int, pin: Option<Timestamp>) -> bool {
    &&& -longest() <= minutes_in_nanos(minutes) <= longest()
    &&& pin matches Some(start) ==> can_shift(start, minutes_in_nanos(minutes))
}

/// The objectives and the blockers that an input names, or the words for the first name that
/// cannot be resolved.
pub open spec fn named_by(store: StoreView, input: AddInput) -> Result<
    (Seq<Id>, Seq<Id>),
    Seq<char>,
> {
    let objectives = texts(input.objective_prefixes@);
    let blockers = texts(input.blocked_by_prefixes@);
    match resolved_objectives(store, objectives, objectives.len() as int) {
        Err(words) => Err(words),
        Ok(objective_ids) => match resolved_tasks(store, blockers, blockers.len() as int) {
            Err(words) => Err(words),
            Ok(blocked_by) => Ok((objective_ids, blocked_by)),
        },
    }
}

/// Adds a task. A pinned one is scheduled, any other goes to the backlog. Where everything that
/// it names is found, the minutes must make a duration, and a pinned task must end at an
/// instant.
pub fn add(store: &mut Store, input: AddInput) -> (r: Result<Id, String>)
    requires
        named_by(old(store)@, input) is Ok ==> duration_fits(
            input.duration_minutes as int,
            input.pin,
        ),
    ensures
        old(store)@.wf() ==> final(store)@.wf(),
        match named_by(old(store)@, input) {
            Err(words) => fails_with(r, words) && final(store)@ == old(store)@,
            Ok((objective_ids, blocked_by)) => {
                &&& r is Ok
                &&& is_drawn(r->Ok_0)
                &&& final(store)@ == old(store)@.with_task(
                    r->Ok_0,
                    added_task(input, r->Ok_0, objective_ids, blocked_by),
                )
            },
        },
{
    broadcast use Timestamp::of_its_parts;

    let objective_ids: Vec<Id> = match resolve_objective_ids(store, &input.objective_prefixes) {
        Ok(ids) => ids,
        Err(words) => {
            return Err(words);
        },
    };
    let blocked_by: Vec<Id> = match resolve_task_ids(store, &input.blocked_by_prefixes) {
        Ok(ids) => ids,
        Err(words) => {
            return Err(words);
        },
    };
    let id: Id = new_id();
    let duration = Duration::try_minutes(input.duration_minutes).unwrap();
    let pinned: Option<TimeWindow> = match input.pin {
        Some(start) => {
            let end = checked_add(start, duration).unwrap();
            Some(TimeWindow { start, end })
        },
        None => None,
    };
    let status = if pinned.is_some() {
        TaskStatus::Scheduled
    } else {
        TaskStatus::Backlog
    };
    let task = Task {
        id,
        tier: input.tier,
        title: input.title,
        detail: None,
        objective_ids,
        skills: Vec::new(),
        tags: Vec::new(),
        affect_cost: input.affect_cost,
        est_duration: duration,
        due: input.due,
        earliest_start: input.earliest_start,
        category: input.category,
        pinned,
        transparent: input.transparent,
        reminders: input.reminders,
        blocked_by,
        after: Vec::new(),
        must_finish_by: input.must_finish_by,
        defer_policy: DeferPolicy::RescheduleAsap,
        status,
        provenance: Provenance::Manual,
        commitment: None,
    };
    proof {
        let expected = added_task(input, id, objective_ids@, blocked_by@);
        assert(task@.skills =~= expected.skills);
        assert(task@.tags =~= expected.tags);
        assert(task@ == expected);
    }
    store.upsert_task(task);
    Ok(id)
}

/// Whether everything that an input names is found.
pub fn check_names(store: &Store, input: &AddInput) -> (r: Result<(), String>)
    ensures
        match named_by(store@, *input) {
            Err(words) => fails_with(r, words),
            Ok(_) => r is Ok,
        },
{
    match resolve_objective_ids(store, &input.objective_prefixes) {
        Err(words) => Err(words),
        Ok(_) => match resolve_task_ids(store, &input.blocked_by_prefixes) {
            Err(words) => Err(words),
            Ok(_) => Ok(()),
        },
    }
}

/// Whether that many minutes make a duration, and a task that is pinned to a start ends at an
/// instant.
pub fn can_last(minutes: i64, pin: Option<Timestamp>) -> (b: bool)
    ensures
        b == duration_fits(minutes as int, pin),
{
    match Duration::try_minutes(minutes) {
        None => false,
        Some(duration) => match pin {
            None => true,
            Some(start) => checked_add(start, duration).is_some(),
        },
    }
}

/// An optional date and time, or words.
pub open spec fn optional_datetime_in(text: Option<Seq<char>>) -> Result<
    Option<Timestamp>,
    Seq<char>,
> {
    match text {
        None => Ok(None),
        Some(t) => match datetime_in(t) {
            Ok(at) => Ok(Some(at)),
            Err(words) => Err(words),
        },
    }
}

/// Whether an input is what a request says with its words read as those values.
pub open spec fn is_input(
    input: AddInput,
    request: AddRequest,
    tier: Tier,
    due: Option<Timestamp>,
    earliest_start: Option<Timestamp>,
    must_finish_by: Option<Timestamp>,
    pin: Option<Timestamp>,
) -> bool {
    &&& input.title == request.title
    &&& input.duration_minutes == request.duration
    &&& input.tier == tier
    &&& input.affect_cost == request.affect
    &&& input.due == due
    &&& input.earliest_start == earliest_start
    &&& input.must_finish_by == must_finish_by
    &&& input.pin == pin
    &&& input.category == request.category
    &&& input.transparent == request.transparent
    &&& input.reminders == request.reminders
    &&& input.objective_prefixes == request.objective
    &&& input.blocked_by_prefixes == request.blocked_by
}

/// Whether a request was read: the tier first, and each time in the order of the fields.
pub open spec fn is_read(request: AddRequest, r: Result<AddInput, String>) -> bool {
    match tier_named(request.tier@) {
        None => fails_with(r, "unknown tier "@ + request.tier@),
        Some(tier) => match optional_datetime_in(text_option(request.due)) {
            Err(words) => fails_with(r, words),
            Ok(due) => match optional_datetime_in(text_option(request.earliest_start)) {
                Err(words) => fails_with(r, words),
                Ok(earliest) => match optional_datetime_in(text_option(request.must_finish_by)) {
                    Err(words) => fails_with(r, words),
                    Ok(latest) => match optional_datetime_in(text_option(request.pin)) {
                        Err(words) => fails_with(r, words),
                        Ok(pin) => r is Ok && is_input(
                            r->Ok_0,
                            request,
                            tier,
                            due,
                            earliest,
                            latest,
                            pin,
                        ),
                    },
                },
            },
        },
    }
}

/// Reads the words of a request.
pub fn read_request(request: AddRequest) -> (r: Result<AddInput, String>)
    ensures
        is_read(request, r),
{
    let tier: Tier = match parse_tier(request.tier.as_str()) {
        Ok(tier) => tier,
        Err(words) => {
            return Err(words);
        },
    };
    let due: Option<Timestamp> = match parse_optional_datetime(request.due) {
        Ok(due) => due,
        Err(words) => {
            return Err(words);
        },
    };
    let earliest_start: Option<Timestamp> = match parse_optional_datetime(request.earliest_start) {
        Ok(earliest_start) => earliest_start,
        Err(words) => {
            return Err(words);
        },
    };
    let must_finish_by: Option<Timestamp> = match parse_optional_datetime(request.must_finish_by) {
        Ok(must_finish_by) => must_finish_by,
        Err(words) => {
            return Err(words);
        },
    };
    let pin: Option<Timestamp> = match parse_optional_datetime(request.pin) {
        Ok(pin) => pin,
        Err(words) => {
            return Err(words);
        },
    };
    Ok(
        AddInput {
            title: request.title,
            duration_minutes: request.duration,
            tier,
            affect_cost: request.affect,
            due,
            earliest_start,
            must_finish_by,
            pin,
            category: request.category,
            transparent: request.transparent,
            reminders: request.reminders,
            objective_prefixes: request.objective,
            blocked_by_prefixes: request.blocked_by,
        },
    )
}

/// Adds an objective.
pub fn objective_add(store: &mut Store, input: ObjectiveAddInput) -> (id: Id)
    ensures
        is_drawn(id),
        old(store)@.wf() ==> final(store)@.wf(),
        final(store)@ == (StoreView {
            objectives: old(store)@.objectives.insert(
                id,
                ObjectiveView {
                    id,
                    tier: input.tier,
                    title: input.title@,
                    detail: None,
                    target_date: input.target_date,
                    status: ObjectiveStatus::Active,
                },
            ),
            ..old(store)@
        }),
{
    let id: Id = new_id();
    store.upsert_objective(
        Objective {
            id,
            tier: input.tier,
            title: input.title,
            detail: None,
            target_date: input.target_date,
            status: ObjectiveStatus::Active,
        },
    );
    id
}

// ---- Listing ----

/// Whether a row shows a task.
pub open spec fn shows_task(row: TaskRow, task: TaskView) -> bool {
    &&& row.id == task.id
    &&& row.status == task.status
    &&& row.tier == task.tier
    &&& row.duration_minutes == whole_minutes(task.est_duration.total())
    &&& row.affect_cost == task.affect_cost
    &&& row.due == task.due
    &&& row.title@ == task.title
}

/// Lists all tasks in the order of their ids.
pub fn list(store: &Store) -> (rows: Vec<TaskRow>)
    ensures
        ({
            let ids = maps::in_order(store@.tasks.dom());
            &&& rows@.len() == ids.len()
            &&& forall|i: int|
                0 <= i < ids.len() ==> shows_task(#[trigger] rows@[i], store@.tasks[ids[i]])
        }),
{
    let ids = store.task_ids();
    let mut rows: Vec<TaskRow> = Vec::new();
    let mut i: usize = 0;
    while i < ids.len()
        invariant
            i <= ids@.len(),
            rows@.len() == i,
            forall|id: Id| #[trigger] store@.tasks.contains_key(id) == ids@.contains(id),
            forall|k: int|
                0 <= k < i ==> shows_task(#[trigger] rows@[k], store@.tasks[ids@[k]]),
        decreases ids@.len() - i,
    {
        assert(ids@.contains(ids@[i as int]));
        assert(store@.tasks.contains_key(ids@[i as int]));
        let task = store.task(ids[i]).unwrap();
        rows.push(
            TaskRow {
                id: task.id,
                status: task.status,
                tier: task.tier,
                duration_minutes: task.est_duration.num_minutes(),
                affect_cost: task.affect_cost,
                due: task.due,
                title: task.title.clone(),
            },
        );
        i = i + 1;
    }
    rows
}

// ---- Closing ----

/// The store with a task's status set.
pub open spec fn with_status(store: StoreView, id: Id, status: TaskStatus) -> StoreView {
    store.with_task(id, TaskView { status, ..store.tasks[id] })
}

/// Sets the status of a task that is named by a prefix.
pub fn set_status(store: &mut Store, prefix: &str, status: TaskStatus) -> (r: Result<Id, String>)
    ensures
        old(store)@.wf() ==> final(store)@.wf(),
        match resolved_task(old(store)@, prefix@) {
            Ok(id) => r == Ok::<Id, String>(id) && final(store)@ == with_status(
                old(store)@,
                id,
                status,
            ),
            Err(words) => fails_with(r, words) && final(store)@ == old(store)@,
        },
{
    let id: Id = match resolve_task_id(store, prefix) {
        Ok(id) => id,
        Err(words) => {
            return Err(words);
        },
    };
    let mut task: Task = store.take_task(id).unwrap();
    task.status = status;
    store.put_task(id, task);
    assert(store@.tasks =~= with_status(old(store)@, id, status).tasks);
    Ok(id)
}

/// Puts a task off.
pub fn defer(store: &mut Store, prefix: &str) -> (r: Result<(), String>)
    ensures
        old(store)@.wf() ==> final(store)@.wf(),
        match resolved_task(old(store)@, prefix@) {
            Ok(id) => r is Ok && final(store)@ == with_status(
                old(store)@,
                id,
                TaskStatus::Deferred,
            ),
            Err(words) => fails_with(r, words) && final(store)@ == old(store)@,
        },
{
    match set_status(store, prefix, TaskStatus::Deferred) {
        Ok(_) => Ok(()),
        Err(words) => Err(words),
    }
}

/// The log entry for a task that was done, under an id of its own.
pub open spec fn done_entry(entry_id: Id, task_id: Id, now: Timestamp) -> LogEntryView {
    LogEntryView {
        id: entry_id,
        at: now,
        kind: LogEntryKindView::Fact(
            FactKind::Actual { item_id: task_id, status: ActualStatus::Done, actual: None },
        ),
    }
}

/// Whether a store is what another becomes when a task is done.
pub open spec fn is_done(store: StoreView, id: Id, now: Timestamp, next: StoreView) -> bool {
    exists|entry_id: Id|
        is_drawn(entry_id) && next == (StoreView {
            log: store.log.push(#[trigger] done_entry(entry_id, id, now)),
            ..with_status(store, id, TaskStatus::Done)
        })
}

/// Marks a task as done and logs it.
pub fn done(store: &mut Store, prefix: &str, now: Timestamp) -> (r: Result<(), String>)
    ensures
        old(store)@.wf() ==> final(store)@.wf(),
        match resolved_task(old(store)@, prefix@) {
            Ok(id) => r is Ok && is_done(old(store)@, id, now, final(store)@),
            Err(words) => fails_with(r, words) && final(store)@ == old(store)@,
        },
{
    let id: Id = match set_status(store, prefix, TaskStatus::Done) {
        Ok(id) => id,
        Err(words) => {
            return Err(words);
        },
    };
    let entry_id: Id = new_id();
    let fact = FactKind::Actual { item_id: id, status: ActualStatus::Done, actual: None };
    store.append_log(LogEntry { id: entry_id, at: now, kind: LogEntryKind::Fact(fact) });
    proof {
        let entry = done_entry(entry_id, id, now);
        assert(store@ == (StoreView {
            log: old(store)@.log.push(entry),
            ..with_status(old(store)@, id, TaskStatus::Done)
        }));
    }
    Ok(())
}

} // verus!

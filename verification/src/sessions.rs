//! Interviews about tasks that go on over several runs.

use crate::advisor::{filter_and_enqueue_tags, is_tagged, only_queue_grows, AdviseReport};
use crate::clarify::{parse_clarify_response, response_reply, ClarifyResponse, ClarifyResponseView};
use crate::decompose::{unknown_task, unknown_task_words};
use crate::ids::{hyphenated_id, hyphenated_text, Id};
use crate::maps;
use crate::model::{session_map, ClarifyState, ClarifyStateView, Store, StoreView, Task, TaskView};
use crate::replies::tag_pairs;
use crate::text::{fails_with, list_contains, texts};
use vstd::prelude::*;
use vstd::string::*;

verus! {

impl StoreView {
    /// The store with an interview set.
    pub open spec fn with_session(self, id: Id, session: ClarifyStateView) -> StoreView {
        StoreView { clarify_sessions: self.clarify_sessions.insert(id, session), ..self }
    }

    /// The store without an interview.
    pub open spec fn without_session(self, id: Id) -> StoreView {
        StoreView { clarify_sessions: self.clarify_sessions.remove(id), ..self }
    }
}

/// Sets an interview.
fn put_session(store: &mut Store, id: Id, session: ClarifyState)
    ensures
        final(store)@ == old(store)@.with_session(id, session@),
{
    maps::put(&mut store.clarify_sessions, id, session);
    assert(session_map(store.clarify_sessions@) =~= session_map(
        old(store).clarify_sessions@,
    ).insert(id, session@));
}

/// Takes an interview out of the store.
fn take_session(store: &mut Store, id: Id) -> (session: Option<ClarifyState>)
    ensures
        final(store)@ == old(store)@.without_session(id),
        match session {
            Some(s) => old(store)@.clarify_sessions.contains_key(id)
                && old(store)@.clarify_sessions[id] == s@,
            None => !old(store)@.clarify_sessions.contains_key(id),
        },
{
    let session = maps::take(&mut store.clarify_sessions, id);
    assert(session_map(store.clarify_sessions@) =~= session_map(
        old(store).clarify_sessions@,
    ).remove(id));
    session
}

// ---- Starting ----

/// An interview that has not begun.
pub open spec fn new_session(task: TaskView) -> ClarifyStateView {
    ClarifyStateView {
        round: 0,
        accumulated: match task.detail {
            Some(detail) => detail,
            None => Seq::empty(),
        },
        pending: Seq::empty(),
        tags: Seq::empty(),
    }
}

/// The store in which there is an interview about a task. One that there was is kept.
pub open spec fn with_interview(store: StoreView, id: Id) -> StoreView {
    if store.clarify_sessions.contains_key(id) {
        store
    } else {
        store.with_session(id, new_session(store.tasks[id]))
    }
}

/// Starts an interview about a task, once: to repeat it must not discard answers or
/// questions. Says whether there was none.
pub fn queue_clarification(store: &mut Store, task_id: Id) -> (r: Result<bool, String>)
    ensures
        if old(store)@.tasks.contains_key(task_id) {
            &&& r == Ok::<bool, String>(!old(store)@.clarify_sessions.contains_key(task_id))
            &&& final(store)@ == with_interview(old(store)@, task_id)
        } else {
            fails_with(r, unknown_task(task_id)) && final(store)@ == old(store)@
        },
        old(store)@.wf() ==> final(store)@.wf(),
{
    let accumulated: String = match store.task(task_id) {
        Some(task) => match &task.detail {
            Some(detail) => detail.clone(),
            None => String::new(),
        },
        None => {
            return Err(unknown_task_words(task_id));
        },
    };
    if maps::has(&store.clarify_sessions, task_id) {
        return Ok(false);
    }
    let session = ClarifyState { round: 0, accumulated, pending: Vec::new(), tags: Vec::new() };
    proof {
        let expected = new_session(store@.tasks[task_id]);
        assert(session@.pending =~= expected.pending);
        assert(session@.tags =~= expected.tags);
        assert(session@.accumulated =~= expected.accumulated);
    }
    put_session(store, task_id, session);
    Ok(true)
}

/// To start an interview twice is to start it once.
pub proof fn starting_twice_changes_nothing(store: StoreView, id: Id)
    ensures
        with_interview(with_interview(store, id), id) == with_interview(store, id),
{
}

// ---- Ending ----

/// Tags for one task.
pub open spec fn tags_for(id: Id, tags: Seq<Seq<char>>) -> Seq<(Id, Seq<char>)> {
    tags.map_values(|tag: Seq<char>| (id, tag))
}

/// The store in which what an interview told is the task's detail.
pub open spec fn with_lore(store: StoreView, id: Id, lore: Seq<char>) -> StoreView {
    store.with_task(id, TaskView { detail: Some(lore), ..store.tasks[id] })
}

/// Whether a store is what another becomes when the interview about a task ends: what it told
/// is the task's detail, and its tags are queued.
pub open spec fn is_finalized(
    store: StoreView,
    id: Id,
    next: StoreView,
    report: AdviseReport,
) -> bool {
    let session = store.clarify_sessions[id];
    is_tagged(
        with_lore(store.without_session(id), id, session.accumulated),
        tags_for(id, session.tags),
        next,
        report,
    )
}

/// Pairs tags with a task.
pub fn pair_tags(id: Id, tags: Vec<String>) -> (pairs: Vec<(Id, String)>)
    ensures
        tag_pairs(pairs@) == tags_for(id, texts(tags@)),
{
    let mut pairs: Vec<(Id, String)> = Vec::new();
    let mut i: usize = 0;
    while i < tags.len()
        invariant
            i <= tags@.len(),
            pairs@.len() == i,
            forall|k: int| 0 <= k < i ==> (#[trigger] pairs@[k]).0 == id && pairs@[k].1@ == tags@[k]@,
        decreases tags@.len() - i,
    {
        pairs.push((id, tags[i].clone()));
        i = i + 1;
    }
    assert(tag_pairs(pairs@) =~= tags_for(id, texts(tags@)));
    pairs
}

/// Sets the detail of a task.
pub fn set_detail(store: &mut Store, task_id: Id, lore: String)
    requires
        old(store)@.tasks.contains_key(task_id),
    ensures
        old(store)@.wf() ==> final(store)@.wf(),
        final(store)@ == with_lore(old(store)@, task_id, lore@),
{
    let mut task: Task = store.take_task(task_id).unwrap();
    task.detail = Some(lore);
    store.put_task(task_id, task);
    assert(store@.tasks =~= with_lore(old(store)@, task_id, lore@).tasks);
}

/// Ends the interview about a task.
pub fn finalize_session(store: &mut Store, task_id: Id) -> (r: Result<AdviseReport, String>)
    ensures
        old(store)@.wf() ==> final(store)@.wf(),
        if !old(store)@.tasks.contains_key(task_id) {
            fails_with(r, unknown_task(task_id)) && final(store)@ == old(store)@
        } else if !old(store)@.clarify_sessions.contains_key(task_id) {
            fails_with(r, no_session(task_id)) && final(store)@ == old(store)@
        } else {
            r is Ok && is_finalized(old(store)@, task_id, final(store)@, r->Ok_0)
        },
        r is Ok ==> only_queue_grows(
            with_lore(
                old(store)@.without_session(task_id),
                task_id,
                old(store)@.clarify_sessions[task_id].accumulated,
            ),
            final(store)@,
        ),
{
    if store.task(task_id).is_none() {
        return Err(unknown_task_words(task_id));
    }
    match take_session(store, task_id) {
        Some(session) => {
            set_detail(store, task_id, session.accumulated);
            Ok(filter_and_enqueue_tags(store, pair_tags(task_id, session.tags)))
        },
        None => {
            assert(store@.clarify_sessions =~= old(store)@.clarify_sessions);
            Err(no_session_words(task_id))
        },
    }
}

/// The words for an interview that there is not.
pub open spec fn no_session(id: Id) -> Seq<char> {
    "no clarification session for "@ + hyphenated_id(id)
}

fn no_session_words(id: Id) -> (words: String)
    ensures
        words@ == no_session(id),
{
    let mut words = "no clarification session for ".to_owned();
    words.append(hyphenated_text(id).as_str());
    words
}

// ---- A round ----

/// Tags with the first `n` of others added, as far as they are new.
pub open spec fn with_new_tags(tags: Seq<Seq<char>>, more: Seq<Seq<char>>, n: int) -> Seq<Seq<char>>
    decreases n,
{
    if n <= 0 {
        tags
    } else {
        let before = with_new_tags(tags, more, n - 1);
        if before.contains(more[n - 1]) {
            before
        } else {
            before.push(more[n - 1])
        }
    }
}

/// Adds tags that are new.
pub fn add_new_tags(tags: &mut Vec<String>, more: &Vec<String>)
    ensures
        texts(final(tags)@) == with_new_tags(
            texts(old(tags)@),
            texts(more@),
            more@.len() as int,
        ),
{
    let mut i: usize = 0;
    while i < more.len()
        invariant
            i <= more@.len(),
            texts(tags@) == with_new_tags(texts(old(tags)@), texts(more@), i as int),
        decreases more@.len() - i,
    {
        assert(texts(more@)[i as int] == more@[i as int]@);
        if !list_contains(tags, more[i].as_str()) {
            let ghost were = tags@;
            tags.push(more[i].clone());
            assert(texts(tags@) =~= texts(were).push(more@[i as int]@));
        }
        i = i + 1;
    }
}

/// Tags without duplicates stay without duplicates.
pub proof fn new_tags_are_distinct(tags: Seq<Seq<char>>, more: Seq<Seq<char>>, n: int)
    requires
        tags.no_duplicates(),
    ensures
        with_new_tags(tags, more, n).no_duplicates(),
    decreases n,
{
    if n > 0 {
        new_tags_are_distinct(tags, more, n - 1);
    }
}

/// An interview after a round of questions.
pub open spec fn after_round(
    session: ClarifyStateView,
    response: ClarifyResponseView,
) -> ClarifyStateView {
    ClarifyStateView {
        round: (session.round + 1) as u32,
        pending: response.questions,
        tags: with_new_tags(session.tags, response.tags, response.tags.len() as int),
        ..session
    }
}

/// Whether an interview ends with a round: the model says so, or there are neither rounds
/// nor questions left.
pub open spec fn ends_with(
    session: ClarifyStateView,
    response: ClarifyResponseView,
    round_cap: u32,
) -> bool {
    response.done || (session.round + 1 >= round_cap && response.questions.len() == 0)
}

/// What becomes of a store when a reply is taken as a round of the interview about a task. A
/// bad reply changes nothing. A good one says whether the interview ended, and how many tags
/// were queued.
pub open spec fn is_round_taken(
    store: StoreView,
    id: Id,
    round_cap: u32,
    reply: Result<String, String>,
    next: StoreView,
    r: Result<(bool, usize), String>,
) -> bool {
    match reply {
        Err(words) => fails_with(r, words@) && next == store,
        Ok(text) => match response_reply(text@) {
            Err(words) => fails_with(r, words) && next == store,
            Ok(response) => {
                let session = store.clarify_sessions[id];
                let asked = store.with_session(id, after_round(session, response));
                if ends_with(session, response, round_cap) {
                    exists|report: AdviseReport| #[trigger]
                        is_finalized(asked, id, next, report) && r == Ok::<(bool, usize), String>(
                            (true, report.enqueued),
                        )
                } else {
                    next == asked && r == Ok::<(bool, usize), String>((false, 0))
                }
            },
        },
    }
}

/// Whether only the interview about one task, that task and the end of the queue changed.
pub open spec fn only_interview_changes(store: StoreView, id: Id, next: StoreView) -> bool {
    &&& next == (StoreView {
        tasks: next.tasks,
        clarify_sessions: next.clarify_sessions,
        pending_decisions: next.pending_decisions,
        ..store
    })
    &&& next.tasks.dom() == store.tasks.dom()
    &&& forall|other: Id|
        other != id ==> next.tasks[other] == store.tasks[other] && (
        #[trigger] next.clarify_sessions.contains_key(other)
            == store.clarify_sessions.contains_key(other)) && next.clarify_sessions[other]
            == store.clarify_sessions[other]
    &&& store.pending_decisions.len() <= next.pending_decisions.len()
    &&& next.pending_decisions.take(store.pending_decisions.len() as int)
        == store.pending_decisions
}

/// Takes a reply as a round of the interview about a task.
pub fn take_round(store: &mut Store, task_id: Id, reply: Result<String, String>, round_cap: u32) -> (r:
    Result<(bool, usize), String>)
    requires
        old(store)@.tasks.contains_key(task_id),
        old(store)@.clarify_sessions.contains_key(task_id),
        old(store)@.clarify_sessions[task_id].round < u32::MAX,
    ensures
        old(store)@.wf() ==> final(store)@.wf(),
        is_round_taken(old(store)@, task_id, round_cap, reply, final(store)@, r),
        only_interview_changes(old(store)@, task_id, final(store)@),
{
    let ghost before = store@;
    assert(before.pending_decisions.take(before.pending_decisions.len() as int)
        =~= before.pending_decisions);
    let text: String = match reply {
        Ok(text) => text,
        Err(words) => {
            return Err(words);
        },
    };
    // Parse completely before touching the interview.
    let response: ClarifyResponse = match parse_clarify_response(text.as_str()) {
        Ok(response) => response,
        Err(words) => {
            return Err(words);
        },
    };
    let mut session: ClarifyState = take_session(store, task_id).unwrap();
    let ghost was = session@;
    add_new_tags(&mut session.tags, &response.tags);
    session.round = session.round + 1;
    let finalize: bool = response.done || (session.round >= round_cap
        && response.questions.len() == 0);
    session.pending = response.questions;
    assert(session@ == after_round(was, response@));
    put_session(store, task_id, session);
    let ghost asked = before.with_session(task_id, after_round(was, response@));
    assert(store@.clarify_sessions =~= asked.clarify_sessions);
    assert(store@ == asked);
    if finalize {
        match finalize_session(store, task_id) {
            Ok(report) => {
                let queued: usize = report.enqueued;
                proof {
                    assert(is_finalized(asked, task_id, store@, report));
                    assert(store@.tasks.dom() =~= before.tasks.dom());
                    assert(only_interview_changes(before, task_id, store@));
                }
                Ok((true, queued))
            },
            Err(words) => Err(words),
        }
    } else {
        Ok((false, 0))
    }
}

} // verus!

//! Laws on interviews: which tasks need one, what a reply asks, which answers count, and what a
//! round changes.

use crate::advisor::{tags_only_queue, AdviseReport};
use crate::clarify::{
    has_question, is_relevant, lacks_detail, question_and_answer, relevant_among, relevant_answers,
    reply_question, reply_questions, reply_tags, response_in, told, with_answers, with_line_end,
};
use crate::ids::Id;
use crate::json::Json;
use crate::model::{QuestionKind, QuestionView, StoreView, TaskStatus, TaskView};
use crate::parts::{filtered_is_kept, keeps_only, kept_alike, stands_at};
use crate::sessions::{
    is_finalized, is_round_taken, tags_for, with_interview, with_lore, with_new_tags,
};
use crate::text::{ascii_lower, fails_with};
use crate::text_laws::{blank_is_all_space, is_all_space};
use vstd::prelude::*;
use vstd::string::*;

verus! {

/// A task needs an interview exactly if it waits to be done, is not pinned, and has no detail but
/// white space.
pub proof fn interviews_are_for_tasks_without_detail(task: TaskView)
    ensures
        lacks_detail(task) <==> {
            &&& task.status == TaskStatus::Backlog || task.status == TaskStatus::Scheduled
            &&& task.pinned is None
            &&& task.detail is None || is_all_space(task.detail->0)
        },
{
    if task.detail is Some {
        blank_is_all_space(task.detail->0);
    }
}

// ---- Replies ----

/// The question and the answer that a question waits for.
pub open spec fn condition_of(q: QuestionView) -> (Seq<char>, Seq<char>) {
    q.depends_on->0
}

/// Whether a value of a reply asks a question: its id and its text are not blank, its kind is one
/// of the two there are, and its condition, if any, names a question and an answer.
pub open spec fn asks(value: Json, q: QuestionView) -> bool {
    &&& value.field("id"@) == Json::Text(q.id)
    &&& value.field("text"@) == Json::Text(q.text)
    &&& !is_all_space(q.id)
    &&& !is_all_space(q.text)
    &&& q.kind == QuestionKind::YesNo ==> value.field("kind"@) == Json::Text("YesNo"@)
    &&& q.kind == QuestionKind::ShortText ==> value.field("kind"@) == Json::Text("ShortText"@)
    &&& q.depends_on is None ==> value.field("depends_on"@) is Null
    &&& q.depends_on is Some ==> value.field("depends_on"@) == Json::Array(
        seq![Json::Text(condition_of(q).0), Json::Text(condition_of(q).1)],
    )
}

proof fn asked_is_read(value: Json, before: Seq<QuestionView>, q: QuestionView)
    requires
        asks(value, q),
    ensures
        !has_question(before, q.id) ==> reply_question(value, before) == Ok::<
            QuestionView,
            Seq<char>,
        >(q),
        has_question(before, q.id) ==> reply_question(value, before) is Err,
{
    reveal_strlit("YesNo");
    reveal_strlit("ShortText");
    assert("YesNo"@.len() != "ShortText"@.len());
    blank_is_all_space(q.id);
    blank_is_all_space(q.text);
    if q.depends_on is Some {
        let pair = seq![Json::Text(condition_of(q).0), Json::Text(condition_of(q).1)];
        assert(pair[0] == Json::Text(condition_of(q).0));
        assert(pair[1] == Json::Text(condition_of(q).1));
    }
}

proof fn read_was_asked(value: Json, before: Seq<QuestionView>)
    requires
        reply_question(value, before) is Ok,
    ensures
        asks(value, reply_question(value, before)->Ok_0),
        !has_question(before, reply_question(value, before)->Ok_0.id),
{
    let q = reply_question(value, before)->Ok_0;
    blank_is_all_space(q.id);
    blank_is_all_space(q.text);
    if q.depends_on is Some {
        let pair = value.field("depends_on"@)->Array_0;
        assert(pair =~= seq![Json::Text(condition_of(q).0), Json::Text(condition_of(q).1)]);
    }
}

proof fn questions_were_asked(items: Seq<Json>, n: int)
    requires
        0 <= n <= items.len(),
        reply_questions(items, n) is Ok,
    ensures
        reply_questions(items, n)->Ok_0.len() == n,
        forall|i: int|
            0 <= i < n ==> asks(items[i], #[trigger] reply_questions(items, n)->Ok_0[i]),
    decreases n,
{
    if n > 0 {
        questions_were_asked(items, n - 1);
        let before = reply_questions(items, n - 1)->Ok_0;
        read_was_asked(items[n - 1], before);
        let now = reply_questions(items, n)->Ok_0;
        assert forall|i: int| 0 <= i < n implies asks(items[i], #[trigger] now[i]) by {
            if i < n - 1 {
                assert(now[i] == before[i]);
            }
        }
    }
}

proof fn distinct_questions_are_read(items: Seq<Json>, asked: Seq<QuestionView>, n: int)
    requires
        0 <= n <= items.len(),
        asked.len() == items.len(),
        forall|i: int| 0 <= i < items.len() ==> asks(items[i], #[trigger] asked[i]),
        forall|i: int, j: int|
            0 <= i < j < asked.len() ==> (#[trigger] asked[i]).id != (#[trigger] asked[j]).id,
    ensures
        reply_questions(items, n) == Ok::<Seq<QuestionView>, Seq<char>>(asked.take(n)),
    decreases n,
{
    if n > 0 {
        distinct_questions_are_read(items, asked, n - 1);
        let before = asked.take(n - 1);
        if has_question(before, asked[n - 1].id) {
            let i = choose|i: int|
                0 <= i < before.len() && (#[trigger] before[i]).id == asked[n - 1].id;
            assert(asked[i].id == asked[n - 1].id);
        }
        asked_is_read(items[n - 1], before, asked[n - 1]);
        assert(asked.take(n) =~= before.push(asked[n - 1]));
    } else {
        assert(asked.take(0) =~= Seq::<QuestionView>::empty());
    }
}

proof fn tags_were_texts(items: Seq<Json>, n: int)
    requires
        0 <= n <= items.len(),
    ensures
        reply_tags(items, n) is Ok ==> items.take(n) == Json::text_array(
            reply_tags(items, n)->Ok_0,
        )->Array_0,
        (forall|i: int| 0 <= i < n ==> (#[trigger] items[i]) is Text) ==> reply_tags(
            items,
            n,
        ) is Ok,
    decreases n,
{
    if n > 0 {
        tags_were_texts(items, n - 1);
        if reply_tags(items, n) is Ok {
            let before = reply_tags(items, n - 1)->Ok_0;
            let now = reply_tags(items, n)->Ok_0;
            assert(items.take(n) =~= items.take(n - 1).push(items[n - 1]));
            assert(Json::text_array(now)->Array_0 =~= Json::text_array(before)->Array_0.push(
                items[n - 1],
            ));
        }
    } else {
        assert(items.take(0) =~= Json::text_array(Seq::empty())->Array_0);
    }
}

/// A reply that is read as a round asks its questions one for one and in order, no two with the
/// same id; it proposes its tags in order, and says whether it is the last one.
pub proof fn round_is_what_the_reply_asks(value: Json)
    requires
        response_in(value) is Ok,
    ensures
        ({
            let round = response_in(value)->Ok_0;
            let items = value.field("questions"@)->Array_0;
            &&& value.field("questions"@) is Array
            &&& items.len() == round.questions.len()
            &&& forall|i: int|
                0 <= i < items.len() ==> asks(items[i], #[trigger] round.questions[i])
            &&& value.field("tags"@) == Json::text_array(round.tags)
            &&& value.field("done"@) == Json::Bool(round.done)
        }),
{
    let items = value.field("questions"@)->Array_0;
    questions_were_asked(items, items.len() as int);
    let tags = value.field("tags"@)->Array_0;
    tags_were_texts(tags, tags.len() as int);
    assert(tags.take(tags.len() as int) =~= tags);
}

/// Every reply of that form is read as the round that it asks for.
pub proof fn well_formed_reply_is_read(
    value: Json,
    asked: Seq<QuestionView>,
    tags: Seq<Seq<char>>,
    done: bool,
)
    requires
        value.field("questions"@) is Array,
        value.field("questions"@)->Array_0.len() == asked.len(),
        forall|i: int|
            0 <= i < asked.len() ==> asks(
                value.field("questions"@)->Array_0[i],
                #[trigger] asked[i],
            ),
        forall|i: int, j: int|
            0 <= i < j < asked.len() ==> (#[trigger] asked[i]).id != (#[trigger] asked[j]).id,
        value.field("tags"@) == Json::text_array(tags),
        value.field("done"@) == Json::Bool(done),
    ensures
        response_in(value) is Ok,
        response_in(value)->Ok_0.questions == asked,
        response_in(value)->Ok_0.tags == tags,
        response_in(value)->Ok_0.done == done,
{
    let items = value.field("questions"@)->Array_0;
    distinct_questions_are_read(items, asked, items.len() as int);
    assert(asked.take(items.len() as int) =~= asked);
    let texts = value.field("tags"@)->Array_0;
    tags_were_texts(texts, texts.len() as int);
    assert(texts.take(texts.len() as int) =~= texts);
    let read = reply_tags(texts, texts.len() as int)->Ok_0;
    assert(Json::text_array(read)->Array_0 == Json::text_array(tags)->Array_0);
    assert(read.len() == Json::text_array(read)->Array_0.len());
    assert(tags.len() == Json::text_array(tags)->Array_0.len());
    assert forall|i: int| 0 <= i < tags.len() implies read[i] == tags[i] by {
        assert(Json::text_array(read)->Array_0[i] == Json::Text(read[i]));
        assert(Json::text_array(tags)->Array_0[i] == Json::Text(tags[i]));
    }
    assert(read =~= tags);
}

// ---- Answers ----

/// Whether two texts are the same but for the case of their letters A to Z.
pub open spec fn alike(a: Seq<char>, b: Seq<char>) -> bool {
    &&& a.len() == b.len()
    &&& forall|i: int|
        0 <= i < a.len() ==> (#[trigger] a[i]) == b[i] || ('A' <= a[i] <= 'Z' && b[i] as u32
            == a[i] as u32 + 32) || ('A' <= b[i] <= 'Z' && a[i] as u32 == b[i] as u32 + 32)
}

proof fn alike_in_lower_case(a: Seq<char>, b: Seq<char>)
    ensures
        ascii_lower(a) == ascii_lower(b) <==> alike(a, b),
{
    assert(ascii_lower(a).len() == a.len());
    assert(ascii_lower(b).len() == b.len());
    if ascii_lower(a) == ascii_lower(b) {
        assert forall|i: int| 0 <= i < a.len() implies (#[trigger] a[i]) == b[i] || ('A' <= a[i]
            <= 'Z' && b[i] as u32 == a[i] as u32 + 32) || ('A' <= b[i] <= 'Z' && a[i] as u32
            == b[i] as u32 + 32) by {
            assert(ascii_lower(a)[i] == ascii_lower(b)[i]);
        }
    }
    if alike(a, b) {
        assert forall|i: int| 0 <= i < a.len() implies ascii_lower(a)[i] == ascii_lower(b)[i] by {
            assert(a[i] == b[i] || ('A' <= a[i] <= 'Z' && b[i] as u32 == a[i] as u32 + 32) || (
            'A' <= b[i] <= 'Z' && a[i] as u32 == b[i] as u32 + 32));
        }
        assert(ascii_lower(a) =~= ascii_lower(b));
    }
}

/// Whether the answer that a question waits for was given, whatever its case.
pub open spec fn condition_holds(
    given: Map<Seq<char>, Seq<char>>) -> spec_fn(QuestionView,
) -> bool {
    |q: QuestionView|
        q.depends_on is None || (given.contains_key(condition_of(q).0) && alike(
            given[condition_of(q).0],
            condition_of(q).1,
        ))
}

/// The questions that count are those whose condition holds, in their order.
pub proof fn questions_count_where_their_condition_holds(
    questions: Seq<QuestionView>,
    given: Map<Seq<char>, Seq<char>>,
)
    ensures
        keeps_only(relevant_among(questions, given), questions, condition_holds(given)),
{
    let test = |q: QuestionView| is_relevant(q, given);
    let other = condition_holds(given);
    assert forall|q: QuestionView| test(q) == #[trigger] other(q) by {
        if q.depends_on is Some && given.contains_key(condition_of(q).0) {
            alike_in_lower_case(given[condition_of(q).0], condition_of(q).1);
        }
    }
    filtered_is_kept(questions, test);
    kept_alike(relevant_among(questions, given), questions, test, other);
}

/// An answer is kept exactly if it was given to a question whose condition holds, and as it was
/// given.
pub proof fn answers_count_where_their_condition_holds(
    questions: Seq<QuestionView>,
    given: Map<Seq<char>, Seq<char>>,
    id: Seq<char>,
)
    ensures
        relevant_answers(questions, given).contains_key(id) <==> given.contains_key(id) && exists|
            i: int,
        |
            0 <= i < questions.len() && (#[trigger] questions[i]).id == id && condition_holds(
                given,
            )(questions[i]),
        relevant_answers(questions, given).contains_key(id) ==> relevant_answers(
            questions,
            given,
        )[id] == given[id],
{
    let list = relevant_among(questions, given);
    let test = condition_holds(given);
    questions_count_where_their_condition_holds(questions, given);
    if has_question(list, id) {
        let k = choose|k: int| 0 <= k < list.len() && (#[trigger] list[k]).id == id;
        assert(list.contains(list[k]));
        assert(questions.contains(list[k]) && test(list[k]));
        let i = choose|i: int| 0 <= i < questions.len() && questions[i] == list[k];
        assert(questions[i].id == id && test(questions[i]));
    }
    if exists|i: int|
        0 <= i < questions.len() && (#[trigger] questions[i]).id == id && test(questions[i]) {
        let i = choose|i: int|
            0 <= i < questions.len() && (#[trigger] questions[i]).id == id && test(questions[i]);
        assert(questions.contains(questions[i]));
        assert(list.contains(questions[i]));
        let k = choose|k: int| 0 <= k < list.len() && list[k] == questions[i];
        assert(list[k].id == id);
    }
}

proof fn telling_goes_on(
    lore: Seq<char>,
    questions: Seq<QuestionView>,
    kept: Map<Seq<char>, Seq<char>>,
    n: int,
    m: int,
)
    requires
        0 <= n <= m,
    ensures
        stands_at(told(lore, questions, kept, m), 0, told(lore, questions, kept, n)),
    decreases m - n,
{
    let a = told(lore, questions, kept, n);
    let b = told(lore, questions, kept, m);
    if n < m {
        telling_goes_on(lore, questions, kept, n, m - 1);
        let before = told(lore, questions, kept, m - 1);
        assert(before.subrange(0, a.len() as int) =~= a);
        assert(b.subrange(0, a.len() as int) =~= before.subrange(0, a.len() as int));
    } else {
        assert(a.subrange(0, a.len() as int) =~= a);
    }
}

/// A narrative goes on from what it was: each kept answer stands in it behind its question, on
/// lines of their own, after those of the questions before it; the other questions add nothing.
pub proof fn narrative_tells_question_and_answer(
    lore: Seq<char>,
    questions: Seq<QuestionView>,
    given: Map<Seq<char>, Seq<char>>,
    i: int,
)
    requires
        0 <= i < questions.len(),
    ensures
        ({
            let kept = relevant_answers(questions, given);
            let text = with_answers(lore, questions, given);
            let before = told(lore, questions, kept, i);
            let after = told(lore, questions, kept, i + 1);
            let q = questions[i];
            &&& stands_at(text, 0, lore)
            &&& stands_at(text, 0, after)
            &&& stands_at(after, 0, before)
            &&& !kept.contains_key(q.id) ==> after == before
            &&& kept.contains_key(q.id) ==> {
                let gap = if before.len() == 0 || before.last() == '\n' {
                    0int
                } else {
                    1
                };
                let at = before.len() + gap;
                &&& gap == 1 ==> after[before.len() as int] == '\n'
                &&& stands_at(after, at, "Q: "@)
                &&& stands_at(after, at + 3, q.text)
                &&& stands_at(after, at + 3 + q.text.len(), "\nA: "@)
                &&& stands_at(after, at + 7 + q.text.len(), given[q.id])
                &&& after.len() == at + 8 + q.text.len() + given[q.id].len()
                &&& after.last() == '\n'
            }
        }),
{
    reveal_strlit("Q: ");
    reveal_strlit("\nA: ");
    reveal_strlit("\n");
    let kept = relevant_answers(questions, given);
    let text = with_answers(lore, questions, given);
    let before = told(lore, questions, kept, i);
    let after = told(lore, questions, kept, i + 1);
    let q = questions[i];
    telling_goes_on(lore, questions, kept, 0, questions.len() as int);
    telling_goes_on(lore, questions, kept, i, i + 1);
    telling_goes_on(lore, questions, kept, i + 1, questions.len() as int);
    if kept.contains_key(q.id) {
        let start = with_line_end(before);
        let at = start.len() as int;
        assert(after == start + question_and_answer(q.text, given[q.id]));
        assert(after.subrange(at, at + 3) =~= "Q: "@);
        assert(after.subrange(at + 3, at + 3 + q.text.len()) =~= q.text);
        let next = at + 3 + q.text.len();
        assert(after.subrange(next, next + 4) =~= "\nA: "@);
        assert(after.subrange(next + 4, next + 4 + given[q.id].len()) =~= given[q.id]);
    }
}

// ---- Rounds ----

/// The tags of an interview stay, in their order, and those that a round proposes are added at
/// their end, each once.
pub proof fn tags_are_gathered(tags: Seq<Seq<char>>, more: Seq<Seq<char>>, n: int)
    requires
        0 <= n <= more.len(),
    ensures
        ({
            let all = with_new_tags(tags, more, n);
            &&& tags.len() <= all.len()
            &&& all.take(tags.len() as int) == tags
            &&& forall|i: int| 0 <= i < n ==> all.contains(#[trigger] more[i])
            &&& forall|k: int|
                tags.len() <= k < all.len() ==> more.contains(#[trigger] all[k]) && !tags.contains(
                    all[k],
                )
        }),
    decreases n,
{
    if n > 0 {
        tags_are_gathered(tags, more, n - 1);
        let before = with_new_tags(tags, more, n - 1);
        let all = with_new_tags(tags, more, n);
        assert(all.take(tags.len() as int) =~= before.take(tags.len() as int));
        assert(more.contains(more[n - 1]));
        assert forall|i: int| 0 <= i < n implies all.contains(#[trigger] more[i]) by {
            if i < n - 1 {
                let k = choose|k: int| 0 <= k < before.len() && before[k] == more[i];
                assert(all[k] == more[i]);
            } else if !before.contains(more[n - 1]) {
                assert(all[before.len() as int] == more[n - 1]);
            }
        }
        assert forall|k: int| tags.len() <= k < all.len() implies more.contains(#[trigger] all[k])
            && !tags.contains(all[k]) by {
            if k < before.len() {
                assert(all[k] == before[k]);
            } else {
                assert(all[k] == more[n - 1]);
                if tags.contains(more[n - 1]) {
                    let j = choose|j: int| 0 <= j < tags.len() && tags[j] == more[n - 1];
                    assert(before.take(tags.len() as int)[j] == before[j]);
                    assert(before.contains(more[n - 1]));
                }
            }
        }
    } else {
        assert(tags.take(tags.len() as int) =~= tags);
    }
}

/// A round that does not end an interview counts one more round and leaves its questions waiting;
/// what was told stays. One that ends it makes what was told the detail of the task, and the
/// interview is over. It ends where the reply says so, or where it asks nothing and no round is
/// left. A reply that cannot be had or read changes nothing.
pub proof fn round_goes_on_or_ends(
    store: StoreView,
    id: Id,
    round_cap: u32,
    reply: Result<String, String>,
    next: StoreView,
    r: Result<(bool, usize), String>,
)
    requires
        store.clarify_sessions.contains_key(id),
        store.clarify_sessions[id].round < u32::MAX,
        is_round_taken(store, id, round_cap, reply, next, r),
    ensures
        r is Err ==> next == store,
        reply is Err ==> fails_with(r, reply->Err_0@),
        r is Ok ==> reply is Ok && crate::json::json_value(reply->Ok_0@) is Ok && {
            let value = crate::json::json_value(reply->Ok_0@)->Ok_0;
            let was = store.clarify_sessions[id];
            let round = response_in(value)->Ok_0;
            &&& response_in(value) is Ok
            &&& r->Ok_0.0 <==> round.done || (was.round + 1 >= round_cap && round.questions.len()
                == 0)
            &&& r->Ok_0.0 ==> {
                &&& !next.clarify_sessions.contains_key(id)
                &&& next.tasks[id] == (TaskView {
                    detail: Some(was.accumulated),
                    ..store.tasks[id]
                })
            }
            &&& !r->Ok_0.0 ==> {
                let now = next.clarify_sessions[id];
                &&& next.clarify_sessions.contains_key(id)
                &&& now.round == was.round + 1
                &&& now.accumulated == was.accumulated
                &&& now.pending == round.questions
                &&& next.tasks == store.tasks
                &&& next.pending_decisions == store.pending_decisions
                &&& r->Ok_0.1 == 0
            }
            &&& forall|other: Id|
                other != id ==> #[trigger] next.clarify_sessions.contains_key(other)
                    == store.clarify_sessions.contains_key(other) && next.clarify_sessions[other]
                    == store.clarify_sessions[other]
            &&& forall|other: Id|
                other != id ==> (#[trigger] next.tasks.contains_key(other)
                    == store.tasks.contains_key(other)) && next.tasks[other] == store.tasks[other]
        },
{
    if r is Ok {
        let value = crate::json::json_value(reply->Ok_0@)->Ok_0;
        let round = response_in(value)->Ok_0;
        let was = store.clarify_sessions[id];
        let asked = store.with_session(id, crate::sessions::after_round(was, round));
        if r->Ok_0.0 {
            let report = choose|report: AdviseReport| #[trigger]
                is_finalized(asked, id, next, report) && r == Ok::<(bool, usize), String>(
                    (true, report.enqueued),
                );
            tags_only_queue(
                with_lore(asked.without_session(id), id, was.accumulated),
                tags_for(id, asked.clarify_sessions[id].tags),
                next,
                report,
            );
        }
    }
}

/// An interview starts with what the task's detail says, no round and no questions; one that there
/// is stays as it is.
pub proof fn interview_starts_from_the_detail(store: StoreView, id: Id)
    ensures
        ({
            let next = with_interview(store, id);
            let now = next.clarify_sessions[id];
            &&& next.clarify_sessions.contains_key(id)
            &&& store.clarify_sessions.contains_key(id) ==> next == store
            &&& !store.clarify_sessions.contains_key(id) ==> {
                &&& now.round == 0
                &&& now.pending.len() == 0
                &&& now.tags.len() == 0
                &&& store.tasks[id].detail is None ==> now.accumulated.len() == 0
                &&& store.tasks[id].detail is Some ==> now.accumulated == store.tasks[id].detail->0
            }
            &&& next.tasks == store.tasks
            &&& next.pending_decisions == store.pending_decisions
            &&& forall|other: Id|
                other != id ==> #[trigger] next.clarify_sessions.contains_key(other)
                    == store.clarify_sessions.contains_key(other) && next.clarify_sessions[other]
                    == store.clarify_sessions[other]
        }),
{
}

} // verus!

//! Laws on forms that were filled in: what stands behind a label is the answer to its question, and
//! what stands in a line is a step of the chain.

use crate::answer_form::{
    after_line, after_lines, answer_line, comment_lines, condition_lines, flat, form_answers,
    form_lines, intro_line, label_of, question_lines,
};
use crate::decompose::normalized;
use crate::interview_laws::{
    answers_stand_under_their_questions, label_names_its_answer, line_changes_one_answer,
};
use crate::model::{QuestionView, SubTaskProposalView};
use crate::parts::{is_laid_out, one_more_piece, one_piece};
use crate::review_form::{line_step, line_steps, reviewed_steps, CLAMPED_MARK};
use crate::text::{
    decimal, decimal_is_read_back, ends_in, is_line, is_space, last_position, lines_of,
    lines_of_unlines, trimmed, trimmed_end, trimmed_start, unlines,
};
use vstd::prelude::*;

verus! {

/// The line that answers a question, counted from one.
pub open spec fn filled_line(index: int, text: Seq<char>) -> Seq<char> {
    seq!['A'] + decimal(index + 1) + seq![':'] + text
}

/// One line for each question, in their order.
pub open spec fn filled_lines(texts: Seq<Seq<char>>) -> Seq<Seq<char>> {
    Seq::new(texts.len(), |i: int| filled_line(i, texts[i]))
}

proof fn end_is_trimmed_behind(front: Seq<char>, text: Seq<char>)
    requires
        front.len() > 0,
        !is_space(front.last()),
    ensures
        trimmed_end(front + text) == front + trimmed_end(text),
    decreases text.len(),
{
    if text.len() == 0 {
        assert(front + text =~= front);
        assert(front + trimmed_end(text) =~= front);
    } else if is_space(text.last()) {
        end_is_trimmed_behind(front, text.drop_last());
        assert((front + text).drop_last() =~= front + text.drop_last());
    }
}

proof fn space_at_the_end_goes(s: Seq<char>)
    requires
        s.len() > 0,
        is_space(s.last()),
    ensures
        trimmed(s) == trimmed(s.drop_last()),
    decreases s.len(),
{
    let less = s.drop_last();
    if is_space(s[0]) {
        if s.len() == 1 {
            assert(s.skip(1) =~= Seq::<char>::empty());
            assert(less =~= Seq::<char>::empty());
        } else {
            assert(s.skip(1).drop_last() =~= less.skip(1));
            assert(less[0] == s[0]);
            space_at_the_end_goes(s.skip(1));
        }
    } else {
        assert(s.len() > 1);
        assert(less[0] == s[0]);
    }
}

proof fn trimming_both_ends(s: Seq<char>)
    ensures
        trimmed(trimmed_end(s)) == trimmed(s),
    decreases s.len(),
{
    if s.len() > 0 && is_space(s.last()) {
        trimming_both_ends(s.drop_last());
        space_at_the_end_goes(s);
    }
}

proof fn trimming_again(s: Seq<char>)
    ensures
        trimmed(trimmed(s)) == trimmed(s),
{
    crate::text_laws::trimming_cuts_white_space(s);
    let t = trimmed(s);
    assert(trimmed_start(t) == t);
    assert(trimmed_end(t) == t);
}

proof fn filled_line_is_labelled(index: int, text: Seq<char>)
    requires
        0 <= index < usize::MAX,
        is_line(text),
    ensures
        is_line(filled_line(index, text)),
        trimmed(filled_line(index, text)).len() > 0,
        trimmed(filled_line(index, text))[0] == 'A',
        label_of(trimmed(filled_line(index, text))) == Some(
            (index + 1, trimmed(text)),
        ),
{
    let line = filled_line(index, text);
    let front = seq!['A'] + decimal(index + 1) + seq![':'];
    assert(front.last() == ':');
    assert(line[0] == 'A');
    assert(trimmed_start(line) == line);
    end_is_trimmed_behind(front, text);
    label_names_its_answer(index + 1, trimmed_end(text));
    trimming_both_ends(text);
    decimal_is_read_back(index + 1);
    assert forall|i: int| 0 <= i < line.len() implies #[trigger] line[i] != '\n' by {
        let n = decimal(index + 1);
        if 0 < i <= n.len() {
            assert(line[i] == n[i - 1]);
        } else if i > n.len() + 1 {
            assert(line[i] == text[i - n.len() - 2]);
        }
    }
    if text.len() > 0 {
        assert(line.last() == text.last());
    } else {
        assert(line =~= front);
    }
}

proof fn answers_so_far(texts: Seq<Seq<char>>, n: int, k: int)
    requires
        0 <= n <= texts.len() <= usize::MAX,
        0 <= k < texts.len(),
        forall|i: int| 0 <= i < texts.len() ==> is_line(#[trigger] texts[i]),
    ensures
        ({
            let state = after_lines(filled_lines(texts), texts.len() as int, n);
            &&& state.answers.len() == texts.len()
            &&& state.current is Some ==> 0 <= state.current->0 < texts.len()
            &&& k < n ==> state.answers[k] == trimmed(texts[k])
            &&& k >= n ==> state.answers[k].len() == 0
        }),
    decreases n,
{
    if n > 0 {
        answers_so_far(texts, n - 1, k);
        let state = after_lines(filled_lines(texts), texts.len() as int, n - 1);
        let line = filled_lines(texts)[n - 1];
        assert(line == filled_line(n - 1, texts[n - 1]));
        filled_line_is_labelled(n - 1, texts[n - 1]);
        line_changes_one_answer(state, line, k);
        line_changes_one_answer(state, line, n - 1);
        assert(after_lines(filled_lines(texts), texts.len() as int, n) == after_line(state, line));
    }
}

/// A form with one line for each question gives each text as the answer to its question, without
/// the white space around it. A blank text is no answer.
pub proof fn filled_form_is_read(questions: Seq<QuestionView>, texts: Seq<Seq<char>>, i: int)
    requires
        questions.len() == texts.len() <= usize::MAX,
        forall|k: int| 0 <= k < texts.len() ==> is_line(#[trigger] texts[k]),
        forall|a: int, b: int|
            0 <= a < b < questions.len() ==> (#[trigger] questions[a]).id != (
            #[trigger] questions[b]).id,
        0 <= i < texts.len(),
    ensures
        ({
            let answers = form_answers(questions, unlines(filled_lines(texts)));
            &&& answers.contains_key(questions[i].id) <==> trimmed(texts[i]).len() > 0
            &&& trimmed(texts[i]).len() > 0 ==> answers[questions[i].id] == trimmed(texts[i])
            &&& forall|id: Seq<char>| #[trigger]
                answers.contains_key(id) ==> exists|k: int|
                    0 <= k < questions.len() && (#[trigger] questions[k]).id == id
        }),
{
    let lines = filled_lines(texts);
    let n = texts.len() as int;
    assert forall|k: int| 0 <= k < lines.len() implies is_line(#[trigger] lines[k]) by {
        assert(is_line(texts[k]));
        filled_line_is_labelled(k, texts[k]);
    }
    lines_of_unlines(lines);
    answers_so_far(texts, n, i);
    trimming_again(texts[i]);
    answers_stand_under_their_questions(questions, after_lines(lines, n, n).answers, n, i);
}

/// Lines that are neither comments nor labels go on with the answer above them.
pub proof fn answer_goes_on(questions: Seq<QuestionView>, first: Seq<char>, more: Seq<char>)
    requires
        questions.len() == 1,
        is_line(first),
        is_line(more),
        trimmed(first).len() > 0,
        trimmed(more).len() > 0,
        trimmed(more)[0] != '#' && trimmed(more)[0] != 'A',
    ensures
        form_answers(questions, unlines(seq![filled_line(0, first), more])).contains_key(
            questions[0].id,
        ),
        form_answers(questions, unlines(seq![filled_line(0, first), more]))[questions[0].id]
            == trimmed(first) + seq!['\n'] + trimmed(more),
{
    let lines = seq![filled_line(0, first), more];
    filled_line_is_labelled(0, first);
    lines_of_unlines(lines);
    reveal_with_fuel(after_lines, 3);
    let start = after_lines(lines, 1, 0);
    line_changes_one_answer(start, lines[0], 0);
    let one = after_lines(lines, 1, 1);
    assert(one == after_line(start, lines[0]));
    trimming_again(first);
    let two = after_lines(lines, 1, 2);
    assert(two == after_line(one, more));
    let whole = trimmed(first) + seq!['\n'] + trimmed(more);
    assert(two.answers[0] =~= whole);
    crate::text_laws::trimming_cuts_white_space(first);
    crate::text_laws::trimming_cuts_white_space(more);
    assert(whole[0] == trimmed(first)[0]);
    assert(whole.last() == trimmed(more).last());
    assert(trimmed(whole) == whole);
    answers_stand_under_their_questions(questions, two.answers, 1, 0);
}

/// The form of a list of questions shows each question, in their order: its introduction, the
/// condition if there is one, every line of its text as a comment, and the line to answer it in.
pub proof fn form_shows_every_question(questions: Seq<QuestionView>, n: int, i: int)
    requires
        0 <= i < n <= questions.len(),
    ensures
        exists|at: int| #[trigger] shows_question(form_lines(questions, n), questions[i], i, at),
    decreases n,
{
    let before = form_lines(questions, n - 1);
    let lines = form_lines(questions, n);
    if i < n - 1 {
        form_shows_every_question(questions, n - 1, i);
        let at = choose|at: int| #[trigger] shows_question(before, questions[i], i, at);
        assert(shows_question(lines, questions[i], i, at));
    } else {
        let question = questions[i];
        let at = before.len() as int;
        let own = question_lines(question, i);
        let extra: int = if question.depends_on is Some { 1 } else { 0 };
        assert(lines == before + own);
        assert forall|j: int| 0 <= j < own.len() implies lines[at + j] == #[trigger] own[j] by {}
        assert(own[0] == intro_line(question, i));
        assert(condition_lines(question).len() == extra);
        if question.depends_on is Some {
            assert(own[1] == condition_lines(question)[0]);
        }
        assert forall|j: int| 0 <= j < lines_of(question.text).len() implies lines[at + 1 + extra
            + j] == "# "@ + #[trigger] lines_of(question.text)[j] by {
            assert(own[1 + extra + j] == comment_lines(question.text)[j]);
        }
        assert(own[1 + extra + lines_of(question.text).len()] == answer_line(i));
        assert(shows_question(lines, question, i, at));
    }
}

/// Whether a question is shown from a line on.
pub open spec fn shows_question(
    lines: Seq<Seq<char>>,
    question: QuestionView,
    index: int,
    at: int,
) -> bool {
    let extra: int = if question.depends_on is Some { 1 } else { 0 };
    let text = lines_of(question.text);
    &&& 0 <= at
    &&& at + 1 + extra + text.len() < lines.len()
    &&& lines[at] == intro_line(question, index)
    &&& question.depends_on matches Some((id, want)) ==> lines[at + 1] == "# (only if "@ + flat(id)
        + "="@ + flat(want) + ")"@
    &&& forall|j: int|
        0 <= j < text.len() ==> lines[at + 1 + extra + j] == "# "@ + #[trigger] text[j]
    &&& lines[at + 1 + extra + text.len()] == answer_line(index)
}

// ---- Reviewing a chain ----

proof fn not_found(s: Seq<char>, c: char, n: int)
    requires
        0 <= n <= s.len(),
        forall|i: int| 0 <= i < s.len() ==> #[trigger] s[i] != c,
    ensures
        last_position(s, c, n) == -1,
    decreases n,
{
    if n > 0 {
        not_found(s, c, n - 1);
    }
}

/// Blank lines and comments give no step. Any other line without slashes is refused, with words
/// that name the line, counted from one.
pub proof fn line_is_passed_over_or_refused(line: Seq<char>, index: int)
    ensures
        trimmed(line).len() == 0 || trimmed(line)[0] == '#' ==> line_step(line, index) == Ok::<
            Option<SubTaskProposalView>,
            Seq<char>,
        >(None),
        trimmed(line).len() > 0 && trimmed(line)[0] != '#' && (forall|i: int|
            0 <= i < line.len() ==> #[trigger] line[i] != '/') ==> line_step(line, index) is Err,
        line_step(line, index) is Err ==> is_laid_out(
            line_step(line, index)->Err_0,
            seq![
                "invalid review line "@,
                decimal(index + 1),
                ": expected quoted title / minutes / offset"@,
            ],
        ),
{
    let whole = trimmed(line);
    if whole.len() > 0 && whole[0] != '#' && (forall|i: int|
        0 <= i < line.len() ==> #[trigger] line[i] != '/') {
        crate::text_laws::trimming_cuts_white_space(line);
        let (front, back) = choose|front: Seq<char>, back: Seq<char>|
            line == #[trigger] (front + whole + back);
        assert forall|i: int| 0 <= i < whole.len() implies #[trigger] whole[i] != '/' by {
            assert(line[front.len() + i] == whole[i]);
        }
        let body = if ends_in(whole, CLAMPED_MARK@) {
            whole.take(whole.len() - CLAMPED_MARK@.len())
        } else {
            whole
        };
        assert forall|i: int| 0 <= i < body.len() implies #[trigger] body[i] != '/' by {
            assert(body[i] == whole[i]);
        }
        not_found(body, '/', body.len() as int);
    }
    let first = seq!["invalid review line "@];
    let second = seq!["invalid review line "@, decimal(index + 1)];
    let last = ": expected quoted title / minutes / offset"@;
    one_piece("invalid review line "@);
    assert(first.push(decimal(index + 1)) =~= second);
    one_more_piece("invalid review line "@, first, decimal(index + 1));
    assert(second.push(last) =~= seq!["invalid review line "@, decimal(index + 1), last]);
    one_more_piece("invalid review line "@ + decimal(index + 1), second, last);
}

proof fn nothing_so_far(lines: Seq<Seq<char>>, n: int)
    requires
        0 <= n <= lines.len(),
        forall|i: int|
            0 <= i < lines.len() ==> trimmed(#[trigger] lines[i]).len() == 0 || trimmed(lines[i])[0]
                == '#',
    ensures
        line_steps(lines, n) == Ok::<Seq<SubTaskProposalView>, Seq<char>>(Seq::empty()),
    decreases n,
{
    if n > 0 {
        nothing_so_far(lines, n - 1);
        line_is_passed_over_or_refused(lines[n - 1], n - 1);
    }
}

/// A form with nothing but blank lines and comments gives no chain, and is not refused.
pub proof fn form_without_steps_gives_no_chain(lines: Seq<Seq<char>>)
    requires
        forall|i: int|
            0 <= i < lines.len() ==> is_line(#[trigger] lines[i]) && (trimmed(lines[i]).len() == 0
                || trimmed(lines[i])[0] == '#'),
    ensures
        reviewed_steps(unlines(lines)) == Ok::<Option<Seq<SubTaskProposalView>>, Seq<char>>(None),
{
    lines_of_unlines(lines);
    nothing_so_far(lines, lines.len() as int);
}

proof fn steps_so_far(lines: Seq<Seq<char>>, steps: Seq<SubTaskProposalView>, n: int)
    requires
        0 <= n <= lines.len() == steps.len(),
        forall|i: int|
            0 <= i < lines.len() ==> line_step(#[trigger] lines[i], i) == Ok::<
                Option<SubTaskProposalView>,
                Seq<char>,
            >(Some(steps[i])),
    ensures
        line_steps(lines, n) == Ok::<Seq<SubTaskProposalView>, Seq<char>>(steps.take(n)),
    decreases n,
{
    if n > 0 {
        steps_so_far(lines, steps, n - 1);
        assert(steps.take(n - 1).push(steps[n - 1]) =~= steps.take(n));
    } else {
        assert(steps.take(0) =~= Seq::empty());
    }
}

/// The chain of a form has the steps of its lines, in their order; it is given exactly if it can be
/// committed.
pub proof fn lines_give_the_chain(lines: Seq<Seq<char>>, steps: Seq<SubTaskProposalView>)
    requires
        lines.len() == steps.len() > 0,
        forall|i: int|
            0 <= i < lines.len() ==> is_line(#[trigger] lines[i]) && line_step(lines[i], i) == Ok::<
                Option<SubTaskProposalView>,
                Seq<char>,
            >(Some(steps[i])),
    ensures
        normalized(steps) is Ok ==> reviewed_steps(unlines(lines)) == Ok::<
            Option<Seq<SubTaskProposalView>>,
            Seq<char>,
        >(Some(normalized(steps)->Ok_0)),
        normalized(steps) is Err ==> reviewed_steps(unlines(lines)) == Err::<
            Option<Seq<SubTaskProposalView>>,
            Seq<char>,
        >(normalized(steps)->Err_0),
{
    lines_of_unlines(lines);
    steps_so_far(lines, steps, lines.len() as int);
    assert(steps.take(lines.len() as int) =~= steps);
}

proof fn refused_from_there_on(lines: Seq<Seq<char>>, k: int, n: int)
    requires
        0 <= k < lines.len(),
        0 <= n <= lines.len(),
        forall|i: int| 0 <= i < k ==> line_step(#[trigger] lines[i], i) is Ok,
        line_step(lines[k], k) is Err,
    ensures
        n <= k ==> line_steps(lines, n) is Ok,
        n > k ==> line_steps(lines, n) is Err && line_steps(lines, n)->Err_0 == line_step(
            lines[k],
            k,
        )->Err_0,
    decreases n,
{
    if n > 0 {
        refused_from_there_on(lines, k, n - 1);
    }
}

/// The first line of a form that is refused has the form refused, with its words.
pub proof fn refused_line_refuses_the_form(lines: Seq<Seq<char>>, k: int)
    requires
        forall|i: int| 0 <= i < lines.len() ==> is_line(#[trigger] lines[i]),
        0 <= k < lines.len(),
        forall|i: int| 0 <= i < k ==> line_step(#[trigger] lines[i], i) is Ok,
        line_step(lines[k], k) is Err,
    ensures
        reviewed_steps(unlines(lines)) is Err,
        reviewed_steps(unlines(lines))->Err_0 == line_step(lines[k], k)->Err_0,
{
    lines_of_unlines(lines);
    refused_from_there_on(lines, k, lines.len() as int);
}

} // verus!

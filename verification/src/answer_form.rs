//! The form in which questions are answered in an editor.

use crate::clarify::Answers;
use crate::json::{is_quoted, json_text, text_value, write_json, Json};
use crate::model::{question_list, Question, QuestionKind, QuestionView};
use crate::text::{
    chars_list, chars_of, decimal, decimal_is_read_back, find_from, has_no_feed, is_space,
    lines_hold_no_feed, lines_of, lines_of_any_unlines, natural_value, part_of, plain_is_a_line,
    plain_to, position_from, push_decimal, read_usize, split_lines, string_of, trim_chars, trimmed,
    trimmed_end, trimmed_start, unlines, without_return, without_returns,
};
use crate::textmap::{text_values, TextMap};
use vstd::prelude::*;
use vstd::string::*;

verus! {

pub const FORM_LINE_1: &'static str = "# Write answers after A1:, A2:, etc.; continuation lines are allowed.";

pub const FORM_LINE_2: &'static str = "# Lines starting with # are comments. Keep the A-number labels unchanged.";

pub const FORM_LINE_3: &'static str = "# Leave all answers empty (or abort the editor) to stop this interview.";

// ---- Reading ----

/// The label of an answer in a line, and what follows it.
pub open spec fn label_of(line: Seq<char>) -> Option<(int, Seq<char>)> {
    if line.len() > 0 && line[0] == 'A' {
        let rest = line.skip(1);
        let colon = position_from(rest, ':', 0);
        if colon < rest.len() {
            match natural_value(rest.take(colon)) {
                Some(n) if n <= usize::MAX => Some((n, trimmed(rest.skip(colon + 1)))),
                _ => None,
            }
        } else {
            None
        }
    } else {
        None
    }
}

/// Where the reading of a form stands: the question whose answer goes on, if there is one,
/// and the answers so far.
pub struct FormState {
    pub current: Option<int>,
    pub answers: Seq<Seq<char>>,
}

/// The state after a line. Comments are passed over, a label starts an answer, and any other
/// line goes on with the current one.
pub open spec fn after_line(state: FormState, line: Seq<char>) -> FormState {
    let text = trimmed(line);
    if text.len() > 0 && text[0] == '#' {
        state
    } else {
        match label_of(text) {
            Some((n, answer)) => if 1 <= n <= state.answers.len() {
                FormState {
                    current: Some(n - 1),
                    answers: state.answers.update(n - 1, answer),
                }
            } else {
                FormState { current: None, ..state }
            },
            None => match state.current {
                Some(i) => FormState {
                    answers: state.answers.update(
                        i,
                        if state.answers[i].len() == 0 {
                            text
                        } else {
                            state.answers[i].push('\n') + text
                        },
                    ),
                    ..state
                },
                None => state,
            },
        }
    }
}

/// The state after the first `n` lines.
pub open spec fn after_lines(lines: Seq<Seq<char>>, questions: int, n: int) -> FormState
    decreases n,
{
    if n <= 0 {
        FormState { current: None, answers: Seq::new(questions as nat, |i: int| Seq::empty()) }
    } else {
        after_line(after_lines(lines, questions, n - 1), lines[n - 1])
    }
}

/// The answers to the first `n` questions that are not blank, by the ids of the questions.
pub open spec fn answers_by_id(
    questions: Seq<QuestionView>,
    answers: Seq<Seq<char>>,
    n: int,
) -> Map<Seq<char>, Seq<char>>
    decreases n,
{
    if n <= 0 {
        Map::empty()
    } else {
        let before = answers_by_id(questions, answers, n - 1);
        let answer = trimmed(answers[n - 1]);
        if answer.len() == 0 {
            before
        } else {
            before.insert(questions[n - 1].id, answer)
        }
    }
}

/// The answers that a form gives.
pub open spec fn form_answers(questions: Seq<QuestionView>, text: Seq<char>) -> Map<
    Seq<char>,
    Seq<char>,
> {
    let lines = lines_of(text);
    let state = after_lines(lines, questions.len() as int, lines.len() as int);
    answers_by_id(questions, state.answers, questions.len() as int)
}

proof fn state_keeps_shape(lines: Seq<Seq<char>>, questions: int, n: int)
    requires
        0 <= questions,
        0 <= n <= lines.len(),
    ensures
        after_lines(lines, questions, n).answers.len() == questions,
        after_lines(lines, questions, n).current matches Some(i) ==> 0 <= i < questions,
    decreases n,
{
    if n > 0 {
        state_keeps_shape(lines, questions, n - 1);
    }
}

/// Reads the label of an answer in a line.
fn read_label(line: &Vec<char>) -> (label: Option<(usize, Vec<char>)>)
    ensures
        match label_of(line@) {
            Some((n, answer)) => label is Some && (label->0).0 == n && (label->0).1@ == answer,
            None => label is None,
        },
{
    if line.len() == 0 || line[0] != 'A' {
        return None;
    }
    let rest = part_of(line, 1, line.len());
    assert(rest@ =~= line@.skip(1));
    let colon: usize = find_from(&rest, ':', 0);
    if colon == rest.len() {
        return None;
    }
    let number = part_of(&rest, 0, colon);
    assert(number@ =~= rest@.take(colon as int));
    match read_usize(&number) {
        Some(n) => {
            let tail = part_of(&rest, colon + 1, rest.len());
            assert(tail@ =~= rest@.skip(colon + 1));
            Some((n, trim_chars(&tail)))
        },
        None => None,
    }
}

/// An optional index as an integer.
pub open spec fn index_option(i: Option<usize>) -> Option<int> {
    match i {
        Some(x) => Some(x as int),
        None => None,
    }
}

fn append_chars(list: &Vec<char>, more: &Vec<char>) -> (all: Vec<char>)
    ensures
        all@ == if list@.len() == 0 {
            more@
        } else {
            list@.push('\n') + more@
        },
{
    let mut all: Vec<char> = part_of(list, 0, list.len());
    assert(all@ =~= list@);
    if all.len() > 0 {
        all.push('\n');
    }
    let ghost head = all@;
    let mut i: usize = 0;
    while i < more.len()
        invariant
            i <= more@.len(),
            all@ == head + more@.take(i as int),
        decreases more@.len() - i,
    {
        all.push(more[i]);
        i = i + 1;
        assert(all@ =~= head + more@.take(i as int));
    }
    assert(more@.take(more@.len() as int) =~= more@);
    assert(head.len() == 0 ==> all@ =~= more@);
    all
}

fn read_lines(lines: &Vec<Vec<char>>, questions: usize) -> (answers: Vec<Vec<char>>)
    ensures
        chars_list(answers@) == after_lines(
            chars_list(lines@),
            questions as int,
            lines@.len() as int,
        ).answers,
        answers@.len() == questions,
{
    let ghost all = chars_list(lines@);
    let mut answers: Vec<Vec<char>> = Vec::new();
    let mut k: usize = 0;
    while k < questions
        invariant
            k <= questions,
            answers@.len() == k,
            forall|j: int| 0 <= j < k ==> (#[trigger] answers@[j])@.len() == 0,
        decreases questions - k,
    {
        answers.push(Vec::new());
        k = k + 1;
    }
    proof {
        let start = after_lines(all, questions as int, 0).answers;
        assert forall|j: int| 0 <= j < questions implies chars_list(answers@)[j] == start[j] by {
            assert(answers@[j]@ =~= Seq::<char>::empty());
        }
        assert(chars_list(answers@) =~= start);
    }
    let mut current: Option<usize> = None;
    let mut i: usize = 0;
    while i < lines.len()
        invariant
            i <= lines@.len(),
            all == chars_list(lines@),
            answers@.len() == questions,
            chars_list(answers@) == after_lines(all, questions as int, i as int).answers,
            index_option(current) == after_lines(all, questions as int, i as int).current,
        decreases lines@.len() - i,
    {
        proof {
            state_keeps_shape(all, questions as int, i as int);
            assert(all[i as int] == lines@[i as int]@);
        }
        let ghost were = answers@;
        let text = trim_chars(&lines[i]);
        if text.len() > 0 && text[0] == '#' {
        } else {
            match read_label(&text) {
                Some((n, answer)) => {
                    if 1 <= n && n <= questions {
                        current = Some(n - 1);
                        answers[n - 1] = answer;
                        assert(chars_list(answers@) =~= chars_list(were).update(n - 1, answer@));
                    } else {
                        current = None;
                    }
                },
                None => match current {
                    Some(c) => {
                        let longer = append_chars(&answers[c], &text);
                        answers[c] = longer;
                        assert(chars_list(answers@) =~= chars_list(were).update(
                            c as int,
                            longer@,
                        ));
                    },
                    None => {},
                },
            }
        }
        i = i + 1;
    }
    answers
}

/// Reads the answers out of a form. Without any the interview stops.
pub fn parse_editor_answers(questions: &Vec<Question>, text: &str) -> (r: Answers)
    ensures
        r.given() == form_answers(question_list(questions@), text@),
        r.stop == (r.given() == Map::<Seq<char>, Seq<char>>::empty()),
{
    let lines = split_lines(text);
    let raw = read_lines(&lines, questions.len());
    let ghost all = question_list(questions@);
    let ghost given = chars_list(raw@);
    let mut answers: TextMap<String> = TextMap::new();
    let mut i: usize = 0;
    assert(text_values(answers@) =~= answers_by_id(all, given, 0));
    while i < questions.len()
        invariant
            i <= questions@.len(),
            raw@.len() == questions@.len(),
            all == question_list(questions@),
            given == chars_list(raw@),
            text_values(answers@) == answers_by_id(all, given, i as int),
        decreases questions@.len() - i,
    {
        let answer = trim_chars(&raw[i]);
        assert(given[i as int] == raw@[i as int]@);
        assert(all[i as int] == questions@[i as int]@);
        if answer.len() > 0 {
            let ghost before = answers@;
            let answer_text = string_of(&answer, 0, answer.len());
            assert(answer_text@ =~= answer@);
            answers = answers.with(questions[i].id.clone(), answer_text);
            assert(text_values(answers@) =~= text_values(before).insert(
                all[i as int].id,
                answer@,
            ));
        }
        i = i + 1;
    }
    let stop: bool = answers.len() == 0;
    proof {
        assert(given == after_lines(
            lines_of(text@),
            all.len() as int,
            lines_of(text@).len() as int,
        ).answers);
        if answers@ == Map::<Seq<char>, String>::empty() {
            assert(text_values(answers@) =~= Map::<Seq<char>, Seq<char>>::empty());
        }
        if text_values(answers@) == Map::<Seq<char>, Seq<char>>::empty() {
            assert forall|k: Seq<char>| !answers@.dom().contains(k) by {
                assert(text_values(answers@).dom().contains(k) == answers@.dom().contains(k));
            }
            assert(answers@ =~= Map::<Seq<char>, String>::empty());
        }
    }
    Answers { answers, stop }
}

// ---- Rendering ----

/// A text on one line: its line breaks are spaces.
pub open spec fn flat(s: Seq<char>) -> Seq<char> {
    s.map_values(
        |c: char|
            if c == '\r' || c == '\n' {
                ' '
            } else {
                c
            },
    )
}

fn flatten(s: &str) -> (text: String)
    ensures
        text@ == flat(s@),
{
    let chars = chars_of(s);
    let mut text = String::new();
    let mut i: usize = 0;
    while i < chars.len()
        invariant
            i <= chars@.len(),
            text@ == flat(chars@).take(i as int),
        decreases chars@.len() - i,
    {
        if chars[i] == '\r' || chars[i] == '\n' {
            text.push(' ');
        } else {
            text.push(chars[i]);
        }
        i = i + 1;
        assert(text@ =~= flat(chars@).take(i as int));
    }
    assert(text@ =~= flat(chars@));
    text
}

/// The lines at the head of the form.
pub open spec fn form_head() -> Seq<Seq<char>> {
    seq![FORM_LINE_1@, FORM_LINE_2@, FORM_LINE_3@, Seq::<char>::empty()]
}

/// How a question is to be answered, as a label.
pub open spec fn kind_label(kind: QuestionKind) -> Seq<char> {
    match kind {
        QuestionKind::YesNo => "[y/n]"@,
        QuestionKind::ShortText => "[text]"@,
    }
}

/// The line that introduces a question.
pub open spec fn intro_line(question: QuestionView, index: int) -> Seq<char> {
    "# Question "@ + decimal(index + 1) + " (id "@ + json_text(Json::Text(question.id)) + ") "@
        + kind_label(question.kind)
}

/// The line that tells on which answer a question depends.
pub open spec fn condition_lines(question: QuestionView) -> Seq<Seq<char>> {
    match question.depends_on {
        Some((id, want)) => seq!["# (only if "@ + flat(id) + "="@ + flat(want) + ")"@],
        None => Seq::empty(),
    }
}

/// The lines of a question's text, as comments.
pub open spec fn comment_lines(text: Seq<char>) -> Seq<Seq<char>> {
    lines_of(text).map_values(|line: Seq<char>| "# "@ + line)
}

/// The line in which a question is answered.
pub open spec fn answer_line(index: int) -> Seq<char> {
    "A"@ + decimal(index + 1) + ": "@
}

/// The lines of a question.
pub open spec fn question_lines(question: QuestionView, index: int) -> Seq<Seq<char>> {
    seq![intro_line(question, index)] + condition_lines(question) + comment_lines(question.text)
        + seq![answer_line(index), Seq::<char>::empty()]
}

/// The lines of the form for the first `n` questions.
pub open spec fn form_lines(questions: Seq<QuestionView>, n: int) -> Seq<Seq<char>>
    decreases n,
{
    if n <= 0 {
        form_head()
    } else {
        form_lines(questions, n - 1) + question_lines(questions[n - 1], n - 1)
    }
}

proof fn unlines_of_more(lines: Seq<Seq<char>>, more: Seq<Seq<char>>)
    ensures
        unlines(lines + more) == unlines(lines) + unlines(more),
    decreases more.len(),
{
    if more.len() == 0 {
        assert(lines + more =~= lines);
        assert(unlines(lines) + unlines(more) =~= unlines(lines));
    } else {
        unlines_of_more(lines, more.drop_last());
        assert((lines + more).drop_last() =~= lines + more.drop_last());
        assert(unlines(lines + more) =~= unlines(lines) + unlines(more));
    }
}

/// Appends a line and its line feed.
fn push_line(text: &mut String, line: &str)
    ensures
        final(text)@ == old(text)@ + unlines(seq![line@]),
{
    text.append(line);
    text.push('\n');
    proof {
        reveal_with_fuel(unlines, 2);
        assert(seq![line@].drop_last() =~= Seq::empty());
        assert(unlines(seq![line@]) =~= line@.push('\n'));
        assert(text@ =~= old(text)@ + unlines(seq![line@]));
    }
}

fn push_intro(text: &mut String, question: &Question, index: usize)
    ensures
        final(text)@ == old(text)@ + unlines(seq![intro_line(question@, index as int)]),
        is_quoted(json_text(Json::Text(question@.id))),
{
    let mut line = "# Question ".to_owned();
    push_decimal(&mut line, index as i128 + 1);
    line.append(" (id ");
    line.append(write_json(&text_value(question.id.as_str())).as_str());
    line.append(") ");
    match question.kind {
        QuestionKind::YesNo => line.append("[y/n]"),
        QuestionKind::ShortText => line.append("[text]"),
    }
    push_line(text, line.as_str());
}

fn push_condition(text: &mut String, question: &Question)
    ensures
        final(text)@ == old(text)@ + unlines(condition_lines(question@)),
{
    match &question.depends_on {
        Some(condition) => {
            let mut line = "# (only if ".to_owned();
            line.append(flatten(condition.0.as_str()).as_str());
            line.append("=");
            line.append(flatten(condition.1.as_str()).as_str());
            line.append(")");
            push_line(text, line.as_str());
        },
        None => {
            assert(text@ =~= old(text)@ + unlines(condition_lines(question@)));
        },
    }
}

fn push_comments(text: &mut String, comment: &str)
    ensures
        final(text)@ == old(text)@ + unlines(comment_lines(comment@)),
{
    let lines = split_lines(comment);
    let ghost all = comment_lines(comment@);
    let mut i: usize = 0;
    assert(all.take(0) =~= Seq::empty());
    assert(text@ =~= old(text)@ + unlines(all.take(0)));
    while i < lines.len()
        invariant
            i <= lines@.len(),
            chars_list(lines@) == lines_of(comment@),
            all == comment_lines(comment@),
            text@ == old(text)@ + unlines(all.take(i as int)),
        decreases lines@.len() - i,
    {
        let mut line = "# ".to_owned();
        line.append(string_of(&lines[i], 0, lines[i].len()).as_str());
        let ghost before = text@;
        proof {
            assert(lines@[i as int]@.subrange(0, lines@[i as int]@.len() as int)
                =~= lines@[i as int]@);
            assert(chars_list(lines@)[i as int] == lines@[i as int]@);
            assert(line@ == all[i as int]);
        }
        push_line(text, line.as_str());
        proof {
            assert(all.take(i + 1) =~= all.take(i as int) + seq![line@]);
            unlines_of_more(all.take(i as int), seq![line@]);
            assert(text@ =~= old(text)@ + unlines(all.take(i + 1)));
        }
        i = i + 1;
    }
    assert(all.take(all.len() as int) =~= all);
}

fn push_question(text: &mut String, question: &Question, index: usize)
    ensures
        final(text)@ == old(text)@ + unlines(question_lines(question@, index as int)),
        is_quoted(json_text(Json::Text(question@.id))),
{
    let ghost before = text@;
    push_intro(text, question, index);
    push_condition(text, question);
    push_comments(text, question.text.as_str());
    let mut line = "A".to_owned();
    push_decimal(&mut line, index as i128 + 1);
    line.append(": ");
    push_line(text, line.as_str());
    push_line(text, "");
    proof {
        reveal_strlit("");
        assert(""@ =~= Seq::<char>::empty());
        let one = seq![intro_line(question@, index as int)];
        let two = condition_lines(question@);
        let three = comment_lines(question@.text);
        let four = seq![answer_line(index as int)];
        let five = seq![Seq::<char>::empty()];
        unlines_of_more(one, two);
        unlines_of_more(one + two, three);
        unlines_of_more(one + two + three, four);
        unlines_of_more(one + two + three + four, five);
        assert(one + two + three + four + five =~= question_lines(question@, index as int));
        assert(text@ =~= before + unlines(question_lines(question@, index as int)));
    }
}

fn head_text() -> (text: String)
    ensures
        text@ == unlines(form_head()),
{
    let mut text = String::new();
    push_line(&mut text, FORM_LINE_1);
    push_line(&mut text, FORM_LINE_2);
    push_line(&mut text, FORM_LINE_3);
    push_line(&mut text, "");
    proof {
        reveal_strlit("");
        assert(""@ =~= Seq::<char>::empty());
        let one = seq![FORM_LINE_1@];
        let two = seq![FORM_LINE_2@];
        let three = seq![FORM_LINE_3@];
        let four = seq![Seq::<char>::empty()];
        unlines_of_more(one, two);
        unlines_of_more(one + two, three);
        unlines_of_more(one + two + three, four);
        assert(one + two + three + four =~= form_head());
        assert(text@ =~= unlines(form_head()));
    }
    text
}

/// The form in which questions are answered. From an unchanged form no answer is read.
pub fn render_editor_form(questions: &Vec<Question>) -> (form: String)
    ensures
        form@ == unlines(form_lines(question_list(questions@), questions@.len() as int)),
        form_answers(question_list(questions@), form@) == Map::<Seq<char>, Seq<char>>::empty(),
{
    let ghost all = question_list(questions@);
    let mut form = head_text();
    let mut i: usize = 0;
    while i < questions.len()
        invariant
            i <= questions@.len(),
            all == question_list(questions@),
            form@ == unlines(form_lines(all, i as int)),
            forall|k: int| 0 <= k < i ==> is_quoted(json_text(Json::Text((#[trigger] all[k]).id))),
        decreases questions@.len() - i,
    {
        let ghost before = form@;
        assert(all[i as int] == questions@[i as int]@);
        push_question(&mut form, &questions[i], i);
        proof {
            unlines_of_more(form_lines(all, i as int), question_lines(all[i as int], i as int));
        }
        i = i + 1;
    }
    proof {
        blank_form_has_no_answers(all);
    }
    form
}

// ---- An unchanged form ----

/// Whether a line is passed over, or leaves every answer empty.
spec fn is_harmless(line: Seq<char>) -> bool {
    let text = trimmed(line);
    ||| text.len() > 0 && text[0] == '#'
    ||| text.len() == 0
    ||| label_of(text) matches Some((n, answer)) && answer.len() == 0
}

proof fn harmless_lines_tell_nothing(lines: Seq<Seq<char>>, questions: int, n: int)
    requires
        0 <= questions,
        0 <= n <= lines.len(),
        forall|i: int| 0 <= i < lines.len() ==> is_harmless(#[trigger] lines[i]),
    ensures
        forall|k: int|
            0 <= k < questions ==> (#[trigger] after_lines(lines, questions, n).answers[k]).len()
                == 0,
        after_lines(lines, questions, n).answers.len() == questions,
    decreases n,
{
    state_keeps_shape(lines, questions, n);
    if n > 0 {
        harmless_lines_tell_nothing(lines, questions, n - 1);
        state_keeps_shape(lines, questions, n - 1);
        assert(is_harmless(lines[n - 1]));
        let was = after_lines(lines, questions, n - 1);
        let text = trimmed(lines[n - 1]);
        if text.len() == 0 {
            assert(label_of(text) is None);
        }
    }
}

proof fn empty_answers_give_nothing(
    questions: Seq<QuestionView>,
    answers: Seq<Seq<char>>,
    n: int,
)
    requires
        0 <= n <= answers.len(),
        forall|k: int| 0 <= k < answers.len() ==> (#[trigger] answers[k]).len() == 0,
    ensures
        answers_by_id(questions, answers, n) == Map::<Seq<char>, Seq<char>>::empty(),
    decreases n,
{
    if n > 0 {
        empty_answers_give_nothing(questions, answers, n - 1);
        assert(answers[n - 1].len() == 0);
        assert(trimmed(answers[n - 1]).len() == 0);
    }
}

/// A line that starts with a number sign is passed over, with or without a carriage return.
proof fn comment_is_harmless(line: Seq<char>)
    requires
        line.len() > 0,
        line[0] == '#',
    ensures
        is_harmless(without_return(line)),
{
    let s = without_return(line);
    if line.len() == 1 {
        assert(s == line);
    }
    assert(s.len() > 0 && s[0] == '#');
    assert(trimmed_start(s) == s);
    trimmed_end_keeps_first(s);
}

proof fn trimmed_end_keeps_first(s: Seq<char>)
    requires
        s.len() > 0,
        !is_space(s[0]),
    ensures
        trimmed_end(s).len() > 0,
        trimmed_end(s)[0] == s[0],
    decreases s.len(),
{
    if is_space(s.last()) {
        assert(s.len() > 1);
        trimmed_end_keeps_first(s.drop_last());
    }
}

proof fn answer_line_is_harmless(index: int)
    requires
        0 <= index < usize::MAX,
    ensures
        is_harmless(without_return(answer_line(index))),
        has_no_feed(answer_line(index)),
{
    reveal_strlit("A");
    reveal_strlit(": ");
    let number = decimal(index + 1);
    decimal_is_read_back(index + 1);
    let line = answer_line(index);
    assert(line.last() == ' ');
    assert(without_return(line) == line);
    let text = line.drop_last();
    assert(text.last() == ':');
    assert(trimmed_start(line) == line);
    assert(trimmed_end(text) == text);
    assert(trimmed_end(line) == text);
    assert(trimmed(line) == text);
    assert(text[0] == 'A');
    let rest = text.skip(1);
    assert(rest =~= number.push(':'));
    colon_is_first(number, 0);
    assert(position_from(rest, ':', 0) == number.len());
    assert(rest.take(number.len() as int) =~= number);
    assert(rest.skip((number.len() + 1) as int) =~= Seq::<char>::empty());
    assert(trimmed(Seq::<char>::empty()) =~= Seq::<char>::empty());
    assert(number[0] != '-') by {
        digits_are_not_signed(index + 1);
    }
    assert(natural_value(number) == Some(index + 1)) by {
        digits_are_not_signed(index + 1);
    }
    assert forall|i: int| 0 <= i < line.len() implies #[trigger] line[i] != '\n' by {
        if 1 <= i < 1 + number.len() {
            assert(line[i] == number[i - 1]);
        }
    }
}

proof fn digits_are_not_signed(n: int)
    requires
        n >= 0,
    ensures
        decimal(n).len() > 0,
        decimal(n)[0] != '-',
        natural_value(decimal(n)) == Some(n),
{
    decimal_is_read_back(n);
    crate::text::digits_are_digits(n as nat);
}

proof fn colon_is_first(number: Seq<char>, from: int)
    requires
        0 <= from <= number.len(),
        forall|i: int|
            0 <= i < number.len() ==> '0' <= #[trigger] number[i] <= '9' || number[i] == '-',
    ensures
        position_from(number.push(':'), ':', from) == number.len(),
    decreases number.len() - from,
{
    if from < number.len() {
        assert(number.push(':')[from] == number[from]);
        colon_is_first(number, from + 1);
    }
}

proof fn flat_has_no_feed(s: Seq<char>)
    ensures
        has_no_feed(flat(s)),
{
}

proof fn head_is_harmless()
    ensures
        forall|i: int|
            0 <= i < form_head().len() ==> has_no_feed(#[trigger] form_head()[i]) && is_harmless(
                without_return(form_head()[i]),
            ),
{
    head_lines_are_comments();
    comment_is_harmless(FORM_LINE_1@);
    comment_is_harmless(FORM_LINE_2@);
    comment_is_harmless(FORM_LINE_3@);
    let none = Seq::<char>::empty();
    assert(trimmed(none) =~= none);
    assert(without_return(none) == none);
    assert forall|i: int| 0 <= i < form_head().len() implies has_no_feed(
        #[trigger] form_head()[i],
    ) && is_harmless(without_return(form_head()[i])) by {
        if i == 3 {
            assert(form_head()[i] == none);
        }
    }
}

proof fn head_lines_are_comments()
    ensures
        FORM_LINE_1@.len() > 0 && FORM_LINE_1@[0] == '#' && has_no_feed(FORM_LINE_1@),
        FORM_LINE_2@.len() > 0 && FORM_LINE_2@[0] == '#' && has_no_feed(FORM_LINE_2@),
        FORM_LINE_3@.len() > 0 && FORM_LINE_3@[0] == '#' && has_no_feed(FORM_LINE_3@),
{
    head_line_1();
    head_line_2();
    head_line_3();
}

proof fn head_line_1()
    ensures
        FORM_LINE_1@.len() > 0 && FORM_LINE_1@[0] == '#' && has_no_feed(FORM_LINE_1@),
{
    reveal_strlit("# Write answers after A1:, A2:, etc.; continuation lines are allowed.");
    reveal_with_fuel(plain_to, 100);
    assert(plain_to(FORM_LINE_1@, FORM_LINE_1@.len()));
    plain_is_a_line(FORM_LINE_1@);
}

proof fn head_line_2()
    ensures
        FORM_LINE_2@.len() > 0 && FORM_LINE_2@[0] == '#' && has_no_feed(FORM_LINE_2@),
{
    reveal_strlit("# Lines starting with # are comments. Keep the A-number labels unchanged.");
    reveal_with_fuel(plain_to, 100);
    assert(plain_to(FORM_LINE_2@, FORM_LINE_2@.len()));
    plain_is_a_line(FORM_LINE_2@);
}

proof fn head_line_3()
    ensures
        FORM_LINE_3@.len() > 0 && FORM_LINE_3@[0] == '#' && has_no_feed(FORM_LINE_3@),
{
    reveal_strlit("# Leave all answers empty (or abort the editor) to stop this interview.");
    reveal_with_fuel(plain_to, 100);
    assert(plain_to(FORM_LINE_3@, FORM_LINE_3@.len()));
    plain_is_a_line(FORM_LINE_3@);
}

proof fn intro_is_harmless(question: QuestionView, index: int)
    requires
        is_quoted(json_text(Json::Text(question.id))),
        0 <= index,
    ensures
        is_harmless(without_return(intro_line(question, index))),
        has_no_feed(intro_line(question, index)),
{
    reveal_strlit("# Question ");
    reveal_strlit(" (id ");
    reveal_strlit(") ");
    reveal_strlit("[y/n]");
    reveal_strlit("[text]");
    let number = decimal(index + 1);
    let quoted = json_text(Json::Text(question.id));
    let label = kind_label(question.kind);
    decimal_is_read_back(index + 1);
    let line = intro_line(question, index);
    assert(line[0] == '#');
    comment_is_harmless(line);
    let a = "# Question "@;
    let b = " (id "@;
    let c = ") "@;
    assert forall|i: int| 0 <= i < line.len() implies #[trigger] line[i] != '\n' by {
        let n1 = a.len() as int;
        let n2 = n1 + number.len();
        let n3 = n2 + b.len();
        let n4 = n3 + quoted.len();
        let n5 = n4 + c.len();
        if i < n1 {
            assert(line[i] == a[i]);
        } else if i < n2 {
            assert(line[i] == number[i - n1]);
        } else if i < n3 {
            assert(line[i] == b[i - n2]);
        } else if i < n4 {
            assert(line[i] == quoted[i - n3]);
        } else if i < n5 {
            assert(line[i] == c[i - n4]);
        } else {
            assert(line[i] == label[i - n5]);
        }
    }
}

proof fn condition_is_harmless(question: QuestionView)
    ensures
        forall|i: int|
            0 <= i < condition_lines(question).len() ==> has_no_feed(
                #[trigger] condition_lines(question)[i],
            ) && is_harmless(without_return(condition_lines(question)[i])),
{
    match question.depends_on {
        Some((id, want)) => {
            reveal_strlit("# (only if ");
            reveal_strlit("=");
            reveal_strlit(")");
            flat_has_no_feed(id);
            flat_has_no_feed(want);
            let line = "# (only if "@ + flat(id) + "="@ + flat(want) + ")"@;
            assert(line[0] == '#');
            comment_is_harmless(line);
            let a = "# (only if "@;
            assert forall|i: int| 0 <= i < line.len() implies #[trigger] line[i] != '\n' by {
                let n1 = a.len() as int;
                let n2 = n1 + flat(id).len();
                let n3 = n2 + 1;
                let n4 = n3 + flat(want).len();
                if i < n1 {
                    assert(line[i] == a[i]);
                } else if i < n2 {
                    assert(line[i] == flat(id)[i - n1]);
                } else if i < n3 {
                } else if i < n4 {
                    assert(line[i] == flat(want)[i - n3]);
                }
            }
        },
        None => {},
    }
}

proof fn comments_are_harmless(text: Seq<char>)
    ensures
        forall|i: int|
            0 <= i < comment_lines(text).len() ==> has_no_feed(#[trigger] comment_lines(text)[i])
                && is_harmless(without_return(comment_lines(text)[i])),
{
    reveal_strlit("# ");
    lines_hold_no_feed(text, 0);
    assert forall|i: int| 0 <= i < comment_lines(text).len() implies has_no_feed(
        #[trigger] comment_lines(text)[i],
    ) && is_harmless(without_return(comment_lines(text)[i])) by {
        let inner = lines_of(text)[i];
        let line = comment_lines(text)[i];
        assert(line == "# "@ + inner);
        assert(has_no_feed(inner));
        assert(line[0] == '#');
        comment_is_harmless(line);
        assert forall|k: int| 0 <= k < line.len() implies #[trigger] line[k] != '\n' by {
            if k >= 2 {
                assert(line[k] == inner[k - 2]);
            }
        }
    }
}

spec fn all_harmless(lines: Seq<Seq<char>>) -> bool {
    forall|i: int|
        0 <= i < lines.len() ==> has_no_feed(#[trigger] lines[i]) && is_harmless(
            without_return(lines[i]),
        )
}

proof fn harmless_together(a: Seq<Seq<char>>, b: Seq<Seq<char>>)
    requires
        all_harmless(a),
        all_harmless(b),
    ensures
        all_harmless(a + b),
{
    assert forall|i: int| 0 <= i < (a + b).len() implies has_no_feed(#[trigger] (a + b)[i])
        && is_harmless(without_return((a + b)[i])) by {
        if i < a.len() {
            assert((a + b)[i] == a[i]);
        } else {
            assert((a + b)[i] == b[i - a.len()]);
        }
    }
}

proof fn form_is_harmless(questions: Seq<QuestionView>, n: int)
    requires
        0 <= n <= questions.len() <= usize::MAX,
        forall|k: int|
            0 <= k < questions.len() ==> is_quoted(json_text(Json::Text((#[trigger] questions[k]).id))),
    ensures
        all_harmless(form_lines(questions, n)),
    decreases n,
{
    if n == 0 {
        head_is_harmless();
    } else {
        form_is_harmless(questions, n - 1);
        let question = questions[n - 1];
        assert(is_quoted(json_text(Json::Text(question.id))));
        intro_is_harmless(question, n - 1);
        condition_is_harmless(question);
        comments_are_harmless(question.text);
        answer_line_is_harmless(n - 1);
        let none = Seq::<char>::empty();
        assert(trimmed(none) =~= none);
        assert(without_return(none) == none);
        let one = seq![intro_line(question, n - 1)];
        let last = seq![answer_line(n - 1), none];
        assert(all_harmless(one));
        assert(all_harmless(last));
        harmless_together(one, condition_lines(question));
        harmless_together(one + condition_lines(question), comment_lines(question.text));
        harmless_together(
            one + condition_lines(question) + comment_lines(question.text),
            last,
        );
        harmless_together(form_lines(questions, n - 1), question_lines(question, n - 1));
    }
}

/// From an unchanged form no answer is read.
proof fn blank_form_has_no_answers(questions: Seq<QuestionView>)
    requires
        questions.len() <= usize::MAX,
        forall|k: int|
            0 <= k < questions.len() ==> is_quoted(json_text(Json::Text((#[trigger] questions[k]).id))),
    ensures
        form_answers(questions, unlines(form_lines(questions, questions.len() as int))) == Map::<
            Seq<char>,
            Seq<char>,
        >::empty(),
{
    let n = questions.len() as int;
    let lines = form_lines(questions, n);
    form_is_harmless(questions, n);
    lines_of_any_unlines(lines);
    let read = without_returns(lines);
    assert forall|i: int| 0 <= i < read.len() implies is_harmless(#[trigger] read[i]) by {
        assert(read[i] == without_return(lines[i]));
    }
    harmless_lines_tell_nothing(read, n, read.len() as int);
    empty_answers_give_nothing(questions, after_lines(read, n, read.len() as int).answers, n);
}

} // verus!

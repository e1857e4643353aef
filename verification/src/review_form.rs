//! The form in which a proposed chain is reviewed in an editor.

use crate::decompose::{normalize, normalized};
use crate::json::{
    is_quoted, json_string_value, json_text, read_string, text_value, write_json, Json,
};
use crate::model::{step_list, SubTaskProposal, SubTaskProposalView};
use crate::text::{
    chars_list, decimal, decimal_is_read_back, ends_in, fails_with, find_last, has_part_at,
    integer_value, is_line, is_space, last_position, last_position_is, lines_of, lines_of_unlines,
    part_of, plain_is_a_line, plain_to, push_decimal, read_i64, split_lines, string_of, trim_chars,
    trimmed, trimmed_end, trimmed_start, chars_of, unlines,
};
use vstd::prelude::*;
use vstd::string::*;

verus! {

pub const REVIEW_LINE_1: &'static str = "# Decomposition review: saving and closing successfully COMMITs this replacement.";

pub const REVIEW_LINE_2: &'static str = "# Delete all task lines or abort the editor to cancel without changes.";

pub const REVIEW_LINE_3: &'static str = "# One line per sub-task: JSON-quoted title / duration minutes / offset minutes";

pub const REVIEW_LINE_4: &'static str = "# Reorder, add, or remove lines. First offset is ignored; later offsets follow the previous task's end.";

pub const REVIEW_LINE_5: &'static str = "# Durations below 1 minute are clamped to 1 on commit.";

/// What stands behind a step that was lengthened to a minute.
pub const CLAMPED_MARK: &'static str = " # clamped to 1 minute";

/// The lines at the head of the form.
pub open spec fn review_head() -> Seq<Seq<char>> {
    seq![
        REVIEW_LINE_1@,
        REVIEW_LINE_2@,
        REVIEW_LINE_3@,
        REVIEW_LINE_4@,
        REVIEW_LINE_5@,
        Seq::<char>::empty(),
    ]
}

/// The line of a step: its title in quotes, its duration and its offset.
pub open spec fn step_line(step: SubTaskProposalView) -> Seq<char> {
    json_text(Json::Text(step.title)) + " / "@ + decimal(step.duration_minutes as int) + " / "@
        + decimal(step.offset_minutes as int) + if step.clamped {
        CLAMPED_MARK@
    } else {
        Seq::<char>::empty()
    }
}

/// The lines of the form for a chain.
pub open spec fn review_lines(steps: Seq<SubTaskProposalView>) -> Seq<Seq<char>> {
    review_head() + steps.map_values(|s: SubTaskProposalView| step_line(s))
}

/// What is wrong with a line of the form.
pub open spec fn bad_line(index: int) -> Seq<char> {
    "invalid review line "@ + decimal(index + 1) + ": expected quoted title / minutes / offset"@
}

/// A number that fits 64 bits.
pub open spec fn small_integer(s: Seq<char>) -> Option<i64> {
    match integer_value(s) {
        Some(n) if i64::MIN <= n <= i64::MAX => Some(n as i64),
        _ => None,
    }
}

/// The step that a line of the form gives; blank lines and comments give none. The last two
/// slashes part the fields, so that a quoted title can itself contain slashes.
pub open spec fn line_step(line: Seq<char>, index: int) -> Result<
    Option<SubTaskProposalView>,
    Seq<char>,
> {
    let whole = trimmed(line);
    if whole.len() == 0 || whole[0] == '#' {
        Ok(None)
    } else {
        let clamped = ends_in(whole, CLAMPED_MARK@);
        let body = if clamped {
            whole.take(whole.len() - CLAMPED_MARK@.len())
        } else {
            whole
        };
        let second = last_position(body, '/', body.len() as int);
        let first = last_position(body, '/', second);
        if second < 0 || first < 0 {
            Err(bad_line(index))
        } else {
            match (
                small_integer(trimmed(body.skip(second + 1))),
                small_integer(trimmed(body.subrange(first + 1, second))),
                json_string_value(trimmed(body.take(first))),
            ) {
                (Some(offset_minutes), Some(duration_minutes), Some(title)) => Ok(
                    Some(SubTaskProposalView { title, duration_minutes, offset_minutes, clamped }),
                ),
                _ => Err(bad_line(index)),
            }
        }
    }
}

/// The steps that the first `n` lines give, or what is wrong with the first bad one.
pub open spec fn line_steps(lines: Seq<Seq<char>>, n: int) -> Result<
    Seq<SubTaskProposalView>,
    Seq<char>,
>
    decreases n,
{
    if n <= 0 {
        Ok(Seq::empty())
    } else {
        match line_steps(lines, n - 1) {
            Ok(steps) => match line_step(lines[n - 1], n - 1) {
                Ok(Some(step)) => Ok(steps.push(step)),
                Ok(None) => Ok(steps),
                Err(words) => Err(words),
            },
            Err(words) => Err(words),
        }
    }
}

/// The chain that a form gives; nothing if it has no steps.
pub open spec fn reviewed_steps(text: Seq<char>) -> Result<
    Option<Seq<SubTaskProposalView>>,
    Seq<char>,
> {
    let lines = lines_of(text);
    match line_steps(lines, lines.len() as int) {
        Ok(steps) => if steps.len() == 0 {
            Ok(None)
        } else {
            match normalized(steps) {
                Ok(steps) => Ok(Some(steps)),
                Err(words) => Err(words),
            }
        },
        Err(words) => Err(words),
    }
}

fn bad_line_words(index: usize) -> (words: String)
    ensures
        words@ == bad_line(index as int),
{
    let mut words = "invalid review line ".to_owned();
    push_decimal(&mut words, index as i128 + 1);
    words.append(": expected quoted title / minutes / offset");
    words
}

/// Reads one line of the form.
fn read_line(line: &Vec<char>, index: usize) -> (r: Result<Option<SubTaskProposal>, String>)
    ensures
        match line_step(line@, index as int) {
            Ok(Some(step)) => r is Ok && r->Ok_0 is Some && r->Ok_0->0@ == step,
            Ok(None) => r is Ok && r->Ok_0 is None,
            Err(words) => fails_with(r, words),
        },
{
    let whole = trim_chars(line);
    if whole.len() == 0 || whole[0] == '#' {
        return Ok(None);
    }
    let mark = chars_of(CLAMPED_MARK);
    let mut end: usize = whole.len();
    let mut clamped: bool = false;
    if mark.len() <= whole.len() {
        clamped = has_part_at(&whole, whole.len() - mark.len(), &mark);
        let ghost tail = whole@.skip(whole@.len() - mark@.len());
        assert(tail.take(mark@.len() as int) =~= tail);
        if clamped {
            end = whole.len() - mark.len();
        }
    }
    let body = part_of(&whole, 0, end);
    assert(body@ =~= whole@.take(end as int));
    assert(clamped == ends_in(whole@, CLAMPED_MARK@));
    assert(!clamped ==> body@ =~= whole@);
    let second: usize = match find_last(&body, '/', body.len()) {
        Some(at) => at,
        None => {
            return Err(bad_line_words(index));
        },
    };
    let first: usize = match find_last(&body, '/', second) {
        Some(at) => at,
        None => {
            return Err(bad_line_words(index));
        },
    };
    let offset_part = part_of(&body, second + 1, body.len());
    assert(offset_part@ =~= body@.skip(second + 1));
    let offset: Option<i64> = read_i64(&trim_chars(&offset_part));
    let duration_part = part_of(&body, first + 1, second);
    let duration: Option<i64> = read_i64(&trim_chars(&duration_part));
    let title_part = part_of(&body, 0, first);
    assert(title_part@ =~= body@.take(first as int));
    let quoted = trim_chars(&title_part);
    let quoted_text = string_of(&quoted, 0, quoted.len());
    assert(quoted_text@ =~= quoted@);
    let title: Option<String> = read_string(quoted_text.as_str());
    match (offset, duration, title) {
        (Some(offset_minutes), Some(duration_minutes), Some(title)) => Ok(
            Some(SubTaskProposal { title, duration_minutes, offset_minutes, clamped }),
        ),
        _ => Err(bad_line_words(index)),
    }
}

proof fn bad_line_spoils_all(lines: Seq<Seq<char>>, n: int, m: int)
    requires
        0 <= n <= m <= lines.len(),
        line_steps(lines, n) is Err,
    ensures
        line_steps(lines, m) == line_steps(lines, n),
    decreases m - n,
{
    if n < m {
        bad_line_spoils_all(lines, n, m - 1);
    }
}

/// Reads the form: the chain to commit, or nothing if all steps were deleted.
pub fn parse_review(text: &str) -> (r: Result<Option<Vec<SubTaskProposal>>, String>)
    ensures
        match reviewed_steps(text@) {
            Ok(Some(steps)) => r is Ok && r->Ok_0 is Some && step_list(r->Ok_0->0@) == steps,
            Ok(None) => r is Ok && r->Ok_0 is None,
            Err(words) => fails_with(r, words),
        },
{
    let lines = split_lines(text);
    let ghost all = lines_of(text@);
    let mut steps: Vec<SubTaskProposal> = Vec::new();
    let mut i: usize = 0;
    assert(step_list(steps@) =~= Seq::empty());
    while i < lines.len()
        invariant
            i <= lines@.len(),
            all == lines_of(text@),
            all == chars_list(lines@),
            line_steps(all, i as int) == Ok::<Seq<SubTaskProposalView>, Seq<char>>(
                step_list(steps@),
            ),
        decreases lines@.len() - i,
    {
        assert(all[i as int] == lines@[i as int]@);
        match read_line(&lines[i], i) {
            Ok(Some(step)) => {
                let ghost were = steps@;
                steps.push(step);
                assert(step_list(steps@) =~= step_list(were).push(step@));
            },
            Ok(None) => {},
            Err(words) => {
                proof {
                    bad_line_spoils_all(all, i + 1, all.len() as int);
                }
                return Err(words);
            },
        }
        i = i + 1;
    }
    if steps.is_empty() {
        return Ok(None);
    }
    match normalize(&mut steps) {
        Ok(()) => Ok(Some(steps)),
        Err(words) => Err(words),
    }
}

// ---- Rendering ----

proof fn head_is_comments()
    ensures
        forall|i: int|
            0 <= i < review_head().len() ==> is_line(#[trigger] review_head()[i]) && line_step(
                review_head()[i],
                i,
            ) == Ok::<Option<SubTaskProposalView>, Seq<char>>(None),
{
    comment_is_skipped_1();
    comment_is_skipped_2();
    comment_is_skipped_3();
    comment_is_skipped_4();
    comment_is_skipped_5();
    let none = Seq::<char>::empty();
    assert(trimmed(none) =~= none);
    assert(is_line(none));
    assert forall|i: int| 0 <= i < review_head().len() implies is_line(#[trigger] review_head()[i])
        && line_step(review_head()[i], i) == Ok::<Option<SubTaskProposalView>, Seq<char>>(None) by {
        if i == 0 {
            comment_gives_nothing(REVIEW_LINE_1@, i);
        } else if i == 1 {
            comment_gives_nothing(REVIEW_LINE_2@, i);
        } else if i == 2 {
            comment_gives_nothing(REVIEW_LINE_3@, i);
        } else if i == 3 {
            comment_gives_nothing(REVIEW_LINE_4@, i);
        } else if i == 4 {
            comment_gives_nothing(REVIEW_LINE_5@, i);
        } else {
            assert(review_head()[i] == none);
        }
    }
}

spec fn is_comment(s: Seq<char>) -> bool {
    s.len() > 0 && s[0] == '#' && !is_space(s.last()) && is_line(s)
}

proof fn comment_gives_nothing(s: Seq<char>, index: int)
    requires
        is_comment(s),
    ensures
        line_step(s, index) == Ok::<Option<SubTaskProposalView>, Seq<char>>(None),
{
    assert(trimmed(s) == s);
}

proof fn comment_is_skipped_1()
    ensures
        is_comment(REVIEW_LINE_1@),
{
    reveal_strlit(
        "# Decomposition review: saving and closing successfully COMMITs this replacement.",
    );
    reveal_with_fuel(plain_to, 120);
    assert(plain_to(REVIEW_LINE_1@, REVIEW_LINE_1@.len()));
    plain_is_a_line(REVIEW_LINE_1@);
}

proof fn comment_is_skipped_2()
    ensures
        is_comment(REVIEW_LINE_2@),
{
    reveal_strlit("# Delete all task lines or abort the editor to cancel without changes.");
    reveal_with_fuel(plain_to, 120);
    assert(plain_to(REVIEW_LINE_2@, REVIEW_LINE_2@.len()));
    plain_is_a_line(REVIEW_LINE_2@);
}

proof fn comment_is_skipped_3()
    ensures
        is_comment(REVIEW_LINE_3@),
{
    reveal_strlit(
        "# One line per sub-task: JSON-quoted title / duration minutes / offset minutes",
    );
    reveal_with_fuel(plain_to, 120);
    assert(plain_to(REVIEW_LINE_3@, REVIEW_LINE_3@.len()));
    plain_is_a_line(REVIEW_LINE_3@);
}

proof fn comment_is_skipped_4()
    ensures
        is_comment(REVIEW_LINE_4@),
{
    reveal_strlit(
        "# Reorder, add, or remove lines. First offset is ignored; later offsets follow the previous task's end.",
    );
    reveal_with_fuel(plain_to, 120);
    assert(plain_to(REVIEW_LINE_4@, 50));
    assert(plain_to(REVIEW_LINE_4@, REVIEW_LINE_4@.len()));
    plain_is_a_line(REVIEW_LINE_4@);
}

proof fn comment_is_skipped_5()
    ensures
        is_comment(REVIEW_LINE_5@),
{
    reveal_strlit("# Durations below 1 minute are clamped to 1 on commit.");
    reveal_with_fuel(plain_to, 120);
    assert(plain_to(REVIEW_LINE_5@, REVIEW_LINE_5@.len()));
    plain_is_a_line(REVIEW_LINE_5@);
}

/// What the quoted form of a title promises.
spec fn quotes_well(title: Seq<char>) -> bool {
    let quoted = json_text(Json::Text(title));
    is_quoted(quoted) && json_string_value(quoted) == Some(title)
}

/// The line of a step gives that step.
#[verifier::rlimit(40)]
#[verifier::spinoff_prover]
proof fn step_line_is_read_back(step: SubTaskProposalView, index: int)
    requires
        quotes_well(step.title),
    ensures
        line_step(step_line(step), index) == Ok::<Option<SubTaskProposalView>, Seq<char>>(
            Some(step),
        ),
{
    reveal_strlit(" / ");
    reveal_strlit(" # clamped to 1 minute");
    let quoted = json_text(Json::Text(step.title));
    let minutes = decimal(step.duration_minutes as int);
    let offset = decimal(step.offset_minutes as int);
    decimal_is_read_back(step.duration_minutes as int);
    decimal_is_read_back(step.offset_minutes as int);
    let line = step_line(step);
    let body = quoted + " / "@ + minutes + " / "@ + offset;
    let mark = CLAMPED_MARK@;
    assert(line =~= if step.clamped {
        body + mark
    } else {
        body
    });
    assert(body.last() == offset.last());
    assert(line[0] == '"');
    assert(trimmed(line) == line);
    if step.clamped {
        assert(line.skip(line.len() - mark.len()) =~= mark);
        assert(line.take(line.len() - mark.len()) =~= body);
    } else {
        if ends_in(line, mark) {
            assert(line.skip(line.len() - mark.len()).last() == mark.last());
        }
    }
    let first = (quoted.len() + 1) as int;
    let second = (quoted.len() + 3 + minutes.len() + 1) as int;
    assert(body[first] == '/' && body[second] == '/');
    assert forall|i: int| second < i < body.len() implies body[i] != '/' by {
        if i > second + 1 {
            assert(body[i] == offset[i - second - 2]);
        }
    }
    last_position_is(body, '/', body.len() as int, second);
    assert forall|i: int| first < i < second implies body[i] != '/' by {
        if first + 1 < i < second - 1 {
            assert(body[i] == minutes[i - first - 2]);
        }
    }
    last_position_is(body, '/', second, first);
    let space = seq![' '];
    assert(body.skip(second + 1) =~= space + offset);
    spaced_is_trimmed(offset);
    assert(body.subrange(first + 1, second) =~= space + minutes + space);
    spaced_is_trimmed(minutes);
    assert(body.take(first) =~= quoted + space);
    spaced_is_trimmed(quoted);
}

/// The line of a step is one line.
proof fn step_line_is_a_line(step: SubTaskProposalView)
    requires
        quotes_well(step.title),
    ensures
        is_line(step_line(step)),
{
    reveal_strlit(" / ");
    reveal_strlit(" # clamped to 1 minute");
    let quoted = json_text(Json::Text(step.title));
    let minutes = decimal(step.duration_minutes as int);
    let offset = decimal(step.offset_minutes as int);
    decimal_is_read_back(step.duration_minutes as int);
    decimal_is_read_back(step.offset_minutes as int);
    let line = step_line(step);
    let body = quoted + " / "@ + minutes + " / "@ + offset;
    let mark = CLAMPED_MARK@;
    assert(line =~= if step.clamped {
        body + mark
    } else {
        body
    });
    assert forall|i: int| 0 <= i < line.len() implies #[trigger] line[i] != '\n' by {
        if i < quoted.len() {
            assert(line[i] == quoted[i]);
        } else if i < quoted.len() + 3 {
        } else if i < quoted.len() + 3 + minutes.len() {
            assert(line[i] == minutes[i - quoted.len() - 3]);
        } else if i < quoted.len() + 6 + minutes.len() {
        } else if i < body.len() {
            assert(line[i] == offset[i - quoted.len() - 6 - minutes.len()]);
        } else {
            assert(line[i] == mark[i - body.len()]);
        }
    }
}

/// White space around a text is trimmed.
proof fn spaced_is_trimmed(s: Seq<char>)
    requires
        s.len() > 0,
        !is_space(s[0]),
        !is_space(s.last()),
    ensures
        trimmed(seq![' '] + s) == s,
        trimmed(s + seq![' ']) == s,
        trimmed(seq![' '] + s + seq![' ']) == s,
{
    let space = seq![' '];
    assert((space + s).skip(1) =~= s);
    assert(trimmed_start(s) == s);
    assert(trimmed_end(s) == s);
    assert((s + space).drop_last() =~= s);
    assert(trimmed_start(s + space) == s + space);
    assert((s + space).last() == ' ');
    assert((space + s + space).skip(1) =~= s + space);
}

proof fn lines_give_steps(steps: Seq<SubTaskProposalView>, n: int)
    requires
        forall|i: int| 0 <= i < steps.len() ==> quotes_well((#[trigger] steps[i]).title),
        0 <= n <= review_lines(steps).len(),
    ensures
        line_steps(review_lines(steps), n) == Ok::<Seq<SubTaskProposalView>, Seq<char>>(
            if n <= review_head().len() {
                Seq::empty()
            } else {
                steps.take(n - review_head().len())
            },
        ),
    decreases n,
{
    if n > 0 {
        lines_give_steps(steps, n - 1);
        let lines = review_lines(steps);
        let head = review_head().len() as int;
        if n <= head {
            head_is_comments();
            assert(lines[n - 1] == review_head()[n - 1]);
        } else {
            let k = n - 1 - head;
            assert(lines[n - 1] == step_line(steps[k]));
            assert(quotes_well(steps[k].title));
            step_line_is_read_back(steps[k], n - 1);
            assert(steps.take(k + 1) =~= steps.take(k).push(steps[k]));
            assert(k == 0 ==> steps.take(k) =~= Seq::empty());
        }
    }
}

/// The form of a chain that can be committed gives that chain.
proof fn form_is_read_back(steps: Seq<SubTaskProposalView>)
    requires
        forall|i: int| 0 <= i < steps.len() ==> quotes_well((#[trigger] steps[i]).title),
        normalized(steps) == Ok::<Seq<SubTaskProposalView>, Seq<char>>(steps),
    ensures
        reviewed_steps(unlines(review_lines(steps))) == Ok::<
            Option<Seq<SubTaskProposalView>>,
            Seq<char>,
        >(Some(steps)),
{
    let lines = review_lines(steps);
    let head = review_head().len() as int;
    assert forall|i: int| 0 <= i < lines.len() implies is_line(#[trigger] lines[i]) by {
        if i < head {
            head_is_comments();
            assert(lines[i] == review_head()[i]);
        } else {
            assert(lines[i] == step_line(steps[i - head]));
            assert(quotes_well(steps[i - head].title));
            step_line_is_a_line(steps[i - head]);
        }
    }
    lines_of_unlines(lines);
    lines_give_steps(steps, lines.len() as int);
    assert(steps.take(steps.len() as int) =~= steps);
}

/// Appends a line and its line feed.
fn push_line(text: &mut String, line: &str)
    ensures
        final(text)@ == old(text)@ + line@ + seq!['\n'],
{
    text.append(line);
    text.push('\n');
    assert(text@ =~= old(text)@ + line@ + seq!['\n']);
}

/// The head of the form.
fn review_head_text() -> (text: String)
    ensures
        text@ == unlines(review_head()),
{
    let mut text = String::new();
    push_line(&mut text, REVIEW_LINE_1);
    push_line(&mut text, REVIEW_LINE_2);
    push_line(&mut text, REVIEW_LINE_3);
    push_line(&mut text, REVIEW_LINE_4);
    push_line(&mut text, REVIEW_LINE_5);
    push_line(&mut text, "");
    proof {
        let head = review_head();
        reveal_strlit("");
        assert(""@ =~= Seq::<char>::empty());
        reveal_with_fuel(unlines, 7);
        assert(head.drop_last() =~= head.take(5));
        assert(head.take(5).drop_last() =~= head.take(4));
        assert(head.take(4).drop_last() =~= head.take(3));
        assert(head.take(3).drop_last() =~= head.take(2));
        assert(head.take(2).drop_last() =~= head.take(1));
        assert(head.take(1).drop_last() =~= Seq::empty());
        assert(text@ =~= unlines(head));
    }
    text
}

/// The form in which a chain is reviewed. What is read from an unchanged form is the chain
/// that it was made of.
pub fn render_review(proposal: &Vec<SubTaskProposal>) -> (text: String)
    ensures
        text@ == unlines(review_lines(step_list(proposal@))),
        normalized(step_list(proposal@)) == Ok::<Seq<SubTaskProposalView>, Seq<char>>(
            step_list(proposal@),
        ) ==> reviewed_steps(text@) == Ok::<Option<Seq<SubTaskProposalView>>, Seq<char>>(
            Some(step_list(proposal@)),
        ),
{
    let ghost steps = step_list(proposal@);
    let ghost lines = review_lines(steps);
    let mut text = review_head_text();
    assert(lines.take(6) =~= review_head());
    let mut i: usize = 0;
    while i < proposal.len()
        invariant
            i <= proposal@.len(),
            steps == step_list(proposal@),
            lines == review_lines(steps),
            text@ == unlines(lines.take(6 + i)),
            forall|k: int| 0 <= k < i ==> quotes_well((#[trigger] steps[k]).title),
        decreases proposal@.len() - i,
    {
        let step = &proposal[i];
        let quoted = write_json(&text_value(step.title.as_str()));
        assert(quotes_well(steps[i as int].title));
        let mut line = quoted;
        line.append(" / ");
        push_decimal(&mut line, step.duration_minutes as i128);
        line.append(" / ");
        push_decimal(&mut line, step.offset_minutes as i128);
        if step.clamped {
            line.append(CLAMPED_MARK);
        }
        assert(line@ =~= step_line(steps[i as int]));
        push_line(&mut text, line.as_str());
        proof {
            assert(lines.take(7 + i).drop_last() =~= lines.take(6 + i));
            assert(lines.take(7 + i).last() == line@);
        }
        i = i + 1;
    }
    proof {
        assert(lines.take(lines.len() as int) =~= lines);
        if normalized(steps) == Ok::<Seq<SubTaskProposalView>, Seq<char>>(steps) {
            form_is_read_back(steps);
        }
    }
    text
}

} // verus!

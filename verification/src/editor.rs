//! What goes into the operator's editor, and what comes back.

use crate::answer_form::{form_answers, form_lines, parse_editor_answers, render_editor_form};
use crate::clarify::Answers;
use crate::model::{question_list, step_list, Question, SubTaskProposal};
use crate::parts::{closes_with, piece_stands, stands_at};
use crate::review_form::{parse_review, render_review, review_lines, reviewed_steps};
use crate::text::{blank, fails_with, is_blank, text_option, unlines};
use vstd::prelude::*;
use vstd::string::*;

verus! {

/// The command of the editor: the first of the two settings that is not blank.
pub open spec fn editor_of(editor: Option<Seq<char>>, visual: Option<Seq<char>>) -> Option<
    Seq<char>,
> {
    if editor is Some && !is_blank(editor->0) {
        editor
    } else if visual is Some && !is_blank(visual->0) {
        visual
    } else {
        None
    }
}

/// The command of the editor, or words that say what to set it for.
pub fn choose_editor(editor: Option<String>, visual: Option<String>, purpose: &str) -> (r: Result<
    String,
    String,
>)
    ensures
        match editor_of(text_option(editor), text_option(visual)) {
            Some(command) => r is Ok && r->Ok_0@ == command,
            None => fails_with(r, "set EDITOR or VISUAL to "@ + purpose@),
        },
{
    match editor {
        Some(command) => {
            if !blank(command.as_str()) {
                return Ok(command);
            }
        },
        None => {},
    }
    match visual {
        Some(command) => {
            if !blank(command.as_str()) {
                return Ok(command);
            }
        },
        None => {},
    }
    let mut words = "set EDITOR or VISUAL to ".to_owned();
    words.append(purpose);
    Err(words)
}

/// The shell command that opens a file, given as its first argument, in the editor. The file
/// name is passed separately, so that neither it nor the form can become shell code.
pub fn editor_command(editor: &str) -> (command: String)
    ensures
        command@ == "exec "@ + editor@ + " \"$1\""@,
        stands_at(command@, 5, editor@),
        closes_with(command@, " \"$1\""@),
{
    let mut command = "exec ".to_owned();
    command.append(editor);
    command.append(" \"$1\"");
    proof {
        reveal_strlit("exec ");
        piece_stands("exec "@, editor@, " \"$1\""@);
        assert(command@ + Seq::<char>::empty() =~= command@);
        piece_stands("exec "@ + editor@, " \"$1\""@, Seq::empty());
    }
    command
}

/// Has a proposed chain reviewed in the operator's editor.
pub struct EditorReviewer;

impl EditorReviewer {
    /// The form for a chain.
    pub fn form(&self, proposal: &Vec<SubTaskProposal>) -> (text: String)
        ensures
            text@ == unlines(review_lines(step_list(proposal@))),
    {
        render_review(proposal)
    }

    /// The reviewed chain: none if the editor failed, and otherwise what the form says.
    pub fn read_back(&self, succeeded: bool, text: &str) -> (r: Result<
        Option<Vec<SubTaskProposal>>,
        String,
    >)
        ensures
            if !succeeded {
                r is Ok && r->Ok_0 is None
            } else {
                match reviewed_steps(text@) {
                    Ok(Some(steps)) => r is Ok && r->Ok_0 is Some && step_list(r->Ok_0->0@)
                        == steps,
                    Ok(None) => r is Ok && r->Ok_0 is None,
                    Err(words) => fails_with(r, words),
                }
            },
    {
        if succeeded {
            parse_review(text)
        } else {
            Ok(None)
        }
    }
}

/// Has questions answered in the operator's editor.
pub struct EditorCollector;

impl EditorCollector {
    /// The form for questions.
    pub fn form(&self, questions: &Vec<Question>) -> (text: String)
        ensures
            text@ == unlines(form_lines(question_list(questions@), questions@.len() as int)),
    {
        render_editor_form(questions)
    }

    /// The answers that a form gives.
    pub fn read_back(&self, questions: &Vec<Question>, text: &str) -> (answers: Answers)
        ensures
            answers.given() == form_answers(question_list(questions@), text@),
            answers.stop == (answers.given() == Map::<Seq<char>, Seq<char>>::empty()),
    {
        parse_editor_answers(questions, text)
    }

    /// The answers where the editor could not be used: none, and the interview stops.
    pub fn give_up(&self) -> (answers: Answers)
        ensures
            answers.given() == Map::<Seq<char>, Seq<char>>::empty(),
            answers.stop,
    {
        let none = Answers::default();
        Answers { answers: none.answers, stop: true }
    }
}

} // verus!

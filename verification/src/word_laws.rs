//! Laws on the words in which something is refused: what they name, and how they are told apart.

use crate::decompose::unknown_task;
use crate::display_laws::joined_part_stands;
use crate::host::save_words;
use crate::ids::{hyphenated_id, Id};
use crate::parts::{closes_with, is_laid_out, one_more_piece, one_piece, stands_at};
use crate::preferences::preference_words;
use crate::relations::{
    dependency_words, error_debug, id_list, no_task_words, self_pair_words, CoreError,
};
use crate::resolve::{matching, resolved};
use crate::review_form::bad_line;
use crate::sessions::no_session;
use crate::tables::bad_id_words;
use crate::text::decimal;
use vstd::prelude::*;
use vstd::string::*;

verus! {

/// Listed ids stand in full, one behind the other, with a comma and a blank between them.
pub proof fn ids_are_listed_in_full(ids: Seq<Id>, i: int)
    requires
        0 <= i < ids.len(),
    ensures
        id_list(Seq::empty()).len() == 0,
        stands_at(
            id_list(ids),
            id_list(ids.take(i)).len() + if i > 0 {
                2int
            } else {
                0
            },
            hyphenated_id(ids[i]),
        ),
{
    reveal_strlit(", ");
    let parts = ids.map_values(|id: Id| hyphenated_id(id));
    joined_part_stands(parts, ", "@, i);
    assert(parts.take(i) =~= ids.take(i).map_values(|id: Id| hyphenated_id(id)));
}

/// The words for relations that cannot stand together name the tasks of a cycle of dependencies;
/// for any other error they end with how it is shown to developers.
pub proof fn refused_dependency_names_the_cycle(error: CoreError)
    ensures
        error matches CoreError::DependencyCycle { involved } ==> closes_with(
            dependency_words(error),
            id_list(involved@),
        ) && stands_at(dependency_words(error), 0, "dependency cycle involving tasks: "@),
        !(error is DependencyCycle) ==> closes_with(dependency_words(error), error_debug(error))
            && stands_at(dependency_words(error), 0, "dependency validation failed: "@),
{
    let text = dependency_words(error);
    match error {
        CoreError::DependencyCycle { involved } => {
            let head = "dependency cycle involving tasks: "@;
            assert(text.subrange(0, head.len() as int) =~= head);
            assert(text.subrange(text.len() - id_list(involved@).len(), text.len() as int)
                =~= id_list(involved@));
        },
        _ => {
            let head = "dependency validation failed: "@;
            assert(text.subrange(0, head.len() as int) =~= head);
            assert(text.subrange(text.len() - error_debug(error).len(), text.len() as int)
                =~= error_debug(error));
        },
    }
}

/// The words for preferences that cannot stand together name the tasks of a cycle of preferences;
/// for any other error they end with how it is shown to developers.
pub proof fn refused_preference_names_the_cycle(error: CoreError)
    ensures
        error matches CoreError::PreferenceCycle { involved } ==> closes_with(
            preference_words(error),
            id_list(involved@),
        ) && stands_at(preference_words(error), 0, "preference cycle involving tasks: "@),
        !(error is PreferenceCycle) ==> closes_with(preference_words(error), error_debug(error))
            && stands_at(preference_words(error), 0, "preference validation failed: "@),
{
    let text = preference_words(error);
    match error {
        CoreError::PreferenceCycle { involved } => {
            let head = "preference cycle involving tasks: "@;
            assert(text.subrange(0, head.len() as int) =~= head);
            assert(text.subrange(text.len() - id_list(involved@).len(), text.len() as int)
                =~= id_list(involved@));
        },
        _ => {
            let head = "preference validation failed: "@;
            assert(text.subrange(0, head.len() as int) =~= head);
            assert(text.subrange(text.len() - error_debug(error).len(), text.len() as int)
                =~= error_debug(error));
        },
    }
}

/// An error is shown to developers with its kind and the tasks involved, or in its own words.
pub proof fn error_is_shown_with_its_tasks(error: CoreError)
    ensures
        error matches CoreError::DependencyCycle { involved } ==> is_laid_out(
            error_debug(error),
            seq!["DependencyCycle { involved: ["@, id_list(involved@), "] }"@],
        ),
        error matches CoreError::PreferenceCycle { involved } ==> is_laid_out(
            error_debug(error),
            seq!["PreferenceCycle { involved: ["@, id_list(involved@), "] }"@],
        ),
        error matches CoreError::Other(words) ==> error_debug(error) == words@,
{
    match error {
        CoreError::DependencyCycle { involved } => {
            let head = "DependencyCycle { involved: ["@;
            let ids = id_list(involved@);
            one_piece(head);
            one_more_piece(head, seq![head], ids);
            one_more_piece(head + ids, seq![head].push(ids), "] }"@);
            assert(seq![head].push(ids).push("] }"@) =~= seq![
                "DependencyCycle { involved: ["@,
                id_list(involved@),
                "] }"@,
            ]);
        },
        CoreError::PreferenceCycle { involved } => {
            let head = "PreferenceCycle { involved: ["@;
            let ids = id_list(involved@);
            one_piece(head);
            one_more_piece(head, seq![head], ids);
            one_more_piece(head + ids, seq![head].push(ids), "] }"@);
            assert(seq![head].push(ids).push("] }"@) =~= seq![
                "PreferenceCycle { involved: ["@,
                id_list(involved@),
                "] }"@,
            ]);
        },
        CoreError::Other(_) => {},
    }
}

/// A prefix is refused because nothing begins with it, or because more than one thing does; the
/// words say which, and end with the prefix as it was given.
pub proof fn refused_prefix_is_named(
    ids: Seq<Id>,
    digits: Seq<char>,
    prefix: Seq<char>,
    entity: Seq<char>,
)
    ensures
        resolved(ids, digits, prefix, entity) is Err ==> closes_with(
            resolved(ids, digits, prefix, entity)->Err_0,
            prefix,
        ),
        matching(ids, digits).len() == 0 ==> resolved(ids, digits, prefix, entity) is Err
            && stands_at(resolved(ids, digits, prefix, entity)->Err_0, 0, "no "@ + entity),
        matching(ids, digits).len() > 1 ==> resolved(ids, digits, prefix, entity) is Err
            && stands_at(resolved(ids, digits, prefix, entity)->Err_0, 0, "ambiguous prefix "@),
{
    let found = matching(ids, digits);
    if found.len() == 0 {
        let words = "no "@ + entity + " matches "@ + prefix;
        let head = "no "@ + entity;
        assert(words.subrange(0, head.len() as int) =~= head);
        assert(words.subrange(words.len() - prefix.len(), words.len() as int) =~= prefix);
    } else if found.len() > 1 {
        let words = "ambiguous prefix "@ + prefix;
        let head = "ambiguous prefix "@;
        assert(words.subrange(0, head.len() as int) =~= head);
        assert(words.subrange(words.len() - prefix.len(), words.len() as int) =~= prefix);
    }
}

/// The words for a task that is related to itself name the task and the relation.
pub proof fn self_relation_names_the_task(id: Id, kind: Seq<char>)
    ensures
        is_laid_out(
            self_pair_words(id, kind),
            seq![
                "task "@,
                hyphenated_id(id),
                " cannot have a self-"@,
                kind,
            ],
        ),
{
    let text_0 = "task "@;
    let list_0 = seq![text_0];
    one_piece(text_0);
    let piece_1 = hyphenated_id(id);
    let text_1 = text_0 + piece_1;
    let list_1 = list_0.push(piece_1);
    one_more_piece(text_0, list_0, piece_1);
    let piece_2 = " cannot have a self-"@;
    let text_2 = text_1 + piece_2;
    let list_2 = list_1.push(piece_2);
    one_more_piece(text_1, list_1, piece_2);
    let piece_3 = kind;
    let text_3 = text_2 + piece_3;
    let list_3 = list_2.push(piece_3);
    one_more_piece(text_2, list_2, piece_3);
    assert(text_3 == self_pair_words(id, kind));
    assert(list_3 =~= seq![
        "task "@,
        hyphenated_id(id),
        " cannot have a self-"@,
        kind,
    ]);
}

/// The words for a task that is not there name it.
pub proof fn missing_task_is_named(id: Id)
    ensures
        is_laid_out(
            no_task_words(id),
            seq![
                "no task matches "@,
                hyphenated_id(id),
            ],
        ),
{
    let text_0 = "no task matches "@;
    let list_0 = seq![text_0];
    one_piece(text_0);
    let piece_1 = hyphenated_id(id);
    let text_1 = text_0 + piece_1;
    let list_1 = list_0.push(piece_1);
    one_more_piece(text_0, list_0, piece_1);
    assert(text_1 == no_task_words(id));
    assert(list_1 =~= seq![
        "no task matches "@,
        hyphenated_id(id),
    ]);
}

/// The words for an unknown task name it.
pub proof fn unknown_task_is_named(id: Id)
    ensures
        is_laid_out(
            unknown_task(id),
            seq![
                "unknown task "@,
                hyphenated_id(id),
            ],
        ),
{
    let text_0 = "unknown task "@;
    let list_0 = seq![text_0];
    one_piece(text_0);
    let piece_1 = hyphenated_id(id);
    let text_1 = text_0 + piece_1;
    let list_1 = list_0.push(piece_1);
    one_more_piece(text_0, list_0, piece_1);
    assert(text_1 == unknown_task(id));
    assert(list_1 =~= seq![
        "unknown task "@,
        hyphenated_id(id),
    ]);
}

/// The words for an interview that there is not name its task.
pub proof fn missing_interview_is_named(id: Id)
    ensures
        is_laid_out(
            no_session(id),
            seq![
                "no clarification session for "@,
                hyphenated_id(id),
            ],
        ),
{
    let text_0 = "no clarification session for "@;
    let list_0 = seq![text_0];
    one_piece(text_0);
    let piece_1 = hyphenated_id(id);
    let text_1 = text_0 + piece_1;
    let list_1 = list_0.push(piece_1);
    one_more_piece(text_0, list_0, piece_1);
    assert(text_1 == no_session(id));
    assert(list_1 =~= seq![
        "no clarification session for "@,
        hyphenated_id(id),
    ]);
}

/// The words for progress that could not be saved end with the error.
pub proof fn failed_save_is_told(error: Seq<char>)
    ensures
        is_laid_out(
            save_words(error),
            seq![
                "failed to save batch progress: "@,
                error,
            ],
        ),
{
    let text_0 = "failed to save batch progress: "@;
    let list_0 = seq![text_0];
    one_piece(text_0);
    let piece_1 = error;
    let text_1 = text_0 + piece_1;
    let list_1 = list_0.push(piece_1);
    one_more_piece(text_0, list_0, piece_1);
    assert(text_1 == save_words(error));
    assert(list_1 =~= seq![
        "failed to save batch progress: "@,
        error,
    ]);
}

/// The words for a bad line of a form name its number, counted from one.
pub proof fn bad_line_is_counted_from_one(index: int)
    ensures
        is_laid_out(
            bad_line(index),
            seq![
                "invalid review line "@,
                decimal(index + 1),
                ": expected quoted title / minutes / offset"@,
            ],
        ),
{
    let text_0 = "invalid review line "@;
    let list_0 = seq![text_0];
    one_piece(text_0);
    let piece_1 = decimal(index + 1);
    let text_1 = text_0 + piece_1;
    let list_1 = list_0.push(piece_1);
    one_more_piece(text_0, list_0, piece_1);
    let piece_2 = ": expected quoted title / minutes / offset"@;
    let text_2 = text_1 + piece_2;
    let list_2 = list_1.push(piece_2);
    one_more_piece(text_1, list_1, piece_2);
    assert(text_2 == bad_line(index));
    assert(list_2 =~= seq![
        "invalid review line "@,
        decimal(index + 1),
        ": expected quoted title / minutes / offset"@,
    ]);
}

/// The words for a bad id name its table and the error.
pub proof fn bad_id_names_its_table(table: Seq<char>, error: Seq<char>)
    ensures
        is_laid_out(
            bad_id_words(table, error),
            seq![
                "invalid SQLite "@,
                table,
                ": UUID parsing failed: "@,
                error,
            ],
        ),
{
    let text_0 = "invalid SQLite "@;
    let list_0 = seq![text_0];
    one_piece(text_0);
    let piece_1 = table;
    let text_1 = text_0 + piece_1;
    let list_1 = list_0.push(piece_1);
    one_more_piece(text_0, list_0, piece_1);
    let piece_2 = ": UUID parsing failed: "@;
    let text_2 = text_1 + piece_2;
    let list_2 = list_1.push(piece_2);
    one_more_piece(text_1, list_1, piece_2);
    let piece_3 = error;
    let text_3 = text_2 + piece_3;
    let list_3 = list_2.push(piece_3);
    one_more_piece(text_2, list_2, piece_3);
    assert(text_3 == bad_id_words(table, error));
    assert(list_3 =~= seq![
        "invalid SQLite "@,
        table,
        ": UUID parsing failed: "@,
        error,
    ]);
}

} // verus!

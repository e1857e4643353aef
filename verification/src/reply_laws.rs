//! Laws on replies of the model: which tasks and relations their entries stand for.

use crate::ids::Id;
use crate::json::Json;
use crate::model::PrefSuggestion;
use crate::replies::{
    entry_dependencies, entry_dependency, entry_preference, entry_preferences, entry_tag,
    entry_tags, proposals_in, tags_in, ProposedView,
};
use vstd::prelude::*;
use vstd::string::*;

verus! {

/// Whether a value is the place of a task in a list, counted from one.
pub open spec fn points_at(value: Json, ids: Seq<Id>, id: Id) -> bool {
    value matches Json::Integer(n) && 1 <= n <= ids.len() && ids[n - 1] == id
}

/// Whether an entry says that one task waits for another.
pub open spec fn tells_dependency(entry: Json, ids: Seq<Id>, pair: (Id, Id)) -> bool {
    points_at(entry.field("blocked"@), ids, pair.0) && points_at(
        entry.field("blocker"@),
        ids,
        pair.1,
    )
}

/// The name of a relation in a reply.
pub open spec fn relation_name(relation: PrefSuggestion) -> Seq<char> {
    match relation {
        PrefSuggestion::AStrictB => "a_strict_b"@,
        PrefSuggestion::BStrictA => "b_strict_a"@,
        PrefSuggestion::Indifferent => "indifferent"@,
    }
}

/// Whether an entry says how two tasks relate.
pub open spec fn tells_preference(
    entry: Json,
    ids: Seq<Id>,
    triple: (Id, Id, PrefSuggestion),
) -> bool {
    &&& points_at(entry.field("a"@), ids, triple.0)
    &&& points_at(entry.field("b"@), ids, triple.1)
    &&& entry.field("relation"@) == Json::Text(relation_name(triple.2))
}

/// Whether an entry proposes a tag for a task.
pub open spec fn tells_tag(entry: Json, ids: Seq<Id>, pair: (Id, Seq<char>)) -> bool {
    points_at(entry.field("task"@), ids, pair.0) && entry.field("tag"@) == Json::Text(pair.1)
}

/// Different relations have different names.
pub proof fn relations_have_own_names(a: PrefSuggestion, b: PrefSuggestion)
    requires
        a != b,
    ensures
        relation_name(a) != relation_name(b),
{
    reveal_strlit("a_strict_b");
    reveal_strlit("b_strict_a");
    reveal_strlit("indifferent");
    assert("a_strict_b"@[0] == 'a');
    assert("b_strict_a"@[0] == 'b');
    assert("indifferent"@[0] == 'i');
}

proof fn dependency_is_told(entry: Json, ids: Seq<Id>, pair: (Id, Id))
    ensures
        entry_dependency(entry, ids) == Ok::<(Id, Id), Seq<char>>(pair) <==> tells_dependency(
            entry,
            ids,
            pair,
        ) && entry_dependency(entry, ids) is Ok,
        (exists|p: (Id, Id)| #[trigger] tells_dependency(entry, ids, p)) ==> entry_dependency(
            entry,
            ids,
        ) is Ok,
{
}

proof fn preference_is_told(entry: Json, ids: Seq<Id>, triple: (Id, Id, PrefSuggestion))
    ensures
        entry_preference(entry, ids) == Ok::<(Id, Id, PrefSuggestion), Seq<char>>(triple)
            <==> tells_preference(entry, ids, triple),
{
    reveal_strlit("a_strict_b");
    reveal_strlit("b_strict_a");
    reveal_strlit("indifferent");
    assert("a_strict_b"@[0] == 'a');
    assert("b_strict_a"@[0] == 'b');
    assert("indifferent"@[0] == 'i');
}

proof fn dependencies_are_told(entries: Seq<Json>, ids: Seq<Id>, list: Seq<(Id, Id)>, n: int)
    requires
        0 <= n <= entries.len(),
    ensures
        entry_dependencies(entries, ids, n) == Ok::<Seq<(Id, Id)>, Seq<char>>(list) <==> {
            &&& list.len() == n
            &&& forall|i: int| 0 <= i < n ==> tells_dependency(entries[i], ids, #[trigger] list[i])
        },
    decreases n,
{
    if n > 0 {
        if entry_dependencies(entries, ids, n) == Ok::<Seq<(Id, Id)>, Seq<char>>(list) {
            let before = entry_dependencies(entries, ids, n - 1)->Ok_0;
            dependencies_are_told(entries, ids, before, n - 1);
            assert(list == before.push(entry_dependency(entries[n - 1], ids)->Ok_0));
            assert forall|i: int| 0 <= i < n implies tells_dependency(
                entries[i],
                ids,
                #[trigger] list[i],
            ) by {
                if i < n - 1 {
                    assert(before[i] == list[i]);
                }
            }
        }
        if list.len() == n && forall|i: int|
            0 <= i < n ==> tells_dependency(entries[i], ids, #[trigger] list[i]) {
            let before = list.drop_last();
            assert forall|i: int| 0 <= i < n - 1 implies tells_dependency(
                entries[i],
                ids,
                #[trigger] before[i],
            ) by {
                assert(before[i] == list[i]);
            }
            dependencies_are_told(entries, ids, before, n - 1);
            assert(tells_dependency(entries[n - 1], ids, list[n - 1]));
            assert(list =~= before.push(list[n - 1]));
        }
    } else {
        if list.len() == 0 {
            assert(list =~= Seq::empty());
        }
    }
}

proof fn preferences_are_told(
    entries: Seq<Json>,
    ids: Seq<Id>,
    list: Seq<(Id, Id, PrefSuggestion)>,
    n: int,
)
    requires
        0 <= n <= entries.len(),
    ensures
        entry_preferences(entries, ids, n) == Ok::<Seq<(Id, Id, PrefSuggestion)>, Seq<char>>(list)
            <==> {
            &&& list.len() == n
            &&& forall|i: int| 0 <= i < n ==> tells_preference(entries[i], ids, #[trigger] list[i])
        },
    decreases n,
{
    if n > 0 {
        if entry_preferences(entries, ids, n) == Ok::<
            Seq<(Id, Id, PrefSuggestion)>,
            Seq<char>,
        >(list) {
            let before = entry_preferences(entries, ids, n - 1)->Ok_0;
            let last = entry_preference(entries[n - 1], ids)->Ok_0;
            preferences_are_told(entries, ids, before, n - 1);
            preference_is_told(entries[n - 1], ids, last);
            assert(list == before.push(last));
            assert forall|i: int| 0 <= i < n implies tells_preference(
                entries[i],
                ids,
                #[trigger] list[i],
            ) by {
                if i < n - 1 {
                    assert(before[i] == list[i]);
                }
            }
        }
        if list.len() == n && forall|i: int|
            0 <= i < n ==> tells_preference(entries[i], ids, #[trigger] list[i]) {
            let before = list.drop_last();
            assert forall|i: int| 0 <= i < n - 1 implies tells_preference(
                entries[i],
                ids,
                #[trigger] before[i],
            ) by {
                assert(before[i] == list[i]);
            }
            preferences_are_told(entries, ids, before, n - 1);
            preference_is_told(entries[n - 1], ids, list[n - 1]);
            assert(tells_preference(entries[n - 1], ids, list[n - 1]));
            assert(list =~= before.push(list[n - 1]));
        }
    } else {
        if list.len() == 0 {
            assert(list =~= Seq::empty());
        }
    }
}

proof fn tags_are_told(entries: Seq<Json>, ids: Seq<Id>, list: Seq<(Id, Seq<char>)>, n: int)
    requires
        0 <= n <= entries.len(),
    ensures
        entry_tags(entries, ids, n) == Ok::<Seq<(Id, Seq<char>)>, Seq<char>>(list) <==> {
            &&& list.len() == n
            &&& forall|i: int| 0 <= i < n ==> tells_tag(entries[i], ids, #[trigger] list[i])
        },
    decreases n,
{
    if n > 0 {
        if entry_tags(entries, ids, n) == Ok::<Seq<(Id, Seq<char>)>, Seq<char>>(list) {
            let before = entry_tags(entries, ids, n - 1)->Ok_0;
            tags_are_told(entries, ids, before, n - 1);
            assert(list == before.push(entry_tag(entries[n - 1], ids)->Ok_0));
            assert forall|i: int| 0 <= i < n implies tells_tag(
                entries[i],
                ids,
                #[trigger] list[i],
            ) by {
                if i < n - 1 {
                    assert(before[i] == list[i]);
                }
            }
        }
        if list.len() == n && forall|i: int|
            0 <= i < n ==> tells_tag(entries[i], ids, #[trigger] list[i]) {
            let before = list.drop_last();
            assert forall|i: int| 0 <= i < n - 1 implies tells_tag(
                entries[i],
                ids,
                #[trigger] before[i],
            ) by {
                assert(before[i] == list[i]);
            }
            tags_are_told(entries, ids, before, n - 1);
            assert(tells_tag(entries[n - 1], ids, list[n - 1]));
            assert(list =~= before.push(list[n - 1]));
        }
    } else {
        if list.len() == 0 {
            assert(list =~= Seq::empty());
        }
    }
}

/// A reply proposes some relations exactly if its entries tell them, one for one and in order, by
/// the places of the tasks in the list that was sent.
pub proof fn reply_proposes_what_its_entries_tell(value: Json, ids: Seq<Id>, proposed: ProposedView)
    ensures
        proposals_in(value, ids) == Ok::<ProposedView, Seq<char>>(proposed) <==> {
            let deps = value.field("dependencies"@);
            let prefs = value.field("preferences"@);
            &&& deps is Array && deps->Array_0.len() == proposed.deps.len()
            &&& prefs is Array && prefs->Array_0.len() == proposed.prefs.len()
            &&& forall|i: int|
                0 <= i < proposed.deps.len() ==> tells_dependency(
                    deps->Array_0[i],
                    ids,
                    #[trigger] proposed.deps[i],
                )
            &&& forall|i: int|
                0 <= i < proposed.prefs.len() ==> tells_preference(
                    prefs->Array_0[i],
                    ids,
                    #[trigger] proposed.prefs[i],
                )
        },
{
    let deps = value.field("dependencies"@);
    let prefs = value.field("preferences"@);
    if deps is Array && prefs is Array {
        dependencies_are_told(
            deps->Array_0,
            ids,
            proposed.deps,
            deps->Array_0.len() as int,
        );
        preferences_are_told(
            prefs->Array_0,
            ids,
            proposed.prefs,
            prefs->Array_0.len() as int,
        );
    }
}

/// A reply proposes some tags exactly if its entries tell them, one for one and in order, by the
/// places of the tasks in the list that was sent.
pub proof fn reply_proposes_its_tags(value: Json, ids: Seq<Id>, tags: Seq<(Id, Seq<char>)>)
    ensures
        tags_in(value, ids) == Ok::<Seq<(Id, Seq<char>)>, Seq<char>>(tags) <==> {
            let entries = value.field("tags"@);
            &&& entries is Array && entries->Array_0.len() == tags.len()
            &&& forall|i: int|
                0 <= i < tags.len() ==> tells_tag(entries->Array_0[i], ids, #[trigger] tags[i])
        },
{
    let entries = value.field("tags"@);
    if entries is Array {
        tags_are_told(entries->Array_0, ids, tags, entries->Array_0.len() as int);
    }
}

} // verus!

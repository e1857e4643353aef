//! Which tasks a filter lets through: laws on the selection.

use crate::ids::Id;
use crate::model::{StoreView, TaskStatus, TaskView};
use crate::selection::{
    are_selected, can_be_selected, chosen_before, is_selected, selection, TaskFilterView,
};
use crate::text::text_less;
use vstd::prelude::*;

verus! {

/// Whether a task waits to be done and is fit for a filter: it has no tags where none are wanted,
/// and has the category and the tag that are wanted.
pub open spec fn is_fit(task: TaskView, filter: TaskFilterView) -> bool {
    &&& task.status != TaskStatus::Done
    &&& task.status == TaskStatus::Backlog || task.status == TaskStatus::Scheduled
    &&& task.pinned is None
    &&& filter.untagged ==> task.tags == Seq::<Seq<char>>::empty()
    &&& filter.category is Some ==> task.category is Some && task.category->0 == filter.category->0
    &&& filter.tag is Some ==> exists|i: int|
        0 <= i < task.tags.len() && #[trigger] task.tags[i] == filter.tag->0
}

/// Whether a task stands before another: one without a category first, then by the names of the
/// categories, and within a category by the ids.
pub open spec fn goes_first(a: TaskView, x: Id, b: TaskView, y: Id) -> bool {
    ||| a.category is None && b.category is Some
    ||| a.category is Some && b.category is Some && text_less(a.category->0, b.category->0)
    ||| a.category == b.category && x < y
}

proof fn fit_is_selected(task: TaskView, filter: TaskFilterView)
    ensures
        is_selected(task, filter) == is_fit(task, filter),
{
    if task.tags.len() == 0 {
        assert(task.tags =~= Seq::<Seq<char>>::empty());
    }
}

/// The selected tasks are fit for the filter and stand in order. There are as many as the filter
/// allows, or as there are; a fit task that is left out would have come after all of them, and is
/// left out only where the filter allows no more.
pub proof fn selection_takes_the_first_fit_tasks(store: StoreView, filter: TaskFilterView)
    requires
        can_be_selected(store, filter),
    ensures
        ({
            let ids = selection(store, filter);
            &&& forall|i: int|
                0 <= i < ids.len() ==> store.tasks.contains_key(#[trigger] ids[i]) && is_fit(
                    store.tasks[ids[i]],
                    filter,
                )
            &&& forall|i: int, j: int|
                0 <= i < j < ids.len() ==> goes_first(
                    store.tasks[#[trigger] ids[i]],
                    ids[i],
                    store.tasks[#[trigger] ids[j]],
                    ids[j],
                )
            &&& filter.limit is Some ==> ids.len() <= filter.limit->0
            &&& forall|id: Id|
                #![trigger store.tasks[id]]
                store.tasks.contains_key(id) && is_fit(store.tasks[id], filter) && !ids.contains(id)
                    ==> {
                    &&& filter.limit == Some(ids.len() as usize)
                    &&& forall|i: int|
                        0 <= i < ids.len() ==> goes_first(
                            store.tasks[#[trigger] ids[i]],
                            ids[i],
                            store.tasks[id],
                            id,
                        )
                }
        }),
{
    let all = choose|ids: Seq<Id>| are_selected(store, filter, ids);
    let ids = selection(store, filter);
    assert forall|i: int| 0 <= i < all.len() implies store.tasks.contains_key(#[trigger] all[i])
        && is_fit(store.tasks[all[i]], filter) by {
        assert(all.contains(all[i]));
        fit_is_selected(store.tasks[all[i]], filter);
    }
    assert forall|i: int, j: int| 0 <= i < j < all.len() implies goes_first(
        store.tasks[#[trigger] all[i]],
        all[i],
        store.tasks[#[trigger] all[j]],
        all[j],
    ) by {
        assert(chosen_before(store, all[i], all[j]));
    }
    assert forall|i: int| 0 <= i < ids.len() implies #[trigger] ids[i] == all[i] by {}
    assert forall|id: Id|
        #![trigger store.tasks[id]]
        store.tasks.contains_key(id) && is_fit(store.tasks[id], filter) && !ids.contains(
            id,
        ) implies {
        &&& filter.limit == Some(ids.len() as usize)
        &&& forall|i: int|
            0 <= i < ids.len() ==> goes_first(
                store.tasks[#[trigger] ids[i]],
                ids[i],
                store.tasks[id],
                id,
            )
    } by {
        fit_is_selected(store.tasks[id], filter);
        assert(all.contains(id));
        let k = choose|k: int| 0 <= k < all.len() && all[k] == id;
        if k < ids.len() {
            assert(ids[k] == id);
        }
        assert forall|i: int| 0 <= i < ids.len() implies goes_first(
            store.tasks[#[trigger] ids[i]],
            ids[i],
            store.tasks[id],
            id,
        ) by {
            assert(chosen_before(store, all[i], all[k]));
        }
    }
}

} // verus!

//! Choosing the active tasks that the model is asked about.

use crate::ids::Id;
use crate::maps;
use crate::model::{Store, StoreView, Task, TaskView};
use crate::prompts::{active, all_tasks, is_active};
use crate::text::{
    before, list_contains, same_text, text_less, text_less_irreflexive, text_less_total,
    text_less_transitive, text_option,
};
use vstd::prelude::*;
use vstd::string::*;

verus! {

/// Which active tasks to choose: those without tags, of a category, with a tag; and at most
/// how many.
#[derive(Debug)]
pub struct TaskFilter {
    pub untagged: bool,
    pub category: Option<String>,
    pub tag: Option<String>,
    pub limit: Option<usize>,
}

impl Default for TaskFilter {
    fn default() -> (filter: TaskFilter)
        ensures
            filter@ == TaskFilterView::any(),
    {
        TaskFilter { untagged: false, category: None, tag: None, limit: None }
    }
}

pub struct TaskFilterView {
    pub untagged: bool,
    pub category: Option<Seq<char>>,
    pub tag: Option<Seq<char>>,
    pub limit: Option<usize>,
}

impl TaskFilterView {
    /// The filter that chooses every active task.
    pub open spec fn any() -> TaskFilterView {
        TaskFilterView { untagged: false, category: None, tag: None, limit: None }
    }
}

impl View for TaskFilter {
    type V = TaskFilterView;

    open spec fn view(&self) -> TaskFilterView {
        TaskFilterView {
            untagged: self.untagged,
            category: text_option(self.category),
            tag: text_option(self.tag),
            limit: self.limit,
        }
    }
}

/// Whether a task is active and passes a filter.
pub open spec fn is_selected(task: TaskView, filter: TaskFilterView) -> bool {
    &&& is_active(task)
    &&& filter.untagged ==> task.tags.len() == 0
    &&& filter.category matches Some(category) ==> task.category == Some(category)
    &&& filter.tag matches Some(tag) ==> task.tags.contains(tag)
}

fn selected(task: &Task, filter: &TaskFilter) -> (b: bool)
    ensures
        b == is_selected(task@, filter@),
{
    if !active(task) {
        return false;
    }
    if filter.untagged && task.tags.len() > 0 {
        return false;
    }
    let category_fits: bool = match &filter.category {
        Some(wanted) => match &task.category {
            Some(category) => same_text(category.as_str(), wanted.as_str()),
            None => false,
        },
        None => true,
    };
    let tag_fits: bool = match &filter.tag {
        Some(tag) => list_contains(&task.tags, tag.as_str()),
        None => true,
    };
    category_fits && tag_fits
}

/// The order of categories: a task without one comes first.
pub open spec fn category_less(a: Option<Seq<char>>, b: Option<Seq<char>>) -> bool {
    match (a, b) {
        (None, Some(_)) => true,
        (Some(x), Some(y)) => text_less(x, y),
        _ => false,
    }
}

/// The order in which tasks are chosen: by category, and then by id.
pub open spec fn chosen_before(store: StoreView, a: Id, b: Id) -> bool {
    let x = store.tasks[a].category;
    let y = store.tasks[b].category;
    category_less(x, y) || (x == y && a < b)
}

fn is_chosen_before(store: &Store, a: Id, b: Id) -> (less: bool)
    requires
        store@.tasks.contains_key(a),
        store@.tasks.contains_key(b),
    ensures
        less == chosen_before(store@, a, b),
{
    let x = &store.task(a).unwrap().category;
    let y = &store.task(b).unwrap().category;
    match (x, y) {
        (None, None) => a < b,
        (None, Some(_)) => true,
        (Some(_), None) => false,
        (Some(s), Some(t)) => {
            proof {
                text_less_irreflexive(s@);
            }
            before(s.as_str(), t.as_str()) || (same_text(s.as_str(), t.as_str()) && a < b)
        },
    }
}

proof fn chosen_before_transitive(store: StoreView, a: Id, b: Id, c: Id)
    requires
        chosen_before(store, a, b),
        chosen_before(store, b, c),
    ensures
        chosen_before(store, a, c),
{
    match (store.tasks[a].category, store.tasks[b].category, store.tasks[c].category) {
        (Some(x), Some(y), Some(z)) => {
            if text_less(x, y) && text_less(y, z) {
                text_less_transitive(x, y, z);
            }
        },
        _ => {},
    }
}

proof fn chosen_before_total(store: StoreView, a: Id, b: Id)
    requires
        a != b,
    ensures
        chosen_before(store, a, b) || chosen_before(store, b, a),
{
    match (store.tasks[a].category, store.tasks[b].category) {
        (Some(x), Some(y)) => {
            text_less_total(x, y);
        },
        _ => {},
    }
}

/// Whether ids stand in the order in which tasks are chosen.
pub open spec fn in_chosen_order(store: StoreView, ids: Seq<Id>) -> bool {
    forall|i: int, j: int| 0 <= i < j < ids.len() ==> chosen_before(store, ids[i], ids[j])
}

/// Whether `ids` are the tasks that pass a filter, in order, without regard to its limit.
pub open spec fn are_selected(store: StoreView, filter: TaskFilterView, ids: Seq<Id>) -> bool {
    &&& in_chosen_order(store, ids)
    &&& forall|id: Id| #[trigger]
        ids.contains(id) == (store.tasks.contains_key(id) && is_selected(store.tasks[id], filter))
}

/// Whether the tasks that pass a filter can be listed.
pub open spec fn can_be_selected(store: StoreView, filter: TaskFilterView) -> bool {
    exists|ids: Seq<Id>| are_selected(store, filter, ids)
}

/// The tasks that pass a filter, by category and then by id; at most as many as it allows.
pub open spec fn selection(store: StoreView, filter: TaskFilterView) -> Seq<Id> {
    let all = choose|ids: Seq<Id>| are_selected(store, filter, ids);
    match filter.limit {
        Some(limit) if limit < all.len() => all.take(limit as int),
        _ => all,
    }
}

/// There is only one list of the tasks that pass a filter.
pub proof fn selection_is_unique(
    store: StoreView,
    filter: TaskFilterView,
    a: Seq<Id>,
    b: Seq<Id>,
)
    requires
        are_selected(store, filter, a),
        are_selected(store, filter, b),
    ensures
        a == b,
{
    ordered_lists_agree(store, a, b);
}

proof fn ordered_lists_agree(store: StoreView, a: Seq<Id>, b: Seq<Id>)
    requires
        in_chosen_order(store, a),
        in_chosen_order(store, b),
        forall|id: Id| #[trigger] a.contains(id) == b.contains(id),
    ensures
        a == b,
    decreases a.len(),
{
    if a.len() == 0 {
        if b.len() > 0 {
            assert(b.contains(b[0]));
            assert(a.contains(b[0]));
        }
        assert(a =~= b);
    } else {
        assert(a.contains(a.last()));
        assert(b.contains(a.last()));
        let j = choose|j: int| 0 <= j < b.len() && b[j] == a.last();
        assert(b.contains(b.last()));
        assert(a.contains(b.last()));
        let i = choose|i: int| 0 <= i < a.len() && a[i] == b.last();
        if a.last() != b.last() {
            assert(chosen_before(store, a[i], a.last()));
            assert(chosen_before(store, b[j], b.last()));
            chosen_before_transitive(store, a.last(), b.last(), a.last());
            not_before_itself(store, a.last());
        }
        let a1 = a.drop_last();
        let b1 = b.drop_last();
        assert forall|x: Id| #[trigger] a1.contains(x) == b1.contains(x) by {
            not_before_itself(store, x);
            if a1.contains(x) {
                let k = choose|k: int| 0 <= k < a1.len() && a1[k] == x;
                assert(a[k] == x);
                assert(a.contains(x));
                assert(chosen_before(store, a[k], a.last()));
                let m = choose|m: int| 0 <= m < b.len() && b[m] == x;
                assert(b1[m] == x);
            }
            if b1.contains(x) {
                let k = choose|k: int| 0 <= k < b1.len() && b1[k] == x;
                assert(b[k] == x);
                assert(b.contains(x));
                assert(a.contains(x));
                assert(chosen_before(store, b[k], b.last()));
                let m = choose|m: int| 0 <= m < a.len() && a[m] == x;
                assert(a1[m] == x);
            }
        }
        ordered_lists_agree(store, a1, b1);
        assert(a =~= a1.push(a.last()));
        assert(b =~= b1.push(b.last()));
    }
}

proof fn not_before_itself(store: StoreView, a: Id)
    ensures
        !chosen_before(store, a, a),
{
    match store.tasks[a].category {
        Some(x) => {
            text_less_irreflexive(x);
        },
        None => {},
    }
}

/// Puts an id into its place in a list.
fn place_id(store: &Store, ids: &mut Vec<Id>, id: Id)
    requires
        in_chosen_order(store@, old(ids)@),
        all_tasks(store@, old(ids)@),
        store@.tasks.contains_key(id),
        !old(ids)@.contains(id),
    ensures
        in_chosen_order(store@, final(ids)@),
        all_tasks(store@, final(ids)@),
        forall|x: Id| #[trigger] final(ids)@.contains(x) == (old(ids)@.contains(x) || x == id),
{
    let n: usize = ids.len();
    let mut p: usize = n;
    let ghost was = ids@;
    while p > 0 && !is_chosen_before(store, ids[p - 1], id)
        invariant
            p <= n == ids@.len(),
            ids@ == was,
            was == old(ids)@,
            in_chosen_order(store@, was),
            all_tasks(store@, was),
            store@.tasks.contains_key(id),
            !was.contains(id),
            forall|i: int| p <= i < n ==> chosen_before(store@, id, #[trigger] was[i]),
        decreases p,
    {
        proof {
            assert(store@.tasks.contains_key(was[p - 1]));
            assert(was.contains(was[p - 1]));
            chosen_before_total(store@, was[p - 1], id);
        }
        p = p - 1;
    }
    ids.insert(p, id);
    proof {
        let now = ids@;
        assert(now =~= was.insert(p as int, id));
        assert forall|i: int, j: int| 0 <= i < j < now.len() implies chosen_before(
            store@,
            now[i],
            now[j],
        ) by {
            if p > 0 {
                assert(chosen_before(store@, was[p - 1], id));
            }
            if i < p && j < p {
                assert(chosen_before(store@, was[i], was[j]));
            } else if i < p && j == p {
                if i < p - 1 {
                    assert(chosen_before(store@, was[i], was[p - 1]));
                    chosen_before_transitive(store@, was[i], was[p - 1], id);
                }
            } else if i < p && j > p {
                assert(chosen_before(store@, was[i], was[j - 1]));
            } else if i == p {
                assert(chosen_before(store@, id, was[j - 1]));
            } else {
                assert(chosen_before(store@, was[i - 1], was[j - 1]));
            }
        }
        assert forall|x: Id| #[trigger] now.contains(x) == (was.contains(x) || x == id) by {
            if was.contains(x) {
                let k = choose|k: int| 0 <= k < was.len() && was[k] == x;
                if k < p {
                    assert(now[k] == x);
                } else {
                    assert(now[k + 1] == x);
                }
            }
            assert(now[p as int] == id);
            if now.contains(x) && x != id {
                let k = choose|k: int| 0 <= k < now.len() && now[k] == x;
                if k < p {
                    assert(was[k] == x);
                } else {
                    assert(was[k - 1] == x);
                }
            }
        }
        assert forall|i: int| 0 <= i < now.len() implies store@.tasks.contains_key(
            #[trigger] now[i],
        ) by {
            assert(now.contains(now[i]));
            if now[i] != id {
                let k = choose|k: int| 0 <= k < was.len() && was[k] == now[i];
                assert(store@.tasks.contains_key(was[k]));
            }
        }
    }
}

/// Selects active tasks, by category and then by id.
pub fn select_active_tasks(store: &Store, filter: &TaskFilter) -> (ids: Vec<Id>)
    ensures
        ids@ == selection(store@, filter@),
        all_tasks(store@, ids@),
        ids@.no_duplicates(),
        can_be_selected(store@, filter@),
{
    let order = store.task_ids();
    let mut ids: Vec<Id> = Vec::new();
    let mut i: usize = 0;
    while i < order.len()
        invariant
            i <= order@.len(),
            maps::increasing(order@),
            forall|id: Id| #[trigger] store@.tasks.contains_key(id) == order@.contains(id),
            in_chosen_order(store@, ids@),
            all_tasks(store@, ids@),
            forall|id: Id| #[trigger]
                ids@.contains(id) == (order@.take(i as int).contains(id) && is_selected(
                    store@.tasks[id],
                    filter@,
                )),
        decreases order@.len() - i,
    {
        let id: Id = order[i];
        assert(order@.contains(id));
        assert(store@.tasks.contains_key(id));
        proof {
            let front = order@.take(i as int);
            let now = order@.take(i + 1);
            assert(now =~= front.push(id));
            assert forall|x: Id| #[trigger] now.contains(x) == (front.contains(x) || x == id) by {
                if front.contains(x) {
                    let k = choose|k: int| 0 <= k < front.len() && front[k] == x;
                    assert(now[k] == x);
                }
                assert(now[i as int] == id);
                if now.contains(x) && x != id {
                    let k = choose|k: int| 0 <= k < now.len() && now[k] == x;
                    assert(front[k] == x);
                }
            }
            if front.contains(id) {
                let k = choose|k: int| 0 <= k < front.len() && front[k] == id;
                assert(order@[k] < order@[i as int]);
            }
        }
        if selected(store.task(id).unwrap(), filter) {
            place_id(store, &mut ids, id);
        }
        i = i + 1;
    }
    proof {
        assert(order@.take(order@.len() as int) =~= order@);
        assert(are_selected(store@, filter@, ids@));
        let all = choose|list: Seq<Id>| are_selected(store@, filter@, list);
        selection_is_unique(store@, filter@, ids@, all);
        assert forall|a: int, b: int| 0 <= a < ids@.len() && 0 <= b < ids@.len() && a != b implies
            ids@[a] != ids@[b] by {
            not_before_itself(store@, ids@[a]);
            if a < b {
                assert(chosen_before(store@, ids@[a], ids@[b]));
            } else {
                assert(chosen_before(store@, ids@[b], ids@[a]));
            }
        }
    }
    match filter.limit {
        Some(limit) => {
            if limit < ids.len() {
                let ghost all = ids@;
                ids.truncate(limit);
                assert(ids@ =~= all.take(limit as int));
                assert forall|k: int| 0 <= k < ids@.len() implies store@.tasks.contains_key(
                    #[trigger] ids@[k],
                ) by {
                    assert(store@.tasks.contains_key(all[k]));
                }
            }
        },
        None => {},
    }
    ids
}

} // verus!

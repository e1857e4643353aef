//! Preferences between tasks, held as preferences between bundles of one task.

use crate::ids::{is_drawn, new_id, Id};
use crate::maps;
use crate::model::{Bundle, BundleView, Preference, Relation, Store, StoreView};
use crate::relations::{
    debug_text, display_ids, error_debug, id_list, no_task_text, no_task_words, reject_self_pair,
    self_pair_words, with_both, CoreError, CoreRules,
};
use crate::resolve::resolve_task_id;
use crate::text::fails_with;
use vstd::prelude::*;
use vstd::string::*;

verus! {

/// Whether the rules rank the preferences in a store so.
pub open spec fn rank_verdict<R: CoreRules>(
    rules: R,
    store: StoreView,
    verdict: Result<Vec<Vec<Id>>, CoreError>,
) -> bool {
    exists|s: Store|
        s@ == store && #[trigger] call_ensures(R::resolve_preferences, (&rules, &s), verdict)
}

/// The words for preferences that cannot stand together.
pub open spec fn preference_words(error: CoreError) -> Seq<char> {
    match error {
        CoreError::PreferenceCycle { involved } => "preference cycle involving tasks: "@ + id_list(
            involved@,
        ),
        _ => "preference validation failed: "@ + error_debug(error),
    }
}

fn preference_text(error: &CoreError) -> (text: String)
    ensures
        text@ == preference_words(*error),
{
    match error {
        CoreError::PreferenceCycle { involved } => {
            let mut text = "preference cycle involving tasks: ".to_owned();
            text.append(display_ids(involved).as_str());
            text
        },
        _ => {
            let mut text = "preference validation failed: ".to_owned();
            text.append(debug_text(error).as_str());
            text
        },
    }
}

// ---- Bundles of one task ----

/// The first of the bundles in `order`, from a position on, that holds one task alone.
pub open spec fn first_singleton(
    bundles: Map<Id, BundleView>,
    order: Seq<Id>,
    task: Id,
    from: int,
) -> Option<Id>
    decreases order.len() - from,
{
    if from >= order.len() {
        None
    } else if bundles[order[from]].members == set![task] {
        Some(bundles[order[from]].id)
    } else {
        first_singleton(bundles, order, task, from + 1)
    }
}

/// The first bundle that holds one task alone.
pub open spec fn singleton_of(store: StoreView, task: Id) -> Option<Id> {
    first_singleton(store.bundles, maps::in_order(store.bundles.dom()), task, 0)
}

/// The only task of a bundle.
pub open spec fn only_member(store: StoreView, bundle: Id) -> Option<Id> {
    if store.bundles.contains_key(bundle) && store.bundles[bundle].members.len() == 1 {
        Some(store.bundles[bundle].members.choose())
    } else {
        None
    }
}

/// A set of one element holds what it holds.
proof fn one_element(set: Set<Id>, x: Id)
    requires
        set.finite(),
    ensures
        set.len() == 1 && set.contains(x) <==> set == set![x],
{
    if set.len() == 1 && set.contains(x) {
        assert forall|y: Id| set.contains(y) implies y == x by {
            Set::lemma_is_singleton(set);
        }
        assert(set =~= set![x]);
    }
    if set == set![x] {
        assert(set![x].len() == 1);
    }
}

/// Finds the first bundle that holds one task alone.
pub fn existing_singleton_bundle(store: &Store, task_id: Id) -> (bundle: Option<Id>)
    ensures
        bundle == singleton_of(store@, task_id),
        store@.wf() && bundle is Some ==> store@.bundles.contains_key(bundle->0)
            && store@.bundles[bundle->0].members == set![task_id],
{
    let order = maps::keys_of(&store.bundles);
    assert(store.bundles@.dom() =~= store@.bundles.dom());
    let mut i: usize = 0;
    while i < order.len()
        invariant
            i <= order@.len(),
            order@ == maps::in_order(store@.bundles.dom()),
            order@.to_set() == store.bundles@.dom(),
            singleton_of(store@, task_id) == first_singleton(
                store@.bundles,
                order@,
                task_id,
                i as int,
            ),
        decreases order@.len() - i,
    {
        assert(order@.to_set().contains(order@[i as int]));
        assert(store@.bundles.contains_key(order@[i as int]));
        let bundle = maps::get(&store.bundles, order[i]).unwrap();
        assert(bundle@ == store@.bundles[order@[i as int]]);
        let members = maps::members_of(&bundle.members);
        let alone: bool = members.len() == 1 && members[0] == task_id;
        proof {
            members@.unique_seq_to_set();
            vstd::seq_lib::seq_to_set_is_finite(members@);
            one_element(bundle.members@, task_id);
            if members@.len() == 1 {
                assert(bundle.members@.contains(task_id) == (members@[0] == task_id)) by {
                    assert(members@.to_set().contains(members@[0]));
                }
            }
        }
        if alone {
            return Some(bundle.id);
        }
        i = i + 1;
    }
    None
}

/// Finds the only task of a bundle.
pub fn singleton_task_for_bundle(store: &Store, bundle_id: Id) -> (task: Option<Id>)
    ensures
        task == only_member(store@, bundle_id),
{
    match maps::get(&store.bundles, bundle_id) {
        Some(bundle) => {
            assert(store@.bundles[bundle_id] == bundle@);
            let members = maps::members_of(&bundle.members);
            proof {
                members@.unique_seq_to_set();
                vstd::seq_lib::seq_to_set_is_finite(members@);
            }
            if members.len() == 1 {
                proof {
                    assert(members@.len() == 1);
                    assert(bundle.members@.contains(members@[0])) by {
                        assert(members@.to_set().contains(members@[0]));
                    }
                    one_element(bundle.members@, members@[0]);
                    assert(bundle.members@.contains(bundle.members@.choose()));
                }
                Some(members[0])
            } else {
                None
            }
        },
        None => None,
    }
}

/// The store in which a bundle holds one task alone.
pub open spec fn with_singleton(store: StoreView, task: Id, bundle: Id) -> StoreView {
    if singleton_of(store, task) == Some(bundle) {
        store
    } else {
        StoreView {
            bundles: store.bundles.insert(bundle, BundleView { id: bundle, members: set![task] }),
            ..store
        }
    }
}

/// Whether a bundle is the one that stands for a task: the first that there is, or one whose
/// id was drawn where there is none.
pub open spec fn stands_for(store: StoreView, task: Id, bundle: Id) -> bool {
    match singleton_of(store, task) {
        Some(existing) => bundle == existing,
        None => is_drawn(bundle),
    }
}

/// The bundle that holds one task alone. It is made if there is none.
pub fn singleton_bundle_for(store: &mut Store, task_id: Id) -> (bundle: Id)
    ensures
        old(store)@.wf() ==> final(store)@.wf(),
        stands_for(old(store)@, task_id, bundle),
        final(store)@ == with_singleton(old(store)@, task_id, bundle),
        old(store)@.wf() ==> final(store)@.bundles.contains_key(bundle)
            && final(store)@.bundles[bundle].members == set![task_id],
{
    match existing_singleton_bundle(store, task_id) {
        Some(id) => id,
        None => {
            let id: Id = new_id();
            store.upsert_bundle(Bundle { id, members: maps::set_of_one(task_id) });
            id
        },
    }
}

// ---- Adding and removing ----

/// The relation that a preference states.
pub open spec fn relation_of(eq: bool) -> Relation {
    if eq {
        Relation::Indifferent
    } else {
        Relation::Strict
    }
}

/// The store with a preference between two tasks, and bundles that stand for them.
pub open spec fn with_preference(
    store: StoreView,
    a: Id,
    b: Id,
    eq: bool,
    left: Id,
    right: Id,
) -> StoreView {
    let both = with_singleton(with_singleton(store, a, left), b, right);
    StoreView {
        preferences: both.preferences.push(Preference { left, right, relation: relation_of(eq) }),
        ..both
    }
}

/// What becomes of a store when a preference between two tasks, with bundles that stand for
/// them, is judged.
pub open spec fn is_preferred<R: CoreRules>(
    rules: R,
    store: StoreView,
    a: Id,
    b: Id,
    eq: bool,
    left: Id,
    right: Id,
    next: StoreView,
    r: Result<(), String>,
) -> bool {
    let proposed = with_preference(store, a, b, eq, left, right);
    &&& stands_for(store, a, left)
    &&& stands_for(with_singleton(store, a, left), b, right)
    &&& exists|verdict: Result<Vec<Vec<Id>>, CoreError>|
        {
            &&& #[trigger] rank_verdict(rules, proposed, verdict)
            &&& match verdict {
                Ok(_) => r is Ok && next == proposed,
                Err(error) => fails_with(r, preference_words(error)) && next == store,
            }
        }
}

/// What becomes of a store when a preference is added: it is kept if the rules allow it.
pub open spec fn preference_added<R: CoreRules>(
    rules: R,
    store: StoreView,
    a: Id,
    b: Id,
    eq: bool,
    next: StoreView,
    r: Result<(), String>,
) -> bool {
    if a == b {
        fails_with(r, self_pair_words(a, "preference"@)) && next == store
    } else if !store.tasks.contains_key(a) {
        fails_with(r, no_task_words(a)) && next == store
    } else if !store.tasks.contains_key(b) {
        fails_with(r, no_task_words(b)) && next == store
    } else {
        exists|left: Id, right: Id| #[trigger]
            is_preferred(rules, store, a, b, eq, left, right, next, r)
    }
}

/// Prefers a task to another, or holds them equal.
pub fn pref_add_ids<R: CoreRules>(store: &mut Store, a: Id, b: Id, eq: bool, rules: &R) -> (r:
    Result<(), String>)
    ensures
        old(store)@.wf() ==> final(store)@.wf(),
        preference_added(*rules, old(store)@, a, b, eq, final(store)@, r),
{
    match reject_self_pair(a, b, "preference") {
        Ok(()) => {},
        Err(words) => {
            return Err(words);
        },
    }
    if store.task(a).is_none() {
        return Err(no_task_text(a));
    }
    if store.task(b).is_none() {
        return Err(no_task_text(b));
    }
    let bundles = store.bundles.clone();
    let preferences = store.preferences.clone();
    assert(preferences@ =~= store.preferences@);
    let left: Id = singleton_bundle_for(store, a);
    let right: Id = singleton_bundle_for(store, b);
    let relation = if eq {
        Relation::Indifferent
    } else {
        Relation::Strict
    };
    store.add_preference(Preference { left, right, relation });
    let ghost proposed = with_preference(old(store)@, a, b, eq, left, right);
    assert(store@ == proposed);
    let verdict = rules.resolve_preferences(store);
    assert(rank_verdict(*rules, proposed, verdict));
    let r: Result<(), String> = match verdict {
        Ok(_) => Ok(()),
        Err(error) => {
            store.bundles = bundles;
            store.preferences = preferences;
            assert(store@ == old(store)@);
            Err(preference_text(&error))
        },
    };
    assert(is_preferred(*rules, old(store)@, a, b, eq, left, right, store@, r));
    r
}

/// Prefers a task to another, or holds them equal; each is named by a prefix.
pub fn pref_add<R: CoreRules>(
    store: &mut Store,
    a_prefix: &str,
    b_prefix: &str,
    eq: bool,
    rules: &R,
) -> (r: Result<(), String>)
    ensures
        old(store)@.wf() ==> final(store)@.wf(),
        with_both(
            old(store)@,
            a_prefix@,
            b_prefix@,
            final(store)@,
            r,
            |a: Id, b: Id| preference_added(*rules, old(store)@, a, b, eq, final(store)@, r),
        ),
{
    let a: Id = match resolve_task_id(store, a_prefix) {
        Ok(id) => id,
        Err(words) => {
            return Err(words);
        },
    };
    let b: Id = match resolve_task_id(store, b_prefix) {
        Ok(id) => id,
        Err(words) => {
            return Err(words);
        },
    };
    pref_add_ids(store, a, b, eq, rules)
}

/// Whether a preference is between two bundles, in either direction.
pub open spec fn between(preference: Preference, left: Id, right: Id) -> bool {
    (preference.left == left && preference.right == right) || (preference.left == right
        && preference.right == left)
}

/// Preferences without those between two bundles.
pub open spec fn without_between(list: Seq<Preference>, left: Id, right: Id) -> Seq<Preference> {
    list.filter(|p: Preference| !between(p, left, right))
}

/// The store without the preferences between two tasks.
pub open spec fn without_preference(store: StoreView, a: Id, b: Id) -> StoreView {
    match (singleton_of(store, a), singleton_of(store, b)) {
        (Some(left), Some(right)) => StoreView {
            preferences: without_between(store.preferences, left, right),
            ..store
        },
        _ => store,
    }
}

/// Removes the preferences between two tasks, each named by a prefix.
pub fn pref_rm(store: &mut Store, a_prefix: &str, b_prefix: &str) -> (r: Result<(), String>)
    ensures
        old(store)@.wf() ==> final(store)@.wf(),
        with_both(
            old(store)@,
            a_prefix@,
            b_prefix@,
            final(store)@,
            r,
            |a: Id, b: Id| r is Ok && final(store)@ == without_preference(old(store)@, a, b),
        ),
{
    let a: Id = match resolve_task_id(store, a_prefix) {
        Ok(id) => id,
        Err(words) => {
            return Err(words);
        },
    };
    let b: Id = match resolve_task_id(store, b_prefix) {
        Ok(id) => id,
        Err(words) => {
            return Err(words);
        },
    };
    let left: Id = match existing_singleton_bundle(store, a) {
        Some(id) => id,
        None => {
            return Ok(());
        },
    };
    let right: Id = match existing_singleton_bundle(store, b) {
        Some(id) => id,
        None => {
            return Ok(());
        },
    };
    let mut kept: Vec<Preference> = Vec::new();
    let mut i: usize = 0;
    reveal(Seq::filter);
    assert(store.preferences@.take(0) =~= Seq::empty());
    while i < store.preferences.len()
        invariant
            *store == *old(store),
            i <= store.preferences@.len(),
            kept@ == without_between(store.preferences@.take(i as int), left, right),
        decreases store.preferences@.len() - i,
    {
        reveal(Seq::filter);
        assert(store.preferences@.take(i + 1).drop_last() =~= store.preferences@.take(i as int));
        let p: Preference = store.preferences[i];
        if !((p.left == left && p.right == right) || (p.left == right && p.right == left)) {
            kept.push(p);
        }
        i = i + 1;
    }
    assert(store.preferences@.take(store.preferences@.len() as int) =~= store.preferences@);
    store.preferences = kept;
    Ok(())
}

} // verus!

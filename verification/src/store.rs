//! The basic operations on a store.

use crate::ids::Id;
use crate::maps;
use crate::model::{
    bundle_map, log_list, objective_map, task_map, Bundle, LogEntry, Objective, Preference,
    RoutineTemplate, Store, StoreView, Task, TaskView,
};
use crate::textmap::text_values;
use vstd::prelude::*;

verus! {

impl StoreView {
    /// The store with a task set.
    pub open spec fn with_task(self, id: Id, task: TaskView) -> StoreView {
        StoreView { tasks: self.tasks.insert(id, task), ..self }
    }
}

impl Store {
    /// Adds a task, or replaces the one with its id.
    pub fn upsert_task(&mut self, task: Task)
        ensures
            final(self)@ == old(self)@.with_task(task.id, task@),
            old(self)@.wf() ==> final(self)@.wf(),
    {
        let id: Id = task.id;
        maps::put(&mut self.tasks, id, task);
        assert(task_map(self.tasks@) =~= task_map(old(self).tasks@).insert(id, task@));
    }

    /// Puts a task under an id.
    pub fn put_task(&mut self, id: Id, task: Task)
        ensures
            final(self)@ == old(self)@.with_task(id, task@),
            old(self)@.wf() && task.id == id ==> final(self)@.wf(),
    {
        maps::put(&mut self.tasks, id, task);
        assert(task_map(self.tasks@) =~= task_map(old(self).tasks@).insert(id, task@));
    }

    /// Takes a task out of the store.
    pub fn take_task(&mut self, id: Id) -> (task: Option<Task>)
        ensures
            final(self)@ == (StoreView { tasks: old(self)@.tasks.remove(id), ..old(self)@ }),
            old(self)@.wf() ==> final(self)@.wf(),
            match task {
                Some(t) => old(self)@.tasks.contains_key(id) && old(self)@.tasks[id] == t@,
                None => !old(self)@.tasks.contains_key(id),
            },
    {
        let task = maps::take(&mut self.tasks, id);
        assert(task_map(self.tasks@) =~= task_map(old(self).tasks@).remove(id));
        task
    }

    /// The task with an id.
    pub fn task(&self, id: Id) -> (task: Option<&Task>)
        ensures
            match task {
                Some(t) => self@.tasks.contains_key(id) && self@.tasks[id] == t@,
                None => !self@.tasks.contains_key(id),
            },
    {
        maps::get(&self.tasks, id)
    }

    /// The ids of the tasks in increasing order.
    pub fn task_ids(&self) -> (ids: Vec<Id>)
        ensures
            ids@ == maps::in_order(self@.tasks.dom()),
            maps::increasing(ids@),
            forall|id: Id| #[trigger] self@.tasks.contains_key(id) == ids@.contains(id),
    {
        let ids = maps::keys_of(&self.tasks);
        assert(self.tasks@.dom() =~= self@.tasks.dom());
        assert forall|id: Id| #[trigger] self@.tasks.contains_key(id) == ids@.contains(id) by {
            assert(ids@.to_set().contains(id) == ids@.contains(id));
        }
        ids
    }

    /// Adds an objective, or replaces the one with its id.
    pub fn upsert_objective(&mut self, objective: Objective)
        ensures
            final(self)@ == (StoreView {
                objectives: old(self)@.objectives.insert(objective.id, objective@),
                ..old(self)@
            }),
            old(self)@.wf() ==> final(self)@.wf(),
    {
        let id: Id = objective.id;
        maps::put(&mut self.objectives, id, objective);
        assert(objective_map(self.objectives@) =~= objective_map(old(self).objectives@).insert(
            id,
            objective@,
        ));
    }

    /// Adds a bundle, or replaces the one with its id.
    pub fn upsert_bundle(&mut self, bundle: Bundle)
        ensures
            final(self)@ == (StoreView {
                bundles: old(self)@.bundles.insert(bundle.id, bundle@),
                ..old(self)@
            }),
            old(self)@.wf() ==> final(self)@.wf(),
    {
        let id: Id = bundle.id;
        maps::put(&mut self.bundles, id, bundle);
        assert(bundle_map(self.bundles@) =~= bundle_map(old(self).bundles@).insert(id, bundle@));
    }

    /// Adds a routine, or replaces the one with its id.
    pub fn upsert_routine(&mut self, routine: RoutineTemplate)
        ensures
            final(self)@ == (StoreView {
                routines: old(self)@.routines.insert(routine.id, routine),
                ..old(self)@
            }),
    {
        let id: Id = routine.id;
        maps::put(&mut self.routines, id, routine);
    }

    /// Adds a preference.
    pub fn add_preference(&mut self, preference: Preference)
        ensures
            final(self)@ == (StoreView {
                preferences: old(self)@.preferences.push(preference),
                ..old(self)@
            }),
    {
        self.preferences.push(preference);
    }

    /// Appends an entry to the log.
    pub fn append_log(&mut self, entry: LogEntry)
        ensures
            final(self)@ == (StoreView { log: old(self)@.log.push(entry@), ..old(self)@ }),
    {
        self.log.push(entry);
        assert(log_list(self.log@) =~= log_list(old(self).log@).push(entry@));
    }

    /// Sets the color of a category.
    pub fn set_category_color(&mut self, category: String, color_id: String)
        ensures
            final(self)@ == (StoreView {
                category_colors: old(self)@.category_colors.insert(category@, color_id@),
                ..old(self)@
            }),
    {
        let colors = self.category_colors.copy();
        self.category_colors = colors.with(category, color_id);
        assert(text_values(self.category_colors@) =~= text_values(old(self).category_colors@).insert(
            category@,
            color_id@,
        ));
    }
}

} // verus!

//! The task store: id assignment, removal, the status toggle and listing.

use vstd::prelude::*;
use crate::date::Date;
use crate::filter::{
    ViewFilters, FilterView, task_views, selected, due_date_of, unfiltered, lemma_selected_bounds,
};
use crate::order::{sorted_by, sort_indices};
use crate::render::{
    flat_line, tag_lines, due_lines, dates_valid, render_by_tag, render_by_due, flat_task_line,
};
use crate::task::{Task, TaskView, Priority, Status, next_status};
use crate::text::{str_eq, views};

verus! {

broadcast use vstd::seq_lib::group_to_multiset_ensures;

/// The collection of tasks, in storage order.
pub struct TaskManager {
    pub tasks: Vec<Task>,
}

/// Why a status change was refused.
#[derive(Clone, Copy, Debug, PartialEq, Eq, Structural)]
pub enum TaskError {
    /// No task has the requested id.
    NoSuchTask,
}

/// The largest id among `ts`, or 0 where there is none.
pub open spec fn max_id(ts: Seq<TaskView>) -> nat
    decreases ts.len(),
{
    if ts.len() == 0 {
        0
    } else {
        let m = max_id(ts.drop_last());
        if ts.last().id as nat > m {
            ts.last().id as nat
        } else {
            m
        }
    }
}

/// No two tasks share an id.
pub open spec fn ids_unique(ts: Seq<TaskView>) -> bool {
    forall|a: int, b: int| 0 <= a < b < ts.len() ==> (#[trigger] ts[a]).id != (#[trigger] ts[b]).id
}

/// Index of the first task with `id`, if any.
pub open spec fn has_id_at(ts: Seq<TaskView>, id: u32, k: int) -> bool {
    0 <= k < ts.len() && ts[k].id == id && forall|j: int| 0 <= j < k ==> (#[trigger] ts[j]).id != id
}

/// `t` with its status set to `s`.
pub open spec fn with_status(t: TaskView, s: Status) -> TaskView {
    TaskView { status: s, ..t }
}

/// Every id of `ts` is at most `max_id(ts)`.
pub proof fn lemma_max_id_bounds(ts: Seq<TaskView>)
    ensures
        forall|k: int| 0 <= k < ts.len() ==> (#[trigger] ts[k]).id <= max_id(ts),
        ts.len() > 0 ==> exists|k: int| 0 <= k < ts.len() && (#[trigger] ts[k]).id == max_id(ts),
    decreases ts.len(),
{
    if ts.len() > 0 {
        lemma_max_id_bounds(ts.drop_last());
        assert forall|k: int| 0 <= k < ts.len() implies (#[trigger] ts[k]).id <= max_id(ts) by {
            if k < ts.len() - 1 {
                assert(ts[k] == ts.drop_last()[k]);
            }
        };
        if ts.last().id as nat <= max_id(ts.drop_last()) && ts.len() > 1 {
            let k = choose|k: int| 0 <= k < ts.len() - 1 && (#[trigger] ts.drop_last()[k]).id == max_id(ts.drop_last());
            assert(ts[k] == ts.drop_last()[k]);
        }
    }
}

/// The next id is fresh: adding a task to a store with unique ids keeps
/// them unique, whatever was removed before.
pub proof fn lemma_next_id_fresh(ts: Seq<TaskView>, t: TaskView)
    requires
        ids_unique(ts),
        t.id == max_id(ts) + 1,
    ensures
        ids_unique(ts.push(t)),
        forall|k: int| 0 <= k < ts.len() ==> (#[trigger] ts[k]).id < t.id,
{
    lemma_max_id_bounds(ts);
    assert forall|a: int, b: int| 0 <= a < b < ts.push(t).len() implies (#[trigger] ts.push(t)[a]).id
        != (#[trigger] ts.push(t)[b]).id by {
        assert(ts.push(t)[a] == ts[a]);
        if b < ts.len() {
            assert(ts.push(t)[b] == ts[b]);
        }
    };
}

/// The due view is chosen; any other view, or none, means the tag view.
pub open spec fn by_due_view(f: FilterView) -> bool {
    f.view == Some("due"@)
}

/// The flat listing of `ts`, one line per task.
pub open spec fn flat_lines(ts: Seq<TaskView>) -> Seq<Seq<char>> {
    ts.map_values(|t: TaskView| flat_line(t))
}

impl TaskManager {
    /// The tasks as plain values.
    pub open spec fn views(&self) -> Seq<TaskView> {
        task_views(self.tasks@)
    }

    /// An empty store.
    pub fn new() -> (r: TaskManager)
        ensures
            r.tasks@.len() == 0,
    {
        TaskManager { tasks: Vec::new() }
    }

    /// The largest id in the store, or 0 when it is empty.
    pub fn get_max_id(&self) -> (r: u32)
        ensures
            r as nat == max_id(self.views()),
            forall|k: int| 0 <= k < self.tasks@.len() ==> (#[trigger] self.tasks@[k]).id <= r,
    {
        let ghost tv = self.views();
        let mut m: u32 = 0;
        let mut i: usize = 0;
        while i < self.tasks.len()
            invariant
                i <= self.tasks@.len(),
                tv == self.views(),
                m as nat == max_id(tv.take(i as int)),
            decreases self.tasks@.len() - i,
        {
            assert(tv.take(i + 1).drop_last() =~= tv.take(i as int));
            assert(tv[i as int] == self.tasks@[i as int]@);
            if self.tasks[i].id > m {
                m = self.tasks[i].id;
            }
            i = i + 1;
        }
        assert(tv.take(i as int) =~= tv);
        proof {
            lemma_max_id_bounds(tv);
            assert forall|k: int| 0 <= k < self.tasks@.len() implies (#[trigger] self.tasks@[k]).id
                <= m by {
                assert(tv[k] == self.tasks@[k]@);
            };
        }
        m
    }

    /// Appends a `Todo` task with the next id, one more than the largest id
    /// in the store, and returns that id.
    pub fn add_task(
        &mut self,
        description: &String,
        tags: Vec<String>,
        due: Date,
        priority: Priority,
    ) -> (r: u32)
        requires
            max_id(old(self).views()) < u32::MAX,
        ensures
            r as nat == max_id(old(self).views()) + 1,
            final(self).views() == old(self).views().push(
                TaskView {
                    id: r,
                    description: description@,
                    tags: views(tags@),
                    due,
                    priority,
                    status: Status::Todo,
                },
            ),
            ids_unique(old(self).views()) ==> ids_unique(final(self).views()),
    {
        let id = self.get_max_id() + 1;
        let task = Task {
            id,
            description: description.clone(),
            tags,
            due,
            priority,
            status: Status::Todo,
        };
        let ghost before = self.views();
        self.tasks.push(task);
        assert(self.views() =~= before.push(task@));
        proof {
            if ids_unique(before) {
                lemma_next_id_fresh(before, task@);
            }
        }
        id
    }

    /// Removes every task with `id`; nothing happens when there is none.
    pub fn remove_task(&mut self, id: u32)
        ensures
            final(self).views() == old(self).views().filter(|t: TaskView| t.id != id),
    {
        let ghost ov = old(self).views();
        let mut i: usize = 0;
        let ghost mut k: int = 0;
        proof {
            reveal(Seq::filter);
            assert(ov.take(0) =~= Seq::<TaskView>::empty());
            assert(ov.skip(0) =~= ov);
        }
        while i < self.tasks.len()
            invariant
                ov == old(self).views(),
                0 <= k <= ov.len(),
                i <= self.tasks@.len(),
                self.views() == ov.take(k as int).filter(|t: TaskView| t.id != id) + ov.skip(
                    k as int,
                ),
                i == ov.take(k as int).filter(|t: TaskView| t.id != id).len(),
                self.tasks@.len() == i + ov.len() - k,
            decreases ov.len() - k,
        {
            let ghost kept = ov.take(k as int).filter(|t: TaskView| t.id != id);
            assert(ov.take(k + 1).drop_last() =~= ov.take(k as int));
            proof {
                reveal(Seq::filter);
                assert(ov.take(k + 1).last() == ov[k as int]);
            }
            assert(self.views()[i as int] == ov[k as int]);
            assert(self.views()[i as int] == self.tasks@[i as int]@);
            if self.tasks[i].id == id {
                let ghost pre = self.tasks@;
                self.tasks.remove(i);
                assert(self.tasks@ == pre.remove(i as int));
                assert(self.views() =~= task_views(pre).remove(i as int));
                assert(self.views() =~= kept + ov.skip(k + 1));
            } else {
                assert(self.views() =~= kept.push(ov[k as int]) + ov.skip(k + 1));
                i = i + 1;
            }
            proof {
                k = k + 1;
            }
        }
        assert(ov.take(k as int) =~= ov);
        assert(ov.skip(k as int) =~= Seq::<TaskView>::empty());
        assert(self.views() =~= ov.filter(|t: TaskView| t.id != id));
    }

    /// Applies `status` to the first task with `id`: a task already on hold
    /// or done, asked for the same again, goes back to `Todo`; otherwise it
    /// takes `status`. Fails when no task has `id`.
    pub fn adjust_status(&mut self, id: u32, status: Status) -> (r: Result<(), TaskError>)
        ensures
            r is Err <==> forall|k: int| 0 <= k < old(self).views().len() ==> (#[trigger] old(self).views()[k]).id != id,
            r is Err ==> final(self).views() == old(self).views(),
            r is Ok ==> exists|k: int|
                has_id_at(old(self).views(), id, k) && final(self).views() == old(self).views().update(
                    k,
                    with_status(old(self).views()[k], next_status(old(self).views()[k].status, status)),
                ),
    {
        let ghost ov = self.views();
        let mut i: usize = 0;
        while i < self.tasks.len()
            invariant
                ov == self.views(),
                ov == old(self).views(),
                i <= self.tasks@.len(),
                forall|j: int| 0 <= j < i ==> (#[trigger] ov[j]).id != id,
            decreases self.tasks@.len() - i,
        {
            assert(ov[i as int] == self.tasks@[i as int]@);
            if self.tasks[i].id == id {
                let mut t = self.tasks.remove(i);
                t.status = t.status.toggled(status);
                self.tasks.insert(i, t);
                assert(self.views() =~= ov.update(
                    i as int,
                    with_status(ov[i as int], next_status(ov[i as int].status, status)),
                ));
                assert(has_id_at(ov, id, i as int));
                return Ok(());
            }
            i = i + 1;
        }
        Err(TaskError::NoSuchTask)
    }

    /// The first task with `id`, if any.
    pub fn get_task(&self, id: u32) -> (r: Option<&Task>)
        ensures
            r is None <==> forall|k: int| 0 <= k < self.views().len() ==> (#[trigger] self.views()[k]).id != id,
            r is Some ==> exists|k: int| has_id_at(self.views(), id, k) && *r->0 == self.tasks@[k],
    {
        let ghost tv = self.views();
        let mut i: usize = 0;
        while i < self.tasks.len()
            invariant
                tv == self.views(),
                i <= self.tasks@.len(),
                forall|j: int| 0 <= j < i ==> (#[trigger] tv[j]).id != id,
            decreases self.tasks@.len() - i,
        {
            assert(tv[i as int] == self.tasks@[i as int]@);
            if self.tasks[i].id == id {
                assert(has_id_at(tv, id, i as int));
                return Some(&self.tasks[i]);
            }
            i = i + 1;
        }
        None
    }

    /// The lines that list the store under `filters` on the day `today`.
    /// With no criterion and no view, every task in storage order, one flat
    /// line each; otherwise the selected tasks sorted and grouped by the
    /// chosen view (`due`, else by tag).
    pub fn list_tasks(&self, filters: &ViewFilters, today: &Date) -> (r: Vec<String>)
        requires
            today.valid(),
            dates_valid(self.views()),
        ensures
            unfiltered(filters@) ==> views(r@) == flat_lines(self.views()),
            !unfiltered(filters@) ==> exists|order: Seq<usize>|
                order.to_multiset() == selected(
                    filters@,
                    self.views(),
                    due_date_of(filters@, *today),
                    self.views().len(),
                ).to_multiset() && sorted_by(self.views(), order, by_due_view(filters@))
                    && views(r@) == (if by_due_view(filters@) {
                    due_lines(self.views(), order, order.len())
                } else {
                    tag_lines(self.views(), order, order.len())
                }),
    {
        let ghost tv = self.views();
        if filters.is_unfiltered() {
            let mut out: Vec<String> = Vec::new();
            let mut i: usize = 0;
            while i < self.tasks.len()
                invariant
                    tv == self.views(),
                    i <= self.tasks@.len(),
                    views(out@) == flat_lines(tv.take(i as int)),
                decreases self.tasks@.len() - i,
            {
                assert(tv[i as int] == self.tasks@[i as int]@);
                let line = flat_task_line(&self.tasks[i]);
                let ghost pre = views(out@);
                out.push(line);
                assert(views(out@) =~= pre.push(flat_line(tv[i as int])));
                assert(flat_lines(tv.take(i + 1)) =~= flat_lines(tv.take(i as int)).push(
                    flat_line(tv[i as int]),
                ));
                i = i + 1;
            }
            assert(tv.take(i as int) =~= tv);
            return out;
        }
        let by_due = match &filters.view {
            Some(v) => str_eq(v.as_str(), "due"),
            None => false,
        };
        let picked = filters.select(&self.tasks, today);
        let n_tasks = self.tasks.len();
        proof {
            assert(tv.len() == self.tasks@.len());
            lemma_selected_bounds(
                filters@,
                tv,
                due_date_of(filters@, *today),
                self.tasks@.len() as nat,
            );
        }
        let order = sort_indices(&self.tasks, &picked, by_due);
        proof {
            assert(by_due == by_due_view(filters@)) by {
                reveal_strlit("due");
            };
        }
        let r = if by_due {
            render_by_due(&self.tasks, &order)
        } else {
            render_by_tag(&self.tasks, &order)
        };
        assert(order@.to_multiset() == picked@.to_multiset());
        r
    }
}

} // verus!

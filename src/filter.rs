//! Filter specifications and the selection of the tasks that meet them.

use vstd::prelude::*;
use crate::date::{Date, resolve, resolve_spec};
use crate::task::{Task, TaskView, status_text, priority_text};
use crate::text::{contains_text, occurs_in, views};

verus! {

/// Optional selection criteria; an absent one selects every task.
#[derive(Debug)]
pub struct ViewFilters {
    /// Tasks sharing at least one of these tags.
    pub tag: Option<Vec<String>>,
    /// Tasks whose status text is one of these.
    pub status: Option<Vec<String>>,
    /// Tasks due on the date this token resolves to.
    pub due: Option<String>,
    /// Tasks whose priority text is one of these.
    pub priority: Option<Vec<String>>,
    /// How to render: `tag` (the default) or `due`.
    pub view: Option<String>,
    /// Tasks whose description contains this text.
    pub description: Option<String>,
}

/// A filter specification as plain values.
pub struct FilterView {
    pub tag: Option<Seq<Seq<char>>>,
    pub status: Option<Seq<Seq<char>>>,
    pub due: Option<Seq<char>>,
    pub priority: Option<Seq<Seq<char>>>,
    pub view: Option<Seq<char>>,
    pub description: Option<Seq<char>>,
}

pub open spec fn opt_views(v: Option<Vec<String>>) -> Option<Seq<Seq<char>>> {
    match v {
        Some(x) => Some(views(x@)),
        None => None,
    }
}

pub open spec fn opt_view(v: Option<String>) -> Option<Seq<char>> {
    match v {
        Some(x) => Some(x@),
        None => None,
    }
}

impl View for ViewFilters {
    type V = FilterView;

    open spec fn view(&self) -> FilterView {
        FilterView {
            tag: opt_views(self.tag),
            status: opt_views(self.status),
            due: opt_view(self.due),
            priority: opt_views(self.priority),
            view: opt_view(self.view),
            description: opt_view(self.description),
        }
    }
}

/// No criterion is present and no view is chosen.
pub open spec fn unfiltered(f: FilterView) -> bool {
    f.tag is None && f.status is None && f.due is None && f.priority is None && f.view is None
        && f.description is None
}

/// The two lists share an entry.
pub open spec fn shares_entry(a: Seq<Seq<char>>, b: Seq<Seq<char>>) -> bool {
    exists|i: int, j: int| 0 <= i < a.len() && 0 <= j < b.len() && #[trigger] a[i] == #[trigger] b[j]
}

/// `t` meets every criterion present in `f`, the due criterion compared
/// with `due_date`.
pub open spec fn criteria_hold(f: FilterView, t: TaskView, due_date: Date) -> bool {
    &&& (f.tag matches Some(tags) ==> shares_entry(tags, t.tags))
    &&& (f.status matches Some(sts) ==> sts.contains(status_text(t.status)))
    &&& (f.due is Some ==> t.due == due_date)
    &&& (f.priority matches Some(ps) ==> ps.contains(priority_text(t.priority)))
    &&& (f.description matches Some(d) ==> occurs_in(d, t.description))
}

/// The date the due criterion of `f` stands for on the day `today`.
pub open spec fn due_date_of(f: FilterView, today: Date) -> Date {
    match f.due {
        Some(tok) => resolve_spec(tok, today),
        None => today,
    }
}

/// `g` holds every criterion of `f`, with the same value, and maybe more.
pub open spec fn narrows(g: FilterView, f: FilterView) -> bool {
    &&& (f.tag is Some ==> g.tag == f.tag)
    &&& (f.status is Some ==> g.status == f.status)
    &&& (f.due is Some ==> g.due == f.due)
    &&& (f.priority is Some ==> g.priority == f.priority)
    &&& (f.description is Some ==> g.description == f.description)
}

/// Indices of the first `n` tasks that meet `f`, in order.
pub open spec fn selected(f: FilterView, ts: Seq<TaskView>, due_date: Date, n: nat) -> Seq<usize>
    decreases n,
{
    if n == 0 {
        Seq::empty()
    } else {
        let p = selected(f, ts, due_date, (n - 1) as nat);
        if criteria_hold(f, ts[n - 1], due_date) {
            p.push((n - 1) as usize)
        } else {
            p
        }
    }
}

/// Every selected index is the index of a task.
pub proof fn lemma_selected_bounds(f: FilterView, ts: Seq<TaskView>, due_date: Date, n: nat)
    requires
        n <= ts.len() <= usize::MAX,
    ensures
        forall|k: int| 0 <= k < selected(f, ts, due_date, n).len() ==> #[trigger] selected(f, ts, due_date, n)[k] < n,
    decreases n,
{
    if n > 0 {
        lemma_selected_bounds(f, ts, due_date, (n - 1) as nat);
        let p = selected(f, ts, due_date, (n - 1) as nat);
        assert forall|k: int| 0 <= k < selected(f, ts, due_date, n).len() implies #[trigger] selected(f, ts, due_date, n)[k] < n by {
            if k < p.len() {
                assert(selected(f, ts, due_date, n)[k] == p[k]);
            }
        };
    }
}

/// Adding criteria to a filter can only shrink what it selects.
pub proof fn lemma_more_criteria_fewer_matches(f: FilterView, g: FilterView, t: TaskView, today: Date)
    requires
        narrows(g, f),
    ensures
        criteria_hold(g, t, due_date_of(g, today)) ==> criteria_hold(f, t, due_date_of(f, today)),
{
}

pub open spec fn task_views(ts: Seq<Task>) -> Seq<TaskView> {
    ts.map_values(|t: Task| t@)
}

/// True when some entry of `v` holds the characters of `s`.
pub fn contains_string(v: &Vec<String>, s: &String) -> (r: bool)
    ensures
        r == views(v@).contains(s@),
{
    let mut i: usize = 0;
    while i < v.len()
        invariant
            i <= v@.len(),
            forall|k: int| 0 <= k < i ==> v@[k]@ != s@,
        decreases v@.len() - i,
    {
        if v[i] == *s {
            assert(views(v@)[i as int] == s@);
            return true;
        }
        i = i + 1;
    }
    assert forall|k: int| 0 <= k < views(v@).len() implies views(v@)[k] != s@ by {
        assert(views(v@)[k] == v@[k]@);
    };
    false
}

fn shares_string(a: &Vec<String>, b: &Vec<String>) -> (r: bool)
    ensures
        r == shares_entry(views(a@), views(b@)),
{
    let mut i: usize = 0;
    while i < a.len()
        invariant
            i <= a@.len(),
            forall|x: int, y: int|
                0 <= x < i && 0 <= y < b@.len() ==> #[trigger] views(a@)[x] != #[trigger] views(b@)[y],
        decreases a@.len() - i,
    {
        if contains_string(b, &a[i]) {
            assert(views(a@)[i as int] == a@[i as int]@);
            return true;
        }
        assert forall|y: int| 0 <= y < b@.len() implies views(a@)[i as int] != views(b@)[y] by {
            assert(views(a@)[i as int] == a@[i as int]@);
            if views(a@)[i as int] == views(b@)[y] {
                assert(views(b@).contains(a@[i as int]@));
            }
        };
        i = i + 1;
    }
    false
}

impl ViewFilters {
    /// A specification with every criterion absent.
    pub fn new() -> (r: ViewFilters)
        ensures
            unfiltered(r@),
    {
        ViewFilters {
            tag: None,
            status: None,
            due: None,
            priority: None,
            view: None,
            description: None,
        }
    }

    /// True when no criterion is present and no view is chosen.
    pub fn is_unfiltered(&self) -> (r: bool)
        ensures
            r == unfiltered(self@),
    {
        self.tag.is_none() && self.status.is_none() && self.due.is_none()
            && self.priority.is_none() && self.view.is_none() && self.description.is_none()
    }

    /// True when `task` meets every present criterion, the due criterion
    /// compared with `due_date`.
    pub fn matches_on(&self, task: &Task, due_date: &Date) -> (r: bool)
        ensures
            r == criteria_hold(self@, task@, *due_date),
    {
        if let Some(tags) = &self.tag {
            if !shares_string(tags, &task.tags) {
                return false;
            }
        }
        if let Some(sts) = &self.status {
            let text = String::from_str(task.status.as_text());
            if !contains_string(sts, &text) {
                return false;
            }
        }
        if self.due.is_some() {
            if task.due != *due_date {
                return false;
            }
        }
        if let Some(ps) = &self.priority {
            let text = String::from_str(task.priority.as_text());
            if !contains_string(ps, &text) {
                return false;
            }
        }
        if let Some(d) = &self.description {
            if !contains_text(task.description.as_str(), d.as_str()) {
                return false;
            }
        }
        true
    }

    /// The date the due criterion stands for on the day `today`.
    pub fn due_date(&self, today: &Date) -> (r: Date)
        requires
            today.valid(),
        ensures
            r == due_date_of(self@, *today),
    {
        match &self.due {
            Some(tok) => resolve(tok.as_str(), today),
            None => *today,
        }
    }

    /// True when `task` meets every present criterion on the day `today`.
    pub fn matches(&self, task: &Task, today: &Date) -> (r: bool)
        requires
            today.valid(),
        ensures
            r == criteria_hold(self@, task@, due_date_of(self@, *today)),
    {
        let d = self.due_date(today);
        self.matches_on(task, &d)
    }

    /// Indices of the tasks that meet every present criterion on the day
    /// `today`, in their order.
    pub fn select(&self, tasks: &Vec<Task>, today: &Date) -> (r: Vec<usize>)
        requires
            today.valid(),
        ensures
            r@ == selected(self@, task_views(tasks@), due_date_of(self@, *today), tasks@.len()),
    {
        let d = self.due_date(today);
        let ghost ts = task_views(tasks@);
        let mut out: Vec<usize> = Vec::new();
        let mut i: usize = 0;
        while i < tasks.len()
            invariant
                i <= tasks@.len(),
                ts == task_views(tasks@),
                d == due_date_of(self@, *today),
                out@ == selected(self@, ts, d, i as nat),
            decreases tasks@.len() - i,
        {
            assert(ts[i as int] == tasks@[i as int]@);
            if self.matches_on(&tasks[i], &d) {
                out.push(i);
            }
            i = i + 1;
        }
        out
    }
}

} // verus!

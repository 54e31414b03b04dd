//! The task record, its status and priority, and their text forms.

use vstd::prelude::*;
use crate::date::Date;
use crate::text::{str_eq, views};

verus! {

/// Where a task stands; the variants are not ordered.
#[derive(Clone, Copy, Debug, PartialEq, Eq, Structural)]
pub enum Status {
    Todo,
    Hold,
    Done,
    Blocked,
}

/// How urgent a task is, from `Low` to `High`.
#[derive(Clone, Copy, Debug, PartialEq, Eq, Structural)]
pub enum Priority {
    Low,
    Medium,
    High,
}

/// A tracked task; the first tag is its primary tag.
#[derive(Clone, Debug, PartialEq, Eq)]
pub struct Task {
    pub id: u32,
    pub description: String,
    pub tags: Vec<String>,
    pub due: Date,
    pub priority: Priority,
    pub status: Status,
}

/// A task as plain values.
pub struct TaskView {
    pub id: u32,
    pub description: Seq<char>,
    pub tags: Seq<Seq<char>>,
    pub due: Date,
    pub priority: Priority,
    pub status: Status,
}

impl View for Task {
    type V = TaskView;

    open spec fn view(&self) -> TaskView {
        TaskView {
            id: self.id,
            description: self.description@,
            tags: views(self.tags@),
            due: self.due,
            priority: self.priority,
            status: self.status,
        }
    }
}

/// The canonical text of a status.
pub open spec fn status_text(s: Status) -> Seq<char> {
    match s {
        Status::Todo => "Todo"@,
        Status::Hold => "Hold"@,
        Status::Done => "Done"@,
        Status::Blocked => "Blocked"@,
    }
}

/// The canonical text of a priority.
pub open spec fn priority_text(p: Priority) -> Seq<char> {
    match p {
        Priority::Low => "Low"@,
        Priority::Medium => "Medium"@,
        Priority::High => "High"@,
    }
}

/// Rank of a priority in the order `Low < Medium < High`.
pub open spec fn priority_rank(p: Priority) -> int {
    match p {
        Priority::Low => 0,
        Priority::Medium => 1,
        Priority::High => 2,
    }
}

/// The status a task takes when `requested` is applied to it while it is
/// `current`: `Hold` and `Done` cancel themselves back to `Todo`.
pub open spec fn next_status(current: Status, requested: Status) -> Status {
    if current == requested && (requested == Status::Hold || requested == Status::Done) {
        Status::Todo
    } else {
        requested
    }
}

/// The one-character glyph shown for a status.
pub open spec fn glyph_text(s: Status) -> Seq<char> {
    match s {
        Status::Todo => " "@,
        Status::Hold => "~"@,
        Status::Done => "X"@,
        Status::Blocked => "!"@,
    }
}

impl Status {
    /// The canonical text of the status.
    pub fn as_text(&self) -> (r: &'static str)
        ensures
            r@ == status_text(*self),
    {
        match self {
            Status::Todo => "Todo",
            Status::Hold => "Hold",
            Status::Done => "Done",
            Status::Blocked => "Blocked",
        }
    }

    /// The status whose canonical text is `s`.
    pub fn from_text(s: &str) -> (r: Option<Status>)
        ensures
            r is Some <==> (s@ == "Todo"@ || s@ == "Hold"@ || s@ == "Done"@ || s@ == "Blocked"@),
            r is Some ==> status_text(r->0) == s@,
    {
        proof {
            reveal_strlit("Todo");
            reveal_strlit("Hold");
            reveal_strlit("Done");
            reveal_strlit("Blocked");
        }
        if str_eq(s, "Todo") {
            Some(Status::Todo)
        } else if str_eq(s, "Hold") {
            Some(Status::Hold)
        } else if str_eq(s, "Done") {
            Some(Status::Done)
        } else if str_eq(s, "Blocked") {
            Some(Status::Blocked)
        } else {
            None
        }
    }

    /// The glyph shown between brackets for the status.
    pub fn glyph(&self) -> (r: &'static str)
        ensures
            r@ == glyph_text(*self),
    {
        match self {
            Status::Todo => " ",
            Status::Hold => "~",
            Status::Done => "X",
            Status::Blocked => "!",
        }
    }

    /// Applies `requested` to a task that is in this status.
    pub fn toggled(&self, requested: Status) -> (r: Status)
        ensures
            r == next_status(*self, requested),
    {
        if *self == Status::Hold && requested == Status::Hold {
            Status::Todo
        } else if *self == Status::Done && requested == Status::Done {
            Status::Todo
        } else {
            requested
        }
    }
}

/// Applying `Hold` twice to a task not on hold, or `Done` twice to a task
/// not done, leaves it `Todo`; applying `Blocked` twice leaves it `Blocked`.
pub proof fn lemma_toggle_twice(s: Status)
    ensures
        s != Status::Hold ==> next_status(next_status(s, Status::Hold), Status::Hold)
            == Status::Todo,
        s != Status::Done ==> next_status(next_status(s, Status::Done), Status::Done)
            == Status::Todo,
        next_status(next_status(s, Status::Blocked), Status::Blocked) == Status::Blocked,
{
}

impl Priority {
    /// The canonical text of the priority.
    pub fn as_text(&self) -> (r: &'static str)
        ensures
            r@ == priority_text(*self),
    {
        match self {
            Priority::Low => "Low",
            Priority::Medium => "Medium",
            Priority::High => "High",
        }
    }

    /// The priority whose canonical text is `s`.
    pub fn from_text(s: &str) -> (r: Option<Priority>)
        ensures
            r is Some <==> (s@ == "Low"@ || s@ == "Medium"@ || s@ == "High"@),
            r is Some ==> priority_text(r->0) == s@,
    {
        proof {
            reveal_strlit("Low");
            reveal_strlit("Medium");
            reveal_strlit("High");
        }
        if str_eq(s, "Low") {
            Some(Priority::Low)
        } else if str_eq(s, "Medium") {
            Some(Priority::Medium)
        } else if str_eq(s, "High") {
            Some(Priority::High)
        } else {
            None
        }
    }

    /// The priority of a numeric shortcut: 1 low, 2 medium, 3 high, anything else low.
    pub fn from_choice(s: &str) -> (r: Priority)
        ensures
            r == (if s@ == "2"@ {
                Priority::Medium
            } else if s@ == "3"@ {
                Priority::High
            } else {
                Priority::Low
            }),
    {
        if str_eq(s, "2") {
            Priority::Medium
        } else if str_eq(s, "3") {
            Priority::High
        } else {
            Priority::Low
        }
    }

    /// Rank in the order `Low < Medium < High`.
    pub fn rank(&self) -> (r: u8)
        ensures
            r as int == priority_rank(*self),
    {
        match self {
            Priority::Low => 0,
            Priority::Medium => 1,
            Priority::High => 2,
        }
    }
}

} // verus!

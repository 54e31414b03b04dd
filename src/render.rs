//! Text lines of the flat listing and of the two grouped views.

use vstd::prelude::*;
use crate::date::{Date, iso_text, weekday_text};
use crate::filter::task_views;
use crate::order::{primary, primary_tag, in_bounds};
use crate::task::{Task, TaskView, Priority, Status, glyph_text, priority_text, status_text};
use crate::text::{dec, dec_padded, str_eq, u32_text, views, join_with, join_text};

verus! {

/// The ANSI color code of a color name; unknown names give the reset code.
pub open spec fn color_code(color: Seq<char>) -> Seq<char> {
    if color == "red"@ {
        "31"@
    } else if color == "green"@ {
        "32"@
    } else if color == "yellow"@ {
        "33"@
    } else if color == "blue"@ {
        "34"@
    } else if color == "magenta"@ {
        "35"@
    } else if color == "cyan"@ {
        "36"@
    } else if color == "white"@ {
        "37"@
    } else if color == "orange"@ {
        "38;5;208"@
    } else {
        "0"@
    }
}

/// `s` between the escape that sets `color` and the escape that resets it.
pub open spec fn colored(s: Seq<char>, color: Seq<char>) -> Seq<char> {
    "\x1b["@ + color_code(color) + "m"@ + s + "\x1b[0m"@
}

pub open spec fn priority_color(p: Priority) -> Seq<char> {
    match p {
        Priority::Low => "blue"@,
        Priority::Medium => "orange"@,
        Priority::High => "red"@,
    }
}

/// The colored name of a priority.
pub open spec fn priority_label(p: Priority) -> Seq<char> {
    colored(priority_text(p), priority_color(p))
}

/// A task's line in the tag view: glyph, id, priority, description and `MM-DD`.
pub open spec fn tag_view_line(t: TaskView) -> Seq<char> {
    "["@ + glyph_text(t.status) + "]["@ + dec(t.id as nat) + " - "@ + priority_label(t.priority)
        + "] "@ + t.description + " ("@ + dec_padded(t.due.month as nat, 2) + seq!['-'] + dec_padded(
        t.due.day as nat,
        2,
    ) + ")"@
}

/// A task's line in the due view: glyph, `#id`, priority and description.
pub open spec fn due_view_line(t: TaskView) -> Seq<char> {
    "["@ + glyph_text(t.status) + "][#"@ + dec(t.id as nat) + " - "@ + priority_label(t.priority)
        + "] "@ + t.description
}

/// A task's line in the flat listing: id, description, status, date and tags.
pub open spec fn flat_line(t: TaskView) -> Seq<char> {
    dec(t.id as nat) + ", "@ + t.description + ", "@ + status_text(t.status) + ", "@ + iso_text(
        t.due.ymd(),
    ) + ", "@ + join_with(t.tags, ", "@)
}

/// The section of the tag view that begins at the task at place `k` of
/// `order`: a header where its primary tag differs from that of the task
/// before it (or, for the first, from the empty text), then its line.
pub open spec fn tag_block(ts: Seq<TaskView>, order: Seq<usize>, k: int) -> Seq<Seq<char>> {
    let t = ts[order[k] as int];
    let prev = if k == 0 {
        Seq::<char>::empty()
    } else {
        primary_tag(ts[order[k - 1] as int])
    };
    let head = if primary_tag(t) != prev {
        seq![Seq::<char>::empty(), "# "@ + primary_tag(t), "---------------"@]
    } else {
        Seq::empty()
    };
    head.push(tag_view_line(t))
}

/// The tag view of the first `n` tasks of `order`.
pub open spec fn tag_lines(ts: Seq<TaskView>, order: Seq<usize>, n: nat) -> Seq<Seq<char>>
    decreases n,
{
    if n == 0 {
        Seq::empty()
    } else {
        tag_lines(ts, order, (n - 1) as nat) + tag_block(ts, order, n - 1)
    }
}

/// The primary tag of the last of the first `k` tasks of `order` that has
/// tags, or the empty text where none has.
pub open spec fn last_tag(ts: Seq<TaskView>, order: Seq<usize>, k: int) -> Seq<char>
    decreases k,
{
    if k <= 0 {
        Seq::empty()
    } else if ts[order[k - 1] as int].tags.len() > 0 {
        primary_tag(ts[order[k - 1] as int])
    } else {
        last_tag(ts, order, k - 1)
    }
}

/// The header line of a due date.
pub open spec fn due_header(d: Date) -> Seq<char> {
    "Due: "@ + iso_text(d.ymd()) + " ("@ + weekday_text(d.ymd()) + ")"@
}

/// The section of the due view that begins at the task at place `k`: a
/// date header where its date differs from the task before it, a tag
/// header where it has tags and its primary tag differs from `last_tag`,
/// then its line.
pub open spec fn due_block(ts: Seq<TaskView>, order: Seq<usize>, k: int) -> Seq<Seq<char>> {
    let t = ts[order[k] as int];
    let new_date = k == 0 || ts[order[k - 1] as int].due != t.due;
    let date_head = if new_date {
        seq![Seq::<char>::empty(), due_header(t.due), "--------------------------------"@]
    } else {
        Seq::empty()
    };
    let tag_head = if t.tags.len() > 0 && primary_tag(t) != last_tag(ts, order, k) {
        seq!["# "@ + primary_tag(t)]
    } else {
        Seq::empty()
    };
    date_head + tag_head.push(due_view_line(t))
}

/// The due view of the first `n` tasks of `order`.
pub open spec fn due_lines(ts: Seq<TaskView>, order: Seq<usize>, n: nat) -> Seq<Seq<char>>
    decreases n,
{
    if n == 0 {
        Seq::empty()
    } else {
        due_lines(ts, order, (n - 1) as nat) + due_block(ts, order, n - 1)
    }
}

/// Tasks whose due dates can be shown.
pub open spec fn dates_valid(ts: Seq<TaskView>) -> bool {
    forall|k: int| 0 <= k < ts.len() ==> (#[trigger] ts[k]).due.valid()
}

/// The escape code of a color name.
pub fn color_string(string: &str, color: &str) -> (r: String)
    ensures
        r@ == colored(string@, color@),
{
    let code = if str_eq(color, "red") {
        "31"
    } else if str_eq(color, "green") {
        "32"
    } else if str_eq(color, "yellow") {
        "33"
    } else if str_eq(color, "blue") {
        "34"
    } else if str_eq(color, "magenta") {
        "35"
    } else if str_eq(color, "cyan") {
        "36"
    } else if str_eq(color, "white") {
        "37"
    } else if str_eq(color, "orange") {
        "38;5;208"
    } else {
        "0"
    };
    let mut r = String::from_str("\x1b[");
    r.append(code);
    r.append("m");
    r.append(string);
    r.append("\x1b[0m");
    r
}

/// The colored name of a priority: low blue, medium orange, high red.
pub fn get_priority_color(p: &Priority) -> (r: String)
    ensures
        r@ == priority_label(*p),
{
    match p {
        Priority::Low => color_string("Low", "blue"),
        Priority::Medium => color_string("Medium", "orange"),
        Priority::High => color_string("High", "red"),
    }
}

/// The glyph of a status: space, `~`, `X` or `!`.
pub fn get_task_symbol(s: &Status) -> (r: String)
    ensures
        r@ == glyph_text(*s),
{
    String::from_str(s.glyph())
}

/// The line of a task in the tag view.
pub fn tag_line(t: &Task) -> (r: String)
    ensures
        r@ == tag_view_line(t@),
{
    let mut r = String::from_str("[");
    r.append(t.status.glyph());
    r.append("][");
    r.append(u32_text(t.id).as_str());
    r.append(" - ");
    r.append(get_priority_color(&t.priority).as_str());
    r.append("] ");
    r.append(t.description.as_str());
    r.append(" (");
    r.append(t.due.month_day().as_str());
    r.append(")");
    r
}

/// The line of a task in the due view.
pub fn due_line(t: &Task) -> (r: String)
    ensures
        r@ == due_view_line(t@),
{
    let mut r = String::from_str("[");
    r.append(t.status.glyph());
    r.append("][#");
    r.append(u32_text(t.id).as_str());
    r.append(" - ");
    r.append(get_priority_color(&t.priority).as_str());
    r.append("] ");
    r.append(t.description.as_str());
    r
}

/// The line of a task in the flat listing.
pub fn flat_task_line(t: &Task) -> (r: String)
    ensures
        r@ == flat_line(t@),
{
    let mut r = u32_text(t.id);
    r.append(", ");
    r.append(t.description.as_str());
    r.append(", ");
    r.append(t.status.as_text());
    r.append(", ");
    r.append(t.due.to_iso().as_str());
    r.append(", ");
    r.append(join_text(&t.tags, ", ").as_str());
    r
}


fn push_line(out: &mut Vec<String>, line: String)
    ensures
        views(final(out)@) == views(old(out)@).push(line@),
{
    out.push(line);
    assert(views(out@) =~= views(old(out)@).push(line@));
}

fn header(prefix: &str, s: &str) -> (r: String)
    ensures
        r@ == prefix@ + s@,
{
    let mut r = String::from_str(prefix);
    r.append(s);
    r
}

/// The tag view of the tasks of `ts` at the indices of `order`, in that order.
pub fn render_by_tag(ts: &Vec<Task>, order: &Vec<usize>) -> (r: Vec<String>)
    requires
        in_bounds(order@, ts@.len()),
    ensures
        views(r@) == tag_lines(task_views(ts@), order@, order@.len()),
{
    let ghost tv = task_views(ts@);
    let mut out: Vec<String> = Vec::new();
    let mut i: usize = 0;
    while i < order.len()
        invariant
            i <= order@.len(),
            tv == task_views(ts@),
            in_bounds(order@, ts@.len()),
            views(out@) == tag_lines(tv, order@, i as nat),
        decreases order@.len() - i,
    {
        let t = &ts[order[i]];
        assert(tv[order@[i as int] as int] == t@);
        let tag = primary(t);
        let new_tag = if i == 0 {
            assert(tag@.len() == 0 <==> tag@ =~= Seq::<char>::empty());
            tag.unicode_len() != 0
        } else {
            let p = &ts[order[i - 1]];
            assert(tv[order@[i - 1] as int] == p@);
            !str_eq(tag, primary(p))
        };
        let ghost before = views(out@);
        if new_tag {
            push_line(&mut out, String::new());
            push_line(&mut out, header("# ", tag));
            push_line(&mut out, String::from_str("---------------"));
        }
        push_line(&mut out, tag_line(t));
        assert(views(out@) =~= before + tag_block(tv, order@, i as int));
        i = i + 1;
    }
    out
}

/// The due view of the tasks of `ts` at the indices of `order`, in that order.
pub fn render_by_due(ts: &Vec<Task>, order: &Vec<usize>) -> (r: Vec<String>)
    requires
        in_bounds(order@, ts@.len()),
        dates_valid(task_views(ts@)),
    ensures
        views(r@) == due_lines(task_views(ts@), order@, order@.len()),
{
    let ghost tv = task_views(ts@);
    let mut out: Vec<String> = Vec::new();
    let mut cur_tag = String::new();
    let mut i: usize = 0;
    while i < order.len()
        invariant
            i <= order@.len(),
            tv == task_views(ts@),
            in_bounds(order@, ts@.len()),
            dates_valid(tv),
            cur_tag@ == last_tag(tv, order@, i as int),
            views(out@) == due_lines(tv, order@, i as nat),
        decreases order@.len() - i,
    {
        let t = &ts[order[i]];
        assert(tv[order@[i as int] as int] == t@);
        let new_date = if i == 0 {
            true
        } else {
            let p = &ts[order[i - 1]];
            assert(tv[order@[i - 1] as int] == p@);
            p.due != t.due
        };
        let ghost before = views(out@);
        if new_date {
            push_line(&mut out, String::new());
            let mut h = String::from_str("Due: ");
            h.append(t.due.to_iso().as_str());
            h.append(" (");
            h.append(t.due.weekday_name().as_str());
            h.append(")");
            push_line(&mut out, h);
            push_line(&mut out, String::from_str("--------------------------------"));
        }
        if t.tags.len() > 0 && t.tags[0] != cur_tag {
            push_line(&mut out, header("# ", t.tags[0].as_str()));
            cur_tag = t.tags[0].clone();
        }
        push_line(&mut out, due_line(t));
        assert(views(out@) =~= before + due_block(tv, order@, i as int));
        i = i + 1;
    }
    out
}

} // verus!

//! The two sort orders of the grouped views, and a stable insertion sort of
//! task indices under them.

use vstd::prelude::*;
use crate::date::Date;
use crate::filter::task_views;
use crate::task::{Task, TaskView, priority_rank};
use crate::text::{lex_cmp, text_cmp, lemma_lex_cmp_antisym, lemma_lex_cmp_trans};

verus! {

broadcast use vstd::seq_lib::group_to_multiset_ensures;

/// The tag that groups a task: its first tag, or the empty text where it has none.
pub open spec fn primary_tag(t: TaskView) -> Seq<char> {
    if t.tags.len() > 0 {
        t.tags[0]
    } else {
        Seq::empty()
    }
}

pub open spec fn int_cmp(a: int, b: int) -> int {
    if a < b {
        -1
    } else if a > b {
        1
    } else {
        0
    }
}

pub open spec fn cmp_then(c: int, rest: int) -> int {
    if c != 0 {
        c
    } else {
        rest
    }
}

/// Compares two tasks by primary tag, then due date, then priority; with
/// `by_due`, by due date, then primary tag, then priority.
pub open spec fn key_cmp(a: TaskView, b: TaskView, by_due: bool) -> int {
    let ct = lex_cmp(primary_tag(a), primary_tag(b));
    let cd = a.due.spec_cmp(b.due);
    let cp = int_cmp(priority_rank(a.priority), priority_rank(b.priority));
    if by_due {
        cmp_then(cd, cmp_then(ct, cp))
    } else {
        cmp_then(ct, cmp_then(cd, cp))
    }
}

/// Task `i` of `ts` comes before task `j`: a smaller key, or an equal key and
/// an earlier place, so that equal keys keep their order.
pub open spec fn before(ts: Seq<TaskView>, i: usize, j: usize, by_due: bool) -> bool {
    let c = key_cmp(ts[i as int], ts[j as int], by_due);
    c < 0 || (c == 0 && i < j)
}

/// No index of `order` is followed by one that comes before it.
pub open spec fn sorted_by(ts: Seq<TaskView>, order: Seq<usize>, by_due: bool) -> bool {
    forall|a: int, b: int|
        0 <= a < b < order.len() ==> !before(ts, #[trigger] order[b], #[trigger] order[a], by_due)
}

pub open spec fn in_bounds(order: Seq<usize>, n: nat) -> bool {
    forall|k: int| 0 <= k < order.len() ==> #[trigger] order[k] < n
}

proof fn lemma_date_cmp(a: Date, b: Date, c: Date)
    ensures
        a.spec_cmp(b) == -b.spec_cmp(a),
        a.spec_cmp(b) == 0 <==> a == b,
        a.spec_cmp(b) < 0 && b.spec_cmp(c) < 0 ==> a.spec_cmp(c) < 0,
{
}

proof fn lemma_key_cmp(a: TaskView, b: TaskView, c: TaskView, by_due: bool)
    ensures
        key_cmp(a, b, by_due) == -key_cmp(b, a, by_due),
        key_cmp(a, b, by_due) <= 0 && key_cmp(b, c, by_due) <= 0 ==> key_cmp(a, c, by_due) <= 0,
        key_cmp(a, b, by_due) <= 0 && key_cmp(b, c, by_due) < 0 ==> key_cmp(a, c, by_due) < 0,
        key_cmp(a, b, by_due) < 0 && key_cmp(b, c, by_due) <= 0 ==> key_cmp(a, c, by_due) < 0,
{
    let (pa, pb, pc) = (primary_tag(a), primary_tag(b), primary_tag(c));
    lemma_lex_cmp_antisym(pa, pb);
    lemma_lex_cmp_antisym(pb, pc);
    lemma_lex_cmp_antisym(pa, pc);
    if lex_cmp(pa, pb) < 0 && lex_cmp(pb, pc) < 0 {
        lemma_lex_cmp_trans(pa, pb, pc);
    }
    lemma_date_cmp(a.due, b.due, c.due);
    lemma_date_cmp(b.due, c.due, a.due);
    lemma_date_cmp(a.due, c.due, b.due);
}

/// `before` is a strict order.
proof fn lemma_before(ts: Seq<TaskView>, i: usize, j: usize, k: usize, by_due: bool)
    requires
        i < ts.len(),
        j < ts.len(),
        k < ts.len(),
    ensures
        !before(ts, i, i, by_due),
        i != j ==> (before(ts, i, j, by_due) || before(ts, j, i, by_due)),
        before(ts, i, j, by_due) && before(ts, j, k, by_due) ==> before(ts, i, k, by_due),
{
    lemma_key_cmp(ts[i as int], ts[j as int], ts[k as int], by_due);
    lemma_key_cmp(ts[i as int], ts[i as int], ts[i as int], by_due);
}

pub(crate) fn primary(t: &Task) -> (r: &str)
    ensures
        r@ == primary_tag(t@),
{
    if t.tags.len() > 0 {
        t.tags[0].as_str()
    } else {
        proof {
            reveal_strlit("");
        }
        ""
    }
}

fn cmp_u8(a: u8, b: u8) -> (r: i8)
    ensures
        r as int == int_cmp(a as int, b as int),
{
    if a < b {
        -1
    } else if a > b {
        1
    } else {
        0
    }
}

/// Decides `before` on the tasks at indices `i` and `j`.
pub fn comes_before(ts: &Vec<Task>, i: usize, j: usize, by_due: bool) -> (r: bool)
    requires
        i < ts@.len(),
        j < ts@.len(),
    ensures
        r == before(task_views(ts@), i, j, by_due),
{
    let a = &ts[i];
    let b = &ts[j];
    let ct = text_cmp(primary(a), primary(b));
    let cd = a.due.cmp_date(&b.due);
    let cp = cmp_u8(a.priority.rank(), b.priority.rank());
    let c = if by_due {
        if cd != 0 {
            cd
        } else if ct != 0 {
            ct
        } else {
            cp
        }
    } else {
        if ct != 0 {
            ct
        } else if cd != 0 {
            cd
        } else {
            cp
        }
    };
    assert(task_views(ts@)[i as int] == ts@[i as int]@);
    assert(task_views(ts@)[j as int] == ts@[j as int]@);
    c < 0 || (c == 0 && i < j)
}

/// The indices of `idx` rearranged into the order `before` gives.
pub fn sort_indices(ts: &Vec<Task>, idx: &Vec<usize>, by_due: bool) -> (r: Vec<usize>)
    requires
        in_bounds(idx@, ts@.len()),
    ensures
        r@.to_multiset() == idx@.to_multiset(),
        in_bounds(r@, ts@.len()),
        sorted_by(task_views(ts@), r@, by_due),
{
    let ghost tv = task_views(ts@);
    let mut r: Vec<usize> = Vec::new();
    let mut k: usize = 0;
    while k < idx.len()
        invariant
            k <= idx@.len(),
            tv == task_views(ts@),
            tv.len() == ts@.len(),
            in_bounds(idx@, ts@.len()),
            in_bounds(r@, ts@.len()),
            r@.to_multiset() == idx@.take(k as int).to_multiset(),
            sorted_by(tv, r@, by_due),
        decreases idx@.len() - k,
    {
        let x = idx[k];
        let mut p: usize = 0;
        while p < r.len() && !comes_before(ts, x, r[p], by_due)
            invariant
                p <= r@.len(),
                x < ts@.len(),
                tv == task_views(ts@),
                in_bounds(r@, ts@.len()),
                forall|q: int| 0 <= q < p ==> !before(tv, x, #[trigger] r@[q], by_due),
            decreases r@.len() - p,
        {
            p = p + 1;
        }
        let ghost old_r = r@;
        r.insert(p, x);
        proof {
            let s = r@;
            assert(s.remove(p as int) =~= old_r);
            assert(s[p as int] == x);
            assert(s.to_multiset().remove(x) == old_r.to_multiset());
            assert(s.to_multiset().count(x) > 0);
            assert(s.to_multiset() =~= old_r.to_multiset().insert(x));
            assert(idx@.take(k + 1) =~= idx@.take(k as int).push(x));
            assert forall|a: int, b: int| 0 <= a < b < s.len() implies !before(
                tv,
                #[trigger] s[b],
                #[trigger] s[a],
                by_due,
            ) by {
                if b < p {
                    assert(s[a] == old_r[a] && s[b] == old_r[b]);
                } else if b == p {
                    assert(s[a] == old_r[a]);
                } else if a == p {
                    assert(s[b] == old_r[b - 1]);
                    assert(before(tv, x, old_r[p as int], by_due));
                    lemma_before(tv, old_r[b - 1], x, old_r[p as int], by_due);
                    if b - 1 > p {
                        assert(!before(tv, old_r[b - 1], old_r[p as int], by_due));
                    }
                } else if a < p {
                    assert(s[a] == old_r[a] && s[b] == old_r[b - 1]);
                } else {
                    assert(s[a] == old_r[a - 1] && s[b] == old_r[b - 1]);
                }
            };
            assert forall|q: int| 0 <= q < s.len() implies #[trigger] s[q] < ts@.len() by {
                if q < p {
                    assert(s[q] == old_r[q]);
                } else if q > p {
                    assert(s[q] == old_r[q - 1]);
                }
            };
        }
        k = k + 1;
    }
    assert(idx@.take(k as int) =~= idx@);
    r
}

} // verus!

//! Tasks as records of text fields, the form in which the store is saved:
//! id, description, status, due date, priority and the tags joined by `;`.

use vstd::prelude::*;
use crate::date::{Date, iso_text, parse_date, parsed_ymd, parsed_view};
use crate::task::{Task, TaskView, Status, Priority, status_text, priority_text};
use crate::manager::TaskManager;
use crate::text::{
    dec, digit_char, views, split_on, join_with, split_text, join_text, u32_text, lemma_split_join, str_eq,
};

verus! {

pub open spec fn is_digit(c: char) -> bool {
    48 <= c as u32 <= 57
}

/// The number that a run of decimal digits writes.
pub open spec fn digits_value(s: Seq<char>) -> nat
    decreases s.len(),
{
    if s.len() == 0 {
        0
    } else {
        digits_value(s.drop_last()) * 10 + ((s.last() as u32) - 48) as nat
    }
}

pub open spec fn all_digits(s: Seq<char>) -> bool {
    forall|k: int| 0 <= k < s.len() ==> is_digit(#[trigger] s[k])
}

/// The `u32` that `s` writes in decimal, where it is one.
pub open spec fn parse_dec(s: Seq<char>) -> Option<u32> {
    if s.len() > 0 && all_digits(s) && digits_value(s) <= u32::MAX {
        Some(digits_value(s) as u32)
    } else {
        None
    }
}

proof fn lemma_digit_char(d: nat)
    requires
        d < 10,
    ensures
        digit_char(d) as u32 == 48 + d,
{
}

/// Decimal text reads back as the number it was written from.
pub proof fn lemma_dec_reads_back(n: nat)
    ensures
        dec(n).len() > 0,
        all_digits(dec(n)),
        digits_value(dec(n)) == n,
    decreases n,
{
    if n < 10 {
        lemma_digit_char(n);
        let s = dec(n);
        assert(s.drop_last() =~= Seq::<char>::empty());
        assert(digits_value(s.drop_last()) == 0);
        assert(s.last() == digit_char(n));
        assert(digits_value(s) == digits_value(s.drop_last()) * 10 + ((s.last() as u32) - 48) as nat);
    } else {
        lemma_dec_reads_back(n / 10);
        lemma_digit_char(n % 10);
        let s = dec(n);
        assert(s.drop_last() =~= dec(n / 10));
        assert forall|k: int| 0 <= k < s.len() implies is_digit(#[trigger] s[k]) by {
            if k < s.len() - 1 {
                assert(s[k] == dec(n / 10)[k]);
            }
        };
        assert(s.last() == digit_char(n % 10));
        assert(digits_value(s) == digits_value(dec(n / 10)) * 10 + (n % 10));
        assert(n == (n / 10) * 10 + n % 10) by (nonlinear_arith);
        assert(digits_value(s) == n);
    }
}

/// Reads the decimal text of a `u32`.
pub fn parse_u32(s: &str) -> (r: Option<u32>)
    ensures
        r == parse_dec(s@),
{
    let n = s.unicode_len();
    let mut acc: u32 = 0;
    let mut big = false;
    let mut i: usize = 0;
    while i < n
        invariant
            n == s@.len(),
            i <= n,
            all_digits(s@.take(i as int)),
            big ==> digits_value(s@.take(i as int)) > u32::MAX,
            !big ==> acc as nat == digits_value(s@.take(i as int)),
        decreases n - i,
    {
        let c = s.get_char(i);
        let ghost pre = s@.take(i as int);
        assert(s@.take(i + 1).drop_last() =~= pre);
        assert(s@.take(i + 1).last() == c);
        if (c as u32) < 48 || (c as u32) > 57 {
            assert(!all_digits(s@)) by {
                assert(s@[i as int] == c);
            };
            return None;
        }
        let d = (c as u32) - 48;
        let ghost v = digits_value(pre);
        assert(digits_value(s@.take(i + 1)) == v * 10 + d);
        if !big {
            if acc > (u32::MAX - d) / 10 {
                assert(v * 10 + d > u32::MAX) by (nonlinear_arith)
                    requires
                        v == acc,
                        acc > (u32::MAX - d) / 10,
                        d <= 9,
                ;
                big = true;
            } else {
                assert(acc * 10 + d <= u32::MAX) by (nonlinear_arith)
                    requires
                        acc <= (u32::MAX - d) / 10,
                        d <= 9,
                ;
                acc = acc * 10 + d;
            }
        } else {
            assert(v * 10 + d > u32::MAX) by (nonlinear_arith)
                requires
                    v > u32::MAX,
            ;
        }
        assert forall|k: int| 0 <= k < i + 1 implies is_digit(#[trigger] s@.take(i + 1)[k]) by {
            if k < i {
                assert(s@.take(i + 1)[k] == pre[k]);
            }
        };
        i = i + 1;
    }
    assert(s@.take(n as int) =~= s@);
    if n == 0 || big {
        None
    } else {
        Some(acc)
    }
}

/// The status whose text is `s`.
pub open spec fn status_of(s: Seq<char>) -> Option<Status> {
    if s == "Todo"@ {
        Some(Status::Todo)
    } else if s == "Hold"@ {
        Some(Status::Hold)
    } else if s == "Done"@ {
        Some(Status::Done)
    } else if s == "Blocked"@ {
        Some(Status::Blocked)
    } else {
        None
    }
}

/// The priority whose text is `s`.
pub open spec fn priority_of(s: Seq<char>) -> Option<Priority> {
    if s == "Low"@ {
        Some(Priority::Low)
    } else if s == "Medium"@ {
        Some(Priority::Medium)
    } else if s == "High"@ {
        Some(Priority::High)
    } else {
        None
    }
}

/// The record of a task: id, description, status, `YYYY-MM-DD`, priority, tags joined by `;`.
pub open spec fn record_of(t: TaskView) -> Seq<Seq<char>> {
    seq![
        dec(t.id as nat),
        t.description,
        status_text(t.status),
        iso_text(t.due.ymd()),
        priority_text(t.priority),
        join_with(t.tags, seq![';']),
    ]
}

/// The date of parsed text, where it is one of `Date`.
pub open spec fn record_date(s: Seq<char>) -> Option<Date> {
    match parsed_view(parsed_ymd(s)) {
        Some(v) => if 0 <= v.0 <= 9999 {
            Some(Date { year: v.0 as u32, month: v.1 as u32, day: v.2 as u32 })
        } else {
            None
        },
        None => None,
    }
}

/// The task a record describes, where every field reads.
pub open spec fn task_of_record(fs: Seq<Seq<char>>) -> Option<TaskView> {
    if fs.len() == 6 && parse_dec(fs[0]) is Some && status_of(fs[2]) is Some && record_date(
        fs[3],
    ) is Some && priority_of(fs[4]) is Some {
        Some(
            TaskView {
                id: parse_dec(fs[0])->0,
                description: fs[1],
                status: status_of(fs[2])->0,
                due: record_date(fs[3])->0,
                priority: priority_of(fs[4])->0,
                tags: split_on(fs[5], ';'),
            },
        )
    } else {
        None
    }
}

/// A task that its record describes exactly: a date of `Date`, at least one
/// tag, and no `;` in a tag.
pub open spec fn record_safe(t: TaskView) -> bool {
    &&& t.due.valid()
    &&& t.tags.len() >= 1
    &&& forall|k: int| 0 <= k < t.tags.len() ==> !(#[trigger] t.tags[k]).contains(';')
}

/// Each status and priority text reads back as what it was written from.
pub proof fn lemma_texts_read_back(s: Status, p: Priority)
    ensures
        status_of(status_text(s)) == Some(s),
        priority_of(priority_text(p)) == Some(p),
{
    reveal_strlit("Todo");
    reveal_strlit("Hold");
    reveal_strlit("Done");
    reveal_strlit("Blocked");
    reveal_strlit("Low");
    reveal_strlit("Medium");
    reveal_strlit("High");
    assert("Todo"@[0] == 'T' && "Hold"@[0] == 'H' && "Done"@[0] == 'D' && "Blocked"@[0] == 'B');
    assert("Low"@[0] == 'L' && "Medium"@[0] == 'M' && "High"@[0] == 'H');
}

/// Reading the record of a task gives the task back.
pub proof fn lemma_record_round_trip(t: TaskView)
    requires
        record_safe(t),
        parsed_view(parsed_ymd(iso_text(t.due.ymd()))) == Some(t.due.ymd()),
    ensures
        task_of_record(record_of(t)) == Some(t),
{
    let fs = record_of(t);
    lemma_dec_reads_back(t.id as nat);
    lemma_split_join(t.tags, ';');
    reveal_strlit("Todo");
    reveal_strlit("Hold");
    reveal_strlit("Done");
    reveal_strlit("Blocked");
    reveal_strlit("Low");
    reveal_strlit("Medium");
    reveal_strlit("High");
    lemma_texts_read_back(t.status, t.priority);
}

pub open spec fn opt_task_view(r: Option<Task>) -> Option<TaskView> {
    match r {
        Some(t) => Some(t@),
        None => None,
    }
}

impl Task {
    /// The record of the task.
    pub fn to_record(&self) -> (r: Vec<String>)
        ensures
            views(r@) == record_of(self@),
    {
        let mut r: Vec<String> = Vec::new();
        r.push(u32_text(self.id));
        r.push(self.description.clone());
        r.push(String::from_str(self.status.as_text()));
        r.push(self.due.to_iso());
        r.push(String::from_str(self.priority.as_text()));
        let sep = ";";
        proof {
            reveal_strlit(";");
            assert(sep@ =~= seq![';']);
        }
        let tags = join_text(&self.tags, sep);
        assert(tags@ == join_with(self@.tags, seq![';']));
        r.push(tags);
        assert(r@.len() == 6);
        assert(r@[0]@ == dec(self.id as nat));
        assert(r@[1]@ == self@.description);
        assert(r@[2]@ == status_text(self.status));
        assert(r@[3]@ == iso_text(self.due.ymd()));
        assert(r@[4]@ == priority_text(self.priority));
        assert(r@[5]@ == join_with(self@.tags, seq![';']));
        assert(views(r@) =~= record_of(self@));
        r
    }

    /// The task a record describes; `None` where a field does not read.
    pub fn from_record(fields: &Vec<String>) -> (r: Option<Task>)
        ensures
            opt_task_view(r) == task_of_record(views(fields@)),
            forall|t: TaskView|
                record_safe(t) && #[trigger] record_of(t) == views(fields@) ==> opt_task_view(r)
                    == Some(t),
    {
        let ghost fs = views(fields@);
        if fields.len() != 6 {
            proof {
                assert forall|t: TaskView| record_safe(t) && #[trigger] record_of(t) == fs implies false by {
                    assert(record_of(t).len() == 6);
                };
            }
            return None;
        }
        assert(fs[0] == fields@[0]@ && fs[1] == fields@[1]@ && fs[2] == fields@[2]@);
        assert(fs[3] == fields@[3]@ && fs[4] == fields@[4]@ && fs[5] == fields@[5]@);
        let parsed = parse_date(fields[3].as_str());
        proof {
            assert forall|t: TaskView| record_safe(t) && #[trigger] record_of(t) == fs implies task_of_record(fs) == Some(t) by {
                assert(iso_text(t.due.ymd()) == fs[3]);
                lemma_record_round_trip(t);
            };
        }
        let id = match parse_u32(fields[0].as_str()) {
            Some(v) => v,
            None => return None,
        };
        let status = match Status::from_text(fields[2].as_str()) {
            Some(v) => v,
            None => return None,
        };
        let priority = match Priority::from_text(fields[4].as_str()) {
            Some(v) => v,
            None => return None,
        };
        let due = match parsed {
            Some(v) => if v.0 >= 0 && v.0 <= 9999 {
                Date { year: v.0 as u32, month: v.1, day: v.2 }
            } else {
                return None;
            },
            None => return None,
        };
        proof {
            reveal_strlit("Todo");
            reveal_strlit("Hold");
            reveal_strlit("Done");
            reveal_strlit("Blocked");
            reveal_strlit("Low");
            reveal_strlit("Medium");
            reveal_strlit("High");
        }
        let tags = split_text(fields[5].as_str(), ';');
        let t = Task { id, description: fields[1].clone(), tags, due, priority, status };
        proof {
            lemma_texts_read_back(status, priority);
            assert(status_of(fs[2]) == Some(status));
            assert(priority_of(fs[4]) == Some(priority));
            assert(record_date(fs[3]) == Some(due));
            assert(t@ == task_of_record(fs)->0);
        }
        Some(t)
    }
}


/// The header record that leads a saved store.
pub open spec fn header_record() -> Seq<Seq<char>> {
    seq!["id"@, "description"@, "status"@, "due"@, "priority"@, "tags"@]
}

/// The records of a saved store: the header, then one record per task in order.
pub open spec fn saved_records(ts: Seq<TaskView>) -> Seq<Seq<Seq<char>>> {
    seq![header_record()] + ts.map_values(|t: TaskView| record_of(t))
}

/// A record that loading passes over: an empty one, or one whose first field is `id`.
pub open spec fn skipped(fs: Seq<Seq<char>>) -> bool {
    fs.len() == 0 || fs[0] == "id"@
}

/// Loading the first `n` records: the tasks read so far, or the index of
/// the first record that does not read.
pub open spec fn loaded(recs: Seq<Seq<Seq<char>>>, n: nat) -> Result<Seq<TaskView>, usize>
    decreases n,
{
    if n == 0 {
        Ok(Seq::empty())
    } else {
        match loaded(recs, (n - 1) as nat) {
            Err(k) => Err(k),
            Ok(p) => if skipped(recs[n - 1]) {
                Ok(p)
            } else {
                match task_of_record(recs[n - 1]) {
                    Some(t) => Ok(p.push(t)),
                    None => Err((n - 1) as usize),
                }
            },
        }
    }
}

pub open spec fn record_views(recs: Seq<Vec<String>>) -> Seq<Seq<Seq<char>>> {
    recs.map_values(|r: Vec<String>| views(r@))
}

proof fn lemma_loaded_err(recs: Seq<Seq<Seq<char>>>, m: nat, n: nat, k: usize)
    requires
        m <= n,
        loaded(recs, m) == Err::<Seq<TaskView>, usize>(k),
    ensures
        loaded(recs, n) == Err::<Seq<TaskView>, usize>(k),
    decreases n,
{
    if n > m {
        lemma_loaded_err(recs, m, (n - 1) as nat, k);
    }
}

proof fn lemma_saved_at(ts: Seq<TaskView>, i: int)
    requires
        1 <= i <= ts.len(),
    ensures
        saved_records(ts)[i] == record_of(ts[i - 1]),
        saved_records(ts)[0] == header_record(),
        saved_records(ts).len() == ts.len() + 1,
{
    assert(saved_records(ts)[i] == ts.map_values(|t: TaskView| record_of(t))[i - 1]);
}

proof fn lemma_record_not_skipped(t: TaskView)
    ensures
        !skipped(record_of(t)),
{
    lemma_dec_reads_back(t.id as nat);
    reveal_strlit("id");
    assert(is_digit(dec(t.id as nat)[0]));
    assert("id"@[0] == 'i');
}

fn is_skipped(fields: &Vec<String>) -> (r: bool)
    ensures
        r == skipped(views(fields@)),
{
    if fields.len() == 0 {
        return true;
    }
    assert(views(fields@)[0] == fields@[0]@);
    str_eq(fields[0].as_str(), "id")
}

impl TaskManager {
    /// The records that save the store: a header, then each task in order.
    pub fn to_records(&self) -> (r: Vec<Vec<String>>)
        ensures
            record_views(r@) == saved_records(self.views()),
    {
        let mut out: Vec<Vec<String>> = Vec::new();
        let mut h: Vec<String> = Vec::new();
        h.push(String::from_str("id"));
        h.push(String::from_str("description"));
        h.push(String::from_str("status"));
        h.push(String::from_str("due"));
        h.push(String::from_str("priority"));
        h.push(String::from_str("tags"));
        assert(views(h@) =~= header_record());
        out.push(h);
        let ghost tv = self.views();
        let mut i: usize = 0;
        while i < self.tasks.len()
            invariant
                tv == self.views(),
                i <= self.tasks@.len(),
                record_views(out@) == saved_records(tv.take(i as int)),
            decreases self.tasks@.len() - i,
        {
            assert(tv[i as int] == self.tasks@[i as int]@);
            let rec = self.tasks[i].to_record();
            let ghost pre = record_views(out@);
            out.push(rec);
            assert(record_views(out@) =~= pre.push(record_of(tv[i as int])));
            assert(saved_records(tv.take(i + 1)) =~= saved_records(tv.take(i as int)).push(
                record_of(tv[i as int]),
            ));
            i = i + 1;
        }
        assert(tv.take(i as int) =~= tv);
        out
    }

    /// Loads a store from records, passing over empty records and header
    /// records; fails with the index of the first record that does not read.
    /// Loading the records that `to_records` made gives the same tasks back,
    /// where each task has a date of `Date` and tags without `;`.
    pub fn from_records(records: &Vec<Vec<String>>) -> (r: Result<TaskManager, usize>)
        ensures
            match r {
                Ok(m) => loaded(record_views(records@), records@.len()) == Ok::<Seq<TaskView>, usize>(m.views()),
                Err(k) => loaded(record_views(records@), records@.len()) == Err::<Seq<TaskView>, usize>(k),
            },
            forall|ts: Seq<TaskView>|
                (forall|k: int| 0 <= k < ts.len() ==> record_safe(#[trigger] ts[k]))
                    && #[trigger] saved_records(ts) == record_views(records@) ==> (r matches Ok(m)
                    && m.views() == ts),
    {
        let ghost rv = record_views(records@);
        let mut out = TaskManager::new();
        let mut i: usize = 0;
        assert(out.views() =~= Seq::<TaskView>::empty());
        while i < records.len()
            invariant
                rv == record_views(records@),
                i <= records@.len(),
                loaded(rv, i as nat) == Ok::<Seq<TaskView>, usize>(out.views()),
                forall|ts: Seq<TaskView>|
                    (forall|k: int| 0 <= k < ts.len() ==> record_safe(#[trigger] ts[k]))
                        && #[trigger] saved_records(ts) == rv ==> out.views() == ts.take(
                        if i == 0 { 0 } else { i - 1 },
                    ),
            decreases records@.len() - i,
        {
            assert(rv[i as int] == views(records@[i as int]@));
            let ghost pre = out.views();
            if is_skipped(&records[i]) {
                proof {
                    assert forall|ts: Seq<TaskView>|
                        (forall|k: int| 0 <= k < ts.len() ==> record_safe(#[trigger] ts[k]))
                            && #[trigger] saved_records(ts) == rv implies out.views() == ts.take(
                            if i + 1 == 0 { 0 } else { i + 1 - 1 },
                        ) by {
                        if i > 0 {
                            assert(saved_records(ts).len() == ts.len() + 1);
                            lemma_saved_at(ts, i as int);
                            lemma_record_not_skipped(ts[i - 1]);
                        } else {
                            assert(ts.take(0) =~= Seq::<TaskView>::empty());
                        }
                    };
                }
            } else {
                match Task::from_record(&records[i]) {
                    Some(t) => {
                        out.tasks.push(t);
                        assert(out.views() =~= pre.push(t@));
                        proof {
                            assert forall|ts: Seq<TaskView>|
                                (forall|k: int| 0 <= k < ts.len() ==> record_safe(#[trigger] ts[k]))
                                    && #[trigger] saved_records(ts) == rv implies out.views()
                                    == ts.take(i as int) by {
                                reveal_strlit("id");
                                if i == 0 {
                                    assert(rv[0] == header_record());
                                    assert(skipped(header_record()));
                                } else {
                                    assert(saved_records(ts).len() == ts.len() + 1);
                            lemma_saved_at(ts, i as int);
                                    assert(record_safe(ts[i - 1]));
                                    assert(ts.take(i as int) =~= ts.take(i - 1).push(ts[i - 1]));
                                }
                            };
                        }
                    },
                    None => {
                        proof {
                            assert forall|ts: Seq<TaskView>|
                                (forall|k: int| 0 <= k < ts.len() ==> record_safe(#[trigger] ts[k]))
                                    && #[trigger] saved_records(ts) == rv implies false by {
                                reveal_strlit("id");
                                if i == 0 {
                                    assert(rv[0] == header_record());
                                    assert(skipped(header_record()));
                                } else {
                                    assert(saved_records(ts).len() == ts.len() + 1);
                            lemma_saved_at(ts, i as int);
                                    assert(record_safe(ts[i - 1]));
                                }
                            };
                        }
                        proof {
                            assert(loaded(rv, (i + 1) as nat) == Err::<Seq<TaskView>, usize>(i));
                            lemma_loaded_err(rv, (i + 1) as nat, records@.len() as nat, i);
                        }
                        return Err(i);
                    },
                }
            }
            i = i + 1;
        }
        proof {
            assert forall|ts: Seq<TaskView>|
                (forall|k: int| 0 <= k < ts.len() ==> record_safe(#[trigger] ts[k]))
                    && #[trigger] saved_records(ts) == rv implies out.views() == ts by {
                assert(rv.len() == ts.len() + 1);
                assert(ts.take(ts.len() as int) =~= ts);
            };
        }
        Ok(out)
    }
}

} // verus!

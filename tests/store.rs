use taskline::date::{date_or_sentinel, is_due_shortcut, resolve, resolve_choice, sentinel_date, Date};
use taskline::manager::TaskError;
use taskline::record::parse_u32;
use taskline::render::{color_string, get_priority_color, render_by_due, render_by_tag, get_task_symbol};
use taskline::task::{Priority, Status, Task};
use taskline::text::{contains_text, join_text, split_text, text_cmp, u32_text_padded};
use taskline::order::sort_indices;
use taskline::{TaskManager, ViewFilters};

fn day(y: u32, m: u32, d: u32) -> Date {
    Date::new(y, m, d).unwrap()
}

fn strings(v: &[&str]) -> Vec<String> {
    v.iter().map(|s| s.to_string()).collect()
}

fn task(id: u32, desc: &str, tags: &[&str], due: Date, priority: Priority, status: Status) -> Task {
    Task {
        id,
        description: desc.to_string(),
        tags: strings(tags),
        due,
        priority,
        status,
    }
}

fn store(tasks: Vec<Task>) -> TaskManager {
    TaskManager { tasks }
}

fn low() -> String {
    "\x1b[34mLow\x1b[0m".to_string()
}

fn high() -> String {
    "\x1b[31mHigh\x1b[0m".to_string()
}

#[test]
fn max_id_of_empty_store_is_zero() {
    let m = TaskManager::new();
    assert_eq!(m.get_max_id(), 0);
}

#[test]
fn add_to_empty_store_assigns_one() {
    let mut m = TaskManager::new();
    let id = m.add_task(&"write".to_string(), strings(&["home"]), day(2024, 1, 1), Priority::High);
    assert_eq!(id, 1);
    assert_eq!(m.tasks.len(), 1);
    assert_eq!(m.tasks[0].id, 1);
    assert_eq!(m.tasks[0].status, Status::Todo);
    assert_eq!(m.tasks[0].priority, Priority::High);
    assert_eq!(m.tasks[0].description, "write");
}

#[test]
fn removed_id_is_not_reused() {
    let mut m = TaskManager::new();
    for name in ["a", "b", "c"] {
        m.add_task(&name.to_string(), strings(&["t"]), day(2024, 1, 1), Priority::Low);
    }
    m.remove_task(2);
    assert_eq!(m.tasks.iter().map(|t| t.id).collect::<Vec<_>>(), vec![1, 3]);
    let id = m.add_task(&"d".to_string(), strings(&["t"]), day(2024, 1, 1), Priority::Low);
    assert_eq!(id, 4);
}

#[test]
fn remove_absent_id_is_noop() {
    let mut m = store(vec![task(1, "a", &["t"], day(2024, 1, 1), Priority::Low, Status::Todo)]);
    m.remove_task(9);
    assert_eq!(m.tasks.len(), 1);
}

#[test]
fn hold_twice_returns_to_todo() {
    let mut m = store(vec![task(1, "a", &["t"], day(2024, 1, 1), Priority::Low, Status::Todo)]);
    assert_eq!(m.adjust_status(1, Status::Hold), Ok(()));
    assert_eq!(m.tasks[0].status, Status::Hold);
    assert_eq!(m.adjust_status(1, Status::Hold), Ok(()));
    assert_eq!(m.tasks[0].status, Status::Todo);
}

#[test]
fn done_twice_returns_to_todo() {
    let mut m = store(vec![task(1, "a", &["t"], day(2024, 1, 1), Priority::Low, Status::Blocked)]);
    m.adjust_status(1, Status::Done).unwrap();
    assert_eq!(m.tasks[0].status, Status::Done);
    m.adjust_status(1, Status::Done).unwrap();
    assert_eq!(m.tasks[0].status, Status::Todo);
}

#[test]
fn blocked_twice_stays_blocked() {
    let mut m = store(vec![task(1, "a", &["t"], day(2024, 1, 1), Priority::Low, Status::Todo)]);
    m.adjust_status(1, Status::Blocked).unwrap();
    m.adjust_status(1, Status::Blocked).unwrap();
    assert_eq!(m.tasks[0].status, Status::Blocked);
}

#[test]
fn todo_on_todo_stays_todo() {
    let mut m = store(vec![task(1, "a", &["t"], day(2024, 1, 1), Priority::Low, Status::Todo)]);
    m.adjust_status(1, Status::Todo).unwrap();
    assert_eq!(m.tasks[0].status, Status::Todo);
}

#[test]
fn adjust_status_of_missing_id_fails() {
    let mut m = store(vec![task(1, "a", &["t"], day(2024, 1, 1), Priority::Low, Status::Todo)]);
    assert_eq!(m.adjust_status(5, Status::Done), Err(TaskError::NoSuchTask));
    assert_eq!(m.tasks[0].status, Status::Todo);
}

#[test]
fn get_task_finds_by_id() {
    let m = store(vec![
        task(3, "a", &["t"], day(2024, 1, 1), Priority::Low, Status::Todo),
        task(7, "b", &["t"], day(2024, 1, 1), Priority::Low, Status::Todo),
    ]);
    assert_eq!(m.get_task(7).unwrap().description, "b");
    assert!(m.get_task(4).is_none());
}

#[test]
fn tag_view_orders_sections_by_tag() {
    let m = store(vec![
        task(1, "B task", &["b"], day(2024, 1, 2), Priority::Low, Status::Todo),
        task(2, "A task", &["a"], day(2024, 1, 1), Priority::High, Status::Done),
    ]);
    let mut f = ViewFilters::new();
    f.view = Some("tag".to_string());
    let lines = m.list_tasks(&f, &day(2024, 1, 1));
    let expected = vec![
        String::new(),
        "# a".to_string(),
        "---------------".to_string(),
        format!("[X][2 - {}] A task (01-01)", high()),
        String::new(),
        "# b".to_string(),
        "---------------".to_string(),
        format!("[ ][1 - {}] B task (01-02)", low()),
    ];
    assert_eq!(lines, expected);
}

#[test]
fn tag_view_sorts_by_due_then_priority_within_tag() {
    let m = store(vec![
        task(1, "late", &["w"], day(2024, 3, 2), Priority::Low, Status::Todo),
        task(2, "high", &["w"], day(2024, 3, 1), Priority::High, Status::Todo),
        task(3, "low", &["w"], day(2024, 3, 1), Priority::Low, Status::Hold),
    ]);
    let mut f = ViewFilters::new();
    f.view = Some("other".to_string());
    let lines = m.list_tasks(&f, &day(2024, 1, 1));
    assert_eq!(lines.len(), 6);
    assert_eq!(lines[3], format!("[~][3 - {}] low (03-01)", low()));
    assert_eq!(lines[4], format!("[ ][2 - {}] high (03-01)", high()));
    assert_eq!(lines[5], format!("[ ][1 - {}] late (03-02)", low()));
}

#[test]
fn due_view_groups_tags_under_one_date() {
    let m = store(vec![
        task(1, "zed", &["z"], day(2024, 1, 1), Priority::Low, Status::Todo),
        task(2, "ant", &["a"], day(2024, 1, 1), Priority::Low, Status::Blocked),
    ]);
    let mut f = ViewFilters::new();
    f.view = Some("due".to_string());
    let lines = m.list_tasks(&f, &day(2024, 1, 1));
    let expected = vec![
        String::new(),
        "Due: 2024-01-01 (Monday)".to_string(),
        "--------------------------------".to_string(),
        "# a".to_string(),
        format!("[!][#2 - {}] ant", low()),
        "# z".to_string(),
        format!("[ ][#1 - {}] zed", low()),
    ];
    assert_eq!(lines, expected);
}

#[test]
fn due_view_new_header_per_date() {
    let m = store(vec![
        task(1, "later", &["a"], day(2024, 1, 3), Priority::Low, Status::Todo),
        task(2, "sooner", &["a"], day(2024, 1, 2), Priority::Low, Status::Todo),
    ]);
    let mut f = ViewFilters::new();
    f.view = Some("due".to_string());
    let lines = m.list_tasks(&f, &day(2024, 1, 1));
    assert_eq!(lines[1], "Due: 2024-01-02 (Tuesday)");
    assert_eq!(lines[3], "# a");
    assert_eq!(lines[4], format!("[ ][#2 - {}] sooner", low()));
    assert_eq!(lines[6], "Due: 2024-01-03 (Wednesday)");
    assert_eq!(lines[8], format!("[ ][#1 - {}] later", low()));
    assert_eq!(lines.len(), 9);
}

#[test]
fn unfiltered_listing_is_flat_in_store_order() {
    let m = store(vec![
        task(2, "b", &["x", "y"], day(2024, 2, 9), Priority::Low, Status::Done),
        task(1, "a", &["w"], day(2023, 12, 31), Priority::High, Status::Todo),
    ]);
    let lines = m.list_tasks(&ViewFilters::new(), &day(2024, 1, 1));
    assert_eq!(lines, vec!["2, b, Done, 2024-02-09, x, y".to_string(), "1, a, Todo, 2023-12-31, w".to_string()]);
}

#[test]
fn filter_by_tag_matches_any_listed_tag() {
    let t = task(1, "a", &["home", "work"], day(2024, 1, 1), Priority::Low, Status::Todo);
    let mut f = ViewFilters::new();
    f.tag = Some(strings(&["gym", "work"]));
    assert!(f.matches(&t, &day(2024, 1, 1)));
    f.tag = Some(strings(&["gym"]));
    assert!(!f.matches(&t, &day(2024, 1, 1)));
}

#[test]
fn filter_status_priority_description() {
    let t = task(1, "Buy milk", &["home"], day(2024, 1, 1), Priority::Medium, Status::Hold);
    let today = day(2024, 1, 1);
    let mut f = ViewFilters::new();
    f.status = Some(strings(&["Hold", "Done"]));
    assert!(f.matches(&t, &today));
    f.priority = Some(strings(&["Medium"]));
    assert!(f.matches(&t, &today));
    f.description = Some("milk".to_string());
    assert!(f.matches(&t, &today));
    f.description = Some("Milk".to_string());
    assert!(!f.matches(&t, &today));
}

#[test]
fn adding_a_criterion_only_shrinks_the_selection() {
    let today = day(2024, 1, 1);
    let tasks = vec![
        task(1, "a", &["x"], day(2024, 1, 2), Priority::Low, Status::Todo),
        task(2, "b", &["x"], day(2024, 1, 5), Priority::Low, Status::Todo),
        task(3, "c", &["y"], day(2024, 1, 2), Priority::Low, Status::Todo),
    ];
    let mut f = ViewFilters::new();
    f.tag = Some(strings(&["x"]));
    assert_eq!(f.select(&tasks, &today), vec![0, 1]);
    f.due = Some("tomorrow".to_string());
    assert_eq!(f.select(&tasks, &today), vec![0]);
}

#[test]
fn due_filter_compares_exact_date() {
    let t = task(1, "a", &["x"], day(2024, 1, 8), Priority::Low, Status::Todo);
    let mut f = ViewFilters::new();
    f.due = Some("thisweek".to_string());
    assert!(f.matches(&t, &day(2024, 1, 1)));
    assert!(!f.matches(&t, &day(2024, 1, 2)));
}

#[test]
fn resolve_tomorrow() {
    assert_eq!(resolve("tomorrow", &day(2024, 1, 1)), day(2024, 1, 2));
    assert_eq!(resolve("tomorrow", &day(2023, 12, 31)), day(2024, 1, 1));
    assert_eq!(resolve("tomorrow", &day(2024, 2, 28)), day(2024, 2, 29));
}

#[test]
fn resolve_aliases() {
    let today = day(2024, 1, 1);
    assert_eq!(resolve("today", &today), today);
    assert_eq!(resolve("thisweek", &today), day(2024, 1, 8));
    assert_eq!(resolve("sometime", &today), day(2023, 12, 31));
    assert_eq!(resolve("2025-06-30", &today), day(2025, 6, 30));
}

#[test]
fn resolve_bad_text_gives_sentinel() {
    let today = day(2024, 1, 1);
    assert_eq!(resolve("not-a-date", &today), sentinel_date());
    assert_eq!(resolve("2024-02-30", &today), sentinel_date());
    assert_eq!(resolve("", &today), sentinel_date());
}

#[test]
fn resolve_numeric_choices() {
    let today = day(2024, 1, 30);
    assert_eq!(resolve_choice("1", "", &today), today);
    assert_eq!(resolve_choice("2", "", &today), day(2024, 1, 31));
    assert_eq!(resolve_choice("3", "", &today), day(2024, 2, 6));
    assert_eq!(resolve_choice("4", "", &today), day(2023, 12, 31));
    assert_eq!(resolve_choice("", "2024-05-01", &today), day(2024, 5, 1));
    assert_eq!(resolve_choice("x", "junk", &today), sentinel_date());
    assert!(is_due_shortcut("3"));
    assert!(!is_due_shortcut("5"));
}

#[test]
fn date_fallback_and_validity() {
    assert_eq!(date_or_sentinel(Some((2024, 2, 29))), day(2024, 2, 29));
    assert_eq!(date_or_sentinel(Some((-5, 1, 1))), sentinel_date());
    assert_eq!(date_or_sentinel(None), sentinel_date());
    assert!(Date::new(2023, 2, 29).is_none());
    assert!(Date::new(2000, 2, 29).is_some());
    assert!(Date::new(1900, 2, 29).is_none());
    assert!(Date::new(2024, 13, 1).is_none());
    assert!(Date::new(10000, 1, 1).is_none());
}

#[test]
fn date_text_forms() {
    let d = day(987, 3, 4);
    assert_eq!(d.to_iso(), "0987-03-04");
    assert_eq!(d.month_day(), "03-04");
    assert_eq!(day(2024, 1, 1).weekday_name(), "Monday");
    assert_eq!(day(2023, 12, 31).weekday_name(), "Sunday");
}

#[test]
fn color_codes() {
    assert_eq!(color_string("Hi", "red"), "\x1b[31mHi\x1b[0m");
    assert_eq!(color_string("Hi", "orange"), "\x1b[38;5;208mHi\x1b[0m");
    assert_eq!(color_string("Hi", "pink"), "\x1b[0mHi\x1b[0m");
    assert_eq!(get_priority_color(&Priority::Medium), "\x1b[38;5;208mMedium\x1b[0m");
    assert_eq!(get_task_symbol(&Status::Todo), " ");
    assert_eq!(get_task_symbol(&Status::Hold), "~");
    assert_eq!(get_task_symbol(&Status::Done), "X");
    assert_eq!(get_task_symbol(&Status::Blocked), "!");
}

#[test]
fn priority_and_status_texts() {
    assert_eq!(Priority::from_choice("2"), Priority::Medium);
    assert_eq!(Priority::from_choice("3"), Priority::High);
    assert_eq!(Priority::from_choice("7"), Priority::Low);
    assert_eq!(Priority::from_text("High"), Some(Priority::High));
    assert_eq!(Priority::from_text("high"), None);
    assert_eq!(Status::from_text("Blocked"), Some(Status::Blocked));
    assert_eq!(Status::from_text("Later"), None);
    assert_eq!(Status::Hold.as_text(), "Hold");
}

#[test]
fn text_helpers() {
    assert_eq!(split_text("a,b,,c", ','), strings(&["a", "b", "", "c"]));
    assert_eq!(split_text("", ','), strings(&[""]));
    assert_eq!(join_text(&strings(&["a", "b"]), ", "), "a, b");
    assert_eq!(join_text(&Vec::new(), ", "), "");
    assert!(contains_text("hello", "ll"));
    assert!(contains_text("hello", ""));
    assert!(!contains_text("hello", "lo!"));
    assert_eq!(text_cmp("a", "b"), -1);
    assert_eq!(text_cmp("ab", "a"), 1);
    assert_eq!(text_cmp("z", "z"), 0);
    assert_eq!(u32_text_padded(7, 3), "007");
    assert_eq!(u32_text_padded(1234, 2), "1234");
}

#[test]
fn parse_decimal_ids() {
    assert_eq!(parse_u32("42"), Some(42));
    assert_eq!(parse_u32("4294967295"), Some(u32::MAX));
    assert_eq!(parse_u32("4294967296"), None);
    assert_eq!(parse_u32(""), None);
    assert_eq!(parse_u32("4a"), None);
}

#[test]
fn sort_is_stable_on_equal_keys() {
    let ts = vec![
        task(1, "a", &["t"], day(2024, 1, 1), Priority::Low, Status::Todo),
        task(2, "b", &["t"], day(2024, 1, 1), Priority::Low, Status::Todo),
        task(3, "c", &["s"], day(2024, 1, 1), Priority::Low, Status::Todo),
    ];
    assert_eq!(sort_indices(&ts, &vec![0, 1, 2], false), vec![2, 0, 1]);
    let lines = render_by_tag(&ts, &vec![2, 0, 1]);
    assert_eq!(lines.len(), 9);
    assert_eq!(lines[7], format!("[ ][1 - {}] a (01-01)", low()));
    let lines = render_by_due(&ts, &vec![2, 0, 1]);
    assert_eq!(lines[3], "# s");
}

#[test]
fn save_then_load_gives_same_tasks() {
    let m = store(vec![
        task(4, "pay, \"rent\"", &["home", "money"], day(2024, 7, 1), Priority::High, Status::Hold),
        task(2, "call", &["work"], day(2023, 12, 31), Priority::Low, Status::Blocked),
    ]);
    let records = m.to_records();
    assert_eq!(records[0], strings(&["id", "description", "status", "due", "priority", "tags"]));
    assert_eq!(records[1], strings(&["4", "pay, \"rent\"", "Hold", "2024-07-01", "High", "home;money"]));
    let back = TaskManager::from_records(&records).unwrap();
    assert_eq!(back.tasks, m.tasks);
}

#[test]
fn load_skips_empty_and_header_records() {
    let records = vec![
        strings(&["id", "description", "status", "due", "priority", "tags"]),
        Vec::new(),
        strings(&["9", "x", "Done", "2024-01-05", "Medium", "a"]),
    ];
    let m = TaskManager::from_records(&records).unwrap();
    assert_eq!(m.tasks.len(), 1);
    assert_eq!(m.tasks[0].id, 9);
    assert_eq!(m.tasks[0].due, day(2024, 1, 5));
    assert_eq!(m.tasks[0].status, Status::Done);
}

#[test]
fn load_reports_bad_record() {
    let records = vec![
        strings(&["1", "x", "Done", "2024-01-05", "Medium", "a"]),
        strings(&["2", "y", "Someday", "2024-01-05", "Medium", "a"]),
    ];
    assert_eq!(TaskManager::from_records(&records).err(), Some(1));
    let bad_date = vec![strings(&["1", "x", "Done", "2024-13-05", "Medium", "a"])];
    assert_eq!(TaskManager::from_records(&bad_date).err(), Some(0));
}

use task_tracker::calendar::Date;
use task_tracker::db::{Database, StoreError};
use task_tracker::deadline::Deadline;
use task_tracker::error::ValidationError;
use task_tracker::task::{Difficulty, Task, TaskUpdate};

fn today() -> Date {
    Date::new(2026, 1, 5).unwrap()
}

/// A store and a clock that moves on by a second with every task made.
struct Fixture {
    db: Database,
    now: i64,
}

/// What follows the flag `flag` among the arguments.
fn option(args: &[&str], flag: &str) -> Option<String> {
    args.iter().position(|a| *a == flag).map(|i| args[i + 1].to_string())
}

fn tags_of(args: &[&str]) -> Option<Vec<String>> {
    option(args, "--tags").map(|t| t.split(',').map(|s| s.to_string()).collect())
}

impl Fixture {
    fn new() -> Fixture {
        Fixture { db: Database::new(), now: 1767571200 }
    }

    /// Makes a task from a title and flags as the command line gives them.
    fn make(&mut self, args: &[&str]) -> Result<Task, ValidationError> {
        self.now += 1;
        Task::new(
            args[0].to_string(),
            option(args, "--desc"),
            option(args, "--diff").map(|d| d.parse().unwrap()),
            option(args, "--deadline"),
            tags_of(args),
            option(args, "--pid"),
            today(),
            self.now,
        )
    }

    /// Adds a task and returns the short form of its identifier.
    fn add_task(&mut self, args: &[&str]) -> String {
        let task = self.make(args).unwrap();
        self.db.add(task).unwrap()
    }

    fn update(&mut self, id: &str, args: &[&str]) -> Result<String, StoreError> {
        let updates = TaskUpdate {
            title: option(args, "--task"),
            desc: option(args, "--desc"),
            difficulty: option(args, "--diff").map(|d| Difficulty::new(d.parse().unwrap()).unwrap()),
            deadline: option(args, "--deadline").map(|d| Deadline::parse(&d, today()).unwrap()),
            tags: tags_of(args),
            pid: option(args, "--pid"),
        };
        self.db.update(id.to_string(), updates)
    }

    /// The titles of a listing, in its order.
    fn list(&self, tags: Option<&str>, pid: Option<&str>, all: bool, completed: bool) -> Vec<String> {
        let tags = tags.map(|t| t.split(',').map(|s| s.to_string()).collect());
        self.db
            .get_tasks(tags, pid.map(|p| p.to_string()), all, completed)
            .into_iter()
            .map(|t| t.title)
            .collect()
    }

    fn titles(&self) -> Vec<String> {
        self.list(None, None, false, false)
    }
}

fn names(list: &[&str]) -> Vec<String> {
    list.iter().map(|s| s.to_string()).collect()
}

// ---------------------------------------------------------------- add

#[test]
fn test_add_simple_task() {
    let mut f = Fixture::new();
    let id = f.add_task(&["Simple task"]);
    assert_eq!(id.len(), 7);
    assert_eq!(f.db.len(), 1);
}

#[test]
fn test_add_task_with_all_options() {
    let mut f = Fixture::new();
    let id = f.add_task(&[
        "Complex task",
        "--desc",
        "A detailed description",
        "--diff",
        "7",
        "--deadline",
        "tomorrow",
        "--tags",
        "work,urgent",
    ]);
    let task = f.db.get_task(id).unwrap();
    assert_eq!(task.title, "Complex task");
    assert_eq!(task.desc.as_deref(), Some("A detailed description"));
    assert_eq!(task.difficulty.unwrap().value(), 7);
    assert_eq!(task.deadline.unwrap().date(), Date::new(2026, 1, 6).unwrap());
    assert_eq!(task.tags, Some(names(&["urgent", "work"])));
}

#[test]
fn test_add_task_with_parent() {
    let mut f = Fixture::new();
    let parent_id = f.add_task(&["Parent task"]);
    let child = f.add_task(&["Subtask", "--pid", &parent_id]);
    let parent = f.db.get_task(parent_id).unwrap();
    assert_eq!(f.db.get_task(child).unwrap().pid, Some(parent.id));
}

#[test]
fn test_add_task_invalid_difficulty() {
    let mut f = Fixture::new();
    assert!(matches!(
        f.make(&["Task", "--diff", "15"]),
        Err(ValidationError::DifficultyOutOfRange)
    ));
    assert_eq!(f.db.len(), 0);
}

#[test]
fn test_add_task_with_deadline_formats() {
    let mut f = Fixture::new();
    for deadline in &["today", "tomorrow", "friday", "+5d", "2026-12-31", "eom"] {
        f.add_task(&["Task", "--deadline", deadline]);
    }
    assert_eq!(f.db.len(), 6);
}

#[test]
fn test_add_task_invalid_deadline() {
    let mut f = Fixture::new();
    let e = f.make(&["Task", "--deadline", "invalid-date"]).unwrap_err();
    assert!(e.message().contains("Invalid deadline"));
    assert!(e.message().contains("invalid-date"));
}

#[test]
fn add_without_the_parent_changes_nothing() {
    let mut f = Fixture::new();
    f.add_task(&["Only", "--tags", "a"]);
    let orphan = f.make(&["Orphan", "--pid", "zzzzzzz", "--tags", "b"]).unwrap();
    assert!(matches!(f.db.add(orphan), Err(StoreError::ParentNotFound)));
    assert_eq!(f.list(None, None, true, false), names(&["Only"]));
    assert_eq!(f.db.tags(), names(&["a"]));
}

#[test]
fn add_refuses_an_identifier_twice() {
    let mut f = Fixture::new();
    let task = f.make(&["Twin"]).unwrap();
    let twin = task.duplicate();
    f.db.add(task).unwrap();
    assert!(matches!(f.db.add(twin), Err(StoreError::DuplicateId)));
    assert_eq!(f.db.len(), 1);
}

#[test]
fn add_keeps_tags_in_order_and_once() {
    let mut f = Fixture::new();
    let id = f.add_task(&["Task", "--tags", "work,urgent,work,Work,alpha"]);
    assert_eq!(
        f.db.get_task(id).unwrap().tags,
        Some(names(&["Work", "alpha", "urgent", "work"]))
    );
    assert_eq!(f.db.tags(), names(&["Work", "alpha", "urgent", "work"]));
}

#[test]
fn add_returns_the_first_seven_characters() {
    let mut db = Database::new();
    let mut task = Task::new("t".to_string(), None, None, None, None, None, today(), 1).unwrap();
    let full = task.id.clone();
    assert_eq!(db.add(task.duplicate()).unwrap(), &full[..7]);
    task.id = "abc".to_string();
    assert_eq!(db.add(task.duplicate()).unwrap(), "abc");
    task.id = "héllo wörld".to_string();
    assert_eq!(db.add(task).unwrap(), "héllo w");
}

// ---------------------------------------------------------------- list

#[test]
fn test_list_empty_database() {
    let f = Fixture::new();
    assert!(f.titles().is_empty());
}

#[test]
fn test_list_shows_added_tasks() {
    let mut f = Fixture::new();
    f.add_task(&["First task"]);
    f.add_task(&["Second task"]);
    let listed = f.titles();
    assert!(listed.contains(&"First task".to_string()));
    assert!(listed.contains(&"Second task".to_string()));
}

#[test]
fn test_list_filter_by_tags() {
    let mut f = Fixture::new();
    f.add_task(&["Work task", "--tags", "work"]);
    f.add_task(&["Personal task", "--tags", "personal"]);
    let listed = f.list(Some("work"), None, false, false);
    assert!(listed.contains(&"Work task".to_string()));
    assert!(!listed.contains(&"Personal task".to_string()));
}

#[test]
fn test_list_filter_by_parent() {
    let mut f = Fixture::new();
    let parent_id = f.add_task(&["Parent"]);
    f.add_task(&["Child", "--pid", &parent_id]);
    f.add_task(&["Unrelated"]);
    let listed = f.list(None, Some(&parent_id), false, false);
    assert!(listed.contains(&"Child".to_string()));
    assert!(!listed.contains(&"Unrelated".to_string()));
}

#[test]
fn test_list_all() {
    let mut f = Fixture::new();
    let id = f.add_task(&["Task"]);
    f.db.completed(id).unwrap();
    assert!(!f.titles().contains(&"Task".to_string()));
    assert!(f.list(None, None, true, false).contains(&"Task".to_string()));
}

#[test]
fn test_list_only_completed() {
    let mut f = Fixture::new();
    f.add_task(&["Incomplete"]);
    let id = f.add_task(&["Complete"]);
    f.db.completed(id).unwrap();
    let listed = f.list(None, None, false, true);
    assert!(listed.contains(&"Complete".to_string()));
    assert!(!listed.contains(&"Incomplete".to_string()));
}

#[test]
fn a_task_with_two_of_the_tags_is_listed_once() {
    let mut f = Fixture::new();
    f.add_task(&["Both", "--tags", "work,urgent"]);
    f.add_task(&["One", "--tags", "work"]);
    f.add_task(&["Neither", "--tags", "home"]);
    f.add_task(&["Untagged"]);
    assert_eq!(f.list(Some("work"), None, false, false), names(&["Both", "One"]));
    assert_eq!(f.list(Some("work,urgent"), None, false, false), names(&["Both", "One"]));
    assert_eq!(f.list(Some("urgent,home"), None, false, false), names(&["Both", "Neither"]));
    assert!(f.db.get_tasks(Some(vec![]), None, false, false).is_empty());
    assert!(f.list(Some("Work"), None, false, false).is_empty());
}

#[test]
fn the_deadline_decides_before_the_difficulty() {
    let mut f = Fixture::new();
    f.add_task(&["none", "--diff", "1"]);
    f.add_task(&["tomorrow", "--diff", "9", "--deadline", "tomorrow"]);
    f.add_task(&["today", "--diff", "5", "--deadline", "today"]);
    assert_eq!(f.titles(), names(&["today", "tomorrow", "none"]));
}

#[test]
fn the_difficulty_decides_between_equal_deadlines() {
    let mut f = Fixture::new();
    f.add_task(&["easy", "--diff", "2", "--deadline", "today"]);
    f.add_task(&["unrated", "--deadline", "today"]);
    f.add_task(&["hard", "--diff", "9", "--deadline", "today"]);
    f.add_task(&["zero", "--diff", "0", "--deadline", "today"]);
    f.add_task(&["free hard", "--diff", "10"]);
    f.add_task(&["free", ""]);
    f.add_task(&["free easy", "--diff", "0"]);
    assert_eq!(
        f.titles(),
        names(&["hard", "easy", "zero", "unrated", "free hard", "free easy", "free"])
    );
}

#[test]
fn tasks_of_equal_rank_stay_in_the_order_of_their_adding() {
    let mut f = Fixture::new();
    for title in ["c", "a", "b"] {
        f.add_task(&[title, "--diff", "3", "--deadline", "friday"]);
    }
    assert_eq!(f.titles(), names(&["c", "a", "b"]));
}

#[test]
fn the_filters_work_together() {
    let mut f = Fixture::new();
    let parent = f.add_task(&["Parent", "--tags", "x"]);
    let a = f.add_task(&["A", "--pid", &parent, "--tags", "x"]);
    f.add_task(&["B", "--pid", &parent, "--tags", "y"]);
    f.add_task(&["C", "--tags", "x"]);
    f.db.completed(a).unwrap();
    assert_eq!(f.list(Some("x"), Some(&parent), true, false), names(&["A"]));
    assert!(f.list(Some("x"), Some(&parent), false, false).is_empty());
    assert_eq!(f.list(None, Some(&parent), false, false), names(&["B"]));
    assert_eq!(f.list(None, Some(&parent), true, true), names(&["A"]));
    assert_eq!(f.list(None, Some(""), true, false), names(&["A", "B"]));
}

// ---------------------------------------------------------------- show

#[test]
fn test_show_task() {
    let mut f = Fixture::new();
    let id = f.add_task(&["Test task", "--desc", "Description", "--diff", "5", "--tags", "work"]);
    let task = f.db.get_task(id).unwrap();
    assert_eq!(task.title, "Test task");
    assert_eq!(task.desc.as_deref(), Some("Description"));
    assert_eq!(task.difficulty.unwrap().value(), 5);
    assert_eq!(task.tags, Some(names(&["work"])));
}

#[test]
fn test_show_nonexistent_task() {
    let f = Fixture::new();
    assert!(matches!(f.db.get_task("nonexistent".to_string()), Err(StoreError::NotFound)));
}

#[test]
fn test_show_partial_id() {
    let mut f = Fixture::new();
    let id = f.add_task(&["Task"]);
    let partial_id = &id[..3];
    assert_eq!(f.db.get_task(partial_id.to_string()).unwrap().title, "Task");
}

#[test]
fn test_partial_id_ambiguity() {
    let mut f = Fixture::new();
    let id1 = f.add_task(&["Task 1"]);
    let _id2 = f.add_task(&["Task 2"]);
    assert_eq!(f.db.get_task(id1).unwrap().title, "Task 1");
}

fn with_id(id: &str, title: &str) -> Task {
    let mut task =
        Task::new(title.to_string(), None, None, None, None, None, today(), 0).unwrap();
    task.id = id.to_string();
    task
}

#[test]
fn a_prefix_of_several_identifiers_is_ambiguous() {
    let mut db = Database::new();
    for (id, title) in [("abc123", "one"), ("abd456", "two"), ("abc789", "three"), ("abc", "four")] {
        db.add(with_id(id, title)).unwrap();
    }
    match db.resolve("ab") {
        Err(StoreError::Ambiguous(c)) => assert_eq!(c, names(&["abc123", "abd456", "abc789", "abc"])),
        other => panic!("{:?}", other),
    }
    match db.get_task("abc1".to_string()) {
        Ok(t) => assert_eq!(t.title, "one"),
        other => panic!("{:?}", other),
    }
    assert_eq!(db.resolve("abc").unwrap(), "abc");
    assert_eq!(db.get_task("abc".to_string()).unwrap().title, "four");
    assert_eq!(db.resolve("abd").unwrap(), "abd456");
    assert!(matches!(db.resolve("x"), Err(StoreError::NotFound)));
    assert!(matches!(db.resolve("abc1234"), Err(StoreError::NotFound)));
    match db.resolve("") {
        Err(StoreError::Ambiguous(c)) => assert_eq!(c.len(), 4),
        other => panic!("{:?}", other),
    }
}

// ------------------------------------------------------------ complete

#[test]
fn test_complete_task() {
    let mut f = Fixture::new();
    let id = f.add_task(&["Task"]);
    let full = f.db.completed(id.clone()).unwrap();
    assert!(full.starts_with(&id));
    assert!(f.db.get_task(id).unwrap().completed);
}

#[test]
fn test_complete_nonexistent_task() {
    let mut f = Fixture::new();
    assert!(matches!(f.db.completed("nonexistent".to_string()), Err(StoreError::NotFound)));
}

#[test]
fn test_complete_partial_id() {
    let mut f = Fixture::new();
    let id = f.add_task(&["Task"]);
    let partial_id = &id[..3];
    assert!(f.db.completed(partial_id.to_string()).is_ok());
}

#[test]
fn completing_twice_is_no_error() {
    let mut f = Fixture::new();
    let id = f.add_task(&["Task"]);
    assert!(f.db.completed(id.clone()).is_ok());
    assert!(f.db.completed(id.clone()).is_ok());
    assert!(f.db.get_task(id).unwrap().completed);
}

#[test]
fn completing_takes_the_first_match() {
    let mut db = Database::new();
    db.add(with_id("abc123", "one")).unwrap();
    db.add(with_id("abc456", "two")).unwrap();
    assert_eq!(db.completed("abc".to_string()).unwrap(), "abc123");
    assert!(db.get_task("abc123".to_string()).unwrap().completed);
    assert!(!db.get_task("abc456".to_string()).unwrap().completed);
}

// -------------------------------------------------------------- update

#[test]
fn test_update_task_title() {
    let mut f = Fixture::new();
    let id = f.add_task(&["Old title"]);
    f.update(&id, &["--task", "New title"]).unwrap();
    assert_eq!(f.db.get_task(id).unwrap().title, "New title");
}

#[test]
fn test_update_task_difficulty() {
    let mut f = Fixture::new();
    let id = f.add_task(&["Task", "--diff", "3"]);
    f.update(&id, &["--diff", "8"]).unwrap();
    assert_eq!(f.db.get_task(id).unwrap().difficulty.unwrap().value(), 8);
}

#[test]
fn test_update_task_deadline() {
    let mut f = Fixture::new();
    let id = f.add_task(&["Task"]);
    f.update(&id, &["--deadline", "tomorrow"]).unwrap();
    assert_eq!(
        f.db.get_task(id).unwrap().deadline.unwrap().date(),
        Date::new(2026, 1, 6).unwrap()
    );
}

#[test]
fn test_update_task_tags() {
    let mut f = Fixture::new();
    let id = f.add_task(&["Task", "--tags", "old"]);
    f.update(&id, &["--tags", "new,updated"]).unwrap();
    assert_eq!(f.db.get_task(id).unwrap().tags, Some(names(&["new", "updated"])));
}

#[test]
fn test_update_multiple_fields() {
    let mut f = Fixture::new();
    let id = f.add_task(&["Task"]);
    f.update(
        &id,
        &["--task", "Updated", "--diff", "9", "--deadline", "friday", "--tags", "urgent"],
    )
    .unwrap();
    let task = f.db.get_task(id).unwrap();
    assert_eq!(task.title, "Updated");
    assert_eq!(task.difficulty.unwrap().value(), 9);
    assert_eq!(task.deadline.unwrap().date(), Date::new(2026, 1, 9).unwrap());
    assert_eq!(task.tags, Some(names(&["urgent"])));
}

#[test]
fn test_update_nonexistent_task() {
    let mut f = Fixture::new();
    assert!(matches!(f.update("nonexistent", &["--task", "New"]), Err(StoreError::NotFound)));
}

#[test]
fn an_update_of_one_field_leaves_the_others() {
    let mut f = Fixture::new();
    let parent = f.add_task(&["Parent"]);
    let id = f.add_task(&[
        "Task",
        "--desc",
        "text",
        "--diff",
        "3",
        "--deadline",
        "friday",
        "--tags",
        "b,a",
        "--pid",
        &parent,
    ]);
    f.db.completed(id.clone()).unwrap();
    let before = f.db.get_task(id.clone()).unwrap();
    let full = f.update(&id, &["--diff", "8"]).unwrap();
    let after = f.db.get_task(id.clone()).unwrap();
    assert_eq!(full, before.id);
    assert_eq!(after.id, before.id);
    assert_eq!(after.title, before.title);
    assert_eq!(after.desc, before.desc);
    assert_eq!(after.difficulty.unwrap().value(), 8);
    assert_eq!(after.deadline.unwrap().date(), before.deadline.unwrap().date());
    assert_eq!(after.tags, before.tags);
    assert_eq!(after.pid, before.pid);
    assert_eq!(after.created, before.created);
    assert_eq!(after.completed, before.completed);
    assert!(after.completed);
    f.update(&id, &[]).unwrap();
    let same = f.db.get_task(id).unwrap();
    assert_eq!(same.title, after.title);
    assert_eq!(same.difficulty.unwrap().value(), 8);
    assert_eq!(same.tags, after.tags);
}

#[test]
fn an_empty_title_is_supplied_and_refused() {
    let mut f = Fixture::new();
    let id = f.add_task(&["Task", "--diff", "3"]);
    assert!(matches!(
        f.update(&id, &["--task", "", "--diff", "4"]),
        Err(StoreError::EmptyTitle)
    ));
    assert!(matches!(f.update("nonexistent", &["--task", ""]), Err(StoreError::EmptyTitle)));
    let task = f.db.get_task(id).unwrap();
    assert_eq!(task.title, "Task");
    assert_eq!(task.difficulty.unwrap().value(), 3);
}

#[test]
fn an_update_resolves_the_parent() {
    let mut f = Fixture::new();
    let parent = f.add_task(&["Parent"]);
    let id = f.add_task(&["Task", "--tags", "t"]);
    assert!(matches!(
        f.update(&id, &["--pid", "zzzzzzz", "--task", "changed", "--tags", "u"]),
        Err(StoreError::ParentNotFound)
    ));
    let task = f.db.get_task(id.clone()).unwrap();
    assert_eq!(task.title, "Task");
    assert_eq!(task.tags, Some(names(&["t"])));
    assert_eq!(f.db.tags(), names(&["t"]));
    f.update(&id, &["--pid", &parent[..4]]).unwrap();
    let full_parent = f.db.get_task(parent).unwrap().id;
    assert_eq!(f.db.get_task(id).unwrap().pid, Some(full_parent));
}

#[test]
fn new_tags_replace_the_old_and_stay_known() {
    let mut f = Fixture::new();
    let id = f.add_task(&["Task", "--tags", "old,kept"]);
    f.update(&id, &["--tags", "new,kept"]).unwrap();
    assert_eq!(f.db.get_task(id.clone()).unwrap().tags, Some(names(&["kept", "new"])));
    assert_eq!(f.db.tags(), names(&["kept", "new", "old"]));
    assert!(f.list(Some("old"), None, true, false).is_empty());
    let none = TaskUpdate {
        title: None,
        desc: None,
        difficulty: None,
        deadline: None,
        tags: Some(vec![]),
        pid: None,
    };
    f.db.update(id.clone(), none).unwrap();
    assert_eq!(f.db.get_task(id).unwrap().tags, None);
}

// ---------------------------------------------------------------- next

#[test]
fn test_next_with_no_tasks() {
    let f = Fixture::new();
    assert!(matches!(f.db.next(), Err(StoreError::NoneAvailable)));
}

#[test]
fn test_next_shows_highest_priority() {
    let mut f = Fixture::new();
    f.add_task(&["Low priority", "--diff", "1", "--deadline", "+7d"]);
    f.add_task(&["High priority", "--diff", "10", "--deadline", "tomorrow"]);
    assert_eq!(f.db.next().unwrap().title, "High priority");
}

#[test]
fn test_next_ignores_completed() {
    let mut f = Fixture::new();
    let id1 = f.add_task(&["Urgent", "--diff", "10", "--deadline", "today"]);
    f.add_task(&["Less urgent", "--diff", "5", "--deadline", "+7d"]);
    f.db.completed(id1).unwrap();
    assert_eq!(f.db.next().unwrap().title, "Less urgent");
}

#[test]
fn test_priority_ordering() {
    let mut f = Fixture::new();
    f.add_task(&["Low", "--diff", "2", "--deadline", "+30d"]);
    f.add_task(&["Medium", "--diff", "5", "--deadline", "+7d"]);
    f.add_task(&["High", "--diff", "9", "--deadline", "tomorrow"]);
    assert_eq!(f.db.next().unwrap().title, "High");
}

#[test]
fn next_is_the_first_of_the_default_listing() {
    let mut f = Fixture::new();
    f.add_task(&["a", "--diff", "3"]);
    f.add_task(&["b", "--deadline", "2w", "--tags", "x"]);
    f.add_task(&["c", "--diff", "7", "--deadline", "2w"]);
    let done = f.add_task(&["d", "--deadline", "today"]);
    f.db.completed(done).unwrap();
    let next = f.db.next().unwrap();
    assert_eq!(next.title, f.titles()[0]);
    assert_eq!(next.title, "c");
}

#[test]
fn after_the_last_task_none_is_next() {
    let mut f = Fixture::new();
    let done = f.add_task(&["done"]);
    f.db.completed(done).unwrap();
    assert!(matches!(f.db.next(), Err(StoreError::NoneAvailable)));
    let sole = f.add_task(&["sole"]);
    assert_eq!(f.db.next().unwrap().title, "sole");
    f.db.completed(sole).unwrap();
    assert!(matches!(f.db.next(), Err(StoreError::NoneAvailable)));
}

// -------------------------------------------------------------- remove

#[test]
fn test_remove_single_task() {
    let mut f = Fixture::new();
    let id = f.add_task(&["Task"]);
    assert_eq!(f.db.remove_ids(vec![id]).count, 1);
}

#[test]
fn test_remove_multiple_tasks() {
    let mut f = Fixture::new();
    let id1 = f.add_task(&["Task 1"]);
    let id2 = f.add_task(&["Task 2"]);
    assert_eq!(f.db.remove_ids(vec![id1, id2]).count, 2);
}

#[test]
fn test_remove_by_tags() {
    let mut f = Fixture::new();
    f.add_task(&["Task 1", "--tags", "remove"]);
    f.add_task(&["Task 2", "--tags", "remove"]);
    f.add_task(&["Task 3", "--tags", "keep"]);
    assert_eq!(f.db.remove_tags(names(&["remove"])), 2);
    assert!(f.titles().contains(&"Task 3".to_string()));
}

#[test]
fn test_remove_nonexistent_task() {
    let mut f = Fixture::new();
    let removal = f.db.remove_ids(names(&["nonexistent"]));
    assert_eq!(removal.count, 0);
    assert_eq!(removal.missing, names(&["nonexistent"]));
}

#[test]
fn test_remove_partial_id() {
    let mut f = Fixture::new();
    let id = f.add_task(&["Task"]);
    let partial_id = &id[..3];
    assert_eq!(f.db.remove_ids(vec![partial_id.to_string()]).count, 1);
    assert_eq!(f.db.len(), 0);
}

#[test]
fn of_a_known_and_an_unknown_identifier_one_is_removed() {
    let mut f = Fixture::new();
    let id1 = f.add_task(&["Task 1"]);
    f.add_task(&["Task 2"]);
    let removal = f.db.remove_ids(vec![id1, "nonexistent".to_string()]);
    assert_eq!(removal.count, 1);
    assert_eq!(removal.missing, names(&["nonexistent"]));
    assert_eq!(f.titles(), names(&["Task 2"]));
}

#[test]
fn removing_a_parent_removes_its_descendants() {
    let mut f = Fixture::new();
    let root = f.add_task(&["root"]);
    let child = f.add_task(&["child", "--pid", &root]);
    f.add_task(&["grandchild", "--pid", &child]);
    f.add_task(&["sibling", "--pid", &root]);
    f.add_task(&["other"]);
    let removal = f.db.remove_ids(vec![child.clone()]);
    assert_eq!(removal.count, 1);
    assert_eq!(f.list(None, None, true, false), names(&["root", "sibling", "other"]));
    let removal = f.db.remove_ids(vec![root]);
    assert_eq!(removal.count, 1);
    assert_eq!(f.list(None, None, true, false), names(&["other"]));
}

#[test]
fn an_identifier_given_twice_removes_once() {
    let mut f = Fixture::new();
    let root = f.add_task(&["root"]);
    let child = f.add_task(&["child", "--pid", &root]);
    let removal = f.db.remove_ids(vec![root.clone(), child, root]);
    assert_eq!(removal.count, 1);
    assert!(removal.missing.is_empty());
    assert_eq!(f.db.len(), 0);
}

#[test]
fn removing_takes_the_first_match() {
    let mut db = Database::new();
    db.add(with_id("abc123", "one")).unwrap();
    db.add(with_id("abc456", "two")).unwrap();
    assert_eq!(db.remove_ids(names(&["abc"])).count, 1);
    assert!(db.get_task("abc123".to_string()).is_err());
    assert!(db.get_task("abc456".to_string()).is_ok());
}

#[test]
fn a_circle_of_parents_is_removed_whole() {
    let mut f = Fixture::new();
    let a = f.add_task(&["a"]);
    let b = f.add_task(&["b", "--pid", &a]);
    f.add_task(&["c"]);
    f.update(&a, &["--pid", &b]).unwrap();
    assert_eq!(f.db.remove_ids(vec![b]).count, 1);
    assert_eq!(f.list(None, None, true, false), names(&["c"]));
}

#[test]
fn removing_by_tags_counts_those_removed_by_name() {
    let mut f = Fixture::new();
    let root = f.add_task(&["root", "--tags", "x"]);
    f.add_task(&["child", "--pid", &root, "--tags", "x"]);
    f.add_task(&["stranger", "--pid", &root]);
    f.add_task(&["y one", "--tags", "y"]);
    f.add_task(&["kept", "--tags", "z"]);
    assert_eq!(f.db.remove_tags(names(&["x", "y", "nothing"])), 2);
    assert_eq!(f.list(None, None, true, false), names(&["kept"]));
    assert_eq!(f.db.tags(), names(&["x", "y", "z"]));
}

// --------------------------------------------------------------- clear

#[test]
fn test_clear_with_force() {
    let mut f = Fixture::new();
    f.add_task(&["Task 1"]);
    f.add_task(&["Task 2"]);
    f.db.clear();
    let listed = f.titles();
    assert!(!listed.contains(&"Task 1".to_string()));
    assert!(!listed.contains(&"Task 2".to_string()));
}

#[test]
fn clear_forgets_tasks_and_tags() {
    let mut f = Fixture::new();
    f.add_task(&["Task 1", "--tags", "a,b"]);
    let id = f.add_task(&["Task 2", "--tags", "c"]);
    f.db.completed(id).unwrap();
    f.db.clear();
    assert!(f.db.get_tasks(None, None, true, false).is_empty());
    assert!(f.db.tags().is_empty());
    assert_eq!(f.db.len(), 0);
    assert!(matches!(f.db.next(), Err(StoreError::NoneAvailable)));
}

// ------------------------------------------------------------ lifecycle

#[test]
fn test_full_task_lifecycle() {
    let mut f = Fixture::new();
    let id = f.add_task(&[
        "Complete project",
        "--desc",
        "Finish the todo app",
        "--diff",
        "8",
        "--deadline",
        "friday",
        "--tags",
        "work,coding",
    ]);
    assert!(f.titles().contains(&"Complete project".to_string()));
    f.update(&id, &["--diff", "6"]).unwrap();
    assert_eq!(f.db.get_task(id.clone()).unwrap().difficulty.unwrap().value(), 6);
    f.db.completed(id).unwrap();
    assert!(!f.titles().contains(&"Complete project".to_string()));
    assert!(f.list(None, None, false, true).contains(&"Complete project".to_string()));
}

#[test]
fn test_hierarchical_tasks() {
    let mut f = Fixture::new();
    let parent_id = f.add_task(&["Main project"]);
    let subtask1_id = f.add_task(&["Subtask 1", "--pid", &parent_id]);
    let subtask2_id = f.add_task(&["Subtask 2", "--pid", &parent_id]);
    let listed = f.list(None, Some(&parent_id), false, false);
    assert!(listed.contains(&"Subtask 1".to_string()));
    assert!(listed.contains(&"Subtask 2".to_string()));
    assert!(f.db.completed(subtask1_id).is_ok());
    assert!(f.db.completed(subtask2_id).is_ok());
    assert!(f.db.completed(parent_id).is_ok());
}

#[test]
fn test_tag_filtering() {
    let mut f = Fixture::new();
    f.add_task(&["Work task 1", "--tags", "work"]);
    f.add_task(&["Work task 2", "--tags", "work,urgent"]);
    f.add_task(&["Personal task", "--tags", "personal"]);
    f.add_task(&["Urgent personal", "--tags", "personal,urgent"]);
    let listed = f.list(Some("work"), None, false, false);
    assert!(listed.iter().any(|t| t.contains("Work task")));
    let listed = f.list(Some("urgent"), None, false, false);
    assert!(listed.contains(&"Work task 2".to_string()));
    assert!(listed.contains(&"Urgent personal".to_string()));
}

#[test]
fn test_deadline_sorting() {
    let mut f = Fixture::new();
    f.add_task(&["Due later", "--deadline", "+14d"]);
    f.add_task(&["Due soon", "--deadline", "tomorrow"]);
    f.add_task(&["Due today", "--deadline", "today"]);
    let listed = f.titles();
    let today_pos = listed.iter().position(|t| t == "Due today");
    let soon_pos = listed.iter().position(|t| t == "Due soon");
    let later_pos = listed.iter().position(|t| t == "Due later");
    assert!(today_pos.is_some());
    assert!(soon_pos.is_some());
    assert!(later_pos.is_some());
    assert!(today_pos < soon_pos);
    assert!(soon_pos < later_pos);
}

// ------------------------------------------------------------- storing

#[test]
fn what_is_stored_is_read_again() {
    let mut f = Fixture::new();
    let id = f.add_task(&["Task", "--diff", "0", "--deadline", "2024-02-29", "--tags", "a,b"]);
    let task = f.db.get_task(id).unwrap();
    assert_eq!(task.difficulty.unwrap().value(), 0);
    assert_eq!(task.deadline.unwrap().date(), Date::new(2024, 2, 29).unwrap());
    assert_eq!(task.tags, Some(names(&["a", "b"])));
    assert_eq!(task.created, 1767571201);
}

#[test]
fn a_store_is_restored_from_its_tasks() {
    let mut f = Fixture::new();
    let root = f.add_task(&["root", "--tags", "x"]);
    f.add_task(&["child", "--pid", &root, "--tags", "z,y"]);
    f.update(&root, &["--tags", "w"]).unwrap();
    let tasks = f.db.snapshot();
    assert_eq!(tasks.len(), 2);
    let copy = Database::restore(tasks, f.db.tags()).unwrap();
    assert_eq!(copy.tags(), names(&["w", "x", "y", "z"]));
    let again = copy.snapshot();
    assert_eq!(again[0].title, "root");
    assert_eq!(again[1].title, "child");
    assert_eq!(again[1].tags, Some(names(&["y", "z"])));
    assert_eq!(again[1].pid, Some(again[0].id.clone()));
    let twice = vec![again[0].duplicate(), again[0].duplicate()];
    assert!(matches!(Database::restore(twice, vec![]), Err(StoreError::DuplicateId)));
}

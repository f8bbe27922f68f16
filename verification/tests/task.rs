use task_tracker::calendar::Date;
use task_tracker::deadline::Deadline;
use task_tracker::error::ValidationError;
use task_tracker::paint::{Style, Tint};
use task_tracker::task::{generate_content_hash, Difficulty, Task};

fn today() -> Date {
    Date::new(2026, 1, 5).unwrap()
}

#[test]
fn test_difficulty() {
    assert_eq!(Difficulty::new(5).unwrap().value(), 5);
    assert!(Difficulty::new(11).is_err())
}

#[test]
fn a_task_with_a_wrong_field_is_refused() {
    assert!(Task::new(
        "test".to_string(),
        Some("test".to_string()),
        Some(4),
        Some("01-23-2026".to_string()),
        None,
        None,
        today(),
        1767571200,
    )
    .is_ok());
    assert!(Task::new(
        "test".to_string(),
        Some("test".to_string()),
        Some(11),
        Some("01-23-2026".to_string()),
        Some(vec!["Work".to_string()]),
        None,
        today(),
        1767571200,
    )
    .is_err());
    assert!(Task::new(
        "test".to_string(),
        Some("test".to_string()),
        Some(11),
        Some("incorrect".to_string()),
        None,
        None,
        today(),
        1767571200,
    )
    .is_err());
    assert!(Task::new(
        "test".to_string(),
        Some("test".to_string()),
        Some(4),
        Some("23-01-2026".to_string()),
        None,
        None,
        today(),
        1767571200,
    )
    .is_err());
}

#[test]
fn every_difficulty_from_0_to_10_is_accepted_and_no_other() {
    for d in 0..=255u8 {
        match Difficulty::new(d) {
            Ok(v) => {
                assert!(d <= 10);
                assert_eq!(v.value(), d);
            }
            Err(ValidationError::DifficultyOutOfRange) => assert!(d > 10),
            Err(other) => panic!("{:?}", other),
        }
    }
}

#[test]
fn a_task_is_made_with_the_difficulties_0_to_10_alone() {
    for d in 0..=20u8 {
        let made = Task::new("t".to_string(), None, Some(d), None, None, None, today(), 7);
        assert_eq!(made.is_ok(), d <= 10);
    }
}

#[test]
fn a_task_needs_a_title() {
    let made = Task::new(
        "".to_string(),
        None,
        Some(11),
        Some("incorrect".to_string()),
        None,
        None,
        today(),
        0,
    );
    match made {
        Err(e @ ValidationError::EmptyTitle) => assert_eq!(e.message(), "A task needs a title."),
        other => panic!("{:?}", other),
    }
    assert!(Task::new(" ".to_string(), None, None, None, None, None, today(), 0).is_ok());
}

#[test]
fn the_message_for_a_wrong_difficulty() {
    let e = Difficulty::new(11).unwrap_err();
    assert_eq!(
        e.message(),
        "Difficulty value out of range. The value should be between 0 and 10."
    );
}

#[test]
fn a_new_task_holds_the_fields_given() {
    let task = Task::new(
        "Complex task".to_string(),
        Some("A detailed description".to_string()),
        Some(7),
        Some("tomorrow".to_string()),
        Some(vec!["work".to_string(), "urgent".to_string()]),
        Some("abc1234".to_string()),
        today(),
        1767571200,
    )
    .unwrap();
    assert_eq!(task.title, "Complex task");
    assert_eq!(task.desc.as_deref(), Some("A detailed description"));
    assert_eq!(task.difficulty.unwrap().value(), 7);
    assert_eq!(task.deadline.unwrap().date(), Date::new(2026, 1, 6).unwrap());
    assert_eq!(task.tags, Some(vec!["work".to_string(), "urgent".to_string()]));
    assert_eq!(task.pid.as_deref(), Some("abc1234"));
    assert_eq!(task.created, 1767571200);
    assert!(!task.completed);
    assert_eq!(task.id.len(), 40);
}

#[test]
fn of_two_faults_the_deadline_is_reported() {
    let made = Task::new(
        "t".to_string(),
        None,
        Some(11),
        Some("incorrect".to_string()),
        None,
        None,
        today(),
        0,
    );
    match made {
        Err(ValidationError::InvalidDeadline(given)) => assert_eq!(given, "incorrect"),
        other => panic!("{:?}", other),
    }
}

#[test]
fn the_identifier_is_the_hash_of_title_and_time() {
    assert_eq!(generate_content_hash("Task", 0), "720491e4308fb930a4e1e5529a0fb0ac1d29af37");
    assert_eq!(
        generate_content_hash("Simple task", 1767571200),
        "3882e67cc7f0c4031fffd7ae50a5a34e0365aa90"
    );
    assert_eq!(generate_content_hash("héllo", 42), "31a99452491f0e82708f4c5c251968f103987974");
    let task = Task::new("Task".to_string(), None, None, None, None, None, today(), 0).unwrap();
    assert_eq!(task.id, "720491e4308fb930a4e1e5529a0fb0ac1d29af37");
}

#[test]
fn the_identifier_changes_with_title_and_time() {
    let a = generate_content_hash("Task 1", 100);
    let b = generate_content_hash("Task 2", 100);
    let c = generate_content_hash("Task 1", 101);
    assert_ne!(a, b);
    assert_ne!(a, c);
    assert_eq!(a, generate_content_hash("Task 1", 100));
}

fn full_task() -> Task {
    Task::new(
        "Round trip".to_string(),
        Some("there and back".to_string()),
        Some(8),
        Some("2026-02-10".to_string()),
        Some(vec!["work".to_string(), "coding".to_string()]),
        Some("0123456".to_string()),
        today(),
        1767571200,
    )
    .unwrap()
}

#[test]
fn a_task_becomes_the_columns_of_its_row() {
    let task = full_task();
    let id = task.id.clone();
    let row = task.translate_to_db();
    assert_eq!(row.0, id);
    assert_eq!(row.1, "Round trip");
    assert_eq!(row.2.as_deref(), Some("there and back"));
    assert_eq!(row.3, Some(8));
    assert_eq!(row.4.as_deref(), Some("2026-02-10"));
    assert_eq!(row.5, Some(vec!["work".to_string(), "coding".to_string()]));
    assert_eq!(row.6.as_deref(), Some("0123456"));
    assert_eq!(row.7, 1767571200);
    assert!(!row.8);
}

#[test]
fn a_row_is_read_back_as_its_task() {
    let task = full_task();
    let copy = task.clone();
    let row = task.translate_to_db();
    let back =
        Task::translate_from_db((row.0, row.1, row.2, row.3, row.4, row.6, row.7, row.8, row.5))
            .unwrap();
    assert_eq!(back.id, copy.id);
    assert_eq!(back.title, copy.title);
    assert_eq!(back.desc, copy.desc);
    assert_eq!(back.difficulty.map(|d| d.value()), Some(8));
    assert_eq!(back.deadline.map(|d| d.date()), Some(Date::new(2026, 2, 10).unwrap()));
    assert_eq!(back.tags, copy.tags);
    assert_eq!(back.pid, copy.pid);
    assert_eq!(back.created, copy.created);
    assert_eq!(back.completed, copy.completed);
}

#[test]
fn a_row_without_the_optional_columns_is_read_back() {
    let task = Task::new("bare".to_string(), None, None, None, None, None, today(), -5).unwrap();
    let id = task.id.clone();
    let row = task.translate_to_db();
    assert_eq!(row.7, -5);
    let back =
        Task::translate_from_db((row.0, row.1, row.2, row.3, row.4, row.6, row.7, row.8, row.5))
            .unwrap();
    assert_eq!(back.id, id);
    assert!(back.desc.is_none() && back.difficulty.is_none() && back.deadline.is_none());
    assert!(back.tags.is_none() && back.pid.is_none());
    assert_eq!(back.created, -5);
}

#[test]
fn a_row_with_a_wrong_column_is_refused() {
    let row = |diff: Option<u8>, deadline: Option<&str>| {
        (
            "id".to_string(),
            "title".to_string(),
            None,
            diff,
            deadline.map(|d| d.to_string()),
            None,
            0i64,
            false,
            None,
        )
    };
    assert!(matches!(
        Task::translate_from_db(row(Some(11), None)),
        Err(ValidationError::DifficultyOutOfRange)
    ));
    assert!(matches!(
        Task::translate_from_db(row(Some(11), Some("nonsense"))),
        Err(ValidationError::DifficultyOutOfRange)
    ));
    match Task::translate_from_db(row(Some(10), Some("nonsense"))) {
        Err(ValidationError::InvalidDeadline(given)) => assert_eq!(given, "nonsense"),
        other => panic!("{:?}", other),
    }
    assert!(Task::translate_from_db(row(Some(10), Some("2026-01-05"))).is_ok());
}

#[test]
fn a_copy_holds_every_field() {
    let task = full_task();
    let copy = task.duplicate();
    assert_eq!(copy.id, task.id);
    assert_eq!(copy.title, task.title);
    assert_eq!(copy.desc, task.desc);
    assert_eq!(copy.difficulty.map(|d| d.value()), task.difficulty.map(|d| d.value()));
    assert_eq!(copy.deadline.map(|d| d.date()), task.deadline.map(|d| d.date()));
    assert_eq!(copy.tags, task.tags);
    assert_eq!(copy.pid, task.pid);
    assert_eq!(copy.created, task.created);
    assert_eq!(copy.completed, task.completed);
}

#[test]
fn the_style_of_a_difficulty() {
    let style = |d: u8| Difficulty::new(d).unwrap().style();
    for d in 0..=3 {
        assert_eq!(style(d), Style::Tinted(Tint::Green));
    }
    for d in 4..=6 {
        assert_eq!(style(d), Style::Tinted(Tint::Yellow));
    }
    for d in 7..=8 {
        assert_eq!(style(d), Style::Tinted(Tint::BrightRed));
    }
    for d in 9..=10 {
        assert_eq!(style(d), Style::BoldRed);
    }
}

#[test]
fn a_difficulty_is_shown_in_its_colour() {
    let shown = |d: u8| Difficulty::new(d).unwrap().colour();
    let is = |text: String, plain: &str, code: &str| {
        text == plain || text == format!("\u{1b}[{}m{}\u{1b}[0m", code, plain)
    };
    assert!(is(shown(0), "0", "32"));
    assert!(is(shown(5), "5", "33"));
    assert!(is(shown(8), "8", "91"));
    assert!(is(shown(10), "10", "1;31"));
}

#[test]
fn a_deadline_made_on_a_date_falls_on_it() {
    let d = Date::new(2026, 3, 4).unwrap();
    assert_eq!(Deadline::on(d).date(), d);
}

//! Task records and the values they are made of.

use crate::calendar::{iso_text, parsed_date, Date};
use crate::deadline::{deadline_date, Deadline};
use crate::error::ValidationError;
use crate::paint::{is_styled, paint, Style, Tint};
use crate::text::{
    byte_len, copy_opt_text, copy_texts, decimal, digit_value, lemma_decimal_digits, opt_text,
    opt_texts, push_decimal, push_signed_decimal, signed_decimal, texts,
};
use sha1::{Digest, Sha1};
use vstd::prelude::*;

verus! {

/// The largest difficulty rating a task can carry.
pub const MAX_DIFFICULTY: u8 = 10;

/// The SHA-1 digest of the UTF-8 bytes of `content`, in hexadecimal
/// digits.
pub uninterp spec fn sha1_hex(content: Seq<char>) -> Seq<char>;

/// `Sha1::update` and `Sha1::finalize` of sha1 on the bytes of `content`,
/// the digest written with `{:x}`: 20 bytes, two digits each.
#[verifier::external_body]
fn generate_hash(content: &str) -> (r: String)
    ensures
        r@ == sha1_hex(content@),
        r@.len() == 40,
{
    let mut hasher = Sha1::new();
    hasher.update(content.as_bytes());
    let result = hasher.finalize();
    format!("{:x}", result)
}

/// What is hashed for the identifier of a task: the word `blob`, the
/// length of the title in bytes, a zero character, the title, and the
/// time in seconds.
pub open spec fn hash_input(title: Seq<char>, timestamp: int) -> Seq<char> {
    seq!['b', 'l', 'o', 'b', ' '] + decimal(byte_len(title)) + seq!['\0'] + title
        + signed_decimal(timestamp)
}

/// The identifier for a task with this title made at this time, in
/// seconds since the Unix epoch.
pub fn generate_content_hash(title: &str, timestamp: i64) -> (id: String)
    ensures
        id@ == sha1_hex(hash_input(title@, timestamp as int)),
        id@.len() == 40,
{
    let mut content = String::new();
    content.push('b');
    content.push('l');
    content.push('o');
    content.push('b');
    content.push(' ');
    push_decimal(&mut content, title.len() as u64);
    content.push('\0');
    content.append(title);
    push_signed_decimal(&mut content, timestamp);
    assert(content@ =~= hash_input(title@, timestamp as int));
    generate_hash(content.as_str())
}

/// A difficulty rating between 0 (trivial) and 10 (near impossible).
#[derive(Debug, Clone, Copy)]
pub struct Difficulty {
    value: u8,
}

impl Difficulty {
    /// The rating as a number.
    pub closed spec fn view(&self) -> int {
        self.value as int
    }

    /// A rating made by `new` lies in `0..=10`.
    pub open spec fn wf(&self) -> bool {
        0 <= self@ <= MAX_DIFFICULTY
    }

    /// Accepts exactly the ratings `0..=10`; nothing is clamped.
    pub fn new(value: u8) -> (r: Result<Self, ValidationError>)
        ensures
            value <= MAX_DIFFICULTY ==> r is Ok && r->Ok_0@ == value && r->Ok_0.wf(),
            value > MAX_DIFFICULTY ==> r matches Err(ValidationError::DifficultyOutOfRange),
    {
        if value <= MAX_DIFFICULTY {
            Ok(Self { value })
        } else {
            Err(ValidationError::DifficultyOutOfRange)
        }
    }

    /// The rating as a number.
    pub fn value(&self) -> (v: u8)
        ensures
            v == self@,
    {
        self.value
    }

    /// The style for a rating: green up to 3, yellow up to 6, bright red
    /// up to 8, bold red for 9 and 10.
    pub open spec fn style_of(value: int) -> Style {
        if value <= 3 {
            Style::Tinted(Tint::Green)
        } else if value <= 6 {
            Style::Tinted(Tint::Yellow)
        } else if value <= 8 {
            Style::Tinted(Tint::BrightRed)
        } else if value <= 10 {
            Style::BoldRed
        } else {
            Style::Plain
        }
    }

    /// Computes `style_of`.
    pub fn style(&self) -> (r: Style)
        ensures
            r == Difficulty::style_of(self@),
    {
        if self.value <= 3 {
            Style::Tinted(Tint::Green)
        } else if self.value <= 6 {
            Style::Tinted(Tint::Yellow)
        } else if self.value <= 8 {
            Style::Tinted(Tint::BrightRed)
        } else if self.value <= 10 {
            Style::BoldRed
        } else {
            Style::Plain
        }
    }

    /// The rating in decimal digits, shown in its style.
    pub fn colour(&self) -> (r: String)
        ensures
            is_styled(decimal(self@ as nat), Difficulty::style_of(self@), r@),
    {
        let mut digits = String::new();
        push_decimal(&mut digits, self.value as u64);
        proof {
            lemma_decimal_digits(self.value as nat);
            assert(digits@ =~= decimal(self.value as nat));
            assert forall|i: int| 0 <= i < digits@.len() implies digits@[i] != '\u{1b}' by {
                assert(digit_value(digits@[i]) is Some);
            }
        }
        paint(digits.as_str(), self.style())
    }
}

/// A unit of work.
#[derive(Debug, Clone)]
pub struct Task {
    /// The task's identifier: assigned once, never changed.
    pub id: String,
    pub title: String,
    pub desc: Option<String>,
    pub difficulty: Option<Difficulty>,
    pub deadline: Option<Deadline>,
    /// The names of the task's tags.
    pub tags: Option<Vec<String>>,
    /// The identifier of the parent task, or a prefix of it.
    pub pid: Option<String>,
    /// When the task was made, in seconds since the Unix epoch.
    pub created: i64,
    pub completed: bool,
}

/// What a task holds, as mathematical values.
pub ghost struct TaskView {
    pub id: Seq<char>,
    pub title: Seq<char>,
    pub desc: Option<Seq<char>>,
    pub difficulty: Option<int>,
    pub deadline: Option<Date>,
    pub tags: Option<Seq<Seq<char>>>,
    pub pid: Option<Seq<char>>,
    pub created: int,
    pub completed: bool,
}

impl View for Task {
    type V = TaskView;

    open spec fn view(&self) -> TaskView {
        TaskView {
            id: self.id@,
            title: self.title@,
            desc: opt_text(self.desc),
            difficulty: match self.difficulty {
                Some(d) => Some(d@),
                None => None,
            },
            deadline: match self.deadline {
                Some(d) => Some(d@),
                None => None,
            },
            tags: match self.tags {
                Some(t) => Some(texts(t@)),
                None => None,
            },
            pid: opt_text(self.pid),
            created: self.created as int,
            completed: self.completed,
        }
    }
}

/// The fields that an update supplies: a field left `None` keeps the
/// value the task has.
#[derive(Debug, Clone)]
pub struct TaskUpdate {
    pub title: Option<String>,
    pub desc: Option<String>,
    pub difficulty: Option<Difficulty>,
    pub deadline: Option<Deadline>,
    /// Where supplied, these tags replace the ones the task has.
    pub tags: Option<Vec<String>>,
    /// The identifier of the new parent task, or a prefix of it.
    pub pid: Option<String>,
}

/// What an update supplies, as mathematical values.
pub ghost struct TaskUpdateView {
    pub title: Option<Seq<char>>,
    pub desc: Option<Seq<char>>,
    pub difficulty: Option<int>,
    pub deadline: Option<Date>,
    pub tags: Option<Seq<Seq<char>>>,
    pub pid: Option<Seq<char>>,
}

impl View for TaskUpdate {
    type V = TaskUpdateView;

    open spec fn view(&self) -> TaskUpdateView {
        TaskUpdateView {
            title: opt_text(self.title),
            desc: opt_text(self.desc),
            difficulty: match self.difficulty {
                Some(d) => Some(d@),
                None => None,
            },
            deadline: match self.deadline {
                Some(d) => Some(d@),
                None => None,
            },
            tags: match self.tags {
                Some(t) => Some(texts(t@)),
                None => None,
            },
            pid: opt_text(self.pid),
        }
    }
}

/// A task as the nine columns of its stored row.
pub ghost struct RowView {
    pub id: Seq<char>,
    pub title: Seq<char>,
    pub desc: Option<Seq<char>>,
    pub difficulty: Option<int>,
    pub deadline: Option<Seq<char>>,
    pub tags: Option<Seq<Seq<char>>>,
    pub pid: Option<Seq<char>>,
    pub created: int,
    pub completed: bool,
}

/// Whether `row` is the row that stores `task`: every field as it is, the
/// deadline as the text of its date, from which the date is read back.
pub open spec fn is_row_of(task: TaskView, row: RowView) -> bool {
    &&& row.id == task.id
    &&& row.title == task.title
    &&& row.desc == task.desc
    &&& row.difficulty == task.difficulty
    &&& match task.deadline {
        Some(date) => row.deadline == Some(iso_text(date)) && parsed_date(
            iso_text(date),
            "%Y-%m-%d"@,
        ) == Some(date),
        None => row.deadline is None,
    }
    &&& row.tags == task.tags
    &&& row.pid == task.pid
    &&& row.created == task.created
    &&& row.completed == task.completed
}

/// The date that the stored text of a deadline spells.
pub open spec fn stored_date(deadline: Option<Seq<char>>) -> Option<Date> {
    match deadline {
        Some(text) => parsed_date(text, "%Y-%m-%d"@),
        None => None,
    }
}

/// The task that `row` stores, where its difficulty and its deadline are
/// in order.
pub open spec fn task_of_row(row: RowView) -> TaskView {
    TaskView {
        id: row.id,
        title: row.title,
        desc: row.desc,
        difficulty: row.difficulty,
        deadline: stored_date(row.deadline),
        tags: row.tags,
        pid: row.pid,
        created: row.created,
        completed: row.completed,
    }
}

impl Task {
    /// A task made on the day `today` at the time `now`, in seconds since
    /// the Unix epoch, from the fields given.
    ///
    /// The title must not be empty, the deadline is read as
    /// `Deadline::parse` reads it, the difficulty must lie in `0..=10`, and
    /// the identifier is the hash of title and time. Of several faults the
    /// title is reported before the deadline, and the deadline before the
    /// difficulty.
    pub fn new(
        title: String,
        desc: Option<String>,
        difficulty: Option<u8>,
        deadline: Option<String>,
        tags: Option<Vec<String>>,
        pid: Option<String>,
        today: Date,
        now: i64,
    ) -> (r: Result<Task, ValidationError>)
        requires
            today.wf(),
        ensures
            match r {
                Ok(task) => {
                    &&& task@ == TaskView {
                        id: sha1_hex(hash_input(title@, now as int)),
                        title: title@,
                        desc: opt_text(desc),
                        difficulty: match difficulty {
                            Some(d) => Some(d as int),
                            None => None,
                        },
                        deadline: match deadline {
                            Some(text) => deadline_date(text@, today),
                            None => None,
                        },
                        tags: opt_texts(tags),
                        pid: opt_text(pid),
                        created: now as int,
                        completed: false,
                    }
                    &&& task.wf()
                    &&& title@.len() > 0
                    &&& deadline matches Some(text) ==> deadline_date(text@, today) is Some
                    &&& difficulty matches Some(d) ==> d <= MAX_DIFFICULTY
                },
                Err(ValidationError::EmptyTitle) => title@.len() == 0,
                Err(ValidationError::InvalidDeadline(given)) => {
                    &&& title@.len() > 0
                    &&& deadline matches Some(text) && deadline_date(text@, today) is None
                        && given@ == text@
                },
                Err(ValidationError::DifficultyOutOfRange) => {
                    &&& title@.len() > 0
                    &&& difficulty matches Some(d) && d > MAX_DIFFICULTY
                    &&& deadline matches Some(text) ==> deadline_date(text@, today) is Some
                },
            },
    {
        if title.as_str().is_empty() {
            return Err(ValidationError::EmptyTitle);
        }
        let date = match &deadline {
            Some(text) => match Deadline::parse(text.as_str(), today) {
                Ok(d) => Some(d),
                Err(e) => {
                    return Err(e);
                },
            },
            None => None,
        };
        let rating = match difficulty {
            Some(d) => match Difficulty::new(d) {
                Ok(v) => Some(v),
                Err(e) => {
                    return Err(e);
                },
            },
            None => None,
        };
        let id = generate_content_hash(title.as_str(), now);
        Ok(
            Task {
                id,
                title,
                desc,
                difficulty: rating,
                deadline: date,
                tags,
                pid,
                created: now,
                completed: false,
            },
        )
    }

    /// The columns of the row that stores the task.
    pub fn translate_to_db(self) -> (row: (
        String,
        String,
        Option<String>,
        Option<u8>,
        Option<String>,
        Option<Vec<String>>,
        Option<String>,
        i64,
        bool,
    ))
        requires
            self.wf(),
        ensures
            is_row_of(
                self@,
                RowView {
                    id: row.0@,
                    title: row.1@,
                    desc: opt_text(row.2),
                    difficulty: match row.3 {
                        Some(d) => Some(d as int),
                        None => None,
                    },
                    deadline: opt_text(row.4),
                    tags: opt_texts(row.5),
                    pid: opt_text(row.6),
                    created: row.7 as int,
                    completed: row.8,
                },
            ),
    {
        let difficulty = match self.difficulty {
            Some(d) => Some(d.value()),
            None => None,
        };
        let deadline = match self.deadline {
            Some(d) => Some(d.to_text()),
            None => None,
        };
        (
            self.id,
            self.title,
            self.desc,
            difficulty,
            deadline,
            self.tags,
            self.pid,
            self.created,
            self.completed,
        )
    }

    /// The task that a stored row holds. The columns come as they are
    /// read: the tags last.
    ///
    /// A difficulty outside `0..=10` is reported, and after it a deadline
    /// whose text spells no date.
    pub fn translate_from_db(
        row: (
            String,
            String,
            Option<String>,
            Option<u8>,
            Option<String>,
            Option<String>,
            i64,
            bool,
            Option<Vec<String>>,
        ),
    ) -> (r: Result<Task, ValidationError>)
        ensures
            match r {
                Ok(task) => {
                    &&& task@ == task_of_row(
                        RowView {
                            id: row.0@,
                            title: row.1@,
                            desc: opt_text(row.2),
                            difficulty: match row.3 {
                                Some(d) => Some(d as int),
                                None => None,
                            },
                            deadline: opt_text(row.4),
                            tags: opt_texts(row.8),
                            pid: opt_text(row.5),
                            created: row.6 as int,
                            completed: row.7,
                        },
                    )
                    &&& task.wf()
                    &&& row.3 matches Some(d) ==> d <= MAX_DIFFICULTY
                    &&& row.4 matches Some(text) ==> parsed_date(text@, "%Y-%m-%d"@) is Some
                },
                Err(ValidationError::DifficultyOutOfRange) => row.3 matches Some(d) && d
                    > MAX_DIFFICULTY,
                Err(ValidationError::InvalidDeadline(given)) => {
                    &&& row.3 matches Some(d) ==> d <= MAX_DIFFICULTY
                    &&& row.4 matches Some(text) && parsed_date(text@, "%Y-%m-%d"@) is None
                        && given@ == text@
                },
                Err(ValidationError::EmptyTitle) => false,
            },
    {
        let rating = match row.3 {
            Some(d) => match Difficulty::new(d) {
                Ok(v) => Some(v),
                Err(e) => {
                    return Err(e);
                },
            },
            None => None,
        };
        let deadline = match &row.4 {
            Some(text) => match Date::from_text(text.as_str()) {
                Some(date) => Some(Deadline::on(date)),
                None => {
                    return Err(ValidationError::InvalidDeadline(text.clone()));
                },
            },
            None => None,
        };
        Ok(
            Task {
                id: row.0,
                title: row.1,
                desc: row.2,
                difficulty: rating,
                deadline,
                tags: row.8,
                pid: row.5,
                created: row.6,
                completed: row.7,
            },
        )
    }

    /// The difficulty, if any, lies in `0..=10`, and the deadline, if any,
    /// exists in the calendar.
    pub open spec fn wf(&self) -> bool {
        &&& self.difficulty matches Some(d) ==> d.wf()
        &&& self.deadline matches Some(d) ==> d.wf()
    }

    /// A copy of the task, field by field.
    pub fn duplicate(&self) -> (r: Task)
        ensures
            r@ == self@,
            self.wf() ==> r.wf(),
    {
        let tags = match &self.tags {
            Some(t) => Some(copy_texts(t)),
            None => None,
        };
        Task {
            id: self.id.clone(),
            title: self.title.clone(),
            desc: copy_opt_text(&self.desc),
            difficulty: self.difficulty,
            deadline: self.deadline,
            tags,
            pid: copy_opt_text(&self.pid),
            created: self.created,
            completed: self.completed,
        }
    }
}

} // verus!

//! The columns of the task table and the views that choose among them.

use vstd::prelude::*;

verus! {

/// How much of each task a listing shows.
#[derive(Debug, Clone, Copy, PartialEq, Eq, Structural)]
pub enum ViewMode {
    Minimal,
    Compact,
    Full,
}

/// A column of the task table.
#[derive(Debug, Clone, Copy, PartialEq, Eq, Structural)]
pub enum Column {
    Id,
    Task,
    Description,
    Difficulty,
    Deadline,
    Tags,
    Parent,
    Created,
    Complete,
}

/// The heading of a column.
pub open spec fn heading(column: Column) -> Seq<char> {
    match column {
        Column::Id => "ID"@,
        Column::Task => "Task"@,
        Column::Description => "Description"@,
        Column::Difficulty => "Difficulty"@,
        Column::Deadline => "Deadline"@,
        Column::Tags => "Tags"@,
        Column::Parent => "Parent"@,
        Column::Created => "Created"@,
        Column::Complete => "Complete"@,
    }
}

/// All columns, in the order in which `Column::available` names them.
pub open spec fn all_columns() -> Seq<Column> {
    seq![
        Column::Id,
        Column::Task,
        Column::Description,
        Column::Difficulty,
        Column::Deadline,
        Column::Tags,
        Column::Parent,
        Column::Created,
        Column::Complete,
    ]
}

/// The headings of `columns`.
pub open spec fn headings(columns: Seq<Column>) -> Seq<Seq<char>> {
    columns.map_values(|c: Column| heading(c))
}

/// The columns that a view leaves out.
pub open spec fn left_out(view: ViewMode) -> Seq<Column> {
    match view {
        ViewMode::Minimal => seq![
            Column::Description,
            Column::Difficulty,
            Column::Deadline,
            Column::Tags,
            Column::Parent,
            Column::Created,
            Column::Complete,
        ],
        ViewMode::Compact => seq![Column::Description, Column::Created, Column::Complete],
        ViewMode::Full => Seq::empty(),
    }
}

/// Those of the first `n` of all columns that are not among `chosen`.
pub open spec fn not_chosen(chosen: Seq<Column>, n: int) -> Seq<Column>
    decreases n,
{
    if n <= 0 {
        Seq::empty()
    } else if chosen.contains(all_columns()[n - 1]) {
        not_chosen(chosen, n - 1)
    } else {
        not_chosen(chosen, n - 1).push(all_columns()[n - 1])
    }
}

/// The columns that a listing leaves out: with a choice of columns all
/// others, else those that the view leaves out.
pub open spec fn hidden(view: ViewMode, chosen: Option<Seq<Column>>) -> Seq<Column> {
    match chosen {
        Some(columns) => not_chosen(columns, 9),
        None => left_out(view),
    }
}

impl ViewMode {
    /// The columns that the view leaves out.
    pub fn select_cols(&self) -> (r: Vec<Column>)
        ensures
            r@ == left_out(*self),
    {
        let mut r: Vec<Column> = Vec::new();
        match self {
            ViewMode::Minimal => {
                r.push(Column::Description);
                r.push(Column::Difficulty);
                r.push(Column::Deadline);
                r.push(Column::Tags);
                r.push(Column::Parent);
                r.push(Column::Created);
                r.push(Column::Complete);
            },
            ViewMode::Compact => {
                r.push(Column::Description);
                r.push(Column::Created);
                r.push(Column::Complete);
            },
            ViewMode::Full => {},
        }
        assert(r@ =~= left_out(*self));
        r
    }
}

impl Column {
    /// The heading of the column.
    pub fn as_str(&self) -> (r: &'static str)
        ensures
            r@ == heading(*self),
    {
        match self {
            Column::Id => "ID",
            Column::Task => "Task",
            Column::Description => "Description",
            Column::Difficulty => "Difficulty",
            Column::Deadline => "Deadline",
            Column::Tags => "Tags",
            Column::Parent => "Parent",
            Column::Created => "Created",
            Column::Complete => "Complete",
        }
    }

    /// All columns, in the order of their headings in `available`.
    pub fn all() -> (r: Vec<Column>)
        ensures
            r@ == all_columns(),
    {
        let mut r: Vec<Column> = Vec::new();
        r.push(Column::Id);
        r.push(Column::Task);
        r.push(Column::Description);
        r.push(Column::Difficulty);
        r.push(Column::Deadline);
        r.push(Column::Tags);
        r.push(Column::Parent);
        r.push(Column::Created);
        r.push(Column::Complete);
        assert(r@ =~= all_columns());
        r
    }

    /// The headings of all columns.
    pub fn available() -> (r: Vec<String>)
        ensures
            r@.map_values(|s: String| s@) == headings(all_columns()),
    {
        let columns = Column::all();
        let mut r: Vec<String> = Vec::new();
        let mut i: usize = 0;
        while i < columns.len()
            invariant
                i <= columns.len(),
                columns@ == all_columns(),
                r.len() == i,
                forall|k: int| 0 <= k < i ==> (#[trigger] r@[k])@ == heading(columns@[k]),
            decreases columns.len() - i,
        {
            r.push(columns[i].as_str().to_owned());
            i += 1;
        }
        assert(r@.map_values(|s: String| s@) =~= headings(all_columns()));
        r
    }
}

/// Whether `column` is among `chosen`.
pub fn is_chosen(chosen: &Vec<Column>, column: Column) -> (r: bool)
    ensures
        r == chosen@.contains(column),
{
    let mut i: usize = 0;
    while i < chosen.len()
        invariant
            i <= chosen.len(),
            forall|k: int| 0 <= k < i ==> chosen@[k] != column,
        decreases chosen.len() - i,
    {
        if chosen[i] == column {
            return true;
        }
        i += 1;
    }
    false
}

/// The columns that a listing leaves out: with a choice of columns all
/// others, in the order of `Column::all`, else those that the view leaves
/// out.
pub fn hidden_columns(view: ViewMode, chosen: &Option<Vec<Column>>) -> (r: Vec<Column>)
    ensures
        r@ == hidden(
            view,
            match *chosen {
                Some(columns) => Some(columns@),
                None => None,
            },
        ),
{
    match chosen {
        None => view.select_cols(),
        Some(columns) => {
            let all = Column::all();
            let mut r: Vec<Column> = Vec::new();
            let mut i: usize = 0;
            while i < all.len()
                invariant
                    i <= all.len() == 9,
                    all@ == all_columns(),
                    r@ == not_chosen(columns@, i as int),
                decreases all.len() - i,
            {
                if !is_chosen(columns, all[i]) {
                    r.push(all[i]);
                }
                i += 1;
            }
            r
        },
    }
}

} // verus!

//! The task store: the tasks on record, their tags and parent links, and
//! the listings drawn from them.

use crate::task::{Task, TaskUpdate, TaskUpdateView, TaskView};
use crate::theorems::lemma_listing_is_unique;
use crate::text::{
    copy_opt_text, copy_texts, first_chars, head_of, holds_both, insert_names, opt_text,
    opt_texts, same_names, same_text, sorted_names, starts_with, strictly_sorted, texts,
};
use vstd::prelude::*;

verus! {

/// Where a difficulty stands when tasks are ranked: a task without one
/// stands below every rated task.
pub open spec fn difficulty_rank(d: Option<int>) -> int {
    match d {
        Some(v) => v,
        None => -1,
    }
}

/// Whether deadline and difficulty put `a` before `b`: a task with a
/// deadline comes before one without, an earlier deadline before a later
/// one, and between equal deadlines the harder task comes first.
pub open spec fn outranks(a: TaskView, b: TaskView) -> bool {
    match (a.deadline, b.deadline) {
        (Some(x), Some(y)) => x.precedes(y) || (x == y && difficulty_rank(a.difficulty)
            > difficulty_rank(b.difficulty)),
        (Some(_), None) => true,
        (None, Some(_)) => false,
        (None, None) => difficulty_rank(a.difficulty) > difficulty_rank(b.difficulty),
    }
}

/// Whether the task at `i` is listed before the task at `j`: by rank, and
/// between tasks of equal rank the one stored first.
pub open spec fn listed_before(rows: Seq<TaskView>, i: int, j: int) -> bool {
    outranks(rows[i], rows[j]) || (!outranks(rows[j], rows[i]) && i < j)
}

/// Whether some name occurs in both lists.
pub open spec fn share_a_name(own: Seq<Seq<char>>, wanted: Seq<Seq<char>>) -> bool {
    exists|k: int| 0 <= k < own.len() && wanted.contains(#[trigger] own[k])
}

/// Whether `task` carries at least one of the tags `wanted`.
pub open spec fn has_any_tag(task: TaskView, wanted: Seq<Seq<char>>) -> bool {
    match task.tags {
        Some(own) => share_a_name(own, wanted),
        None => false,
    }
}

/// Whether a listing with the given filters shows `task`.
///
/// With `tags`, the task must carry one of them; with `pid`, its parent's
/// identifier must begin with it. `only_completed` keeps completed tasks
/// alone; otherwise completed tasks are shown only with `all`.
pub open spec fn selects(
    task: TaskView,
    tags: Option<Seq<Seq<char>>>,
    pid: Option<Seq<char>>,
    all: bool,
    only_completed: bool,
) -> bool {
    &&& tags matches Some(wanted) ==> has_any_tag(task, wanted)
    &&& pid matches Some(prefix) ==> (task.pid matches Some(p) && prefix.is_prefix_of(p))
    &&& only_completed ==> task.completed
    &&& !only_completed && !all ==> !task.completed
}

/// Whether `order` lists, by position in `rows`, exactly the tasks that
/// the filters select, each once, in listing order.
pub open spec fn is_listing(
    rows: Seq<TaskView>,
    tags: Option<Seq<Seq<char>>>,
    pid: Option<Seq<char>>,
    all: bool,
    only_completed: bool,
    order: Seq<int>,
) -> bool {
    &&& forall|p: int|
        0 <= p < order.len() ==> 0 <= #[trigger] order[p] < rows.len() && selects(
            rows[order[p]],
            tags,
            pid,
            all,
            only_completed,
        )
    &&& forall|p: int, q: int|
        0 <= p < q < order.len() ==> listed_before(rows, #[trigger] order[p], #[trigger] order[q])
    &&& forall|i: int|
        0 <= i < rows.len() && selects(#[trigger] rows[i], tags, pid, all, only_completed)
            ==> order.contains(i)
}

/// The listing that the filters draw from `rows`: the positions of the
/// tasks that they select, each once, in listing order.
pub open spec fn listing(
    rows: Seq<TaskView>,
    tags: Option<Seq<Seq<char>>>,
    pid: Option<Seq<char>>,
    all: bool,
    only_completed: bool,
) -> Seq<int> {
    choose|order: Seq<int>| is_listing(rows, tags, pid, all, only_completed, order)
}

/// The listing of the tasks that are still to do.
pub open spec fn to_do(rows: Seq<TaskView>) -> Seq<int> {
    listing(rows, None, None, false, false)
}

/// Whether `found` holds the tasks of `rows` at the positions `order`.
pub open spec fn shows(rows: Seq<TaskView>, order: Seq<int>, found: Seq<Task>) -> bool {
    &&& found.len() == order.len()
    &&& forall|p: int| 0 <= p < order.len() ==> (#[trigger] found[p])@ == rows[order[p]]
}

/// Decides `outranks`.
pub fn ranks_before(a: &Task, b: &Task) -> (r: bool)
    ensures
        r == outranks(a@, b@),
{
    let da: i16 = match &a.difficulty {
        Some(d) => d.value() as i16,
        None => -1,
    };
    let db: i16 = match &b.difficulty {
        Some(d) => d.value() as i16,
        None => -1,
    };
    match (&a.deadline, &b.deadline) {
        (Some(x), Some(y)) => {
            let dx = x.date();
            let dy = y.date();
            dx.is_before(&dy) || (dx == dy && da > db)
        },
        (Some(_), None) => true,
        (None, Some(_)) => false,
        (None, None) => da > db,
    }
}

/// Decides `has_any_tag`.
pub fn carries_any(task: &Task, wanted: &Vec<String>) -> (r: bool)
    ensures
        r == has_any_tag(task@, texts(wanted@)),
{
    match &task.tags {
        None => false,
        Some(own) => {
            let mut k: usize = 0;
            while k < own.len()
                invariant
                    k <= own.len(),
                    task.tags == Some(*own),
                    forall|x: int| 0 <= x < k ==> !texts(wanted@).contains(#[trigger] texts(own@)[x]),
                decreases own.len() - k,
            {
                let mut w: usize = 0;
                while w < wanted.len()
                    invariant
                        w <= wanted.len(),
                        k < own.len(),
                        task.tags == Some(*own),
                        forall|y: int| 0 <= y < w ==> texts(wanted@)[y] != own@[k as int]@,
                    decreases wanted.len() - w,
                {
                    if same_text(&wanted[w], &own[k]) {
                        assert(texts(wanted@)[w as int] == texts(own@)[k as int]);
                        assert(texts(wanted@).contains(texts(own@)[k as int]));
                        assert(share_a_name(texts(own@), texts(wanted@)));
                        return true;
                    }
                    w += 1;
                }
                k += 1;
            }
            false
        },
    }
}

/// Decides `selects`.
pub fn is_selected(
    task: &Task,
    tags: &Option<Vec<String>>,
    pid: &Option<String>,
    all: bool,
    only_completed: bool,
) -> (r: bool)
    ensures
        r == selects(task@, opt_texts(*tags), opt_text(*pid), all, only_completed),
{
    let tagged = match tags {
        Some(wanted) => carries_any(task, wanted),
        None => true,
    };
    let child = match pid {
        Some(prefix) => match &task.pid {
            Some(p) => starts_with(p.as_str(), prefix.as_str()),
            None => false,
        },
        None => true,
    };
    let state = if only_completed {
        task.completed
    } else {
        all || !task.completed
    };
    tagged && child && state
}

/// Why the store could not do what was asked.
#[derive(Debug)]
pub enum StoreError {
    /// No task's identifier begins with the given prefix.
    NotFound,
    /// Several identifiers begin with the given prefix and none is the
    /// prefix itself; these are the candidates, oldest task first.
    Ambiguous(Vec<String>),
    /// No task's identifier begins with the given parent prefix.
    ParentNotFound,
    /// A task with this identifier is on record already.
    DuplicateId,
    /// No task is left to do.
    NoneAvailable,
    /// An update supplies a title without a character.
    EmptyTitle,
}

/// Whether the tags of a stored task are in order: no list at all, or a
/// list that is not empty and ascends without repeating a name.
pub open spec fn tags_in_order(tags: Option<Seq<Seq<char>>>) -> bool {
    tags matches Some(t) ==> t.len() > 0 && strictly_sorted(t)
}

/// Whether `rows` and `names` can be the contents of a store: no
/// identifier occurs twice, every task's tags are in order and known by
/// name, and the names ascend.
pub open spec fn store_wf(rows: Seq<TaskView>, names: Seq<Seq<char>>) -> bool {
    &&& forall|i: int, j: int|
        0 <= i < j < rows.len() ==> (#[trigger] rows[i]).id != (#[trigger] rows[j]).id
    &&& forall|i: int| 0 <= i < rows.len() ==> tags_in_order((#[trigger] rows[i]).tags)
    &&& strictly_sorted(names)
    &&& forall|i: int, k: int|
        0 <= i < rows.len() && (#[trigger] rows[i]).tags is Some && 0 <= k
            < rows[i].tags->0.len() ==> names.contains(#[trigger] rows[i].tags->0[k])
}

/// Whether some task has the identifier `id`.
pub open spec fn has_id(rows: Seq<TaskView>, id: Seq<char>) -> bool {
    exists|i: int| 0 <= i < rows.len() && (#[trigger] rows[i]).id == id
}

/// Whether the task at `i` is the first whose identifier begins with
/// `prefix`.
pub open spec fn is_first_match(rows: Seq<TaskView>, prefix: Seq<char>, i: int) -> bool {
    &&& 0 <= i < rows.len()
    &&& prefix.is_prefix_of(rows[i].id)
    &&& forall|j: int| 0 <= j < i ==> !prefix.is_prefix_of((#[trigger] rows[j]).id)
}

/// The position of the first task whose identifier begins with `prefix`.
pub open spec fn first_match(rows: Seq<TaskView>, prefix: Seq<char>) -> Option<int> {
    if exists|i: int| is_first_match(rows, prefix, i) {
        Some(choose|i: int| is_first_match(rows, prefix, i))
    } else {
        None
    }
}

/// The identifiers that begin with `prefix`, oldest task first.
pub open spec fn matching_ids(rows: Seq<TaskView>, prefix: Seq<char>) -> Seq<Seq<char>>
    decreases rows.len(),
{
    if rows.len() == 0 {
        Seq::empty()
    } else {
        let rest = matching_ids(rows.drop_last(), prefix);
        if prefix.is_prefix_of(rows.last().id) {
            rest.push(rows.last().id)
        } else {
            rest
        }
    }
}

/// Whether `prefix` stands for the identifier `id`: `id` is on record and
/// is either `prefix` itself or the only identifier that begins with it.
pub open spec fn resolves_to(rows: Seq<TaskView>, prefix: Seq<char>, id: Seq<char>) -> bool {
    &&& has_id(rows, id)
    &&& id == prefix || matching_ids(rows, prefix) == seq![id]
}

/// The number of characters of an identifier that are shown to the user.
pub const SHORT_ID_LEN: usize = 7;

/// Whether `stored` is the form in which the store keeps the tags `given`:
/// no list where none or an empty one was given, else the given names in
/// ascending order, each once.
pub open spec fn is_tag_form(
    given: Option<Seq<Seq<char>>>,
    stored: Option<Seq<Seq<char>>>,
) -> bool {
    match stored {
        None => given is None || given->0.len() == 0,
        Some(t) => given is Some && given->0.len() > 0 && strictly_sorted(t) && same_names(
            t,
            given->0,
        ),
    }
}

/// Whether `stored` is the parent link that the store keeps for the prefix
/// `given`: the identifier of the first task that begins with it.
pub open spec fn is_parent_link(
    rows: Seq<TaskView>,
    given: Option<Seq<char>>,
    stored: Option<Seq<char>>,
) -> bool {
    match given {
        None => stored is None,
        Some(p) => first_match(rows, p) matches Some(i) && stored == Some(rows[i].id),
    }
}

/// The names of `tags`, none where there is no list.
pub open spec fn names_of(tags: Option<Seq<Seq<char>>>) -> Seq<Seq<char>> {
    match tags {
        Some(t) => t,
        None => Seq::empty(),
    }
}

/// Whether `stored` is what the store keeps for the new task `given`:
/// every field as given, but the parent link resolved and the tags in
/// their stored form.
pub open spec fn is_stored_form(rows: Seq<TaskView>, given: TaskView, stored: TaskView) -> bool {
    &&& stored == TaskView { pid: stored.pid, tags: stored.tags, ..given }
    &&& is_parent_link(rows, given.pid, stored.pid)
    &&& is_tag_form(given.tags, stored.tags)
}

/// Whether the update supplies a title without a character.
pub open spec fn has_empty_title(update: TaskUpdateView) -> bool {
    update.title matches Some(t) && t.len() == 0
}

/// Whether `after` is the task `before` with the fields that `update`
/// supplies put in place: identifier, time of creation and completion
/// stay, a supplied parent prefix is resolved, and supplied tags replace
/// the old ones.
pub open spec fn is_update_of(
    rows: Seq<TaskView>,
    before: TaskView,
    update: TaskUpdateView,
    after: TaskView,
) -> bool {
    &&& after.id == before.id
    &&& after.created == before.created
    &&& after.completed == before.completed
    &&& after.title == match update.title {
        Some(t) => t,
        None => before.title,
    }
    &&& after.desc == if update.desc is Some {
        update.desc
    } else {
        before.desc
    }
    &&& after.difficulty == if update.difficulty is Some {
        update.difficulty
    } else {
        before.difficulty
    }
    &&& after.deadline == if update.deadline is Some {
        update.deadline
    } else {
        before.deadline
    }
    &&& if update.tags is Some {
        is_tag_form(update.tags, after.tags)
    } else {
        after.tags == before.tags
    }
    &&& if update.pid is Some {
        is_parent_link(rows, update.pid, after.pid)
    } else {
        after.pid == before.pid
    }
}

/// The tags `given` in the form in which the store keeps them.
pub fn tag_form(given: &Option<Vec<String>>) -> (stored: Option<Vec<String>>)
    ensures
        is_tag_form(opt_texts(*given), opt_texts(stored)),
        tags_in_order(opt_texts(stored)),
{
    match given {
        None => None,
        Some(list) => {
            if list.len() == 0 {
                None
            } else {
                let sorted = sorted_names(list);
                proof {
                    assert(texts(list@).contains(texts(list@)[0]));
                    assert(texts(sorted@).contains(texts(list@)[0]));
                }
                Some(sorted)
            }
        },
    }
}

/// Whether the task at `child` names the task at `parent` as its parent.
pub open spec fn is_child(rows: Seq<TaskView>, child: int, parent: int) -> bool {
    rows[child].pid == Some(rows[parent].id)
}

/// Whether `steps` parent links lead from the task at `i` to the task at
/// `root`.
pub open spec fn descends(rows: Seq<TaskView>, i: int, root: int, steps: nat) -> bool
    decreases steps,
{
    if steps == 0 {
        i == root
    } else {
        exists|j: int|
            0 <= j < rows.len() && #[trigger] is_child(rows, i, j) && descends(
                rows,
                j,
                root,
                (steps - 1) as nat,
            )
    }
}

/// Whether the task at `i` is the task at `root` or one of its children,
/// their children, and so on.
pub open spec fn in_subtree(rows: Seq<TaskView>, i: int, root: int) -> bool {
    exists|steps: nat| descends(rows, i, root, steps)
}

/// The first `n` tasks of `rows` without those in the subtree of `root`.
pub open spec fn kept(rows: Seq<TaskView>, root: int, n: int) -> Seq<TaskView>
    decreases n,
{
    if n <= 0 {
        Seq::empty()
    } else if in_subtree(rows, n - 1, root) {
        kept(rows, root, n - 1)
    } else {
        kept(rows, root, n - 1).push(rows[n - 1])
    }
}

/// The tasks that are left when the task at `root` is removed together
/// with its children, their children, and so on.
pub open spec fn without_subtree(rows: Seq<TaskView>, root: int) -> Seq<TaskView> {
    kept(rows, root, rows.len() as int)
}

/// What is left of `rows`, and how many tasks were removed by name, when
/// the keys are taken one after another and each removes, with its
/// subtree, the first task left whose identifier begins with it. A key
/// that no task left answers to removes nothing.
pub open spec fn removal(rows: Seq<TaskView>, keys: Seq<Seq<char>>) -> (Seq<TaskView>, nat)
    decreases keys.len(),
{
    if keys.len() == 0 {
        (rows, 0)
    } else {
        match first_match(rows, keys[0]) {
            Some(i) => {
                let rest = removal(without_subtree(rows, i), keys.drop_first());
                (rest.0, rest.1 + 1)
            },
            None => removal(rows, keys.drop_first()),
        }
    }
}

/// Those of `keys` that are the beginning of some identifier in `rows`
/// (`found`), or those that are not (`!found`), in their order.
pub open spec fn keys_found(rows: Seq<TaskView>, keys: Seq<Seq<char>>, found: bool) -> Seq<
    Seq<char>,
>
    decreases keys.len(),
{
    if keys.len() == 0 {
        Seq::empty()
    } else if (first_match(rows, keys.last()) is Some) == found {
        keys_found(rows, keys.drop_last(), found).push(keys.last())
    } else {
        keys_found(rows, keys.drop_last(), found)
    }
}

/// Whether `task` carries the tag `tag`.
pub open spec fn carries(task: TaskView, tag: Seq<char>) -> bool {
    match task.tags {
        Some(own) => own.contains(tag),
        None => false,
    }
}

/// The identifiers of the tasks that carry `tag`, oldest task first.
pub open spec fn carriers(rows: Seq<TaskView>, tag: Seq<char>) -> Seq<Seq<char>>
    decreases rows.len(),
{
    if rows.len() == 0 {
        Seq::empty()
    } else if carries(rows.last(), tag) {
        carriers(rows.drop_last(), tag).push(rows.last().id)
    } else {
        carriers(rows.drop_last(), tag)
    }
}

/// What is left of `rows`, and how many tasks were removed by name, when
/// the tags are taken one after another and each removes the tasks that
/// carry it at that time, as `removal` does with their identifiers.
pub open spec fn tag_removal(rows: Seq<TaskView>, tags: Seq<Seq<char>>) -> (Seq<TaskView>, nat)
    decreases tags.len(),
{
    if tags.len() == 0 {
        (rows, 0)
    } else {
        let first = removal(rows, carriers(rows, tags[0]));
        let rest = tag_removal(first.0, tags.drop_first());
        (rest.0, first.1 + rest.1)
    }
}

/// What a removal by identifiers did.
#[derive(Debug)]
pub struct Removal {
    /// How many tasks were removed by name; the tasks that went with
    /// them as their descendants are not counted.
    pub count: usize,
    /// The given identifiers that no task answered to.
    pub missing: Vec<String>,
}

/// How many of the marks are not set.
pub open spec fn unmarked(marks: Seq<bool>) -> nat
    decreases marks.len(),
{
    if marks.len() == 0 {
        0
    } else {
        unmarked(marks.drop_last()) + if marks.last() {
            0nat
        } else {
            1nat
        }
    }
}

/// Setting a mark leaves one unmarked place fewer.
pub proof fn lemma_mark_one(marks: Seq<bool>, at: int)
    requires
        0 <= at < marks.len(),
        !marks[at],
    ensures
        unmarked(marks.update(at, true)) + 1 == unmarked(marks),
    decreases marks.len(),
{
    let after = marks.update(at, true);
    if at == marks.len() - 1 {
        assert(after.drop_last() =~= marks.drop_last());
    } else {
        assert(after.drop_last() =~= marks.drop_last().update(at, true));
        lemma_mark_one(marks.drop_last(), at);
    }
}

/// Whether every child of a marked task is marked.
pub open spec fn marks_closed(rows: Seq<TaskView>, marks: Seq<bool>) -> bool {
    forall|c: int, p: int|
        0 <= c < rows.len() && 0 <= p < rows.len() && marks[p] && #[trigger] is_child(rows, c, p)
            ==> marks[c]
}

/// Marks that hold the root and every child of a marked task hold the
/// whole subtree.
pub proof fn lemma_closed_marks_hold_subtree(
    rows: Seq<TaskView>,
    marks: Seq<bool>,
    root: int,
    i: int,
    steps: nat,
)
    requires
        marks.len() == rows.len(),
        0 <= root < rows.len(),
        0 <= i < rows.len(),
        marks[root],
        marks_closed(rows, marks),
        descends(rows, i, root, steps),
    ensures
        marks[i],
    decreases steps,
{
    if steps > 0 {
        let j = choose|j: int|
            0 <= j < rows.len() && #[trigger] is_child(rows, i, j) && descends(
                rows,
                j,
                root,
                (steps - 1) as nat,
            );
        lemma_closed_marks_hold_subtree(rows, marks, root, j, (steps - 1) as nat);
    }
}

/// Whether some task carries the tag `tag`.
pub open spec fn tag_in_use(rows: Seq<TaskView>, tag: Seq<char>) -> bool {
    exists|i: int| 0 <= i < rows.len() && carries(#[trigger] rows[i], tag)
}

/// Whether `stored` is the task `given` with its tags in their stored
/// form and every other field as it is.
pub open spec fn is_kept_form(given: TaskView, stored: TaskView) -> bool {
    &&& stored == TaskView { tags: stored.tags, ..given }
    &&& is_tag_form(given.tags, stored.tags)
}

/// Whether two of the tasks have one identifier.
pub open spec fn has_repeated_id(tasks: Seq<Task>) -> bool {
    exists|i: int, j: int|
        0 <= i < j < tasks.len() && (#[trigger] tasks[i])@.id == (#[trigger] tasks[j])@.id
}

/// The positions held in `order`, as integers.
pub open spec fn positions(order: Seq<usize>) -> Seq<int> {
    order.map_values(|i: usize| i as int)
}

/// The tasks on record, with the names of all tags in use or once used.
pub struct Database {
    tasks: Vec<Task>,
    tag_names: Vec<String>,
}

impl Database {
    /// The tasks on record, oldest first.
    pub closed spec fn rows(&self) -> Seq<TaskView> {
        self.tasks@.map_values(|t: Task| t@)
    }

    /// The names of the known tags, in ascending order.
    pub closed spec fn tag_names(&self) -> Seq<Seq<char>> {
        texts(self.tag_names@)
    }

    /// The store's contents are well formed: `new` makes such a store and
    /// every method keeps it so.
    pub open spec fn wf(&self) -> bool {
        store_wf(self.rows(), self.tag_names())
    }

    /// A store without tasks or tags.
    pub fn new() -> (db: Database)
        ensures
            db.rows() == Seq::<TaskView>::empty(),
            db.tag_names() == Seq::<Seq<char>>::empty(),
            db.wf(),
    {
        let db = Database { tasks: Vec::new(), tag_names: Vec::new() };
        assert(db.rows() =~= Seq::<TaskView>::empty());
        assert(db.tag_names() =~= Seq::<Seq<char>>::empty());
        db
    }

    /// The store that holds these tasks, oldest first, and knows these tag
    /// names besides those that the tasks carry. The parent links are
    /// kept as they are; the tags are put in their stored form. No store
    /// holds two tasks with one identifier.
    pub fn restore(tasks: Vec<Task>, tag_names: Vec<String>) -> (r: Result<Database, StoreError>)
        ensures
            match r {
                Ok(db) => {
                    &&& db.wf()
                    &&& db.rows().len() == tasks.len()
                    &&& forall|i: int|
                        0 <= i < tasks.len() ==> is_kept_form(
                            (#[trigger] tasks[i])@,
                            db.rows()[i],
                        )
                    &&& forall|x: Seq<char>|
                        db.tag_names().contains(x) <==> texts(tag_names@).contains(x)
                            || tag_in_use(db.rows(), x)
                },
                Err(StoreError::DuplicateId) => has_repeated_id(tasks@),
                Err(_) => false,
            },
    {
        let mut db = Database::new();
        insert_names(&mut db.tag_names, &tag_names);
        let mut i: usize = 0;
        while i < tasks.len()
            invariant
                i <= tasks.len(),
                db.wf(),
                db.rows().len() == i,
                forall|k: int| 0 <= k < i ==> is_kept_form((#[trigger] tasks[k])@, db.rows()[k]),
                forall|x: Seq<char>|
                    db.tag_names().contains(x) <==> texts(tag_names@).contains(x) || tag_in_use(
                        db.rows(),
                        x,
                    ),
            decreases tasks.len() - i,
        {
            if db.holds_id(&tasks[i].id) {
                proof {
                    let k = choose|k: int|
                        0 <= k < db.rows().len() && (#[trigger] db.rows()[k]).id
                            == tasks@[i as int]@.id;
                    assert(tasks@[k]@.id == tasks@[i as int]@.id);
                }
                return Err(StoreError::DuplicateId);
            }
            let given = &tasks[i];
            let stored = Task {
                id: given.id.clone(),
                title: given.title.clone(),
                desc: copy_opt_text(&given.desc),
                difficulty: given.difficulty,
                deadline: given.deadline,
                tags: tag_form(&given.tags),
                pid: copy_opt_text(&given.pid),
                created: given.created,
                completed: given.completed,
            };
            let ghost before = db;
            match &stored.tags {
                Some(list) => {
                    insert_names(&mut db.tag_names, list);
                },
                None => {},
            }
            db.tasks.push(stored);
            proof {
                assert(db.rows() =~= before.rows().push(stored@));
                assert forall|x: Seq<char>|
                    db.tag_names().contains(x) <==> texts(tag_names@).contains(x) || tag_in_use(
                        db.rows(),
                        x,
                    ) by {
                    if tag_in_use(before.rows(), x) {
                        let k = choose|k: int|
                            0 <= k < before.rows().len() && carries(#[trigger] before.rows()[k], x);
                        assert(carries(db.rows()[k], x));
                    }
                    if carries(stored@, x) {
                        assert(carries(db.rows()[i as int], x));
                    }
                    if tag_in_use(db.rows(), x) {
                        let k = choose|k: int|
                            0 <= k < db.rows().len() && carries(#[trigger] db.rows()[k], x);
                        if k < i {
                            assert(carries(before.rows()[k], x));
                        }
                    }
                }
            }
            i += 1;
        }
        Ok(db)
    }

    /// Forgets every task and every tag.
    pub fn clear(&mut self)
        ensures
            final(self).rows() == Seq::<TaskView>::empty(),
            final(self).tag_names() == Seq::<Seq<char>>::empty(),
            final(self).wf(),
    {
        self.tasks = Vec::new();
        self.tag_names = Vec::new();
        assert(self.rows() =~= Seq::<TaskView>::empty());
        assert(self.tag_names() =~= Seq::<Seq<char>>::empty());
    }

    /// The names of all known tags, in ascending order.
    pub fn tags(&self) -> (names: Vec<String>)
        ensures
            texts(names@) == self.tag_names(),
    {
        copy_texts(&self.tag_names)
    }

    /// A copy of every task on record, oldest first.
    pub fn snapshot(&self) -> (all: Vec<Task>)
        ensures
            all@.map_values(|t: Task| t@) == self.rows(),
    {
        let mut all: Vec<Task> = Vec::new();
        let mut i: usize = 0;
        while i < self.tasks.len()
            invariant
                i <= self.tasks.len(),
                all.len() == i,
                forall|k: int| 0 <= k < i ==> (#[trigger] all@[k])@ == self.tasks@[k]@,
            decreases self.tasks.len() - i,
        {
            all.push(self.tasks[i].duplicate());
            i += 1;
        }
        assert(all@.map_values(|t: Task| t@) =~= self.rows());
        all
    }

    /// The number of tasks on record.
    pub fn len(&self) -> (n: usize)
        ensures
            n == self.rows().len(),
    {
        self.tasks.len()
    }

    /// The position of the first task whose identifier begins with
    /// `prefix`.
    fn find_first(&self, prefix: &str) -> (r: Option<usize>)
        ensures
            match r {
                Some(i) => is_first_match(self.rows(), prefix@, i as int),
                None => forall|j: int|
                    0 <= j < self.rows().len() ==> !prefix@.is_prefix_of(
                        (#[trigger] self.rows()[j]).id,
                    ),
            },
            first_match(self.rows(), prefix@) == match r {
                Some(i) => Some(i as int),
                None => None::<int>,
            },
    {
        let mut i: usize = 0;
        while i < self.tasks.len()
            invariant
                i <= self.tasks.len(),
                forall|j: int|
                    0 <= j < i ==> !prefix@.is_prefix_of((#[trigger] self.rows()[j]).id),
            decreases self.tasks.len() - i,
        {
            if starts_with(self.tasks[i].id.as_str(), prefix) {
                assert(is_first_match(self.rows(), prefix@, i as int));
                return Some(i);
            }
            i += 1;
        }
        None
    }

    /// The position of the task that `prefix` stands for.
    fn locate(&self, prefix: &str) -> (r: Result<usize, StoreError>)
        ensures
            match r {
                Ok(i) => i < self.rows().len() && resolves_to(
                    self.rows(),
                    prefix@,
                    self.rows()[i as int].id,
                ),
                Err(StoreError::NotFound) => matching_ids(self.rows(), prefix@).len() == 0,
                Err(StoreError::Ambiguous(c)) => texts(c@) == matching_ids(self.rows(), prefix@)
                    && c.len() > 1 && !has_id(self.rows(), prefix@),
                Err(_) => false,
            },
    {
        let mut candidates: Vec<String> = Vec::new();
        let mut exact: Option<usize> = None;
        let mut only: usize = 0;
        let mut i: usize = 0;
        assert(self.rows().take(0) =~= Seq::<TaskView>::empty());
        while i < self.tasks.len()
            invariant
                i <= self.tasks.len(),
                texts(candidates@) == matching_ids(self.rows().take(i as int), prefix@),
                candidates.len() > 0 ==> only < i && self.rows()[only as int].id
                    == candidates@[candidates.len() - 1]@,
                match exact {
                    Some(e) => e < i && self.rows()[e as int].id == prefix@,
                    None => forall|j: int| 0 <= j < i ==> (#[trigger] self.rows()[j]).id != prefix@,
                },
            decreases self.tasks.len() - i,
        {
            let ghost head = self.rows().take(i as int);
            let ghost next = self.rows().take(i + 1);
            assert(next.drop_last() =~= head);
            assert(next.last() == self.rows()[i as int]);
            if starts_with(self.tasks[i].id.as_str(), prefix) {
                candidates.push(self.tasks[i].id.clone());
                only = i;
                assert(texts(candidates@) =~= matching_ids(head, prefix@).push(
                    self.rows()[i as int].id,
                ));
                if exact.is_none() && same_text(&self.tasks[i].id, &prefix.to_owned()) {
                    exact = Some(i);
                }
            }
            i += 1;
        }
        assert(self.rows().take(i as int) =~= self.rows());
        match exact {
            Some(e) => Ok(e),
            None => {
                if candidates.len() == 0 {
                    Err(StoreError::NotFound)
                } else if candidates.len() == 1 {
                    assert(texts(candidates@) =~= seq![self.rows()[only as int].id]);
                    Ok(only)
                } else {
                    Err(StoreError::Ambiguous(candidates))
                }
            },
        }
    }

    /// The identifier that `prefix` stands for: `prefix` itself where a
    /// task has it as its identifier, else the one identifier that begins
    /// with it. Where none does the prefix is not found, and where several
    /// do it is ambiguous.
    pub fn resolve(&self, prefix: &str) -> (r: Result<String, StoreError>)
        ensures
            match r {
                Ok(id) => resolves_to(self.rows(), prefix@, id@),
                Err(StoreError::NotFound) => matching_ids(self.rows(), prefix@).len() == 0,
                Err(StoreError::Ambiguous(c)) => texts(c@) == matching_ids(self.rows(), prefix@)
                    && c.len() > 1 && !has_id(self.rows(), prefix@),
                Err(_) => false,
            },
    {
        match self.locate(prefix) {
            Ok(i) => Ok(self.tasks[i].id.clone()),
            Err(e) => Err(e),
        }
    }

    /// The task that `id` stands for, as `resolve` reads it.
    pub fn get_task(&self, id: String) -> (r: Result<Task, StoreError>)
        ensures
            match r {
                Ok(t) => resolves_to(self.rows(), id@, t@.id) && self.rows().contains(t@),
                Err(StoreError::NotFound) => matching_ids(self.rows(), id@).len() == 0,
                Err(StoreError::Ambiguous(c)) => texts(c@) == matching_ids(self.rows(), id@)
                    && c.len() > 1 && !has_id(self.rows(), id@),
                Err(_) => false,
            },
    {
        match self.locate(id.as_str()) {
            Ok(i) => {
                let t = self.tasks[i].duplicate();
                assert(self.rows()[i as int] == t@);
                Ok(t)
            },
            Err(e) => Err(e),
        }
    }

    /// Marks as completed the first task whose identifier begins with
    /// `id`, and returns that identifier in full. A task that was completed
    /// before stays so.
    pub fn completed(&mut self, id: String) -> (r: Result<String, StoreError>)
        ensures
            match r {
                Ok(full) => first_match(old(self).rows(), id@) matches Some(i)
                    && full@ == old(self).rows()[i].id
                    && final(self).rows() == old(self).rows().update(
                    i,
                    TaskView { completed: true, ..old(self).rows()[i] },
                ),
                Err(StoreError::NotFound) => first_match(old(self).rows(), id@) is None
                    && final(self).rows() == old(self).rows(),
                Err(_) => false,
            },
            final(self).tag_names() == old(self).tag_names(),
            old(self).wf() ==> final(self).wf(),
    {
        match self.find_first(id.as_str()) {
            Some(i) => {
                let full = self.tasks[i].id.clone();
                self.tasks[i].completed = true;
                assert(self.rows() =~= old(self).rows().update(
                    i as int,
                    TaskView { completed: true, ..old(self).rows()[i as int] },
                ));
                Ok(full)
            },
            None => Err(StoreError::NotFound),
        }
    }

    /// The parent link that the store keeps for the prefix `given`.
    fn parent_link(&self, given: &Option<String>) -> (r: Result<Option<String>, StoreError>)
        ensures
            match r {
                Ok(stored) => is_parent_link(self.rows(), opt_text(*given), opt_text(stored)),
                Err(StoreError::ParentNotFound) => given matches Some(p) && first_match(
                    self.rows(),
                    p@,
                ) is None,
                Err(_) => false,
            },
    {
        match given {
            None => Ok(None),
            Some(p) => match self.find_first(p.as_str()) {
                Some(i) => Ok(Some(self.tasks[i].id.clone())),
                None => Err(StoreError::ParentNotFound),
            },
        }
    }

    /// Whether a task with the identifier `id` is on record.
    fn holds_id(&self, id: &String) -> (r: bool)
        ensures
            r == has_id(self.rows(), id@),
    {
        let mut i: usize = 0;
        while i < self.tasks.len()
            invariant
                i <= self.tasks.len(),
                forall|j: int| 0 <= j < i ==> (#[trigger] self.rows()[j]).id != id@,
            decreases self.tasks.len() - i,
        {
            if same_text(&self.tasks[i].id, id) {
                assert(self.rows()[i as int].id == id@);
                return true;
            }
            i += 1;
        }
        false
    }

    /// Puts a new task on record and returns the short form of its
    /// identifier.
    ///
    /// A parent prefix is replaced by the identifier of the first task that
    /// begins with it; the tags are kept in ascending order, each once, and
    /// their names become known to the store. Nothing changes where the
    /// parent is not found or the identifier is taken.
    pub fn add(&mut self, task: Task) -> (r: Result<String, StoreError>)
        ensures
            match r {
                Ok(short) => {
                    &&& short@ == head_of(task@.id, SHORT_ID_LEN as nat)
                    &&& !has_id(old(self).rows(), task@.id)
                    &&& final(self).rows().len() == old(self).rows().len() + 1
                    &&& final(self).rows().drop_last() == old(self).rows()
                    &&& is_stored_form(old(self).rows(), task@, final(self).rows().last())
                    &&& holds_both(
                        old(self).tag_names(),
                        names_of(final(self).rows().last().tags),
                        final(self).tag_names(),
                    )
                },
                Err(StoreError::ParentNotFound) => {
                    &&& task@.pid matches Some(p) && first_match(old(self).rows(), p) is None
                    &&& final(self).rows() == old(self).rows()
                    &&& final(self).tag_names() == old(self).tag_names()
                },
                Err(StoreError::DuplicateId) => {
                    &&& has_id(old(self).rows(), task@.id)
                    &&& task@.pid matches Some(p) ==> first_match(old(self).rows(), p) is Some
                    &&& final(self).rows() == old(self).rows()
                    &&& final(self).tag_names() == old(self).tag_names()
                },
                Err(_) => false,
            },
            old(self).wf() ==> final(self).wf(),
    {
        let pid = match self.parent_link(&task.pid) {
            Ok(p) => p,
            Err(e) => {
                return Err(e);
            },
        };
        if self.holds_id(&task.id) {
            return Err(StoreError::DuplicateId);
        }
        let tags = tag_form(&task.tags);
        let short = first_chars(task.id.as_str(), SHORT_ID_LEN);
        let stored = Task {
            id: task.id,
            title: task.title,
            desc: task.desc,
            difficulty: task.difficulty,
            deadline: task.deadline,
            tags,
            pid,
            created: task.created,
            completed: task.completed,
        };
        match &stored.tags {
            Some(list) => {
                insert_names(&mut self.tag_names, list);
            },
            None => {
                assert(holds_both(
                    old(self).tag_names(),
                    Seq::<Seq<char>>::empty(),
                    self.tag_names(),
                ));
            },
        }
        self.tasks.push(stored);
        proof {
            assert(self.rows() =~= old(self).rows().push(stored@));
            assert(self.rows().drop_last() =~= old(self).rows());
            assert(self.rows().last() == stored@);
        }
        Ok(short)
    }

    /// Puts the fields that `updates` supplies in place of those of the
    /// first task whose identifier begins with `id`, and returns that
    /// identifier in full.
    ///
    /// Every field that is not supplied keeps its value, and so do the
    /// identifier, the time of creation and the completion flag. Supplied
    /// tags replace the task's tags; a supplied parent prefix is replaced
    /// by the identifier of the first task that begins with it. Nothing
    /// changes where the title supplied is empty or no task or no parent
    /// is found.
    pub fn update(&mut self, id: String, updates: TaskUpdate) -> (r: Result<String, StoreError>)
        ensures
            match r {
                Ok(full) => {
                    &&& !has_empty_title(updates@)
                    &&& first_match(old(self).rows(), id@) matches Some(i) && {
                        &&& full@ == old(self).rows()[i].id
                        &&& final(self).rows() == old(self).rows().update(i, final(self).rows()[i])
                        &&& is_update_of(
                            old(self).rows(),
                            old(self).rows()[i],
                            updates@,
                            final(self).rows()[i],
                        )
                        &&& holds_both(
                            old(self).tag_names(),
                            if updates@.tags is Some {
                                names_of(final(self).rows()[i].tags)
                            } else {
                                Seq::empty()
                            },
                            final(self).tag_names(),
                        )
                    }
                },
                Err(StoreError::EmptyTitle) => {
                    &&& updates@.title matches Some(t) && t.len() == 0
                    &&& final(self).rows() == old(self).rows()
                    &&& final(self).tag_names() == old(self).tag_names()
                },
                Err(StoreError::NotFound) => {
                    &&& !has_empty_title(updates@)
                    &&& first_match(old(self).rows(), id@) is None
                    &&& final(self).rows() == old(self).rows()
                    &&& final(self).tag_names() == old(self).tag_names()
                },
                Err(StoreError::ParentNotFound) => {
                    &&& !has_empty_title(updates@)
                    &&& first_match(old(self).rows(), id@) is Some
                    &&& updates@.pid matches Some(p) && first_match(old(self).rows(), p) is None
                    &&& final(self).rows() == old(self).rows()
                    &&& final(self).tag_names() == old(self).tag_names()
                },
                Err(_) => false,
            },
            old(self).wf() ==> final(self).wf(),
    {
        if let Some(title) = &updates.title {
            if title.as_str().is_empty() {
                return Err(StoreError::EmptyTitle);
            }
        }
        let i = match self.find_first(id.as_str()) {
            Some(i) => i,
            None => {
                return Err(StoreError::NotFound);
            },
        };
        let pid = match &updates.pid {
            Some(_) => match self.parent_link(&updates.pid) {
                Ok(p) => p,
                Err(e) => {
                    return Err(e);
                },
            },
            None => copy_opt_text(&self.tasks[i].pid),
        };
        let retagged = updates.tags.is_some();
        let tags = if retagged {
            tag_form(&updates.tags)
        } else {
            match &self.tasks[i].tags {
                Some(t) => Some(copy_texts(t)),
                None => None,
            }
        };
        let existing = &self.tasks[i];
        let full = existing.id.clone();
        let ghost supplied = updates@;
        let merged = Task {
            id: existing.id.clone(),
            title: match updates.title {
                Some(t) => t,
                None => existing.title.clone(),
            },
            desc: match updates.desc {
                Some(d) => Some(d),
                None => copy_opt_text(&existing.desc),
            },
            difficulty: match updates.difficulty {
                Some(d) => Some(d),
                None => existing.difficulty,
            },
            deadline: match updates.deadline {
                Some(d) => Some(d),
                None => existing.deadline,
            },
            tags,
            pid,
            created: existing.created,
            completed: existing.completed,
        };
        assert(is_update_of(old(self).rows(), old(self).rows()[i as int], supplied, merged@));
        if retagged {
            match &merged.tags {
                Some(list) => {
                    insert_names(&mut self.tag_names, list);
                },
                None => {
                    assert(holds_both(
                        old(self).tag_names(),
                        Seq::<Seq<char>>::empty(),
                        self.tag_names(),
                    ));
                },
            }
        } else {
            assert(holds_both(
                old(self).tag_names(),
                Seq::<Seq<char>>::empty(),
                self.tag_names(),
            ));
        }
        self.tasks[i] = merged;
        proof {
            assert(self.rows() =~= old(self).rows().update(i as int, merged@));
        }
        Ok(full)
    }

    /// For each task, whether it lies in the subtree of the task at `root`.
    fn subtree_marks(&self, root: usize) -> (marks: Vec<bool>)
        requires
            root < self.rows().len(),
        ensures
            marks.len() == self.rows().len(),
            forall|i: int|
                0 <= i < marks.len() ==> (#[trigger] marks@[i]) == in_subtree(
                    self.rows(),
                    i,
                    root as int,
                ),
    {
        let n = self.tasks.len();
        let ghost rows = self.rows();
        let mut marks: Vec<bool> = Vec::new();
        let mut i: usize = 0;
        while i < n
            invariant
                i <= n,
                marks.len() == i,
                forall|k: int| 0 <= k < i ==> (#[trigger] marks@[k]) == (k == root),
            decreases n - i,
        {
            marks.push(i == root);
            i += 1;
        }
        assert(descends(rows, root as int, root as int, 0));
        let mut changed = true;
        while changed
            invariant
                marks.len() == n == self.tasks.len(),
                rows == self.rows(),
                root < n,
                marks@[root as int],
                forall|k: int|
                    0 <= k < n && #[trigger] marks@[k] ==> in_subtree(rows, k, root as int),
                !changed ==> marks_closed(rows, marks@),
            decreases unmarked(marks@), changed as int,
        {
            changed = false;
            let ghost start = marks@;
            let mut c: usize = 0;
            while c < n
                invariant
                    c <= n,
                    marks.len() == n == self.tasks.len(),
                    rows == self.rows(),
                    root < n,
                    marks@[root as int],
                    forall|k: int|
                        0 <= k < n && #[trigger] marks@[k] ==> in_subtree(rows, k, root as int),
                    changed ==> unmarked(marks@) < unmarked(start),
                    !changed ==> marks@ == start,
                    !changed ==> forall|x: int, p: int|
                        0 <= x < c && 0 <= p < n && marks@[p] && #[trigger] is_child(rows, x, p)
                            ==> marks@[x],
                decreases n - c,
            {
                if !marks[c] {
                    match &self.tasks[c].pid {
                        Some(pid) => {
                            let mut p: usize = 0;
                            let mut found = false;
                            while p < n && !found
                                invariant
                                    p <= n,
                                    c < n,
                                    marks.len() == n == self.tasks.len(),
                                    rows == self.rows(),
                                    self.tasks@[c as int].pid == Some(*pid),
                                    found ==> p < n && marks@[p as int] && is_child(
                                        rows,
                                        c as int,
                                        p as int,
                                    ),
                                    !found ==> forall|q: int|
                                        0 <= q < p && marks@[q] ==> !#[trigger] is_child(
                                            rows,
                                            c as int,
                                            q,
                                        ),
                                decreases n - p, !found as int,
                            {
                                if marks[p] && same_text(&self.tasks[p].id, pid) {
                                    found = true;
                                } else {
                                    p += 1;
                                }
                            }
                            if found {
                                proof {
                                    lemma_mark_one(marks@, c as int);
                                    let steps = choose|steps: nat|
                                        descends(rows, p as int, root as int, steps);
                                    assert(descends(rows, c as int, root as int, steps + 1));
                                }
                                marks[c] = true;
                                changed = true;
                            }
                        },
                        None => {},
                    }
                }
                c += 1;
            }
        }
        assert forall|i: int| 0 <= i < marks.len() implies (#[trigger] marks@[i]) == in_subtree(
            rows,
            i,
            root as int,
        ) by {
            if in_subtree(rows, i, root as int) {
                let steps = choose|steps: nat| descends(rows, i, root as int, steps);
                lemma_closed_marks_hold_subtree(rows, marks@, root as int, i, steps);
            }
        }
        marks
    }

    /// Removes the task at `root` together with its children, their
    /// children, and so on.
    fn remove_at(&mut self, root: usize)
        requires
            root < old(self).rows().len(),
        ensures
            final(self).rows() == without_subtree(old(self).rows(), root as int),
            final(self).rows().len() < old(self).rows().len(),
            final(self).tag_names() == old(self).tag_names(),
            old(self).wf() ==> final(self).wf(),
    {
        let marks = self.subtree_marks(root);
        let n = self.tasks.len();
        let ghost rows = self.rows();
        let mut left: Vec<Task> = Vec::new();
        let ghost mut source: Seq<int> = Seq::empty();
        let mut i: usize = 0;
        while i < n
            invariant
                i <= n == self.tasks.len(),
                rows == self.rows(),
                root < n,
                marks.len() == n,
                forall|k: int|
                    0 <= k < n ==> (#[trigger] marks@[k]) == in_subtree(rows, k, root as int),
                left@.map_values(|t: Task| t@) == kept(rows, root as int, i as int),
                source.len() == left.len(),
                forall|k: int|
                    0 <= k < source.len() ==> 0 <= #[trigger] source[k] < i && left@[k]@
                        == rows[source[k]],
                forall|a: int, b: int|
                    0 <= a < b < source.len() ==> #[trigger] source[a] < #[trigger] source[b],
                left.len() <= i,
                i > root ==> left.len() < i,
            decreases n - i,
        {
            assert(descends(rows, root as int, root as int, 0));
            if !marks[i] {
                left.push(self.tasks[i].duplicate());
                proof {
                    source = source.push(i as int);
                }
            }
            i += 1;
            assert(left@.map_values(|t: Task| t@) =~= kept(rows, root as int, i as int));
        }
        self.tasks = left;
        proof {
            let after = self.rows();
            assert(after == without_subtree(rows, root as int));
            if old(self).wf() {
                assert forall|a: int, b: int| 0 <= a < b < after.len() implies (#[trigger] after[a]).id
                    != (#[trigger] after[b]).id by {
                    assert(after[a] == rows[source[a]] && after[b] == rows[source[b]]);
                }
                assert forall|a: int| 0 <= a < after.len() implies tags_in_order(
                    (#[trigger] after[a]).tags,
                ) by {
                    assert(after[a] == rows[source[a]]);
                }
                assert forall|a: int, k: int|
                    0 <= a < after.len() && (#[trigger] after[a]).tags is Some && 0 <= k
                        < after[a].tags->0.len() implies self.tag_names().contains(
                    #[trigger] after[a].tags->0[k],
                ) by {
                    assert(after[a] == rows[source[a]]);
                }
            }
        }
    }

    /// Takes the keys one after another and removes for each, with its
    /// subtree, the first task whose identifier begins with it.
    fn remove_each(&mut self, keys: &Vec<String>) -> (count: usize)
        ensures
            (final(self).rows(), count as nat) == removal(old(self).rows(), texts(keys@)),
            count + final(self).rows().len() <= old(self).rows().len(),
            final(self).tag_names() == old(self).tag_names(),
            old(self).wf() ==> final(self).wf(),
    {
        let mut count: usize = 0;
        let mut k: usize = 0;
        let total = self.tasks.len();
        assert(texts(keys@).skip(0) =~= texts(keys@));
        while k < keys.len()
            invariant
                k <= keys.len(),
                total == old(self).rows().len(),
                count + self.rows().len() <= total,
                removal(old(self).rows(), texts(keys@)).0 == removal(
                    self.rows(),
                    texts(keys@).skip(k as int),
                ).0,
                removal(old(self).rows(), texts(keys@)).1 == count + removal(
                    self.rows(),
                    texts(keys@).skip(k as int),
                ).1,
                self.tag_names() == old(self).tag_names(),
                old(self).wf() ==> self.wf(),
            decreases keys.len() - k,
        {
            proof {
                let rest = texts(keys@).skip(k as int);
                assert(rest[0] == keys@[k as int]@);
                assert(rest.drop_first() =~= texts(keys@).skip(k + 1));
            }
            match self.find_first(keys[k].as_str()) {
                Some(i) => {
                    self.remove_at(i);
                    count += 1;
                },
                None => {},
            }
            k += 1;
        }
        assert(texts(keys@).skip(keys.len() as int).len() == 0);
        count
    }

    /// Removes the tasks that the identifiers stand for, each with its
    /// children, their children, and so on.
    ///
    /// First the identifiers that are the beginning of no identifier on
    /// record are set aside as missing. Then the others are taken in
    /// order, and each removes the first task left whose identifier begins
    /// with it, if one is left.
    pub fn remove_ids(&mut self, ids: Vec<String>) -> (r: Removal)
        ensures
            texts(r.missing@) == keys_found(old(self).rows(), texts(ids@), false),
            (final(self).rows(), r.count as nat) == removal(
                old(self).rows(),
                keys_found(old(self).rows(), texts(ids@), true),
            ),
            final(self).tag_names() == old(self).tag_names(),
            old(self).wf() ==> final(self).wf(),
    {
        let mut valid: Vec<String> = Vec::new();
        let mut missing: Vec<String> = Vec::new();
        let mut k: usize = 0;
        assert(texts(ids@).take(0) =~= Seq::<Seq<char>>::empty());
        while k < ids.len()
            invariant
                k <= ids.len(),
                texts(valid@) == keys_found(self.rows(), texts(ids@).take(k as int), true),
                texts(missing@) == keys_found(self.rows(), texts(ids@).take(k as int), false),
            decreases ids.len() - k,
        {
            proof {
                let next = texts(ids@).take(k + 1);
                assert(next.drop_last() =~= texts(ids@).take(k as int));
                assert(next.last() == ids@[k as int]@);
            }
            let ghost valid_before = texts(valid@);
            let ghost missing_before = texts(missing@);
            if self.find_first(ids[k].as_str()).is_some() {
                valid.push(ids[k].clone());
                assert(texts(valid@) =~= valid_before.push(ids@[k as int]@));
            } else {
                missing.push(ids[k].clone());
                assert(texts(missing@) =~= missing_before.push(ids@[k as int]@));
            }
            k += 1;
        }
        assert(texts(ids@).take(ids.len() as int) =~= texts(ids@));
        let count = self.remove_each(&valid);
        Removal { count, missing }
    }

    /// The identifiers of the tasks that carry `tag`, oldest task first.
    fn carriers_of(&self, tag: &String) -> (ids: Vec<String>)
        ensures
            texts(ids@) == carriers(self.rows(), tag@),
    {
        let mut ids: Vec<String> = Vec::new();
        let mut i: usize = 0;
        assert(self.rows().take(0) =~= Seq::<TaskView>::empty());
        while i < self.tasks.len()
            invariant
                i <= self.tasks.len(),
                texts(ids@) == carriers(self.rows().take(i as int), tag@),
            decreases self.tasks.len() - i,
        {
            proof {
                let next = self.rows().take(i + 1);
                assert(next.drop_last() =~= self.rows().take(i as int));
                assert(next.last() == self.rows()[i as int]);
            }
            let ghost before = texts(ids@);
            let mut carried = false;
            match &self.tasks[i].tags {
                Some(own) => {
                    let mut k: usize = 0;
                    while k < own.len() && !carried
                        invariant
                            k <= own.len(),
                            carried ==> texts(own@).contains(tag@),
                            !carried ==> forall|x: int|
                                0 <= x < k ==> (#[trigger] texts(own@)[x]) != tag@,
                        decreases own.len() - k, !carried as int,
                    {
                        if same_text(&own[k], tag) {
                            assert(texts(own@)[k as int] == tag@);
                            carried = true;
                        } else {
                            k += 1;
                        }
                    }
                },
                None => {},
            }
            if carried {
                ids.push(self.tasks[i].id.clone());
                assert(texts(ids@) =~= before.push(self.rows()[i as int].id));
            }
            i += 1;
        }
        assert(self.rows().take(self.tasks.len() as int) =~= self.rows());
        ids
    }

    /// Removes the tasks that carry one of the tags, each with its
    /// children, their children, and so on, and returns how many were
    /// removed for a tag of their own.
    pub fn remove_tags(&mut self, tags: Vec<String>) -> (count: usize)
        ensures
            (final(self).rows(), count as nat) == tag_removal(old(self).rows(), texts(tags@)),
            final(self).tag_names() == old(self).tag_names(),
            old(self).wf() ==> final(self).wf(),
    {
        let mut count: usize = 0;
        let mut k: usize = 0;
        let total = self.tasks.len();
        assert(texts(tags@).skip(0) =~= texts(tags@));
        while k < tags.len()
            invariant
                k <= tags.len(),
                total == old(self).rows().len(),
                count + self.rows().len() <= total,
                tag_removal(old(self).rows(), texts(tags@)).0 == tag_removal(
                    self.rows(),
                    texts(tags@).skip(k as int),
                ).0,
                tag_removal(old(self).rows(), texts(tags@)).1 == count + tag_removal(
                    self.rows(),
                    texts(tags@).skip(k as int),
                ).1,
                self.tag_names() == old(self).tag_names(),
                old(self).wf() ==> self.wf(),
            decreases tags.len() - k,
        {
            proof {
                let rest = texts(tags@).skip(k as int);
                assert(rest[0] == tags@[k as int]@);
                assert(rest.drop_first() =~= texts(tags@).skip(k + 1));
            }
            let ids = self.carriers_of(&tags[k]);
            let removed = self.remove_each(&ids);
            count += removed;
            k += 1;
        }
        assert(texts(tags@).skip(tags.len() as int).len() == 0);
        count
    }

    /// The task to do next: the first of the tasks not yet completed, in
    /// listing order.
    pub fn next(&self) -> (r: Result<Task, StoreError>)
        ensures
            is_listing(self.rows(), None, None, false, false, to_do(self.rows())),
            match r {
                Ok(t) => to_do(self.rows()).len() > 0 && t@ == self.rows()[to_do(self.rows())[0]],
                Err(StoreError::NoneAvailable) => to_do(self.rows()).len() == 0 && forall|i: int|
                    0 <= i < self.rows().len() ==> (#[trigger] self.rows()[i]).completed,
                Err(_) => false,
            },
    {
        let order = self.listing_order(&None, &None, false, false);
        proof {
            lemma_listing_is_unique(
                self.rows(),
                None,
                None,
                false,
                false,
                positions(order@),
                to_do(self.rows()),
            );
        }
        if order.len() == 0 {
            assert forall|i: int| 0 <= i < self.rows().len() implies (#[trigger] self.rows()[
                i
            ]).completed by {
                if !self.rows()[i].completed {
                    assert(selects(self.rows()[i], None, None, false, false));
                    assert(positions(order@).contains(i));
                }
            }
            Err(StoreError::NoneAvailable)
        } else {
            assert(positions(order@)[0] == order@[0]);
            Ok(self.tasks[order[0]].duplicate())
        }
    }

    /// The positions of the tasks that a listing with these filters shows,
    /// in listing order.
    fn listing_order(
        &self,
        tags: &Option<Vec<String>>,
        pid: &Option<String>,
        all: bool,
        only_completed: bool,
    ) -> (order: Vec<usize>)
        ensures
            is_listing(
                self.rows(),
                opt_texts(*tags),
                opt_text(*pid),
                all,
                only_completed,
                positions(order@),
            ),
    {
        let n = self.tasks.len();
        let ghost rows = self.rows();
        let ghost wanted = opt_texts(*tags);
        let ghost parent = opt_text(*pid);
        let mut order: Vec<usize> = Vec::new();
        let mut i: usize = 0;
        while i < n
            invariant
                i <= n == self.tasks.len(),
                rows == self.rows(),
                wanted == opt_texts(*tags),
                parent == opt_text(*pid),
                forall|p: int|
                    0 <= p < order.len() ==> (#[trigger] order@[p]) < i && selects(
                        rows[order@[p] as int],
                        wanted,
                        parent,
                        all,
                        only_completed,
                    ),
                forall|p: int, q: int|
                    0 <= p < q < order.len() ==> listed_before(
                        rows,
                        (#[trigger] order@[p]) as int,
                        (#[trigger] order@[q]) as int,
                    ),
                forall|j: int|
                    0 <= j < i && selects(#[trigger] rows[j], wanted, parent, all, only_completed)
                        ==> positions(order@).contains(j),
            decreases n - i,
        {
            if is_selected(&self.tasks[i], tags, pid, all, only_completed) {
                let mut p: usize = 0;
                let mut searching = true;
                while searching && p < order.len()
                    invariant
                        p <= order.len(),
                        i < n == self.tasks.len(),
                        rows == self.rows(),
                        forall|q: int| 0 <= q < order.len() ==> (#[trigger] order@[q]) < i,
                        forall|q: int|
                            0 <= q < p ==> !outranks(rows[i as int], rows[(#[trigger] order@[q]) as int]),
                        !searching ==> p < order.len() && outranks(
                            rows[i as int],
                            rows[order@[p as int] as int],
                        ),
                    decreases order.len() - p + if searching { 1int } else { 0int },
                {
                    if ranks_before(&self.tasks[i], &self.tasks[order[p]]) {
                        searching = false;
                    } else {
                        p += 1;
                    }
                }
                let ghost before = order@;
                order.insert(p, i);
                proof {
                    assert forall|a: int, b: int| 0 <= a < b < order.len() implies listed_before(
                        rows,
                        (#[trigger] order@[a]) as int,
                        (#[trigger] order@[b]) as int,
                    ) by {
                        if b == p {
                            assert(order@[a] == before[a]);
                        } else if a == p {
                            assert(order@[b] == before[b - 1]);
                            if p < b - 1 {
                                assert(listed_before(rows, before[p as int] as int, before[b - 1] as int));
                            }
                        } else {
                            let a0 = if a < p { a } else { a - 1 };
                            let b0 = if b < p { b } else { b - 1 };
                            assert(order@[a] == before[a0]);
                            assert(order@[b] == before[b0]);
                        }
                    }
                    assert forall|j: int|
                        0 <= j < i + 1 && selects(
                            #[trigger] rows[j],
                            wanted,
                            parent,
                            all,
                            only_completed,
                        ) implies positions(order@).contains(j) by {
                        if j == i {
                            assert(positions(order@)[p as int] == j);
                        } else {
                            assert(positions(before).contains(j));
                            let k = choose|k: int| 0 <= k < before.len() && positions(before)[k] == j;
                            let k1 = if k < p { k } else { k + 1 };
                            assert(positions(order@)[k1] == j);
                        }
                    }
                    assert forall|q: int| 0 <= q < order.len() implies (#[trigger] order@[q]) < i + 1
                        && selects(rows[order@[q] as int], wanted, parent, all, only_completed) by {
                        if q < p {
                            assert(order@[q] == before[q]);
                        } else if q > p {
                            assert(order@[q] == before[q - 1]);
                        }
                    }
                }
            }
            i += 1;
        }
        order
    }

    /// The tasks that the filters select, each once, in listing order:
    /// tasks with a deadline first, the earliest deadline first, the harder
    /// task first among equal deadlines, and the task stored first among
    /// tasks of equal rank.
    pub fn get_tasks(
        &self,
        tags: Option<Vec<String>>,
        pid: Option<String>,
        all: bool,
        only_completed: bool,
    ) -> (found: Vec<Task>)
        ensures
            is_listing(
                self.rows(),
                opt_texts(tags),
                opt_text(pid),
                all,
                only_completed,
                listing(self.rows(), opt_texts(tags), opt_text(pid), all, only_completed),
            ),
            shows(
                self.rows(),
                listing(self.rows(), opt_texts(tags), opt_text(pid), all, only_completed),
                found@,
            ),
    {
        let order = self.listing_order(&tags, &pid, all, only_completed);
        proof {
            lemma_listing_is_unique(
                self.rows(),
                opt_texts(tags),
                opt_text(pid),
                all,
                only_completed,
                positions(order@),
                listing(self.rows(), opt_texts(tags), opt_text(pid), all, only_completed),
            );
        }
        assert forall|q: int| 0 <= q < order.len() implies (#[trigger] order@[q])
            < self.tasks.len() by {
            assert(positions(order@)[q] == order@[q]);
        }
        let mut found: Vec<Task> = Vec::new();
        let mut p: usize = 0;
        while p < order.len()
            invariant
                p <= order.len(),
                found.len() == p,
                forall|q: int| 0 <= q < order.len() ==> (#[trigger] order@[q]) < self.tasks.len(),
                forall|q: int| 0 <= q < p ==> (#[trigger] found@[q])@ == self.rows()[order@[q] as int],
            decreases order.len() - p,
        {
            found.push(self.tasks[order[p]].duplicate());
            p += 1;
        }
        assert(shows(self.rows(), positions(order@), found@));
        found
    }
}

} // verus!

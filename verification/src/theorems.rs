//! What holds of the store's listings, removals and updates, and of the
//! rows that store a task.

use crate::db::{
    descends, first_match, has_any_tag, has_id, in_subtree, is_child, is_listing,
    is_stored_form, is_tag_form, is_update_of, keys_found, kept, listed_before, matching_ids,
    removal, resolves_to, selects, without_subtree,
};
use crate::task::{is_row_of, task_of_row, RowView, TaskUpdateView, TaskView};
use vstd::prelude::*;

verus! {

/// A row that stores a task holds that task: reading it gives back every
/// field, the deadline and the tags among them.
pub proof fn lemma_row_holds_its_task(task: TaskView, row: RowView)
    requires
        is_row_of(task, row),
    ensures
        task_of_row(row) == task,
{
}

/// A task that was added is found again under its identifier, with the
/// difficulty and the deadline it was given and with the tags it was
/// given, these in their stored form.
pub proof fn lemma_added_task_is_found(
    before: Seq<TaskView>,
    given: TaskView,
    after: Seq<TaskView>,
    found: TaskView,
)
    requires
        !has_id(before, given.id),
        forall|i: int, j: int|
            0 <= i < j < before.len() ==> (#[trigger] before[i]).id != (#[trigger] before[j]).id,
        after.len() == before.len() + 1,
        after.drop_last() == before,
        is_stored_form(before, given, after.last()),
        resolves_to(after, given.id, found.id),
        after.contains(found),
    ensures
        found == after.last(),
        found.difficulty == given.difficulty,
        found.deadline == given.deadline,
        is_tag_form(given.tags, found.tags),
{
    assert(given.id.is_prefix_of(after.last().id));
    assert(matching_ids(after, given.id) == matching_ids(before, given.id).push(given.id));
    if found.id != given.id {
        assert(matching_ids(after, given.id).last() == given.id);
    }
    let k = choose|k: int| 0 <= k < after.len() && after[k] == found;
    if k < before.len() {
        assert(before[k] == after[k]);
        assert(before[k].id == given.id);
    }
}

/// An update changes the fields that it supplies and no others: what it
/// leaves out keeps its value, and the identifier, the time of creation
/// and the completion flag stay whatever it supplies.
pub proof fn lemma_update_keeps_the_rest(
    rows: Seq<TaskView>,
    before: TaskView,
    update: TaskUpdateView,
    after: TaskView,
)
    requires
        is_update_of(rows, before, update, after),
    ensures
        after.id == before.id,
        after.created == before.created,
        after.completed == before.completed,
        update.title is None ==> after.title == before.title,
        update.desc is None ==> after.desc == before.desc,
        update.difficulty is None ==> after.difficulty == before.difficulty,
        update.deadline is None ==> after.deadline == before.deadline,
        update.tags is None ==> after.tags == before.tags,
        update.pid is None ==> after.pid == before.pid,
        update.title is None && update.desc is None && update.difficulty is None
            && update.deadline is None && update.tags is None && update.pid is None ==> after
            == before,
{
}

/// A listing by tags shows only tasks that carry one of the tags, and
/// shows no task twice, however many of the tags it carries.
pub proof fn lemma_tag_listing(
    rows: Seq<TaskView>,
    wanted: Seq<Seq<char>>,
    pid: Option<Seq<char>>,
    all: bool,
    only_completed: bool,
    order: Seq<int>,
)
    requires
        is_listing(rows, Some(wanted), pid, all, only_completed, order),
    ensures
        forall|p: int| 0 <= p < order.len() ==> has_any_tag(rows[#[trigger] order[p]], wanted),
        forall|p: int, q: int|
            0 <= p < q < order.len() ==> #[trigger] order[p] != #[trigger] order[q],
{
    assert forall|p: int, q: int| 0 <= p < q < order.len() implies #[trigger] order[p]
        != #[trigger] order[q] by {
        assert(listed_before(rows, order[p], order[q]));
    }
}

/// In every listing the deadline decides before the difficulty does: a
/// task with a deadline stands before every task with a later one and
/// before every task without, whatever their difficulties.
pub proof fn lemma_deadline_decides(
    rows: Seq<TaskView>,
    tags: Option<Seq<Seq<char>>>,
    pid: Option<Seq<char>>,
    all: bool,
    only_completed: bool,
    order: Seq<int>,
    p: int,
    q: int,
)
    requires
        is_listing(rows, tags, pid, all, only_completed, order),
        0 <= p < order.len(),
        0 <= q < order.len(),
        rows[order[p]].deadline matches Some(early) && (rows[order[q]].deadline matches Some(late)
            ==> early.precedes(late)),
    ensures
        p < q,
{
    if q < p {
        assert(listed_before(rows, order[q], order[p]));
    }
}

/// A listing of a store without tasks is empty.
pub proof fn lemma_nothing_to_list(
    tags: Option<Seq<Seq<char>>>,
    pid: Option<Seq<char>>,
    all: bool,
    only_completed: bool,
    order: Seq<int>,
)
    requires
        is_listing(Seq::<TaskView>::empty(), tags, pid, all, only_completed, order),
    ensures
        order.len() == 0,
{
    if order.len() > 0 {
        let rows = Seq::<TaskView>::empty();
        assert(0 <= order[0] < rows.len());
    }
}

/// The listing of the tasks still to do is empty exactly where every task
/// is completed, as in a store without tasks: there is no next task then,
/// and only then.
pub proof fn lemma_nothing_left_to_do(rows: Seq<TaskView>, order: Seq<int>)
    requires
        is_listing(rows, None, None, false, false, order),
    ensures
        order.len() == 0 <==> forall|i: int| 0 <= i < rows.len() ==> (#[trigger] rows[i]).completed,
{
    if order.len() > 0 {
        assert(selects(rows[order[0]], None, None, false, false));
    }
    if order.len() == 0 {
        assert forall|i: int| 0 <= i < rows.len() implies (#[trigger] rows[i]).completed by {
            if !rows[i].completed {
                assert(selects(rows[i], None, None, false, false));
                assert(order.contains(i));
            }
        }
    }
}

/// Once the one task that was still to do is completed, none is left to
/// do.
pub proof fn lemma_last_task_done(rows: Seq<TaskView>, i: int)
    requires
        0 <= i < rows.len(),
        forall|j: int| 0 <= j < rows.len() && j != i ==> (#[trigger] rows[j]).completed,
    ensures
        ({
            let after = rows.update(i, TaskView { completed: true, ..rows[i] });
            forall|j: int| 0 <= j < after.len() ==> (#[trigger] after[j]).completed
        }),
{
}

/// A task goes with its parent: the subtree of a task holds the task
/// itself and, with every task, the tasks that name it as their parent.
pub proof fn lemma_children_go_with_their_parent(
    rows: Seq<TaskView>,
    root: int,
    parent: int,
    child: int,
)
    requires
        0 <= parent < rows.len(),
        in_subtree(rows, parent, root),
        is_child(rows, child, parent),
    ensures
        in_subtree(rows, root, root),
        in_subtree(rows, child, root),
{
    assert(descends(rows, root, root, 0));
    let steps = choose|steps: nat| descends(rows, parent, root, steps);
    assert(descends(rows, child, root, steps + 1));
}

/// Removing a subtree leaves the tasks outside it, each once and in their
/// order, and none from inside it.
pub proof fn lemma_the_rest_is_kept(rows: Seq<TaskView>, root: int, n: int)
    requires
        0 <= n <= rows.len(),
    ensures
        forall|i: int|
            0 <= i < n && !in_subtree(rows, i, root) ==> kept(rows, root, n).contains(
                #[trigger] rows[i],
            ),
        forall|k: int|
            0 <= k < kept(rows, root, n).len() ==> exists|i: int|
                0 <= i < n && !in_subtree(rows, i, root) && rows[i] == #[trigger] kept(
                    rows,
                    root,
                    n,
                )[k],
        kept(rows, root, n).len() <= n,
    decreases n,
{
    if n > 0 {
        lemma_the_rest_is_kept(rows, root, n - 1);
        let before = kept(rows, root, n - 1);
        let now = kept(rows, root, n);
        assert forall|i: int| 0 <= i < n && !in_subtree(rows, i, root) implies now.contains(
            #[trigger] rows[i],
        ) by {
            if i < n - 1 {
                let k = choose|k: int| 0 <= k < before.len() && before[k] == rows[i];
                assert(now[k] == rows[i]);
            } else {
                assert(now[now.len() - 1] == rows[i]);
            }
        }
        assert forall|k: int| 0 <= k < now.len() implies exists|i: int|
            0 <= i < n && !in_subtree(rows, i, root) && rows[i] == #[trigger] now[k] by {
            if k < before.len() {
                assert(now[k] == before[k]);
                let i = choose|i: int|
                    0 <= i < n - 1 && !in_subtree(rows, i, root) && rows[i] == before[k];
                assert(0 <= i < n && !in_subtree(rows, i, root) && rows[i] == now[k]);
            } else {
                assert(rows[n - 1] == now[k]);
            }
        }
    }
}

/// Identifiers that no task answers to are all set aside as missing, and
/// removing by them removes nothing.
pub proof fn lemma_unknown_ids_remove_nothing(rows: Seq<TaskView>, ids: Seq<Seq<char>>)
    requires
        forall|k: int| 0 <= k < ids.len() ==> first_match(rows, #[trigger] ids[k]) is None,
    ensures
        keys_found(rows, ids, false) == ids,
        keys_found(rows, ids, true) == Seq::<Seq<char>>::empty(),
        removal(rows, keys_found(rows, ids, true)) == (rows, 0nat),
    decreases ids.len(),
{
    if ids.len() > 0 {
        lemma_unknown_ids_remove_nothing(rows, ids.drop_last());
        assert(first_match(rows, ids[ids.len() - 1]) is None);
        assert(ids.drop_last().push(ids.last()) =~= ids);
    }
}

/// Of two identifiers of which the first is that of a task and the second
/// answers to none, the first removes one task and the second is set
/// aside as missing.
pub proof fn lemma_one_known_one_unknown(rows: Seq<TaskView>, known: Seq<char>, unknown: Seq<char>)
    requires
        first_match(rows, known) is Some,
        first_match(rows, unknown) is None,
    ensures
        keys_found(rows, seq![known, unknown], true) == seq![known],
        keys_found(rows, seq![known, unknown], false) == seq![unknown],
        removal(rows, seq![known]) == (without_subtree(rows, first_match(rows, known)->0), 1nat),
{
    let both = seq![known, unknown];
    assert(both.drop_last() =~= seq![known]);
    assert(seq![known].drop_last() =~= Seq::<Seq<char>>::empty());
    assert(keys_found(rows, Seq::<Seq<char>>::empty(), true) =~= Seq::<Seq<char>>::empty());
    assert(keys_found(rows, Seq::<Seq<char>>::empty(), false) =~= Seq::<Seq<char>>::empty());
    assert(keys_found(rows, seq![known], true) =~= seq![known]);
    assert(keys_found(rows, seq![known], false) =~= Seq::<Seq<char>>::empty());
    assert(keys_found(rows, both, true) =~= seq![known]);
    assert(keys_found(rows, both, false) =~= seq![unknown]);
    assert(seq![known].drop_first() =~= Seq::<Seq<char>>::empty());
    let rest = without_subtree(rows, first_match(rows, known)->0);
    assert(removal(rest, Seq::<Seq<char>>::empty()) == (rest, 0nat));
}

/// The listing order is a strict order: no task stands before itself, and
/// of two tasks exactly one stands before the other.
pub proof fn lemma_listing_order_is_strict(rows: Seq<TaskView>, i: int, j: int, k: int)
    ensures
        !listed_before(rows, i, i),
        i != j ==> (listed_before(rows, i, j) <==> !listed_before(rows, j, i)),
        listed_before(rows, i, j) && listed_before(rows, j, k) ==> listed_before(rows, i, k),
{
}

/// The filters and the tasks decide the listing: any two listings of the
/// same tasks under the same filters are one.
pub proof fn lemma_listing_is_unique(
    rows: Seq<TaskView>,
    tags: Option<Seq<Seq<char>>>,
    pid: Option<Seq<char>>,
    all: bool,
    only_completed: bool,
    a: Seq<int>,
    b: Seq<int>,
)
    requires
        is_listing(rows, tags, pid, all, only_completed, a),
        is_listing(rows, tags, pid, all, only_completed, b),
    ensures
        a == b,
{
    lemma_same_length(rows, tags, pid, all, only_completed, a, b);
    lemma_same_length(rows, tags, pid, all, only_completed, b, a);
    assert forall|p: int| 0 <= p < a.len() implies a[p] == b[p] by {
        lemma_same_place(rows, tags, pid, all, only_completed, a, b, p);
    }
    assert(a =~= b);
}

/// The place in `b` of the task that stands at place `p` of `a`.
pub open spec fn place_in(a: Seq<int>, b: Seq<int>, p: int) -> int {
    choose|q: int| 0 <= q < b.len() && b[q] == a[p]
}

/// Places in one listing map to places in another in ascending order, so
/// the first `n` places of `a` take up at least `n` places of `b`.
proof fn lemma_places_ascend(
    rows: Seq<TaskView>,
    tags: Option<Seq<Seq<char>>>,
    pid: Option<Seq<char>>,
    all: bool,
    only_completed: bool,
    a: Seq<int>,
    b: Seq<int>,
    n: int,
)
    requires
        is_listing(rows, tags, pid, all, only_completed, a),
        is_listing(rows, tags, pid, all, only_completed, b),
        0 <= n < a.len(),
    ensures
        0 <= place_in(a, b, n) < b.len(),
        b[place_in(a, b, n)] == a[n],
        n <= place_in(a, b, n),
    decreases n,
{
    assert(b.contains(a[n]));
    let q = place_in(a, b, n);
    if n > 0 {
        lemma_places_ascend(rows, tags, pid, all, only_completed, a, b, n - 1);
        let q0 = place_in(a, b, n - 1);
        assert(listed_before(rows, a[n - 1], a[n]));
        lemma_listing_order_is_strict(rows, a[n - 1], a[n], a[n]);
        if q <= q0 {
            if q < q0 {
                assert(listed_before(rows, b[q], b[q0]));
            }
        }
    }
}

/// One listing is no longer than another.
proof fn lemma_same_length(
    rows: Seq<TaskView>,
    tags: Option<Seq<Seq<char>>>,
    pid: Option<Seq<char>>,
    all: bool,
    only_completed: bool,
    a: Seq<int>,
    b: Seq<int>,
)
    requires
        is_listing(rows, tags, pid, all, only_completed, a),
        is_listing(rows, tags, pid, all, only_completed, b),
    ensures
        a.len() <= b.len(),
{
    if a.len() > 0 {
        lemma_places_ascend(rows, tags, pid, all, only_completed, a, b, a.len() - 1);
    }
}

/// Two listings of equal length hold the same task at each place.
proof fn lemma_same_place(
    rows: Seq<TaskView>,
    tags: Option<Seq<Seq<char>>>,
    pid: Option<Seq<char>>,
    all: bool,
    only_completed: bool,
    a: Seq<int>,
    b: Seq<int>,
    p: int,
)
    requires
        is_listing(rows, tags, pid, all, only_completed, a),
        is_listing(rows, tags, pid, all, only_completed, b),
        a.len() == b.len(),
        0 <= p < a.len(),
    ensures
        a[p] == b[p],
{
    lemma_places_ascend(rows, tags, pid, all, only_completed, a, b, p);
    lemma_places_ascend(rows, tags, pid, all, only_completed, b, a, p);
    let q = place_in(a, b, p);
    let r = place_in(b, a, p);
    if q > p {
        // b[p] stands before b[q] == a[p] in b, and at place r >= p of a.
        assert(listed_before(rows, b[p], b[q]));
        lemma_listing_order_is_strict(rows, a[p], a[r], a[r]);
        if r > p {
            assert(listed_before(rows, a[p], a[r]));
        }
    }
}

} // verus!

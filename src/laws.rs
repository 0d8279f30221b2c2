use vstd::prelude::*;

use crate::record::{CategoryView, TodoView};
use crate::store::{
    category_name_of, done_count, find_category, has_todo, joined, listed, mark_done, selected,
    undone, RowView, StoreView,
};

verus! {

/// A category found by name is the one that the name shows for its id.
proof fn lemma_found_category_has_name(cats: Seq<CategoryView>, name: Seq<char>)
    requires
        forall|i: int, j: int|
            0 <= i < j < cats.len() ==> #[trigger] cats[i].id < #[trigger] cats[j].id,
    ensures
        find_category(cats, name) matches Some(id) ==> category_name_of(cats, id) == Some(name)
            && exists|k: int| 0 <= k < cats.len() && #[trigger] cats[k].id == id,
    decreases cats.len(),
{
    if cats.len() > 0 && cats[0].name != name {
        let rest = cats.drop_first();
        assert forall|i: int, j: int| 0 <= i < j < rest.len() implies #[trigger] rest[i].id
            < #[trigger] rest[j].id by {
            assert(cats[i + 1].id < cats[j + 1].id);
        }
        lemma_found_category_has_name(rest, name);
        if let Some(id) = find_category(cats, name) {
            let k = choose|k: int| 0 <= k < rest.len() && #[trigger] rest[k].id == id;
            assert(cats[0].id < cats[k + 1].id);
            assert(cats[k + 1].id == id);
        }
    }
}

/// A category appended with an id that no other has is the one that id names.
proof fn lemma_appended_category_name(cats: Seq<CategoryView>, x: CategoryView)
    requires
        forall|i: int| 0 <= i < cats.len() ==> #[trigger] cats[i].id < x.id,
    ensures
        category_name_of(cats.push(x), x.id) == Some(x.name),
    decreases cats.len(),
{
    let all = cats.push(x);
    if cats.len() > 0 {
        assert(cats[0].id < x.id);
        let rest = cats.drop_first();
        assert(all.drop_first() =~= rest.push(x));
        assert forall|i: int| 0 <= i < rest.len() implies #[trigger] rest[i].id < x.id by {
            assert(cats[i + 1].id < x.id);
        }
        lemma_appended_category_name(rest, x);
    }
}

/// A name that no category has is found on a category appended with it.
proof fn lemma_appended_category_found(cats: Seq<CategoryView>, x: CategoryView)
    requires
        find_category(cats, x.name) is None,
    ensures
        find_category(cats.push(x), x.name) == Some(x.id),
    decreases cats.len(),
{
    if cats.len() > 0 {
        assert(cats.push(x).drop_first() =~= cats.drop_first().push(x));
        lemma_appended_category_found(cats.drop_first(), x);
    }
}

/// A name that no category has is the name of no id.
proof fn lemma_unknown_name(cats: Seq<CategoryView>, name: Seq<char>, id: i64)
    requires
        find_category(cats, name) is None,
    ensures
        category_name_of(cats, id) != Some(name),
    decreases cats.len(),
{
    if cats.len() > 0 {
        lemma_unknown_name(cats.drop_first(), name, id);
    }
}

/// The row that adding a todo appends shows as the todo that adding returns.
proof fn lemma_added_row_joins(s: StoreView, d: Seq<char>, c: Option<Seq<char>>)
    requires
        s.wf(),
        s.add_todo_error(c) is None,
    ensures
        s.after_add_todo(d, c).todos.len() == s.todos.len() + 1,
        s.after_add_todo(d, c).todos.last().id == s.added_todo(d, c).id,
        joined(s.after_add_todo(d, c).categories, s.after_add_todo(d, c).todos.last())
            == s.added_todo(d, c),
{
    if let Some(name) = c {
        match find_category(s.categories, name) {
            Some(id) => {
                lemma_found_category_has_name(s.categories, name);
            },
            None => {
                let x = CategoryView { id: (s.last_category_id + 1) as i64, name };
                lemma_appended_category_name(s.categories, x);
            },
        }
    }
}

/// The listing of rows whose last one passes the filter ends with that row.
proof fn lemma_listing_ends_with_last(s: StoreView, filter: Option<Seq<char>>)
    requires
        s.todos.len() > 0,
        selected(s.categories, s.todos.last(), filter),
    ensures
        s.listing(filter).contains(joined(s.categories, s.todos.last())),
{
    let l = s.listing(filter);
    assert(l[l.len() - 1] == joined(s.categories, s.todos.last()));
}

/// After a todo described `d` is added in category `c`, listing `c` (all
/// todos, when `c` is `None`) shows it: described `d`, not done.
pub proof fn lemma_added_todo_is_listed(s: StoreView, d: Seq<char>, c: Option<Seq<char>>)
    requires
        s.wf(),
        s.add_todo_error(c) is None,
    ensures
        s.added_todo(d, c).description == d,
        !s.added_todo(d, c).done,
        s.after_add_todo(d, c).listing(c).contains(s.added_todo(d, c)),
{
    lemma_added_row_joins(s, d, c);
    lemma_listing_ends_with_last(s.after_add_todo(d, c), c);
}

/// Completing the todo that adding created turns it from not done to done, and
/// listing all todos afterwards shows it done.
pub proof fn lemma_completed_todo_is_listed_done(s: StoreView, d: Seq<char>, c: Option<Seq<char>>)
    requires
        s.wf(),
        s.add_todo_error(c) is None,
    ensures
        !s.added_todo(d, c).done,
        has_todo(s.after_add_todo(d, c).todos, s.added_todo(d, c).id),
        s.after_add_todo(d, c).after_complete(s.added_todo(d, c).id).listing(None).contains(
            TodoView { done: true, ..s.added_todo(d, c) },
        ),
{
    let s1 = s.after_add_todo(d, c);
    let t = s.added_todo(d, c);
    lemma_added_row_joins(s, d, c);
    assert(s1.todos[s1.todos.len() - 1].id == t.id);
    let s2 = s1.after_complete(t.id);
    assert(s2.todos.last() == RowView { done: true, ..s1.todos.last() });
    lemma_listing_ends_with_last(s2, None);
}

/// Completing an id that no todo has changes nothing.
pub proof fn lemma_complete_missing_is_noop(s: StoreView, id: i64)
    requires
        !has_todo(s.todos, id),
    ensures
        s.after_complete(id) == s,
{
    assert(mark_done(s.todos, id) =~= s.todos);
}

proof fn lemma_undone_rows(rows: Seq<RowView>)
    ensures
        forall|r: RowView| undone(rows).contains(r) <==> rows.contains(r) && !r.done,
        undone(rows).len() + done_count(rows) == rows.len(),
        done_count(undone(rows)) == 0,
    decreases rows.len(),
{
    if rows.len() > 0 {
        let prev = rows.drop_last();
        lemma_undone_rows(prev);
        let last = rows.last();
        assert forall|r: RowView| rows.contains(r) <==> prev.contains(r) || r == last by {
            if rows.contains(r) {
                let k = choose|k: int| 0 <= k < rows.len() && rows[k] == r;
                if k < rows.len() - 1 {
                    assert(prev[k] == r);
                }
            }
            if prev.contains(r) {
                let k = choose|k: int| 0 <= k < prev.len() && prev[k] == r;
                assert(rows[k] == r);
            }
            if r == last {
                assert(rows[rows.len() - 1] == r);
            }
        }
        if !last.done {
            let u = undone(prev);
            assert(u.push(last).drop_last() =~= u);
            assert forall|r: RowView| u.push(last).contains(r) <==> u.contains(r) || r == last by {
                if u.push(last).contains(r) {
                    let k = choose|k: int| 0 <= k < u.len() + 1 && u.push(last)[k] == r;
                    if k < u.len() {
                        assert(u[k] == r);
                    }
                }
                if u.contains(r) {
                    let k = choose|k: int| 0 <= k < u.len() && u[k] == r;
                    assert(u.push(last)[k] == r);
                }
                if r == last {
                    assert(u.push(last)[u.len() as int] == r);
                }
            }
        }
    }
}

/// Deleting the done todos removes exactly the rows that are done and keeps
/// every other row as it was; the count returned is the number removed, and
/// deleting again removes none.
pub proof fn lemma_delete_done_exact(s: StoreView)
    requires
        s.wf(),
    ensures
        forall|r: RowView|
            s.after_delete_done().todos.contains(r) <==> s.todos.contains(r) && !r.done,
        s.todos.len() == s.after_delete_done().todos.len() + done_count(s.todos),
        done_count(s.after_delete_done().todos) == 0,
        s.after_delete_done().after_delete_done() == s.after_delete_done(),
{
    lemma_undone_rows(s.todos);
    lemma_undone_rows(undone(s.todos));
    assert(undone(undone(s.todos)) =~= undone(s.todos)) by {
        lemma_undone_of_undone(s.todos);
    }
}

proof fn lemma_undone_of_undone(rows: Seq<RowView>)
    ensures
        undone(undone(rows)) == undone(rows),
    decreases rows.len(),
{
    if rows.len() > 0 {
        lemma_undone_of_undone(rows.drop_last());
        if !rows.last().done {
            let u = undone(rows.drop_last());
            assert(u.push(rows.last()).drop_last() =~= u);
        }
    }
}

/// Adding two todos, one after the other, in a category name that no
/// category has creates one category row, and both todos refer to it.
pub proof fn lemma_category_created_once(
    s: StoreView,
    d1: Seq<char>,
    d2: Seq<char>,
    name: Seq<char>,
)
    requires
        s.wf(),
        find_category(s.categories, name) is None,
        s.add_todo_error(Some(name)) is None,
        s.after_add_todo(d1, Some(name)).add_todo_error(Some(name)) is None,
    ensures
        ({
            let s2 = s.after_add_todo(d1, Some(name)).after_add_todo(d2, Some(name));
            let id = (s.last_category_id + 1) as i64;
            &&& s2.categories == s.categories.push(CategoryView { id, name })
            &&& s2.todos.len() == s.todos.len() + 2
            &&& s2.todos[s.todos.len() as int].category_id == Some(id)
            &&& s2.todos[s.todos.len() as int + 1].category_id == Some(id)
        }),
{
    let id = (s.last_category_id + 1) as i64;
    lemma_appended_category_found(s.categories, CategoryView { id, name });
}

/// Listing by a category name that no category has gives nothing.
pub proof fn lemma_unknown_category_lists_nothing(s: StoreView, name: Seq<char>)
    requires
        find_category(s.categories, name) is None,
    ensures
        s.listing(Some(name)) == Seq::<TodoView>::empty(),
{
    lemma_nothing_selected(s.categories, s.todos, name);
}

proof fn lemma_nothing_selected(cats: Seq<CategoryView>, rows: Seq<RowView>, name: Seq<char>)
    requires
        find_category(cats, name) is None,
    ensures
        listed(cats, rows, Some(name)) == Seq::<TodoView>::empty(),
    decreases rows.len(),
{
    if rows.len() > 0 {
        lemma_nothing_selected(cats, rows.drop_last(), name);
        if let Some(cid) = rows.last().category_id {
            lemma_unknown_name(cats, name, cid);
        }
    }
}

} // verus!

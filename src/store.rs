use vstd::prelude::*;

use crate::record::{opt_str_view, Category, CategoryView, Todo, TodoView};

verus! {

/// A row of the todos table; `category_id` refers to a category row, if any.
#[derive(Debug, PartialEq, Eq)]
pub struct TodoRow {
    pub id: i64,
    pub description: String,
    pub done: bool,
    pub category_id: Option<i64>,
}

/// The mathematical value of a [`TodoRow`].
pub struct RowView {
    pub id: i64,
    pub description: Seq<char>,
    pub done: bool,
    pub category_id: Option<i64>,
}

impl View for TodoRow {
    type V = RowView;

    open spec fn view(&self) -> RowView {
        RowView {
            id: self.id,
            description: self.description@,
            done: self.done,
            category_id: self.category_id,
        }
    }
}

/// Why the store refused to insert a row: the table's identifiers are used up.
#[derive(Debug, Clone, Copy, PartialEq, Eq, Structural)]
pub enum StoreError {
    TodoIdsExhausted,
    CategoryIdsExhausted,
}

/// The two tables, as sequences of rows in ascending id order, with the last
/// identifier handed out in each (identifiers are never reused).
pub struct StoreView {
    pub todos: Seq<RowView>,
    pub categories: Seq<CategoryView>,
    pub last_todo_id: i64,
    pub last_category_id: i64,
}

/// The id of the first category (lowest id) named `name`, if any.
pub open spec fn find_category(cats: Seq<CategoryView>, name: Seq<char>) -> Option<i64>
    decreases cats.len(),
{
    if cats.len() == 0 {
        None
    } else if cats[0].name == name {
        Some(cats[0].id)
    } else {
        find_category(cats.drop_first(), name)
    }
}

/// The name of the category with id `id`, if there is one.
pub open spec fn category_name_of(cats: Seq<CategoryView>, id: i64) -> Option<Seq<char>>
    decreases cats.len(),
{
    if cats.len() == 0 {
        None
    } else if cats[0].id == id {
        Some(cats[0].name)
    } else {
        category_name_of(cats.drop_first(), id)
    }
}

/// A todo row joined with the name of its category.
pub open spec fn joined(cats: Seq<CategoryView>, r: RowView) -> TodoView {
    TodoView {
        id: r.id,
        description: r.description,
        done: r.done,
        category_name: match r.category_id {
            Some(cid) => category_name_of(cats, cid),
            None => None,
        },
    }
}

/// Whether a row passes the category filter: no filter, or a category of exactly that name.
pub open spec fn selected(cats: Seq<CategoryView>, r: RowView, filter: Option<Seq<char>>) -> bool {
    match filter {
        None => true,
        Some(name) => joined(cats, r).category_name == Some(name),
    }
}

/// The joined rows that pass the filter, in the order of `rows`.
pub open spec fn listed(
    cats: Seq<CategoryView>,
    rows: Seq<RowView>,
    filter: Option<Seq<char>>,
) -> Seq<TodoView>
    decreases rows.len(),
{
    if rows.len() == 0 {
        Seq::empty()
    } else {
        let prev = listed(cats, rows.drop_last(), filter);
        if selected(cats, rows.last(), filter) {
            prev.push(joined(cats, rows.last()))
        } else {
            prev
        }
    }
}

/// The rows that are not done, in their order.
pub open spec fn undone(rows: Seq<RowView>) -> Seq<RowView>
    decreases rows.len(),
{
    if rows.len() == 0 {
        Seq::empty()
    } else if rows.last().done {
        undone(rows.drop_last())
    } else {
        undone(rows.drop_last()).push(rows.last())
    }
}

/// How many rows are done.
pub open spec fn done_count(rows: Seq<RowView>) -> nat
    decreases rows.len(),
{
    if rows.len() == 0 {
        0
    } else {
        done_count(rows.drop_last()) + if rows.last().done { 1nat } else { 0nat }
    }
}

/// Whether some row has id `id`.
pub open spec fn has_todo(rows: Seq<RowView>, id: i64) -> bool {
    exists|i: int| 0 <= i < rows.len() && rows[i].id == id
}

/// The rows with the row of id `id`, if any, marked done.
pub open spec fn mark_done(rows: Seq<RowView>, id: i64) -> Seq<RowView> {
    rows.map_values(
        |r: RowView|
            if r.id == id {
                RowView { done: true, ..r }
            } else {
                r
            },
    )
}

impl StoreView {
    /// Identifiers are positive, ascending along each table, and at most the last one handed out.
    pub open spec fn wf(self) -> bool {
        &&& 0 <= self.last_todo_id
        &&& 0 <= self.last_category_id
        &&& self.todos.len() <= self.last_todo_id
        &&& forall|i: int, j: int|
            0 <= i < j < self.todos.len() ==> #[trigger] self.todos[i].id
                < #[trigger] self.todos[j].id
        &&& forall|i: int|
            0 <= i < self.todos.len() ==> 1 <= #[trigger] self.todos[i].id && self.todos[i].id
                <= self.last_todo_id
        &&& forall|i: int, j: int|
            0 <= i < j < self.categories.len() ==> #[trigger] self.categories[i].id
                < #[trigger] self.categories[j].id
        &&& forall|i: int|
            0 <= i < self.categories.len() ==> 1 <= #[trigger] self.categories[i].id
                && self.categories[i].id <= self.last_category_id
    }

    /// The store after inserting a category named `name`.
    pub open spec fn with_category(self, name: Seq<char>) -> StoreView {
        let id = (self.last_category_id + 1) as i64;
        StoreView {
            categories: self.categories.push(CategoryView { id, name }),
            last_category_id: id,
            ..self
        }
    }

    /// Whether adding a todo in category `c` has to create that category.
    pub open spec fn needs_category(self, c: Option<Seq<char>>) -> bool {
        match c {
            Some(name) => find_category(self.categories, name) is None,
            None => false,
        }
    }

    /// Find-or-create: the store after resolving `c`, and the category id to use.
    pub open spec fn resolve(self, c: Option<Seq<char>>) -> (StoreView, Option<i64>) {
        match c {
            None => (self, None),
            Some(name) => match find_category(self.categories, name) {
                Some(id) => (self, Some(id)),
                None => (self.with_category(name), Some((self.last_category_id + 1) as i64)),
            },
        }
    }

    /// The error that adding a todo in category `c` meets, if any.
    pub open spec fn add_todo_error(self, c: Option<Seq<char>>) -> Option<StoreError> {
        if self.needs_category(c) && self.last_category_id == i64::MAX {
            Some(StoreError::CategoryIdsExhausted)
        } else if self.last_todo_id == i64::MAX {
            Some(StoreError::TodoIdsExhausted)
        } else {
            None
        }
    }

    /// The store after adding a todo described `d` in category `c`.
    pub open spec fn after_add_todo(self, d: Seq<char>, c: Option<Seq<char>>) -> StoreView {
        let (s, cid) = self.resolve(c);
        let id = (self.last_todo_id + 1) as i64;
        StoreView {
            todos: s.todos.push(RowView { id, description: d, done: false, category_id: cid }),
            last_todo_id: id,
            ..s
        }
    }

    /// The todo that adding `d` in category `c` creates.
    pub open spec fn added_todo(self, d: Seq<char>, c: Option<Seq<char>>) -> TodoView {
        TodoView {
            id: (self.last_todo_id + 1) as i64,
            description: d,
            done: false,
            category_name: c,
        }
    }

    /// The store after marking todo `id` done.
    pub open spec fn after_complete(self, id: i64) -> StoreView {
        StoreView { todos: mark_done(self.todos, id), ..self }
    }

    /// The store after deleting the todos that are done.
    pub open spec fn after_delete_done(self) -> StoreView {
        StoreView { todos: undone(self.todos), ..self }
    }

    /// The todos in ascending id order, filtered by category name.
    pub open spec fn listing(self, filter: Option<Seq<char>>) -> Seq<TodoView> {
        listed(self.categories, self.todos, filter)
    }
}

/// The todos and categories tables.
pub struct Store {
    todos: Vec<TodoRow>,
    categories: Vec<Category>,
    last_todo_id: i64,
    last_category_id: i64,
}

impl View for Store {
    type V = StoreView;

    closed spec fn view(&self) -> StoreView {
        StoreView {
            todos: self.todos@.map_values(|r: TodoRow| r@),
            categories: self.categories@.map_values(|c: Category| c@),
            last_todo_id: self.last_todo_id,
            last_category_id: self.last_category_id,
        }
    }
}

impl Store {
    /// The store's identifiers obey [`StoreView::wf`].
    pub open spec fn wf(&self) -> bool {
        self@.wf()
    }

    /// An empty store: no rows, and no identifier handed out yet.
    pub fn new() -> (r: Store)
        ensures
            r.wf(),
            r@.todos.len() == 0,
            r@.categories.len() == 0,
            r@.last_todo_id == 0,
            r@.last_category_id == 0,
    {
        let r = Store { todos: Vec::new(), categories: Vec::new(), last_todo_id: 0, last_category_id: 0 };
        assert(r@.todos =~= Seq::empty());
        assert(r@.categories =~= Seq::empty());
        r
    }
}

/// Whether the todo rows have ascending ids between 1 and `last`.
fn todo_ids_valid(rows: &Vec<TodoRow>, last: i64) -> (r: bool)
    ensures
        r == ((forall|i: int, j: int|
            0 <= i < j < rows@.len() ==> #[trigger] rows@[i].id < #[trigger] rows@[j].id)
            && (forall|i: int|
            0 <= i < rows@.len() ==> 1 <= #[trigger] rows@[i].id && rows@[i].id <= last)),
{
    let mut i: usize = 0;
    while i < rows.len()
        invariant
            0 <= i <= rows@.len(),
            forall|a: int, b: int| 0 <= a < b < i ==> #[trigger] rows@[a].id < #[trigger] rows@[b].id,
            forall|a: int| 0 <= a < i ==> 1 <= #[trigger] rows@[a].id && rows@[a].id <= last,
        decreases rows@.len() - i,
    {
        let id = rows[i].id;
        if id < 1 || id > last {
            return false;
        }
        if i > 0 && rows[i - 1].id >= id {
            assert(!(rows@[i - 1].id < rows@[i as int].id));
            return false;
        }
        assert forall|a: int, b: int| 0 <= a < b < i + 1 implies #[trigger] rows@[a].id
            < #[trigger] rows@[b].id by {
            if b == i && a < i - 1 {
                assert(rows@[a].id < rows@[i - 1].id);
            }
        }
        i += 1;
    }
    true
}

/// Whether the category rows have ascending ids between 1 and `last`.
fn category_ids_valid(rows: &Vec<Category>, last: i64) -> (r: bool)
    ensures
        r == ((forall|i: int, j: int|
            0 <= i < j < rows@.len() ==> #[trigger] rows@[i].id < #[trigger] rows@[j].id)
            && (forall|i: int|
            0 <= i < rows@.len() ==> 1 <= #[trigger] rows@[i].id && rows@[i].id <= last)),
{
    let mut i: usize = 0;
    while i < rows.len()
        invariant
            0 <= i <= rows@.len(),
            forall|a: int, b: int| 0 <= a < b < i ==> #[trigger] rows@[a].id < #[trigger] rows@[b].id,
            forall|a: int| 0 <= a < i ==> 1 <= #[trigger] rows@[a].id && rows@[a].id <= last,
        decreases rows@.len() - i,
    {
        let id = rows[i].id;
        if id < 1 || id > last {
            return false;
        }
        if i > 0 && rows[i - 1].id >= id {
            assert(!(rows@[i - 1].id < rows@[i as int].id));
            return false;
        }
        assert forall|a: int, b: int| 0 <= a < b < i + 1 implies #[trigger] rows@[a].id
            < #[trigger] rows@[b].id by {
            if b == i && a < i - 1 {
                assert(rows@[a].id < rows@[i - 1].id);
            }
        }
        i += 1;
    }
    true
}

/// Ascending positive ids, the largest at most `last`, leave room for no more than `last` rows.
proof fn lemma_ascending_ids_bound_len(rows: Seq<RowView>, last: i64)
    requires
        0 <= last,
        forall|i: int, j: int|
            0 <= i < j < rows.len() ==> #[trigger] rows[i].id < #[trigger] rows[j].id,
        forall|i: int| 0 <= i < rows.len() ==> 1 <= #[trigger] rows[i].id && rows[i].id <= last,
    ensures
        rows.len() <= last,
    decreases rows.len(),
{
    if rows.len() > 0 {
        let prev = rows.drop_last();
        assert(1 <= rows[0].id);
        if prev.len() > 0 {
            assert(rows[prev.len() - 1].id < rows[rows.len() - 1].id);
            assert forall|i: int| 0 <= i < prev.len() implies 1 <= #[trigger] prev[i].id
                && prev[i].id <= rows[rows.len() - 1].id - 1 by {
                assert(prev[i] == rows[i]);
                assert(rows[i].id < rows[rows.len() - 1].id);
            }
            assert forall|i: int, j: int| 0 <= i < j < prev.len() implies #[trigger] prev[i].id
                < #[trigger] prev[j].id by {
                assert(rows[i].id < rows[j].id);
            }
            lemma_ascending_ids_bound_len(prev, (rows[rows.len() - 1].id - 1) as i64);
            assert(rows[rows.len() - 1].id <= last);
        }
    }
}

impl Store {
    /// The store made of the given tables, each in ascending id order, and
    /// the last identifier handed out for each; `None` when they do not form
    /// a well-formed store.
    pub fn from_tables(
        todos: Vec<TodoRow>,
        categories: Vec<Category>,
        last_todo_id: i64,
        last_category_id: i64,
    ) -> (r: Option<Store>)
        ensures
            ({
                let v = StoreView {
                    todos: todos@.map_values(|t: TodoRow| t@),
                    categories: categories@.map_values(|c: Category| c@),
                    last_todo_id,
                    last_category_id,
                };
                &&& r is Some <==> v.wf()
                &&& r matches Some(st) ==> st@ == v
            }),
    {
        let ghost v = StoreView {
            todos: todos@.map_values(|t: TodoRow| t@),
            categories: categories@.map_values(|c: Category| c@),
            last_todo_id,
            last_category_id,
        };
        if last_todo_id < 0 || last_category_id < 0 {
            return None;
        }
        let todos_ok = todo_ids_valid(&todos, last_todo_id);
        let categories_ok = category_ids_valid(&categories, last_category_id);
        if !todos_ok {
            proof {
                if exists|i: int, j: int|
                    0 <= i < j < todos@.len() && !(#[trigger] todos@[i].id
                        < #[trigger] todos@[j].id) {
                    let (i, j) = choose|i: int, j: int|
                        0 <= i < j < todos@.len() && !(#[trigger] todos@[i].id
                            < #[trigger] todos@[j].id);
                    assert(!(v.todos[i].id < v.todos[j].id));
                } else {
                    let i = choose|i: int|
                        0 <= i < todos@.len() && !(1 <= #[trigger] todos@[i].id
                            && todos@[i].id <= last_todo_id);
                    assert(!(1 <= v.todos[i].id && v.todos[i].id <= last_todo_id));
                }
            }
            return None;
        }
        if !categories_ok {
            proof {
                if exists|i: int, j: int|
                    0 <= i < j < categories@.len() && !(#[trigger] categories@[i].id
                        < #[trigger] categories@[j].id) {
                    let (i, j) = choose|i: int, j: int|
                        0 <= i < j < categories@.len() && !(#[trigger] categories@[i].id
                            < #[trigger] categories@[j].id);
                    assert(!(v.categories[i].id < v.categories[j].id));
                } else {
                    let i = choose|i: int|
                        0 <= i < categories@.len() && !(1 <= #[trigger] categories@[i].id
                            && categories@[i].id <= last_category_id);
                    assert(!(1 <= v.categories[i].id && v.categories[i].id <= last_category_id));
                }
            }
            return None;
        }
        assert forall|i: int, j: int| 0 <= i < j < v.todos.len() implies #[trigger] v.todos[i].id
            < #[trigger] v.todos[j].id by {
            assert(todos@[i].id < todos@[j].id);
        }
        assert forall|i: int| 0 <= i < v.todos.len() implies 1 <= #[trigger] v.todos[i].id
            && v.todos[i].id <= last_todo_id by {
            assert(1 <= todos@[i].id);
        }
        assert forall|i: int, j: int| 0 <= i < j < v.categories.len() implies
            #[trigger] v.categories[i].id < #[trigger] v.categories[j].id by {
            assert(categories@[i].id < categories@[j].id);
        }
        assert forall|i: int| 0 <= i < v.categories.len() implies 1
            <= #[trigger] v.categories[i].id && v.categories[i].id <= last_category_id by {
            assert(1 <= categories@[i].id);
        }
        proof {
            lemma_ascending_ids_bound_len(v.todos, last_todo_id);
        }
        let st = Store { todos, categories, last_todo_id, last_category_id };
        assert(st@ == v);
        Some(st)
    }

    /// The todos table, in ascending id order.
    pub fn todos(&self) -> (r: &Vec<TodoRow>)
        ensures
            r@.map_values(|t: TodoRow| t@) == self@.todos,
    {
        &self.todos
    }

    /// The categories table, in ascending id order.
    pub fn categories(&self) -> (r: &Vec<Category>)
        ensures
            r@.map_values(|c: Category| c@) == self@.categories,
    {
        &self.categories
    }

    /// The last todo identifier handed out.
    pub fn last_todo_id(&self) -> (r: i64)
        ensures
            r == self@.last_todo_id,
    {
        self.last_todo_id
    }

    /// The last category identifier handed out.
    pub fn last_category_id(&self) -> (r: i64)
        ensures
            r == self@.last_category_id,
    {
        self.last_category_id
    }
}

/// Inserts a category named `name` with the next identifier and returns it.
/// No check is made for another category of the same name.
pub fn add_category(store: &mut Store, name: String) -> (r: Result<Category, StoreError>)
    requires
        old(store).wf(),
    ensures
        final(store).wf(),
        old(store)@.last_category_id == i64::MAX ==> r == Err::<Category, StoreError>(
            StoreError::CategoryIdsExhausted,
        ) && final(store)@ == old(store)@,
        old(store)@.last_category_id < i64::MAX ==> r is Ok && r->Ok_0@ == (CategoryView {
            id: (old(store)@.last_category_id + 1) as i64,
            name: name@,
        }) && final(store)@ == old(store)@.with_category(name@),
{
    if store.last_category_id == i64::MAX {
        return Err(StoreError::CategoryIdsExhausted);
    }
    let id = store.last_category_id + 1;
    let ghost before = store@;
    store.categories.push(Category { id, name: name.clone() });
    store.last_category_id = id;
    assert(store@.categories =~= before.categories.push(CategoryView { id, name: name@ }));
    assert(store@ == before.with_category(name@));
    Ok(Category { id, name })
}

/// The id of the first category whose name is exactly `name`, if any.
pub fn get_category_id(store: &Store, name: String) -> (r: Option<i64>)
    ensures
        r == find_category(store@.categories, name@),
{
    let ghost cats = store@.categories;
    let mut i: usize = 0;
    assert(cats.subrange(0, cats.len() as int) =~= cats);
    while i < store.categories.len()
        invariant
            0 <= i <= store.categories@.len(),
            cats == store@.categories,
            cats.len() == store.categories@.len(),
            find_category(cats, name@) == find_category(cats.subrange(i as int, cats.len() as int), name@),
        decreases store.categories@.len() - i,
    {
        let ghost rest = cats.subrange(i as int, cats.len() as int);
        assert(rest[0] == cats[i as int]);
        if store.categories[i].name == name {
            return Some(store.categories[i].id);
        }
        assert(rest.drop_first() =~= cats.subrange(i + 1, cats.len() as int));
        i += 1;
    }
    assert(cats.subrange(i as int, cats.len() as int) =~= Seq::<CategoryView>::empty());
    None
}

/// The name of the category with id `id`, if there is one.
fn category_name(store: &Store, id: i64) -> (r: Option<String>)
    ensures
        opt_str_view(r) == category_name_of(store@.categories, id),
{
    let ghost cats = store@.categories;
    let mut i: usize = 0;
    assert(cats.subrange(0, cats.len() as int) =~= cats);
    while i < store.categories.len()
        invariant
            0 <= i <= store.categories@.len(),
            cats == store@.categories,
            cats.len() == store.categories@.len(),
            category_name_of(cats, id) == category_name_of(
                cats.subrange(i as int, cats.len() as int),
                id,
            ),
        decreases store.categories@.len() - i,
    {
        let ghost rest = cats.subrange(i as int, cats.len() as int);
        assert(rest[0] == cats[i as int]);
        if store.categories[i].id == id {
            return Some(store.categories[i].name.clone());
        }
        assert(rest.drop_first() =~= cats.subrange(i + 1, cats.len() as int));
        i += 1;
    }
    assert(cats.subrange(i as int, cats.len() as int) =~= Seq::<CategoryView>::empty());
    None
}

/// The todo that `row` shows, with its category's name.
fn joined_todo(store: &Store, row: &TodoRow) -> (r: Todo)
    ensures
        r@ == joined(store@.categories, row@),
{
    let category_name = match row.category_id {
        Some(cid) => category_name(store, cid),
        None => None,
    };
    Todo { id: row.id, description: row.description.clone(), done: row.done, category_name }
}

/// Adds a todo described `description`, not done, in the category named
/// `category` if one is given: the category is looked up by name and created
/// when absent.  On an error the store is left as it was.
pub fn add_todo(store: &mut Store, description: String, category: Option<String>) -> (r: Result<
    Todo,
    StoreError,
>)
    requires
        old(store).wf(),
    ensures
        final(store).wf(),
        match old(store)@.add_todo_error(opt_str_view(category)) {
            Some(e) => r == Err::<Todo, StoreError>(e) && final(store)@ == old(store)@,
            None => r is Ok && r->Ok_0@ == old(store)@.added_todo(
                description@,
                opt_str_view(category),
            ) && final(store)@ == old(store)@.after_add_todo(
                description@,
                opt_str_view(category),
            ),
        },
{
    let ghost before = store@;
    let ghost c = opt_str_view(category);
    let found = match &category {
        Some(name) => get_category_id(store, name.clone()),
        None => None,
    };
    if category.is_some() && found.is_none() && store.last_category_id == i64::MAX {
        return Err(StoreError::CategoryIdsExhausted);
    }
    if store.last_todo_id == i64::MAX {
        return Err(StoreError::TodoIdsExhausted);
    }
    let category_id = match &category {
        Some(name) => match found {
            Some(cid) => Some(cid),
            None => match add_category(store, name.clone()) {
                Ok(created) => Some(created.id),
                Err(e) => {
                    return Err(e);
                },
            },
        },
        None => None,
    };
    let ghost mid = store@;
    assert(before.resolve(c) == (mid, category_id));
    let id = store.last_todo_id + 1;
    store.todos.push(TodoRow { id, description: description.clone(), done: false, category_id });
    store.last_todo_id = id;
    assert(store@.todos =~= mid.todos.push(
        RowView { id, description: description@, done: false, category_id },
    ));
    assert(store@ == before.after_add_todo(description@, c));
    Ok(Todo { id, description, done: false, category_name: category })
}

/// Marks the todo of id `id` done and returns it, joined with its category's
/// name; returns `None`, leaving the store as it was, when there is no such todo.
pub fn complete_todo(store: &mut Store, id: i64) -> (r: Option<Todo>)
    requires
        old(store).wf(),
    ensures
        final(store).wf(),
        final(store)@ == old(store)@.after_complete(id),
        r is Some <==> has_todo(old(store)@.todos, id),
        r is None ==> final(store)@ == old(store)@,
        forall|i: int|
            0 <= i < old(store)@.todos.len() && #[trigger] old(store)@.todos[i].id == id
                ==> r is Some && r->Some_0@ == joined(
                final(store)@.categories,
                final(store)@.todos[i],
            ),
{
    let ghost before = store@;
    let mut i: usize = 0;
    while i < store.todos.len()
        invariant
            0 <= i <= store.todos@.len(),
            store@ == before,
            before == old(store)@,
            before.wf(),
            store.todos@.len() == before.todos.len(),
            forall|k: int| 0 <= k < i ==> #[trigger] before.todos[k].id != id,
        decreases store.todos@.len() - i,
    {
        if store.todos[i].id == id {
            let row = TodoRow {
                id,
                description: store.todos[i].description.clone(),
                done: true,
                category_id: store.todos[i].category_id,
            };
            store.todos.set(i, row);
            assert(before.todos[i as int].id == id);
            assert(store@.todos =~= mark_done(before.todos, id)) by {
                assert forall|k: int| 0 <= k < before.todos.len() && k != i implies
                    #[trigger] before.todos[k].id != id by {
                    if k < i {
                    } else {
                        assert(before.todos[i as int].id < before.todos[k].id);
                    }
                }
            }
            assert(store@ == before.after_complete(id));
            let t = joined_todo(store, &store.todos[i]);
            assert forall|k: int| 0 <= k < before.todos.len() && #[trigger] before.todos[k].id == id
                implies k == i by {
                if k < i {
                } else if k > i {
                    assert(before.todos[i as int].id < before.todos[k].id);
                }
            }
            return Some(t);
        }
        i += 1;
    }
    assert(mark_done(before.todos, id) =~= before.todos);
    None
}

/// The todos in ascending id order, joined with their categories' names;
/// with `Some(name)`, only those whose category is named exactly `name`.
pub fn list_todos(store: &Store, category: Option<String>) -> (r: Vec<Todo>)
    requires
        store.wf(),
    ensures
        r@.map_values(|t: Todo| t@) == store@.listing(opt_str_view(category)),
{
    let ghost cats = store@.categories;
    let ghost rows = store@.todos;
    let ghost filter = opt_str_view(category);
    let mut out: Vec<Todo> = Vec::new();
    let mut i: usize = 0;
    assert(rows.take(0) =~= Seq::<RowView>::empty());
    assert(out@.map_values(|t: Todo| t@) =~= Seq::<TodoView>::empty());
    while i < store.todos.len()
        invariant
            0 <= i <= store.todos@.len(),
            cats == store@.categories,
            rows == store@.todos,
            rows.len() == store.todos@.len(),
            filter == opt_str_view(category),
            out@.map_values(|t: Todo| t@) == listed(cats, rows.take(i as int), filter),
        decreases store.todos@.len() - i,
    {
        let t = joined_todo(store, &store.todos[i]);
        let keep = match &category {
            None => true,
            Some(name) => match &t.category_name {
                Some(n) => n.eq(name),
                None => false,
            },
        };
        assert(rows.take(i + 1).drop_last() =~= rows.take(i as int));
        assert(rows.take(i + 1).last() == rows[i as int]);
        assert(keep == selected(cats, rows[i as int], filter));
        let ghost prev = out@;
        if keep {
            out.push(t);
            assert(out@.map_values(|t: Todo| t@) =~= prev.map_values(|t: Todo| t@).push(t@));
        }
        i += 1;
    }
    assert(rows.take(i as int) =~= rows);
    out
}

/// Deletes every todo that is done and returns how many were deleted.
pub fn delete_done_todos(store: &mut Store) -> (r: i64)
    requires
        old(store).wf(),
    ensures
        final(store).wf(),
        final(store)@ == old(store)@.after_delete_done(),
        r == done_count(old(store)@.todos),
{
    let ghost before = store@;
    let ghost rows = before.todos;
    let mut kept: Vec<TodoRow> = Vec::new();
    let mut count: i64 = 0;
    let mut i: usize = 0;
    assert(rows.take(0) =~= Seq::<RowView>::empty());
    assert(kept@.map_values(|r: TodoRow| r@) =~= Seq::<RowView>::empty());
    while i < store.todos.len()
        invariant
            0 <= i <= store.todos@.len(),
            store@ == before,
            before == old(store)@,
            before.wf(),
            rows == before.todos,
            rows.len() == store.todos@.len(),
            kept@.map_values(|r: TodoRow| r@) == undone(rows.take(i as int)),
            count == done_count(rows.take(i as int)),
            count + kept@.len() == i,
            forall|a: int, b: int|
                0 <= a < b < kept@.len() ==> #[trigger] kept@[a].id < #[trigger] kept@[b].id,
            forall|a: int|
                0 <= a < kept@.len() ==> 1 <= #[trigger] kept@[a].id && kept@[a].id
                    <= before.last_todo_id,
            i < rows.len() ==> forall|a: int|
                0 <= a < kept@.len() ==> #[trigger] kept@[a].id < rows[i as int].id,
        decreases store.todos@.len() - i,
    {
        assert(rows.take(i + 1).drop_last() =~= rows.take(i as int));
        assert(rows.take(i + 1).last() == rows[i as int]);
        let ghost prev = kept@;
        if store.todos[i].done {
            count = count + 1;
        } else {
            let row = &store.todos[i];
            kept.push(
                TodoRow {
                    id: row.id,
                    description: row.description.clone(),
                    done: row.done,
                    category_id: row.category_id,
                },
            );
            assert(kept@.map_values(|r: TodoRow| r@) =~= prev.map_values(|r: TodoRow| r@).push(
                rows[i as int],
            ));
        }
        if i + 1 < store.todos.len() {
            assert(rows[i as int].id < rows[i + 1].id);
        }
        i += 1;
    }
    assert(rows.take(i as int) =~= rows);
    store.todos = kept;
    assert(store@.todos =~= undone(rows));
    assert(store@ == before.after_delete_done());
    count
}

} // verus!

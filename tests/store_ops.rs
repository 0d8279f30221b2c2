use rtask::record::{Category, Todo};
use rtask::store::{
    add_category, add_todo, complete_todo, delete_done_todos, get_category_id, list_todos, Store,
    StoreError, TodoRow,
};

fn todo(id: i64, description: &str, done: bool, category: Option<&str>) -> Todo {
    Todo {
        id,
        description: description.to_string(),
        done,
        category_name: category.map(|c| c.to_string()),
    }
}

#[test]
fn end_to_end_buy_milk() {
    let mut store = Store::new();
    let added = add_todo(&mut store, "buy milk".to_string(), Some("groceries".to_string())).unwrap();
    assert_eq!(added, todo(1, "buy milk", false, Some("groceries")));
    assert_eq!(list_todos(&store, None), vec![todo(1, "buy milk", false, Some("groceries"))]);
    let completed = complete_todo(&mut store, 1).unwrap();
    assert_eq!(completed, todo(1, "buy milk", true, Some("groceries")));
    assert_eq!(delete_done_todos(&mut store), 1);
    assert_eq!(list_todos(&store, None), vec![]);
}

#[test]
fn added_todo_is_listed_in_its_category_and_overall() {
    let mut store = Store::new();
    add_todo(&mut store, "walk".to_string(), None).unwrap();
    let t = add_todo(&mut store, "bread".to_string(), Some("shop".to_string())).unwrap();
    assert_eq!(t.id, 2);
    let in_shop = list_todos(&store, Some("shop".to_string()));
    assert_eq!(in_shop, vec![todo(2, "bread", false, Some("shop"))]);
    let all = list_todos(&store, None);
    assert_eq!(all, vec![todo(1, "walk", false, None), todo(2, "bread", false, Some("shop"))]);
}

#[test]
fn empty_description_is_accepted() {
    let mut store = Store::new();
    let t = add_todo(&mut store, String::new(), None).unwrap();
    assert_eq!(t, todo(1, "", false, None));
    assert_eq!(t.render(), "- [ ] 1: ");
}

#[test]
fn complete_marks_done_and_missing_id_changes_nothing() {
    let mut store = Store::new();
    add_todo(&mut store, "a".to_string(), None).unwrap();
    add_todo(&mut store, "b".to_string(), Some("x".to_string())).unwrap();
    assert_eq!(complete_todo(&mut store, 7), None);
    assert_eq!(store.todos().len(), 2);
    assert!(store.todos().iter().all(|r| !r.done));
    let done = complete_todo(&mut store, 2).unwrap();
    assert_eq!(done, todo(2, "b", true, Some("x")));
    assert_eq!(
        list_todos(&store, None),
        vec![todo(1, "a", false, None), todo(2, "b", true, Some("x"))]
    );
    assert_eq!(complete_todo(&mut store, 2), Some(todo(2, "b", true, Some("x"))));
}

#[test]
fn delete_done_removes_only_done_and_second_call_is_zero() {
    let mut store = Store::new();
    for d in ["a", "b", "c", "d"] {
        add_todo(&mut store, d.to_string(), None).unwrap();
    }
    complete_todo(&mut store, 1).unwrap();
    complete_todo(&mut store, 3).unwrap();
    assert_eq!(delete_done_todos(&mut store), 2);
    assert_eq!(list_todos(&store, None), vec![todo(2, "b", false, None), todo(4, "d", false, None)]);
    assert_eq!(delete_done_todos(&mut store), 0);
    let e = add_todo(&mut store, "e".to_string(), None).unwrap();
    assert_eq!(e.id, 5);
}

#[test]
fn delete_done_on_empty_store_is_zero() {
    let mut store = Store::new();
    assert_eq!(delete_done_todos(&mut store), 0);
}

#[test]
fn same_new_category_is_created_once() {
    let mut store = Store::new();
    add_todo(&mut store, "milk".to_string(), Some("groceries".to_string())).unwrap();
    add_todo(&mut store, "eggs".to_string(), Some("groceries".to_string())).unwrap();
    assert_eq!(store.categories(), &vec![Category { id: 1, name: "groceries".to_string() }]);
    let rows = store.todos();
    assert_eq!(rows[0].category_id, Some(1));
    assert_eq!(rows[1].category_id, Some(1));
    assert_eq!(get_category_id(&store, "groceries".to_string()), Some(1));
}

#[test]
fn unknown_category_lists_nothing() {
    let mut store = Store::new();
    add_todo(&mut store, "milk".to_string(), Some("groceries".to_string())).unwrap();
    add_todo(&mut store, "walk".to_string(), None).unwrap();
    assert_eq!(list_todos(&store, Some("work".to_string())), vec![]);
    assert_eq!(list_todos(&store, Some("Groceries".to_string())), vec![]);
}

#[test]
fn category_lookup_and_creation() {
    let mut store = Store::new();
    assert_eq!(get_category_id(&store, "home".to_string()), None);
    let c = add_category(&mut store, "home".to_string()).unwrap();
    assert_eq!(c, Category { id: 1, name: "home".to_string() });
    let d = add_category(&mut store, "home".to_string()).unwrap();
    assert_eq!(d.id, 2);
    assert_eq!(get_category_id(&store, "home".to_string()), Some(1));
    let t = add_todo(&mut store, "sweep".to_string(), Some("home".to_string())).unwrap();
    assert_eq!(store.todos()[0].category_id, Some(1));
    assert_eq!(t.category_name, Some("home".to_string()));
}

#[test]
fn todo_ids_exhausted_leaves_store_unchanged() {
    let mut store = Store::from_tables(vec![], vec![], i64::MAX, 0).unwrap();
    let r = add_todo(&mut store, "x".to_string(), Some("new".to_string()));
    assert_eq!(r, Err(StoreError::TodoIdsExhausted));
    assert!(store.categories().is_empty());
    assert_eq!(store.last_category_id(), 0);
}

#[test]
fn category_ids_exhausted() {
    let cats = vec![Category { id: i64::MAX, name: "old".to_string() }];
    let mut store = Store::from_tables(vec![], cats, 0, i64::MAX).unwrap();
    let r = add_todo(&mut store, "x".to_string(), Some("new".to_string()));
    assert_eq!(r, Err(StoreError::CategoryIdsExhausted));
    assert!(store.todos().is_empty());
    assert_eq!(add_category(&mut store, "y".to_string()), Err(StoreError::CategoryIdsExhausted));
    let ok = add_todo(&mut store, "x".to_string(), Some("old".to_string())).unwrap();
    assert_eq!(ok, todo(1, "x", false, Some("old")));
}

#[test]
fn from_tables_checks_ids() {
    let row = |id: i64| TodoRow { id, description: "t".to_string(), done: false, category_id: None };
    assert!(Store::from_tables(vec![row(1), row(3)], vec![], 3, 0).is_some());
    assert!(Store::from_tables(vec![row(3), row(1)], vec![], 3, 0).is_none());
    assert!(Store::from_tables(vec![row(1), row(1)], vec![], 3, 0).is_none());
    assert!(Store::from_tables(vec![row(1), row(4)], vec![], 3, 0).is_none());
    assert!(Store::from_tables(vec![row(0)], vec![], 3, 0).is_none());
    assert!(Store::from_tables(vec![], vec![], -1, 0).is_none());
    let cat = |id: i64| Category { id, name: "c".to_string() };
    assert!(Store::from_tables(vec![], vec![cat(2), cat(2)], 0, 5).is_none());
    assert!(Store::from_tables(vec![], vec![cat(2), cat(5)], 0, 5).is_some());
}

#[test]
fn loaded_store_continues_ids_and_joins_names() {
    let rows = vec![
        TodoRow { id: 2, description: "a".to_string(), done: true, category_id: Some(4) },
        TodoRow { id: 5, description: "b".to_string(), done: false, category_id: Some(9) },
    ];
    let cats = vec![Category { id: 4, name: "work".to_string() }];
    let mut store = Store::from_tables(rows, cats, 6, 4).unwrap();
    assert_eq!(
        list_todos(&store, None),
        vec![todo(2, "a", true, Some("work")), todo(5, "b", false, None)]
    );
    assert_eq!(list_todos(&store, Some("work".to_string())), vec![todo(2, "a", true, Some("work"))]);
    let t = add_todo(&mut store, "c".to_string(), Some("home".to_string())).unwrap();
    assert_eq!(t.id, 7);
    assert_eq!(store.categories()[1], Category { id: 5, name: "home".to_string() });
}

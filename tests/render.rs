use rtask::command::category_filter;
use rtask::record::Todo;

#[test]
fn renders_open_todo_without_category() {
    let t = Todo { id: 12, description: "walk".to_string(), done: false, category_name: None };
    assert_eq!(t.render(), "- [ ] 12: walk");
}

#[test]
fn renders_done_todo_with_category() {
    let t = Todo {
        id: 1,
        description: "buy milk".to_string(),
        done: true,
        category_name: Some("groceries".to_string()),
    };
    assert_eq!(t.render(), "- [x] 1: buy milk (category: groceries)");
}

#[test]
fn renders_extreme_ids() {
    let t = Todo { id: 0, description: "z".to_string(), done: false, category_name: None };
    assert_eq!(t.render(), "- [ ] 0: z");
    let t = Todo { id: -305, description: "n".to_string(), done: true, category_name: None };
    assert_eq!(t.render(), "- [x] -305: n");
    let t = Todo { id: i64::MIN, description: String::new(), done: false, category_name: None };
    assert_eq!(t.render(), format!("- [ ] {}: ", i64::MIN));
    let t = Todo { id: i64::MAX, description: "m".to_string(), done: false, category_name: None };
    assert_eq!(t.render(), format!("- [ ] {}: m", i64::MAX));
}

#[test]
fn empty_category_argument_means_no_category() {
    assert_eq!(category_filter(String::new()), None);
    assert_eq!(category_filter("work".to_string()), Some("work".to_string()));
}

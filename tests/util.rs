use scm_engine::util::{NamedArgsList, VariablesSet};

#[test]
fn table_starts_empty() {
    let t: NamedArgsList<i32> = NamedArgsList::new();
    assert_eq!(t.len(), 0);
    assert!(t.is_empty());
    assert_eq!(t.find_by_name("x"), None);
}

#[test]
fn table_overwrites_and_keeps_order() {
    let mut t: NamedArgsList<i32> = NamedArgsList::new();
    t.add_or_assign("a", 1);
    t.add_or_assign("b", 2);
    t.add_or_assign("a", 3);
    assert_eq!(t.len(), 2);
    assert!(!t.is_empty());
    assert_eq!(t.find_by_name("a"), Some(3));
    assert_eq!(t.find_by_name("b"), Some(2));
    assert_eq!(t.get_ith_val(0), 3);
    assert_eq!(t.get_ith_val(1), 2);
    assert_eq!(t.copy_values(), vec![3, 2]);
    let names: Vec<String> = t.iter().map(|e| e.0.clone()).collect();
    assert_eq!(names, vec!["a".to_string(), "b".to_string()]);
}

#[test]
fn scopes_search_most_recent_first() {
    let mut vs: VariablesSet<i32> = VariablesSet::new();
    vs.add_or_assign_var("x", 1);
    vs.add_or_assign_var("y", 2);
    let mut local: NamedArgsList<i32> = NamedArgsList::new();
    local.add_or_assign("x", 10);
    vs.add_set(local);
    assert_eq!(vs.find_var("x"), Some(10));
    assert_eq!(vs.find_var("y"), Some(2));
    vs.add_or_assign_var("z", 7);
    assert_eq!(vs.find_var("z"), Some(7));
    vs.pop_set();
    assert_eq!(vs.find_var("x"), Some(1));
    assert_eq!(vs.find_var("z"), None);
}

#[test]
fn global_table_is_never_popped() {
    let mut vs: VariablesSet<i32> = VariablesSet::new();
    vs.add_or_assign_var("g", 5);
    vs.pop_set();
    assert_eq!(vs.find_var("g"), Some(5));
    vs.add_or_assign_var("g", 6);
    assert_eq!(vs.find_var("g"), Some(6));
    assert_eq!(vs.find_var("missing"), None);
}

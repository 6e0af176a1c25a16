use unformat::{Var, VarHashmap};

#[test]
fn var_table_starts_empty() {
    let table = VarHashmap::new();
    assert!(table.get("x").is_none());
    assert_eq!(table.vars.len(), 0);
}

#[test]
fn var_table_add_and_get() {
    let mut table = VarHashmap::new();
    table.add(Var { value: "x".to_string(), fmt: Some("int".to_string()) });
    table.add(Var { value: "y".to_string(), fmt: None });
    assert_eq!(
        table.get("x"),
        Some(&Var { value: "x".to_string(), fmt: Some("int".to_string()) })
    );
    assert_eq!(table.get("y"), Some(&Var { value: "y".to_string(), fmt: None }));
    assert_eq!(table.get("z"), None);
    assert_eq!(table.vars.len(), 2);
}

#[test]
fn var_table_add_replaces() {
    let mut table = VarHashmap::new();
    table.add(Var { value: "x".to_string(), fmt: Some("int".to_string()) });
    table.add(Var { value: "x".to_string(), fmt: Some("str".to_string()) });
    assert_eq!(
        table.get("x"),
        Some(&Var { value: "x".to_string(), fmt: Some("str".to_string()) })
    );
    assert_eq!(table.vars.len(), 1);
}

#[test]
fn var_clone_is_equal() {
    let v = Var { value: "x".to_string(), fmt: Some("int".to_string()) };
    assert_eq!(v.clone(), v);
}

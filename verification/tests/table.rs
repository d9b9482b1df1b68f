use matrix_ircd::table::{NameSet, Table};

#[test]
fn tables_hold_one_value_for_a_key() {
    let mut table: Table<u8> = Table::new();
    assert_eq!(table.get("a"), None);
    table.insert("a".to_string(), 1);
    table.insert("b".to_string(), 2);
    table.insert("a".to_string(), 3);
    assert_eq!(table.get("a"), Some(&3));
    assert_eq!(table.remove("a"), Some(3));
    assert_eq!(table.remove("a"), None);
    assert_eq!(table.get("b"), Some(&2));
}

#[test]
fn unused_names_count_from_one() {
    let mut names = NameSet::new();
    assert_eq!(names.unused("x".to_string()), "x");
    names.insert("x".to_string());
    assert_eq!(names.unused("x".to_string()), "x[1]");
    names.insert("x[1]".to_string());
    names.insert("x[3]".to_string());
    assert_eq!(names.unused("x".to_string()), "x[2]");
    names.insert("x[2]".to_string());
    assert_eq!(names.unused("x".to_string()), "x[4]");
    assert!(names.contains("x[3]") && !names.contains("x[4]"));
}

use stellatune_plugins::order::{insert_sorted_unique, sort_rows, str_less};

#[test]
fn strings_compare_by_code_point() {
    assert!(str_less("a", "b"));
    assert!(str_less("ab", "abc"));
    assert!(!str_less("abc", "ab"));
    assert!(!str_less("same", "same"));
    assert!(str_less("Z", "a"));
    assert!(str_less("z", "é"));
}

#[test]
fn sorting_keeps_every_row() {
    let rows = vec!["d".to_string(), "b".to_string(), "a".to_string(), "b".to_string()];
    let sorted = sort_rows(rows);
    assert_eq!(sorted, vec!["a".to_string(), "b".to_string(), "b".to_string(), "d".to_string()]);
}

#[test]
fn sorted_set_insertion() {
    let mut set: Vec<String> = Vec::new();
    insert_sorted_unique(&mut set, "m".to_string());
    insert_sorted_unique(&mut set, "a".to_string());
    insert_sorted_unique(&mut set, "z".to_string());
    insert_sorted_unique(&mut set, "m".to_string());
    assert_eq!(set, vec!["a".to_string(), "m".to_string(), "z".to_string()]);
}

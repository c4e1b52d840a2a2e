use church::names::{holds, NameSet};

fn strings(names: &[&str]) -> Vec<String> {
    names.iter().map(|s| s.to_string()).collect()
}

#[test]
fn a_set_holds_each_name_once() {
    let set = NameSet::from(strings(&["b", "a", "b", "c", "a"]));
    assert_eq!(set.len(), 3);
    assert_eq!(set.names(), &strings(&["b", "a", "c"]));
    assert!(set.contains(&"a".to_string()));
    assert!(set.contains(&"c".to_string()));
    assert!(!set.contains(&"d".to_string()));
    assert!(!set.contains(&"".to_string()));
}

#[test]
fn the_empty_set_holds_nothing() {
    for set in [NameSet::new(), NameSet::default(), NameSet::from(vec![])] {
        assert_eq!(set.len(), 0);
        assert!(set.names().is_empty());
        assert!(!set.contains(&"a".to_string()));
    }
}

#[test]
fn a_name_is_put_in_once() {
    let set = NameSet::new().with("a".to_string());
    assert_eq!(set.len(), 1);
    let set = set.with("b".to_string()).with("a".to_string());
    assert_eq!(set.len(), 2);
    assert_eq!(set.names(), &strings(&["a", "b"]));
}

#[test]
fn names_are_found_in_lists() {
    let names = strings(&["x", "y"]);
    assert!(holds(&names, &"x".to_string()));
    assert!(holds(&names, &"y".to_string()));
    assert!(!holds(&names, &"z".to_string()));
    assert!(!holds(&vec![], &"x".to_string()));
}

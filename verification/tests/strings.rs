use hexword::candidates::PotentialStrings;

#[test]
fn string_tree() {
    let mut tree = PotentialStrings::default();
    tree.insert("DOG");
    tree.insert("C");
    tree.insert("CAT");
    tree.insert("CAP");

    let c = tree.iter_or_empty();
    assert!(c.contains(&"C".to_string()));
    assert!(c.contains(&"CAT".to_string()));
}

#[test]
fn untouched_empty_store_stands_for_the_empty_prefix() {
    let tree = PotentialStrings::default();
    assert_eq!(tree.iter_or_empty(), vec![String::new()]);
}

#[test]
fn touched_empty_store_stays_empty() {
    let tree = PotentialStrings { strings: Vec::new(), touched: true };
    assert_eq!(tree.iter_or_empty(), Vec::<String>::new());
}

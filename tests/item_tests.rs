use chat_cli::error::ChatError;
use chat_cli::items::ItemStore;

#[test]
fn first_identifier_is_one_then_max_plus_one() {
    let mut s = ItemStore::new();
    assert_eq!(s.max_id(), 0);
    assert_eq!(s.create("p1".to_string(), "r1".to_string()), 1);
    assert_eq!(s.create("p2".to_string(), "r2".to_string()), 2);
    assert_eq!(s.create("p3".to_string(), "r3".to_string()), 3);
    assert_eq!(s.delete(2), Ok(()));
    assert_eq!(s.create("p4".to_string(), "r4".to_string()), 4);
    assert_eq!(s.delete(4), Ok(()));
    assert_eq!(s.create("p5".to_string(), "r5".to_string()), 4);
}

#[test]
fn update_of_missing_identifier_changes_nothing() {
    let mut s = ItemStore::new();
    s.create("p".to_string(), "r".to_string());
    assert_eq!(s.update(7, "x".to_string(), "y".to_string()), Err(ChatError::NotFound));
    assert_eq!(s.len(), 1);
    assert_eq!(s.items()[0].prompt, "p");
    assert_eq!(s.items()[0].response, "r");
}

#[test]
fn update_replaces_in_place() {
    let mut s = ItemStore::new();
    s.create("p1".to_string(), "r1".to_string());
    s.create("p2".to_string(), "r2".to_string());
    assert_eq!(s.update(1, "x".to_string(), "y".to_string()), Ok(()));
    assert_eq!(s.items()[0].id, 1);
    assert_eq!(s.items()[0].prompt, "x");
    assert_eq!(s.items()[0].response, "y");
    assert_eq!(s.items()[1].prompt, "p2");
}

#[test]
fn delete_of_missing_identifier_changes_nothing() {
    let mut s = ItemStore::new();
    assert_eq!(s.delete(1), Err(ChatError::NotFound));
    s.create("p".to_string(), "r".to_string());
    assert_eq!(s.delete(5), Err(ChatError::NotFound));
    assert_eq!(s.len(), 1);
}

#[test]
fn delete_removes_one_and_keeps_order() {
    let mut s = ItemStore::new();
    for k in 0..4 {
        s.create(format!("p{}", k), format!("r{}", k));
    }
    assert_eq!(s.delete(2), Ok(()));
    let ids: Vec<u64> = s.items().iter().map(|i| i.id).collect();
    assert_eq!(ids, vec![1, 3, 4]);
    assert_eq!(s.items()[1].prompt, "p2");
}

use lsha::walk::Walk;

#[test]
fn walk_is_depth_first_in_listing_order() {
    let mut w = Walk::new("r".to_string());
    assert_eq!(Some("r".to_string()), w.next_dir());
    w.schedule(vec!["r/a".to_string(), "r/b".to_string()]);
    assert_eq!(Some("r/a".to_string()), w.next_dir());
    w.schedule(vec!["r/a/x".to_string()]);
    assert_eq!(Some("r/a/x".to_string()), w.next_dir());
    w.schedule(Vec::new());
    assert_eq!(Some("r/b".to_string()), w.next_dir());
    assert_eq!(None, w.next_dir());
    assert_eq!(None, w.next_dir());
}

#[test]
fn test_basic() {
    assert_eq!(2 + 2, 4);
}

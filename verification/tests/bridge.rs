use by2_build::ccore_add;

#[test]
fn test_ccore_add() {
    let r = ccore_add(2, 3);
    assert_eq!(r, 5);
}

#[test]
fn ccore_add_negative() {
    assert_eq!(ccore_add(-4, 3), -1);
    assert_eq!(ccore_add(0, 0), 0);
}

use stm32u083c_dk::decimal::decimal_string;

#[test]
fn decimal_renderings() {
    assert_eq!(decimal_string(0), "0");
    assert_eq!(decimal_string(9), "9");
    assert_eq!(decimal_string(10), "10");
    assert_eq!(decimal_string(5000), "5000");
    assert_eq!(decimal_string(u32::MAX), "4294967295");
}

#[test]
fn decimal_matches_std_formatting() {
    for n in [1u32, 12, 305, 65536, 1_000_000, 123_456_789] {
        assert_eq!(decimal_string(n), n.to_string());
    }
}

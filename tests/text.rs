use parquet_viewer::text::{decimal_string, format_rows};

#[test]
fn format_rows_groups_by_thousands() {
    assert_eq!(format_rows(0), "0");
    assert_eq!(format_rows(7), "7");
    assert_eq!(format_rows(999), "999");
    assert_eq!(format_rows(1000), "1,000");
    assert_eq!(format_rows(123456), "123,456");
    assert_eq!(format_rows(1234567), "1,234,567");
    assert_eq!(format_rows(u64::MAX), "18,446,744,073,709,551,615");
}

#[test]
fn decimal_string_matches_display() {
    for n in [0u64, 9, 10, 42, 1000, 65535, 9_876_543_210, u64::MAX] {
        assert_eq!(decimal_string(n), n.to_string());
    }
}

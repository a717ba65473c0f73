use johansen_null_eigenspectra::display_utils::{decimal_string, format_number_with_commas};

#[test]
fn test_format_number_with_commas() {
    assert_eq!(format_number_with_commas(123), "123");
    assert_eq!(format_number_with_commas(1234), "1,234");
    assert_eq!(format_number_with_commas(1234567), "1,234,567");
    assert_eq!(format_number_with_commas(1000000), "1,000,000");
}

#[test]
fn test_format_number_with_commas_edges() {
    assert_eq!(format_number_with_commas(0), "0");
    assert_eq!(format_number_with_commas(999), "999");
    assert_eq!(format_number_with_commas(1000), "1,000");
    assert_eq!(format_number_with_commas(1001), "1,001");
    assert_eq!(format_number_with_commas(100100), "100,100");
    assert_eq!(
        format_number_with_commas(usize::MAX),
        if usize::MAX as u64 == u64::MAX { "18,446,744,073,709,551,615" } else { "4,294,967,295" }
    );
}

#[test]
fn test_decimal_string() {
    assert_eq!(decimal_string(0), "0");
    assert_eq!(decimal_string(7), "7");
    assert_eq!(decimal_string(10), "10");
    assert_eq!(decimal_string(907), "907");
    assert_eq!(decimal_string(4294967295), "4294967295");
}

use diskverify::parse::parse_size;

#[test]
fn recognised_units() {
    assert_eq!(parse_size("1K"), Ok(1024));
    assert_eq!(parse_size("5M"), Ok(5 * 1024 * 1024));
    assert_eq!(parse_size("2G"), Ok(2 * 1024 * 1024 * 1024));
}

#[test]
fn lowercase_units() {
    assert_eq!(parse_size("3k"), Ok(3 * 1024));
    assert_eq!(parse_size("7m"), Ok(7 * 1024 * 1024));
    assert_eq!(parse_size("1g"), Ok(1024 * 1024 * 1024));
}

#[test]
fn leading_plus_is_accepted() {
    assert_eq!(parse_size("+5K"), Ok(5 * 1024));
}

#[test]
fn multi_digit_counts() {
    assert_eq!(parse_size("4096K"), Ok(4096 * 1024));
    assert_eq!(parse_size("0K"), Ok(0));
}

#[test]
fn too_short_is_a_format_error() {
    assert_eq!(parse_size(""), Err("Invalid size format".to_string()));
    assert_eq!(parse_size("5"), Err("Invalid size format".to_string()));
    assert_eq!(parse_size("K"), Err("Invalid size format".to_string()));
}

#[test]
fn bad_numbers_are_rejected() {
    assert_eq!(parse_size("xK"), Err("Invalid number".to_string()));
    assert_eq!(parse_size("1x2K"), Err("Invalid number".to_string()));
    assert_eq!(parse_size("5KB"), Err("Invalid number".to_string()));
    assert_eq!(parse_size("+K"), Err("Invalid number".to_string()));
    assert_eq!(parse_size("-5K"), Err("Invalid number".to_string()));
}

#[test]
fn unknown_units_are_rejected() {
    assert_eq!(parse_size("5X"), Err("Invalid unit (use K, M, or G)".to_string()));
    assert_eq!(parse_size("10"), Err("Invalid unit (use K, M, or G)".to_string()));
}

#[test]
fn oversized_counts_are_rejected() {
    assert_eq!(
        parse_size("99999999999999999999999999K"),
        Err("Invalid number".to_string())
    );
    assert_eq!(
        parse_size("99999999999999999999G"),
        Err("Invalid number".to_string())
    );
}

use hold_guard::size::{parse_size, resolve_low_water, SizeError};

#[test]
fn parses_raw_bytes() {
    assert_eq!(parse_size("1000000"), Ok(1_000_000));
    assert_eq!(parse_size("1000"), Ok(1000));
    assert_eq!(parse_size("0"), Ok(0));
}

#[test]
fn parses_binary_units() {
    assert_eq!(parse_size("4M"), Ok(4 * 1024 * 1024));
    assert_eq!(parse_size("3M"), Ok(3_145_728));
    assert_eq!(parse_size("100M"), Ok(100 * 1024 * 1024));
    assert_eq!(parse_size("1G"), Ok(1024 * 1024 * 1024));
    assert_eq!(parse_size("60G"), Ok(60 * 1024 * 1024 * 1024));
    assert_eq!(parse_size("60GB"), Ok(60 * 1024 * 1024 * 1024));
    assert_eq!(parse_size("10g"), Ok(10 * 1024 * 1024 * 1024));
    assert_eq!(parse_size("2kb"), Ok(2048));
    assert_eq!(parse_size("1T"), Ok(1024u64 * 1024 * 1024 * 1024));
}

#[test]
fn refuses_malformed_sizes() {
    assert_eq!(parse_size(""), Err(SizeError::NoDigits));
    assert_eq!(parse_size("G"), Err(SizeError::NoDigits));
    assert_eq!(parse_size("-5"), Err(SizeError::NoDigits));
    assert_eq!(parse_size("5X"), Err(SizeError::BadUnit));
    assert_eq!(parse_size("5GiB"), Err(SizeError::BadUnit));
    assert_eq!(parse_size("5 G"), Err(SizeError::BadUnit));
    assert_eq!(parse_size("5B"), Err(SizeError::BadUnit));
}

#[test]
fn refuses_sizes_beyond_64_bits() {
    assert_eq!(parse_size("18446744073709551615"), Ok(u64::MAX));
    assert_eq!(parse_size("18446744073709551616"), Err(SizeError::TooLarge));
    assert_eq!(parse_size("16777216T"), Err(SizeError::TooLarge));
    assert_eq!(parse_size("16777215T"), Ok(16_777_215u64 * 1024 * 1024 * 1024 * 1024));
    assert_eq!(parse_size("99999999999999999999999G"), Err(SizeError::TooLarge));
}

#[test]
fn parse_size_round_trips_bytes() {
    for n in [0u64, 1, 9, 10, 512, 999_999_999, 1_000_000_000, u64::MAX] {
        assert_eq!(parse_size(&n.to_string()), Ok(n));
    }
}

#[test]
fn low_water_defaults_to_three_quarters_of_cap() {
    assert_eq!(resolve_low_water(None, 1000), Ok(750));
    assert_eq!(resolve_low_water(None, 7), Ok(5));
    assert_eq!(resolve_low_water(None, u64::MAX), Ok(13_835_058_055_282_163_711));
    assert_eq!(resolve_low_water(Some("500"), 1000), Ok(500));
    assert_eq!(resolve_low_water(Some("3M"), 0), Ok(3 * 1024 * 1024));
    assert_eq!(resolve_low_water(Some("x"), 1000), Err(SizeError::NoDigits));
}

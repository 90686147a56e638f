use copyd::{format_bytes, format_duration, format_size, validate_path, CopydError};
use copyd::util::{u64_to_dec, u64_to_hex};

#[test]
fn test_format_bytes() {
    assert_eq!(format_bytes(512), "512 B");
    assert_eq!(format_bytes(1024), "1.00 KB");
    assert_eq!(format_bytes(1536), "1.50 KB");
    assert_eq!(format_bytes(1048576), "1.00 MB");
}

#[test]
fn test_format_duration() {
    assert_eq!(format_duration(30), "30s");
    assert_eq!(format_duration(90), "1m 30s");
    assert_eq!(format_duration(3661), "1h 1m 1s");
}

#[test]
fn test_format_size_one_decimal() {
    assert_eq!(format_size(512), "512 B");
    assert_eq!(format_size(1536), "1.5 KB");
    assert_eq!(format_size(1048576), "1.0 MB");
}

#[test]
fn test_decimal_and_hex_rendering() {
    assert_eq!(u64_to_dec(0), "0");
    assert_eq!(u64_to_dec(90210), "90210");
    assert_eq!(u64_to_hex(0), "0");
    assert_eq!(u64_to_hex(255), "ff");
    assert_eq!(u64_to_hex(0xdeadbeef), "deadbeef");
}

#[test]
fn test_validate_path_existence() {
    assert!(validate_path("/tmp/present", true).is_ok());
    let err = validate_path("/tmp/absent", false);
    assert!(matches!(err, Err(CopydError::FileNotFound { .. })));
}

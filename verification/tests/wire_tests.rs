use copyd::wire::{dec_bool, dec_str, dec_u32, dec_varint, enc_bool, enc_str, enc_u32, enc_varint};
use copyd::{format_bytes, CheckpointManager, JobCheckpoint};

#[test]
fn test_varint_roundtrip_values() {
    let values: Vec<u64> = vec![0, 1, 127, 128, 300, 16384, u32::MAX as u64, u64::MAX];
    for v in values {
        let mut buf: Vec<u8> = Vec::new();
        enc_varint(&mut buf, v);
        let (decoded, consumed) = dec_varint(&buf, 0).unwrap();
        assert_eq!(decoded, v);
        assert_eq!(consumed, buf.len());
    }
    // the single-byte boundary
    let mut buf: Vec<u8> = Vec::new();
    enc_varint(&mut buf, 127);
    assert_eq!(buf, vec![127]);
    let mut buf: Vec<u8> = Vec::new();
    enc_varint(&mut buf, 128);
    assert_eq!(buf, vec![0x80, 0x01]);
}

#[test]
fn test_primitive_fields_roundtrip() {
    let mut buf: Vec<u8> = Vec::new();
    enc_bool(&mut buf, true);
    enc_bool(&mut buf, false);
    enc_u32(&mut buf, 90210);
    enc_str(&mut buf, &"hole/data".to_string());
    let (b1, p) = dec_bool(&buf, 0).unwrap();
    let (b2, p) = dec_bool(&buf, p).unwrap();
    let (n, p) = dec_u32(&buf, p).unwrap();
    let (s, p) = dec_str(&buf, p).unwrap();
    assert!(b1);
    assert!(!b2);
    assert_eq!(n, 90210);
    assert_eq!(s, "hole/data");
    assert_eq!(p, buf.len());
}

#[test]
fn test_decode_rejects_truncation() {
    let empty: Vec<u8> = Vec::new();
    assert!(dec_varint(&empty, 0).is_none());
    assert!(dec_bool(&empty, 0).is_none());
    // a string announcing more bytes than remain
    let mut buf: Vec<u8> = Vec::new();
    enc_varint(&mut buf, 10);
    buf.push(b'x');
    assert!(dec_str(&buf, 0).is_none());
}

#[test]
fn test_format_bytes_extremes() {
    assert_eq!(format_bytes(0), "0 B");
    assert_eq!(format_bytes(1023), "1023 B");
    assert_eq!(format_bytes(u64::MAX), "16384.00 PB");
}

/// Saving a second record under the same job id replaces the first: equal
/// keys never duplicate.
#[test]
fn test_save_replaces_equal_key() {
    let mut manager = CheckpointManager::new();
    let mut first = JobCheckpoint::new("same".to_string(), "copy".to_string());
    first.total_bytes = 1;
    let mut second = JobCheckpoint::new("same".to_string(), "copy".to_string());
    second.total_bytes = 2;
    manager.save_checkpoint(first);
    manager.save_checkpoint(second);
    assert_eq!(manager.records.len(), 1);
    assert_eq!(manager.load_checkpoint("same").unwrap().total_bytes, 2);
}

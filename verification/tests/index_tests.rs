use revault_cli::index::{
    decode_node, decode_offset, encode_node, encode_offset, encode_record, needs_rehash, record_lengths, stable_hash,
    validate_lengths, validate_part, Node, INITIAL_BUCKETS, MAX_RECORD_PART_BYTES, NODE_BYTES,
};
use revault_cli::messages::Failure;

fn other(r: Failure) -> String {
    match r {
        Failure::Other(t) => t,
        f => panic!("unexpected {f:?}"),
    }
}

#[test]
fn keys_hash_with_fnv1a() {
    assert_eq!(stable_hash(b""), 0xcbf2_9ce4_8422_2325);
    assert_eq!(stable_hash(b"a"), 0xaf63_dc4c_8601_ec8c);
    assert_ne!(stable_hash(b"ab"), stable_hash(b"ba"));
}

#[test]
fn slots_hold_offsets_plus_one() {
    assert_eq!(encode_offset(0), 1);
    assert_eq!(decode_offset(encode_offset(48)), Some(48));
    assert_eq!(decode_offset(0), None);
}

#[test]
fn oversized_records_are_refused() {
    assert!(validate_part(&[0u8; 16]).is_ok());
    let big = vec![0u8; MAX_RECORD_PART_BYTES + 1];
    assert_eq!(other(validate_part(&big).unwrap_err()), "temporary binary index record is too large");
    assert!(validate_lengths(MAX_RECORD_PART_BYTES, 0).is_ok());
    assert_eq!(
        other(validate_lengths(0, MAX_RECORD_PART_BYTES + 1).unwrap_err()),
        "temporary binary index record length is invalid"
    );
}

#[test]
fn buckets_double_at_three_quarters() {
    assert_eq!(INITIAL_BUCKETS, 1024);
    assert!(!needs_rehash(767, 1024));
    assert!(needs_rehash(768, 1024));
    assert!(needs_rehash(u64::MAX, u64::MAX));
}

#[test]
fn nodes_read_back_as_written() {
    let node = Node { hash: 0x0102_0304_0506_0708, record_offset: 96, next: 25 };
    let mut file = vec![0u8; NODE_BYTES as usize];
    file.extend(encode_node(&node));
    assert_eq!(file.len(), 48);
    assert_eq!(decode_node(&file, 24).unwrap(), node);
    assert_eq!(other(decode_node(&file, 5).unwrap_err()), "temporary binary index node offset is invalid");
    assert!(decode_node(&file, 48).is_err());
}

#[test]
fn record_headers_give_the_part_lengths() {
    let record = encode_record(b"key", b"value!");
    assert_eq!(record.len(), 8 + 3 + 6);
    assert_eq!(&record[8..11], b"key");
    assert_eq!(record_lengths(&record, 0).unwrap(), (3, 6));
    let mut bad = record.clone();
    bad[3] = 0x7f;
    assert_eq!(other(record_lengths(&bad, 0).unwrap_err()), "temporary binary index record length is invalid");
    assert!(record_lengths(&record, 12).is_err());
}

use revault_cli::messages::Failure;
use revault_cli::table::BinaryTable;

#[test]
fn grows_and_resolves_binary_keys_without_loading_the_table() {
    let mut table = BinaryTable::create();
    for value in 0..5000_u32 {
        assert!(table.insert_if_absent(&value.to_le_bytes(), &(value * 2).to_le_bytes()).unwrap());
    }
    assert!(!table.insert_if_absent(&123_u32.to_le_bytes(), b"duplicate").unwrap());
    for value in [0_u32, 123, 1024, 4999] {
        assert_eq!(table.get(&value.to_le_bytes()).unwrap(), (value * 2).to_le_bytes());
    }
    assert_eq!(table.records().len(), 5000);
    table.clear();
    assert!(!table.contains(&123_u32.to_le_bytes()));
}

#[test]
fn records_come_back_in_insertion_order() {
    let mut table = BinaryTable::create();
    assert!(table.insert_if_absent(b"b/dir", &[0]).unwrap());
    assert!(table.insert_if_absent(b"a.txt", b"first").unwrap());
    assert!(table.insert_if_absent(b"", b"empty key").unwrap());
    assert!(!table.insert_if_absent(b"a.txt", b"second").unwrap());
    assert_eq!(table.len(), 3);
    assert_eq!(
        table.records(),
        vec![
            (b"b/dir".to_vec(), vec![0]),
            (b"a.txt".to_vec(), b"first".to_vec()),
            (Vec::new(), b"empty key".to_vec()),
        ]
    );
    assert_eq!(table.get(b"a.txt").unwrap(), b"first".to_vec());
    assert_eq!(table.get(b"").unwrap(), b"empty key".to_vec());
    assert!(table.get(b"missing").is_none());
}

#[test]
fn oversized_parts_are_refused() {
    let mut table = BinaryTable::create();
    let big = vec![7_u8; 64 * 1024 * 1024 + 1];
    match table.insert_if_absent(b"key", &big) {
        Err(Failure::Other(m)) => assert_eq!(m, "temporary binary index record is too large"),
        other => panic!("unexpected {other:?}"),
    }
    assert_eq!(table.len(), 0);
}

#[test]
fn insert_if_absent_keeps_the_first_value_and_order() {
    let mut t = BinaryTable::create();
    assert_eq!(t.insert_if_absent(b"k", b"one").ok(), Some(true));
    assert_eq!(t.insert_if_absent(b"j", b"two").ok(), Some(true));
    assert_eq!(t.insert_if_absent(b"k", b"three").ok(), Some(false));
    assert_eq!(t.get(b"k"), Some(b"one".to_vec()));
    assert_eq!(t.get(b"j"), Some(b"two".to_vec()));
    let records = t.records();
    assert_eq!(records, vec![(b"k".to_vec(), b"one".to_vec()), (b"j".to_vec(), b"two".to_vec())]);
}

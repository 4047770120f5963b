use revault_cli::digest::Sha256Hasher;
use revault_cli::messages::{ApiError, Failure};
use revault_cli::records::{
    decode_plan_record, decode_source_record, decode_source_value, encode_source_file, fingerprint, hex_digest,
    parse_sha256, plan_key, platform_identity, read_index_u32, read_index_u64, utf8_string, FileFingerprint,
    FileMetadata, PlanOperation, SourceEntryValue,
};

fn summary(f: Failure) -> String {
    match f {
        Failure::Message(m) => m.summary,
        Failure::Other(t) => format!("other: {t}"),
        Failure::Api(e) => format!("api: {e:?}"),
    }
}

fn digest_hex() -> String {
    hex_digest(&(0..32).map(|i| i * 7).collect::<Vec<u8>>())
}

#[test]
fn source_files_read_back_as_written() {
    let fp = FileFingerprint { len: 1234, modified_nanos: Some(987_654_321_000), digest: digest_hex() };
    let bytes = encode_source_file("/home/alice/notes.txt", &fp).unwrap();
    assert_eq!(bytes.len(), 62 + "/home/alice/notes.txt".len());
    assert_eq!(bytes[0], 1);
    assert_eq!(&bytes[1..9], &1234u64.to_le_bytes());
    match decode_source_value(&bytes).unwrap() {
        SourceEntryValue::File { host_path, fingerprint } => {
            assert_eq!(host_path, "/home/alice/notes.txt");
            assert_eq!(fingerprint, fp);
        }
        other => panic!("unexpected {other:?}"),
    }
}

#[test]
fn unknown_modification_times_are_kept_unknown() {
    let fp = FileFingerprint { len: 0, modified_nanos: None, digest: digest_hex() };
    let bytes = encode_source_file("ünï", &fp).unwrap();
    assert_eq!(bytes[9], 0);
    match decode_source_value(&bytes).unwrap() {
        SourceEntryValue::File { host_path, fingerprint } => {
            assert_eq!(host_path, "ünï");
            assert_eq!(fingerprint.modified_nanos, None);
        }
        other => panic!("unexpected {other:?}"),
    }
}

#[test]
fn bad_checksums_are_refused_when_encoding() {
    let fp = FileFingerprint { len: 1, modified_nanos: None, digest: "abc".to_string() };
    match encode_source_file("x", &fp) {
        Err(Failure::Api(ApiError::InvalidOperation(m))) => {
            assert_eq!(m, "invalid SHA-256 checksum in mirror inventory")
        }
        other => panic!("unexpected {other:?}"),
    }
    let mut bad = "zz".to_string();
    bad.push_str(&"0".repeat(62));
    match parse_sha256(&bad) {
        Err(ApiError::InvalidOperation(m)) => assert_eq!(m, "invalid mirror checksum"),
        other => panic!("unexpected {other:?}"),
    }
    let mut plus = "+a".to_string();
    plus.push_str(&"0".repeat(62));
    assert_eq!(parse_sha256(&plus).unwrap()[0], 10);
}

#[test]
fn damaged_source_records_are_refused() {
    assert!(matches!(decode_source_value(&[0]).unwrap(), SourceEntryValue::Directory));
    assert_eq!(summary(decode_source_value(&[]).unwrap_err()), "temporary mirror index contains an empty record");
    assert_eq!(
        summary(decode_source_value(&[0, 1]).unwrap_err()),
        "temporary mirror index contains an invalid directory record"
    );
    assert_eq!(
        summary(decode_source_value(&[7]).unwrap_err()),
        "temporary mirror index contains an unknown record type"
    );
    assert_eq!(summary(decode_source_value(&[1, 2, 3]).unwrap_err()), "other: failed to fill whole buffer");
    let fp = FileFingerprint { len: 5, modified_nanos: Some(1), digest: digest_hex() };
    let mut bytes = encode_source_file("p", &fp).unwrap();
    bytes[9] = 2;
    assert_eq!(summary(decode_source_value(&bytes).unwrap_err()), "temporary mirror index has invalid file metadata");
    bytes[9] = 1;
    bytes.push(0);
    assert_eq!(
        summary(decode_source_value(&bytes).unwrap_err()),
        "temporary mirror index file record has trailing data"
    );
    bytes.pop();
    let n = bytes.len();
    bytes[n - 1] = 0xff;
    assert_eq!(
        summary(decode_source_value(&bytes).unwrap_err()),
        "temporary mirror index has invalid UTF-8 in source path"
    );
}

#[test]
fn source_records_carry_their_relative_path() {
    let (path, value) = decode_source_record(b"docs/readme".to_vec(), &[0]).unwrap();
    assert_eq!(path, "docs/readme");
    assert!(matches!(value, SourceEntryValue::Directory));
    assert!(decode_source_record(vec![0xc3], &[0]).is_err());
}

#[test]
fn plan_records_read_back_as_written() {
    let key = plan_key(PlanOperation::Replace, "/projects/app/main.rs");
    assert_eq!(key[0], 2);
    let (op, path, value) = decode_plan_record(key, vec![1, 2, 3]).unwrap();
    assert_eq!(op, PlanOperation::Replace);
    assert_eq!(path, "/projects/app/main.rs");
    assert_eq!(value, vec![1, 2, 3]);
    assert_eq!(
        decode_plan_record(Vec::new(), Vec::new()).unwrap_err().summary,
        "temporary mirror plan contains an empty key"
    );
    assert_eq!(
        decode_plan_record(vec![9, b'/'], Vec::new()).unwrap_err().summary,
        "temporary mirror plan has an unknown operation"
    );
    assert_eq!(
        decode_plan_record(vec![1, 0xff], Vec::new()).unwrap_err().summary,
        "temporary mirror index has invalid UTF-8 in lockbox path"
    );
}

#[test]
fn index_integers_are_little_endian() {
    let bytes = [1u8, 2, 3, 4, 5, 6, 7, 8, 9];
    assert_eq!(read_index_u32(&bytes, 0).unwrap(), 0x0403_0201);
    assert_eq!(read_index_u64(&bytes, 1).unwrap(), 0x0908_0706_0504_0302);
    assert!(read_index_u32(&bytes, 6).is_err());
    assert!(read_index_u64(&bytes, 2).is_err());
}

#[test]
fn utf8_text_is_checked() {
    assert_eq!(utf8_string(b"ok".to_vec(), "label").unwrap(), "ok");
    assert_eq!(
        utf8_string(vec![0xff], "label").unwrap_err().summary,
        "temporary mirror index has invalid UTF-8 in label"
    );
}

#[test]
fn digests_are_lower_case_hex() {
    assert_eq!(hex_digest(&[0x00, 0x0a, 0xff]), "000aff");
}

#[test]
fn files_that_change_while_read_are_refused() {
    let before = FileMetadata { len: 3, modified_nanos: Some(10) };
    let mut hasher = Sha256Hasher::new();
    hasher.update(b"a");
    hasher.update(b"bc");
    let fp = fingerprint("a.txt", before, before, hasher).unwrap();
    assert_eq!(
        fp,
        FileFingerprint {
            len: 3,
            modified_nanos: Some(10),
            digest: "ba7816bf8f01cfea414140de5dae2223b00361a396177a9cb410ff61f20015ad".to_string()
        }
    );
    let after = FileMetadata { len: 4, modified_nanos: Some(10) };
    assert_eq!(
        fingerprint("a.txt", before, after, Sha256Hasher::new()).unwrap_err().summary,
        "source file changed while being read: a.txt"
    );
    let later = FileMetadata { len: 3, modified_nanos: None };
    assert!(fingerprint("a.txt", before, later, Sha256Hasher::new()).is_err());
}

#[test]
fn hasher_digests_the_empty_input() {
    let before = FileMetadata { len: 0, modified_nanos: None };
    let fp = fingerprint("e", before, before, Sha256Hasher::new()).unwrap();
    assert_eq!(fp.digest, "e3b0c44298fc1c149afbf4c8996fb92427ae41e4649b934ca495991b7852b855");
}

#[test]
fn unix_identities_name_device_and_inode() {
    assert_eq!(platform_identity(Some((2049, 131_072))).as_deref(), Some("unix:2049:131072"));
    assert_eq!(platform_identity(None), None);
}

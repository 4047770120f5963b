//! The binary records kept in the temporary mirror index while a host
//! directory is compared with a lockbox: source entries, plan keys and the
//! little-endian integers they are made of.

use vstd::prelude::*;
use vstd::utf8::{encode_utf8, valid_utf8};
use crate::text;
use crate::vault;
use crate::digest::Sha256Hasher;
use crate::migrate::sha256_of;
use crate::messages::{ApiError, CliMessage, Failure, cli_error, is_plain_error};

verus! {

/// `256` to the power `n`.
pub open spec fn pow256(n: nat) -> nat
    decreases n,
{
    if n == 0 { 1 } else { 256 * pow256((n - 1) as nat) }
}

/// The `n` little-endian bytes of a value (its low `8 * n` bits).
pub open spec fn le_bytes(v: nat, n: nat) -> Seq<u8>
    decreases n,
{
    if n == 0 {
        Seq::empty()
    } else {
        seq![(v % 256) as u8] + le_bytes(v / 256, (n - 1) as nat)
    }
}

/// The value of little-endian bytes.
pub open spec fn le_value(b: Seq<u8>) -> nat
    decreases b.len(),
{
    if b.len() == 0 { 0 } else { b[0] as nat + 256 * le_value(b.drop_first()) }
}

pub proof fn lemma_pow256_values()
    ensures
        pow256(4) == 0x1_0000_0000,
        pow256(8) == 0x1_0000_0000_0000_0000,
        pow256(16) == 0x1_0000_0000_0000_0000_0000_0000_0000_0000,
{
    reveal_with_fuel(pow256, 17);
}

pub proof fn lemma_le_bytes_len(v: nat, n: nat)
    ensures le_bytes(v, n).len() == n,
    decreases n,
{
    if n > 0 {
        lemma_le_bytes_len(v / 256, (n - 1) as nat);
    }
}

pub proof fn lemma_le_value_bound(b: Seq<u8>)
    ensures le_value(b) < pow256(b.len()),
    decreases b.len(),
{
    if b.len() > 0 {
        lemma_le_value_bound(b.drop_first());
        let r = le_value(b.drop_first());
        let p = pow256(b.drop_first().len());
        assert(b[0] as nat + 256 * r < 256 * p) by (nonlinear_arith)
            requires r < p, b[0] < 256;
    }
}

/// Reading back the little-endian bytes of a value gives the value.
pub proof fn lemma_le_round_trip(v: nat, n: nat)
    requires v < pow256(n),
    ensures le_value(le_bytes(v, n)) == v,
    decreases n,
{
    if n > 0 {
        let q = v / 256;
        assert(q < pow256((n - 1) as nat)) by (nonlinear_arith)
            requires v < 256 * pow256((n - 1) as nat), q == v / 256;
        lemma_le_round_trip(q, (n - 1) as nat);
        let b = le_bytes(v, n);
        assert(b.drop_first() =~= le_bytes(q, (n - 1) as nat));
        assert(v == (v % 256) + 256 * q) by (nonlinear_arith)
            requires q == v / 256;
    }
}

/// Appends the `n` little-endian bytes of `v`.
fn push_le(out: &mut Vec<u8>, v: u128, n: usize)
    requires n <= 16,
    ensures final(out)@ == old(out)@ + le_bytes(v as nat, n as nat),
{
    let ghost before = old(out)@;
    let mut rest = v;
    let mut i: usize = 0;
    assert(before + le_bytes(v as nat, n as nat) =~= out@ + le_bytes(rest as nat, (n - i) as nat));
    while i < n
        invariant
            i <= n,
            before + le_bytes(v as nat, n as nat) == out@ + le_bytes(rest as nat, (n - i) as nat),
        decreases n - i,
    {
        let ghost tail = le_bytes(rest as nat, (n - i) as nat);
        out.push((rest % 256) as u8);
        assert(tail == seq![(rest % 256) as u8] + le_bytes((rest / 256) as nat, (n - i - 1) as nat));
        rest = rest / 256;
        i = i + 1;
        assert(before + le_bytes(v as nat, n as nat) =~= out@ + le_bytes(rest as nat, (n - i) as nat));
    }
    assert(out@ =~= out@ + le_bytes(rest as nat, 0));
}

/// The value of the `n` little-endian bytes of `b` that start at `at`.
fn read_le(b: &[u8], at: usize, n: usize) -> (r: u128)
    requires
        n <= 16,
        at + n <= b@.len(),
    ensures r as nat == le_value(b@.subrange(at as int, at + n)),
{
    let blen = b.len();
    let mut value: u128 = 0;
    let mut k: usize = n;
    proof { reveal_with_fuel(pow256, 2); }
    while k > 0
        invariant
            k <= n <= 16,
            at + n <= b@.len(),
            blen == b@.len(),
            value as nat == le_value(b@.subrange(at + k, at + n)),
            (value as nat) < pow256((n - k) as nat),
        decreases k,
    {
        let ghost suffix = b@.subrange(at + k, at + n);
        let ghost longer = b@.subrange(at + k - 1, at + n);
        assert(longer.drop_first() =~= suffix);
        proof {
            lemma_pow256_values();
            lemma_pow_monotone((n - k + 1) as nat, 16);
        }
        let byte = b[at + k - 1];
        assert(value * 256 + byte < pow256((n - k + 1) as nat)) by (nonlinear_arith)
            requires value < pow256((n - k) as nat), byte < 256,
                pow256((n - k + 1) as nat) == 256 * pow256((n - k) as nat);
        value = value * 256 + byte as u128;
        k = k - 1;
    }
    value
}

proof fn lemma_pow_monotone(a: nat, b: nat)
    requires a <= b,
    ensures pow256(a) <= pow256(b),
    decreases b,
{
    if a < b {
        lemma_pow_monotone(a, (b - 1) as nat);
    }
}

/// The failure of a read past the end of a record.
pub open spec fn is_truncated(f: Failure) -> bool {
    f matches Failure::Other(t) && t@ == "failed to fill whole buffer"@
}

fn truncated() -> (f: Failure)
    ensures is_truncated(f),
{
    Failure::Other(text::owned("failed to fill whole buffer"))
}

/// Reads a little-endian `u32` at a position of an index record.
pub fn read_index_u32(input: &[u8], at: usize) -> (r: Result<u32, Failure>)
    ensures
        at + 4 <= input@.len() ==> (r matches Ok(v) && v as nat == le_value(input@.subrange(at as int, at + 4))),
        at + 4 > input@.len() ==> (r matches Err(f) && is_truncated(f)),
{
    if at > input.len() || input.len() - at < 4 {
        return Err(truncated());
    }
    let v = read_le(input, at, 4);
    proof {
        lemma_le_value_bound(input@.subrange(at as int, at + 4));
        lemma_pow256_values();
    }
    Ok(v as u32)
}

/// Reads a little-endian `u64` at a position of an index record.
pub fn read_index_u64(input: &[u8], at: usize) -> (r: Result<u64, Failure>)
    ensures
        at + 8 <= input@.len() ==> (r matches Ok(v) && v as nat == le_value(input@.subrange(at as int, at + 8))),
        at + 8 > input@.len() ==> (r matches Err(f) && is_truncated(f)),
{
    if at > input.len() || input.len() - at < 8 {
        return Err(truncated());
    }
    let v = read_le(input, at, 8);
    proof {
        lemma_le_value_bound(input@.subrange(at as int, at + 8));
        lemma_pow256_values();
    }
    Ok(v as u64)
}

/// Text from UTF-8 bytes (`String::from_utf8`): present exactly when the
/// bytes are valid UTF-8, and then holding those bytes.
#[verifier::external_body]
fn string_from_utf8(bytes: Vec<u8>) -> (r: Option<String>)
    ensures
        r is Some <==> valid_utf8(bytes@),
        r matches Some(s) ==> encode_utf8(s@) == bytes@,
{
    String::from_utf8(bytes).ok()
}

/// The text of UTF-8 bytes, or the refusal naming what they held.
pub fn utf8_string(value: Vec<u8>, label: &str) -> (r: Result<String, CliMessage>)
    ensures
        valid_utf8(value@) ==> (r matches Ok(s) && encode_utf8(s@) == value@),
        !valid_utf8(value@) ==> (r matches Err(m) && is_plain_error(m,
            "temporary mirror index has invalid UTF-8 in "@ + label@)),
{
    match string_from_utf8(value) {
        Some(s) => Ok(s),
        None => Err(cli_error(text::concat2("temporary mirror index has invalid UTF-8 in ", label).as_str())),
    }
}

/// One change of a mirror plan.
#[derive(Clone, Copy, Debug, PartialEq, Eq, Structural)]
pub enum PlanOperation {
    Add,
    Replace,
    Remove,
    MakeDirectory,
}

/// The byte that stands for an operation in a plan key.
pub open spec fn operation_code(op: PlanOperation) -> u8 {
    match op {
        PlanOperation::Add => 1,
        PlanOperation::Replace => 2,
        PlanOperation::Remove => 3,
        PlanOperation::MakeDirectory => 4,
    }
}

/// The plan key of an operation on a lockbox path: the operation's byte, then
/// the path's UTF-8 bytes.
pub open spec fn plan_key_bytes(op: PlanOperation, destination: Seq<char>) -> Seq<u8> {
    seq![operation_code(op)] + encode_utf8(destination)
}

/// The plan key of an operation on a lockbox path.
pub fn plan_key(operation: PlanOperation, destination: &str) -> (r: Vec<u8>)
    ensures r@ == plan_key_bytes(operation, destination@),
{
    let code: u8 = match operation {
        PlanOperation::Add => 1,
        PlanOperation::Replace => 2,
        PlanOperation::Remove => 3,
        PlanOperation::MakeDirectory => 4,
    };
    let mut key: Vec<u8> = Vec::new();
    key.push(code);
    let bytes = destination.as_bytes();
    let n = bytes.len();
    let mut i: usize = 0;
    while i < n
        invariant
            i <= n,
            n == bytes@.len(),
            key@ == seq![code] + bytes@.subrange(0, i as int),
        decreases n - i,
    {
        key.push(bytes[i]);
        i = i + 1;
        assert(key@ =~= seq![code] + bytes@.subrange(0, i as int));
    }
    assert(bytes@.subrange(0, n as int) =~= bytes@);
    key
}

/// The operation that a plan key's first byte stands for.
pub open spec fn operation_of(code: u8) -> Option<PlanOperation> {
    if code == 1 {
        Some(PlanOperation::Add)
    } else if code == 2 {
        Some(PlanOperation::Replace)
    } else if code == 3 {
        Some(PlanOperation::Remove)
    } else if code == 4 {
        Some(PlanOperation::MakeDirectory)
    } else {
        None
    }
}

/// Splits a stored plan record into its operation, its lockbox path and its
/// value.
pub fn decode_plan_record(key: Vec<u8>, value: Vec<u8>) -> (r: Result<(PlanOperation, String, Vec<u8>), CliMessage>)
    ensures
        key@.len() == 0 ==> (r matches Err(m) && is_plain_error(m, "temporary mirror plan contains an empty key"@)),
        key@.len() > 0 && operation_of(key@[0]) is None ==> (r matches Err(m)
            && is_plain_error(m, "temporary mirror plan has an unknown operation"@)),
        key@.len() > 0 && operation_of(key@[0]) is Some ==> {
            let rest = key@.drop_first();
            &&& valid_utf8(rest) ==> (r matches Ok((op, path, v)) && Some(op) == operation_of(key@[0])
                && encode_utf8(path@) == rest && v@ == value@)
            &&& !valid_utf8(rest) ==> (r matches Err(m)
                && is_plain_error(m, "temporary mirror index has invalid UTF-8 in lockbox path"@))
        },
{
    if key.len() == 0 {
        return Err(cli_error("temporary mirror plan contains an empty key"));
    }
    let operation = match key[0] {
        1 => PlanOperation::Add,
        2 => PlanOperation::Replace,
        3 => PlanOperation::Remove,
        4 => PlanOperation::MakeDirectory,
        _ => return Err(cli_error("temporary mirror plan has an unknown operation")),
    };
    let n = key.len();
    let mut rest: Vec<u8> = Vec::new();
    let mut i: usize = 1;
    while i < n
        invariant
            1 <= i <= n,
            n == key@.len(),
            rest@ == key@.subrange(1, i as int),
        decreases n - i,
    {
        rest.push(key[i]);
        i = i + 1;
        assert(rest@ =~= key@.subrange(1, i as int));
    }
    assert(rest@ =~= key@.drop_first());
    proof {
        reveal_strlit("lockbox path");
        reveal_strlit("temporary mirror index has invalid UTF-8 in ");
        reveal_strlit("temporary mirror index has invalid UTF-8 in lockbox path");
        assert("temporary mirror index has invalid UTF-8 in "@ + "lockbox path"@
            =~= "temporary mirror index has invalid UTF-8 in lockbox path"@);
    }
    match utf8_string(rest, "lockbox path") {
        Ok(destination) => Ok((operation, destination, value)),
        Err(m) => Err(m),
    }
}

/// A plan record read back gives the operation, path and value it was stored
/// with.
pub proof fn lemma_plan_key_round_trip(op: PlanOperation, destination: Seq<char>)
    ensures
        plan_key_bytes(op, destination).len() > 0,
        operation_of(plan_key_bytes(op, destination)[0]) == Some(op),
        valid_utf8(plan_key_bytes(op, destination).drop_first()),
        vstd::utf8::decode_utf8(plan_key_bytes(op, destination).drop_first()) == destination,
{
    let k = plan_key_bytes(op, destination);
    assert(k.drop_first() =~= encode_utf8(destination));
    vstd::utf8::encode_utf8_valid_utf8(destination);
    vstd::utf8::encode_utf8_decode_utf8(destination);
}

/// Bytes written as lower-case hex, two digits each.
pub fn hex_digest(bytes: &[u8]) -> (r: String)
    ensures r@ == vault::hex_text(bytes@),
{
    let n = bytes.len();
    let mut out = String::new();
    let mut i: usize = 0;
    while i < n
        invariant
            i <= n,
            n == bytes@.len(),
            out@ == vault::hex_text(bytes@.subrange(0, i as int)),
        decreases n - i,
    {
        let b = bytes[i];
        let high = b / 16;
        let low = b % 16;
        text::push_char(&mut out, if high < 10 { (48 + high) as char } else { (87 + high) as char });
        text::push_char(&mut out, if low < 10 { (48 + low) as char } else { (87 + low) as char });
        i = i + 1;
        assert(out@ =~= vault::hex_text(bytes@.subrange(0, i as int)));
    }
    assert(bytes@.subrange(0, n as int) =~= bytes@);
    out
}

/// The value of a two-byte field read as a base-16 number (`u8::from_str_radix`):
/// two hex digits, or a plus sign and one digit.
pub open spec fn radix16_pair(a: u8, b: u8) -> Option<u8> {
    if a == 43 {
        match vault::hex_value(b) {
            Some(v) => Some(v),
            None => None,
        }
    } else {
        match (vault::hex_value(a), vault::hex_value(b)) {
            (Some(x), Some(y)) => Some((x * 16 + y) as u8),
            _ => None,
        }
    }
}

/// The outcome of reading a SHA-256 checksum from hex text: 32 bytes, or the
/// message of the refusal.
pub open spec fn sha256_parse(value: Seq<char>) -> Result<Seq<u8>, Seq<char>> {
    let b = encode_utf8(value);
    if b.len() != 64 {
        Err("invalid SHA-256 checksum in mirror inventory"@)
    } else if exists|i: int| 0 <= i < 32 && #[trigger] radix16_pair(b[2 * i], b[2 * i + 1]) is None {
        Err("invalid mirror checksum"@)
    } else {
        Ok(Seq::new(32, |i: int| radix16_pair(b[2 * i], b[2 * i + 1])->0))
    }
}

fn radix16(a: u8, b: u8) -> (r: Option<u8>)
    ensures r == radix16_pair(a, b),
{
    if a == 43 {
        match vault::hex_digit(b) {
            Ok(v) => Some(v),
            Err(_) => None,
        }
    } else {
        match (vault::hex_digit(a), vault::hex_digit(b)) {
            (Ok(x), Ok(y)) => Some(x * 16 + y),
            _ => None,
        }
    }
}

/// Reads a SHA-256 checksum written as 64 hex digits.
pub fn parse_sha256(value: &str) -> (r: Result<Vec<u8>, ApiError>)
    ensures
        match sha256_parse(value@) {
            Ok(d) => r matches Ok(v) && v@ == d,
            Err(m) => r matches Err(ApiError::InvalidOperation(e)) && e@ == m,
        },
{
    let bytes = value.as_bytes();
    if bytes.len() != 64 {
        return Err(ApiError::InvalidOperation(text::owned("invalid SHA-256 checksum in mirror inventory")));
    }
    let ghost b = bytes@;
    let mut digest: Vec<u8> = Vec::new();
    let mut index: usize = 0;
    while index < 32
        invariant
            index <= 32,
            b == bytes@,
            b.len() == 64,
            b == encode_utf8(value@),
            digest@.len() == index,
            forall|i: int| 0 <= i < index ==> #[trigger] radix16_pair(b[2 * i], b[2 * i + 1]) == Some(digest@[i]),
        decreases 32 - index,
    {
        match radix16(bytes[2 * index], bytes[2 * index + 1]) {
            Some(v) => digest.push(v),
            None => {
                assert(radix16_pair(b[2 * index as int], b[2 * index + 1]) is None);
                return Err(ApiError::InvalidOperation(text::owned("invalid mirror checksum")));
            },
        }
        index = index + 1;
    }
    assert(digest@ =~= Seq::new(32, |i: int| radix16_pair(b[2 * i], b[2 * i + 1])->0));
    Ok(digest)
}

/// A checksum written by `hex_digest` reads back as the same bytes.
pub proof fn lemma_sha256_round_trip(d: Seq<u8>)
    requires d.len() == 32,
    ensures sha256_parse(vault::hex_text(d)) == Ok::<Seq<u8>, Seq<char>>(d),
{
    let h = vault::hex_text(d);
    assert(vstd::utf8::is_ascii_chars(h));
    vstd::utf8::is_ascii_chars_encode_utf8(h);
    let e = encode_utf8(h);
    assert forall|i: int| 0 <= i < 32 implies #[trigger] radix16_pair(e[2 * i], e[2 * i + 1]) == Some(d[i]) by {
        assert(h[2 * i] as u8 == e[2 * i]);
        assert(h[2 * i + 1] as u8 == e[2 * i + 1]);
    }
    assert(Seq::new(32, |i: int| radix16_pair(e[2 * i], e[2 * i + 1])->0) =~= d);
}

/// What is known of a host file when it is indexed.
#[derive(Clone, Debug, PartialEq, Eq)]
pub struct FileFingerprint {
    pub len: u64,
    pub modified_nanos: Option<u128>,
    /// The SHA-256 of the content, as lower-case hex.
    pub digest: String,
}

/// A source entry of the mirror index.
#[derive(Debug)]
pub enum SourceEntryValue {
    Directory,
    File { host_path: String, fingerprint: FileFingerprint },
}

/// The record of a source file: a `1`, the length (8 bytes), whether the
/// modification time is known (1 byte) and the time in nanoseconds (16 bytes,
/// zero when unknown), the 32 bytes of the checksum, the byte length of the
/// host path (4 bytes) and the path's UTF-8 bytes; integers little-endian.
pub open spec fn source_file_bytes(path: Seq<char>, len: u64, modified: Option<u128>, digest: Seq<u8>) -> Seq<u8> {
    seq![1u8] + le_bytes(len as nat, 8) + seq![if modified is Some { 1u8 } else { 0u8 }]
        + le_bytes(match modified { Some(m) => m as nat, None => 0nat }, 16) + digest
        + le_bytes(encode_utf8(path).len(), 4) + encode_utf8(path)
}

/// The refusal of a host path too long for the index.
pub open spec fn path_too_long() -> Seq<char> {
    "source path is too long for the mirror index"@
}

/// Writes the index record of a source file.
pub fn encode_source_file(path: &str, fingerprint: &FileFingerprint) -> (r: Result<Vec<u8>, Failure>)
    ensures
        encode_utf8(path@).len() > u32::MAX ==> (r matches Err(Failure::Message(m)) && is_plain_error(m, path_too_long())),
        encode_utf8(path@).len() <= u32::MAX ==> match sha256_parse(fingerprint.digest@) {
            Ok(d) => r matches Ok(v) && v@ == source_file_bytes(path@, fingerprint.len, fingerprint.modified_nanos, d),
            Err(e) => r matches Err(Failure::Api(ApiError::InvalidOperation(t))) && t@ == e,
        },
{
    let path_bytes = path.as_bytes();
    if path_bytes.len() > 0xffff_ffff {
        return Err(Failure::Message(cli_error("source path is too long for the mirror index")));
    }
    let path_len = path_bytes.len() as u32;
    let mut value: Vec<u8> = Vec::new();
    value.push(1);
    push_le(&mut value, fingerprint.len as u128, 8);
    match fingerprint.modified_nanos {
        Some(modified) => {
            value.push(1);
            push_le(&mut value, modified, 16);
        },
        None => {
            value.push(0);
            push_le(&mut value, 0, 16);
        },
    }
    let digest = match parse_sha256(fingerprint.digest.as_str()) {
        Ok(d) => d,
        Err(e) => return Err(Failure::Api(e)),
    };
    let mut i: usize = 0;
    let ghost before = value@;
    while i < digest.len()
        invariant
            i <= digest@.len(),
            value@ == before + digest@.subrange(0, i as int),
        decreases digest@.len() - i,
    {
        value.push(digest[i]);
        i = i + 1;
        assert(value@ =~= before + digest@.subrange(0, i as int));
    }
    assert(digest@.subrange(0, digest@.len() as int) =~= digest@);
    push_le(&mut value, path_len as u128, 4);
    let n = path_bytes.len();
    let mut j: usize = 0;
    let ghost before_path = value@;
    while j < n
        invariant
            j <= n,
            n == path_bytes@.len(),
            value@ == before_path + path_bytes@.subrange(0, j as int),
        decreases n - j,
    {
        value.push(path_bytes[j]);
        j = j + 1;
        assert(value@ =~= before_path + path_bytes@.subrange(0, j as int));
    }
    assert(path_bytes@.subrange(0, n as int) =~= path_bytes@);
    assert(value@ =~= source_file_bytes(path@, fingerprint.len, fingerprint.modified_nanos, digest@));
    Ok(value)
}

/// A source record as read back: a directory, or a file with the bytes of its
/// host path, its length, its modification time and its checksum.
pub enum SourceRecord {
    Directory,
    File { path_bytes: Seq<u8>, len: u64, modified: Option<u128>, digest: Seq<u8> },
}

/// Why a source record could not be read.
pub enum RecordError {
    Empty,
    InvalidDirectory,
    UnknownType,
    Truncated,
    InvalidMetadata,
    TrailingData,
    InvalidUtf8,
}

/// The outcome of reading a source record.
pub open spec fn source_decoding(v: Seq<u8>) -> Result<SourceRecord, RecordError> {
    if v.len() == 0 {
        Err(RecordError::Empty)
    } else if v[0] == 0 {
        if v.len() != 1 { Err(RecordError::InvalidDirectory) } else { Ok(SourceRecord::Directory) }
    } else if v[0] != 1 {
        Err(RecordError::UnknownType)
    } else if v.len() < 26 {
        Err(RecordError::Truncated)
    } else if v[9] > 1 {
        Err(RecordError::InvalidMetadata)
    } else if v.len() < 62 {
        Err(RecordError::Truncated)
    } else {
        let path_len = le_value(v.subrange(58, 62));
        if v.len() < 62 + path_len {
            Err(RecordError::Truncated)
        } else if v.len() != 62 + path_len {
            Err(RecordError::TrailingData)
        } else if !valid_utf8(v.subrange(62, v.len() as int)) {
            Err(RecordError::InvalidUtf8)
        } else {
            Ok(SourceRecord::File {
                path_bytes: v.subrange(62, v.len() as int),
                len: le_value(v.subrange(1, 9)) as u64,
                modified: if v[9] == 1 { Some(le_value(v.subrange(10, 26)) as u128) } else { None },
                digest: v.subrange(26, 58),
            })
        }
    }
}

/// The message of each refusal of a source record.
pub open spec fn record_error_text(k: RecordError) -> Seq<char> {
    match k {
        RecordError::Empty => "temporary mirror index contains an empty record"@,
        RecordError::InvalidDirectory => "temporary mirror index contains an invalid directory record"@,
        RecordError::UnknownType => "temporary mirror index contains an unknown record type"@,
        RecordError::Truncated => "failed to fill whole buffer"@,
        RecordError::InvalidMetadata => "temporary mirror index has invalid file metadata"@,
        RecordError::TrailingData => "temporary mirror index file record has trailing data"@,
        RecordError::InvalidUtf8 => "temporary mirror index has invalid UTF-8 in source path"@,
    }
}

/// The failure reported for a refusal: a read past the end is reported as
/// such, every other refusal as a plain error.
pub open spec fn is_record_failure(f: Failure, k: RecordError) -> bool {
    match k {
        RecordError::Truncated => is_truncated(f),
        _ => f matches Failure::Message(m) && is_plain_error(m, record_error_text(k)),
    }
}

/// The entry that a decoded record stands for.
pub open spec fn is_entry_of(e: SourceEntryValue, rec: SourceRecord) -> bool {
    match rec {
        SourceRecord::Directory => e is Directory,
        SourceRecord::File { path_bytes, len, modified, digest } => e matches SourceEntryValue::File { host_path, fingerprint }
            && encode_utf8(host_path@) == path_bytes && fingerprint.len == len
            && fingerprint.modified_nanos == modified && fingerprint.digest@ == vault::hex_text(digest),
    }
}

fn plain_failure(message: &str) -> (f: Failure)
    ensures f matches Failure::Message(m) && is_plain_error(m, message@),
{
    Failure::Message(cli_error(message))
}

/// Reads the index record of a source entry.
pub fn decode_source_value(value: &[u8]) -> (r: Result<SourceEntryValue, Failure>)
    ensures
        match source_decoding(value@) {
            Ok(rec) => r matches Ok(e) && is_entry_of(e, rec),
            Err(k) => r matches Err(f) && is_record_failure(f, k),
        },
{
    let n = value.len();
    if n == 0 {
        return Err(plain_failure("temporary mirror index contains an empty record"));
    }
    let kind = value[0];
    if kind == 0 {
        if n != 1 {
            return Err(plain_failure("temporary mirror index contains an invalid directory record"));
        }
        return Ok(SourceEntryValue::Directory);
    }
    if kind != 1 {
        return Err(plain_failure("temporary mirror index contains an unknown record type"));
    }
    if n < 26 {
        return Err(truncated());
    }
    let len = match read_index_u64(value, 1) {
        Ok(v) => v,
        Err(f) => return Err(f),
    };
    let present = value[9];
    let modified_value = read_le(value, 10, 16);
    let modified_nanos = if present == 0 {
        None
    } else if present == 1 {
        Some(modified_value)
    } else {
        return Err(plain_failure("temporary mirror index has invalid file metadata"));
    };
    if n < 62 {
        return Err(truncated());
    }
    let path_len = match read_index_u32(value, 58) {
        Ok(v) => v,
        Err(f) => return Err(f),
    };
    if ((n - 62) as u64) < (path_len as u64) {
        return Err(truncated());
    }
    if ((n - 62) as u64) != (path_len as u64) {
        return Err(plain_failure("temporary mirror index file record has trailing data"));
    }
    let mut digest: Vec<u8> = Vec::new();
    let mut i: usize = 26;
    while i < 58
        invariant
            26 <= i <= 58,
            n == value@.len(),
            n >= 62,
            digest@ == value@.subrange(26, i as int),
        decreases 58 - i,
    {
        digest.push(value[i]);
        i = i + 1;
        assert(digest@ =~= value@.subrange(26, i as int));
    }
    let mut path: Vec<u8> = Vec::new();
    let mut j: usize = 62;
    while j < n
        invariant
            62 <= j <= n,
            n == value@.len(),
            path@ == value@.subrange(62, j as int),
        decreases n - j,
    {
        path.push(value[j]);
        j = j + 1;
        assert(path@ =~= value@.subrange(62, j as int));
    }
    let host_path = match string_from_utf8(path) {
        Some(s) => s,
        None => return Err(plain_failure("temporary mirror index has invalid UTF-8 in source path")),
    };
    proof { lemma_le_value_bound(value@.subrange(10, 26)); lemma_pow256_values(); }
    Ok(SourceEntryValue::File {
        host_path,
        fingerprint: FileFingerprint { len, modified_nanos, digest: hex_digest(digest.as_slice()) },
    })
}

/// Splits a source index entry into its relative path and its value.
pub fn decode_source_record(key: Vec<u8>, value: &[u8]) -> (r: Result<(String, SourceEntryValue), Failure>)
    ensures
        !valid_utf8(key@) ==> (r matches Err(Failure::Message(m))
            && is_plain_error(m, "temporary mirror index has invalid UTF-8 in source path"@)),
        valid_utf8(key@) ==> match source_decoding(value@) {
            Ok(rec) => r matches Ok((p, e)) && encode_utf8(p@) == key@ && is_entry_of(e, rec),
            Err(k) => r matches Err(f) && is_record_failure(f, k),
        },
{
    proof {
        reveal_strlit("source path");
        reveal_strlit("temporary mirror index has invalid UTF-8 in ");
        reveal_strlit("temporary mirror index has invalid UTF-8 in source path");
        assert("temporary mirror index has invalid UTF-8 in "@ + "source path"@
            =~= "temporary mirror index has invalid UTF-8 in source path"@);
    }
    let path = match utf8_string(key, "source path") {
        Ok(p) => p,
        Err(m) => return Err(Failure::Message(m)),
    };
    match decode_source_value(value) {
        Ok(e) => Ok((path, e)),
        Err(f) => Err(f),
    }
}

/// A source file's record reads back as the same file: its host path, length,
/// modification time and checksum.
pub proof fn lemma_source_record_round_trip(path: Seq<char>, len: u64, modified: Option<u128>, digest: Seq<u8>)
    requires
        digest.len() == 32,
        encode_utf8(path).len() <= u32::MAX,
    ensures
        source_decoding(source_file_bytes(path, len, modified, digest)) == Ok::<SourceRecord, RecordError>(
            SourceRecord::File { path_bytes: encode_utf8(path), len, modified, digest }),
        vstd::utf8::decode_utf8(encode_utf8(path)) == path,
{
    let p = encode_utf8(path);
    let m: nat = match modified { Some(x) => x as nat, None => 0nat };
    let flag: u8 = if modified is Some { 1u8 } else { 0u8 };
    let v = source_file_bytes(path, len, modified, digest);
    lemma_pow256_values();
    lemma_le_bytes_len(len as nat, 8);
    lemma_le_bytes_len(m, 16);
    lemma_le_bytes_len(p.len(), 4);
    lemma_le_round_trip(len as nat, 8);
    lemma_le_round_trip(m, 16);
    lemma_le_round_trip(p.len(), 4);
    assert(v.len() == 62 + p.len());
    assert(v[0] == 1u8);
    assert(v[9] == flag);
    assert(v.subrange(1, 9) =~= le_bytes(len as nat, 8));
    assert(v.subrange(10, 26) =~= le_bytes(m, 16));
    assert(v.subrange(26, 58) =~= digest);
    assert(v.subrange(58, 62) =~= le_bytes(p.len(), 4));
    assert(v.subrange(62, v.len() as int) =~= p);
    vstd::utf8::encode_utf8_valid_utf8(path);
    vstd::utf8::encode_utf8_decode_utf8(path);
}

/// What a file's metadata says of its content.
#[derive(Clone, Copy, Debug)]
pub struct FileMetadata {
    pub len: u64,
    pub modified_nanos: Option<u128>,
}

/// The fingerprint of a host file from its metadata before and after it was
/// read and the hasher that its content was fed into; refused when the file
/// changed meanwhile.
pub fn fingerprint(path: &str, before: FileMetadata, after: FileMetadata, hasher: Sha256Hasher) -> (r: Result<FileFingerprint, CliMessage>)
    requires hasher.wf(),
    ensures
        before.len != after.len || before.modified_nanos != after.modified_nanos ==> (r matches Err(m)
            && is_plain_error(m, "source file changed while being read: "@ + path@)),
        before.len == after.len && before.modified_nanos == after.modified_nanos ==> (r matches Ok(f)
            && f.len == after.len && f.modified_nanos == after.modified_nanos
            && f.digest@ == vault::hex_text(sha256_of(hasher.seen()))
            && f.digest@.len() == 64),
{
    let same_time = match (before.modified_nanos, after.modified_nanos) {
        (Some(a), Some(b)) => a == b,
        (None, None) => true,
        _ => false,
    };
    if before.len != after.len || !same_time {
        return Err(cli_error(text::concat2("source file changed while being read: ", path).as_str()));
    }
    let digest = hasher.finish();
    Ok(FileFingerprint { len: after.len, modified_nanos: after.modified_nanos, digest: hex_digest(digest.as_slice()) })
}

/// The identity of a host file on Unix, from its device and inode numbers.
pub fn platform_identity(device_and_inode: Option<(u64, u64)>) -> (r: Option<String>)
    ensures
        match device_and_inode {
            Some((d, i)) => r matches Some(s) && s@ == "unix:"@ + text::dec(d as nat) + ":"@ + text::dec(i as nat),
            None => r is None,
        },
{
    match device_and_inode {
        Some((d, i)) => {
            let dev = text::decimal(d);
            let ino = text::decimal(i);
            let mut out = text::concat3("unix:", dev.as_str(), ":");
            text::push_str(&mut out, ino.as_str());
            Some(out)
        },
        None => None,
    }
}

} // verus!

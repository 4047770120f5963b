//! The on-disk hash index that backs the temporary mirror tables: its hash,
//! the encodings of bucket slots, collision nodes and record headers, and the
//! checks made on what is read back.

use vstd::prelude::*;
use crate::text;
use crate::records::{le_bytes, le_value, lemma_le_bytes_len, lemma_le_round_trip, lemma_le_value_bound, lemma_pow256_values, read_index_u32, read_index_u64};
use crate::messages::Failure;

verus! {

/// The number of buckets of a new table.
pub const INITIAL_BUCKETS: u64 = 1024;
/// The size of a collision node: hash, record offset and next node.
pub const NODE_BYTES: u64 = 24;
/// The size of a record header: key length and value length.
pub const RECORD_HEADER_BYTES: u64 = 8;
/// The largest key or value a record may hold.
pub const MAX_RECORD_PART_BYTES: usize = 67108864;

/// The 64-bit FNV-1a hash of some bytes.
pub open spec fn fnv1a(b: Seq<u8>) -> u64
    decreases b.len(),
{
    if b.len() == 0 {
        0xcbf29ce484222325u64
    } else {
        (fnv1a(b.drop_last()) ^ (b.last() as u64)).wrapping_mul(0x100000001b3u64)
    }
}

/// The hash that places a key in a bucket (64-bit FNV-1a).
pub fn stable_hash(bytes: &[u8]) -> (r: u64)
    ensures r == fnv1a(bytes@),
{
    let mut hash: u64 = 0xcbf29ce484222325;
    let n = bytes.len();
    let mut i: usize = 0;
    while i < n
        invariant
            i <= n,
            n == bytes@.len(),
            hash == fnv1a(bytes@.subrange(0, i as int)),
        decreases n - i,
    {
        assert(bytes@.subrange(0, i + 1).drop_last() =~= bytes@.subrange(0, i as int));
        hash = hash ^ (bytes[i] as u64);
        hash = hash.wrapping_mul(0x100000001b3);
        i = i + 1;
    }
    assert(bytes@.subrange(0, n as int) =~= bytes@);
    hash
}

/// The slot value that points at a node: its offset plus one, so that zero
/// marks an empty slot.
pub fn encode_offset(offset: u64) -> (r: u64)
    requires offset < u64::MAX,
    ensures r == offset + 1,
{
    offset + 1
}

/// The node offset held by a slot value, if any.
pub fn decode_offset(encoded: u64) -> (r: Option<u64>)
    ensures
        encoded == 0 ==> r is None,
        encoded > 0 ==> r == Some((encoded - 1) as u64),
{
    encoded.checked_sub(1)
}

/// A slot written for a node reads back as that node, and an empty slot as
/// no node.
pub proof fn lemma_offset_round_trip(offset: u64)
    requires offset < u64::MAX,
    ensures
        offset + 1 > 0,
        ((offset + 1) - 1) as u64 == offset,
{
}

/// The failure of an index operation, with the text of its I/O error.
pub open spec fn is_index_failure(f: Failure, message: Seq<char>) -> bool {
    f matches Failure::Other(t) && t@ == message
}

/// Refuses a key or value too large for a record.
pub fn validate_part(value: &[u8]) -> (r: Result<(), Failure>)
    ensures
        value@.len() > MAX_RECORD_PART_BYTES ==> (r matches Err(f)
            && is_index_failure(f, "temporary binary index record is too large"@)),
        value@.len() <= MAX_RECORD_PART_BYTES ==> r is Ok,
{
    if value.len() > MAX_RECORD_PART_BYTES || value.len() > 0xffff_ffff {
        return Err(Failure::Other(text::owned("temporary binary index record is too large")));
    }
    Ok(())
}

/// Refuses lengths read from a record header that no record can have.
pub fn validate_lengths(key_len: usize, value_len: usize) -> (r: Result<(), Failure>)
    ensures
        key_len > MAX_RECORD_PART_BYTES || value_len > MAX_RECORD_PART_BYTES ==> (r matches Err(f)
            && is_index_failure(f, "temporary binary index record length is invalid"@)),
        key_len <= MAX_RECORD_PART_BYTES && value_len <= MAX_RECORD_PART_BYTES ==> r is Ok,
{
    if key_len > MAX_RECORD_PART_BYTES || value_len > MAX_RECORD_PART_BYTES {
        return Err(Failure::Other(text::owned("temporary binary index record length is invalid")));
    }
    Ok(())
}

/// The table holds enough entries that its buckets double before the next
/// insertion (a load of three quarters, counted with saturating products).
pub open spec fn is_crowded(entries: u64, bucket_count: u64) -> bool {
    (if entries * 4 > u64::MAX { u64::MAX as int } else { entries * 4 })
        >= (if bucket_count * 3 > u64::MAX { u64::MAX as int } else { bucket_count * 3 })
}

/// Whether the buckets double before the next insertion.
pub fn needs_rehash(entries: u64, bucket_count: u64) -> (r: bool)
    ensures r == is_crowded(entries, bucket_count),
{
    let load: u64 = if entries > u64::MAX / 4 { u64::MAX } else { entries * 4 };
    let limit: u64 = if bucket_count > u64::MAX / 3 { u64::MAX } else { bucket_count * 3 };
    load >= limit
}

/// A collision node: the key's hash, where its record starts, and the slot
/// value of the next node of the bucket.
#[derive(Clone, Copy, Debug, PartialEq, Eq, Structural)]
pub struct Node {
    pub hash: u64,
    pub record_offset: u64,
    pub next: u64,
}

/// The 24 bytes of a node, each field little-endian.
pub open spec fn node_bytes(node: Node) -> Seq<u8> {
    le_bytes(node.hash as nat, 8) + le_bytes(node.record_offset as nat, 8) + le_bytes(node.next as nat, 8)
}

fn push_u64(out: &mut Vec<u8>, v: u64)
    ensures final(out)@ == old(out)@ + le_bytes(v as nat, 8),
{
    let mut rest = v;
    let mut i: usize = 0;
    let ghost before = old(out)@;
    assert(before + le_bytes(v as nat, 8) =~= out@ + le_bytes(rest as nat, 8));
    while i < 8
        invariant
            i <= 8,
            before + le_bytes(v as nat, 8) == out@ + le_bytes(rest as nat, (8 - i) as nat),
        decreases 8 - i,
    {
        let ghost tail = le_bytes(rest as nat, (8 - i) as nat);
        out.push((rest % 256) as u8);
        assert(tail == seq![(rest % 256) as u8] + le_bytes((rest / 256) as nat, (8 - i - 1) as nat));
        rest = rest / 256;
        i = i + 1;
        assert(before + le_bytes(v as nat, 8) =~= out@ + le_bytes(rest as nat, (8 - i) as nat));
    }
    assert(out@ =~= out@ + le_bytes(rest as nat, 0));
}

/// The bytes written for a node.
pub fn encode_node(node: &Node) -> (r: Vec<u8>)
    ensures r@ == node_bytes(*node),
{
    let mut out: Vec<u8> = Vec::new();
    push_u64(&mut out, node.hash);
    push_u64(&mut out, node.record_offset);
    push_u64(&mut out, node.next);
    assert(out@ =~= node_bytes(*node));
    out
}

/// The node at an offset of the node file: refused unless the offset is a
/// whole number of nodes, truncated unless 24 bytes follow it.
pub fn decode_node(nodes: &[u8], offset: u64) -> (r: Result<Node, Failure>)
    ensures
        offset % NODE_BYTES != 0 ==> (r matches Err(f)
            && is_index_failure(f, "temporary binary index node offset is invalid"@)),
        offset % NODE_BYTES == 0 && offset + 24 <= nodes@.len() ==> (r matches Ok(n)
            && n.hash as nat == le_value(nodes@.subrange(offset as int, offset + 8))
            && n.record_offset as nat == le_value(nodes@.subrange(offset + 8, offset + 16))
            && n.next as nat == le_value(nodes@.subrange(offset + 16, offset + 24))),
        offset % NODE_BYTES == 0 && offset + 24 > nodes@.len() ==> (r matches Err(f) && crate::records::is_truncated(f)),
{
    if offset % 24 != 0 {
        return Err(Failure::Other(text::owned("temporary binary index node offset is invalid")));
    }
    if offset > nodes.len() as u64 {
        return Err(Failure::Other(text::owned("failed to fill whole buffer")));
    }
    let at = offset as usize;
    let hash = match read_index_u64(nodes, at) {
        Ok(v) => v,
        Err(f) => return Err(f),
    };
    let record_offset = match read_index_u64(nodes, at + 8) {
        Ok(v) => v,
        Err(f) => return Err(f),
    };
    let next = match read_index_u64(nodes, at + 16) {
        Ok(v) => v,
        Err(f) => return Err(f),
    };
    Ok(Node { hash, record_offset, next })
}

/// A node written at an offset reads back as the same node.
pub proof fn lemma_node_round_trip(node: Node)
    ensures
        node_bytes(node).len() == 24,
        le_value(node_bytes(node).subrange(0, 8)) == node.hash as nat,
        le_value(node_bytes(node).subrange(8, 16)) == node.record_offset as nat,
        le_value(node_bytes(node).subrange(16, 24)) == node.next as nat,
{
    lemma_pow256_values();
    lemma_le_bytes_len(node.hash as nat, 8);
    lemma_le_bytes_len(node.record_offset as nat, 8);
    lemma_le_bytes_len(node.next as nat, 8);
    lemma_le_round_trip(node.hash as nat, 8);
    lemma_le_round_trip(node.record_offset as nat, 8);
    lemma_le_round_trip(node.next as nat, 8);
    let b = node_bytes(node);
    assert(b.subrange(0, 8) =~= le_bytes(node.hash as nat, 8));
    assert(b.subrange(8, 16) =~= le_bytes(node.record_offset as nat, 8));
    assert(b.subrange(16, 24) =~= le_bytes(node.next as nat, 8));
}

/// The header of a record: the key's and the value's lengths, 4 bytes each,
/// little-endian.
pub open spec fn header_bytes(key_len: nat, value_len: nat) -> Seq<u8> {
    le_bytes(key_len, 4) + le_bytes(value_len, 4)
}

fn push_u32(out: &mut Vec<u8>, v: u32)
    ensures final(out)@ == old(out)@ + le_bytes(v as nat, 4),
{
    let mut rest = v;
    let mut i: usize = 0;
    let ghost before = old(out)@;
    assert(before + le_bytes(v as nat, 4) =~= out@ + le_bytes(rest as nat, 4));
    while i < 4
        invariant
            i <= 4,
            before + le_bytes(v as nat, 4) == out@ + le_bytes(rest as nat, (4 - i) as nat),
        decreases 4 - i,
    {
        let ghost tail = le_bytes(rest as nat, (4 - i) as nat);
        out.push((rest % 256) as u8);
        assert(tail == seq![(rest % 256) as u8] + le_bytes((rest / 256) as nat, (4 - i - 1) as nat));
        rest = rest / 256;
        i = i + 1;
        assert(before + le_bytes(v as nat, 4) =~= out@ + le_bytes(rest as nat, (4 - i) as nat));
    }
    assert(out@ =~= out@ + le_bytes(rest as nat, 0));
}

/// The bytes appended for a record: its header, its key and its value.
pub fn encode_record(key: &[u8], value: &[u8]) -> (r: Vec<u8>)
    requires
        key@.len() <= MAX_RECORD_PART_BYTES,
        value@.len() <= MAX_RECORD_PART_BYTES,
    ensures r@ == header_bytes(key@.len(), value@.len()) + key@ + value@,
{
    let mut out: Vec<u8> = Vec::new();
    push_u32(&mut out, key.len() as u32);
    push_u32(&mut out, value.len() as u32);
    let ghost start = out@;
    let mut i: usize = 0;
    while i < key.len()
        invariant
            i <= key@.len(),
            out@ == start + key@.subrange(0, i as int),
        decreases key@.len() - i,
    {
        out.push(key[i]);
        i = i + 1;
        assert(out@ =~= start + key@.subrange(0, i as int));
    }
    assert(key@.subrange(0, key@.len() as int) =~= key@);
    let ghost middle = out@;
    let mut j: usize = 0;
    while j < value.len()
        invariant
            j <= value@.len(),
            out@ == middle + value@.subrange(0, j as int),
        decreases value@.len() - j,
    {
        out.push(value[j]);
        j = j + 1;
        assert(out@ =~= middle + value@.subrange(0, j as int));
    }
    assert(value@.subrange(0, value@.len() as int) =~= value@);
    assert(out@ =~= header_bytes(key@.len(), value@.len()) + key@ + value@);
    out
}

/// The key and value lengths in the header of the record at an offset of the
/// data file, checked against the largest record part.
pub fn record_lengths(data: &[u8], offset: usize) -> (r: Result<(usize, usize), Failure>)
    ensures
        offset + 8 <= data@.len() ==> {
            let k = le_value(data@.subrange(offset as int, offset + 4));
            let v = le_value(data@.subrange(offset + 4, offset + 8));
            &&& k <= MAX_RECORD_PART_BYTES && v <= MAX_RECORD_PART_BYTES ==> r == Ok::<(usize, usize), Failure>((k as usize, v as usize))
            &&& !(k <= MAX_RECORD_PART_BYTES && v <= MAX_RECORD_PART_BYTES) ==> (r matches Err(f)
                && is_index_failure(f, "temporary binary index record length is invalid"@))
        },
        offset + 8 > data@.len() ==> (r matches Err(f) && crate::records::is_truncated(f)),
{
    if offset > data.len() || data.len() - offset < 8 {
        return Err(Failure::Other(text::owned("failed to fill whole buffer")));
    }
    let key_len = match read_index_u32(data, offset) {
        Ok(v) => v,
        Err(f) => return Err(f),
    };
    let value_len = match read_index_u32(data, offset + 4) {
        Ok(v) => v,
        Err(f) => return Err(f),
    };
    match validate_lengths(key_len as usize, value_len as usize) {
        Ok(()) => Ok((key_len as usize, value_len as usize)),
        Err(f) => Err(f),
    }
}

/// A record header reads back as the lengths it was written with.
pub proof fn lemma_header_round_trip(key_len: nat, value_len: nat)
    requires
        key_len <= MAX_RECORD_PART_BYTES,
        value_len <= MAX_RECORD_PART_BYTES,
    ensures
        header_bytes(key_len, value_len).len() == 8,
        le_value(header_bytes(key_len, value_len).subrange(0, 4)) == key_len,
        le_value(header_bytes(key_len, value_len).subrange(4, 8)) == value_len,
{
    lemma_pow256_values();
    lemma_le_bytes_len(key_len, 4);
    lemma_le_bytes_len(value_len, 4);
    lemma_le_round_trip(key_len, 4);
    lemma_le_round_trip(value_len, 4);
    let b = header_bytes(key_len, value_len);
    assert(b.subrange(0, 4) =~= le_bytes(key_len, 4));
    assert(b.subrange(4, 8) =~= le_bytes(value_len, 4));
}

} // verus!

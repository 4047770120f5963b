//! The binary key/value table of a mirror run: records appended in order, a
//! bucket array of slots that point at collision nodes, and nodes that chain
//! the records of a bucket, newest first. The bucket array doubles once three
//! quarters of its size is in use. The record, node and bucket layouts are
//! those of `index`; here the three stores are held as buffers.

use vstd::prelude::*;
use crate::index::{
    Node, header_bytes, fnv1a, stable_hash, validate_part, record_lengths, needs_rehash, is_crowded,
    is_index_failure, encode_record, lemma_header_round_trip, INITIAL_BUCKETS, MAX_RECORD_PART_BYTES,
};
use crate::records::le_value;
use crate::messages::Failure;
use crate::text;

verus! {

/// The bytes of one record: header, key, value.
pub open spec fn record_bytes(r: (Seq<u8>, Seq<u8>)) -> Seq<u8> {
    header_bytes(r.0.len(), r.1.len()) + r.0 + r.1
}

/// The bytes of the record store holding these records, in order.
pub open spec fn records_bytes(rs: Seq<(Seq<u8>, Seq<u8>)>) -> Seq<u8>
    decreases rs.len(),
{
    if rs.len() == 0 {
        Seq::empty()
    } else {
        records_bytes(rs.drop_last()) + record_bytes(rs.last())
    }
}

/// Where the record at index `i` starts in the record store.
pub open spec fn record_start(rs: Seq<(Seq<u8>, Seq<u8>)>, i: int) -> int {
    records_bytes(rs.subrange(0, i)).len() as int
}

/// The newest node below index `i` whose hash falls in bucket `b`.
pub open spec fn last_below(hs: Seq<u64>, count: u64, b: int, i: int) -> Option<int>
    decreases i,
{
    if i <= 0 {
        None
    } else if (hs[i - 1] % count) as int == b {
        Some(i - 1)
    } else {
        last_below(hs, count, b, i - 1)
    }
}

/// The slot value that points at a node index (its byte offset plus one), or
/// the empty slot.
pub open spec fn slot_of(j: Option<int>) -> u64 {
    match j {
        None => 0,
        Some(j) => (24 * j + 1) as u64,
    }
}

/// The largest number of entries whose node offsets fit in a slot.
pub const MAX_ENTRIES: u64 = 768614336404564650;

/// The value stored under a key, if any.
pub open spec fn lookup(rs: Seq<(Seq<u8>, Seq<u8>)>, key: Seq<u8>) -> Option<Seq<u8>>
    decreases rs.len(),
{
    if rs.len() == 0 {
        None
    } else if rs.last().0 == key {
        Some(rs.last().1)
    } else {
        lookup(rs.drop_last(), key)
    }
}

/// Some record has the key.
pub open spec fn has_key(rs: Seq<(Seq<u8>, Seq<u8>)>, key: Seq<u8>) -> bool {
    exists|i: int| 0 <= i < rs.len() && #[trigger] rs[i].0 == key
}

proof fn lemma_last_below(hs: Seq<u64>, count: u64, b: int, i: int)
    requires
        0 <= i <= hs.len(),
        count > 0,
    ensures
        match last_below(hs, count, b, i) {
            Some(j) => 0 <= j < i && (hs[j] % count) as int == b
                && forall|k: int| j < k < i ==> (#[trigger] hs[k] % count) as int != b,
            None => forall|k: int| 0 <= k < i ==> (#[trigger] hs[k] % count) as int != b,
        },
    decreases i,
{
    if i > 0 && (hs[i - 1] % count) as int != b {
        lemma_last_below(hs, count, b, i - 1);
    }
}

proof fn lemma_last_below_prefix(hs: Seq<u64>, h: u64, count: u64, b: int, i: int)
    requires 0 <= i <= hs.len(),
    ensures last_below(hs.push(h), count, b, i) == last_below(hs, count, b, i),
    decreases i,
{
    if i > 0 {
        assert(hs.push(h)[i - 1] == hs[i - 1]);
        lemma_last_below_prefix(hs, h, count, b, i - 1);
    }
}

proof fn lemma_last_below_same(hs: Seq<u64>, gs: Seq<u64>, count: u64, b: int, i: int)
    requires
        0 <= i <= hs.len(),
        i <= gs.len(),
        forall|k: int| 0 <= k < i ==> hs[k] == gs[k],
    ensures last_below(hs, count, b, i) == last_below(gs, count, b, i),
    decreases i,
{
    if i > 0 {
        lemma_last_below_same(hs, gs, count, b, i - 1);
    }
}

proof fn lemma_records_bytes_push(rs: Seq<(Seq<u8>, Seq<u8>)>, r: (Seq<u8>, Seq<u8>))
    ensures
        records_bytes(rs.push(r)) == records_bytes(rs) + record_bytes(r),
        forall|i: int| 0 <= i <= rs.len() ==> #[trigger] record_start(rs.push(r), i) == record_start(rs, i),
{
    assert(rs.push(r).drop_last() =~= rs);
    assert forall|i: int| 0 <= i <= rs.len() implies #[trigger] record_start(rs.push(r), i) == record_start(rs, i) by {
        assert(rs.push(r).subrange(0, i) =~= rs.subrange(0, i));
    }
}

proof fn lemma_record_at(rs: Seq<(Seq<u8>, Seq<u8>)>, i: int)
    requires 0 <= i < rs.len(),
    ensures
        record_start(rs, i) + record_bytes(rs[i]).len() <= records_bytes(rs).len(),
        record_start(rs, i + 1) == record_start(rs, i) + record_bytes(rs[i]).len(),
        records_bytes(rs).subrange(record_start(rs, i), record_start(rs, i) + record_bytes(rs[i]).len())
            == record_bytes(rs[i]),
    decreases rs.len(),
{
    let last = rs.len() - 1;
    assert(rs.subrange(0, i + 1).drop_last() =~= rs.subrange(0, i));
    assert(rs.subrange(0, i + 1).last() == rs[i]);
    if i == last {
        assert(rs.subrange(0, i) =~= rs.drop_last());
        assert(rs.subrange(0, i + 1) =~= rs);
        let pre = records_bytes(rs.drop_last());
        assert(records_bytes(rs).subrange(pre.len() as int, (pre.len() + record_bytes(rs[i]).len()) as int) =~= record_bytes(rs[i]));
    } else {
        lemma_record_at(rs.drop_last(), i);
        assert(rs.drop_last().subrange(0, i) =~= rs.subrange(0, i));
        assert(rs.drop_last().subrange(0, i + 1) =~= rs.subrange(0, i + 1));
        assert(rs.drop_last()[i] == rs[i]);
        let whole = records_bytes(rs);
        let pre = records_bytes(rs.drop_last());
        assert(whole.subrange(record_start(rs, i), record_start(rs, i) + record_bytes(rs[i]).len())
            =~= pre.subrange(record_start(rs, i), record_start(rs, i) + record_bytes(rs[i]).len()));
    }
}

proof fn lemma_lookup(rs: Seq<(Seq<u8>, Seq<u8>)>, key: Seq<u8>, i: int)
    requires
        0 <= i < rs.len(),
        rs[i].0 == key,
        forall|a: int, b: int| 0 <= a < b < rs.len() ==> rs[a].0 != rs[b].0,
    ensures lookup(rs, key) == Some(rs[i].1),
    decreases rs.len(),
{
    if i < rs.len() - 1 {
        assert(rs.last().0 != key);
        assert(rs.drop_last()[i] == rs[i]);
        lemma_lookup(rs.drop_last(), key, i);
    }
}

proof fn lemma_lookup_none(rs: Seq<(Seq<u8>, Seq<u8>)>, key: Seq<u8>)
    requires forall|i: int| 0 <= i < rs.len() ==> rs[i].0 != key,
    ensures lookup(rs, key) is None,
    decreases rs.len(),
{
    if rs.len() > 0 {
        assert(rs.last() == rs[rs.len() - 1]);
        assert forall|i: int| 0 <= i < rs.drop_last().len() implies rs.drop_last()[i].0 != key by {
            assert(rs.drop_last()[i] == rs[i]);
        }
        lemma_lookup_none(rs.drop_last(), key);
    }
}

/// After a key that no record has is inserted, the key reads back as the
/// value inserted with it, and every other key reads as before.
pub proof fn lemma_insert_then_lookup(rs: Seq<(Seq<u8>, Seq<u8>)>, key: Seq<u8>, value: Seq<u8>, other: Seq<u8>)
    requires other != key,
    ensures
        lookup(rs.push((key, value)), key) == Some(value),
        lookup(rs.push((key, value)), other) == lookup(rs, other),
{
    assert(rs.push((key, value)).drop_last() =~= rs);
}

/// The records after an insert-if-absent: unchanged when the key is present,
/// else with the new record at the end.
pub open spec fn insert_if_absent_contents(rs: Seq<(Seq<u8>, Seq<u8>)>, key: Seq<u8>, value: Seq<u8>)
    -> Seq<(Seq<u8>, Seq<u8>)> {
    if has_key(rs, key) { rs } else { rs.push((key, value)) }
}

/// Insert-if-absent keeps the first value of a key: afterwards the key is
/// present and reads as its earlier value if it had one, else as the value
/// inserted; every other key reads as before; the earlier records stay, in
/// their order, in front.
pub proof fn lemma_insert_if_absent_keeps_first(rs: Seq<(Seq<u8>, Seq<u8>)>, key: Seq<u8>, value: Seq<u8>, other: Seq<u8>)
    requires other != key,
    ensures
        has_key(insert_if_absent_contents(rs, key, value), key),
        lookup(insert_if_absent_contents(rs, key, value), key)
            == (if has_key(rs, key) { lookup(rs, key) } else { Some(value) }),
        lookup(insert_if_absent_contents(rs, key, value), other) == lookup(rs, other),
        insert_if_absent_contents(rs, key, value).take(rs.len() as int) == rs,
{
    let after = insert_if_absent_contents(rs, key, value);
    if !has_key(rs, key) {
        lemma_insert_then_lookup(rs, key, value, other);
        assert(after[rs.len() as int].0 == key);
    }
    assert(after.take(rs.len() as int) =~= rs);
}

/// A binary key/value table: records in insertion order, found again
/// through a hash index. A key is stored once.
pub struct BinaryTable {
    data: Vec<u8>,
    buckets: Vec<u64>,
    nodes: Vec<Node>,
    entries: u64,
    contents: Ghost<Seq<(Seq<u8>, Seq<u8>)>>,
}

impl View for BinaryTable {
    type V = Seq<(Seq<u8>, Seq<u8>)>;

    closed spec fn view(&self) -> Seq<(Seq<u8>, Seq<u8>)> {
        self.contents@
    }
}

/// The hashes of the nodes, in node order.
pub open spec fn node_hashes(nodes: Seq<Node>) -> Seq<u64> {
    nodes.map_values(|n: Node| n.hash)
}

impl BinaryTable {
    /// The number of buckets.
    pub closed spec fn bucket_count(&self) -> nat {
        self.buckets@.len()
    }

    /// The chains of the index: each node points at the newest earlier node
    /// of its bucket, and each bucket slot at its newest node.
    pub closed spec fn chains_ok(buckets: Seq<u64>, nodes: Seq<Node>) -> bool {
        let hs = node_hashes(nodes);
        let count = buckets.len() as u64;
        &&& forall|i: int| 0 <= i < nodes.len() ==> #[trigger] nodes[i].next
            == slot_of(last_below(hs, count, (hs[i] % count) as int, i))
        &&& forall|b: int| 0 <= b < buckets.len() ==> #[trigger] buckets[b]
            == slot_of(last_below(hs, count, b, nodes.len() as int))
    }

    /// The table is well formed: its stores hold exactly its records.
    pub closed spec fn wf(&self) -> bool {
        let rs = self.contents@;
        let n = rs.len();
        &&& self.nodes@.len() == n
        &&& self.entries as nat == n
        &&& n < MAX_ENTRIES
        &&& 0 < self.buckets@.len() <= u64::MAX
        &&& self.data@ == records_bytes(rs)
        &&& forall|i: int| 0 <= i < n ==> (#[trigger] rs[i]).0.len() <= MAX_RECORD_PART_BYTES
            && rs[i].1.len() <= MAX_RECORD_PART_BYTES
        &&& forall|i: int| 0 <= i < n ==> (#[trigger] self.nodes@[i]).hash == fnv1a(rs[i].0)
            && self.nodes@[i].record_offset == record_start(rs, i)
        &&& Self::chains_ok(self.buckets@, self.nodes@)
        &&& forall|a: int, b: int| 0 <= a < b < n ==> rs[a].0 != rs[b].0
    }

    fn empty_buckets(count: usize) -> (r: Vec<u64>)
        ensures
            r@.len() == count,
            forall|b: int| 0 <= b < count ==> #[trigger] r@[b] == 0,
    {
        let mut out: Vec<u64> = Vec::new();
        let mut i: usize = 0;
        while i < count
            invariant
                i <= count,
                out@.len() == i,
                forall|b: int| 0 <= b < i ==> #[trigger] out@[b] == 0,
            decreases count - i,
        {
            out.push(0);
            i = i + 1;
        }
        out
    }

    /// An empty table with the initial number of buckets.
    pub fn create() -> (r: BinaryTable)
        ensures
            r.wf(),
            r@ == Seq::<(Seq<u8>, Seq<u8>)>::empty(),
            r.bucket_count() == INITIAL_BUCKETS,
    {
        let r = BinaryTable {
            data: Vec::new(),
            buckets: Self::empty_buckets(1024),
            nodes: Vec::new(),
            entries: 0,
            contents: Ghost(Seq::empty()),
        };
        assert(r.data@ =~= records_bytes(Seq::empty()));
        r
    }

    /// Forgets every record; the buckets go back to their initial number.
    pub fn clear(&mut self)
        ensures
            final(self).wf(),
            final(self)@ == Seq::<(Seq<u8>, Seq<u8>)>::empty(),
            final(self).bucket_count() == INITIAL_BUCKETS,
    {
        self.data = Vec::new();
        self.nodes = Vec::new();
        self.buckets = Self::empty_buckets(1024);
        self.entries = 0;
        self.contents = Ghost(Seq::empty());
        assert(self.data@ =~= records_bytes(Seq::empty()));
    }

    /// The key and value lengths of record `j`, read from its header.
    fn record_parts(&self, j: usize) -> (r: (usize, usize, usize))
        requires
            self.wf(),
            j < self@.len(),
        ensures
            r.0 == record_start(self@, j as int),
            r.1 == self@[j as int].0.len(),
            r.2 == self@[j as int].1.len(),
            r.0 + 8 + r.1 + r.2 <= self.data@.len(),
            self.data@.subrange(r.0 + 8, r.0 + 8 + r.1) == self@[j as int].0,
            self.data@.subrange(r.0 + 8 + r.1, r.0 + 8 + r.1 + r.2) == self@[j as int].1,
    {
        let ghost rs = self.contents@;
        let total = self.data.len();
        proof { lemma_record_at(rs, j as int); }
        assert(record_start(rs, j as int) + record_bytes(rs[j as int]).len() <= total);
        let offset = self.nodes[j].record_offset as usize;
        self.parts_at(offset, Ghost(j as int))
    }

    /// The key and value lengths of the record `j` that starts at `offset`,
    /// read from its header.
    fn parts_at(&self, offset: usize, Ghost(j): Ghost<int>) -> (r: (usize, usize, usize))
        requires
            self.wf(),
            0 <= j < self@.len(),
            offset == record_start(self@, j),
        ensures
            r.0 == record_start(self@, j),
            r.1 == self@[j].0.len(),
            r.2 == self@[j].1.len(),
            r.0 + 8 + r.1 + r.2 <= self.data@.len(),
            self.data@.subrange(r.0 + 8, r.0 + 8 + r.1) == self@[j].0,
            self.data@.subrange(r.0 + 8 + r.1, r.0 + 8 + r.1 + r.2) == self@[j].1,
    {
        let ghost rs = self.contents@;
        let total = self.data.len();
        proof { lemma_record_at(rs, j); }
        let ghost rec = record_bytes(rs[j]);
        let ghost whole = self.data@;
        let ghost at = record_start(rs, j);
        assert(at + rec.len() <= total);
        proof {
            let piece = whole.subrange(at, at + rec.len());
            assert(piece == rec);
            lemma_header_round_trip(rs[j].0.len(), rs[j].1.len());
            let h = header_bytes(rs[j].0.len(), rs[j].1.len());
            let k = rs[j].0.len() as int;
            let v = rs[j].1.len() as int;
            assert(whole.subrange(at, at + 4) =~= piece.subrange(0, 4));
            assert(piece.subrange(0, 4) =~= h.subrange(0, 4));
            assert(whole.subrange(at + 4, at + 8) =~= piece.subrange(4, 8));
            assert(piece.subrange(4, 8) =~= h.subrange(4, 8));
            assert(whole.subrange(at + 8, at + 8 + k) =~= piece.subrange(8, 8 + k));
            assert(piece.subrange(8, 8 + k) =~= rs[j].0);
            assert(whole.subrange(at + 8 + k, at + 8 + k + v) =~= piece.subrange(8 + k, 8 + k + v));
            assert(piece.subrange(8 + k, 8 + k + v) =~= rs[j].1);
        }
        match record_lengths(self.data.as_slice(), offset) {
            Ok((k, v)) => (offset, k, v),
            Err(_) => {
                assert(false);
                (offset, 0, 0)
            },
        }
    }

    /// Whether record `j` has the key.
    fn key_matches(&self, j: usize, key: &[u8]) -> (r: bool)
        requires
            self.wf(),
            j < self@.len(),
        ensures r == (self@[j as int].0 == key@),
    {
        let (offset, k, v) = self.record_parts(j);
        let total = self.data.len();
        if k != key.len() {
            return false;
        }
        let start = offset + 8;
        let mut t: usize = 0;
        while t < k
            invariant
                t <= k,
                k == key@.len(),
                total == self.data@.len(),
                start + k <= self.data@.len(),
                self.data@.subrange(start as int, start + k) == self@[j as int].0,
                forall|u: int| 0 <= u < t ==> self.data@[start + u] == key@[u],
            decreases k - t,
        {
            if self.data[start + t] != key[t] {
                assert(self.data@.subrange(start as int, start + k)[t as int] == self.data@[start + t]);
                return false;
            }
            t = t + 1;
        }
        assert(self.data@.subrange(start as int, start + k) =~= key@);
        true
    }

    /// The index of the record that has the key, if any.
    fn find(&self, key: &[u8], hash: u64) -> (r: Option<usize>)
        requires
            self.wf(),
            hash == fnv1a(key@),
        ensures
            match r {
                Some(j) => j < self@.len() && self@[j as int].0 == key@,
                None => forall|j: int| 0 <= j < self@.len() ==> (#[trigger] self@[j]).0 != key@,
            },
    {
        let ghost rs = self.contents@;
        let ghost n = rs.len() as int;
        let ghost hs = node_hashes(self.nodes@);
        let count = self.buckets.len() as u64;
        let node_count = self.nodes.len();
        let b = (hash % count) as usize;
        let mut slot = self.buckets[b];
        let ghost mut cur: int = n;
        while slot != 0
            invariant
                self.wf(),
                rs == self.contents@,
                n == rs.len(),
                hs == node_hashes(self.nodes@),
                count == self.buckets@.len(),
                count > 0,
                node_count == self.nodes@.len(),
                hash == fnv1a(key@),
                b == hash % count,
                0 <= cur <= n,
                slot == slot_of(last_below(hs, count, b as int, cur)),
                forall|j: int| cur <= j < n && (hs[j] % count) as int == b ==> (#[trigger] rs[j]).0 != key@,
            decreases cur,
        {
            proof { lemma_last_below(hs, count, b as int, cur); }
            let ghost j = last_below(hs, count, b as int, cur)->Some_0;
            assert(24 * j + 1 <= u64::MAX);
            assert(slot == 24 * j + 1);
            let index = ((slot - 1) / 24) as usize;
            assert(index == j);
            let node = self.nodes[index];
            assert(hs[j] == node.hash);
            if node.hash == hash {
                if self.key_matches(index, key) {
                    return Some(index);
                }
            }
            proof {
                assert forall|k: int| j <= k < n && (hs[k] % count) as int == b implies (#[trigger] rs[k]).0 != key@ by {
                    if k == j {
                        assert(rs[j].0 != key@);
                    }
                }
            }
            slot = node.next;
            proof { cur = j; }
        }
        proof {
            lemma_last_below(hs, count, b as int, cur);
            assert forall|j: int| 0 <= j < n implies (#[trigger] rs[j]).0 != key@ by {
                if rs[j].0 == key@ {
                    assert(hs[j] == fnv1a(rs[j].0));
                }
            }
        }
        None
    }

    /// The value stored under a key, if any.
    pub fn get(&self, key: &[u8]) -> (r: Option<Vec<u8>>)
        requires self.wf(),
        ensures
            match lookup(self@, key@) {
                Some(v) => r matches Some(x) && x@ == v,
                None => r is None,
            },
    {
        let hash = stable_hash(key);
        match self.find(key, hash) {
            None => {
                proof { lemma_lookup_none(self@, key@); }
                None
            },
            Some(j) => {
                proof { lemma_lookup(self@, key@, j as int); }
                let (offset, k, v) = self.record_parts(j);
                let total = self.data.len();
                let start = offset + 8 + k;
                let mut out: Vec<u8> = Vec::new();
                let mut t: usize = 0;
                while t < v
                    invariant
                        t <= v,
                        total == self.data@.len(),
                        start + v <= self.data@.len(),
                        out@ == self.data@.subrange(start as int, start + t),
                    decreases v - t,
                {
                    out.push(self.data[start + t]);
                    t = t + 1;
                    assert(out@ =~= self.data@.subrange(start as int, start + t));
                }
                Some(out)
            },
        }
    }

    /// Whether some record has the key.
    pub fn contains(&self, key: &[u8]) -> (r: bool)
        requires self.wf(),
        ensures r == (lookup(self@, key@) is Some),
    {
        self.get(key).is_some()
    }

    /// Doubles the buckets and relinks every node into its new bucket, in
    /// node order.
    fn rehash(&mut self) -> (r: Result<(), Failure>)
        requires old(self).wf(),
        ensures
            final(self).wf(),
            final(self)@ == old(self)@,
            old(self).bucket_count() * 2 <= usize::MAX ==> (r is Ok
                && final(self).bucket_count() == old(self).bucket_count() * 2),
            old(self).bucket_count() * 2 > usize::MAX ==> (r matches Err(f)
                && is_index_failure(f, "binary index is too large"@)),
    {
        let count = self.buckets.len();
        if count > usize::MAX / 2 {
            return Err(Failure::Other(text::owned("binary index is too large")));
        }
        let new_count = count * 2;
        let mut buckets = Self::empty_buckets(new_count);
        let ghost hs = node_hashes(self.nodes@);
        let ghost old_nodes = self.nodes@;
        let ghost rs = self.contents@;
        let n = self.nodes.len();
        let nc = new_count as u64;
        let mut i: usize = 0;
        while i < n
            invariant
                i <= n,
                n == self.nodes@.len(),
                n == old_nodes.len(),
                n < MAX_ENTRIES,
                nc == new_count,
                nc > 0,
                buckets@.len() == new_count,
                rs == self.contents@,
                self.data == old(self).data,
                self.entries == old(self).entries,
                self.contents == old(self).contents,
                old_nodes == old(self).nodes@,
                hs == node_hashes(old_nodes),
                forall|k: int| 0 <= k < n ==> (#[trigger] self.nodes@[k]).hash == old_nodes[k].hash
                    && self.nodes@[k].record_offset == old_nodes[k].record_offset,
                forall|k: int| 0 <= k < i ==> (#[trigger] self.nodes@[k]).next
                    == slot_of(last_below(hs, nc, (hs[k] % nc) as int, k)),
                forall|c: int| 0 <= c < new_count ==> #[trigger] buckets@[c] == slot_of(last_below(hs, nc, c, i as int)),
            decreases n - i,
        {
            let node = self.nodes[i];
            assert(hs[i as int] == node.hash);
            let b = (node.hash % nc) as usize;
            let previous = buckets[b];
            let relinked = Node { hash: node.hash, record_offset: node.record_offset, next: previous };
            self.nodes.set(i, relinked);
            let slot = (i as u64) * 24 + 1;
            buckets.set(b, slot);
            proof {
                assert(slot == slot_of(Some(i as int)));
                assert forall|c: int| 0 <= c < new_count implies #[trigger] buckets@[c] == slot_of(last_below(hs, nc, c, i + 1)) by {
                    if c != b {
                        assert(last_below(hs, nc, c, i + 1) == last_below(hs, nc, c, i as int));
                    }
                }
            }
            i = i + 1;
        }
        self.buckets = buckets;
        proof {
            assert(node_hashes(self.nodes@) =~= hs);
        }
        Ok(())
    }

    /// Stores a value under a key that no record has yet, and tells whether
    /// it did. A key or value larger than a record part is refused, and so is
    /// growing the buckets past the largest size.
    pub fn insert_if_absent(&mut self, key: &[u8], value: &[u8]) -> (r: Result<bool, Failure>)
        requires
            old(self).wf(),
            old(self)@.len() + 1 < MAX_ENTRIES,
        ensures
            final(self).wf(),
            key@.len() > MAX_RECORD_PART_BYTES || value@.len() > MAX_RECORD_PART_BYTES ==> (r matches Err(f)
                && is_index_failure(f, "temporary binary index record is too large"@)
                && final(self)@ == old(self)@),
            key@.len() <= MAX_RECORD_PART_BYTES && value@.len() <= MAX_RECORD_PART_BYTES
                && is_crowded(old(self)@.len() as u64, old(self).bucket_count() as u64)
                && old(self).bucket_count() * 2 > usize::MAX ==> (r matches Err(f)
                && is_index_failure(f, "binary index is too large"@)
                && final(self)@ == old(self)@),
            r matches Ok(inserted) ==> (inserted == !has_key(old(self)@, key@)
                && final(self)@ == if inserted { old(self)@.push((key@, value@)) } else { old(self)@ }
                && final(self)@ == insert_if_absent_contents(old(self)@, key@, value@)),
            key@.len() <= MAX_RECORD_PART_BYTES && value@.len() <= MAX_RECORD_PART_BYTES
                && !(is_crowded(old(self)@.len() as u64, old(self).bucket_count() as u64)
                && old(self).bucket_count() * 2 > usize::MAX) ==> r is Ok,
    {
        match validate_part(key) {
            Err(f) => return Err(f),
            Ok(()) => {},
        }
        match validate_part(value) {
            Err(f) => return Err(f),
            Ok(()) => {},
        }
        if needs_rehash(self.entries, self.buckets.len() as u64) {
            match self.rehash() {
                Err(f) => return Err(f),
                Ok(()) => {},
            }
        }
        let ghost rs = self.contents@;
        let hash = stable_hash(key);
        match self.find(key, hash) {
            Some(j) => {
                assert(rs[j as int].0 == key@);
                return Ok(false);
            },
            None => {},
        }
        let ghost hs = node_hashes(self.nodes@);
        let ghost n = rs.len() as int;
        let count = self.buckets.len() as u64;
        let b = (hash % count) as usize;
        let record_offset = self.data.len() as u64;
        let bytes = encode_record(key, value);
        let ghost before = self.data@;
        let ghost held = *self;
        let mut t: usize = 0;
        while t < bytes.len()
            invariant
                t <= bytes@.len(),
                self.data@ == before + bytes@.subrange(0, t as int),
                self.buckets == held.buckets,
                self.nodes == held.nodes,
                self.entries == held.entries,
                self.contents == held.contents,
            decreases bytes@.len() - t,
        {
            self.data.push(bytes[t]);
            t = t + 1;
            assert(self.data@ =~= before + bytes@.subrange(0, t as int));
        }
        assert(bytes@.subrange(0, bytes@.len() as int) =~= bytes@);
        let node_count = self.nodes.len();
        let previous = self.buckets[b];
        self.nodes.push(Node { hash, record_offset, next: previous });
        let slot = (node_count as u64) * 24 + 1;
        self.buckets.set(b, slot);
        self.entries = self.entries + 1;
        let ghost entry = (key@, value@);
        self.contents = Ghost(rs.push(entry));
        proof {
            lemma_records_bytes_push(rs, entry);
            let rs2 = rs.push(entry);
            let hs2 = node_hashes(self.nodes@);
            assert(hs2 =~= hs.push(hash));
            assert(rs2.subrange(0, n) =~= rs);
            assert(slot == slot_of(Some(n)));
            assert forall|i: int| 0 <= i < rs2.len() implies (#[trigger] self.nodes@[i]).hash == fnv1a(rs2[i].0)
                && self.nodes@[i].record_offset == record_start(rs2, i) by {
                if i < n {
                    assert(record_start(rs2, i) == record_start(rs, i));
                }
            }
            assert forall|i: int| 0 <= i < self.nodes@.len() implies #[trigger] self.nodes@[i].next
                == slot_of(last_below(hs2, count, (hs2[i] % count) as int, i)) by {
                lemma_last_below_prefix(hs, hash, count, (hs2[i] % count) as int, if i < n { i } else { n });
            }
            assert forall|c: int| 0 <= c < self.buckets@.len() implies #[trigger] self.buckets@[c]
                == slot_of(last_below(hs2, count, c, self.nodes@.len() as int)) by {
                lemma_last_below_prefix(hs, hash, count, c, n);
                if c != b {
                    assert(last_below(hs2, count, c, n + 1) == last_below(hs2, count, c, n));
                }
            }
            assert forall|x: int, y: int| 0 <= x < y < rs2.len() implies rs2[x].0 != rs2[y].0 by {
                if y == n {
                    assert(rs[x].0 != key@);
                }
            }
        }
        Ok(true)
    }

    fn copy_range(&self, start: usize, len: usize) -> (r: Vec<u8>)
        requires start + len <= self.data@.len(),
        ensures r@ == self.data@.subrange(start as int, start + len),
    {
        let total = self.data.len();
        let mut out: Vec<u8> = Vec::new();
        let mut t: usize = 0;
        while t < len
            invariant
                t <= len,
                total == self.data@.len(),
                start + len <= self.data@.len(),
                out@ == self.data@.subrange(start as int, start + t),
            decreases len - t,
        {
            out.push(self.data[start + t]);
            t = t + 1;
            assert(out@ =~= self.data@.subrange(start as int, start + t));
        }
        out
    }

    /// The records in the order they were stored, read one after another
    /// from the record store.
    pub fn records(&self) -> (r: Vec<(Vec<u8>, Vec<u8>)>)
        requires self.wf(),
        ensures
            r@.len() == self@.len(),
            forall|i: int| 0 <= i < self@.len() ==> (#[trigger] r@[i]).0@ == self@[i].0 && r@[i].1@ == self@[i].1,
    {
        let ghost rs = self.contents@;
        let n = self.entries;
        let mut out: Vec<(Vec<u8>, Vec<u8>)> = Vec::new();
        let total = self.data.len();
        let mut offset: usize = 0;
        let mut i: u64 = 0;
        assert(rs.subrange(0, 0) =~= Seq::<(Seq<u8>, Seq<u8>)>::empty());
        while i < n
            invariant
                self.wf(),
                rs == self.contents@,
                n == rs.len(),
                total == self.data@.len(),
                i <= n,
                offset == record_start(rs, i as int),
                out@.len() == i,
                forall|k: int| 0 <= k < i ==> (#[trigger] out@[k]).0@ == rs[k].0 && out@[k].1@ == rs[k].1,
            decreases n - i,
        {
            proof { lemma_record_at(rs, i as int); }
            let (at, k, v) = self.parts_at(offset, Ghost(i as int));
            let key = self.copy_range(at + 8, k);
            let value = self.copy_range(at + 8 + k, v);
            out.push((key, value));
            offset = at + 8 + k + v;
            proof {
                lemma_header_round_trip(rs[i as int].0.len(), rs[i as int].1.len());
                assert(record_bytes(rs[i as int]).len() == 8 + k + v);
            }
            i = i + 1;
        }
        out
    }

    /// The number of records.
    pub fn len(&self) -> (r: u64)
        requires self.wf(),
        ensures r == self@.len(),
    {
        self.entries
    }
}

} // verus!

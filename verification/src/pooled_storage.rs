//! The ids and block bookkeeping of a pool of serialized values. A pool file
//! is a run of blocks; each block starts with a header of eight bytes, the
//! little-endian byte count of the values in it, and holds `BLOCK_WRITE`
//! values. An id whose lowest bit is clear holds its value's bytes itself;
//! any other is the index of a stored value, shifted left, plus one.
use vstd::prelude::*;

use vstd::laws_eq::obeys_concrete_eq;

use crate::compressor::literals::{digest_key, digest_to_key, sha256_digest, sha256_of, DigestKey};
use crate::compressor::topn::{
    has_item, item_index, lemma_touched_item_is_newest, touched, unique_items, TopNHeap,
};

verus! {

pub const INLINING_AS_ID_THRESHOLD_BYTES: usize = 4;

pub const BLOCK_WRITE: usize = 3000;

pub const BLOCK_HEADER_SIZE: u64 = 8;

pub type PooledId = u64;

/// The number that little-endian bytes stand for.
pub open spec fn le_value(bytes: Seq<u8>) -> nat
    decreases bytes.len(),
{
    if bytes.len() == 0 {
        0
    } else {
        bytes[0] as nat + 256 * le_value(bytes.drop_first())
    }
}

/// The `n` bytes of `v`, least significant first.
pub open spec fn le_bytes_of(v: nat, n: nat) -> Seq<u8>
    decreases n,
{
    if n == 0 {
        Seq::empty()
    } else {
        seq![(v % 256) as u8] + le_bytes_of(v / 256, (n - 1) as nat)
    }
}

/// The id of the value stored at index `i`.
pub fn as_noninlined_id(i: usize) -> (r: PooledId)
    requires
        i < 0x8000_0000_0000_0000,
    ensures
        r == 2 * i + 1,
{
    let x = i as u64;
    assert(x << 1u64 == 2 * x) by (bit_vector)
        requires
            x < 0x8000_0000_0000_0000u64,
    ;
    (x << 1u64) + 1
}

proof fn lemma_le_value_bound(bytes: Seq<u8>)
    ensures
        le_value(bytes) < pow256(bytes.len()),
    decreases bytes.len(),
{
    if bytes.len() > 0 {
        lemma_le_value_bound(bytes.drop_first());
    }
}

/// The number of values that `n` bytes hold.
pub open spec fn pow256(n: nat) -> nat
    decreases n,
{
    if n == 0 {
        1
    } else {
        256 * pow256((n - 1) as nat)
    }
}

/// The id of a value whose serialization is at most four bytes: the bytes as
/// a little-endian number, shifted left, so that the lowest bit is clear.
pub fn inline_blob_id(value_blob: &[u8]) -> (r: PooledId)
    requires
        value_blob@.len() <= INLINING_AS_ID_THRESHOLD_BYTES,
    ensures
        r == 2 * le_value(value_blob@),
{
    let n = value_blob.len();
    let mut value: u64 = 0;
    let mut i: usize = n;
    proof {
        lemma_le_value_bound(value_blob@);
        assert(pow256(4) == 0x1_0000_0000) by {
            reveal_with_fuel(pow256, 5);
        }
        assert(value_blob@.skip(n as int) =~= Seq::<u8>::empty());
    }
    while i > 0
        invariant
            n == value_blob@.len() <= 4,
            i <= n,
            value == le_value(value_blob@.skip(i as int)),
            value < pow256((n - i) as nat),
            pow256(4) == 0x1_0000_0000,
        decreases i,
    {
        proof {
            assert(value_blob@.skip(i - 1).drop_first() =~= value_blob@.skip(i as int));
            lemma_pow_mono((n - i + 1) as nat, 4);
        }
        value = value * 256 + value_blob[i - 1] as u64;
        i = i - 1;
    }
    proof {
        assert(value_blob@.skip(0) =~= value_blob@);
        lemma_pow_mono(n as nat, 4);
    }
    value * 2
}

proof fn lemma_pow_mono(a: nat, b: nat)
    requires
        a <= b,
    ensures
        pow256(a) <= pow256(b),
    decreases b,
{
    if a < b {
        lemma_pow_mono(a, (b - 1) as nat);
    }
}

/// What an id stands for: the eight little-endian bytes of an id with the
/// lowest bit clear, shifted right, to be read as the value; or the index of
/// a stored value.
pub fn id_to_maybe_item(id: PooledId) -> (r: Result<Vec<u8>, usize>)
    ensures
        id % 2 == 0 ==> (r matches Ok(b) && b@ == le_bytes_of(id as nat / 2, 8)),
        id % 2 == 1 ==> r == Err::<Vec<u8>, usize>((id / 2) as usize),
{
    if (id & 1) == 0 {
        assert(id & 1 == id % 2) by (bit_vector);
        let mut blob: Vec<u8> = Vec::new();
        let mut x = id >> 1u64;
        assert(id >> 1u64 == id / 2) by (bit_vector);
        let mut i: usize = 0;
        while i < 8
            invariant
                i <= 8,
                blob@ + le_bytes_of(x as nat, (8 - i) as nat) == le_bytes_of(id as nat / 2, 8),
            decreases 8 - i,
        {
            proof {
                assert(le_bytes_of(x as nat, (8 - i) as nat) == seq![(x % 256) as u8] + le_bytes_of(
                    (x / 256) as nat,
                    (8 - i - 1) as nat,
                ));
            }
            blob.push((x % 256) as u8);
            x = x / 256;
            i = i + 1;
            assert(blob@ + le_bytes_of(x as nat, (8 - i) as nat) =~= le_bytes_of(id as nat / 2, 8));
        }
        assert(le_bytes_of(x as nat, 0) =~= Seq::<u8>::empty());
        assert(blob@ =~= le_bytes_of(id as nat / 2, 8));
        return Ok(blob);
    }
    assert(id & 1 == id % 2) by (bit_vector);
    assert(id >> 1u64 == id / 2) by (bit_vector);
    Err((id >> 1u64) as usize)
}

/// Where the value at index `idx` is: whether in the block being written,
/// the number of its block, and its position in the block.
pub fn locate(idx: usize, current_block_first_value_index: usize) -> (r: (bool, usize, usize))
    ensures
        r.0 == (idx >= current_block_first_value_index && idx - current_block_first_value_index
            < BLOCK_WRITE),
        r.1 == idx / BLOCK_WRITE,
        r.2 == idx % BLOCK_WRITE,
{
    let is_in_current_block = idx >= current_block_first_value_index && (idx
        - current_block_first_value_index) < BLOCK_WRITE;
    (is_in_current_block, idx / BLOCK_WRITE, idx % BLOCK_WRITE)
}

/// The bookkeeping of the block being written.
pub struct BlockCounters {
    pub value_count: usize,
    pub current_block_first_value_index: usize,
    pub block_value_count: usize,
    pub current_block_size_bytes: u64,
}

impl BlockCounters {
    /// Counts a value of `blob_len` bytes into the block. A block that is
    /// full answers its byte count, to be written into its header, and a new
    /// block starts after it.
    pub fn post_insert(&mut self, blob_len: u64) -> (r: Option<u64>)
        requires
            old(self).current_block_size_bytes + blob_len <= u64::MAX,
            old(self).block_value_count < usize::MAX,
            old(self).current_block_first_value_index + old(self).block_value_count + 1
                <= usize::MAX,
        ensures
            final(self).value_count == old(self).value_count,
            old(self).block_value_count + 1 >= BLOCK_WRITE ==> {
                &&& r == Some((old(self).current_block_size_bytes + blob_len) as u64)
                &&& final(self).current_block_first_value_index == old(
                    self,
                ).current_block_first_value_index + old(self).block_value_count + 1
                &&& final(self).current_block_size_bytes == 0
                &&& final(self).block_value_count == 0
            },
            old(self).block_value_count + 1 < BLOCK_WRITE ==> {
                &&& r is None
                &&& final(self).current_block_first_value_index == old(
                    self,
                ).current_block_first_value_index
                &&& final(self).current_block_size_bytes == old(self).current_block_size_bytes
                    + blob_len
                &&& final(self).block_value_count == old(self).block_value_count + 1
            },
    {
        self.current_block_size_bytes = self.current_block_size_bytes + blob_len;
        self.block_value_count = self.block_value_count + 1;
        if self.block_value_count >= BLOCK_WRITE {
            let size = self.current_block_size_bytes;
            self.current_block_first_value_index = self.current_block_first_value_index
                + self.block_value_count;
            self.current_block_size_bytes = 0;
            self.block_value_count = 0;
            Some(size)
        } else {
            None
        }
    }
}

proof fn lemma_le_bytes_of_value(blob: Seq<u8>, n: nat)
    requires
        blob.len() <= n,
    ensures
        le_bytes_of(le_value(blob), n) == blob + Seq::new((n - blob.len()) as nat, |k: int| 0u8),
    decreases n,
{
    if n > 0 {
        let v = le_value(blob);
        if blob.len() == 0 {
            lemma_le_bytes_of_value(blob, (n - 1) as nat);
            assert(le_bytes_of(le_value(blob), n) =~= blob + Seq::new(
                (n - blob.len()) as nat,
                |k: int| 0u8,
            ));
        } else {
            let rest = blob.drop_first();
            let b0 = blob[0] as nat;
            let r = le_value(rest);
            assert(v == b0 + 256 * r);
            assert((b0 + 256 * r) % 256 == b0 && (b0 + 256 * r) / 256 == r) by (nonlinear_arith)
                requires
                    b0 < 256,
            ;
            lemma_le_bytes_of_value(rest, (n - 1) as nat);
            assert(le_bytes_of(le_value(blob), n) =~= blob + Seq::new(
                (n - blob.len()) as nat,
                |k: int| 0u8,
            ));
        }
    }
}

/// The id given to a value of at most four bytes reads back as those bytes,
/// padded with zeros to eight; the id given to the stored value at index `i`
/// reads back as `i`.
pub proof fn lemma_ids_read_back(blob: Seq<u8>, i: nat)
    requires
        blob.len() <= INLINING_AS_ID_THRESHOLD_BYTES,
    ensures
        (2 * le_value(blob)) % 2 == 0,
        le_bytes_of((2 * le_value(blob)) / 2, 8) == blob + Seq::new(
            (8 - blob.len()) as nat,
            |k: int| 0u8,
        ),
        (2 * i + 1) % 2 == 1,
        (2 * i + 1) / 2 == i,
{
    assert((2 * le_value(blob)) / 2 == le_value(blob));
    lemma_le_bytes_of_value(blob, 8);
}

/// What storing a value came to: its id, whether its bytes must be
/// written to the pool file, and, where that filled a block, the byte count
/// to write into the block's header.
#[derive(Debug, PartialEq, Eq)]
pub struct PoolInsert {
    pub id: PooledId,
    pub write_blob: bool,
    pub full_block_size: Option<u64>,
}

/// The ids side of a pool file: the counts of its blocks, and the digests of
/// the values written most recently with their ids.
pub struct PoolIndex {
    pub counters: BlockCounters,
    pub recent_writes: TopNHeap<BLOCK_WRITE, DigestKey, PooledId>,
}

impl PoolIndex {
    /// The digests remembered, newest first, each with the id of its value.
    pub open spec fn recent(&self) -> Seq<(DigestKey, PooledId)> {
        self.recent_writes.entries()
    }

    pub open spec fn wf(&self) -> bool {
        self.recent_writes.wf()
    }

    /// An index of an empty pool.
    pub fn new() -> (r: Self)
        ensures
            r.wf(),
            r.recent() == Seq::<(DigestKey, PooledId)>::empty(),
            r.counters == (BlockCounters {
                value_count: 0,
                current_block_first_value_index: 0,
                block_value_count: 0,
                current_block_size_bytes: 0,
            }),
    {
        PoolIndex {
            counters: BlockCounters {
                value_count: 0,
                current_block_first_value_index: 0,
                block_value_count: 0,
                current_block_size_bytes: 0,
            },
            recent_writes: TopNHeap::new(),
        }
    }

    /// Gives `value_blob` its id. A value of at most four bytes is kept in
    /// its id and nothing is written. A value whose digest is remembered
    /// gets the id it had. Any other is the next value of the pool: its
    /// bytes are to be written and the block counts move on.
    pub fn insert_blob(&mut self, value_blob: &[u8]) -> (r: PoolInsert)
        requires
            old(self).wf(),
            old(self).counters.value_count < 0x8000_0000_0000_0000,
            old(self).counters.value_count < usize::MAX,
            old(self).counters.current_block_size_bytes + value_blob@.len() <= u64::MAX,
            old(self).counters.block_value_count < usize::MAX,
            old(self).counters.current_block_first_value_index + old(
                self,
            ).counters.block_value_count + 1 <= usize::MAX,
        ensures
            final(self).wf(),
            value_blob@.len() <= INLINING_AS_ID_THRESHOLD_BYTES ==> {
                &&& r == (PoolInsert {
                    id: (2 * le_value(value_blob@)) as u64,
                    write_blob: false,
                    full_block_size: None,
                })
                &&& *final(self) == *old(self)
            },
            value_blob@.len() > INLINING_AS_ID_THRESHOLD_BYTES ==> {
                let key = digest_key(sha256_of(value_blob@));
                let before = old(self).recent();
                if has_item(before, key) {
                    &&& r == (PoolInsert {
                        id: before[item_index(before, key)].1,
                        write_blob: false,
                        full_block_size: None,
                    })
                    &&& final(self).counters == old(self).counters
                    &&& final(self).recent() == touched(before, key, r.id, BLOCK_WRITE as nat)
                } else {
                    let c = old(self).counters;
                    &&& r.id == 2 * c.value_count + 1
                    &&& r.write_blob
                    &&& final(self).recent() == touched(before, key, r.id, BLOCK_WRITE as nat)
                    &&& final(self).counters.value_count == c.value_count + 1
                    &&& if c.block_value_count + 1 >= BLOCK_WRITE {
                        &&& r.full_block_size == Some((c.current_block_size_bytes
                            + value_blob@.len()) as u64)
                        &&& final(self).counters.current_block_first_value_index
                            == c.current_block_first_value_index + c.block_value_count + 1
                        &&& final(self).counters.current_block_size_bytes == 0
                        &&& final(self).counters.block_value_count == 0
                    } else {
                        &&& r.full_block_size is None
                        &&& final(self).counters.current_block_first_value_index
                            == c.current_block_first_value_index
                        &&& final(self).counters.current_block_size_bytes
                            == c.current_block_size_bytes + value_blob@.len()
                        &&& final(self).counters.block_value_count == c.block_value_count + 1
                    }
                }
            },
    {
        if value_blob.len() <= INLINING_AS_ID_THRESHOLD_BYTES {
            let id = inline_blob_id(value_blob);
            return PoolInsert { id, write_blob: false, full_block_size: None };
        }
        let hash_arr = sha256_digest(value_blob);
        let hash = digest_to_key(&hash_arr);
        proof {
            broadcast use vstd::laws_eq::group_laws_eq;

            assert(obeys_concrete_eq::<DigestKey>());
        }
        match self.recent_writes.get(&hash) {
            Some(id) => {
                let id = *id;
                self.recent_writes.insert_and_increase(hash, id);
                return PoolInsert { id, write_blob: false, full_block_size: None };
            },
            None => {},
        }
        let value_index = self.counters.value_count;
        self.counters.value_count = self.counters.value_count + 1;
        let id = as_noninlined_id(value_index);
        self.recent_writes.insert_and_increase(hash, id);
        let full_block_size = self.counters.post_insert(value_blob.len() as u64);
        PoolInsert { id, write_blob: true, full_block_size }
    }
}

/// A value of more than four bytes, once given its id, is remembered with
/// it: given again next, it gets the same id and is not written again.
pub proof fn lemma_stored_again_keeps_its_id(
    before: Seq<(DigestKey, PooledId)>,
    blob: Seq<u8>,
    id: PooledId,
)
    requires
        unique_items(before),
        blob.len() > INLINING_AS_ID_THRESHOLD_BYTES,
    ensures
        ({
            let key = digest_key(sha256_of(blob));
            let given = if has_item(before, key) {
                before[item_index(before, key)].1
            } else {
                id
            };
            let after = touched(before, key, given, BLOCK_WRITE as nat);
            &&& unique_items(after)
            &&& has_item(after, key)
            &&& after[item_index(after, key)].1 == given
        }),
{
    let key = digest_key(sha256_of(blob));
    let given = if has_item(before, key) {
        before[item_index(before, key)].1
    } else {
        id
    };
    lemma_touched_item_is_newest(before, key, given, BLOCK_WRITE as nat);
}

} // verus!

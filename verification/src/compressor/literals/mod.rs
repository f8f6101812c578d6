//! Pools of serialized tag literals, which hand out ids for them.
use vstd::prelude::*;

use core::marker::PhantomData;
use sha2::{Digest, Sha256};
use vstd::laws_eq::obeys_concrete_eq;

use crate::compressor::topn::{has_item, item_index, touched, TopNHeap};
use crate::serialize_fast::{be_value, read_be, byte_limit, lemma_be_value_bound};
use crate::varint::{varint_encoding, ToVarint};

pub mod literal_value;
pub mod packed_strings;
pub mod string_prefix_view;
pub mod structured_elements;

use literal_value::{literal_of, literal_value_bytes, serializable, LiteralValue, LiteralValueView};
use structured_elements::address::{address_bytes, address_serializable, address_value_inserts, OsmAddress};

verus! {

pub type LiteralId = u64;

/// Serialized literals of at most this many bytes are stored in their id.
pub const INLINING_THRESHOLD_BYTES: usize = 3;

/// How many recently written literals a pool remembers.
pub const RECENT_WRITES: usize = 300;

/// A SHA-256 digest as four big-endian 64-bit words.
pub type DigestKey = (u64, u64, u64, u64);

/// What `Sha256::digest` gives for `data`.
pub uninterp spec fn sha256_of(data: Seq<u8>) -> Seq<u8>;

/// `Sha256::digest` of `sha2`: the 32-byte SHA-256 digest of `data`, which
/// is named, not stated.
#[verifier::external_body]
pub(crate) fn sha256_digest(data: &[u8]) -> (r: [u8; 32])
    ensures
        r@ == sha256_of(data@),
{
    Sha256::digest(data).into()
}

/// The key a digest is remembered under: its four 8-byte words.
pub open spec fn digest_key(d: Seq<u8>) -> DigestKey {
    (
        be_value(d.subrange(0, 8)) as u64,
        be_value(d.subrange(8, 16)) as u64,
        be_value(d.subrange(16, 24)) as u64,
        be_value(d.subrange(24, 32)) as u64,
    )
}

pub(crate) fn digest_to_key(d: &[u8; 32]) -> (r: DigestKey)
    ensures
        r == digest_key(d@),
{
    let mut s: &[u8] = d.as_slice();
    assert(s@ == d@);
    let a = read_be(&mut s, 8).unwrap();
    assert(s@ == d@.skip(8));
    let b = read_be(&mut s, 8).unwrap();
    let c = read_be(&mut s, 8).unwrap();
    let e = read_be(&mut s, 8).unwrap();
    proof {
        assert(d@.take(8) =~= d@.subrange(0, 8));
        assert(d@.skip(8).take(8) =~= d@.subrange(8, 16));
        assert(d@.skip(8).skip(8).take(8) =~= d@.subrange(16, 24));
        assert(d@.skip(8).skip(8).skip(8).take(8) =~= d@.subrange(24, 32));
    }
    (a, b, c, e)
}

/// The state of a pool: how many literals it has stored, the remembered
/// recent ones (digest and index, newest first), and the bytes it wrote.
pub struct PoolModel {
    pub value_count: nat,
    pub recent: Seq<(DigestKey, usize)>,
    pub written: Seq<u8>,
}

/// The id of a tiny serialized literal: its bytes as a big-endian number,
/// shifted left by one.
pub open spec fn inline_id(blob: Seq<u8>) -> u64 {
    (be_value(blob) * 2) as u64
}

/// The id of the literal stored at index `i`, shifted left by one.
pub open spec fn stored_id(i: usize) -> u64 {
    (i as u64) << 1u64
}

/// A pool after storing `blob`, and the id it answers: tiny blobs become
/// their id and leave the pool alone; a blob whose digest is remembered gets
/// its earlier index; any other is written out under the next index. The
/// digest is touched in the recent list either way.
pub open spec fn pool_insert(m: PoolModel, blob: Seq<u8>) -> (PoolModel, u64) {
    if blob.len() <= INLINING_THRESHOLD_BYTES {
        (m, inline_id(blob))
    } else {
        let key = digest_key(sha256_of(blob));
        let (i, m2) = if has_item(m.recent, key) {
            (m.recent[item_index(m.recent, key)].1, m)
        } else {
            (
                (m.value_count + 1) as usize,
                PoolModel { value_count: m.value_count + 1, written: m.written + blob, ..m },
            )
        };
        (PoolModel { recent: touched(m2.recent, key, i, RECENT_WRITES as nat), ..m2 }, stored_id(i))
    }
}

/// A pool of serialized literals of type `T`. What it stores goes to a byte
/// buffer that `flush` hands out.
pub struct LiteralPool<T> {
    value_count: usize,
    destination: Vec<u8>,
    recent_writes: TopNHeap<RECENT_WRITES, DigestKey, usize>,
    __phantom: PhantomData<T>,
}

impl<T> LiteralPool<T> {
    pub closed spec fn model(&self) -> PoolModel {
        PoolModel {
            value_count: self.value_count as nat,
            recent: self.recent_writes.entries(),
            written: self.destination@,
        }
    }

    pub closed spec fn wf(&self) -> bool {
        self.recent_writes.wf()
    }

    /// An empty pool.
    pub fn new() -> (r: Self)
        ensures
            r.wf(),
            r.model() == (PoolModel { value_count: 0, recent: Seq::empty(), written: Seq::empty() }),
    {
        LiteralPool {
            destination: Vec::new(),
            value_count: 0,
            recent_writes: TopNHeap::new(),
            __phantom: PhantomData,
        }
    }

    /// How many literals the pool has stored.
    pub fn value_count(&self) -> (r: usize)
        ensures
            r == self.model().value_count,
    {
        self.value_count
    }

    /// Hands out the bytes written since the last flush.
    pub fn flush(&mut self) -> (r: Vec<u8>)
        requires
            old(self).wf(),
        ensures
            final(self).wf(),
            r@ == old(self).model().written,
            final(self).model() == (PoolModel { written: Seq::empty(), ..old(self).model() }),
    {
        let mut out = Vec::new();
        out.append(&mut self.destination);
        out
    }
}

/// Stores a serialized literal in `pool` and answers its id.
pub fn insert_type_irrelevant<T>(pool: &mut LiteralPool<T>, value_blob: Vec<u8>) -> (r: LiteralId)
    requires
        old(pool).wf(),
        old(pool).model().value_count < usize::MAX,
    ensures
        final(pool).wf(),
        (final(pool).model(), r) == pool_insert(old(pool).model(), value_blob@),
{
    if value_blob.len() <= INLINING_THRESHOLD_BYTES {
        let mut s = value_blob.as_slice();
        let n = value_blob.len();
        let value = read_be(&mut s, n).unwrap();
        proof {
            assert(value_blob@.take(n as int) =~= value_blob@);
            lemma_be_value_bound(value_blob@);
            assert(byte_limit(3) == 0x100_0000) by {
                reveal_with_fuel(byte_limit, 4);
            }
            assert(byte_limit(n as nat) <= byte_limit(3)) by {
                reveal_with_fuel(byte_limit, 4);
            }
        }
        return value * 2;
    }
    let hash_arr = sha256_digest(value_blob.as_slice());
    let hash = digest_to_key(&hash_arr);
    proof {
        broadcast use vstd::laws_eq::group_laws_eq;
        assert(obeys_concrete_eq::<DigestKey>());
    }
    let i: usize = match pool.recent_writes.get(&hash) {
        Some(x) => *x,
        None => {
            let i: usize = pool.value_count + 1;
            let mut blob = value_blob;
            pool.destination.append(&mut blob);
            pool.value_count = pool.value_count + 1;
            i
        },
    };
    pool.recent_writes.insert_and_increase(hash, i);
    (i as u64) << 1u64
}

/// A literal's well-known key.
#[derive(PartialEq, Eq, Debug, Clone, Copy, Structural)]
pub enum WellKnownKey {
    Waterway,
}

impl WellKnownKey {
    pub open spec fn spec_discriminant(self) -> u8 {
        match self {
            WellKnownKey::Waterway => 0,
        }
    }

    /// The number a key is written as.
    pub fn discriminant(&self) -> (r: u8)
        ensures
            r == self.spec_discriminant(),
    {
        match self {
            WellKnownKey::Waterway => 0,
        }
    }
}

/// The key of a tag: a well-known one, or any string.
#[derive(Debug)]
pub enum LiteralKey {
    WellKnownKey(WellKnownKey),
    Str(String),
}

impl LiteralKey {
    /// The key that a tag's key text is stored as.
    pub fn from(value: &str) -> (r: LiteralKey)
        ensures
            r matches LiteralKey::Str(s) && s@ == value@,
    {
        LiteralKey::Str(String::from_str(value))
    }
}

/// A group of tags with a structure of their own.
#[derive(Debug)]
pub enum WellKnownKeyVar {
    Address(OsmAddress),
    MapFeatureType,
}

/// A tag, or a structured group of tags, as stored in a pool.
#[derive(Debug)]
pub enum Literal {
    KeyVar(LiteralKey, LiteralValue),
    WellKnownKeyVar(WellKnownKeyVar),
    Ref(usize),
}

/// A pool state after a value is stored in it: the state, and the id written
/// as a variable-length integer.
pub open spec fn value_insert(m: PoolModel, v: LiteralValueView) -> (PoolModel, Seq<u8>) {
    let (m2, id) = pool_insert(m, literal_value_bytes(v));
    (m2, varint_encoding(id as nat))
}

/// Whether a literal is a key and value that can be written.
pub open spec fn keyvar_serializable(l: Literal) -> bool {
    l matches Literal::KeyVar(_, v) && serializable(v@)
}

/// The bytes of a key and value, with the values pool after storing them: a
/// header with bit six set for a string key (which is stored as a value),
/// else the well-known key's number, then the ids.
pub open spec fn keyvar_bytes(l: Literal, m1: PoolModel) -> (Seq<u8>, PoolModel) {
    match l {
        Literal::KeyVar(LiteralKey::WellKnownKey(w), v) => {
            let (m2, vid) = value_insert(m1, v@);
            (seq![w.spec_discriminant()] + vid, m2)
        },
        Literal::KeyVar(LiteralKey::Str(s), v) => {
            let (m2, kid) = value_insert(m1, literal_of(s@));
            let (m3, vid) = value_insert(m2, v@);
            (seq![0x40u8] + kid + vid, m3)
        },
        _ => (Seq::empty(), m1),
    }
}

/// The number of values that writing a key and value stores.
pub open spec fn keyvar_value_inserts(l: Literal) -> nat {
    match l {
        Literal::KeyVar(LiteralKey::Str(_), _) => 2,
        _ => 1,
    }
}

/// Whether a literal can be written: a key and value, or an address.
pub open spec fn literal_serializable(l: Literal) -> bool {
    match l {
        Literal::KeyVar(_, v) => serializable(v@),
        Literal::WellKnownKeyVar(WellKnownKeyVar::Address(a)) => address_serializable(a),
        _ => false,
    }
}

/// The number of values that writing a literal may store.
pub open spec fn literal_value_inserts(l: Literal) -> nat {
    match l {
        Literal::WellKnownKeyVar(WellKnownKeyVar::Address(a)) => address_value_inserts(a),
        _ => 2,
    }
}

/// The number of literals that writing a literal may store.
pub open spec fn literal_literal_inserts(l: Literal) -> nat {
    match l {
        Literal::WellKnownKeyVar(WellKnownKeyVar::Address(a)) => match a.extra {
            Some(e) => match e.arbitrary {
                Some(list) => list@.len(),
                None => 0,
            },
            None => 0,
        },
        _ => 0,
    }
}

/// The bytes a literal is written as, with the literals pool and the values
/// pool after writing it.
pub open spec fn literal_bytes(l: Literal, m0: PoolModel, m1: PoolModel) -> (
    Seq<u8>,
    PoolModel,
    PoolModel,
) {
    match l {
        Literal::WellKnownKeyVar(WellKnownKeyVar::Address(a)) => {
            let (b, n0, n1) = address_bytes(a, m0, m1);
            (seq![0x80u8] + b, n0, n1)
        },
        _ => {
            let (b, n1) = keyvar_bytes(l, m1);
            (b, m0, n1)
        },
    }
}

impl LiteralPool<LiteralValue> {
    /// Stores a value and answers its id.
    pub fn insert(&mut self, item: &LiteralValue) -> (r: LiteralId)
        requires
            old(self).wf(),
            old(self).model().value_count < usize::MAX,
            serializable(item@),
        ensures
            final(self).wf(),
            (final(self).model(), r) == pool_insert(old(self).model(), literal_value_bytes(item@)),
    {
        let mut blob = Vec::new();
        item.minimally_serialize(&mut blob);
        assert(blob@ =~= literal_value_bytes(item@));
        insert_type_irrelevant(self, blob)
    }
}

/// Writes the id of a stored value to `out`.
fn write_value_id(pool: &mut LiteralPool<LiteralValue>, v: &LiteralValue, out: &mut Vec<u8>)
    requires
        old(pool).wf(),
        old(pool).model().value_count < usize::MAX,
        serializable(v@),
    ensures
        final(pool).wf(),
        final(pool).model() == value_insert(old(pool).model(), v@).0,
        final(out)@ == old(out)@ + value_insert(old(pool).model(), v@).1,
        final(pool).model().value_count <= old(pool).model().value_count + 1,
{
    let id = pool.insert(v);
    id.write_varint(out);
}

impl Literal {
    /// Writes a key and value, storing them in the values pool.
    fn serialize_keyvar(&self, write_to: &mut Vec<u8>, values: &mut LiteralPool<LiteralValue>)
        requires
            keyvar_serializable(*self),
            old(values).wf(),
            old(values).model().value_count + 2 <= usize::MAX,
        ensures
            final(values).wf(),
            (final(write_to)@, final(values).model()) == ({
                let (b, m) = keyvar_bytes(*self, old(values).model());
                (old(write_to)@ + b, m)
            }),
            final(values).model().value_count <= old(values).model().value_count
                + keyvar_value_inserts(*self),
    {
        let ghost start = write_to@;
        match self {
            Literal::KeyVar(k, v) => {
                match k {
                    LiteralKey::WellKnownKey(wkk) => {
                        write_to.push(wkk.discriminant());
                    },
                    LiteralKey::Str(s) => {
                        write_to.push(0b0100_0000u8);
                        let key_value = LiteralValue::from(s.as_str());
                        write_value_id(values, &key_value, write_to);
                    },
                }
                write_value_id(values, v, write_to);
                assert(write_to@ =~= start + keyvar_bytes(*self, old(values).model()).0);
            },
            _ => {},
        }
    }

    /// Writes this literal, storing what it refers to in the pools.
    pub fn minimally_serialize(
        &self,
        write_to: &mut Vec<u8>,
        pools: &mut (LiteralPool<Literal>, LiteralPool<LiteralValue>),
    )
        requires
            literal_serializable(*self),
            old(pools).0.wf(),
            old(pools).1.wf(),
            old(pools).1.model().value_count + literal_value_inserts(*self) <= usize::MAX,
            old(pools).0.model().value_count + literal_literal_inserts(*self) <= usize::MAX,
        ensures
            final(pools).0.wf(),
            final(pools).1.wf(),
            ({
                let (b, m0, m1) = literal_bytes(*self, old(pools).0.model(), old(pools).1.model());
                &&& final(write_to)@ == old(write_to)@ + b
                &&& final(pools).0.model() == m0
                &&& final(pools).1.model() == m1
            }),
            final(pools).0.model().value_count <= old(pools).0.model().value_count
                + literal_literal_inserts(*self),
            final(pools).1.model().value_count <= old(pools).1.model().value_count
                + literal_value_inserts(*self),
    {
        match self {
            Literal::WellKnownKeyVar(WellKnownKeyVar::Address(addr)) => {
                let ghost start = write_to@;
                write_to.push(0b1000_0000u8);
                addr.minimally_serialize(write_to, pools);
                assert(write_to@ =~= start + literal_bytes(
                    *self,
                    old(pools).0.model(),
                    old(pools).1.model(),
                ).0);
            },
            _ => {
                self.serialize_keyvar(write_to, &mut pools.1);
            },
        }
    }
}

impl LiteralPool<Literal> {
    /// Writes a literal (storing what it refers to in the values pool) and
    /// stores the bytes in the literals pool; answers the literal's id.
    pub fn insert(
        pools: &mut (LiteralPool<Literal>, LiteralPool<LiteralValue>),
        item: &Literal,
    ) -> (r: LiteralId)
        requires
            literal_serializable(*item),
            old(pools).0.wf(),
            old(pools).1.wf(),
            old(pools).1.model().value_count + literal_value_inserts(*item) <= usize::MAX,
            old(pools).0.model().value_count + literal_literal_inserts(*item) + 1 <= usize::MAX,
        ensures
            final(pools).0.wf(),
            final(pools).1.wf(),
            ({
                let (b, m0, m1) = literal_bytes(*item, old(pools).0.model(), old(pools).1.model());
                let (n0, id) = pool_insert(m0, b);
                &&& r == id
                &&& final(pools).0.model() == n0
                &&& final(pools).1.model() == m1
            }),
            final(pools).0.model().value_count <= old(pools).0.model().value_count
                + literal_literal_inserts(*item) + 1,
            final(pools).1.model().value_count <= old(pools).1.model().value_count
                + literal_value_inserts(*item),
    {
        let mut blob = Vec::new();
        item.minimally_serialize(&mut blob, pools);
        assert(blob@ =~= literal_bytes(*item, old(pools).0.model(), old(pools).1.model()).0);
        insert_type_irrelevant(&mut pools.0, blob)
    }
}

} // verus!

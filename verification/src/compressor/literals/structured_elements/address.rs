use vstd::prelude::*;

use crate::compressor::literals::literal_value::{literal_of, number_of, opt_view, str_eq, take_field, LiteralValue, LiteralValueView};
use crate::compressor::inlining::literals_of_tags;
use crate::compressor::osm_tags::{has_key, has_pair, key_index, kept, lemma_key_index, unique_keys};
use crate::compressor::literals::LiteralKey;
use vstd::string::StringSliceAdditionalSpecFns;
use crate::compressor::literals::string_prefix_view::{lemma_ascii_len, StrAsciiPrefixView};
use crate::compressor::osm_tags::Tags;
use crate::compressor::literals::{
    keyvar_bytes, keyvar_serializable, pool_insert, value_insert, Literal, LiteralPool,
    PoolModel, insert_type_irrelevant,
};
use crate::varint::{varint_encoding, ToVarint};

use super::{field_step, insert_with_byte, opt_serializable};

verus! {

/// An address: the common fields, and the rare ones in `extra`.
#[derive(Debug)]
pub struct OsmAddress {
    pub number: Option<LiteralValue>,
    pub street: Option<LiteralValue>,
    pub city: Option<LiteralValue>,
    pub state: Option<LiteralValue>,
    pub prefix: Option<LiteralValue>,
    pub province: Option<LiteralValue>,
    pub extra: Option<OsmAddressExtra>,
}

/// The rarer fields of an address, the rarest in `even_more_extra`, and any
/// other tags under the address prefix in `arbitrary`.
#[derive(Debug)]
pub struct OsmAddressExtra {
    pub housename: Option<LiteralValue>,
    pub unit: Option<LiteralValue>,
    pub floor: Option<LiteralValue>,
    pub postbox: Option<LiteralValue>,
    pub full: Option<LiteralValue>,
    pub postcode: Option<LiteralValue>,
    pub even_more_extra: Option<OsmAddressEvenMoreExtra>,
    pub arbitrary: Option<Vec<Literal>>,
}

/// The rarest fields of an address.
#[derive(Debug)]
pub struct OsmAddressEvenMoreExtra {
    pub hamlet: Option<LiteralValue>,
    pub suburb: Option<LiteralValue>,
    pub subdistrict: Option<LiteralValue>,
    pub county: Option<LiteralValue>,
    pub door: Option<LiteralValue>,
    pub flats: Option<LiteralValue>,
    pub block: Option<LiteralValue>,
    pub block_number: Option<LiteralValue>,
}

impl OsmAddressEvenMoreExtra {
    pub open spec fn spec_is_none(&self) -> bool {
        &&& self.hamlet is None
        &&& self.suburb is None
        &&& self.subdistrict is None
        &&& self.county is None
        &&& self.door is None
        &&& self.flats is None
        &&& self.block is None
        &&& self.block_number is None
    }

    pub fn is_none(&self) -> (r: bool)
        ensures
            r == self.spec_is_none(),
    {
        self.hamlet.is_none() && self.suburb.is_none() && self.subdistrict.is_none()
            && self.county.is_none() && self.door.is_none() && self.flats.is_none()
            && self.block.is_none() && self.block_number.is_none()
    }

    pub open spec fn serializable(&self) -> bool {
        &&& opt_serializable(self.hamlet)
        &&& opt_serializable(self.suburb)
        &&& opt_serializable(self.subdistrict)
        &&& opt_serializable(self.county)
        &&& opt_serializable(self.door)
        &&& opt_serializable(self.flats)
        &&& opt_serializable(self.block)
        &&& opt_serializable(self.block_number)
    }
}

impl OsmAddressExtra {
    /// Extra fields that are all absent.
    pub fn none() -> (r: Self)
        ensures
            r.spec_is_none(),
    {
        OsmAddressExtra {
            housename: None,
            unit: None,
            floor: None,
            postbox: None,
            full: None,
            postcode: None,
            even_more_extra: None,
            arbitrary: None,
        }
    }

    pub open spec fn spec_is_none(&self) -> bool {
        &&& self.housename is None
        &&& self.unit is None
        &&& self.floor is None
        &&& self.postbox is None
        &&& self.full is None
        &&& self.postcode is None
        &&& self.even_more_extra is None
        &&& self.arbitrary is None
    }

    pub fn is_none(&self) -> (r: bool)
        ensures
            r == self.spec_is_none(),
    {
        self.housename.is_none() && self.unit.is_none() && self.floor.is_none()
            && self.postbox.is_none() && self.full.is_none() && self.postcode.is_none()
            && self.even_more_extra.is_none() && self.arbitrary.is_none()
    }

    /// The number of tags under the prefix kept as they are.
    pub open spec fn arbitrary_len(&self) -> nat {
        match self.arbitrary {
            Some(list) => list@.len(),
            None => 0,
        }
    }

    pub open spec fn serializable(&self) -> bool {
        &&& opt_serializable(self.housename)
        &&& opt_serializable(self.unit)
        &&& opt_serializable(self.floor)
        &&& opt_serializable(self.postbox)
        &&& opt_serializable(self.full)
        &&& opt_serializable(self.postcode)
        &&& (self.even_more_extra matches Some(x) ==> x.serializable())
        &&& (self.arbitrary matches Some(list) ==> forall|i: int|
            0 <= i < list@.len() ==> keyvar_serializable(#[trigger] list@[i]))
    }
}

/// Whether an address can be written: its values can, and the tags it keeps
/// as they are are keys with values.
pub open spec fn address_serializable(a: OsmAddress) -> bool {
    &&& opt_serializable(a.number)
    &&& opt_serializable(a.street)
    &&& opt_serializable(a.city)
    &&& opt_serializable(a.state)
    &&& opt_serializable(a.prefix)
    &&& opt_serializable(a.province)
    &&& (a.extra matches Some(e) ==> e.serializable())
}

/// At most how many values writing an address stores.
pub open spec fn address_value_inserts(a: OsmAddress) -> nat {
    20 + 2 * match a.extra {
        Some(e) => e.arbitrary_len(),
        None => 0,
    }
}

/// The house number of an address that has nothing but a number and a
/// street, where the number is from 1 to 64: such an address fits a header
/// byte and the street's id.
pub open spec fn karlsruhe_number(a: OsmAddress) -> Option<isize> {
    if a.is_karlsruhe_minimal_spec() {
        match a.number {
            Some(v) => match number_of(v@) {
                Some(n) => if 0 < n <= 64 {
                    Some(n)
                } else {
                    None
                },
                None => None,
            },
            None => None,
        }
    } else {
        None
    }
}

/// Tags kept as they are, each written as a literal and stored in the
/// literals pool; their ids one after the other.
pub open spec fn keyvars_insert(list: Seq<Literal>, m0: PoolModel, m1: PoolModel) -> (
    Seq<u8>,
    PoolModel,
    PoolModel,
)
    decreases list.len(),
{
    if list.len() == 0 {
        (Seq::empty(), m0, m1)
    } else {
        let (b, n0, n1) = keyvars_insert(list.drop_last(), m0, m1);
        let (blob, n1b) = keyvar_bytes(list.last(), n1);
        let (n0b, id) = pool_insert(n0, blob);
        (b + varint_encoding(id as nat), n0b, n1b)
    }
}

/// The common fields of an address, from the number down to the prefix.
pub open spec fn common_steps(a: OsmAddress, st: (PoolModel, Seq<u8>, u8)) -> (PoolModel, Seq<u8>, u8) {
    let s = field_step(st, a.number, 6);
    let s = field_step(s, a.street, 5);
    let s = field_step(s, a.city, 4);
    let s = field_step(s, a.state, 3);
    let s = field_step(s, a.province, 2);
    field_step(s, a.prefix, 1)
}

/// The extra fields of an address, from the house name down to the postcode.
pub open spec fn extra_steps(e: OsmAddressExtra, st: (PoolModel, Seq<u8>, u8)) -> (
    PoolModel,
    Seq<u8>,
    u8,
) {
    let t = field_step(st, e.housename, 7);
    let t = field_step(t, e.unit, 6);
    let t = field_step(t, e.floor, 5);
    let t = field_step(t, e.postbox, 4);
    let t = field_step(t, e.full, 3);
    field_step(t, e.postcode, 2)
}

/// The rarest fields of an address, from the hamlet down to the block number.
pub open spec fn even_more_steps(x: OsmAddressEvenMoreExtra, st: (PoolModel, Seq<u8>, u8)) -> (
    PoolModel,
    Seq<u8>,
    u8,
) {
    let u = field_step(st, x.hamlet, 7);
    let u = field_step(u, x.suburb, 6);
    let u = field_step(u, x.subdistrict, 5);
    let u = field_step(u, x.county, 4);
    let u = field_step(u, x.door, 3);
    let u = field_step(u, x.flats, 2);
    let u = field_step(u, x.block, 1);
    field_step(u, x.block_number, 0)
}

/// The header byte of a minimal address with number `n`: the two top bits
/// set, `n - 1` below them.
pub open spec fn karlsruhe_header(n: isize) -> u8 {
    ((0u8 | 0x80u8) | 0x40u8) | ((n - 1) as u8)
}

/// The extra fields of an address after the common ones were written to
/// `storage`: the bytes, the literals pool, the values pool, and the second
/// header byte.
pub open spec fn extra_part(e: OsmAddressExtra, m0: PoolModel, m1: PoolModel, storage: Seq<u8>) -> (
    Seq<u8>,
    PoolModel,
    PoolModel,
    u8,
) {
    let t = extra_steps(e, (m1, storage, 0u8));
    let (m_values, st, second) = match e.even_more_extra {
        Some(x) => {
            let u = even_more_steps(x, (t.0, t.1, 0u8));
            (u.0, u.1.update(2, u.2), t.2 | (1u8 << 1u8))
        },
        None => (t.0, t.1, t.2),
    };
    let (ab, n0, n1) = match e.arbitrary {
        Some(list) => keyvars_insert(list@, m0, m_values),
        None => (Seq::empty(), m0, m_values),
    };
    (st + ab, n0, n1, second)
}

/// The header bytes an address starts with before its fields are set: one,
/// two with extra fields, three with the rarest ones.
pub open spec fn header_placeholder(a: OsmAddress) -> Seq<u8> {
    match a.extra {
        Some(e) => if e.even_more_extra is Some {
            seq![0u8, 0u8, 0u8]
        } else {
            seq![0u8, 0u8]
        },
        None => seq![0u8],
    }
}

/// An address written in full: a header byte with a bit for each present
/// common field (the lowest bit for extra fields), a second one for the extra
/// fields (bit one for the rarest), a third one for the rarest, then the ids
/// of the present values in that order, then the ids of the tags kept as
/// they are.
pub open spec fn address_standard(a: OsmAddress, m0: PoolModel, m1: PoolModel) -> (
    Seq<u8>,
    PoolModel,
    PoolModel,
) {
    let s = common_steps(a, (m1, header_placeholder(a), 0u8));
    match a.extra {
        None => (s.1.update(0, s.2), m0, s.0),
        Some(e) => {
            let (st, n0, n1, second) = extra_part(e, m0, s.0, s.1);
            (st.update(1, second).update(0, s.2 | (1u8 << 0u8)), n0, n1)
        },
    }
}

/// The bytes an address is written as, with the literals pool and the values
/// pool after writing it: a minimal address with a small number as its header
/// byte and the id of the street, any other in full.
#[verifier::opaque]
pub open spec fn address_bytes(a: OsmAddress, m0: PoolModel, m1: PoolModel) -> (
    Seq<u8>,
    PoolModel,
    PoolModel,
) {
    match karlsruhe_number(a) {
        Some(n) => {
            let (m, id) = value_insert(m1, a.street.unwrap()@);
            (seq![karlsruhe_header(n)] + id, m0, m)
        },
        None => address_standard(a, m0, m1),
    }
}

impl OsmAddress {
    pub open spec fn spec_is_none(&self) -> bool {
        &&& self.state is None
        &&& self.number is None
        &&& self.street is None
        &&& self.city is None
        &&& self.prefix is None
        &&& self.province is None
        &&& self.extra is None
    }

    pub open spec fn is_karlsruhe_minimal_spec(&self) -> bool {
        &&& self.state is None
        &&& self.number is Some
        &&& self.street is Some
        &&& self.city is None
        &&& self.prefix is None
        &&& self.province is None
        &&& self.extra is None
    }

    /// `None` for an address with no field, else the address.
    pub fn as_option(self) -> (r: Option<Self>)
        ensures
            self.spec_is_none() ==> r is None,
            !self.spec_is_none() ==> r == Some(self),
    {
        if self.is_none() {
            None
        } else {
            Some(self)
        }
    }

    pub fn is_none(&self) -> (r: bool)
        ensures
            r == self.spec_is_none(),
    {
        self.state.is_none() && self.number.is_none() && self.street.is_none()
            && self.city.is_none() && self.prefix.is_none() && self.province.is_none()
            && self.extra.is_none()
    }

    /// Whether the address has a number and a street and nothing else.
    pub fn is_karlsruhe_minimal(&self) -> (r: bool)
        ensures
            r == self.is_karlsruhe_minimal_spec(),
    {
        self.state.is_none() && self.number.is_some() && self.street.is_some()
            && self.city.is_none() && self.prefix.is_none() && self.province.is_none()
            && self.extra.is_none()
    }

    /// An address with no field.
    pub fn none() -> (r: Self)
        ensures
            r.spec_is_none(),
    {
        OsmAddress {
            number: None,
            street: None,
            city: None,
            state: None,
            prefix: None,
            province: None,
            extra: None,
        }
    }

    /// Writes the address, storing its values in the values pool and the tags
    /// it keeps as they are in the literals pool.
    pub fn minimally_serialize(
        &self,
        write_to: &mut Vec<u8>,
        pool: &mut (LiteralPool<Literal>, LiteralPool<LiteralValue>),
    )
        requires
            address_serializable(*self),
            old(pool).0.wf(),
            old(pool).1.wf(),
            old(pool).1.model().value_count + address_value_inserts(*self) <= usize::MAX,
            old(pool).0.model().value_count + match self.extra {
                Some(e) => e.arbitrary_len(),
                None => 0,
            } <= usize::MAX,
        ensures
            final(pool).0.wf(),
            final(pool).1.wf(),
            ({
                let (b, m0, m1) = address_bytes(*self, old(pool).0.model(), old(pool).1.model());
                &&& final(write_to)@ == old(write_to)@ + b
                &&& final(pool).0.model() == m0
                &&& final(pool).1.model() == m1
            }),
            final(pool).0.model().value_count <= old(pool).0.model().value_count + match self.extra {
                Some(e) => e.arbitrary_len(),
                None => 0,
            },
            final(pool).1.model().value_count <= old(pool).1.model().value_count
                + address_value_inserts(*self),
    {
        proof {
            reveal(address_bytes);
        }
        if self.is_karlsruhe_minimal() {
            match self.number.as_ref().unwrap().as_number() {
                Some(num) => {
                    if num > 0 && num <= 0b11_1111 + 1 {
                        let mut first_byte = 0b0000_0000u8;
                        first_byte = first_byte | 0b1000_0000;
                        first_byte = first_byte | 0b0100_0000;
                        first_byte = first_byte | (num - 1) as u8;
                        let ghost start = write_to@;
                        write_to.push(first_byte);
                        let street_id = pool.1.insert(self.street.as_ref().unwrap());
                        street_id.write_varint(write_to);
                        proof {
                            let (b, _, _) = address_bytes(*self, old(pool).0.model(), old(pool).1.model());
                            assert(write_to@ =~= start + b);
                        }
                        return;
                    }
                },
                None => {},
            }
        }
        let mut bytes = serialize_standard(self, pool);
        write_to.append(&mut bytes);
    }
}

/// Writes an address in full.
fn serialize_standard(a: &OsmAddress, pool: &mut (LiteralPool<Literal>, LiteralPool<LiteralValue>)) -> (r: Vec<u8>)
    requires
        address_serializable(*a),
        old(pool).0.wf(),
        old(pool).1.wf(),
        old(pool).1.model().value_count + address_value_inserts(*a) <= usize::MAX,
        old(pool).0.model().value_count + match a.extra {
            Some(e) => e.arbitrary_len(),
            None => 0,
        } <= usize::MAX,
    ensures
        final(pool).0.wf(),
        final(pool).1.wf(),
        (r@, final(pool).0.model(), final(pool).1.model()) == address_standard(
            *a,
            old(pool).0.model(),
            old(pool).1.model(),
        ),
        final(pool).0.model().value_count <= old(pool).0.model().value_count + match a.extra {
            Some(e) => e.arbitrary_len(),
            None => 0,
        },
        final(pool).1.model().value_count <= old(pool).1.model().value_count
            + address_value_inserts(*a),
{
    let mut first_byte = 0b0000_0000u8;
    let mut extra_storage = Vec::<u8>::new();
    extra_storage.push(0);
    match &a.extra {
        Some(e) => {
            extra_storage.push(0u8);
            if e.even_more_extra.is_some() {
                extra_storage.push(0u8);
            }
        },
        None => {},
    }
    assert(extra_storage@ =~= header_placeholder(*a));
    serialize_common(a, &mut pool.1, &mut extra_storage, &mut first_byte);
    if let Some(extra) = &a.extra {
        first_byte = first_byte | (1u8 << 0u8);
        let second_byte = serialize_extra_part(extra, pool, &mut extra_storage);
        extra_storage.set(1, second_byte);
    }
    extra_storage.set(0, first_byte);
    extra_storage
}

/// Writes the extra fields of an address after its common ones, and answers
/// the second header byte.
fn serialize_extra_part(
    e: &OsmAddressExtra,
    pool: &mut (LiteralPool<Literal>, LiteralPool<LiteralValue>),
    storage: &mut Vec<u8>,
) -> (second: u8)
    requires
        e.serializable(),
        old(storage)@.len() >= if e.even_more_extra is Some { 3int } else { 2int },
        old(pool).0.wf(),
        old(pool).1.wf(),
        old(pool).1.model().value_count + 14 + 2 * e.arbitrary_len() <= usize::MAX,
        old(pool).0.model().value_count + e.arbitrary_len() <= usize::MAX,
    ensures
        final(pool).0.wf(),
        final(pool).1.wf(),
        (final(storage)@, final(pool).0.model(), final(pool).1.model(), second) == extra_part(
            *e,
            old(pool).0.model(),
            old(pool).1.model(),
            old(storage)@,
        ),
        final(storage)@.len() >= old(storage)@.len(),
        final(pool).0.model().value_count <= old(pool).0.model().value_count + e.arbitrary_len(),
        final(pool).1.model().value_count <= old(pool).1.model().value_count + 14 + 2
            * e.arbitrary_len(),
{
    let mut second_byte = 0u8;
    let mut third_byte = 0u8;
    serialize_extra(e, &mut pool.1, storage, &mut second_byte);
    if let Some(even_more_extra) = &e.even_more_extra {
        second_byte = second_byte | (1u8 << 1u8);
        serialize_even_more(even_more_extra, &mut pool.1, storage, &mut third_byte);
        storage.set(2, third_byte);
    }
    if let Some(arbitrary) = &e.arbitrary {
        insert_keyvars(arbitrary, pool, storage);
    }
    second_byte
}

fn serialize_common(
    a: &OsmAddress,
    pool: &mut LiteralPool<LiteralValue>,
    storage: &mut Vec<u8>,
    byte: &mut u8,
)
    requires
        address_serializable(*a),
        old(pool).wf(),
        old(pool).model().value_count + 6 <= usize::MAX,
    ensures
        final(pool).wf(),
        (final(pool).model(), final(storage)@, *final(byte)) == common_steps(
            *a,
            (old(pool).model(), old(storage)@, *old(byte)),
        ),
        final(pool).model().value_count <= old(pool).model().value_count + 6,
        final(storage)@.len() >= old(storage)@.len(),
{
    insert_with_byte(&a.number, pool, storage, byte, 6);
    insert_with_byte(&a.street, pool, storage, byte, 5);
    insert_with_byte(&a.city, pool, storage, byte, 4);
    insert_with_byte(&a.state, pool, storage, byte, 3);
    insert_with_byte(&a.province, pool, storage, byte, 2);
    insert_with_byte(&a.prefix, pool, storage, byte, 1);
}

fn serialize_extra(
    e: &OsmAddressExtra,
    pool: &mut LiteralPool<LiteralValue>,
    storage: &mut Vec<u8>,
    byte: &mut u8,
)
    requires
        e.serializable(),
        old(pool).wf(),
        old(pool).model().value_count + 6 <= usize::MAX,
    ensures
        final(pool).wf(),
        (final(pool).model(), final(storage)@, *final(byte)) == extra_steps(
            *e,
            (old(pool).model(), old(storage)@, *old(byte)),
        ),
        final(pool).model().value_count <= old(pool).model().value_count + 6,
        final(storage)@.len() >= old(storage)@.len(),
{
    insert_with_byte(&e.housename, pool, storage, byte, 7);
    insert_with_byte(&e.unit, pool, storage, byte, 6);
    insert_with_byte(&e.floor, pool, storage, byte, 5);
    insert_with_byte(&e.postbox, pool, storage, byte, 4);
    insert_with_byte(&e.full, pool, storage, byte, 3);
    insert_with_byte(&e.postcode, pool, storage, byte, 2);
}

fn serialize_even_more(
    x: &OsmAddressEvenMoreExtra,
    pool: &mut LiteralPool<LiteralValue>,
    storage: &mut Vec<u8>,
    byte: &mut u8,
)
    requires
        x.serializable(),
        old(pool).wf(),
        old(pool).model().value_count + 8 <= usize::MAX,
    ensures
        final(pool).wf(),
        (final(pool).model(), final(storage)@, *final(byte)) == even_more_steps(
            *x,
            (old(pool).model(), old(storage)@, *old(byte)),
        ),
        final(pool).model().value_count <= old(pool).model().value_count + 8,
        final(storage)@.len() >= old(storage)@.len(),
{
    insert_with_byte(&x.hamlet, pool, storage, byte, 7);
    insert_with_byte(&x.suburb, pool, storage, byte, 6);
    insert_with_byte(&x.subdistrict, pool, storage, byte, 5);
    insert_with_byte(&x.county, pool, storage, byte, 4);
    insert_with_byte(&x.door, pool, storage, byte, 3);
    insert_with_byte(&x.flats, pool, storage, byte, 2);
    insert_with_byte(&x.block, pool, storage, byte, 1);
    insert_with_byte(&x.block_number, pool, storage, byte, 0);
}

/// Writes each key and value of `list` as a literal, stores it in the
/// literals pool and appends its id to `out`.
fn insert_keyvars(
    list: &Vec<Literal>,
    pool: &mut (LiteralPool<Literal>, LiteralPool<LiteralValue>),
    out: &mut Vec<u8>,
)
    requires
        forall|i: int| 0 <= i < list@.len() ==> keyvar_serializable(#[trigger] list@[i]),
        old(pool).0.wf(),
        old(pool).1.wf(),
        old(pool).1.model().value_count + 2 * list@.len() <= usize::MAX,
        old(pool).0.model().value_count + list@.len() <= usize::MAX,
    ensures
        final(pool).0.wf(),
        final(pool).1.wf(),
        ({
            let (b, m0, m1) = keyvars_insert(list@, old(pool).0.model(), old(pool).1.model());
            &&& final(out)@ == old(out)@ + b
            &&& final(pool).0.model() == m0
            &&& final(pool).1.model() == m1
        }),
        final(pool).0.model().value_count <= old(pool).0.model().value_count + list@.len(),
        final(pool).1.model().value_count <= old(pool).1.model().value_count + 2 * list@.len(),
{
    let ghost m0 = pool.0.model();
    let ghost m1 = pool.1.model();
    let ghost start = out@;
    let mut i: usize = 0;
    while i < list.len()
        invariant
            forall|j: int| 0 <= j < list@.len() ==> keyvar_serializable(#[trigger] list@[j]),
            i <= list@.len(),
            pool.0.wf(),
            pool.1.wf(),
            m1.value_count + 2 * list@.len() <= usize::MAX,
            m0.value_count + list@.len() <= usize::MAX,
            pool.0.model().value_count <= m0.value_count + i,
            pool.1.model().value_count <= m1.value_count + 2 * i,
            ({
                let (b, n0, n1) = keyvars_insert(list@.take(i as int), m0, m1);
                &&& out@ == start + b
                &&& pool.0.model() == n0
                &&& pool.1.model() == n1
            }),
        decreases list@.len() - i,
    {
        proof {
            assert(list@.take(i + 1).drop_last() =~= list@.take(i as int));
            assert(list@.take(i + 1).last() == list@[i as int]);
        }
        let kv = &list[i];
        let ghost values_before = pool.1.model();
        let mut blob = Vec::new();
        kv.serialize_keyvar(&mut blob, &mut pool.1);
        assert(blob@ =~= keyvar_bytes(list@[i as int], values_before).0);
        let id = insert_type_irrelevant(&mut pool.0, blob);
        id.write_varint(out);
        i = i + 1;
    }
    assert(list@.take(list@.len() as int) =~= list@);
}

/// The rarest address fields taken out of the tags, and the tags left.
pub open spec fn even_more_take(s: Seq<(Seq<char>, Seq<char>)>, p: Seq<char>) -> (
    Seq<Option<LiteralValueView>>,
    Seq<(Seq<char>, Seq<char>)>,
) {
    let (a0, s1) = take_field(s, p + ":hamlet"@);
    let (a1, s2) = take_field(s1, p + ":suburb"@);
    let (a2, s3) = take_field(s2, p + ":subdistrict"@);
    let (a3, s4) = take_field(s3, p + ":county"@);
    let (a4, s5) = take_field(s4, p + ":door"@);
    let (a5, s6) = take_field(s5, p + ":flats"@);
    let (a6, s7) = take_field(s6, p + ":block"@);
    let (a7, s8) = take_field(s7, p + ":block_number"@);
    (seq![a0, a1, a2, a3, a4, a5, a6, a7], s8)
}

pub open spec fn even_more_matches(x: OsmAddressEvenMoreExtra, fields: Seq<Option<LiteralValueView>>) -> bool {
    &&& opt_view(x.hamlet) == fields[0]
    &&& opt_view(x.suburb) == fields[1]
    &&& opt_view(x.subdistrict) == fields[2]
    &&& opt_view(x.county) == fields[3]
    &&& opt_view(x.door) == fields[4]
    &&& opt_view(x.flats) == fields[5]
    &&& opt_view(x.block) == fields[6]
    &&& opt_view(x.block_number) == fields[7]
}

/// The extra address fields taken out of the tags, and the tags left.
pub open spec fn extra_take(s: Seq<(Seq<char>, Seq<char>)>, p: Seq<char>) -> (
    Seq<Option<LiteralValueView>>,
    Seq<(Seq<char>, Seq<char>)>,
) {
    let (a0, s1) = take_field(s, p + ":housename"@);
    let (a1, s2) = take_field(s1, p + ":unit"@);
    let (a2, s3) = take_field(s2, p + ":floor"@);
    let (a3, s4) = take_field(s3, p + ":postbox"@);
    let (a4, s5) = take_field(s4, p + ":full"@);
    let (a5, s6) = take_field(s5, p + ":postcode"@);
    (seq![a0, a1, a2, a3, a4, a5], s6)
}

pub open spec fn extra_fields_match(x: OsmAddressExtra, fields: Seq<Option<LiteralValueView>>) -> bool {
    &&& opt_view(x.housename) == fields[0]
    &&& opt_view(x.unit) == fields[1]
    &&& opt_view(x.floor) == fields[2]
    &&& opt_view(x.postbox) == fields[3]
    &&& opt_view(x.full) == fields[4]
    &&& opt_view(x.postcode) == fields[5]
}

/// The common address fields taken out of the tags, and the tags left.
pub open spec fn address_take(s: Seq<(Seq<char>, Seq<char>)>, p: Seq<char>) -> (
    Seq<Option<LiteralValueView>>,
    Seq<(Seq<char>, Seq<char>)>,
) {
    let (a0, s1) = take_field(s, p + ":housenumber"@);
    let (a1, s2) = take_field(s1, p + ":street"@);
    let (a2, s3) = take_field(s2, p + ":city"@);
    let (a3, s4) = take_field(s3, p + ":state"@);
    let (a4, s5) = take_field(s4, p + ":province"@);
    (seq![a0, a1, a2, a3, a4], s5)
}

/// Taking a field out of tags with unique keys answers the value of its key
/// and leaves every other tag as it was, keys still unique.
proof fn lemma_take_field_by_key(
    s: Seq<(Seq<char>, Seq<char>)>,
    k: Seq<char>,
    k2: Seq<char>,
    v: Seq<char>,
)
    requires
        unique_keys(s),
    ensures
        has_pair(s, k, v) ==> take_field(s, k).0 == Some(literal_of(v)),
        !has_key(s, k) ==> take_field(s, k).0 is None,
        unique_keys(take_field(s, k).1),
        k2 != k ==> (has_pair(take_field(s, k).1, k2, v) <==> has_pair(s, k2, v)),
        k2 != k ==> (has_key(take_field(s, k).1, k2) <==> has_key(s, k2)),
{
    if has_pair(s, k, v) {
        let i = choose|i: int| 0 <= i < s.len() && #[trigger] s[i] == (k, v);
        lemma_key_index(s, k, i);
    }
    if has_key(s, k) {
        let i = key_index(s, k);
        let t = s.remove(i);
        assert forall|a: int, b: int| 0 <= a < b < t.len() implies #[trigger] t[a].0 != #[trigger] t[b].0 by {
            let a2 = if a < i { a } else { a + 1 };
            let b2 = if b < i { b } else { b + 1 };
            assert(t[a] == s[a2] && t[b] == s[b2]);
        }
        if k2 != k {
            if has_pair(s, k2, v) {
                let j = choose|j: int| 0 <= j < s.len() && #[trigger] s[j] == (k2, v);
                let j2 = if j < i { j } else { j - 1 };
                assert(t[j2] == s[j]);
            }
            if has_pair(t, k2, v) {
                let j = choose|j: int| 0 <= j < t.len() && #[trigger] t[j] == (k2, v);
                let j2 = if j < i { j } else { j + 1 };
                assert(s[j2] == t[j]);
            }
            if has_key(s, k2) {
                let j = choose|j: int| 0 <= j < s.len() && #[trigger] s[j].0 == k2;
                let j2 = if j < i { j } else { j - 1 };
                assert(t[j2] == s[j]);
            }
            if has_key(t, k2) {
                let j = choose|j: int| 0 <= j < t.len() && #[trigger] t[j].0 == k2;
                let j2 = if j < i { j } else { j + 1 };
                assert(s[j2] == t[j]);
            }
        }
    }
}

/// The value that tags with unique keys give key `k`: that of its tag, as
/// stored, or none without one.
pub open spec fn tagged(s: Seq<(Seq<char>, Seq<char>)>, k: Seq<char>, f: Option<LiteralValueView>) -> bool {
    &&& forall|v: Seq<char>| has_pair(s, k, v) ==> f == Some(literal_of(v))
    &&& !has_key(s, k) ==> f is None
}

/// Fields taken out of tags one key after another: the value each key
/// gives, and the tags left.
pub open spec fn take_fields(s: Seq<(Seq<char>, Seq<char>)>, keys: Seq<Seq<char>>) -> (
    Seq<Option<LiteralValueView>>,
    Seq<(Seq<char>, Seq<char>)>,
)
    decreases keys.len(),
{
    if keys.len() == 0 {
        (seq![], s)
    } else {
        let (a, s1) = take_field(s, keys[0]);
        let (rest, s2) = take_fields(s1, keys.drop_first());
        (seq![a] + rest, s2)
    }
}

/// Taking fields of distinct keys out of tags with unique keys gives each
/// field the value of its own key's tag.
proof fn lemma_take_fields_by_key(s: Seq<(Seq<char>, Seq<char>)>, keys: Seq<Seq<char>>)
    requires
        unique_keys(s),
        forall|i: int, j: int| 0 <= i < j < keys.len() ==> keys[i] != keys[j],
    ensures
        take_fields(s, keys).0.len() == keys.len(),
        forall|i: int| 0 <= i < keys.len() ==> tagged(s, #[trigger] keys[i], take_fields(s, keys).0[i]),
    decreases keys.len(),
{
    if keys.len() > 0 {
        let k = keys[0];
        let (a, s1) = take_field(s, k);
        let tail = keys.drop_first();
        lemma_take_field_by_key(s, k, k, seq![]);
        assert forall|v: Seq<char>| has_pair(s, k, v) implies a == Some(literal_of(v)) by {
            lemma_take_field_by_key(s, k, k, v);
        }
        assert forall|k2: Seq<char>, v: Seq<char>| k2 != k implies (#[trigger] has_pair(s1, k2, v)
            <==> has_pair(s, k2, v)) && (has_key(s1, k2) <==> has_key(s, k2)) by {
            lemma_take_field_by_key(s, k, k2, v);
        }
        assert forall|i: int, j: int| 0 <= i < j < tail.len() implies tail[i] != tail[j] by {
            assert(tail[i] == keys[i + 1] && tail[j] == keys[j + 1]);
        }
        lemma_take_fields_by_key(s1, tail);
        let f = take_fields(s, keys).0;
        assert forall|i: int| 0 <= i < keys.len() implies tagged(s, #[trigger] keys[i], f[i]) by {
            if i > 0 {
                assert(keys[i] == tail[i - 1]);
                assert(f[i] == take_fields(s1, tail).0[i - 1]);
                assert(keys[i] != k);
                assert(tagged(s1, tail[i - 1], take_fields(s1, tail).0[i - 1]));
                assert forall|v: Seq<char>| has_pair(s, keys[i], v) implies f[i] == Some(literal_of(v)) by {
                    assert(has_pair(s1, keys[i], v));
                }
            }
        }
    }
}

/// Keys made of one prefix and different suffixes differ.
proof fn lemma_suffixes_differ(p: Seq<char>, a: Seq<char>, b: Seq<char>)
    requires
        a != b,
    ensures
        p + a != p + b,
{
    if p + a == p + b {
        assert((p + a).skip(p.len() as int) =~= a);
        assert((p + b).skip(p.len() as int) =~= b);
    }
}

/// Each extra address field holds the value of its own tag:
/// `<prefix>:housename`, `:unit`, `:floor`, `:postbox`, `:full` and
/// `:postcode`, in that order.
pub proof fn lemma_extra_fields_by_key(s: Seq<(Seq<char>, Seq<char>)>, p: Seq<char>)
    requires
        unique_keys(s),
    ensures
        ({
            let f = extra_take(s, p).0;
            &&& f.len() == 6
            &&& tagged(s, p + ":housename"@, f[0])
            &&& tagged(s, p + ":unit"@, f[1])
            &&& tagged(s, p + ":floor"@, f[2])
            &&& tagged(s, p + ":postbox"@, f[3])
            &&& tagged(s, p + ":full"@, f[4])
            &&& tagged(s, p + ":postcode"@, f[5])
        }),
{
    reveal_strlit(":housename");
    reveal_strlit(":unit");
    reveal_strlit(":floor");
    reveal_strlit(":postbox");
    reveal_strlit(":full");
    reveal_strlit(":postcode");
    let sufs = seq![":housename"@, ":unit"@, ":floor"@, ":postbox"@, ":full"@, ":postcode"@];
    let keys = seq![p + ":housename"@, p + ":unit"@, p + ":floor"@, p + ":postbox"@, p + ":full"@, p + ":postcode"@];
    assert(forall|i: int| 0 <= i < 6 ==> #[trigger] keys[i] == p + sufs[i]);
    assert forall|i: int, j: int| 0 <= i < j < sufs.len() implies sufs[i] != sufs[j] by {
        assert(sufs[i][1] != sufs[j][1] || sufs[i].len() != sufs[j].len());
    }
    assert forall|i: int, j: int| 0 <= i < j < keys.len() implies keys[i] != keys[j] by {
        lemma_suffixes_differ(p, sufs[i], sufs[j]);
    }
    lemma_take_fields_by_key(s, keys);
    reveal_with_fuel(take_fields, 7);
    assert(extra_take(s, p).0 =~= take_fields(s, keys).0);
}

/// Each of the rarest address fields holds the value of its own tag:
/// `<prefix>:hamlet`, `:suburb`, `:subdistrict`, `:county`, `:door`,
/// `:flats`, `:block` and `:block_number`, in that order.
/// The keys of the rarest address fields differ from one another.
proof fn lemma_even_more_keys_differ(p: Seq<char>)
    ensures
        ({
            let keys = seq![
                p + ":hamlet"@,
                p + ":suburb"@,
                p + ":subdistrict"@,
                p + ":county"@,
                p + ":door"@,
                p + ":flats"@,
                p + ":block"@,
                p + ":block_number"@,
            ];
            forall|i: int, j: int| 0 <= i < j < keys.len() ==> keys[i] != keys[j]
        }),
{
    reveal_strlit(":hamlet");
    reveal_strlit(":suburb");
    reveal_strlit(":subdistrict");
    reveal_strlit(":county");
    reveal_strlit(":door");
    reveal_strlit(":flats");
    reveal_strlit(":block");
    reveal_strlit(":block_number");
    let sufs = seq![
        ":hamlet"@,
        ":suburb"@,
        ":subdistrict"@,
        ":county"@,
        ":door"@,
        ":flats"@,
        ":block"@,
        ":block_number"@,
    ];
    let keys = seq![
        p + ":hamlet"@,
        p + ":suburb"@,
        p + ":subdistrict"@,
        p + ":county"@,
        p + ":door"@,
        p + ":flats"@,
        p + ":block"@,
        p + ":block_number"@,
    ];
    assert(forall|i: int| 0 <= i < 8 ==> #[trigger] keys[i] == p + sufs[i]);
    assert forall|i: int, j: int| 0 <= i < j < sufs.len() implies sufs[i] != sufs[j] by {
        assert(sufs[i][1] != sufs[j][1] || sufs[i].len() != sufs[j].len());
    }
    assert forall|i: int, j: int| 0 <= i < j < keys.len() implies keys[i] != keys[j] by {
        lemma_suffixes_differ(p, sufs[i], sufs[j]);
    }
}

/// Each of the rarest address fields holds the value of its own tag:
/// `<prefix>:hamlet`, `:suburb`, `:subdistrict`, `:county`, `:door`,
/// `:flats`, `:block` and `:block_number`, in that order.
pub proof fn lemma_even_more_fields_by_key(s: Seq<(Seq<char>, Seq<char>)>, p: Seq<char>)
    requires
        unique_keys(s),
    ensures
        ({
            let f = even_more_take(s, p).0;
            &&& f.len() == 8
            &&& tagged(s, p + ":hamlet"@, f[0])
            &&& tagged(s, p + ":suburb"@, f[1])
            &&& tagged(s, p + ":subdistrict"@, f[2])
            &&& tagged(s, p + ":county"@, f[3])
            &&& tagged(s, p + ":door"@, f[4])
            &&& tagged(s, p + ":flats"@, f[5])
            &&& tagged(s, p + ":block"@, f[6])
            &&& tagged(s, p + ":block_number"@, f[7])
        }),
{
    let keys = seq![
        p + ":hamlet"@,
        p + ":suburb"@,
        p + ":subdistrict"@,
        p + ":county"@,
        p + ":door"@,
        p + ":flats"@,
        p + ":block"@,
        p + ":block_number"@,
    ];
    lemma_even_more_keys_differ(p);
    lemma_take_fields_by_key(s, keys);
    reveal_with_fuel(take_fields, 9);
    assert(even_more_take(s, p).0 =~= take_fields(s, keys).0);
}

/// Each common address field holds the value of its own tag: the house
/// number that of `<prefix>:housenumber`, the street that of
/// `<prefix>:street`, the city that of `<prefix>:city`, the state that of
/// `<prefix>:state` and the province that of `<prefix>:province`.
pub proof fn lemma_address_fields_by_key(s: Seq<(Seq<char>, Seq<char>)>, p: Seq<char>)
    requires
        unique_keys(s),
    ensures
        ({
            let f = address_take(s, p).0;
            &&& f.len() == 5
            &&& tagged(s, p + ":housenumber"@, f[0])
            &&& tagged(s, p + ":street"@, f[1])
            &&& tagged(s, p + ":city"@, f[2])
            &&& tagged(s, p + ":state"@, f[3])
            &&& tagged(s, p + ":province"@, f[4])
        }),
{
    reveal_strlit(":housenumber");
    reveal_strlit(":street");
    reveal_strlit(":city");
    reveal_strlit(":state");
    reveal_strlit(":province");
    let kh = p + ":housenumber"@;
    let ks = p + ":street"@;
    let kc = p + ":city"@;
    let kt = p + ":state"@;
    let kp = p + ":province"@;
    assert(kh.len() == p.len() + 12 && ks.len() == p.len() + 7 && kc.len() == p.len() + 5 && kt.len()
        == p.len() + 6 && kp.len() == p.len() + 9);
    let (a0, s1) = take_field(s, kh);
    let (a1, s2) = take_field(s1, ks);
    let (a2, s3) = take_field(s2, kc);
    let (a3, s4) = take_field(s3, kt);
    let (a4, s5) = take_field(s4, kp);
    assert forall|v: Seq<char>| #![trigger has_pair(s, kh, v)] has_pair(s, kh, v) ==> a0 == Some(literal_of(v)) by {
        lemma_take_field_by_key(s, kh, kh, v);
    }
    lemma_take_field_by_key(s, kh, kh, seq![]);
    assert forall|k2: Seq<char>, v: Seq<char>| k2 != kh ==> (#[trigger] has_pair(s1, k2, v) <==> has_pair(s, k2, v)) && (has_key(s1, k2) <==> has_key(s, k2)) by {
        lemma_take_field_by_key(s, kh, k2, v);
    }
    assert forall|v: Seq<char>| #![trigger has_pair(s, ks, v)] has_pair(s, ks, v) ==> a1 == Some(literal_of(v)) by {
        lemma_take_field_by_key(s1, ks, ks, v);
    }
    lemma_take_field_by_key(s1, ks, ks, seq![]);
    assert forall|k2: Seq<char>, v: Seq<char>| k2 != kh && k2 != ks ==> (#[trigger] has_pair(s2, k2, v) <==> has_pair(s, k2, v)) && (has_key(s2, k2) <==> has_key(s, k2)) by {
        lemma_take_field_by_key(s1, ks, k2, v);
    }
    assert forall|v: Seq<char>| #![trigger has_pair(s, kc, v)] has_pair(s, kc, v) ==> a2 == Some(literal_of(v)) by {
        lemma_take_field_by_key(s2, kc, kc, v);
    }
    lemma_take_field_by_key(s2, kc, kc, seq![]);
    assert forall|k2: Seq<char>, v: Seq<char>| k2 != kh && k2 != ks && k2 != kc ==> (#[trigger] has_pair(s3, k2, v) <==> has_pair(s, k2, v)) && (has_key(s3, k2) <==> has_key(s, k2)) by {
        lemma_take_field_by_key(s2, kc, k2, v);
    }
    assert forall|v: Seq<char>| #![trigger has_pair(s, kt, v)] has_pair(s, kt, v) ==> a3 == Some(literal_of(v)) by {
        lemma_take_field_by_key(s3, kt, kt, v);
    }
    lemma_take_field_by_key(s3, kt, kt, seq![]);
    assert forall|k2: Seq<char>, v: Seq<char>| k2 != kh && k2 != ks && k2 != kc && k2 != kt ==> (#[trigger] has_pair(s4, k2, v) <==> has_pair(s, k2, v)) && (has_key(s4, k2) <==> has_key(s, k2)) by {
        lemma_take_field_by_key(s3, kt, k2, v);
    }
    assert forall|v: Seq<char>| #![trigger has_pair(s, kp, v)] has_pair(s, kp, v) ==> a4 == Some(literal_of(v)) by {
        lemma_take_field_by_key(s4, kp, kp, v);
    }
    lemma_take_field_by_key(s4, kp, kp, seq![]);
}

/// Whether every one of `fields` is absent.
pub open spec fn all_none(fields: Seq<Option<LiteralValueView>>) -> bool {
    forall|i: int| 0 <= i < fields.len() ==> #[trigger] fields[i] is None
}

/// Whether `p` starts `k`.
pub open spec fn starts_with(k: Seq<char>, p: Seq<char>) -> bool {
    p.len() <= k.len() && k.subrange(0, p.len() as int) == p
}

/// Which tags have a key that `p` starts.
pub open spec fn prefix_keep(s: Seq<(Seq<char>, Seq<char>)>, p: Seq<char>) -> Seq<bool> {
    Seq::new(s.len(), |i: int| starts_with(s[i].0, p))
}

/// Tags with the first `n` characters of their keys cut off.
pub open spec fn stripped(s: Seq<(Seq<char>, Seq<char>)>, n: nat) -> Seq<(Seq<char>, Seq<char>)> {
    Seq::new(s.len(), |i: int| (s[i].0.skip(n as int), s[i].1))
}

impl OsmAddressEvenMoreExtra {
    /// Takes the rarest fields of an address out of `tags`.
    pub fn make_from_tags(tags: &mut Tags, tag_building: &mut StrAsciiPrefixView) -> (r: Self)
        requires
            old(tags).wf(),
            old(tag_building).wf(),
            old(tag_building).prefix_len() + 13 <= old(tag_building).max_length(),
        ensures
            final(tags).wf(),
            *final(tag_building) == *old(tag_building),
            ({
                let (fields, rest) = even_more_take(old(tags).view_pairs(), old(tag_building).prefix());
                &&& even_more_matches(r, fields)
                &&& final(tags).view_pairs() == rest
            }),
            ({
                let s = old(tags).view_pairs();
                let p = old(tag_building).prefix();
                &&& tagged(s, p + ":hamlet"@, opt_view(r.hamlet))
                &&& tagged(s, p + ":suburb"@, opt_view(r.suburb))
                &&& tagged(s, p + ":subdistrict"@, opt_view(r.subdistrict))
                &&& tagged(s, p + ":county"@, opt_view(r.county))
                &&& tagged(s, p + ":door"@, opt_view(r.door))
                &&& tagged(s, p + ":flats"@, opt_view(r.flats))
                &&& tagged(s, p + ":block"@, opt_view(r.block))
                &&& tagged(s, p + ":block_number"@, opt_view(r.block_number))
            }),
    {
        proof {
            lemma_even_more_fields_by_key(tags.view_pairs(), tag_building.prefix());
        }
        proof {
            reveal_strlit(":hamlet");
            lemma_ascii_len(":hamlet");
        }
        let key = tag_building.with(":hamlet");
        let hamlet = LiteralValue::from_tag_and_remove(tags, key.as_str());
        proof {
            reveal_strlit(":suburb");
            lemma_ascii_len(":suburb");
        }
        let key = tag_building.with(":suburb");
        let suburb = LiteralValue::from_tag_and_remove(tags, key.as_str());
        proof {
            reveal_strlit(":subdistrict");
            lemma_ascii_len(":subdistrict");
        }
        let key = tag_building.with(":subdistrict");
        let subdistrict = LiteralValue::from_tag_and_remove(tags, key.as_str());
        proof {
            reveal_strlit(":county");
            lemma_ascii_len(":county");
        }
        let key = tag_building.with(":county");
        let county = LiteralValue::from_tag_and_remove(tags, key.as_str());
        proof {
            reveal_strlit(":door");
            lemma_ascii_len(":door");
        }
        let key = tag_building.with(":door");
        let door = LiteralValue::from_tag_and_remove(tags, key.as_str());
        proof {
            reveal_strlit(":flats");
            lemma_ascii_len(":flats");
        }
        let key = tag_building.with(":flats");
        let flats = LiteralValue::from_tag_and_remove(tags, key.as_str());
        proof {
            reveal_strlit(":block");
            lemma_ascii_len(":block");
        }
        let key = tag_building.with(":block");
        let block = LiteralValue::from_tag_and_remove(tags, key.as_str());
        proof {
            reveal_strlit(":block_number");
            lemma_ascii_len(":block_number");
        }
        let key = tag_building.with(":block_number");
        let block_number = LiteralValue::from_tag_and_remove(tags, key.as_str());
        OsmAddressEvenMoreExtra { hamlet, suburb, subdistrict, county, door, flats, block, block_number }
    }
}


/// The tags of `s` whose key `p` starts, with `p` cut off the keys.
pub open spec fn prefixed(s: Seq<(Seq<char>, Seq<char>)>, p: Seq<char>) -> Seq<(Seq<char>, Seq<char>)> {
    stripped(kept(s, prefix_keep(s, p)), p.len())
}

/// Whether `p` starts `k`.
fn str_starts_with(k: &str, p: &str) -> (r: bool)
    ensures
        r == starts_with(k@, p@),
{
    let n = p.unicode_len();
    if k.unicode_len() < n {
        return false;
    }
    let mut i: usize = 0;
    while i < n
        invariant
            n == p@.len() <= k@.len(),
            i <= n,
            forall|j: int| 0 <= j < i ==> k@[j] == p@[j],
        decreases n - i,
    {
        if k.get_char(i) != p.get_char(i) {
            assert(k@.subrange(0, n as int)[i as int] != p@[i as int]);
            return false;
        }
        i = i + 1;
    }
    assert(k@.subrange(0, n as int) =~= p@);
    true
}

/// Keeps only the tags whose key `prefix` starts, and lists them as key and
/// value literals with the prefix cut off the keys.
fn retain_prefixed(tags: &mut Tags, prefix: &str) -> (r: Vec<Literal>)
    requires
        old(tags).wf(),
    ensures
        final(tags).wf(),
        final(tags).view_pairs() == kept(old(tags).view_pairs(), prefix_keep(old(tags).view_pairs(), prefix@)),
        literals_of_tags(r@, prefixed(old(tags).view_pairs(), prefix@)),
{
    let ghost s = tags.view_pairs();
    let mut keep: Vec<bool> = Vec::new();
    let mut list: Vec<Literal> = Vec::new();
    let n = tags.len();
    let plen = prefix.unicode_len();
    let mut i: usize = 0;
    while i < n
        invariant
            s == tags.view_pairs(),
            n == s.len(),
            plen == prefix@.len(),
            i <= n,
            keep@ == prefix_keep(s, prefix@).take(i as int),
            literals_of_tags(list@, stripped(kept(s.take(i as int), keep@), prefix@.len())),
        decreases n - i,
    {
        let (k, v) = tags.get(i);
        let ghost before = list@;
        proof {
            assert(s.take(i + 1).drop_last() =~= s.take(i as int));
        }
        if str_starts_with(k, prefix) {
            let rest = k.substring_char(plen, k.unicode_len());
            list.push(Literal::KeyVar(LiteralKey::from(rest), LiteralValue::from(v)));
            keep.push(true);
        } else {
            keep.push(false);
        }
        proof {
            assert(keep@ =~= prefix_keep(s, prefix@).take(i + 1));
            assert(keep@.drop_last() =~= prefix_keep(s, prefix@).take(i as int));
            let t = stripped(kept(s.take(i + 1), keep@), prefix@.len());
            let t0 = stripped(kept(s.take(i as int), keep@.drop_last()), prefix@.len());
            assert forall|j: int| 0 <= j < t.len() implies (#[trigger] list@[j] matches Literal::KeyVar(
                LiteralKey::Str(kk),
                vv,
            ) && kk@ == t[j].0 && vv@ == literal_of(t[j].1)) by {
                if j < t0.len() {
                    assert(t[j] == t0[j]);
                }
            }
        }
        i = i + 1;
    }
    proof {
        assert(s.take(n as int) =~= s);
        assert(keep@ =~= prefix_keep(s, prefix@));
    }
    tags.retain_positions(&keep);
    list
}

/// Whether `x` holds the extra fields `fields`, the tags kept as they are
/// `arb`, and the rarest fields `even`.
pub open spec fn extra_matches(
    x: OsmAddressExtra,
    fields: Seq<Option<LiteralValueView>>,
    arb: Seq<(Seq<char>, Seq<char>)>,
    even: Seq<Option<LiteralValueView>>,
) -> bool {
    &&& extra_fields_match(x, fields)
    &&& (if arb.len() == 0 {
        x.arbitrary is None
    } else {
        x.arbitrary matches Some(l) && literals_of_tags(l@, arb)
    })
    &&& (if all_none(even) {
        x.even_more_extra is None
    } else {
        x.even_more_extra matches Some(e) && even_more_matches(e, even)
    })
}

impl OsmAddressExtra {
    /// Takes the extra fields of an address out of `tags`. Only the tags
    /// under the prefix are left, kept as they are as well; the rarest fields
    /// are taken from those unless there is nothing else.
    pub fn make_from_tags(tags: &mut Tags, tag_building: &mut StrAsciiPrefixView) -> (r: Self)
        requires
            old(tags).wf(),
            old(tag_building).wf(),
            old(tag_building).prefix_len() + 13 <= old(tag_building).max_length(),
        ensures
            final(tags).wf(),
            *final(tag_building) == *old(tag_building),
            ({
                let p = old(tag_building).prefix();
                let (fields, rest) = extra_take(old(tags).view_pairs(), p);
                let pc = p + ":"@;
                let left = kept(rest, prefix_keep(rest, pc));
                let arb = prefixed(rest, pc);
                if all_none(fields) && arb.len() == 0 {
                    &&& r.spec_is_none()
                    &&& final(tags).view_pairs() == left
                } else {
                    let (even, rest2) = even_more_take(left, p);
                    &&& extra_matches(r, fields, arb, even)
                    &&& final(tags).view_pairs() == rest2
                }
            }),
            ({
                let s = old(tags).view_pairs();
                let p = old(tag_building).prefix();
                &&& tagged(s, p + ":housename"@, opt_view(r.housename))
                &&& tagged(s, p + ":unit"@, opt_view(r.unit))
                &&& tagged(s, p + ":floor"@, opt_view(r.floor))
                &&& tagged(s, p + ":postbox"@, opt_view(r.postbox))
                &&& tagged(s, p + ":full"@, opt_view(r.full))
                &&& tagged(s, p + ":postcode"@, opt_view(r.postcode))
            }),
    {
        proof {
            lemma_extra_fields_by_key(tags.view_pairs(), tag_building.prefix());
        }
        proof {
            reveal_strlit(":housename");
            lemma_ascii_len(":housename");
        }
        let key = tag_building.with(":housename");
        let housename = LiteralValue::from_tag_and_remove(tags, key.as_str());
        proof {
            reveal_strlit(":unit");
            lemma_ascii_len(":unit");
        }
        let key = tag_building.with(":unit");
        let unit = LiteralValue::from_tag_and_remove(tags, key.as_str());
        proof {
            reveal_strlit(":floor");
            lemma_ascii_len(":floor");
        }
        let key = tag_building.with(":floor");
        let floor = LiteralValue::from_tag_and_remove(tags, key.as_str());
        proof {
            reveal_strlit(":postbox");
            lemma_ascii_len(":postbox");
        }
        let key = tag_building.with(":postbox");
        let postbox = LiteralValue::from_tag_and_remove(tags, key.as_str());
        proof {
            reveal_strlit(":full");
            lemma_ascii_len(":full");
        }
        let key = tag_building.with(":full");
        let full = LiteralValue::from_tag_and_remove(tags, key.as_str());
        proof {
            reveal_strlit(":postcode");
            lemma_ascii_len(":postcode");
        }
        let key = tag_building.with(":postcode");
        let postcode = LiteralValue::from_tag_and_remove(tags, key.as_str());
        proof {
            reveal_strlit(":");
            lemma_ascii_len(":");
        }
        let prefix = tag_building.with(":");
        let arbitrary = retain_prefixed(tags, prefix.as_str());
        if housename.is_none() && unit.is_none() && floor.is_none() && postbox.is_none()
            && full.is_none() && postcode.is_none() && arbitrary.len() == 0 {
            return Self::none();
        }
        let even_more_extra = OsmAddressEvenMoreExtra::make_from_tags(tags, tag_building);
        let arb_empty = arbitrary.len() == 0;
        OsmAddressExtra {
            housename,
            unit,
            floor,
            postbox,
            full,
            postcode,
            even_more_extra: if even_more_extra.is_none() {
                None
            } else {
                Some(even_more_extra)
            },
            arbitrary: if arb_empty {
                None
            } else {
                Some(arbitrary)
            },
        }
    }
}

/// The bytes the view on the address prefix may take: four for each of the
/// at most twenty characters of a key, and two more.
pub const MAX_TAG_LENGTH_PLUS_TWO: usize = 20;

impl OsmAddress {
    /// Takes an address out of the tags under `prefix`. An address with no
    /// common field is empty, and nothing more is taken; otherwise a prefix
    /// other than `addr` is kept as a field, and the extra fields are taken.
    pub fn make_from_tags(tags: &mut Tags, prefix: &str) -> (r: Self)
        requires
            old(tags).wf(),
            prefix.spec_bytes().len() + 13 <= MAX_TAG_LENGTH_PLUS_TWO * 4,
        ensures
            final(tags).wf(),
            ({
                let p = prefix@;
                let (fields, rest) = address_take(old(tags).view_pairs(), p);
                if all_none(fields) {
                    &&& r.spec_is_none()
                    &&& final(tags).view_pairs() == rest
                } else {
                    &&& opt_view(r.number) == fields[0]
                    &&& opt_view(r.street) == fields[1]
                    &&& opt_view(r.city) == fields[2]
                    &&& opt_view(r.state) == fields[3]
                    &&& opt_view(r.province) == fields[4]
                    &&& opt_view(r.prefix) == if p == "addr"@ {
                        None
                    } else {
                        Some(literal_of(p))
                    }
                    &&& ({
                        let (efields, erest) = extra_take(rest, p);
                        let pc = p + ":"@;
                        let left = kept(erest, prefix_keep(erest, pc));
                        let arb = prefixed(erest, pc);
                        if all_none(efields) && arb.len() == 0 {
                            &&& r.extra is None
                            &&& final(tags).view_pairs() == left
                        } else {
                            let (even, rest2) = even_more_take(left, p);
                            &&& r.extra matches Some(x) && extra_matches(x, efields, arb, even)
                            &&& final(tags).view_pairs() == rest2
                        }
                    })
                }
            }),
            tagged(old(tags).view_pairs(), prefix@ + ":housenumber"@, opt_view(r.number)),
            tagged(old(tags).view_pairs(), prefix@ + ":street"@, opt_view(r.street)),
            tagged(old(tags).view_pairs(), prefix@ + ":city"@, opt_view(r.city)),
            tagged(old(tags).view_pairs(), prefix@ + ":state"@, opt_view(r.state)),
            tagged(old(tags).view_pairs(), prefix@ + ":province"@, opt_view(r.province)),
    {
        proof {
            lemma_address_fields_by_key(tags.view_pairs(), prefix@);
        }
        let mut tag_building = StrAsciiPrefixView::new(prefix, MAX_TAG_LENGTH_PLUS_TWO * 4);
        proof {
            reveal_strlit(":housenumber");
            lemma_ascii_len(":housenumber");
        }
        let key = tag_building.with(":housenumber");
        let number = LiteralValue::from_tag_and_remove(tags, key.as_str());
        proof {
            reveal_strlit(":street");
            lemma_ascii_len(":street");
        }
        let key = tag_building.with(":street");
        let street = LiteralValue::from_tag_and_remove(tags, key.as_str());
        proof {
            reveal_strlit(":city");
            lemma_ascii_len(":city");
        }
        let key = tag_building.with(":city");
        let city = LiteralValue::from_tag_and_remove(tags, key.as_str());
        proof {
            reveal_strlit(":state");
            lemma_ascii_len(":state");
        }
        let key = tag_building.with(":state");
        let state = LiteralValue::from_tag_and_remove(tags, key.as_str());
        proof {
            reveal_strlit(":province");
            lemma_ascii_len(":province");
        }
        let key = tag_building.with(":province");
        let province = LiteralValue::from_tag_and_remove(tags, key.as_str());
        if number.is_none() && street.is_none() && city.is_none() && state.is_none()
            && province.is_none() {
            return Self::none();
        }
        let prefix_field = if !str_eq(prefix, "addr") {
            Some(LiteralValue::from(prefix))
        } else {
            None
        };
        let extra = OsmAddressExtra::make_from_tags(tags, &mut tag_building);
        OsmAddress {
            number,
            street,
            city,
            state,
            prefix: prefix_field,
            province,
            extra: if extra.is_none() {
                None
            } else {
                Some(extra)
            },
        }
    }
}

} // verus!

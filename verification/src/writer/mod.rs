use vstd::prelude::*;

use crate::compressor::osm_tags::Tags;
use crate::compressor::types::{first_relation_tag, ElementType, KnownRelationTypeTag};

pub mod literals;

use literals::{name_id, LiteralPool};

verus! {

/// A member of a relation: the id of the element, and its role.
#[derive(Debug)]
pub struct RelationMember {
    pub member_id: i64,
    pub role: String,
}

/// A relation: its tags and its members.
#[derive(Debug)]
pub struct Relation {
    pub tags: Tags,
    pub refs: Vec<RelationMember>,
}

/// The `n` bytes of `v`, least significant first.
pub open spec fn le_bytes(v: nat, n: nat) -> Seq<u8>
    decreases n,
{
    if n == 0 {
        Seq::empty()
    } else {
        seq![(v % 256) as u8] + le_bytes(v / 256, (n - 1) as nat)
    }
}

proof fn lemma_le_bytes_len(v: nat, n: nat)
    ensures
        le_bytes(v, n).len() == n,
    decreases n,
{
    if n > 0 {
        lemma_le_bytes_len(v / 256, (n - 1) as nat);
    }
}

/// Appends the eight bytes of `v`, least significant first.
fn write_le_u64(v: u64, out: &mut Vec<u8>)
    ensures
        final(out)@ == old(out)@ + le_bytes(v as nat, 8),
        final(out)@.len() == old(out)@.len() + 8,
{
    proof {
        lemma_le_bytes_len(v as nat, 8);
    }
    let mut x = v;
    let mut i: usize = 0;
    let ghost start = out@;
    while i < 8
        invariant
            i <= 8,
            out@ + le_bytes(x as nat, (8 - i) as nat) == start + le_bytes(v as nat, 8),
        decreases 8 - i,
    {
        proof {
            assert(le_bytes(x as nat, (8 - i) as nat) == seq![(x % 256) as u8] + le_bytes(
                (x / 256) as nat,
                (8 - i - 1) as nat,
            ));
        }
        out.push((x % 256) as u8);
        x = x / 256;
        i = i + 1;
        proof {
            assert(out@ + le_bytes(x as nat, (8 - i) as nat) =~= start + le_bytes(v as nat, 8));
        }
    }
    assert(le_bytes(x as nat, 0) =~= Seq::<u8>::empty());
    assert(out@ =~= start + le_bytes(v as nat, 8));
}

/// The number an element id is written as: its two's complement in 64 bits.
pub open spec fn id_bits(id: i64) -> nat {
    if id >= 0 {
        id as nat
    } else {
        (id + 0x1_0000_0000_0000_0000) as nat
    }
}

/// Whether some member has a role.
pub open spec fn has_roles(refs: Seq<RelationMember>) -> bool {
    exists|i: int| 0 <= i < refs.len() && #[trigger] refs[i].role@.len() > 0
}

/// The first byte of a typed relation: the element kind in the top two bits,
/// the relation kind above the lowest bit, and whether members have roles in
/// the lowest.
pub open spec fn typed_relation_header(rel_type: KnownRelationTypeTag, roles: bool) -> u8 {
    ((ElementType::RelationTyped.spec_discriminant() << 6u8) | (rel_type.spec_discriminant()
        << 1u8)) | if roles {
        1u8
    } else {
        0u8
    }
}

/// The bytes of the members of a relation, and the role names after: for
/// each member its id in eight little-endian bytes, followed, where members
/// have roles, by the id of its role in eight little-endian bytes.
pub open spec fn members_bytes(refs: Seq<RelationMember>, roles: bool, names: Seq<Seq<char>>) -> (
    Seq<u8>,
    Seq<Seq<char>>,
)
    decreases refs.len(),
{
    if refs.len() == 0 {
        (Seq::empty(), names)
    } else {
        let (b, n) = members_bytes(refs.drop_last(), roles, names);
        let m = refs.last();
        let idb = le_bytes(id_bits(m.member_id), 8);
        if roles {
            let (rid, n2) = name_id(n, m.role@);
            (b + idb + le_bytes(rid as nat, 8), n2)
        } else {
            (b + idb, n)
        }
    }
}

proof fn lemma_members_names_len(refs: Seq<RelationMember>, roles: bool, names: Seq<Seq<char>>)
    ensures
        members_bytes(refs, roles, names).1.len() <= names.len() + refs.len(),
    decreases refs.len(),
{
    if refs.len() > 0 {
        lemma_members_names_len(refs.drop_last(), roles, names);
    }
}

/// Writes a relation whose kind is known: the header byte, then the bytes of
/// its members; the names of their roles get ids where members have roles.
pub fn write_typed_relation(
    relation: &Relation,
    rel_type: KnownRelationTypeTag,
    dest: &mut Vec<u8>,
    literals: &mut LiteralPool,
) -> (r: usize)
    requires
        old(literals).wf(),
        old(literals).names().len() + relation.refs@.len() < u64::MAX,
    ensures
        r == 0,
        final(literals).wf(),
        ({
            let roles = has_roles(relation.refs@);
            let (body, names) = members_bytes(relation.refs@, roles, old(literals).names());
            &&& final(dest)@ == old(dest)@ + seq![typed_relation_header(rel_type, roles)] + body
            &&& final(literals).names() == names
        }),
{
    let broad_discrim = ElementType::RelationTyped.discriminant();
    let mut has_roles_flag = false;
    let mut j: usize = 0;
    while j < relation.refs.len()
        invariant
            j <= relation.refs@.len(),
            has_roles_flag == exists|k: int| 0 <= k < j && #[trigger] relation.refs@[k].role@.len() > 0,
        decreases relation.refs@.len() - j,
    {
        if relation.refs[j].role.as_str().unicode_len() != 0 {
            has_roles_flag = true;
        }
        j = j + 1;
    }
    let type_byte = (broad_discrim << 6u8) | (rel_type.discriminant() << 1u8) | (if has_roles_flag {
        1u8
    } else {
        0u8
    });
    let ghost start = dest@;
    let ghost names0 = literals.names();
    dest.push(type_byte);
    let ghost head = dest@;
    let mut i: usize = 0;
    proof {
        assert(relation.refs@.take(0) =~= Seq::<RelationMember>::empty());
    }
    while i < relation.refs.len()
        invariant
            i <= relation.refs@.len(),
            literals.wf(),
            names0.len() + relation.refs@.len() < u64::MAX,
            head == start + seq![type_byte],
            ({
                let (b, n) = members_bytes(relation.refs@.take(i as int), has_roles_flag, names0);
                &&& dest@ == head + b
                &&& literals.names() == n
            }),
        decreases relation.refs@.len() - i,
    {
        proof {
            assert(relation.refs@.take(i + 1).drop_last() =~= relation.refs@.take(i as int));
            lemma_members_names_len(relation.refs@.take(i as int), has_roles_flag, names0);
        }
        let ghost before = dest@;
        let member = &relation.refs[i];
        let id_u: u64 = if member.member_id >= 0 {
            member.member_id as u64
        } else {
            (member.member_id as i128 + 0x1_0000_0000_0000_0000i128) as u64
        };
        assert(id_u as nat == id_bits(member.member_id));
        write_le_u64(id_u, dest);
        if has_roles_flag {
            let role_id = literals.get_id(member.role.as_str());
            write_le_u64(role_id, dest);
        }
        i = i + 1;
        proof {
            assert(relation.refs@.take(i as int).last() == *member);
            let (b, n) = members_bytes(relation.refs@.take(i as int), has_roles_flag, names0);
            assert(dest@ =~= head + b);
        }
    }
    assert(relation.refs@.take(relation.refs@.len() as int) =~= relation.refs@);
    assert(type_byte == typed_relation_header(rel_type, has_roles(relation.refs@)));
    0
}

/// Writes a relation whose kind is known from its tags.
pub fn write_relation(relation: &Relation, dest: &mut Vec<u8>, literals: &mut LiteralPool) -> (r: usize)
    requires
        first_relation_tag(relation.tags.view_pairs()) is Some,
        old(literals).wf(),
        old(literals).names().len() + relation.refs@.len() < u64::MAX,
    ensures
        r == 0,
        final(literals).wf(),
        ({
            let roles = has_roles(relation.refs@);
            let (body, names) = members_bytes(relation.refs@, roles, old(literals).names());
            &&& final(dest)@ == old(dest)@ + seq![
                typed_relation_header(first_relation_tag(relation.tags.view_pairs()).unwrap(), roles),
            ] + body
            &&& final(literals).names() == names
        }),
{
    let t = KnownRelationTypeTag::try_match(&relation.tags).unwrap();
    write_typed_relation(relation, t, dest, literals)
}

/// The name of a tag, which is written as nothing.
pub fn write_tag_name(name: &str) {
}

/// Writes the names of the tags, each as nothing: `dest` is left as it was.
pub fn write_tags(tags: &Tags, dest: &mut Vec<u8>)
    ensures
        final(dest)@ == old(dest)@,
{
    let mut i: usize = 0;
    while i < tags.len()
        invariant
            i <= tags.view_pairs().len(),
        decreases tags.view_pairs().len() - i,
    {
        let (k, _) = tags.get(i);
        write_tag_name(k);
        i = i + 1;
    }
}

} // verus!

use tiny_maps::compressor::compressed_data::{
    flattened_id, node_pool_needs, osm_node_to_compressed_node, serialize_node, serialize_way, write_node_only_single_inlined_tags,
    CompressedOsmData,
    OsmIdKind, UncompressedOsmData,
};
use tiny_maps::compressor::inlining::node::{Node, NodeSingleInlined};
use tiny_maps::compressor::inlining::InlinedTags;
use tiny_maps::compressor::literals::literal_value::LiteralValue;
use tiny_maps::compressor::literals::structured_elements::address::OsmAddress;
use tiny_maps::compressor::literals::{Literal, LiteralKey, LiteralPool};
use tiny_maps::compressor::osm_tags::Tags;
use tiny_maps::pooled_storage::{
    as_noninlined_id, id_to_maybe_item, inline_blob_id, locate, BlockCounters, PoolIndex,
    PoolInsert,
};
use tiny_maps::serialize_min::{DecodeError, SerializeMinimal};
use tiny_maps::tree::bbox::BoundingBox;

fn tags(pairs: &[(&str, &str)]) -> Tags {
    let mut t = Tags::new();
    for (k, v) in pairs {
        t.insert(k.to_string(), v.to_string());
    }
    t
}

fn pools() -> (LiteralPool<Literal>, LiteralPool<LiteralValue>) {
    (LiteralPool::new(), LiteralPool::new())
}

#[test]
fn ids_carry_their_kind_in_the_top_bits() {
    assert_eq!(flattened_id(OsmIdKind::Node, 5), 5);
    assert_eq!(flattened_id(OsmIdKind::Way, 5), 5 | (1 << 62));
    assert_eq!(flattened_id(OsmIdKind::Relation, 1), 1 | (2 << 62));
}

#[test]
fn single_tag_nodes_are_two_bytes() {
    let mut out = vec![9u8];
    write_node_only_single_inlined_tags(&mut out, None, 3);
    // the node flag, then 3 as a signed varint (6)
    assert_eq!(out, vec![9, 0x80, 6]);
    let mut out = Vec::new();
    write_node_only_single_inlined_tags(&mut out, Some(NodeSingleInlined::Bench), 0);
    assert_eq!(out, vec![0x80 | NodeSingleInlined::Bench.discriminant(), 0x80]);
}

#[test]
fn nodes_with_one_common_tag_take_the_short_form() {
    let mut p = pools();
    let mut out = Vec::new();
    let node_tags = InlinedTags { inline: Node::Single(NodeSingleInlined::Tree), other: vec![] };
    serialize_node(&mut out, &mut p, &-1, &node_tags, &BoundingBox::new(0, 0, 0, 0));
    // -1 is written as (2^63 - 1) * 2 + 1, all ones in 64 bits
    let mut expected = vec![0x80 | NodeSingleInlined::Tree.discriminant()];
    expected.extend(tiny_maps::varint::to_varint(u64::MAX));
    assert_eq!(out, expected);
}

#[test]
fn nodes_with_other_tags_list_their_literals() {
    let mut p = pools();
    let node_tags = InlinedTags {
        inline: Node::NotInlined,
        other: vec![Literal::KeyVar(LiteralKey::Str("zz".to_string()), LiteralValue::BoolYes)],
    };
    let data = CompressedOsmData::Node { id: 7, tags: node_tags, point: BoundingBox::new(1, 2, 1, 2) };
    assert_eq!(data.osm_id(), (OsmIdKind::Node, 7));
    let bytes = UncompressedOsmData::new(&data, &mut p);
    // the header with one other tag, no folded groups, then the literal's id
    assert_eq!(bytes.0[0], 0b1100_0001);
    assert_eq!(bytes.0[1], 0);
    assert!(bytes.0.len() > 2);
}

#[test]
fn ways_are_not_written_yet() {
    let mut p = pools();
    let data = CompressedOsmData::Way { bbox: BoundingBox::new(1, 2, 3, 4), id: 9 };
    assert_eq!(data.osm_id(), (OsmIdKind::Way, 9));
    assert_eq!(data.bbox().x_end, 3);
    let bytes = UncompressedOsmData::new(&data, &mut p);
    assert!(bytes.0.is_empty());
}

#[test]
fn uncompressed_data_is_length_prefixed() {
    let d = UncompressedOsmData(vec![1, 2, 3]);
    let mut out = Vec::new();
    d.minimally_serialize(&mut out, ());
    assert_eq!(out, vec![3, 1, 2, 3]);
    let mut s: &[u8] = &[0x00, 5];
    let back = UncompressedOsmData::deserialize_minimal(&mut s).unwrap();
    assert!(back.0.is_empty());
    assert_eq!(s, &[5]);
    let mut empty: &[u8] = &[];
    assert!(matches!(
        UncompressedOsmData::deserialize_minimal(&mut empty),
        Err(DecodeError::UnexpectedEof)
    ));
}

#[test]
fn pool_ids_read_back() {
    assert_eq!(as_noninlined_id(3), 7);
    let id = inline_blob_id(&[1, 2]);
    assert_eq!(id, (1 + 2 * 256) * 2);
    assert_eq!(id_to_maybe_item(id), Ok(vec![1, 2, 0, 0, 0, 0, 0, 0]));
    assert_eq!(id_to_maybe_item(as_noninlined_id(3)), Err(3));
    assert_eq!(inline_blob_id(&[]), 0);
    assert_eq!(inline_blob_id(&[0xff, 0xff, 0xff, 0xff]), 0xffff_ffff * 2);
}

#[test]
fn values_are_located_by_block() {
    assert_eq!(locate(3001, 3000), (true, 1, 1));
    assert_eq!(locate(2999, 3000), (false, 0, 2999));
    assert_eq!(locate(6000, 3000), (false, 2, 0));
}

#[test]
fn full_blocks_answer_their_size() {
    let mut c = BlockCounters {
        value_count: 0,
        current_block_first_value_index: 0,
        block_value_count: 2998,
        current_block_size_bytes: 100,
    };
    assert_eq!(c.post_insert(5), None);
    assert_eq!(c.block_value_count, 2999);
    assert_eq!(c.post_insert(7), Some(112));
    assert_eq!(c.block_value_count, 0);
    assert_eq!(c.current_block_size_bytes, 0);
    assert_eq!(c.current_block_first_value_index, 3000);
}

#[test]
fn tags_are_taken_out_by_key() {
    let mut t = tags(&[("a", "yes"), ("b", "12")]);
    assert!(matches!(LiteralValue::from_tag_and_remove(&mut t, "b"), Some(LiteralValue::TinyUNumber(12))));
    assert!(LiteralValue::from_tag_and_remove(&mut t, "b").is_none());
    assert_eq!(t.len(), 1);
    assert_eq!(t.get(0), ("a", "yes"));
}

#[test]
fn addresses_are_taken_from_tags() {
    let mut t = tags(&[
        ("addr:housenumber", "12"),
        ("addr:street", "Main"),
        ("addr:floor", "2"),
        ("addr:zz", "q"),
        ("name", "x"),
    ]);
    let a = OsmAddress::make_from_tags(&mut t, "addr");
    assert!(matches!(a.number, Some(LiteralValue::TinyUNumber(12))));
    assert!(matches!(a.street, Some(LiteralValue::String(ref s)) if s == "Main"));
    assert!(a.city.is_none());
    assert!(a.prefix.is_none());
    let extra = a.extra.expect("extra fields");
    assert!(matches!(extra.floor, Some(LiteralValue::TinyUNumber(2))));
    let arb = extra.arbitrary.expect("other address tags");
    assert_eq!(arb.len(), 1);
    assert!(matches!(&arb[0], Literal::KeyVar(LiteralKey::Str(k), LiteralValue::String(v)) if k == "zz" && v == "q"));
    assert!(extra.even_more_extra.is_none());
    // the tags under the prefix stay; the others are dropped
    assert_eq!(t.len(), 1);
    assert_eq!(t.get(0), ("addr:zz", "q"));
}

#[test]
fn tags_without_address_fields_give_no_address() {
    let mut t = tags(&[("contact:phone", "1"), ("name", "x")]);
    let a = OsmAddress::make_from_tags(&mut t, "contact");
    assert!(a.is_none());
    assert_eq!(t.len(), 2);

    let mut t = tags(&[("contact:city", "Rome")]);
    let a = OsmAddress::make_from_tags(&mut t, "contact");
    assert!(matches!(a.prefix, Some(LiteralValue::String(ref s)) if s == "contact"));
    assert!(matches!(a.city, Some(LiteralValue::String(ref s)) if s == "Rome"));
    assert!(a.extra.is_none());
    assert_eq!(t.len(), 0);
}

#[test]
fn pool_index_remembers_values() {
    let mut idx = PoolIndex::new();
    assert_eq!(
        idx.insert_blob(&[1, 2]),
        PoolInsert { id: (1 + 2 * 256) * 2, write_blob: false, full_block_size: None }
    );
    assert_eq!(idx.counters.value_count, 0);
    let first = idx.insert_blob(&[1, 2, 3, 4, 5]);
    assert_eq!(first, PoolInsert { id: 1, write_blob: true, full_block_size: None });
    let again = idx.insert_blob(&[1, 2, 3, 4, 5]);
    assert_eq!(again, PoolInsert { id: 1, write_blob: false, full_block_size: None });
    let second = idx.insert_blob(&[6, 7, 8, 9, 10]);
    assert_eq!(second.id, 3);
    assert_eq!(idx.counters.value_count, 2);
    assert_eq!(idx.counters.current_block_size_bytes, 10);
}

#[test]
fn pool_index_closes_full_blocks() {
    let mut idx = PoolIndex::new();
    let mut closed = None;
    for i in 0..3000u32 {
        let b = i.to_le_bytes();
        let r = idx.insert_blob(&[b[0], b[1], b[2], b[3], 0xee]);
        assert_eq!(r.id, 2 * i as u64 + 1);
        if r.full_block_size.is_some() {
            closed = Some((i, r.full_block_size));
        }
    }
    assert_eq!(closed, Some((2999, Some(15000))));
    assert_eq!(idx.counters.current_block_first_value_index, 3000);
    assert_eq!(idx.counters.block_value_count, 0);
}

#[test]
fn ways_list_their_tags_and_nodes() {
    let mut p = pools();
    let mut out = Vec::new();
    let no_tags: InlinedTags<()> = InlinedTags { inline: (), other: vec![] };
    serialize_way(&mut out, &mut p, &5, &no_tags, &vec![1, 300]);
    // flag, id 5 as a signed varint, no tags, two nodes
    assert_eq!(out, vec![0x40, 10, 0x80, 2, 1, 0x82, 0x2c]);

    let mut out = Vec::new();
    let tagged: InlinedTags<()> = InlinedTags {
        inline: (),
        other: vec![Literal::KeyVar(LiteralKey::Str("zz".to_string()), LiteralValue::BoolYes)],
    };
    serialize_way(&mut out, &mut p, &5, &tagged, &vec![]);
    assert_eq!(out[..3].to_vec(), vec![0x40, 10, 1]);
    assert_eq!(*out.last().unwrap(), 0x80);
    assert!(out.len() > 4);
}

#[test]
fn elements_write_nodes_only() {
    let mut p = pools();
    let mut out = vec![7];
    CompressedOsmData::Relation { bbox: BoundingBox::new(0, 0, 1, 1), id: 3 }.minimally_serialize(&mut out, &mut p);
    assert_eq!(out, vec![7]);
    let node = CompressedOsmData::Node {
        id: 2,
        tags: InlinedTags { inline: Node::Single(NodeSingleInlined::Hydrant), other: vec![] },
        point: BoundingBox::new(0, 0, 0, 0),
    };
    node.minimally_serialize(&mut out, &mut p);
    assert_eq!(out, vec![7, 0x80 | NodeSingleInlined::Hydrant.discriminant(), 4]);
}

#[test]
fn nodes_fold_their_tags_and_keep_their_position() {
    let data = osm_node_to_compressed_node(12, tags(&[("natural", "tree"), ("source", "survey")]), 5, -7);
    match data {
        CompressedOsmData::Node { id, tags, point } => {
            assert_eq!(id, 12);
            assert!(matches!(tags.inline, Node::Single(NodeSingleInlined::Tree)));
            assert!(tags.other.is_empty());
            assert_eq!((point.x, point.y, point.x_end, point.y_end), (5, -7, 5, -7));
        }
        _ => panic!("expected a node"),
    }
    let data = osm_node_to_compressed_node(1, tags(&[("name", "x"), ("shop", "y")]), 0, 0);
    match data {
        CompressedOsmData::Node { tags, .. } => {
            assert!(matches!(tags.inline, Node::NotInlined));
            assert_eq!(tags.other.len(), 2);
        }
        _ => panic!("expected a node"),
    }
}

#[test]
fn nodes_count_what_they_may_store() {
    let bare = InlinedTags { inline: Node::Single(NodeSingleInlined::Tree), other: vec![] };
    assert_eq!(node_pool_needs(&bare), Some((4, 0)));
    let two = InlinedTags {
        inline: Node::NotInlined,
        other: vec![
            Literal::KeyVar(LiteralKey::Str("zz".to_string()), LiteralValue::BoolYes),
            Literal::KeyVar(LiteralKey::Str("yy".to_string()), LiteralValue::BoolYes),
        ],
    };
    assert_eq!(node_pool_needs(&two), Some((8, 2)));
}

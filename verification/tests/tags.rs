use tiny_maps::compressor::inlining::node::{inline_node_tags, Node, NodeSingleInlined};
use tiny_maps::compressor::inlining::relation::inline_relation_tags;
use tiny_maps::compressor::inlining::TagCollection;
use tiny_maps::compressor::literals::{Literal, LiteralKey};
use tiny_maps::compressor::literals::literal_value::LiteralValue;
use tiny_maps::compressor::osm_tags::Tags;
use tiny_maps::compressor::topn::TopNHeap;
use tiny_maps::compressor::types::{ElementType, KnownRelationTypeTag};
use tiny_maps::postgres_objects::{BboxQuery, OsmObject, NODE_OBJ, WAY_OBJ};
use tiny_maps::writer::literals::LiteralPool as NamePool;
use tiny_maps::writer::{write_relation, write_tags, write_typed_relation, Relation, RelationMember};

fn tags(pairs: &[(&str, &str)]) -> Tags {
    let mut t = Tags::new();
    for (k, v) in pairs {
        t.insert(k.to_string(), v.to_string());
    }
    t
}

#[test]
fn tags_hold_each_key_once() {
    let mut t = tags(&[("a", "1"), ("b", "2"), ("a", "3")]);
    assert_eq!(t.len(), 2);
    assert!(t.contains("a", "3"));
    assert!(!t.contains("a", "1"));
    assert_eq!(t.remove("b").as_deref(), Some("2"));
    assert_eq!(t.remove("b"), None);
    assert!(t.has_exactly(&[("a", "3")]));
    assert!(!t.has_exactly(&[("a", "3"), ("b", "2")]));
    assert!(t.has_subset(&[]));
    t.clear();
    assert_eq!(t.len(), 0);
}

#[test]
fn tags_list_as_literals() {
    let mut t = tags(&[("name", "yes"), ("x", "7")]);
    let list = t.drain_to_literal_list();
    assert_eq!(list.len(), 2);
    assert!(matches!(&list[0], Literal::KeyVar(LiteralKey::Str(k), LiteralValue::BoolYes) if k == "name"));
    assert!(matches!(&list[1], Literal::KeyVar(LiteralKey::Str(k), LiteralValue::TinyUNumber(7)) if k == "x"));
    assert_eq!(t.len(), 2);
}

#[test]
fn single_tags_are_inlined() {
    let mut t = tags(&[("source", "survey"), ("natural", "tree")]);
    let r = inline_node_tags(&mut t);
    assert!(r.inline.is_single());
    assert!(matches!(r.inline, Node::Single(NodeSingleInlined::Tree)));
    assert!(r.other.is_empty());
    assert_eq!(t.len(), 0);

    let mut t = tags(&[("natural", "tree"), ("leaf_type", "broadleaved")]);
    let r = inline_node_tags(&mut t);
    assert!(matches!(r.inline, Node::NotInlined));
    assert!(!r.inline.is_multiple());
    assert_eq!(r.other.len(), 2);
    assert_eq!(t.len(), 2);
    assert_eq!(NodeSingleInlined::Hydrant.discriminant(), 6);
}

#[test]
fn relation_tags_are_listed() {
    let r = inline_relation_tags(tags(&[("type", "route")]));
    assert_eq!(r.other.len(), 1);
}

#[test]
fn relation_kinds() {
    let t = tags(&[("name", "x"), ("type", "route_master")]);
    assert_eq!(KnownRelationTypeTag::try_match(&t), Some(KnownRelationTypeTag::TypeRouteMaster));
    assert_eq!(KnownRelationTypeTag::try_match(&tags(&[("type", "unknown")])), None);
    assert_eq!(KnownRelationTypeTag::NaturalWood.discriminant(), 20);
    assert_eq!(ElementType::RelationTyped.discriminant(), 0b11);
    assert_eq!(ElementType::Way.discriminant(), 0b01);
}

#[test]
fn topn_keeps_the_most_recent() {
    let mut heap = TopNHeap::<2, u64, usize>::new();
    heap.insert_and_increase(1, 10);
    heap.insert_and_increase(2, 20);
    assert_eq!(heap.get(&1), Some(&10));
    heap.insert_and_increase(1, 11);
    assert_eq!(heap.get(&1), Some(&10));
    heap.insert_and_increase(3, 30);
    assert_eq!(heap.get(&2), None);
    assert_eq!(heap.get(&3), Some(&30));
    let empty: TopNHeap<0, u64, usize> = Default::default();
    assert_eq!(empty.get(&1), None);
}

#[test]
fn names_get_ids_in_order() {
    let mut pool = NamePool::new();
    assert_eq!(pool.get_id("outer"), 1);
    assert_eq!(pool.get_id("inner"), 2);
    assert_eq!(pool.get_id("outer"), 1);
}

#[test]
fn typed_relations_are_written() {
    let mut names = NamePool::new();
    let rel = Relation {
        tags: tags(&[("type", "multipolygon")]),
        refs: vec![
            RelationMember { member_id: 5, role: "outer".to_string() },
            RelationMember { member_id: -1, role: "".to_string() },
        ],
    };
    let mut out = Vec::new();
    assert_eq!(write_relation(&rel, &mut out, &mut names), 0);
    assert_eq!(out[0], 0b1100_0001);
    assert_eq!(out.len(), 1 + 2 * 16);
    assert_eq!(out[1..9].to_vec(), 5u64.to_le_bytes().to_vec());
    assert_eq!(out[9..17].to_vec(), 1u64.to_le_bytes().to_vec());
    assert_eq!(out[17..25].to_vec(), vec![0xff; 8]);
    assert_eq!(out[25..33].to_vec(), 2u64.to_le_bytes().to_vec());

    let plain = Relation { tags: tags(&[]), refs: vec![RelationMember { member_id: 2, role: String::new() }] };
    let mut out = Vec::new();
    write_typed_relation(&plain, KnownRelationTypeTag::TypeRoute, &mut out, &mut names);
    assert_eq!(out, vec![0b1100_0010, 2, 0, 0, 0, 0, 0, 0, 0]);
}

#[test]
fn database_objects_cache_what_was_loaded() {
    let mut node = OsmObject::new(7, NODE_OBJ);
    assert_eq!(node.osm_id(), 7);
    assert_eq!(node.osm_type(), NODE_OBJ);
    assert!(node.tags().is_none());
    assert!(matches!(node.bbox_query(), BboxQuery::NodePoint));
    let b = node.node_bbox(3, 4);
    assert_eq!((b.x, b.y, b.x_end, b.y_end), (3, 4, 3, 4));
    node.store_tags(vec![("a".to_string(), "b".to_string())]);
    assert_eq!(node.tags().unwrap().len(), 1);

    let mut way = OsmObject::new(8, WAY_OBJ);
    assert!(matches!(way.bbox_query(), BboxQuery::ChildPoints));
    let b = way.store_child_bbox(&[(1, 5), (-2, 3)]);
    assert_eq!((b.x, b.y, b.x_end, b.y_end), (-2, 3, 1, 5));
    assert!(matches!(way.bbox_query(), BboxQuery::Cached(c) if c.x == -2));
}

#[test]
fn tag_names_are_written_as_nothing() {
    let mut out = vec![1u8];
    write_tags(&tags(&[("a", "1"), ("b", "2")]), &mut out);
    assert_eq!(out, vec![1]);
}

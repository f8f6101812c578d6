use tiny_maps::paged_storage::{PageId, PageReadPosition};
use tiny_maps::tree::bbox::{earth_bbox, BoundingBox, LongLatSplitDirection};
use tiny_maps::tree::long_lat_tree::{split_left_right, TreeNode};
use tiny_maps::tree::point_tree::{read_point_tree_node, write_point_tree_items};
use tiny_maps::tree::node_layout::{
    axis_index, branch_id_creation, header_slot, insert_step, is_saturated, items_within,
    query_start, read_header_flags, route, set_header_flags, split_children, InsertStep, Route,
};
use tiny_maps::serialize_min::{DecodeError, DeserializeFromMinimal, SerializeMinimal};
use tiny_maps::tree::point_range::{DisregardWhenDeserializing, Point, PointRange};

fn bb(x: i32, y: i32, x_end: i32, y_end: i32) -> BoundingBox<i32> {
    BoundingBox::new(x, y, x_end, y_end)
}

fn same(a: &BoundingBox<i32>, b: &BoundingBox<i32>) -> bool {
    a.x == b.x && a.y == b.y && a.x_end == b.x_end && a.y_end == b.y_end
}

#[test]
fn boxes_split_at_their_middle() {
    let b = bb(0, 0, 10, 20);
    assert_eq!(b.center(), (5, 10));
    let (l, r) = b.split_on_axis(&LongLatSplitDirection::Lat);
    assert!(same(&l, &bb(0, 0, 5, 20)));
    assert!(same(&r, &bb(5, 0, 10, 20)));
    let (l, r) = b.split_on_axis(&LongLatSplitDirection::Long);
    assert!(same(&l, &bb(0, 0, 10, 10)));
    assert!(same(&r, &bb(0, 10, 10, 20)));
    assert!(matches!(LongLatSplitDirection::default(), LongLatSplitDirection::Lat));
    assert!(matches!(LongLatSplitDirection::Lat.not(), LongLatSplitDirection::Long));
    // halves of odd numbers are taken before adding, toward zero
    assert_eq!(bb(-3, 3, -3, 3).center(), (-2, 2));
}

#[test]
fn containment_compares_the_left_edge_with_the_lower_edge() {
    let outer = bb(0, 0, 10, 10);
    assert!(outer.contains(&bb(1, 1, 9, 9)));
    assert!(!outer.contains(&bb(1, 1, 11, 9)));
    // x is held against the inner box's y
    assert!(!bb(5, 0, 10, 10).contains(&bb(6, 1, 9, 9)));
    assert!(bb(5, 0, 10, 10).contains(&bb(0, 6, 9, 9)));
}

#[test]
fn boxes_grow_around_points() {
    let b = BoundingBox::from_iter(&[(3, 4), (-1, 7), (2, -5)]);
    assert!(same(&b, &bb(-1, -5, 3, 7)));
    assert!(same(&BoundingBox::from_iter(&[]), &BoundingBox::empty()));
    let mut p = BoundingBox::from_point(1, 1);
    p.extend_with_point(0, 2);
    assert!(same(&p, &bb(0, 1, 1, 2)));
    let e = earth_bbox();
    assert_eq!((e.x, e.y, e.x_end, e.y_end), (-1800000000, -900000000, 1800000000, 900000000));
    assert_eq!(*e.x(), -1800000000);
    assert_eq!(*e.y(), -900000000);
}

#[test]
fn ranges_and_points() {
    let r = PointRange(10u64, 20u64);
    assert!(r.contains(&PointRange(12, 20)));
    assert!(!r.contains(&PointRange(9, 20)));
    let (a, b) = r.split_evenly_on_dimension(&());
    assert_eq!((a.0, a.1, b.0, b.1), (10, 15, 15, 20));
    let p = Point(14u64);
    assert!(p.is_contained_in(&r));
    let d = p.delta_from_parent(&r);
    assert_eq!(d, 4);
    assert_eq!(Point::apply_delta_from_parent(&d, &r).0, 14);
    assert_eq!(Point::<u64>::delta_from_self(&9, &4), 5);
    assert_eq!(Point::<u64>::apply_delta_from_self(&5, &4), 9);
}

#[test]
fn children_are_numbered_and_named_in_hex() {
    assert_eq!(branch_id_creation(1, 0), ("2".to_string(), 2));
    assert_eq!(branch_id_creation(0x17, 1), ("2f".to_string(), 0x2f));
    // the top bit is shifted out
    assert_eq!(branch_id_creation(0x8000_0000_0000_0001, 0).1, 2);
}

#[test]
fn axes_take_turns_by_depth() {
    assert_eq!(axis_index(1, 2), 0);
    assert_eq!(axis_index(2, 2), 1);
    assert_eq!(axis_index(3, 2), 1);
    assert_eq!(axis_index(4, 2), 0);
    assert_eq!(axis_index(7, 3), 2);
    assert_eq!(axis_index(8, 3), 0);
    assert_eq!(axis_index(u64::MAX, 5), 63 % 5);
}

#[test]
fn four_nodes_share_a_header_byte() {
    assert_eq!(header_slot(9), (2, 2));
    assert_eq!(header_slot(3), (0, 6));
    let b = set_header_flags(0, 2, true, false);
    assert_eq!(b, 0b0000_1000);
    let b = set_header_flags(b, 6, false, true);
    assert_eq!(b, 0b0100_1000);
    assert_eq!(read_header_flags(b, 2), (true, false));
    assert_eq!(read_header_flags(b, 6), (false, true));
    assert_eq!(read_header_flags(b, 0), (false, false));
}

#[test]
fn items_are_dealt_to_the_halves() {
    let (l, r) = bb(0, 0, 10, 10).split_on_axis(&LongLatSplitDirection::Lat);
    let children = vec![
        (bb(0, 1, 4, 4), 'a'),
        (bb(0, 6, 9, 9), 'b'),
        (bb(0, 1, 9, 9), 'c'),
        (bb(0, 2, 3, 3), 'd'),
    ];
    assert_eq!(route(&l, &r, &children[0].0), Route::Left);
    assert_eq!(route(&l, &r, &children[1].0), Route::Right);
    assert_eq!(route(&l, &r, &children[2].0), Route::Here);
    let (left, both, right) = split_children(children, &l, &r);
    assert_eq!(left.iter().map(|c| c.1).collect::<Vec<_>>(), vec!['a', 'd']);
    assert_eq!(both.iter().map(|c| c.1).collect::<Vec<_>>(), vec!['c']);
    assert_eq!(right.iter().map(|c| c.1).collect::<Vec<_>>(), vec!['b']);
    assert!(is_saturated(8000));
    assert!(!is_saturated(7999));
}

#[test]
fn queries_pick_the_items_inside() {
    let children = vec![(bb(0, 1, 4, 4), 1u8), (bb(0, 6, 12, 9), 2), (bb(1, 2, 3, 3), 3)];
    assert_eq!(items_within(&children, &bb(0, 0, 5, 5)), vec![0, 2]);
    assert_eq!(items_within(&children, &bb(0, 0, 20, 20)), vec![0, 1, 2]);
    assert!(items_within(&children, &bb(0, 5, 1, 6)).is_empty());
}

#[test]
fn readers_move_through_pages() {
    let mut pos: PageReadPosition<1, true> = PageReadPosition {
        page_ids_acc: vec![],
        current_page_id: PageId::new(2),
        current_page_read_amount: 0,
    };
    // a page of one KiB holds 1024 - 16 bytes of data, after its header
    assert_eq!(pos.read_window(5000), (2 * 1024 + 16, 1008));
    assert!(!pos.after_read(1000));
    assert_eq!(pos.read_window(100), (2 * 1024 + 16 + 1000, 8));
    assert!(pos.after_read(8));
    pos.move_to_next(Some(PageId::new(7)));
    assert_eq!(pos.current_page_id.0, 7);
    assert_eq!(pos.current_page_read_amount, 0);
    assert_eq!(pos.page_ids_acc.len(), 1);
    pos.move_to_next(None);
    assert_eq!(pos.current_page_id.0, 7);
}


#[test]
fn inserts_walk_down_and_split_full_nodes() {
    let (l, r) = bb(0, 0, 10, 10).split_on_axis(&LongLatSplitDirection::Lat);
    assert_eq!(insert_step(Some((&l, &r)), 0, &bb(0, 1, 4, 4)), InsertStep::Descend(Route::Left));
    assert_eq!(insert_step(Some((&l, &r)), 0, &bb(0, 6, 9, 9)), InsertStep::Descend(Route::Right));
    assert_eq!(insert_step(Some((&l, &r)), 0, &bb(0, 1, 9, 9)), InsertStep::PushHere);
    assert_eq!(insert_step(None, 8000, &bb(0, 1, 4, 4)), InsertStep::Split);
    assert_eq!(insert_step(None, 12, &bb(0, 1, 4, 4)), InsertStep::PushHere);
}

#[test]
fn queries_start_in_the_half_that_holds_them() {
    let (l, r) = bb(0, 0, 10, 10).split_on_axis(&LongLatSplitDirection::Lat);
    assert_eq!(query_start(Some((&l, &r)), &bb(0, 0, 5, 10)), Route::Left);
    assert_eq!(query_start(Some((&l, &r)), &bb(5, 6, 10, 10)), Route::Right);
    assert_eq!(query_start(Some((&l, &r)), &bb(0, 0, 10, 10)), Route::Here);
    assert_eq!(query_start(None, &bb(0, 0, 5, 10)), Route::Here);
}

#[test]
fn wrapped_values_read_as_themselves() {
    let w: DisregardWhenDeserializing<BoundingBox<i32>, u64> = DisregardWhenDeserializing::from(300u64);
    assert_eq!(*w.inner(), 300);
    let mut out = Vec::new();
    w.minimally_serialize(&mut out, ());
    assert_eq!(out, vec![0x82, 0x2c]);
    let mut s = &out[..];
    let back = DisregardWhenDeserializing::<BoundingBox<i32>, u64>::deserialize_minimal(&mut s, bb(1, 2, 3, 4)).unwrap();
    assert_eq!(back.into_inner(), 300);
    assert!(s.is_empty());
}

fn split_sample() -> TreeNode<char> {
    let mut node: TreeNode<char> = TreeNode::new(bb(0, 0, 10, 10));
    node.children = vec![
        (bb(0, 1, 4, 4), 'a'),
        (bb(0, 6, 9, 9), 'b'),
        (bb(0, 1, 9, 9), 'c'),
        (bb(0, 2, 3, 3), 'd'),
    ];
    split_left_right(&mut node);
    node
}

#[test]
fn a_new_node_is_the_empty_root() {
    let node: TreeNode<u8> = TreeNode::new(bb(0, 0, 10, 10));
    assert_eq!(node.id, 1);
    assert_eq!(node.direction, LongLatSplitDirection::Lat);
    assert!(node.children.is_empty());
    assert!(node.left_right_split.is_none());
    assert!(node.find_items_in_box(&bb(0, 0, 10, 10)).is_empty());
}

#[test]
fn splitting_a_node_deals_its_items_to_the_halves() {
    let node = split_sample();
    assert!(same(&node.bbox, &bb(0, 0, 10, 10)));
    assert_eq!(node.id, 1);
    assert_eq!(node.direction, LongLatSplitDirection::Lat);
    assert_eq!(node.children.iter().map(|c| c.1).collect::<Vec<_>>(), vec!['c']);
    let (l, r) = node.left_right_split.as_ref().unwrap();
    assert!(same(&l.bbox, &bb(0, 0, 5, 10)));
    assert!(same(&r.bbox, &bb(5, 0, 10, 10)));
    assert_eq!((l.id, r.id), (2, 3));
    assert_eq!(l.direction, LongLatSplitDirection::Long);
    assert_eq!(r.direction, LongLatSplitDirection::Long);
    assert_eq!(l.children.iter().map(|c| c.1).collect::<Vec<_>>(), vec!['a', 'd']);
    assert_eq!(r.children.iter().map(|c| c.1).collect::<Vec<_>>(), vec!['b']);
    assert!(l.left_right_split.is_none() && r.left_right_split.is_none());
    let mut all: Vec<char> = node.children.iter().chain(r.children.iter()).chain(l.children.iter()).map(|c| c.1).collect();
    all.sort();
    assert_eq!(all, vec!['a', 'b', 'c', 'd']);
}

#[test]
fn splitting_a_child_numbers_its_halves_below_it() {
    let mut node = split_sample();
    let (l, _) = node.left_right_split.as_mut().unwrap();
    split_left_right(&mut **l);
    let (ll, lr) = l.left_right_split.as_ref().unwrap();
    assert_eq!((ll.id, lr.id), (4, 5));
    assert!(same(&ll.bbox, &bb(0, 0, 5, 5)));
    assert!(same(&lr.bbox, &bb(0, 5, 5, 10)));
    assert_eq!(ll.direction, LongLatSplitDirection::Lat);
}

#[test]
fn a_query_over_the_whole_node_walks_every_node() {
    let node = split_sample();
    let found: Vec<char> = node.find_items_in_box(&bb(0, 0, 10, 10)).into_iter().copied().collect();
    assert_eq!(found, vec!['c', 'b', 'a', 'd']);
}

#[test]
fn a_query_inside_a_half_asks_only_that_half() {
    let node = split_sample();
    let found: Vec<char> = node.find_items_in_box(&bb(1, 2, 3, 3)).into_iter().copied().collect();
    assert_eq!(found, vec!['d']);
    let none: Vec<char> = node.find_items_in_box(&bb(6, 7, 7, 8)).into_iter().copied().collect();
    assert!(none.is_empty());
}

type Cached = DisregardWhenDeserializing<Point<u64>, u64>;

#[test]
fn point_tree_nodes_read_their_items_and_name_their_halves() {
    let bytes: Vec<u8> = vec![0x02, 0x05, 0x07, 0x03, 0x09, 0xAA];
    let mut from: &[u8] = &bytes;
    let node = read_point_tree_node::<Cached>(0b0000_1100, 1, PointRange(100, 200), &mut from).unwrap();
    assert_eq!(node.id, 1);
    assert_eq!((node.range.0, node.range.1), (100, 200));
    let items: Vec<(u64, u64)> = node.children.iter().map(|(k, v)| (*k, *v.inner())).collect();
    assert_eq!(items, vec![(5, 7), (8, 9)]);
    let (l, r) = node.halves.as_ref().unwrap();
    assert_eq!((l.id, r.id), (2, 3));
    assert_eq!((l.name.as_str(), r.name.as_str()), ("2", "3"));
    assert_eq!((l.range.0, l.range.1, r.range.0, r.range.1), (100, 150, 150, 200));
    assert_eq!(from, &[0xAA][..]);
}

#[test]
fn point_tree_nodes_without_items_read_nothing() {
    let bytes: Vec<u8> = vec![0x02, 0x05];
    let mut from: &[u8] = &bytes;
    let node = read_point_tree_node::<Cached>(0b1111_0011, 5, PointRange(0, 10), &mut from).unwrap();
    assert!(node.children.is_empty());
    assert!(node.halves.is_none());
    assert_eq!(from.len(), 2);
    let mut from: &[u8] = &bytes;
    let split = read_point_tree_node::<Cached>(0b0000_1000, 5, PointRange(0, 10), &mut from).unwrap();
    let (l, r) = split.halves.as_ref().unwrap();
    assert_eq!((l.id, r.id, l.name.as_str(), r.name.as_str()), (10, 11, "a", "b"));
    assert!(split.children.is_empty());
}

#[test]
fn point_tree_nodes_cut_short_fail() {
    let bytes: Vec<u8> = vec![0x02, 0x05, 0x07, 0x03];
    let mut from: &[u8] = &bytes;
    let r = read_point_tree_node::<Cached>(0b0000_0100, 1, PointRange(0, 10), &mut from);
    assert!(matches!(r, Err(DecodeError::UnexpectedEof)));
}

#[test]
fn point_tree_items_read_back_as_written() {
    let children: Vec<(u64, Cached)> = vec![(3, Cached::from(10u64)), (7, Cached::from(200u64))];
    let mut bytes = Vec::new();
    write_point_tree_items(&children, &mut bytes);
    assert_eq!(bytes, vec![0x02, 0x03, 0x0a, 0x04, 0x81, 0x48]);
    bytes.push(0xEE);
    let mut from: &[u8] = &bytes;
    let node = read_point_tree_node::<Cached>(0b0000_0100, 1, PointRange(0, 100), &mut from).unwrap();
    let items: Vec<(u64, u64)> = node.children.iter().map(|(k, v)| (*k, *v.inner())).collect();
    assert_eq!(items, vec![(3, 10), (7, 200)]);
    assert!(node.halves.is_none());
    assert_eq!(from, &[0xEE][..]);
    let mut empty = Vec::new();
    write_point_tree_items::<Cached>(&[], &mut empty);
    assert!(empty.is_empty());
}

use tiny_maps::compressor::compressed_data::{flattened_id, way_bbox_and_children, OsmIdKind};
use tiny_maps::postgres_objects::{commit_step, osm_type_id, COMMIT_EVERY, NODE_OBJ, RELATION_OBJ, WAY_OBJ};
use tiny_maps::tree::bbox::BoundingBox;

#[test]
fn ways_span_the_corners_of_their_found_nodes() {
    let a = flattened_id(OsmIdKind::Node, 1);
    let b = flattened_id(OsmIdKind::Node, 2);
    let c = flattened_id(OsmIdKind::Node, 3);
    let children = vec![
        (a, Some(BoundingBox::new(5, -3, 9, 9))),
        (b, None),
        (c, Some(BoundingBox::new(-2, 7, -2, 7))),
    ];
    let (bbox, ids) = way_bbox_and_children(&children);
    assert_eq!(ids, vec![a, c]);
    assert_eq!((bbox.x, bbox.y, bbox.x_end, bbox.y_end), (-2, -3, 5, 7));
}

#[test]
fn ways_without_found_nodes_get_the_empty_box() {
    let (bbox, ids) = way_bbox_and_children(&[(7, None)]);
    assert!(ids.is_empty());
    assert_eq!((bbox.x, bbox.y, bbox.x_end, bbox.y_end), (0, 0, 0, 0));
}

#[test]
fn kinds_have_their_database_numbers() {
    assert_eq!(osm_type_id(OsmIdKind::Node), NODE_OBJ);
    assert_eq!(osm_type_id(OsmIdKind::Way), WAY_OBJ);
    assert_eq!(osm_type_id(OsmIdKind::Relation), RELATION_OBJ);
    assert_eq!((NODE_OBJ, WAY_OBJ, RELATION_OBJ), (2, 1, 0));
}

#[test]
fn imports_commit_every_so_many_elements() {
    assert_eq!(commit_step(0), (false, 1));
    assert_eq!(commit_step(COMMIT_EVERY - 1), (false, COMMIT_EVERY));
    assert_eq!(commit_step(COMMIT_EVERY), (true, 0));
    let mut since = 0;
    let mut commits = 0;
    for _ in 0..(2 * COMMIT_EVERY + 3) {
        let (commit, next) = commit_step(since);
        if commit {
            commits += 1;
        }
        since = next;
    }
    assert_eq!(commits, 2);
}

//! The elements of the OSM database, with what was loaded of them. The
//! queries run outside this module; it decides what to ask and keeps what
//! came back.
use vstd::prelude::*;

use crate::compressor::compressed_data::OsmIdKind;
use crate::tree::bbox::{smallest_box_of, BoundingBox};

verus! {

pub const RELATION_OBJ: i16 = 0;

pub const WAY_OBJ: i16 = 1;

pub const NODE_OBJ: i16 = 2;

/// How many elements an import writes between two commits.
pub const COMMIT_EVERY: usize = 100_000;

/// The number the database gives the kind of an element.
pub fn osm_type_id(kind: OsmIdKind) -> (r: i16)
    ensures
        r == match kind {
            OsmIdKind::Node => NODE_OBJ,
            OsmIdKind::Way => WAY_OBJ,
            OsmIdKind::Relation => RELATION_OBJ,
        },
{
    match kind {
        OsmIdKind::Node => NODE_OBJ,
        OsmIdKind::Way => WAY_OBJ,
        OsmIdKind::Relation => RELATION_OBJ,
    }
}

/// Before an import writes an element, with `since_last_commit` elements
/// counted since the last commit: whether to commit first, and the count
/// after. A commit starts the count again at zero, and the element that
/// follows it is not counted.
pub fn commit_step(since_last_commit: usize) -> (r: (bool, usize))
    ensures
        since_last_commit >= COMMIT_EVERY ==> r == (true, 0usize),
        since_last_commit < COMMIT_EVERY ==> r == (false, (since_last_commit + 1) as usize),
{
    if since_last_commit >= COMMIT_EVERY {
        (true, 0)
    } else {
        (false, since_last_commit + 1)
    }
}

/// An element of the database: its id and kind, and its tags and bounding
/// box once loaded.
pub struct OsmObject {
    id: i64,
    osm_type: i16,
    lazy_tags: Option<Vec<(String, String)>>,
    bbox: Option<BoundingBox<i32>>,
}

/// What loading the bounding box of an element takes.
#[derive(Debug, Clone, Copy)]
pub enum BboxQuery {
    /// It was loaded before.
    Cached(BoundingBox<i32>),
    /// It is the position of the node.
    NodePoint,
    /// It spans the nodes that the element contains, at any depth.
    ChildPoints,
}

impl OsmObject {
    pub fn new(id: i64, osm_type: i16) -> (r: Self)
        ensures
            r.spec_osm_id() == id,
            r.spec_osm_type() == osm_type,
            r.cached_tags() is None,
            r.cached_bbox() is None,
    {
        OsmObject { id, osm_type, lazy_tags: None, bbox: None }
    }

    pub closed spec fn spec_osm_id(&self) -> i64 {
        self.id
    }

    pub closed spec fn spec_osm_type(&self) -> i16 {
        self.osm_type
    }

    pub closed spec fn cached_tags(&self) -> Option<Seq<(String, String)>> {
        match self.lazy_tags {
            Some(v) => Some(v@),
            None => None,
        }
    }

    pub closed spec fn cached_bbox(&self) -> Option<BoundingBox<i32>> {
        self.bbox
    }

    pub fn osm_type(&self) -> (r: i16)
        ensures
            r == self.spec_osm_type(),
    {
        self.osm_type
    }

    pub fn osm_id(&self) -> (r: i64)
        ensures
            r == self.spec_osm_id(),
    {
        self.id
    }

    /// The tags, if loaded.
    pub fn tags(&self) -> (r: Option<&Vec<(String, String)>>)
        ensures
            match r {
                Some(v) => self.cached_tags() == Some(v@),
                None => self.cached_tags() is None,
            },
    {
        self.lazy_tags.as_ref()
    }

    /// Keeps the tags that were loaded, and answers them.
    pub fn store_tags(&mut self, tags: Vec<(String, String)>) -> (r: &Vec<(String, String)>)
        ensures
            final(self).cached_tags() == Some(tags@),
            r@ == tags@,
            final(self).spec_osm_id() == old(self).spec_osm_id(),
            final(self).spec_osm_type() == old(self).spec_osm_type(),
            final(self).cached_bbox() == old(self).cached_bbox(),
    {
        self.lazy_tags = Some(tags);
        self.lazy_tags.as_ref().unwrap()
    }

    /// What loading the bounding box takes: a box loaded before is kept, a
    /// node is its position, anything else spans its nodes.
    pub fn bbox_query(&self) -> (r: BboxQuery)
        ensures
            match self.cached_bbox() {
                Some(b) => r == BboxQuery::Cached(b),
                None => if self.spec_osm_type() == NODE_OBJ {
                    r is NodePoint
                } else {
                    r is ChildPoints
                },
            },
    {
        if let Some(bbox) = self.bbox {
            return BboxQuery::Cached(bbox);
        }
        if self.osm_type == NODE_OBJ {
            BboxQuery::NodePoint
        } else {
            BboxQuery::ChildPoints
        }
    }

    /// The box of a node at `(x, y)`; nodes do not keep it.
    pub fn node_bbox(&self, x: i32, y: i32) -> (r: BoundingBox<i32>)
        ensures
            r.x == x && r.y == y && r.x_end == x && r.y_end == y,
    {
        BoundingBox::from_point(x, y)
    }

    /// Keeps and answers the box spanning the nodes at `points`.
    pub fn store_child_bbox(&mut self, points: &[(i32, i32)]) -> (r: BoundingBox<i32>)
        ensures
            final(self).cached_bbox() == Some(r),
            final(self).spec_osm_id() == old(self).spec_osm_id(),
            final(self).spec_osm_type() == old(self).spec_osm_type(),
            final(self).cached_tags() == old(self).cached_tags(),
            smallest_box_of(points@, r),
    {
        let bbox = BoundingBox::from_iter(points);
        self.bbox = Some(bbox);
        bbox
    }
}

} // verus!

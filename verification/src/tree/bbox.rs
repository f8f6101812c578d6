use vstd::prelude::*;

verus! {

/// An axis-aligned box: `x..x_end` by `y..y_end`.
#[derive(Debug, Clone, Copy)]
pub struct BoundingBox<T> {
    pub x: T,
    pub y: T,
    pub x_end: T,
    pub y_end: T,
}

/// Half of `a`, rounded toward zero as integer division does.
pub open spec fn half(a: int) -> int {
    if a >= 0 {
        a / 2
    } else {
        -((-a) / 2)
    }
}

/// The midpoint of `a` and `b` as `avg` computes it: the sum of the halves.
pub open spec fn avg_spec(a: int, b: int) -> int {
    half(a) + half(b)
}

fn avg(a: i32, b: i32) -> (r: i32)
    ensures
        r == avg_spec(a as int, b as int),
{
    a / 2 + b / 2
}

/// The box that holds the whole earth, in ten-millionths of a degree.
pub fn earth_bbox() -> (r: BoundingBox<i32>)
    ensures
        r.x == -1800000000 && r.y == -900000000 && r.x_end == 1800000000 && r.y_end == 900000000,
{
    BoundingBox::new(-1800000000, -900000000, 1800000000, 900000000)
}

impl<T> BoundingBox<T> {
    pub fn new(x: T, y: T, x_end: T, y_end: T) -> (r: Self)
        ensures
            r.x == x && r.y == y && r.x_end == x_end && r.y_end == y_end,
    {
        Self { x, y, x_end, y_end }
    }

    pub fn x(&self) -> (r: &T)
        ensures
            *r == self.x,
    {
        &self.x
    }

    pub fn y(&self) -> (r: &T)
        ensures
            *r == self.y,
    {
        &self.y
    }
}

/// Which coordinate a box is split on: `Long` splits `y`, `Lat` splits `x`.
#[derive(Clone, Copy, Debug, PartialEq, Eq, Structural)]
pub enum LongLatSplitDirection {
    Long,
    Lat,
}

impl Default for LongLatSplitDirection {
    fn default() -> (r: Self)
        ensures
            r == LongLatSplitDirection::Lat,
    {
        LongLatSplitDirection::Lat
    }
}

/// The other direction.
pub open spec fn flipped(d: LongLatSplitDirection) -> LongLatSplitDirection {
    match d {
        LongLatSplitDirection::Long => LongLatSplitDirection::Lat,
        LongLatSplitDirection::Lat => LongLatSplitDirection::Long,
    }
}

/// The two halves of `b`, split at the midpoint of the coordinate that `d`
/// names.
pub open spec fn halves(b: BoundingBox<i32>, d: LongLatSplitDirection) -> (BoundingBox<i32>, BoundingBox<i32>) {
    match d {
        LongLatSplitDirection::Long => {
            let m = avg_spec(b.y as int, b.y_end as int) as i32;
            (BoundingBox { y_end: m, ..b }, BoundingBox { y: m, ..b })
        },
        LongLatSplitDirection::Lat => {
            let m = avg_spec(b.x as int, b.x_end as int) as i32;
            (BoundingBox { x_end: m, ..b }, BoundingBox { x: m, ..b })
        },
    }
}

/// Whether `r` is the box that `from_iter` makes of `points`: the empty box
/// for none; else the smallest box that holds them all, each edge on one of
/// them.
pub open spec fn smallest_box_of(points: Seq<(i32, i32)>, r: BoundingBox<i32>) -> bool {
    &&& points.len() == 0 ==> r.x == 0 && r.y == 0 && r.x_end == 0 && r.y_end == 0
    &&& points.len() > 0 ==> {
        &&& forall|i: int|
            0 <= i < points.len() ==> r.x <= (#[trigger] points[i]).0 <= r.x_end && r.y
                <= points[i].1 <= r.y_end
        &&& exists|i: int| 0 <= i < points.len() && (#[trigger] points[i]).0 == r.x
        &&& exists|i: int| 0 <= i < points.len() && (#[trigger] points[i]).0 == r.x_end
        &&& exists|i: int| 0 <= i < points.len() && (#[trigger] points[i]).1 == r.y
        &&& exists|i: int| 0 <= i < points.len() && (#[trigger] points[i]).1 == r.y_end
    }
}

impl LongLatSplitDirection {
    /// The other direction.
    pub fn not(self) -> (r: Self)
        ensures
            r != self,
            r == flipped(self),
    {
        match self {
            LongLatSplitDirection::Long => LongLatSplitDirection::Lat,
            LongLatSplitDirection::Lat => LongLatSplitDirection::Long,
        }
    }
}

impl BoundingBox<i32> {
    /// The midpoint of the box.
    pub fn center(&self) -> (r: (i32, i32))
        ensures
            r.0 == avg_spec(self.x as int, self.x_end as int),
            r.1 == avg_spec(self.y as int, self.y_end as int),
    {
        (avg(self.x, self.x_end), avg(self.y, self.y_end))
    }

    /// Splits the box in two at the midpoint of the coordinate that `direction`
    /// names; the other coordinate is kept.
    pub fn split_on_axis(&self, direction: &LongLatSplitDirection) -> (r: (Self, Self))
        ensures
            r == halves(*self, *direction),
            match *direction {
                LongLatSplitDirection::Long => {
                    let m = avg_spec(self.y as int, self.y_end as int);
                    &&& r.0.x == self.x && r.0.x_end == self.x_end && r.0.y == self.y && r.0.y_end
                        == m
                    &&& r.1.x == self.x && r.1.x_end == self.x_end && r.1.y == m && r.1.y_end
                        == self.y_end
                },
                LongLatSplitDirection::Lat => {
                    let m = avg_spec(self.x as int, self.x_end as int);
                    &&& r.0.y == self.y && r.0.y_end == self.y_end && r.0.x == self.x && r.0.x_end
                        == m
                    &&& r.1.y == self.y && r.1.y_end == self.y_end && r.1.x == m && r.1.x_end
                        == self.x_end
                },
            },
    {
        match direction {
            LongLatSplitDirection::Long => {
                let y_split = avg(self.y, self.y_end);
                (
                    BoundingBox { y_end: y_split, ..*self },
                    BoundingBox { y: y_split, ..*self },
                )
            },
            LongLatSplitDirection::Lat => {
                let x_split = avg(self.x, self.x_end);
                (
                    BoundingBox { x_end: x_split, ..*self },
                    BoundingBox { x: x_split, ..*self },
                )
            },
        }
    }

    /// Whether `other` lies inside this box. The left edge of this box is
    /// compared with the lower edge of `other`.
    pub fn contains(&self, other: &BoundingBox<i32>) -> (r: bool)
        ensures
            r == (self.y <= other.y && self.x <= other.y && self.x_end >= other.x_end && self.y_end
                >= other.y_end),
    {
        self.y <= other.y && self.x <= other.y && self.x_end >= other.x_end && self.y_end
            >= other.y_end
    }

    /// The box of a single point at the origin.
    pub fn empty() -> (r: BoundingBox<i32>)
        ensures
            r.x == 0 && r.y == 0 && r.x_end == 0 && r.y_end == 0,
    {
        BoundingBox { x: 0, y: 0, y_end: 0, x_end: 0 }
    }

    /// The box of a single point.
    pub fn from_point(x: i32, y: i32) -> (r: BoundingBox<i32>)
        ensures
            r.x == x && r.y == y && r.x_end == x && r.y_end == y,
    {
        BoundingBox { x, y, x_end: x, y_end: y }
    }

    /// Grows the box just enough to hold the point.
    pub fn extend_with_point(&mut self, x: i32, y: i32)
        ensures
            final(self).x == (if old(self).x > x {
                x
            } else {
                old(self).x
            }),
            final(self).y == (if old(self).y > y {
                y
            } else {
                old(self).y
            }),
            final(self).x_end == (if old(self).x_end < x {
                x
            } else {
                old(self).x_end
            }),
            final(self).y_end == (if old(self).y_end < y {
                y
            } else {
                old(self).y_end
            }),
    {
        if self.x > x {
            self.x = x;
        }
        if self.y > y {
            self.y = y;
        }
        if self.y_end < y {
            self.y_end = y;
        }
        if self.x_end < x {
            self.x_end = x;
        }
    }

    /// The smallest box that holds all of `points`; the empty box for none.
    pub fn from_iter(points: &[(i32, i32)]) -> (r: BoundingBox<i32>)
        ensures
            smallest_box_of(points@, r),
    {
        if points.len() == 0 {
            return BoundingBox::empty();
        }
        let (x0, y0) = points[0];
        let mut bbox = BoundingBox::from_point(x0, y0);
        let mut i: usize = 1;
        while i < points.len()
            invariant
                1 <= i <= points@.len(),
                forall|j: int|
                    0 <= j < i ==> bbox.x <= (#[trigger] points@[j]).0 <= bbox.x_end && bbox.y
                        <= points@[j].1 <= bbox.y_end,
                exists|j: int| 0 <= j < i && (#[trigger] points@[j]).0 == bbox.x,
                exists|j: int| 0 <= j < i && (#[trigger] points@[j]).0 == bbox.x_end,
                exists|j: int| 0 <= j < i && (#[trigger] points@[j]).1 == bbox.y,
                exists|j: int| 0 <= j < i && (#[trigger] points@[j]).1 == bbox.y_end,
            decreases points.len() - i,
        {
            let (x, y) = points[i];
            bbox.extend_with_point(x, y);
            i = i + 1;
        }
        bbox
    }
}

} // verus!

//! The road: a strip of lanes between two long straight borders.
use crate::fixed::{CENTER_LIMIT, SIZE_LIMIT};
use crate::utils::{segments_in_world, Segment};
use vstd::prelude::*;

verus! {

/// How far the borders reach up and down the road (100 000 road units).
pub const INFINITY: i64 = 100_000_000_000;

/// What a road is: its centre line, its width, its lanes and its edges.
pub struct RoadModel {
    pub x: i64,
    pub width: i64,
    pub lane_count: i32,
    pub left: i64,
    pub right: i64,
    pub top: i64,
    pub bottom: i64,
    pub borders: Seq<Segment>,
}

/// The road centred on `x`, `width` wide, with `lane_count` lanes: its
/// edges lie half a width to either side, and its two borders run along
/// them from `-INFINITY` to `INFINITY`, the left one first.
pub open spec fn road_of(x: i64, width: i64, lane_count: i32) -> RoadModel {
    let left = (x - width / 2) as i64;
    let right = (x + width / 2) as i64;
    let top = (-INFINITY) as i64;
    let bottom = INFINITY;
    RoadModel {
        x,
        width,
        lane_count,
        left,
        right,
        top,
        bottom,
        borders: seq![((left, top), (left, bottom)), ((right, top), (right, bottom))],
    }
}

/// A road that can be built: at least one lane, a width that is not
/// negative, and all of it within reach of the geometry.
pub open spec fn road_fits(x: i64, width: i64, lane_count: i32) -> bool {
    &&& lane_count >= 1
    &&& 0 <= width <= SIZE_LIMIT
    &&& -CENTER_LIMIT <= x <= CENTER_LIMIT
}

/// The lane that an index means: the index itself, or the nearest lane
/// when it lies outside the road.
pub open spec fn lane_of(lane_count: i32, lane_index: i32) -> int {
    if lane_index < 0 {
        0
    } else if lane_index > lane_count - 1 {
        lane_count - 1
    } else {
        lane_index as int
    }
}

/// The x coordinate of the middle of a lane: lanes are equally wide and
/// counted from the left edge.
pub open spec fn lane_center_of(road: RoadModel, lane_index: i32) -> int {
    let lane_width = road.width / (road.lane_count as i64);
    road.left + lane_width / 2 + lane_of(road.lane_count, lane_index) * lane_width
}

/// A multi-lane road.
#[derive(Debug)]
pub struct Road {
    x: i64,
    width: i64,
    lane_count: i32,
    left: i64,
    right: i64,
    top: i64,
    bottom: i64,
    borders: Vec<Segment>,
}

impl View for Road {
    type V = RoadModel;

    closed spec fn view(&self) -> RoadModel {
        RoadModel {
            x: self.x,
            width: self.width,
            lane_count: self.lane_count,
            left: self.left,
            right: self.right,
            top: self.top,
            bottom: self.bottom,
            borders: self.borders@,
        }
    }
}

impl Road {
    /// The road is one that `new` builds.
    pub open spec fn wf(&self) -> bool {
        &&& road_fits(self@.x, self@.width, self@.lane_count)
        &&& self@ == road_of(self@.x, self@.width, self@.lane_count)
    }

    /// The road centred on `x`, `width` wide, with `lane_count` lanes.
    pub fn new(x: i64, width: i64, lane_count: i32) -> (road: Self)
        requires
            road_fits(x, width, lane_count),
        ensures
            road@ == road_of(x, width, lane_count),
            road.wf(),
    {
        let left = x - width / 2;
        let right = x + width / 2;
        let top = -INFINITY;
        let bottom = INFINITY;
        let mut borders: Vec<Segment> = Vec::new();
        borders.push(((left, top), (left, bottom)));
        borders.push(((right, top), (right, bottom)));
        let road = Road { x, width, lane_count, left, right, top, bottom, borders };
        assert(road@.borders =~= road_of(x, width, lane_count).borders);
        road
    }

    /// Where the centre line lies.
    pub fn x(&self) -> (x: i64)
        ensures
            x == self@.x,
    {
        self.x
    }

    /// How wide the road is.
    pub fn width(&self) -> (width: i64)
        ensures
            width == self@.width,
    {
        self.width
    }

    /// How many lanes the road has.
    pub fn lane_count(&self) -> (count: i32)
        ensures
            count == self@.lane_count,
    {
        self.lane_count
    }

    /// How far up the borders reach.
    pub fn top(&self) -> (top: i64)
        ensures
            top == self@.top,
    {
        self.top
    }

    /// How far down the borders reach.
    pub fn bottom(&self) -> (bottom: i64)
        ensures
            bottom == self@.bottom,
    {
        self.bottom
    }

    /// Where the left edge lies.
    pub fn left(&self) -> (left: i64)
        ensures
            left == self@.left,
    {
        self.left
    }

    /// Where the right edge lies.
    pub fn right(&self) -> (right: i64)
        ensures
            right == self@.right,
    {
        self.right
    }

    /// The x coordinate of the middle of a lane. An index outside the road
    /// means the nearest lane.
    pub fn lane_center(&self, lane_index: i32) -> (center: i64)
        requires
            self.wf(),
        ensures
            center == lane_center_of(self@, lane_index),
            self@.left <= center <= self@.right,
            -CENTER_LIMIT - SIZE_LIMIT <= center <= CENTER_LIMIT + SIZE_LIMIT,
    {
        let lane_width: i64 = self.width / (self.lane_count as i64);
        let lane: i64 = if lane_index < 0 {
            0
        } else if lane_index > self.lane_count - 1 {
            (self.lane_count - 1) as i64
        } else {
            lane_index as i64
        };
        proof {
            let w = self.width as int;
            let n = self.lane_count as int;
            let lw = lane_width as int;
            assert(0 <= lw && lw * n <= w) by (nonlinear_arith)
                requires
                    lw == w / n,
                    w >= 0,
                    n >= 1,
            ;
            assert(0 <= lane * lw && (lane + 1) * lw <= n * lw) by (nonlinear_arith)
                requires
                    0 <= lane <= n - 1,
                    0 <= lw,
            ;
            assert((lane + 1) * lw == lane * lw + lw) by (nonlinear_arith);
            assert(lw >= 1 ==> lw - lw / 2 >= 1);
        }
        self.left + lane_width / 2 + lane * lane_width
    }

    /// The two borders, the left one first.
    pub fn borders(&self) -> (borders: &[Segment])
        ensures
            borders@ == self@.borders,
    {
        self.borders.as_slice()
    }

    /// The two borders, the left one first; the same as `borders`.
    pub fn boarders(&self) -> (borders: &[Segment])
        ensures
            borders@ == self@.borders,
    {
        self.borders()
    }
}

} // verus!

//! The proximity sensor: a fan of rays cast from a vehicle, each reporting
//! the nearest thing it meets.
use crate::car::{car_wf, rectangle, CarModel};
use crate::env::{heading_of, lemma_heading_of, Direction, Trig};
use crate::fixed::{
    is_ratio, is_unit, lemma_scaled, magnitude, magnitude_of, scale, scaled, CENTER_LIMIT, HALF,
    ONE, SIZE_LIMIT,
};
use crate::traffic::Traffic;
use crate::utils::{
    crosses, crossing_offset, edge, get_intersection, intersection, lemma_crossing_needs_overlap,
    lemma_edge_in_world,
    lemma_intersection_bounds, lemma_lerp, lerp, lerp_spec, points_in_world, polygon_edges,
    segment_in_world, segments_in_world, IntersectionPoint, Segment,
};
use vstd::prelude::*;

verus! {

/// Largest heading and largest spread of a fan, in microradians.
pub const ANGLE_LIMIT: i64 = 1_000_000_000_000_000;

/// How much farther than its rays reach a sensor looks for vehicles along
/// the road (80 road units). A vehicle whose half width and half height
/// together are no more than this, and whose centre is farther away,
/// cannot be touched by a ray (see `lemma_cull_hides_nothing`).
pub const SENSOR_MARGIN: i64 = 80_000_000;

/// What a sensor holds: its settings, the rays as last cast, and what each
/// ray last met.
pub struct SensorModel {
    pub ray_count: i32,
    pub ray_length: i64,
    pub ray_spread: i64,
    pub rays: Seq<Segment>,
    pub readings: Seq<Option<IntersectionPoint>>,
}

/// Settings a sensor can be built with.
pub open spec fn sensor_fits(ray_count: i32, ray_length: i64, ray_spread: i64) -> bool {
    &&& 0 <= ray_count
    &&& 0 <= ray_length <= SIZE_LIMIT
    &&& 0 <= ray_spread <= ANGLE_LIMIT
}

/// A reading, if any, lies a ratio of the way along its ray.
pub open spec fn reading_wf(reading: Option<IntersectionPoint>) -> bool {
    reading matches Some(p) ==> is_ratio(p.offset as int)
}

/// One ray and one reading per configured ray, the rays within reach of
/// the geometry.
pub open spec fn sensor_wf(sensor: SensorModel) -> bool {
    &&& sensor_fits(sensor.ray_count, sensor.ray_length, sensor.ray_spread)
    &&& sensor.rays.len() == sensor.ray_count
    &&& sensor.readings.len() == sensor.ray_count
    &&& segments_in_world(sensor.rays)
    &&& forall|i: int| 0 <= i < sensor.readings.len() ==> reading_wf(#[trigger] sensor.readings[i])
}

/// A sensor as it is built: every ray at the origin, nothing met.
pub open spec fn fresh_sensor(ray_count: i32, ray_length: i64, ray_spread: i64) -> SensorModel {
    SensorModel {
        ray_count,
        ray_length,
        ray_spread,
        rays: Seq::new(ray_count as nat, |i: int| ((0i64, 0i64), (0i64, 0i64))),
        readings: Seq::new(ray_count as nat, |i: int| None::<IntersectionPoint>),
    }
}

/// How far across the fan ray `i` of `count` lies: 0.0 for the first, 1.0
/// for the last, 0.5 for a single ray.
pub open spec fn ray_ratio(count: int, i: int) -> int {
    if count == 1 {
        HALF as int
    } else {
        (i * ONE) / (count - 1)
    }
}

/// The heading of ray `i`: the fan runs from half the spread to one side of
/// the vehicle's heading to half the spread to the other.
pub open spec fn ray_angle_of(spread: int, count: int, i: int, angle: int) -> int {
    lerp_spec(spread / 2, -(spread / 2), ray_ratio(count, i)) + angle
}

/// The ray from `(x, y)` of the given length along the direction with the
/// given sine and cosine.
pub open spec fn ray_from(x: int, y: int, length: int, sin: int, cos: int) -> Segment {
    ((x as i64, y as i64), ((x - scaled(sin, length)) as i64, (y - scaled(cos, length)) as i64))
}

/// A ray cast from `(x, y)`: it starts there and runs the given length
/// along some direction.
pub open spec fn is_ray(ray: Segment, x: int, y: int, length: int) -> bool {
    exists|sin: int, cos: int|
        is_unit(sin) && is_unit(cos) && ray == #[trigger] ray_from(x, y, length, sin, cos)
}

/// Ray `i` of the fan of a sensor on a vehicle at `(x, y)` that heads
/// `angle`: from the vehicle, the sensor's ray length along the direction
/// that the source gives for the ray's angle.
pub open spec fn fan_ray<T: Trig>(
    sensor: SensorModel,
    i: int,
    x: int,
    y: int,
    angle: int,
    trig: &T,
) -> Segment {
    let direction = heading_of(
        trig,
        ray_angle_of(sensor.ray_spread as int, sensor.ray_count as int, i, angle) as i64,
    );
    ray_from(x, y, sensor.ray_length as int, direction.sine(), direction.cosine())
}

/// A ray of the fan is a ray cast from the vehicle.
pub proof fn lemma_fan_ray_is_ray<T: Trig>(
    sensor: SensorModel,
    i: int,
    x: int,
    y: int,
    angle: int,
    trig: &T,
)
    ensures
        is_ray(fan_ray(sensor, i, x, y, angle, trig), x, y, sensor.ray_length as int),
{
    let a = ray_angle_of(sensor.ray_spread as int, sensor.ray_count as int, i, angle) as i64;
    lemma_heading_of(trig, a);
    let direction = heading_of(trig, a);
    assert(fan_ray(sensor, i, x, y, angle, trig) == ray_from(
        x,
        y,
        sensor.ray_length as int,
        direction.sine(),
        direction.cosine(),
    ));
}

/// How far along the road a sensor with rays of the given length looks
/// for vehicles.
pub open spec fn sensing_range(ray_length: int) -> int {
    ray_length + SENSOR_MARGIN
}

/// Whether a vehicle at `y` is near enough along the road to be looked at
/// from `reader_y`: the distances of the two from the start of the road
/// differ by no more than `range`.
pub open spec fn in_range(reader_y: int, y: int, range: int) -> bool {
    magnitude(magnitude(reader_y) - magnitude(y)) <= range
}

/// An edge that a sensor at `reader_y` looks at: a border of the road, or
/// a side of a vehicle in range.
pub open spec fn seen(
    e: Segment,
    borders: Seq<Segment>,
    traffic: Seq<CarModel>,
    reader_y: int,
    range: int,
) -> bool {
    ||| exists|j: int| 0 <= j < borders.len() && #[trigger] borders[j] == e
    ||| exists|k: int, i: int|
        0 <= k < traffic.len() && in_range(reader_y, traffic[k].y as int, range) && 0 <= i
            < traffic[k].polygon.len() && #[trigger] edge(traffic[k].polygon, i) == e
}

/// The reading takes the edge into account: if the ray meets the edge,
/// there is a reading and it is no farther along the ray.
pub open spec fn accounts_for(reading: Option<IntersectionPoint>, ray: Segment, e: Segment) -> bool {
    crosses(ray, e) ==> (reading matches Some(p) && p.offset <= crossing_offset(
        ray.0,
        ray.1,
        e.0,
        e.1,
    ))
}

/// What a ray reports: nothing if it meets none of the edges it looks at,
/// else its crossing with one of them, and none of them is met nearer to
/// the ray's start. The crossing point is fixed by the ray and the
/// offset, so this names one reading.
pub open spec fn is_reading(
    reading: Option<IntersectionPoint>,
    ray: Segment,
    borders: Seq<Segment>,
    traffic: Seq<CarModel>,
    reader_y: int,
    range: int,
) -> bool {
    &&& forall|e: Segment| #[trigger]
        seen(e, borders, traffic, reader_y, range) ==> accounts_for(reading, ray, e)
    &&& reading is Some ==> exists|e: Segment| #[trigger]
        seen(e, borders, traffic, reader_y, range) && intersection(ray.0, ray.1, e.0, e.1)
            == reading
}

/// What an update does to a sensor on a vehicle at `(x, y)` that heads
/// `angle`: the settings stay, the rays are those of the fan (see
/// [`fan_ray`]), and every reading is what its ray reports.
pub open spec fn sensor_updated<T: Trig>(
    before: SensorModel,
    after: SensorModel,
    x: int,
    y: int,
    angle: int,
    borders: Seq<Segment>,
    traffic: Seq<CarModel>,
    trig: &T,
) -> bool {
    &&& sensor_wf(after)
    &&& after.ray_count == before.ray_count
    &&& after.ray_length == before.ray_length
    &&& after.ray_spread == before.ray_spread
    &&& forall|i: int|
        0 <= i < after.rays.len() ==> #[trigger] after.rays[i] == fan_ray(before, i, x, y, angle, trig)
    &&& forall|i: int|
        0 <= i < after.readings.len() ==> is_reading(
            #[trigger] after.readings[i],
            after.rays[i],
            borders,
            traffic,
            y,
            sensing_range(after.ray_length as int),
        )
}

/// What the sensor leaves out, no ray could meet: a vehicle that is not
/// in the sensing range of a reader, and whose half width and half height
/// together are no more than `SENSOR_MARGIN`, has no side that a ray cast
/// from the reader crosses.
pub proof fn lemma_cull_hides_nothing(car: CarModel, ray: Segment, x: int, y: int, length: int)
    requires
        car_wf(car),
        car.width / 2 + car.height / 2 <= SENSOR_MARGIN,
        -CENTER_LIMIT <= x <= CENTER_LIMIT,
        -CENTER_LIMIT <= y <= CENTER_LIMIT,
        0 <= length <= SIZE_LIMIT,
        is_ray(ray, x, y, length),
        !in_range(y, car.y as int, sensing_range(length)),
    ensures
        forall|i: int| 0 <= i < car.polygon.len() ==> !crosses(ray, #[trigger] edge(car.polygon, i)),
{
    let (sin, cos) = choose|sin: int, cos: int|
        is_unit(sin) && is_unit(cos) && ray == #[trigger] ray_from(x, y, length, sin, cos);
    lemma_scaled(sin, length);
    lemma_scaled(cos, length);
    let reach = car.width / 2 + car.height / 2;
    assert forall|i: int| 0 <= i < car.polygon.len() implies !crosses(
        ray,
        #[trigger] edge(car.polygon, i),
    ) by {
        let side = edge(car.polygon, i);
        lemma_outline_is_near(car, i);
        lemma_outline_is_near(car, (i + 1) % 4);
        if crosses(ray, side) {
            lemma_crossing_needs_overlap(ray.0, ray.1, side.0, side.1);
        }
    }
}

/// A reading takes every vehicle into account that its ray meets, in the
/// sensing range or not: if the ray crosses a side of a vehicle of the
/// traffic, there is a reading, and it is no farther along the ray than
/// that crossing.
pub proof fn lemma_reading_sees_every_vehicle(
    reading: Option<IntersectionPoint>,
    ray: Segment,
    borders: Seq<Segment>,
    traffic: Seq<CarModel>,
    x: int,
    y: int,
    length: int,
    k: int,
    i: int,
)
    requires
        -CENTER_LIMIT <= x <= CENTER_LIMIT,
        -CENTER_LIMIT <= y <= CENTER_LIMIT,
        0 <= length <= SIZE_LIMIT,
        is_ray(ray, x, y, length),
        is_reading(reading, ray, borders, traffic, y, sensing_range(length)),
        0 <= k < traffic.len(),
        car_wf(traffic[k]),
        traffic[k].width / 2 + traffic[k].height / 2 <= SENSOR_MARGIN,
        0 <= i < traffic[k].polygon.len(),
        crosses(ray, edge(traffic[k].polygon, i)),
    ensures
        accounts_for(reading, ray, edge(traffic[k].polygon, i)),
        reading is Some,
{
    let side = edge(traffic[k].polygon, i);
    if !in_range(y, traffic[k].y as int, sensing_range(length)) {
        lemma_cull_hides_nothing(traffic[k], ray, x, y, length);
    }
    assert(seen(side, borders, traffic, y, sensing_range(length)));
}

/// Every corner of a drawn outline lies no farther along the road from
/// the vehicle's centre than half the width and half the height together.
proof fn lemma_outline_is_near(car: CarModel, i: int)
    requires
        car_wf(car),
        car.polygon.len() > 0,
        0 <= i < 4,
    ensures
        car.polygon.len() == 4,
        car.y - (car.width / 2 + car.height / 2) <= car.polygon[i].1 <= car.y + (car.width / 2
            + car.height / 2),
{
    let sin = car.heading.sine();
    let cos = car.heading.cosine();
    lemma_scaled(cos, car.height as int / 2);
    lemma_scaled(sin, car.width as int / 2);
    let along_y = scaled(cos, car.height as int / 2);
    let across_y = scaled(sin, car.width as int / 2);
    let corners = rectangle(
        car.x as int,
        car.y as int,
        car.width as int,
        car.height as int,
        sin,
        cos,
    );
    assert(car.polygon == corners);
    assert(corners[0].1 == (car.y - along_y - across_y) as i64);
    assert(corners[1].1 == (car.y - along_y + across_y) as i64);
    assert(corners[2].1 == (car.y + along_y + across_y) as i64);
    assert(corners[3].1 == (car.y + along_y - across_y) as i64);
}

/// The nearer of a reading so far and a new hit; the reading so far when
/// they are equally near.
pub open spec fn nearer(best: Option<IntersectionPoint>, hit: Option<IntersectionPoint>) -> Option<
    IntersectionPoint,
> {
    match (best, hit) {
        (Some(b), Some(h)) => if b.offset > h.offset {
            hit
        } else {
            best
        },
        (None, Some(_)) => hit,
        (_, None) => best,
    }
}

/// Two readings of one ray with the same offset are the same reading.
pub proof fn lemma_reading_is_unique(
    first: Option<IntersectionPoint>,
    second: Option<IntersectionPoint>,
    ray: Segment,
    borders: Seq<Segment>,
    traffic: Seq<CarModel>,
    reader_y: int,
    range: int,
)
    requires
        is_reading(first, ray, borders, traffic, reader_y, range),
        is_reading(second, ray, borders, traffic, reader_y, range),
    ensures
        first == second,
{
    if first is Some {
        let e = choose|e: Segment| #[trigger]
            seen(e, borders, traffic, reader_y, range) && intersection(ray.0, ray.1, e.0, e.1)
                == first;
    }
    if second is Some {
        let e = choose|e: Segment| #[trigger]
            seen(e, borders, traffic, reader_y, range) && intersection(ray.0, ray.1, e.0, e.1)
                == second;
    }
    if first is Some && second is Some {
        let e1 = choose|e: Segment| #[trigger]
            seen(e, borders, traffic, reader_y, range) && intersection(ray.0, ray.1, e.0, e.1)
                == first;
        let e2 = choose|e: Segment| #[trigger]
            seen(e, borders, traffic, reader_y, range) && intersection(ray.0, ray.1, e.0, e.1)
                == second;
        lemma_intersection_bounds(ray.0, ray.1, e1.0, e1.1);
        lemma_intersection_bounds(ray.0, ray.1, e2.0, e2.1);
    }
}

/// A proximity sensor.
#[derive(Debug, Clone)]
pub struct Sensor {
    ray_count: i32,
    ray_length: i64,
    ray_spread: i64,
    rays: Vec<Segment>,
    readings: Vec<Option<IntersectionPoint>>,
}

impl View for Sensor {
    type V = SensorModel;

    closed spec fn view(&self) -> SensorModel {
        SensorModel {
            ray_count: self.ray_count,
            ray_length: self.ray_length,
            ray_spread: self.ray_spread,
            rays: self.rays@,
            readings: self.readings@,
        }
    }
}

impl Sensor {
    /// The sensor keeps one ray and one reading per configured ray.
    pub open spec fn wf(&self) -> bool {
        sensor_wf(self@)
    }

    /// A sensor with `ray_count` rays of `ray_length`, fanned over
    /// `ray_spread`. Its rays all start out at the origin with nothing met.
    pub fn new(ray_count: i32, ray_length: i64, ray_spread: i64) -> (sensor: Self)
        requires
            sensor_fits(ray_count, ray_length, ray_spread),
        ensures
            sensor@ == fresh_sensor(ray_count, ray_length, ray_spread),
            sensor.wf(),
    {
        let mut rays: Vec<Segment> = Vec::new();
        let mut readings: Vec<Option<IntersectionPoint>> = Vec::new();
        let mut i: i32 = 0;
        while i < ray_count
            invariant
                0 <= i <= ray_count,
                rays@.len() == i,
                readings@.len() == i,
                forall|k: int| 0 <= k < i ==> #[trigger] rays@[k] == ((0i64, 0i64), (0i64, 0i64)),
                forall|k: int| 0 <= k < i ==> #[trigger] readings@[k] is None,
            decreases ray_count - i,
        {
            rays.push(((0, 0), (0, 0)));
            readings.push(None);
            i += 1;
        }
        let sensor = Sensor { ray_count, ray_length, ray_spread, rays, readings };
        assert(sensor@.rays =~= fresh_sensor(ray_count, ray_length, ray_spread).rays);
        assert(sensor@.readings =~= fresh_sensor(ray_count, ray_length, ray_spread).readings);
        sensor
    }

    /// What each ray last met, `None` for a ray that met nothing.
    pub fn readings(&self) -> (readings: &[Option<IntersectionPoint>])
        ensures
            readings@ == self@.readings,
    {
        self.readings.as_slice()
    }

    /// The rays as last cast.
    pub fn rays(&self) -> (rays: &[Segment])
        ensures
            rays@ == self@.rays,
    {
        self.rays.as_slice()
    }

    /// How many rays the sensor casts.
    pub fn ray_count(&self) -> (count: i32)
        ensures
            count == self@.ray_count,
    {
        self.ray_count
    }

    /// How long the rays are.
    pub fn ray_length(&self) -> (length: i64)
        ensures
            length == self@.ray_length,
    {
        self.ray_length
    }

    /// The angle the fan covers, in microradians.
    pub fn ray_spread(&self) -> (spread: i64)
        ensures
            spread == self@.ray_spread,
    {
        self.ray_spread
    }

    /// The heading of ray `i` for a vehicle heading `angle`.
    pub fn ray_angle(&self, i: i32, angle: i64) -> (ray_angle: i64)
        requires
            self.wf(),
            0 <= i < self@.ray_count,
            -ANGLE_LIMIT <= angle <= ANGLE_LIMIT,
        ensures
            ray_angle == ray_angle_of(
                self@.ray_spread as int,
                self@.ray_count as int,
                i as int,
                angle as int,
            ),
            -2 * ANGLE_LIMIT <= ray_angle <= 2 * ANGLE_LIMIT,
    {
        let ratio: i64 = if self.ray_count == 1 {
            HALF
        } else {
            let steps: i64 = (self.ray_count - 1) as i64;
            assert(((i as int) * (ONE as int)) / (steps as int) <= ONE as int) by (nonlinear_arith)
                requires
                    0 <= (i as int) * (ONE as int) <= (steps as int) * (ONE as int),
                    steps > 0,
            ;
            ((i as i64) * ONE) / steps
        };
        let half: i64 = self.ray_spread / 2;
        proof {
            lemma_lerp(half as int, -half as int, ratio as int);
        }
        lerp(half, -half, ratio) + angle
    }

    /// Casts the rays anew from `(x, y)` for a vehicle heading `angle`.
    fn cast_rays<T: Trig>(&mut self, x: i64, y: i64, angle: i64, trig: &T)
        requires
            old(self).wf(),
            -CENTER_LIMIT <= x <= CENTER_LIMIT,
            -CENTER_LIMIT <= y <= CENTER_LIMIT,
            -ANGLE_LIMIT <= angle <= ANGLE_LIMIT,
        ensures
            final(self).wf(),
            final(self)@.ray_count == old(self)@.ray_count,
            final(self)@.ray_length == old(self)@.ray_length,
            final(self)@.ray_spread == old(self)@.ray_spread,
            final(self)@.readings == old(self)@.readings,
            forall|i: int|
                0 <= i < final(self)@.rays.len() ==> #[trigger] final(self)@.rays[i] == fan_ray(
                    old(self)@,
                    i,
                    x as int,
                    y as int,
                    angle as int,
                    trig,
                ),
    {
        let mut i: i32 = 0;
        while i < self.ray_count
            invariant
                0 <= i <= self.ray_count,
                self.wf(),
                -CENTER_LIMIT <= x <= CENTER_LIMIT,
                -CENTER_LIMIT <= y <= CENTER_LIMIT,
                -ANGLE_LIMIT <= angle <= ANGLE_LIMIT,
                self@.ray_count == old(self)@.ray_count,
                self@.ray_length == old(self)@.ray_length,
                self@.ray_spread == old(self)@.ray_spread,
                self@.readings == old(self)@.readings,
                forall|k: int|
                    0 <= k < i ==> #[trigger] self@.rays[k] == fan_ray(
                        old(self)@,
                        k,
                        x as int,
                        y as int,
                        angle as int,
                        trig,
                    ),
            decreases self.ray_count - i,
        {
            let ray_angle = self.ray_angle(i, angle);
            let direction = Direction::of(trig, ray_angle);
            let ray = cast_ray(x, y, self.ray_length, direction);
            let ghost before = self@.rays;
            self.rays[i as usize] = ray;
            assert forall|k: int| 0 <= k < i + 1 implies #[trigger] self@.rays[k] == fan_ray(
                old(self)@,
                k,
                x as int,
                y as int,
                angle as int,
                trig,
            ) by {
                if k < i {
                    assert(self@.rays[k] == before[k]);
                }
            }
            assert forall|k: int| 0 <= k < self@.rays.len() implies segment_in_world(
                #[trigger] self@.rays[k],
            ) by {
                if k != i {
                    assert(self@.rays[k] == before[k]);
                }
            }
            i += 1;
        }
    }

    /// Casts the rays anew from `(x, y)` for a vehicle heading `angle`, and
    /// takes for each the nearest thing it meets among the borders and the
    /// vehicles within the sensing range along the road.
    pub fn update<T: Trig>(
        &mut self,
        x: i64,
        y: i64,
        angle: i64,
        road_borders: &[Segment],
        traffic: &Traffic,
        trig: &T,
    )
        requires
            old(self).wf(),
            -CENTER_LIMIT <= x <= CENTER_LIMIT,
            -CENTER_LIMIT <= y <= CENTER_LIMIT,
            -ANGLE_LIMIT <= angle <= ANGLE_LIMIT,
            segments_in_world(road_borders@),
            traffic.wf(),
        ensures
            sensor_updated(
                old(self)@,
                final(self)@,
                x as int,
                y as int,
                angle as int,
                road_borders@,
                traffic@,
                trig,
            ),
            final(self).wf(),
    {
        self.cast_rays(x, y, angle, trig);
        let range: i64 = self.ray_length + SENSOR_MARGIN;
        let mut i: usize = 0;
        while i < self.rays.len()
            invariant
                i <= self@.rays.len(),
                self.wf(),
                segments_in_world(road_borders@),
                traffic.wf(),
                range == sensing_range(self@.ray_length as int),
                self@.ray_count == old(self)@.ray_count,
                self@.ray_length == old(self)@.ray_length,
                self@.ray_spread == old(self)@.ray_spread,
                forall|k: int|
                    0 <= k < self@.rays.len() ==> #[trigger] self@.rays[k] == fan_ray(
                        old(self)@,
                        k,
                        x as int,
                        y as int,
                        angle as int,
                        trig,
                    ),
                forall|k: int|
                    0 <= k < i ==> is_reading(
                        #[trigger] self@.readings[k],
                        self@.rays[k],
                        road_borders@,
                        traffic@,
                        y as int,
                        range as int,
                    ),
            decreases self@.rays.len() - i,
        {
            let ray = self.rays[i];
            let reading = get_reading(y, ray, road_borders, traffic, range);
            self.readings[i] = reading;
            i += 1;
        }
    }
}

/// Whether a vehicle at `y` is near enough along the road to be looked at
/// from `reader_y`.
pub fn is_in_range(reader_y: i64, y: i64, range: i64) -> (near: bool)
    ensures
        near == in_range(reader_y as int, y as int, range as int),
{
    let a: i128 = magnitude_of(reader_y) as i128;
    let b: i128 = magnitude_of(y) as i128;
    let gap: i128 = if a < b {
        b - a
    } else {
        a - b
    };
    gap <= range as i128
}

/// The ray from `(x, y)` of the given length along a direction.
pub fn cast_ray(x: i64, y: i64, length: i64, direction: Direction) -> (ray: Segment)
    requires
        -CENTER_LIMIT <= x <= CENTER_LIMIT,
        -CENTER_LIMIT <= y <= CENTER_LIMIT,
        0 <= length <= SIZE_LIMIT,
    ensures
        ray == ray_from(x as int, y as int, length as int, direction.sine(), direction.cosine()),
        is_ray(ray, x as int, y as int, length as int),
        segment_in_world(ray),
{
    let sin = direction.sin();
    let cos = direction.cos();
    proof {
        lemma_scaled(sin as int, length as int);
        lemma_scaled(cos as int, length as int);
    }
    let ray = ((x, y), (x - scale(sin, length), y - scale(cos, length)));
    ray
}

/// The nearer of a reading so far and a new hit.
fn nearer_of(best: Option<IntersectionPoint>, hit: Option<IntersectionPoint>) -> (r: Option<
    IntersectionPoint,
>)
    ensures
        r == nearer(best, hit),
{
    match hit {
        Some(h) => match best {
            Some(b) => if b.offset > h.offset {
                hit
            } else {
                best
            },
            None => hit,
        },
        None => best,
    }
}

/// What a ray cast from a vehicle at `reader_y` reports: the nearest of
/// its crossings with the borders and with the sides of the vehicles
/// within `range` along the road, or `None` if there is none.
pub fn get_reading(
    reader_y: i64,
    ray: Segment,
    road_borders: &[Segment],
    traffic: &Traffic,
    range: i64,
) -> (reading: Option<IntersectionPoint>)
    requires
        segment_in_world(ray),
        segments_in_world(road_borders@),
        traffic.wf(),
    ensures
        is_reading(reading, ray, road_borders@, traffic@, reader_y as int, range as int),
        reading_wf(reading),
{
    let ghost borders = road_borders@;
    let ghost cars = traffic@;
    let ghost ry = reader_y as int;
    let ghost rg = range as int;
    let mut min_contact: Option<IntersectionPoint> = None;
    let ghost mut witness: Segment = ray;
    let mut j: usize = 0;
    while j < road_borders.len()
        invariant
            j <= borders.len(),
            borders == road_borders@,
            segment_in_world(ray),
            segments_in_world(borders),
            forall|l: int| 0 <= l < j ==> accounts_for(min_contact, ray, #[trigger] borders[l]),
            min_contact is Some ==> seen(witness, borders, cars, ry, rg) && intersection(
                ray.0,
                ray.1,
                witness.0,
                witness.1,
            ) == min_contact,
            reading_wf(min_contact),
        decreases borders.len() - j,
    {
        let border = road_borders[j];
        let hit = get_intersection(ray.0, ray.1, border.0, border.1);
        proof {
            if hit is Some {
                lemma_intersection_bounds(ray.0, ray.1, border.0, border.1);
                if nearer(min_contact, hit) == hit {
                    witness = border;
                }
            }
        }
        min_contact = nearer_of(min_contact, hit);
        j += 1;
    }
    let obstacles = traffic.cars();
    let mut k: usize = 0;
    while k < obstacles.len()
        invariant
            k <= cars.len(),
            cars == traffic@,
            traffic.wf(),
            obstacles@.len() == cars.len(),
            forall|l: int| 0 <= l < cars.len() ==> (#[trigger] obstacles@[l])@ == cars[l],
            borders == road_borders@,
            ry == reader_y as int,
            rg == range as int,
            segment_in_world(ray),
            forall|l: int| 0 <= l < borders.len() ==> accounts_for(min_contact, ray, #[trigger] borders[l]),
            forall|l: int, i: int|
                0 <= l < k && in_range(ry, cars[l].y as int, rg) && 0 <= i < cars[l].polygon.len()
                    ==> accounts_for(min_contact, ray, #[trigger] edge(cars[l].polygon, i)),
            min_contact is Some ==> seen(witness, borders, cars, ry, rg) && intersection(
                ray.0,
                ray.1,
                witness.0,
                witness.1,
            ) == min_contact,
            reading_wf(min_contact),
        decreases cars.len() - k,
    {
        let car = &obstacles[k];
        if is_in_range(reader_y, car.y(), range) {
            let polygon = car.polygons();
            let sides = polygon_edges(polygon);
            let mut i: usize = 0;
            while i < sides.len()
                invariant
                    i <= sides@.len(),
                    k < cars.len(),
                    sides@.len() == polygon@.len(),
                    polygon@ == cars[k as int].polygon,
                    points_in_world(polygon@),
                    forall|m: int| 0 <= m < polygon@.len() ==> #[trigger] sides@[m] == edge(polygon@, m),
                    in_range(ry, cars[k as int].y as int, rg),
                    segment_in_world(ray),
                    forall|l: int|
                        0 <= l < borders.len() ==> accounts_for(min_contact, ray, #[trigger] borders[l]),
                    forall|l: int, m: int|
                        0 <= l < k && in_range(ry, cars[l].y as int, rg) && 0 <= m
                            < cars[l].polygon.len() ==> accounts_for(
                            min_contact,
                            ray,
                            #[trigger] edge(cars[l].polygon, m),
                        ),
                    forall|m: int|
                        0 <= m < i ==> accounts_for(min_contact, ray, #[trigger] edge(polygon@, m)),
                    min_contact is Some ==> seen(witness, borders, cars, ry, rg) && intersection(
                        ray.0,
                        ray.1,
                        witness.0,
                        witness.1,
                    ) == min_contact,
                    reading_wf(min_contact),
                decreases sides@.len() - i,
            {
                let side = sides[i];
                let hit = get_intersection(ray.0, ray.1, side.0, side.1);
                proof {
                    if hit is Some {
                        lemma_intersection_bounds(ray.0, ray.1, side.0, side.1);
                        if nearer(min_contact, hit) == hit {
                            witness = side;
                        }
                    }
                }
                min_contact = nearer_of(min_contact, hit);
                i += 1;
            }
        }
        k += 1;
    }
    min_contact
}

} // verus!

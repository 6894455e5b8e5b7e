//! A vehicle: its kinematics, its outline, and what a tick does to it.
use crate::ai::{
    all_unit, blend_network, network_after, network_outputs, network_wf, same_topology,
    topology_matches, LevelModel, NeuralNetwork,
};
use crate::config::{neurons_counts_of, Config, ConfigModel};
use crate::controls::{after_key, traffic_controls, ControlType, Controls, KeyEvent};
use crate::env::{heading_of, Direction, RandomSource, Trig};
use crate::fixed::{
    clamp, clamped, is_ratio, is_unit, lemma_scaled, lemma_scaled_within, magnitude, scale,
    scaled, CENTER_LIMIT, ONE, SIZE_LIMIT,
};
use crate::road::Road;
use crate::sensors::{
    fresh_sensor, in_range, is_in_range, reading_wf, sensor_updated, sensor_wf, Sensor,
    SensorModel, ANGLE_LIMIT,
};
use crate::traffic::Traffic;
use crate::utils::{
    point_in_world, points_in_world, poly_intersection_with_borders, poly_intersection_with_poly,
    polygon_crosses_borders, polygons_cross, IntersectionPoint, Point, Segment,
};
use crate::{CAR_HEIGHT_DEFAULT, CAR_WIDHT_DEFAULT, CAR_Y_DEFAULT};
use vstd::prelude::*;

verus! {

/// How far the heading turns in a tick (0.03 rad).
pub const ANGLE_TURN: i64 = 30_000;

/// How much speed friction takes away in a tick (0.05).
pub const FRICTION: i64 = 50_000;

/// How much speed the throttle or the brake adds in a tick (0.2).
pub const ACCELERATION: i64 = 200_000;

/// How far apart along the road two vehicles may be and still be tested for
/// collision (100 road units).
pub const DAMAGE_RANGE: i64 = 100_000_000;

/// Half a turn, in microradians.
pub const PI: i64 = 3_141_593;

/// Top speed of a network-driven vehicle (3.0).
pub const AGENT_MAX_SPEED: i64 = 3_000_000;

/// What a vehicle is at one moment.
pub struct CarModel {
    pub id: usize,
    pub x: i64,
    pub y: i64,
    pub width: i64,
    pub height: i64,
    pub speed: i64,
    pub max_speed: i64,
    pub angle: i64,
    pub heading: Direction,
    pub controls: Controls,
    pub sensor: Option<SensorModel>,
    pub brain: Option<Seq<LevelModel>>,
    pub polygon: Seq<Point>,
    pub damaged: bool,
}

/// A position and size a vehicle can have.
pub open spec fn body_fits(x: i64, y: i64, width: i64, height: i64, max_speed: i64) -> bool {
    &&& -CENTER_LIMIT <= x <= CENTER_LIMIT
    &&& -CENTER_LIMIT <= y <= CENTER_LIMIT
    &&& 0 <= width <= SIZE_LIMIT
    &&& 0 <= height <= SIZE_LIMIT
    &&& 0 <= max_speed <= SIZE_LIMIT
}

/// The four corners of a `width` by `height` rectangle centred on `(x, y)`
/// and turned to the heading with the given sine and cosine: the centre
/// displaced by half the height along the heading and half the width
/// across it. In order: front right, front left, back left, back right, so
/// that consecutive corners are joined by a side.
pub open spec fn rectangle(x: int, y: int, width: int, height: int, sin: int, cos: int) -> Seq<Point> {
    let along_x = scaled(sin, height / 2);
    let along_y = scaled(cos, height / 2);
    let across_x = scaled(cos, width / 2);
    let across_y = scaled(sin, width / 2);
    seq![
        ((x - along_x + across_x) as i64, (y - along_y - across_y) as i64),
        ((x - along_x - across_x) as i64, (y - along_y + across_y) as i64),
        ((x + along_x - across_x) as i64, (y + along_y + across_y) as i64),
        ((x + along_x + across_x) as i64, (y + along_y - across_y) as i64),
    ]
}

/// The outline of a vehicle that heads straight up the road is upright:
/// its corners lie half the width and half the height from the centre
/// along the axes.
pub proof fn lemma_upright_outline(car: CarModel)
    requires
        car.heading.sine() == 0,
        car.heading.cosine() == ONE,
    ensures
        outlined(car).polygon == seq![
            ((car.x + car.width / 2) as i64, (car.y - car.height / 2) as i64),
            ((car.x - car.width / 2) as i64, (car.y - car.height / 2) as i64),
            ((car.x - car.width / 2) as i64, (car.y + car.height / 2) as i64),
            ((car.x + car.width / 2) as i64, (car.y + car.height / 2) as i64),
        ],
{
    lemma_upright_rectangle(car.x as int, car.y as int, car.width as int, car.height as int);
}

/// At heading 0 the rectangle is upright: its corners lie half a width
/// and half a height from the centre along the axes.
pub proof fn lemma_upright_rectangle(x: int, y: int, width: int, height: int)
    ensures
        rectangle(x, y, width, height, 0, ONE as int) == seq![
            ((x + width / 2) as i64, (y - height / 2) as i64),
            ((x - width / 2) as i64, (y - height / 2) as i64),
            ((x - width / 2) as i64, (y + height / 2) as i64),
            ((x + width / 2) as i64, (y + height / 2) as i64),
        ],
{
}

/// The corners of a vehicle's rectangle lie within reach of the geometry.
pub proof fn lemma_rectangle_in_world(x: int, y: int, width: int, height: int, sin: int, cos: int)
    requires
        -CENTER_LIMIT <= x <= CENTER_LIMIT,
        -CENTER_LIMIT <= y <= CENTER_LIMIT,
        0 <= width <= SIZE_LIMIT,
        0 <= height <= SIZE_LIMIT,
        is_unit(sin),
        is_unit(cos),
    ensures
        rectangle(x, y, width, height, sin, cos).len() == 4,
        points_in_world(rectangle(x, y, width, height, sin, cos)),
{
    let half = SIZE_LIMIT / 2;
    let along_x = scaled(sin, height / 2);
    let along_y = scaled(cos, height / 2);
    let across_x = scaled(cos, width / 2);
    let across_y = scaled(sin, width / 2);
    lemma_scaled_within(sin, height / 2, half);
    lemma_scaled_within(cos, height / 2, half);
    lemma_scaled_within(cos, width / 2, half);
    lemma_scaled_within(sin, width / 2, half);
    let corners = rectangle(x, y, width, height, sin, cos);
    assert(corners[0] == ((x - along_x + across_x) as i64, (y - along_y - across_y) as i64));
    assert(corners[1] == ((x - along_x - across_x) as i64, (y - along_y + across_y) as i64));
    assert(corners[2] == ((x + along_x - across_x) as i64, (y + along_y + across_y) as i64));
    assert(corners[3] == ((x + along_x + across_x) as i64, (y + along_y - across_y) as i64));
    assert forall|i: int| 0 <= i < corners.len() implies point_in_world(#[trigger] corners[i]) by {
        assert(i == 0 || i == 1 || i == 2 || i == 3);
    }
}

/// The speed after the throttle and the brake have acted.
pub open spec fn accelerated(speed: int, controls: Controls) -> int {
    speed + (if controls.up {
        ACCELERATION as int
    } else {
        0
    }) - (if controls.down {
        ACCELERATION as int
    } else {
        0
    })
}

/// The heading after steering. A vehicle at rest does not turn; one that
/// reverses turns the other way, so that left and right are as the driver
/// sees them.
pub open spec fn turned(angle: int, speed: int, controls: Controls) -> int {
    if speed == 0 {
        angle
    } else {
        let step = if speed > 0 {
            ANGLE_TURN as int
        } else {
            -ANGLE_TURN as int
        };
        clamped(
            angle + (if controls.left {
                step
            } else {
                0
            }) - (if controls.right {
                step
            } else {
                0
            }),
            -ANGLE_LIMIT as int,
            ANGLE_LIMIT as int,
        )
    }
}

/// The speed limited to the top speed forward and half of it in reverse.
pub open spec fn limited(speed: int, max_speed: int) -> int {
    clamped(speed, -(max_speed / 2), max_speed)
}

/// The speed after friction: one step nearer to zero, and exactly zero
/// once it is within a step of it.
pub open spec fn slowed(speed: int) -> int {
    if speed >= 2 * FRICTION {
        speed - FRICTION
    } else if speed <= -2 * FRICTION {
        speed + FRICTION
    } else {
        0
    }
}

/// The speed a tick leaves a vehicle with.
pub open spec fn next_speed(car: CarModel) -> int {
    slowed(limited(accelerated(car.speed as int, car.controls), car.max_speed as int))
}

/// The heading angle a tick leaves a vehicle with.
pub open spec fn next_angle(car: CarModel) -> int {
    turned(car.angle as int, accelerated(car.speed as int, car.controls), car.controls)
}

/// A coordinate after a step of `speed` along a direction component,
/// kept within the bounds of a vehicle's centre.
pub open spec fn stepped(from: int, component: int, speed: int) -> int {
    clamped(from - scaled(component, speed), -CENTER_LIMIT as int, CENTER_LIMIT as int)
}

/// The shape and ranges that a vehicle keeps at every moment, also between
/// its move and the drawing of its outline.
pub open spec fn car_body_wf(car: CarModel) -> bool {
    &&& body_fits(car.x, car.y, car.width, car.height, car.max_speed)
    &&& -(car.max_speed / 2) <= car.speed <= car.max_speed
    &&& -ANGLE_LIMIT <= car.angle <= ANGLE_LIMIT
    &&& is_unit(car.heading.sine())
    &&& is_unit(car.heading.cosine())
    &&& (car.polygon.len() == 0 || car.polygon.len() == 4)
    &&& points_in_world(car.polygon)
    &&& (car.sensor matches Some(sensor) ==> sensor_wf(sensor))
    &&& (car.brain matches Some(brain) ==> network_wf(brain))
}

/// The shape, ranges and caches that every vehicle keeps: what
/// `car_body_wf` says, and an outline that, once drawn, is the rectangle
/// of the vehicle's size at the vehicle's place and heading.
pub open spec fn car_wf(car: CarModel) -> bool {
    &&& car_body_wf(car)
    &&& (car.polygon.len() == 0 || car.polygon == rectangle(
        car.x as int,
        car.y as int,
        car.width as int,
        car.height as int,
        car.heading.sine(),
        car.heading.cosine(),
    ))
}

/// The vehicle after its kinematics: throttle, brake and steering have
/// acted, the speed is limited and slowed by friction, and the centre has
/// moved by the speed along the heading.
pub open spec fn moved(car: CarModel, heading: Direction) -> CarModel {
    let speed = next_speed(car);
    CarModel {
        speed: speed as i64,
        angle: next_angle(car) as i64,
        heading,
        x: stepped(car.x as int, heading.sine(), speed) as i64,
        y: stepped(car.y as int, heading.cosine(), speed) as i64,
        ..car
    }
}

/// The vehicle after its kinematics, stepped along the direction that the
/// source gives for the angle that the steering leaves.
pub open spec fn driven<T: Trig>(car: CarModel, trig: &T) -> CarModel {
    moved(car, heading_of(trig, next_angle(car) as i64))
}

/// The vehicle with its outline drawn for where it is.
pub open spec fn outlined(car: CarModel) -> CarModel {
    CarModel {
        polygon: rectangle(
            car.x as int,
            car.y as int,
            car.width as int,
            car.height as int,
            car.heading.sine(),
            car.heading.cosine(),
        ),
        ..car
    }
}

/// Whether an outline at `y` touches a border of the road, or the outline
/// of a vehicle no more than `DAMAGE_RANGE` away along the road.
pub open spec fn collides(
    polygon: Seq<Point>,
    y: int,
    borders: Seq<Segment>,
    traffic: Seq<CarModel>,
) -> bool {
    ||| polygon_crosses_borders(polygon, borders)
    ||| exists|k: int|
        0 <= k < traffic.len() && in_range(y, (#[trigger] traffic[k]).y as int, DAMAGE_RANGE as int)
            && polygons_cross(polygon, traffic[k].polygon)
}

/// What the network is fed: for each ray one minus the offset of what it
/// met, so that a near obstacle gives a value near 1.0, and 0.0 for a ray
/// that met nothing.
pub open spec fn sensor_inputs(readings: Seq<Option<IntersectionPoint>>) -> Seq<i64> {
    Seq::new(
        readings.len(),
        |i: int|
            match readings[i] {
                Some(p) => (ONE - p.offset) as i64,
                None => 0i64,
            },
    )
}

/// Whether output `i` of a decision is exactly 1.0. An output that the
/// network does not have counts as not pressed.
pub open spec fn pressed(outputs: Seq<i64>, i: int) -> bool {
    i < outputs.len() && outputs[i] == ONE
}

/// The controls after a decision `[throttle, left, right, brake]`.
pub open spec fn decided(controls: Controls, outputs: Seq<i64>) -> Controls {
    Controls {
        up: pressed(outputs, 0),
        left: pressed(outputs, 1),
        right: pressed(outputs, 2),
        down: pressed(outputs, 3),
        ..controls
    }
}

/// What a tick does to a vehicle.
///
/// A damaged vehicle stays as it is. Any other moves, along the sine and
/// cosine that the source gives for its new angle, and has its outline
/// drawn; it is damaged if the outline now touches a border or a vehicle
/// of the traffic; its sensor, if it has one, is updated for where it now
/// is; and its network, if it has both, is fed the sensor's readings and
/// decides the controls for the next tick.
pub open spec fn ticked<T: Trig>(
    before: CarModel,
    after: CarModel,
    borders: Seq<Segment>,
    traffic: Seq<CarModel>,
    trig: &T,
) -> bool {
    if before.damaged {
        after == before
    } else {
        let body = outlined(driven(before, trig));
        &&& after == (CarModel {
            damaged: collides(body.polygon, body.y as int, borders, traffic),
            sensor: after.sensor,
            brain: after.brain,
            controls: after.controls,
            ..body
        })
        &&& match before.sensor {
            None => after.sensor is None && after.brain == before.brain && after.controls
                == before.controls,
            Some(sensor) => {
                &&& after.sensor matches Some(now)
                &&& sensor_updated(
                    sensor,
                    now,
                    body.x as int,
                    body.y as int,
                    body.angle as int,
                    borders,
                    traffic,
                    trig,
                )
                &&& match before.brain {
                    None => after.brain is None && after.controls == before.controls,
                    Some(brain) => {
                        &&& after.brain == Some(network_after(brain, sensor_inputs(now.readings)))
                        &&& after.controls == decided(
                            before.controls,
                            network_outputs(brain, sensor_inputs(now.readings)),
                        )
                    },
                }
            },
        }
    }
}

/// Damage is for good: a tick leaves a damaged vehicle damaged, and where
/// and as it was.
pub proof fn lemma_damage_is_sticky<T: Trig>(
    before: CarModel,
    after: CarModel,
    borders: Seq<Segment>,
    traffic: Seq<CarModel>,
    trig: &T,
)
    requires
        before.damaged,
        ticked(before, after, borders, traffic, trig),
    ensures
        after.damaged,
        after == before,
{
}

/// Friction as the steps that apply it: a step off a forward speed, a step
/// onto a reverse speed, and zero for what is then within a step of zero.
proof fn lemma_slowed(speed: int)
    ensures
        slowed(speed) == {
            let forward = if speed > 0 {
                speed - FRICTION
            } else {
                speed
            };
            let reverse = if forward < 0 {
                forward + FRICTION
            } else {
                forward
            };
            if magnitude(reverse) < FRICTION {
                0
            } else {
                reverse
            }
        },
{
}

/// The speed after a tick stays between half the top speed in reverse and
/// the top speed forward.
pub proof fn lemma_next_speed_in_bounds(car: CarModel)
    requires
        0 <= car.max_speed,
    ensures
        -(car.max_speed / 2) <= next_speed(car) <= car.max_speed,
{
}

/// The controls of a vehicle driven from the keyboard with nothing
/// pressed.
pub open spec fn keyboard_controls() -> Controls {
    Controls { control_type: ControlType::Keyboard, up: false, left: false, right: false, down: false }
}

/// The controls of a network-driven vehicle with nothing pressed.
pub open spec fn agent_controls() -> Controls {
    Controls { control_type: ControlType::Ai, up: false, left: false, right: false, down: false }
}

/// The spread of the fan for a configured divisor: half a turn divided by
/// it.
pub open spec fn fan_spread(rays_spread: i64) -> int {
    (PI * ONE) / (rays_spread as int)
}

/// The sensor that the settings call for.
pub open spec fn configured_sensor(config: ConfigModel) -> SensorModel {
    fresh_sensor(config.rays_count as i32, config.rays_length, fan_spread(config.rays_spread) as i64)
}

/// A network-driven vehicle of the default size as it is built in lane
/// `x` for the given settings.
pub open spec fn agent_car(
    id: usize,
    x: i64,
    config: ConfigModel,
    brain: Seq<LevelModel>,
    heading: Direction,
) -> CarModel {
    fresh_car(
        id,
        x,
        CAR_Y_DEFAULT,
        CAR_WIDHT_DEFAULT,
        CAR_HEIGHT_DEFAULT,
        agent_controls(),
        AGENT_MAX_SPEED,
        Some(configured_sensor(config)),
        Some(brain),
        heading,
    )
}

/// A child of `parent`: the parent blended with some noise of its
/// topology at the given rate.
pub open spec fn is_child_of(child: Seq<LevelModel>, parent: Seq<LevelModel>, rate: int) -> bool {
    exists|noise: Seq<LevelModel>|
        network_wf(noise) && same_topology(noise, parent) && child == #[trigger] blend_network(
            parent,
            noise,
            rate,
        )
}

/// No two vehicles have the same id.
pub open spec fn ids_distinct(cars: Seq<CarModel>) -> bool {
    forall|i: int, j: int|
        0 <= i < cars.len() && 0 <= j < cars.len() && i != j ==> (#[trigger] cars[i]).id != (
        #[trigger] cars[j]).id
}

/// The id of the `i`-th of `count` agents: with a saved network to start
/// from, the first agent carries it under the id `count` and the others are
/// numbered from 0; without one, all are numbered from 0.
pub open spec fn agent_id(has_parent: bool, count: usize, i: int) -> int {
    if has_parent {
        if i == 0 {
            count as int
        } else {
            i - 1
        }
    } else {
        i
    }
}

/// The `i`-th agent of a population generated in lane `x`: a well-formed
/// agent as it is built, numbered by `agent_id`. With a network to start
/// from, the first agent carries it unchanged and every other carries a
/// child of it, mutated at the configured rate; without one, every agent
/// carries a random network of the configured layer sizes.
pub open spec fn generated(
    car: CarModel,
    i: int,
    x: i64,
    parent: Option<Seq<LevelModel>>,
    config: ConfigModel,
) -> bool {
    &&& car_wf(car)
    &&& car.heading.sine() == 0
    &&& car.heading.cosine() == ONE
    &&& car.brain matches Some(network)
    &&& car == agent_car(
        agent_id(parent is Some, config.cars_count, i) as usize,
        x,
        config,
        network,
        car.heading,
    )
    &&& match parent {
        Some(p) => if i == 0 {
            network == p
        } else {
            is_child_of(network, p, config.mutation_rate as int)
        },
        None => network_wf(network) && topology_matches(network, neurons_counts_of(config)),
    }
}

/// The agents of a generated population have ids of their own.
pub proof fn lemma_generated_ids_distinct(
    cars: Seq<CarModel>,
    x: i64,
    parent: Option<Seq<LevelModel>>,
    config: ConfigModel,
)
    requires
        cars.len() == config.cars_count,
        forall|i: int| 0 <= i < cars.len() ==> generated(#[trigger] cars[i], i, x, parent, config),
    ensures
        ids_distinct(cars),
{
}

/// A vehicle.
#[derive(Debug, Clone)]
pub struct Car {
    id: usize,
    x: i64,
    y: i64,
    width: i64,
    height: i64,
    speed: i64,
    max_speed: i64,
    angle: i64,
    heading: Direction,
    controls: Controls,
    sensor: Option<Sensor>,
    brain: Option<NeuralNetwork>,
    polygons: Vec<Point>,
    damaged: bool,
}

impl View for Car {
    type V = CarModel;

    closed spec fn view(&self) -> CarModel {
        CarModel {
            id: self.id,
            x: self.x,
            y: self.y,
            width: self.width,
            height: self.height,
            speed: self.speed,
            max_speed: self.max_speed,
            angle: self.angle,
            heading: self.heading,
            controls: self.controls,
            sensor: match self.sensor {
                Some(sensor) => Some(sensor@),
                None => None,
            },
            brain: match self.brain {
                Some(brain) => Some(brain@),
                None => None,
            },
            polygon: self.polygons@,
            damaged: self.damaged,
        }
    }
}

/// A vehicle as it is built: at rest, heading up the road, undamaged, its
/// outline not yet drawn.
pub open spec fn fresh_car(
    id: usize,
    x: i64,
    y: i64,
    width: i64,
    height: i64,
    controls: Controls,
    max_speed: i64,
    sensor: Option<SensorModel>,
    brain: Option<Seq<LevelModel>>,
    heading: Direction,
) -> CarModel {
    CarModel {
        id,
        x,
        y,
        width,
        height,
        speed: 0,
        max_speed,
        angle: 0,
        heading,
        controls,
        sensor,
        brain,
        polygon: Seq::empty(),
        damaged: false,
    }
}

impl Car {
    /// The vehicle keeps its shape, ranges and caches.
    pub open spec fn wf(&self) -> bool {
        car_wf(self@)
    }

    fn new(
        id: usize,
        x: i64,
        y: i64,
        width: i64,
        height: i64,
        controls: Controls,
        max_speed: i64,
        sensor: Option<Sensor>,
        brain: Option<NeuralNetwork>,
    ) -> (car: Self)
        requires
            body_fits(x, y, width, height, max_speed),
            sensor matches Some(s) ==> s.wf(),
            brain matches Some(b) ==> b.wf(),
        ensures
            car.wf(),
            car@.heading.sine() == 0,
            car@.heading.cosine() == ONE,
            car@ == fresh_car(
                id,
                x,
                y,
                width,
                height,
                controls,
                max_speed,
                match sensor {
                    Some(s) => Some(s@),
                    None => None,
                },
                match brain {
                    Some(b) => Some(b@),
                    None => None,
                },
                car@.heading,
            ),
    {
        Car {
            id,
            x,
            y,
            width,
            height,
            speed: 0,
            angle: 0,
            heading: Direction::up(),
            controls,
            sensor,
            brain,
            polygons: Vec::new(),
            damaged: false,
            max_speed,
        }
    }

    /// An uncontrolled vehicle of the default size at `(x, y)`: traffic,
    /// which holds the throttle down and never steers.
    pub fn no_control(x: i64, y: i64, max_speed: i64) -> (car: Self)
        requires
            body_fits(x, y, CAR_WIDHT_DEFAULT, CAR_HEIGHT_DEFAULT, max_speed),
        ensures
            car.wf(),
            car@.heading.sine() == 0,
            car@.heading.cosine() == ONE,
            car@ == fresh_car(
                0,
                x,
                y,
                CAR_WIDHT_DEFAULT,
                CAR_HEIGHT_DEFAULT,
                traffic_controls(),
                max_speed,
                None,
                None,
                car@.heading,
            ),
    {
        Car::new(0, x, y, CAR_WIDHT_DEFAULT, CAR_HEIGHT_DEFAULT, Controls::default(), max_speed, None, None)
    }

    /// A vehicle driven from the keyboard, with a sensor of five rays of
    /// 100 road units fanned over a quarter turn, and no network.
    pub fn keyboard_controlled(x: i64, y: i64, width: i64, height: i64) -> (car: Self)
        requires
            body_fits(x, y, width, height, AGENT_MAX_SPEED),
        ensures
            car.wf(),
            car@.heading.sine() == 0,
            car@.heading.cosine() == ONE,
            car@ == fresh_car(
                0,
                x,
                y,
                width,
                height,
                keyboard_controls(),
                AGENT_MAX_SPEED,
                Some(fresh_sensor(5, 100_000_000, (PI / 2) as i64)),
                None,
                car@.heading,
            ),
    {
        Car::new(
            0,
            x,
            y,
            width,
            height,
            Controls::new(ControlType::Keyboard),
            AGENT_MAX_SPEED,
            Some(Sensor::new(5, 100_000_000, PI / 2)),
            None,
        )
    }

    /// A network-driven vehicle with a sensor of five rays of 150 road
    /// units fanned over a quarter turn, and a new random network of five
    /// inputs, six hidden neurons and four outputs.
    pub fn ai_controlled<R: RandomSource>(x: i64, y: i64, width: i64, height: i64, rng: &mut R) -> (car: Self)
        requires
            body_fits(x, y, width, height, AGENT_MAX_SPEED),
        ensures
            car.wf(),
            car@.heading.sine() == 0,
            car@.heading.cosine() == ONE,
            car@ == fresh_car(
                0,
                x,
                y,
                width,
                height,
                agent_controls(),
                AGENT_MAX_SPEED,
                Some(fresh_sensor(5, 150_000_000, (PI / 2) as i64)),
                car@.brain,
                car@.heading,
            ),
            car@.brain matches Some(fresh) && network_wf(fresh) && topology_matches(
                fresh,
                seq![5usize, 6usize, 4usize],
            ),
    {
        let mut counts: Vec<usize> = Vec::new();
        counts.push(5);
        counts.push(6);
        counts.push(4);
        assert(counts@ =~= seq![5usize, 6usize, 4usize]);
        Car::with_brain(
            0,
            x,
            y,
            width,
            height,
            Sensor::new(5, 150_000_000, PI / 2),
            counts.as_slice(),
            None,
            rng,
        )
    }

    /// Applies a key event to a vehicle driven from the keyboard; any
    /// other vehicle ignores it.
    pub fn handle_key_input(&mut self, event: KeyEvent)
        requires
            old(self).wf(),
        ensures
            final(self)@ == (CarModel {
                controls: if old(self)@.controls.control_type == ControlType::Keyboard {
                    after_key(old(self)@.controls, event)
                } else {
                    old(self)@.controls
                },
                ..old(self)@
            }),
            final(self).wf(),
    {
        match self.controls.control_type {
            ControlType::Keyboard => {
                self.controls.handle_key_input(event);
            },
            _ => {},
        }
    }

    /// A network-driven vehicle with the given sensor. It is driven by
    /// `brain` if there is one, else by a new random network with the
    /// given layer sizes.
    pub fn with_brain<R: RandomSource>(
        id: usize,
        x: i64,
        y: i64,
        width: i64,
        height: i64,
        sensor: Sensor,
        neurons_counts: &[usize],
        brain: Option<NeuralNetwork>,
        rng: &mut R,
    ) -> (car: Self)
        requires
            body_fits(x, y, width, height, AGENT_MAX_SPEED),
            sensor.wf(),
            brain matches Some(b) ==> b.wf(),
        ensures
            car.wf(),
            car@.heading.sine() == 0,
            car@.heading.cosine() == ONE,
            car@ == fresh_car(
                id,
                x,
                y,
                width,
                height,
                agent_controls(),
                AGENT_MAX_SPEED,
                Some(sensor@),
                car@.brain,
                car@.heading,
            ),
            match brain {
                Some(b) => car@.brain == Some(b@),
                None => car@.brain matches Some(fresh) && network_wf(fresh) && topology_matches(
                    fresh,
                    neurons_counts@,
                ),
            },
    {
        let brain = match brain {
            Some(b) => b,
            None => NeuralNetwork::new(neurons_counts, rng),
        };
        Car::new(
            id,
            x,
            y,
            width,
            height,
            Controls::new(ControlType::Ai),
            AGENT_MAX_SPEED,
            Some(sensor),
            Some(brain),
        )
    }

    /// A network-driven vehicle of the default size in lane `lane`, with
    /// the sensor and the layer sizes that the settings call for.
    pub fn ai_default<R: RandomSource>(
        id: usize,
        lane: i64,
        brain: Option<NeuralNetwork>,
        config: &Config,
        rng: &mut R,
    ) -> (car: Self)
        requires
            -CENTER_LIMIT <= lane <= CENTER_LIMIT,
            config.wf(),
            brain matches Some(b) ==> b.wf(),
        ensures
            car.wf(),
            car@.heading.sine() == 0,
            car@.heading.cosine() == ONE,
            car@.brain matches Some(network) && car@ == agent_car(
                id,
                lane,
                config@,
                network,
                car@.heading,
            ),
            match brain {
                Some(b) => car@.brain == Some(b@),
                None => car@.brain matches Some(fresh) && network_wf(fresh) && topology_matches(
                    fresh,
                    neurons_counts_of(config@),
                ),
            },
    {
        let spread: i64 = (PI * ONE) / config.rays_spread();
        let sensor = Sensor::new(config.rays_count() as i32, config.rays_length(), spread);
        let counts = config.neurons_counts();
        Car::with_brain(
            id,
            lane,
            CAR_Y_DEFAULT,
            CAR_WIDHT_DEFAULT,
            CAR_HEIGHT_DEFAULT,
            sensor,
            counts.as_slice(),
            brain,
            rng,
        )
    }

    /// Replaces the network, if there is one, by a child of it: every
    /// weight and bias moved toward a fresh random value by the fraction
    /// `mutation`.
    pub fn mutate<R: RandomSource>(&mut self, mutation: i64, rng: &mut R)
        requires
            old(self).wf(),
            is_ratio(mutation as int),
        ensures
            final(self)@ == (CarModel { brain: final(self)@.brain, ..old(self)@ }),
            final(self).wf(),
            match old(self)@.brain {
                Some(parent) => final(self)@.brain matches Some(child) && is_child_of(
                    child,
                    parent,
                    mutation as int,
                ),
                None => final(self)@.brain is None,
            },
            mutation == 0 ==> final(self)@ == old(self)@,
    {
        let child = match &self.brain {
            Some(brain) => Some(brain.mutate(mutation, rng)),
            None => None,
        };
        self.brain = child;
    }

    /// The agents of a population: `config.cars_count` network-driven
    /// vehicles that differ only in their id and their network. With a
    /// network to start from, the first agent carries it unchanged and
    /// every other carries a child of it, mutated at the configured rate;
    /// without one, every agent carries a new random network.
    pub fn generate_cars_same<R: RandomSource>(
        x: i64,
        brain: Option<NeuralNetwork>,
        config: &Config,
        rng: &mut R,
    ) -> (cars: Vec<Car>)
        requires
            -CENTER_LIMIT <= x <= CENTER_LIMIT,
            config.wf(),
            brain matches Some(b) ==> b.wf(),
        ensures
            cars@.len() == config@.cars_count,
            forall|i: int|
                0 <= i < cars@.len() ==> generated(
                    (#[trigger] cars@[i])@,
                    i,
                    x,
                    match brain {
                        Some(b) => Some(b@),
                        None => None,
                    },
                    config@,
                ),
    {
        let count = config.cars_count();
        let mut cars: Vec<Car> = Vec::new();
        if count == 0 {
            return cars;
        }
        match brain {
            Some(parent) => {
                let first = Car::ai_default(count, x, Some(parent.duplicate()), config, rng);
                cars.push(first);
                let mut n: usize = 0;
                while n < count - 1
                    invariant
                        n <= count - 1,
                        count == config@.cars_count,
                        -CENTER_LIMIT <= x <= CENTER_LIMIT,
                        config.wf(),
                        parent.wf(),
                        cars@.len() == n + 1,
                        forall|i: int|
                            0 <= i < cars@.len() ==> generated(
                                (#[trigger] cars@[i])@,
                                i,
                                x,
                                Some(parent@),
                                config@,
                            ),
                    decreases count - 1 - n,
                {
                    let child = parent.mutate(config.mutation_rate(), rng);
                    let car = Car::ai_default(n, x, Some(child), config, rng);
                    cars.push(car);
                    n += 1;
                }
            },
            None => {
                let mut n: usize = 0;
                while n < count
                    invariant
                        n <= count,
                        count == config@.cars_count,
                        -CENTER_LIMIT <= x <= CENTER_LIMIT,
                        config.wf(),
                        cars@.len() == n,
                        forall|i: int|
                            0 <= i < cars@.len() ==> generated(
                                (#[trigger] cars@[i])@,
                                i,
                                x,
                                None,
                                config@,
                            ),
                    decreases count - n,
                {
                    let car = Car::ai_default(n, x, None, config, rng);
                    cars.push(car);
                    n += 1;
                }
            },
        }
        cars
    }

    /// The id, by which a population knows the vehicle.
    pub fn id(&self) -> (id: usize)
        ensures
            id == self@.id,
    {
        self.id
    }

    /// Where across the road the centre is.
    pub fn x(&self) -> (x: i64)
        ensures
            x == self@.x,
    {
        self.x
    }

    /// Where along the road the centre is; up the road is toward negative `y`.
    pub fn y(&self) -> (y: i64)
        ensures
            y == self@.y,
    {
        self.y
    }

    /// The width of the body.
    pub fn width(&self) -> (width: i64)
        ensures
            width == self@.width,
    {
        self.width
    }

    /// The height of the body, along the heading.
    pub fn height(&self) -> (height: i64)
        ensures
            height == self@.height,
    {
        self.height
    }

    /// The heading in microradians; 0 is straight up the road.
    pub fn angle(&self) -> (angle: i64)
        ensures
            angle == self@.angle,
    {
        self.angle
    }

    /// The speed along the heading, negative in reverse.
    pub fn speed(&self) -> (speed: i64)
        ensures
            speed == self@.speed,
    {
        self.speed
    }

    /// Whether the vehicle has hit a border or another vehicle.
    pub fn damaged(&self) -> (damaged: bool)
        ensures
            damaged == self@.damaged,
    {
        self.damaged
    }

    /// The inputs that drive the next tick.
    pub fn controls(&self) -> (controls: Controls)
        ensures
            controls == self@.controls,
    {
        self.controls
    }

    /// The corners of the outline as last drawn; empty before the first
    /// tick.
    pub fn polygons(&self) -> (corners: &[Point])
        ensures
            corners@ == self@.polygon,
    {
        self.polygons.as_slice()
    }

    /// The network, if the vehicle is driven by one.
    pub fn brain(&self) -> (brain: Option<&NeuralNetwork>)
        ensures
            brain is Some <==> self@.brain is Some,
            brain matches Some(b) ==> Some(b@) == self@.brain,
    {
        self.brain.as_ref()
    }

    /// The sensor, if the vehicle has one.
    pub fn sensor(&self) -> (sensor: Option<&Sensor>)
        ensures
            sensor is Some <==> self@.sensor is Some,
            sensor matches Some(s) ==> Some(s@) == self@.sensor,
    {
        self.sensor.as_ref()
    }

    /// Replaces the network.
    pub fn set_brain(&mut self, brain: Option<NeuralNetwork>)
        requires
            old(self).wf(),
            brain matches Some(b) ==> b.wf(),
        ensures
            final(self)@ == (CarModel {
                brain: match brain {
                    Some(b) => Some(b@),
                    None => None,
                },
                ..old(self)@
            }),
            final(self).wf(),
    {
        self.brain = brain;
    }

    /// Applies throttle, brake, steering, the speed limits and friction.
    fn steer(&mut self)
        requires
            car_body_wf(old(self)@),
        ensures
            final(self)@ == (CarModel {
                speed: next_speed(old(self)@) as i64,
                angle: next_angle(old(self)@) as i64,
                ..old(self)@
            }),
            car_body_wf(final(self)@),
    {
        proof {
            lemma_slowed(limited(accelerated(self.speed as int, self.controls), self.max_speed as int));
        }
        let mut speed: i64 = self.speed;
        if self.controls.up() {
            speed += ACCELERATION;
        }
        if self.controls.down() {
            speed -= ACCELERATION;
        }
        let mut angle: i64 = self.angle;
        if speed != 0 {
            let step: i64 = if speed > 0 {
                ANGLE_TURN
            } else {
                -ANGLE_TURN
            };
            if self.controls.left() {
                angle += step;
            }
            if self.controls.right() {
                angle -= step;
            }
            angle = clamp(angle, -ANGLE_LIMIT, ANGLE_LIMIT);
        }
        if speed > self.max_speed {
            speed = self.max_speed;
        }
        if speed < -(self.max_speed / 2) {
            speed = -(self.max_speed / 2);
        }
        if speed > 0 {
            speed -= FRICTION;
        }
        if speed < 0 {
            speed += FRICTION;
        }
        if -FRICTION < speed && speed < FRICTION {
            speed = 0;
        }
        self.speed = speed;
        self.angle = angle;
    }

    /// Moves the centre by the speed along the given heading.
    fn advance(&mut self, heading: Direction)
        requires
            car_body_wf(old(self)@),
        ensures
            final(self)@ == (CarModel {
                heading,
                x: stepped(old(self)@.x as int, heading.sine(), old(self)@.speed as int) as i64,
                y: stepped(old(self)@.y as int, heading.cosine(), old(self)@.speed as int) as i64,
                ..old(self)@
            }),
            car_body_wf(final(self)@),
    {
        let sin = heading.sin();
        let cos = heading.cos();
        proof {
            lemma_scaled(sin as int, self.speed as int);
            lemma_scaled(cos as int, self.speed as int);
        }
        self.heading = heading;
        self.x = clamp(self.x - scale(sin, self.speed), -CENTER_LIMIT, CENTER_LIMIT);
        self.y = clamp(self.y - scale(cos, self.speed), -CENTER_LIMIT, CENTER_LIMIT);
    }

    /// One tick of kinematics: steering and speed first, then a step along
    /// the heading that the steering leaves.
    fn move_car<T: Trig>(&mut self, trig: &T)
        requires
            old(self).wf(),
        ensures
            final(self)@ == driven(old(self)@, trig),
            final(self)@.heading == heading_of(trig, next_angle(old(self)@) as i64),
            final(self)@.heading.sine() == clamped(
                trig.sine_of(next_angle(old(self)@) as i64) as int,
                -ONE as int,
                ONE as int,
            ),
            final(self)@.heading.cosine() == clamped(
                trig.cosine_of(next_angle(old(self)@) as i64) as int,
                -ONE as int,
                ONE as int,
            ),
            car_body_wf(final(self)@),
    {
        self.steer();
        let heading = Direction::of(trig, self.angle);
        self.advance(heading);
    }

    /// Draws the outline for where the vehicle is: the rectangle of its
    /// size at its place, turned to its heading.
    pub fn create_polygon(&mut self)
        requires
            car_body_wf(old(self)@),
        ensures
            final(self)@ == outlined(old(self)@),
            final(self).wf(),
    {
        let sin = self.heading.sin();
        let cos = self.heading.cos();
        let half_height: i64 = self.height / 2;
        let half_width: i64 = self.width / 2;
        proof {
            lemma_scaled(cos as int, half_width as int);
            lemma_scaled(sin as int, half_width as int);
            lemma_rectangle_in_world(
                self.x as int,
                self.y as int,
                self.width as int,
                self.height as int,
                sin as int,
                cos as int,
            );
        }
        let along_x = scale(sin, half_height);
        let along_y = scale(cos, half_height);
        let across_x = scale(cos, half_width);
        let across_y = scale(sin, half_width);
        let mut corners: Vec<Point> = Vec::new();
        corners.push((self.x - along_x + across_x, self.y - along_y - across_y));
        corners.push((self.x - along_x - across_x, self.y - along_y + across_y));
        corners.push((self.x + along_x - across_x, self.y + along_y + across_y));
        corners.push((self.x + along_x + across_x, self.y + along_y - across_y));
        assert(corners@ =~= rectangle(
            self.x as int,
            self.y as int,
            self.width as int,
            self.height as int,
            sin as int,
            cos as int,
        ));
        self.polygons = corners;
    }

    /// Whether the outline touches a border of the road or the outline of
    /// a vehicle of the traffic. Vehicles farther than `DAMAGE_RANGE` away
    /// along the road are not looked at.
    fn resolve_damage(&self, road: &Road, traffic: &Traffic) -> (hit: bool)
        requires
            self.wf(),
            road.wf(),
            traffic.wf(),
        ensures
            hit == collides(self@.polygon, self@.y as int, road@.borders, traffic@),
    {
        if poly_intersection_with_borders(self.polygons.as_slice(), road.borders()) {
            return true;
        }
        let obstacles = traffic.cars();
        let mut k: usize = 0;
        while k < obstacles.len()
            invariant
                k <= obstacles@.len(),
                self.wf(),
                traffic.wf(),
                obstacles@.len() == traffic@.len(),
                forall|l: int| 0 <= l < traffic@.len() ==> (#[trigger] obstacles@[l])@ == traffic@[l],
                forall|l: int|
                    0 <= l < k ==> !(in_range(
                        self@.y as int,
                        (#[trigger] traffic@[l]).y as int,
                        DAMAGE_RANGE as int,
                    ) && polygons_cross(self@.polygon, traffic@[l].polygon)),
            decreases obstacles@.len() - k,
        {
            let car = &obstacles[k];
            if is_in_range(self.y, car.y(), DAMAGE_RANGE) && poly_intersection_with_poly(
                self.polygons.as_slice(),
                car.polygons(),
            ) {
                return true;
            }
            k += 1;
        }
        false
    }

    /// A tick of an uncontrolled vehicle: kinematics and outline only.
    pub fn update_dummy_car<T: Trig>(&mut self, trig: &T)
        requires
            old(self).wf(),
        ensures
            final(self)@ == outlined(driven(old(self)@, trig)),
            final(self).wf(),
    {
        self.move_car(trig);
        self.create_polygon();
    }

    /// A tick: see [`ticked`]. Once damaged, a vehicle stays damaged and
    /// does not move again.
    pub fn update<T: Trig>(&mut self, road: &Road, traffic: &Traffic, trig: &T)
        requires
            old(self).wf(),
            road.wf(),
            traffic.wf(),
        ensures
            ticked(old(self)@, final(self)@, road@.borders, traffic@, trig),
            final(self).wf(),
            old(self)@.damaged ==> final(self)@.damaged,
            final(self)@.id == old(self)@.id,
    {
        if self.damaged {
            return ;
        }
        self.move_car(trig);
        self.create_polygon();
        self.damaged = self.resolve_damage(road, traffic);
        let slot = self.sensor.take();
        match slot {
            Some(sensor) => {
                let mut sensor = sensor;
                sensor.update(self.x, self.y, self.angle, road.borders(), traffic, trig);
                let brain_slot = self.brain.take();
                match brain_slot {
                    Some(brain) => {
                        let mut brain = brain;
                        let inputs = inputs_of(sensor.readings());
                        let outputs = brain.feed_forward(inputs);
                        self.controls.up = outputs.len() > 0 && outputs[0] == ONE;
                        self.controls.left = outputs.len() > 1 && outputs[1] == ONE;
                        self.controls.right = outputs.len() > 2 && outputs[2] == ONE;
                        self.controls.down = outputs.len() > 3 && outputs[3] == ONE;
                        self.brain = Some(brain);
                    },
                    None => {},
                }
                self.sensor = Some(sensor);
            },
            None => {},
        }
    }
}

/// What the network is fed for the given readings.
fn inputs_of(readings: &[Option<IntersectionPoint>]) -> (inputs: Vec<i64>)
    requires
        forall|i: int| 0 <= i < readings@.len() ==> reading_wf(#[trigger] readings@[i]),
    ensures
        inputs@ == sensor_inputs(readings@),
        all_unit(inputs@),
{
    let mut inputs: Vec<i64> = Vec::new();
    let mut i: usize = 0;
    while i < readings.len()
        invariant
            i <= readings@.len(),
            forall|k: int| 0 <= k < readings@.len() ==> reading_wf(#[trigger] readings@[k]),
            inputs@.len() == i,
            forall|k: int| 0 <= k < i ==> #[trigger] inputs@[k] == sensor_inputs(readings@)[k],
            forall|k: int| 0 <= k < i ==> is_unit(#[trigger] inputs@[k] as int),
        decreases readings@.len() - i,
    {
        let value: i64 = match readings[i] {
            Some(p) => ONE - p.offset,
            None => 0,
        };
        inputs.push(value);
        i += 1;
    }
    inputs
}

} // verus!

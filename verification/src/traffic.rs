//! The uncontrolled vehicles that the agents have to avoid.
use crate::car::{body_fits, car_wf, driven, fresh_car, outlined, Car, CarModel};
use crate::{CAR_HEIGHT_DEFAULT, CAR_WIDHT_DEFAULT};
use crate::controls::traffic_controls;
use crate::env::{RandomSource, Trig};
use crate::fixed::{clamp, clamped, magnitude, magnitude_of, CENTER_LIMIT, ONE};
use crate::road::{lane_center_of, Road};
use vstd::prelude::*;

verus! {

/// Every vehicle is well-formed.
pub open spec fn traffic_wf(cars: Seq<CarModel>) -> bool {
    forall|i: int| 0 <= i < cars.len() ==> car_wf(#[trigger] cars[i])
}

/// How far behind the reference a vehicle may fall before it is removed
/// (500 road units).
pub const CULL_MARGIN: i64 = 500_000_000;

/// How far before the given place a random vehicle is added (500 road
/// units).
pub const RANDOM_CAR_DISTANCE: i64 = 500_000_000;

/// Whether a vehicle is kept when the traffic is cleaned for a reference
/// at `y`: its distance from the start of the road is more than the
/// reference's less the margin.
pub open spec fn stays(car: CarModel, y: int) -> bool {
    magnitude(car.y as int) > magnitude(y) - CULL_MARGIN
}

/// `stays` for a fixed reference, as a predicate on vehicles.
pub open spec fn stays_at(y: int) -> spec_fn(CarModel) -> bool {
    |car: CarModel| stays(car, y)
}

/// What a tick does to the traffic: every vehicle moves, along the sine
/// and cosine that the source gives for its new angle, and has its outline
/// drawn; none is added, removed or reordered.
pub open spec fn traffic_ticked<T: Trig>(
    before: Seq<CarModel>,
    after: Seq<CarModel>,
    trig: &T,
) -> bool {
    &&& after.len() == before.len()
    &&& forall|i: int| 0 <= i < before.len() ==> #[trigger] after[i] == outlined(driven(before[i], trig))
}

/// Cleaning removes every vehicle that is the margin or more behind the
/// reference and keeps every other, in the order they were in.
pub proof fn lemma_clean_removes_and_retains(cars: Seq<CarModel>, y: int)
    ensures
        forall|i: int|
            0 <= i < cars.filter(stays_at(y)).len() ==> stays(#[trigger] cars.filter(stays_at(y))[i], y),
        forall|i: int|
            0 <= i < cars.filter(stays_at(y)).len() ==> cars.contains(
                #[trigger] cars.filter(stays_at(y))[i],
            ),
        forall|i: int|
            0 <= i < cars.len() && stays(#[trigger] cars[i], y) ==> cars.filter(stays_at(y)).contains(
                cars[i],
            ),
        forall|i: int|
            0 <= i < cars.len() && magnitude(cars[i].y as int) <= magnitude(y) - CULL_MARGIN
                ==> !cars.filter(stays_at(y)).contains(#[trigger] cars[i]),
{
    let kept = cars.filter(stays_at(y));
    assert forall|i: int| 0 <= i < kept.len() implies stays(#[trigger] kept[i], y) && cars.contains(
        kept[i],
    ) by {
        cars.lemma_filter_contains_rev(stays_at(y), kept[i]);
    }
}

/// Filtering one more item: it is appended if it passes, else nothing
/// changes.
proof fn lemma_filter_next<A>(s: Seq<A>, keep: spec_fn(A) -> bool, k: int)
    requires
        0 <= k < s.len(),
    ensures
        s.take(k + 1).filter(keep) == if keep(s[k]) {
            s.take(k).filter(keep).push(s[k])
        } else {
            s.take(k).filter(keep)
        },
{
    reveal(Seq::filter);
    assert(s.take(k + 1).drop_last() =~= s.take(k));
}

/// The traffic on the road, in the order it was added.
#[derive(Debug)]
pub struct Traffic {
    cars: Vec<Car>,
}

impl View for Traffic {
    type V = Seq<CarModel>;

    closed spec fn view(&self) -> Seq<CarModel> {
        Seq::new(self.cars@.len(), |i: int| self.cars@[i]@)
    }
}

impl Traffic {
    /// Every vehicle is well-formed.
    pub open spec fn wf(&self) -> bool {
        traffic_wf(self@)
    }

    /// No traffic.
    pub fn new() -> (traffic: Self)
        ensures
            traffic@.len() == 0,
            traffic.wf(),
    {
        Traffic { cars: Vec::new() }
    }

    /// No traffic, with room for `capacity` vehicles.
    pub fn with_capacity(capacity: usize) -> (traffic: Self)
        ensures
            traffic@.len() == 0,
            traffic.wf(),
    {
        Traffic { cars: Vec::with_capacity(capacity) }
    }

    /// Adds a vehicle behind the others.
    pub fn add(&mut self, car: Car)
        requires
            old(self).wf(),
            car.wf(),
        ensures
            final(self)@ == old(self)@.push(car@),
            final(self).wf(),
    {
        self.cars.push(car);
        assert(self@ =~= old(self)@.push(car@));
    }

    /// Adds an uncontrolled vehicle of the default size at `(x, y)`.
    pub fn add_car(&mut self, x: i64, y: i64, max_speed: i64)
        requires
            old(self).wf(),
            body_fits(x, y, CAR_WIDHT_DEFAULT, CAR_HEIGHT_DEFAULT, max_speed),
        ensures
            final(self)@.len() == old(self)@.len() + 1,
            final(self)@.drop_last() == old(self)@,
            final(self)@.last() == fresh_car(
                0,
                x,
                y,
                CAR_WIDHT_DEFAULT,
                CAR_HEIGHT_DEFAULT,
                traffic_controls(),
                max_speed,
                None,
                None,
                final(self)@.last().heading,
            ),
            final(self).wf(),
    {
        let car = Car::no_control(x, y, max_speed);
        self.add(car);
    }

    /// Adds an uncontrolled vehicle of the default size in a lane drawn
    /// from `rng`, `RANDOM_CAR_DISTANCE` before `y`, with a top speed
    /// drawn from `rng` below 3.0.
    pub fn add_random_car<R: RandomSource>(&mut self, y: i64, road: &Road, rng: &mut R)
        requires
            old(self).wf(),
            road.wf(),
        ensures
            final(self)@.len() == old(self)@.len() + 1,
            final(self)@.drop_last() == old(self)@,
            exists|lane: i32, max_speed: i64|
                0 <= lane < road@.lane_count && 0 <= max_speed < 3 * ONE && final(self)@.last()
                    == #[trigger] fresh_car(
                    0,
                    clamped(
                        lane_center_of(road@, lane),
                        -CENTER_LIMIT as int,
                        CENTER_LIMIT as int,
                    ) as i64,
                    clamped(y - RANDOM_CAR_DISTANCE, -CENTER_LIMIT as int, CENTER_LIMIT as int) as i64,
                    CAR_WIDHT_DEFAULT,
                    CAR_HEIGHT_DEFAULT,
                    traffic_controls(),
                    max_speed,
                    None,
                    None,
                    final(self)@.last().heading,
                ),
            final(self).wf(),
    {
        let lane = (rng.next_raw() % (road.lane_count() as u64)) as i32;
        let max_speed = (rng.next_raw() % 3_000_000) as i64;
        let x = clamp(road.lane_center(lane), -CENTER_LIMIT, CENTER_LIMIT);
        let behind: i128 = (y as i128) - (RANDOM_CAR_DISTANCE as i128);
        let place: i64 = if behind < -(CENTER_LIMIT as i128) {
            -CENTER_LIMIT
        } else if behind > CENTER_LIMIT as i128 {
            CENTER_LIMIT
        } else {
            behind as i64
        };
        self.add_car(x, place, max_speed);
        assert(self@.last() == fresh_car(
            0,
            clamped(lane_center_of(road@, lane), -CENTER_LIMIT as int, CENTER_LIMIT as int) as i64,
            clamped(y - RANDOM_CAR_DISTANCE, -CENTER_LIMIT as int, CENTER_LIMIT as int) as i64,
            CAR_WIDHT_DEFAULT,
            CAR_HEIGHT_DEFAULT,
            traffic_controls(),
            max_speed,
            None,
            None,
            self@.last().heading,
        ));
    }

    /// A tick of the traffic: every vehicle moves; none senses, collides
    /// or is damaged.
    pub fn update<T: Trig>(&mut self, trig: &T)
        requires
            old(self).wf(),
        ensures
            traffic_ticked(old(self)@, final(self)@, trig),
            final(self).wf(),
    {
        let ghost before = self@;
        let mut i: usize = 0;
        while i < self.cars.len()
            invariant
                i <= self.cars@.len(),
                self.cars@.len() == before.len(),
                traffic_wf(before),
                forall|k: int|
                    0 <= k < i ==> (#[trigger] self.cars@[k])@ == outlined(driven(before[k], trig))
                        && self.cars@[k].wf(),
                forall|k: int| i <= k < before.len() ==> (#[trigger] self.cars@[k])@ == before[k],
            decreases self.cars@.len() - i,
        {
            let ghost cars_before = self.cars@;
            self.cars[i].update_dummy_car(trig);
            assert(forall|k: int|
                0 <= k < before.len() && k != i ==> #[trigger] self.cars@[k] == cars_before[k]);
            i += 1;
        }
        assert forall|k: int| 0 <= k < self@.len() implies car_wf(#[trigger] self@[k]) by {}
        assert forall|k: int| 0 <= k < before.len() implies #[trigger] self@[k] == outlined(
            driven(before[k], trig),
        ) by {}
    }

    /// Removes every vehicle that has fallen `CULL_MARGIN` or more behind
    /// the reference at `y`; the others stay, in their order.
    pub fn clean(&mut self, y: i64)
        ensures
            final(self)@ == old(self)@.filter(stays_at(y as int)),
            old(self).wf() ==> final(self).wf(),
    {
        let ghost before = self@;
        let ghost keep = stays_at(y as int);
        let threshold: i128 = (magnitude_of(y) as i128) - (CULL_MARGIN as i128);
        let mut i: usize = 0;
        let ghost mut k: int = 0;
        proof {
            reveal(Seq::filter);
        }
        while i < self.cars.len()
            invariant
                0 <= i <= self@.len(),
                0 <= k <= before.len(),
                self@.len() == self.cars@.len(),
                self@.len() - i == before.len() - k,
                keep == stays_at(y as int),
                threshold == magnitude(y as int) - CULL_MARGIN,
                self@.take(i as int) == before.take(k).filter(keep),
                self@.skip(i as int) == before.skip(k),
                traffic_wf(before) ==> traffic_wf(self@),
            decreases self@.len() - i,
        {
            let ghost current = self@;
            let car_y = self.cars[i].y();
            proof {
                assert(current[i as int] == current.skip(i as int)[0]);
                lemma_filter_next(before, keep, k);
                assert(before.skip(k).skip(1) =~= before.skip(k + 1));
            }
            if (magnitude_of(car_y) as i128) > threshold {
                i += 1;
            } else {
                let _ = self.cars.remove(i);
                proof {
                    if traffic_wf(before) {
                        assert forall|m: int| 0 <= m < self@.len() implies car_wf(
                            #[trigger] self@[m],
                        ) by {
                            if m < i {
                                assert(self@[m] == current[m]);
                            } else {
                                assert(self@[m] == current[m + 1]);
                            }
                        }
                    }
                }
            }
            proof {
                k = k + 1;
            }
        }
        assert(before.take(k) =~= before);
    }

    /// The vehicles, in the order they were added.
    pub fn cars(&self) -> (cars: &[Car])
        ensures
            cars@.len() == self@.len(),
            forall|i: int| 0 <= i < cars@.len() ==> (#[trigger] cars@[i])@ == self@[i],
    {
        self.cars.as_slice()
    }

    /// How many vehicles there are.
    pub fn len(&self) -> (count: usize)
        ensures
            count == self@.len(),
    {
        self.cars.len()
    }
}

impl Default for Traffic {
    fn default() -> (traffic: Self)
        ensures
            traffic@.len() == 0,
            traffic.wf(),
    {
        Traffic::new()
    }
}

} // verus!

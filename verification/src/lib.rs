//! A driving simulation core: vehicles on a multi-lane road, steered by small
//! feed-forward networks whose weights evolve by random mutation.
//!
//! All quantities are fixed-point integers (see [`fixed`]); trigonometry and
//! randomness are supplied by the caller through [`env::Trig`] and
//! [`env::RandomSource`].
use crate::ai::agents::{
    agents_wf, focus_index, focused_on, has_id, is_top, models, next_index, population_ticked,
    previous_index, AgentId, Agents, AgentsModel, Focus,
};
use crate::ai::NeuralNetwork;
use crate::car::{fresh_car, generated, Car, CarModel};
use crate::config::{config_wf, ConfigModel};
use crate::controls::traffic_controls;
use crate::env::{RandomSource, Trig};
use crate::fixed::{clamped, magnitude_of, quotient, quotient_of, CENTER_LIMIT, ONE};
use crate::road::{lane_center_of, road_of, Road, RoadModel};
use crate::traffic::{stays_at, traffic_ticked, traffic_wf, Traffic};
use vstd::prelude::*;

pub mod ai;
pub mod car;
pub mod config;
pub mod controls;
pub mod env;
pub mod fixed;
pub mod pairs;
pub mod road;
pub mod sensors;
pub mod traffic;
pub mod utils;

pub use crate::config::Config;

verus! {

/// Where along the road the agents start (100 road units).
pub const CAR_Y_DEFAULT: i64 = 100_000_000;

/// Width of a vehicle of the default size (30 road units).
pub const CAR_WIDHT_DEFAULT: i64 = 30_000_000;

/// Height of a vehicle of the default size (50 road units).
pub const CAR_HEIGHT_DEFAULT: i64 = 50_000_000;

/// Whether the simulation advances on a step.
#[derive(Debug, PartialEq, Eq, Copy, Clone, Structural)]
pub enum SimulationState {
    Running,
    Paused,
    Stopped,
}

/// Where the road's centre line lies (100 road units).
pub const ROAD_X: i64 = 100_000_000;

/// How wide the road is (180 road units).
pub const ROAD_WIDTH: i64 = 180_000_000;

/// How far ahead of the best agent traffic is spawned (500 road units).
pub const SPAWN_DISTANCE: i64 = 500_000_000;

/// How far apart along the road spawned vehicles are placed (250 road
/// units).
pub const IDEAL_DISTANCE: i64 = 250_000_000;

/// Top speed of spawned traffic (2.0).
pub const TRAFFIC_MAX_SPEED: i64 = 2_000_000;

/// What a simulation holds.
pub struct SimulationModel {
    pub state: SimulationState,
    pub traffic: Seq<CarModel>,
    pub agents: AgentsModel,
    pub road: RoadModel,
    pub config: ConfigModel,
}

/// A lane index as the road takes it: the index itself, or the largest
/// the road's index type holds.
pub open spec fn lane_number(lane_index: int) -> i32 {
    if lane_index > i32::MAX {
        i32::MAX
    } else {
        lane_index as i32
    }
}

/// A position along the road kept within the bounds of a vehicle's
/// centre.
pub open spec fn along_road(y: int) -> i64 {
    clamped(y, -CENTER_LIMIT as int, CENTER_LIMIT as int) as i64
}

/// A vehicle of the traffic as it is spawned at `(x, y)`.
pub open spec fn spawned(car: CarModel, x: int, y: int) -> bool {
    car == fresh_car(
        0,
        x as i64,
        along_road(y),
        CAR_WIDHT_DEFAULT,
        CAR_HEIGHT_DEFAULT,
        traffic_controls(),
        TRAFFIC_MAX_SPEED,
        None,
        None,
        car.heading,
    )
}

/// A row of vehicles to spawn: the lane of the first, the lane of the
/// second if there are two, and where along the road the row lies.
pub type SpawnRow = (i32, Option<i32>, i64);

/// Where a vehicle is spawned: `(x, y)`.
pub type Place = (i64, i64);

/// Where the vehicles of a row are spawned: in the middle of their lanes.
pub open spec fn row_places(road: RoadModel, row: SpawnRow) -> Seq<Place> {
    let first = seq![(lane_center_of(road, row.0) as i64, row.2)];
    match row.1 {
        Some(lane) => first.push((lane_center_of(road, lane) as i64, row.2)),
        None => first,
    }
}

/// Where the vehicles of the first `upto` rows are spawned, row by row.
pub open spec fn places(road: RoadModel, rows: Seq<SpawnRow>, upto: int) -> Seq<Place>
    decreases upto,
{
    if upto <= 0 {
        Seq::<Place>::empty()
    } else {
        places(road, rows, upto - 1) + row_places(road, rows[upto - 1])
    }
}

/// The traffic with a new vehicle spawned at each of the places, behind
/// the vehicles that were there.
pub open spec fn extended(before: Seq<CarModel>, after: Seq<CarModel>, at: Seq<Place>) -> bool {
    &&& after.len() == before.len() + at.len()
    &&& forall|i: int| 0 <= i < before.len() ==> #[trigger] after[i] == before[i]
    &&& forall|k: int|
        0 <= k < at.len() ==> spawned(#[trigger] after[before.len() + k], at[k].0 as int, at[k].1 as int)
}

/// Whether a lane index names a lane of the settings.
pub open spec fn names_lane(lane_index: int, lanes_count: usize) -> bool {
    0 <= lane_index < lanes_count
}

/// The rows of a spawn by lane indexes: one vehicle for each index that
/// names a lane of the settings, the one for index `i` lying
/// `SPAWN_DISTANCE` and `i` times `spacing` ahead of the best agent at
/// `best_y`. An index that names no lane is passed over, and leaves a gap
/// where the spacing is not zero.
pub open spec fn lane_rows(
    best_y: int,
    lanes_count: usize,
    lane_indexes: Seq<u32>,
    spacing: int,
    upto: int,
) -> Seq<SpawnRow>
    decreases upto,
{
    if upto <= 0 {
        Seq::<SpawnRow>::empty()
    } else {
        let rows = lane_rows(best_y, lanes_count, lane_indexes, spacing, upto - 1);
        let lane = lane_indexes[upto - 1];
        if names_lane(lane as int, lanes_count) {
            rows.push((lane as i32, None, along_road(best_y - SPAWN_DISTANCE - (upto - 1) * spacing)))
        } else {
            rows
        }
    }
}

/// The lanes of the rows of the basic traffic, nearest row first.
pub open spec fn basic_lanes() -> Seq<(i32, Option<i32>)> {
    seq![
        (0i32, Some(2i32)),
        (0i32, Some(2i32)),
        (1i32, None),
        (0i32, Some(2i32)),
        (0i32, Some(1i32)),
        (0i32, Some(2i32)),
        (1i32, Some(2i32)),
    ]
}

/// The rows of the basic traffic: row `i` lies `i + 1` times
/// `IDEAL_DISTANCE` ahead of the best agent at `best_y`, the distance
/// stretched by `distance_ratio`.
pub open spec fn basic_rows(best_y: int, distance_ratio: int) -> Seq<SpawnRow> {
    Seq::new(
        basic_lanes().len(),
        |i: int|
            (
                basic_lanes()[i].0,
                basic_lanes()[i].1,
                along_road(best_y + quotient((i + 1) * (-IDEAL_DISTANCE) * distance_ratio, ONE as int)),
            ),
    )
}

/// The lanes of the sixteen groups of the training traffic, nearest group
/// first: the vehicles close the outer lanes, then the middle, and so on,
/// so that an agent has to change lanes again and again.
pub open spec fn training_lanes() -> Seq<(i32, Option<i32>)> {
    seq![
        (0i32, Some(2i32)),
        (0i32, Some(2i32)),
        (1i32, None),
        (1i32, None),
        (0i32, Some(2i32)),
        (0i32, Some(2i32)),
        (0i32, Some(1i32)),
        (0i32, Some(1i32)),
        (1i32, None),
        (1i32, None),
        (0i32, Some(2i32)),
        (0i32, Some(2i32)),
        (1i32, Some(2i32)),
        (1i32, Some(2i32)),
        (0i32, Some(1i32)),
        (0i32, Some(1i32)),
    ]
}

/// How far ahead of the best agent the training traffic begins (150 road
/// units).
pub const TRAINING_START: i64 = 150_000_000;

/// How far apart the rows of a group lie: a vehicle's height and 10 road
/// units.
pub const TRAINING_STEP: i64 = 60_000_000;

/// The gap before a group that changes lanes (250 road units).
pub const TRAINING_GAP: i64 = 250_000_000;

/// The gap before a group that repeats the lanes of the one before (a
/// third of `TRAINING_GAP`).
pub const TRAINING_SHORT_GAP: i64 = 83_333_333;

/// How many rows a group of the training traffic has.
pub const TRAINING_GROUP: usize = 3;

/// How far from the start of the road row `r` of group `g` of the
/// training traffic lies, for a best agent `start` from it: past the
/// start gap, past the gaps before the groups up to `g` (none before the
/// first, then a short and a long one in turn), one step per row.
pub open spec fn training_depth(start: int, g: int, r: int) -> int {
    start + TRAINING_START + ((g + 1) / 2) * TRAINING_SHORT_GAP + (g / 2) * TRAINING_GAP + (3 * g + r
        + 1) * TRAINING_STEP
}

/// The rows of the training traffic for a best agent at `best_y`: three
/// rows for each group of `training_lanes`, up the road.
pub open spec fn training_rows(best_y: int) -> Seq<SpawnRow> {
    Seq::new(
        training_lanes().len() * 3,
        |i: int|
            (
                training_lanes()[i / 3].0,
                training_lanes()[i / 3].1,
                along_road(-training_depth(crate::fixed::magnitude(best_y), i / 3, i % 3)),
            ),
    )
}

/// What a step does to a running simulation, in this order: the traffic
/// that has fallen behind the best agent is removed, the traffic that is
/// left has its tick, and then the agents have theirs, against the
/// traffic as it now is. The road, the settings and the state stay.
pub open spec fn stepped<T: Trig>(
    before: SimulationModel,
    after: SimulationModel,
    trig: &T,
) -> bool {
    let cleaned = if before.agents.agents.len() > 0 {
        before.traffic.filter(
            stays_at(before.agents.agents[before.agents.best_agent_index as int].y as int),
        )
    } else {
        before.traffic
    };
    &&& after.state == before.state
    &&& after.road == before.road
    &&& after.config == before.config
    &&& traffic_ticked(cleaned, after.traffic, trig)
    &&& population_ticked(
        before.agents,
        after.agents,
        before.road.borders,
        after.traffic,
        trig,
    )
}

/// The state after `run`: running, whatever it was.
pub open spec fn after_run(state: SimulationState) -> SimulationState {
    SimulationState::Running
}

/// The state after `pause`: paused, except that a stopped simulation
/// stays stopped.
pub open spec fn after_pause(state: SimulationState) -> SimulationState {
    match state {
        SimulationState::Stopped => SimulationState::Stopped,
        _ => SimulationState::Paused,
    }
}

/// The state after `stop`: stopped, whatever it was.
pub open spec fn after_stop(state: SimulationState) -> SimulationState {
    SimulationState::Stopped
}

/// Agents, traffic and road of one run.
#[derive(Debug)]
pub struct Simulation {
    state: SimulationState,
    traffic: Traffic,
    agents: Agents,
    road: Road,
    config: Config,
}

impl View for Simulation {
    type V = SimulationModel;

    closed spec fn view(&self) -> SimulationModel {
        SimulationModel {
            state: self.state,
            traffic: self.traffic@,
            agents: self.agents@,
            road: self.road@,
            config: self.config@,
        }
    }
}

impl Simulation {
    /// Every part of the simulation is well-formed.
    pub open spec fn wf(&self) -> bool {
        &&& traffic_wf(self@.traffic)
        &&& agents_wf(self@.agents)
        &&& self@.road.lane_count >= 1
        &&& self@.road == road_of(ROAD_X, ROAD_WIDTH, self@.road.lane_count)
        &&& config_wf(self@.config)
    }

    fn new(road: Road, agents: Agents, traffic: Traffic, config: Config) -> (simulation: Self)
        ensures
            simulation@ == (SimulationModel {
                state: SimulationState::Stopped,
                traffic: traffic@,
                agents: agents@,
                road: road@,
                config: config@,
            }),
    {
        Simulation { state: SimulationState::Stopped, traffic, agents, road, config }
    }

    /// A stopped simulation for the given settings: the road, no traffic,
    /// and a population generated in the configured lane from `brain`, the
    /// network saved from an earlier run, if there is one.
    pub fn init<R: RandomSource>(config: &Config, brain: Option<NeuralNetwork>, rng: &mut R) -> (simulation: Self)
        requires
            config.wf(),
            brain matches Some(b) ==> b.wf(),
        ensures
            simulation.wf(),
            simulation@.state == SimulationState::Stopped,
            simulation@.traffic.len() == 0,
            simulation@.config == config@,
            simulation@.road == road_of(ROAD_X, ROAD_WIDTH, config@.lanes_count as i32),
            simulation@.agents.best_agent_index == 0,
            simulation@.agents.focus == Focus::BestAgent,
            simulation@.agents.scores.len() == 0,
            simulation@.agents.agents.len() == config@.cars_count,
            forall|i: int|
                0 <= i < simulation@.agents.agents.len() ==> generated(
                    #[trigger] simulation@.agents.agents[i],
                    i,
                    lane_center_of(simulation@.road, lane_number(config@.lane_index as int)) as i64,
                    match brain {
                        Some(b) => Some(b@),
                        None => None,
                    },
                    config@,
                ),
    {
        let road = Road::new(ROAD_X, ROAD_WIDTH, config.lanes_count() as i32);
        let lane: i32 = if config.lane_index() > 0x7fff_ffff {
            0x7fff_ffff
        } else {
            config.lane_index() as i32
        };
        let x = road.lane_center(lane);
        let cars = Car::generate_cars_same(x, brain, config, rng);
        let agents = Agents::new(cars);
        Simulation::new(road, agents, Traffic::new(), config.duplicate())
    }

    /// Starts or resumes the simulation.
    pub fn run(&mut self)
        ensures
            final(self)@ == (SimulationModel {
                state: after_run(old(self)@.state),
                ..old(self)@
            }),
    {
        self.state = SimulationState::Running;
    }

    /// Pauses the simulation: steps change nothing until it is resumed. A
    /// stopped simulation stays stopped.
    pub fn pause(&mut self)
        ensures
            final(self)@ == (SimulationModel {
                state: after_pause(old(self)@.state),
                ..old(self)@
            }),
    {
        match self.state {
            SimulationState::Stopped => {},
            _ => {
                self.state = SimulationState::Paused;
            },
        }
    }

    /// Stops the simulation.
    pub fn stop(&mut self)
        ensures
            final(self)@ == (SimulationModel {
                state: after_stop(old(self)@.state),
                ..old(self)@
            }),
    {
        self.state = SimulationState::Stopped;
    }

    /// Gives the simulation up.
    pub fn destroy(self) {
    }

    /// Whether the simulation runs, is paused or is stopped.
    pub fn state(&self) -> (state: SimulationState)
        ensures
            state == self@.state,
    {
        self.state
    }

    /// Moves the focus to the next agent.
    pub fn next_agent(&mut self)
        requires
            old(self).wf(),
        ensures
            final(self)@ == (SimulationModel { agents: final(self)@.agents, ..old(self)@ }),
            old(self)@.agents.agents.len() == 0 ==> final(self)@ == old(self)@,
            old(self)@.agents.agents.len() > 0 ==> final(self)@.agents == focused_on(
                old(self)@.agents,
                next_index(focus_index(old(self)@.agents), old(self)@.agents.agents.len() as int),
            ),
            final(self).wf(),
    {
        self.agents.focus_next();
    }

    /// Moves the focus to the previous agent.
    pub fn previous_agent(&mut self)
        requires
            old(self).wf(),
        ensures
            final(self)@ == (SimulationModel { agents: final(self)@.agents, ..old(self)@ }),
            old(self)@.agents.agents.len() == 0 ==> final(self)@ == old(self)@,
            old(self)@.agents.agents.len() > 0 ==> final(self)@.agents == focused_on(
                old(self)@.agents,
                previous_index(focus_index(old(self)@.agents), old(self)@.agents.agents.len() as int),
            ),
            final(self).wf(),
    {
        self.agents.focus_previous();
    }

    /// Pins the focus to the agent with the id, if there is one. Says
    /// whether there is; if not, nothing changes.
    pub fn focus_agent(&mut self, agent_id: AgentId) -> (found: bool)
        requires
            old(self).wf(),
        ensures
            found == has_id(old(self)@.agents.agents, agent_id),
            found ==> final(self)@ == (SimulationModel {
                agents: AgentsModel { focus: Focus::SpecificAgent(agent_id), ..old(self)@.agents },
                ..old(self)@
            }),
            !found ==> final(self)@ == old(self)@,
            final(self).wf(),
    {
        self.agents.focus_agent(agent_id)
    }

    /// Lets the focus follow the best agent again.
    pub fn reset_focus(&mut self)
        requires
            old(self).wf(),
        ensures
            final(self)@ == (SimulationModel {
                agents: AgentsModel { focus: Focus::BestAgent, ..old(self)@.agents },
                ..old(self)@
            }),
            final(self).wf(),
    {
        self.agents.focus_best_agent();
    }

    /// Replaces the settings. They are used when the next simulation is
    /// built; the road and the agents of this one stay as they are.
    pub fn update_config(&mut self, config: &Config)
        requires
            old(self).wf(),
            config.wf(),
        ensures
            final(self)@ == (SimulationModel { config: config@, ..old(self)@ }),
            final(self).wf(),
    {
        self.config = config.duplicate();
    }

    /// The ids of the ten agents with the highest scores, the best first.
    pub fn top_10_agents(&self) -> (ids: Vec<AgentId>)
        requires
            self.wf(),
        ensures
            exists|top: Seq<(AgentId, i64)>|
                #![trigger is_top(top, self@.agents.scores, 10)]
                is_top(top, self@.agents.scores, 10) && ids@.len() == top.len() && forall|i: int|
                    0 <= i < top.len() ==> #[trigger] ids@[i] == top[i].0,
    {
        let top = self.agents.n_best(10);
        let mut ids: Vec<AgentId> = Vec::new();
        let mut i: usize = 0;
        while i < top.len()
            invariant
                i <= top@.len(),
                ids@.len() == i,
                forall|k: int| 0 <= k < i ==> #[trigger] ids@[k] == top@[k].0,
            decreases top@.len() - i,
        {
            ids.push(top[i].0);
            i += 1;
        }
        ids
    }

    /// Where along the road the best agent is; 0 without agents.
    pub fn focus_agent_y(&self) -> (y: i64)
        requires
            self.wf(),
        ensures
            y == if self@.agents.agents.len() > 0 {
                self@.agents.agents[self@.agents.best_agent_index as int].y
            } else {
                0
            },
    {
        match self.agents.best_agent() {
            Some(car) => car.y(),
            None => 0,
        }
    }

    /// One step. A simulation that is not running stays as it is; for one
    /// that runs see [`stepped`].
    pub fn step<T: Trig>(&mut self, trig: &T)
        requires
            old(self).wf(),
        ensures
            old(self)@.state != SimulationState::Running ==> final(self)@ == old(self)@,
            old(self)@.state == SimulationState::Running ==> stepped(old(self)@, final(self)@, trig),
            final(self).wf(),
    {
        self.update(trig);
    }

    fn update<T: Trig>(&mut self, trig: &T)
        requires
            old(self).wf(),
        ensures
            old(self)@.state != SimulationState::Running ==> final(self)@ == old(self)@,
            old(self)@.state == SimulationState::Running ==> stepped(old(self)@, final(self)@, trig),
            final(self).wf(),
    {
        match self.state {
            SimulationState::Running => {},
            _ => {
                return ;
            },
        }
        self.agents.clean(&mut self.traffic);
        self.traffic.update(trig);
        self.agents.update(&self.road, &self.traffic, trig);
    }

    /// Spawns a vehicle at each place of the rows.
    fn add_rows(&mut self, rows: &Vec<SpawnRow>)
        requires
            old(self).wf(),
            forall|i: int| 0 <= i < rows@.len() ==> -CENTER_LIMIT <= (#[trigger] rows@[i]).2 <= CENTER_LIMIT,
        ensures
            final(self)@ == (SimulationModel { traffic: final(self)@.traffic, ..old(self)@ }),
            extended(
                old(self)@.traffic,
                final(self)@.traffic,
                places(old(self)@.road, rows@, rows@.len() as int),
            ),
            final(self).wf(),
    {
        let ghost before = self@;
        let ghost road = self@.road;
        let mut i: usize = 0;
        while i < rows.len()
            invariant
                i <= rows@.len(),
                self.wf(),
                road == before.road,
                self@ == (SimulationModel { traffic: self@.traffic, ..before }),
                forall|k: int| 0 <= k < rows@.len() ==> -CENTER_LIMIT <= (#[trigger] rows@[k]).2 <= CENTER_LIMIT,
                extended(before.traffic, self@.traffic, places(road, rows@, i as int)),
            decreases rows@.len() - i,
        {
            let (first, second, y) = rows[i];
            let ghost done = places(road, rows@, i as int);
            let x = self.road.lane_center(first);
            self.traffic.add_car(x, y, TRAFFIC_MAX_SPEED);
            match second {
                Some(lane) => {
                    let x = self.road.lane_center(lane);
                    self.traffic.add_car(x, y, TRAFFIC_MAX_SPEED);
                },
                None => {},
            }
            proof {
                let grown = places(road, rows@, i + 1);
                let after = self@.traffic;
                assert forall|k: int| 0 <= k < before.traffic.len() implies #[trigger] after[k]
                    == before.traffic[k] by {
                    if second is Some {
                        assert(after[k] == after.drop_last().drop_last()[k]);
                    } else {
                        assert(after[k] == after.drop_last()[k]);
                    }
                }
                assert forall|k: int| 0 <= k < grown.len() implies spawned(
                    #[trigger] after[before.traffic.len() + k],
                    grown[k].0 as int,
                    grown[k].1 as int,
                ) by {
                    if k < done.len() {
                        if second is Some {
                            assert(after[before.traffic.len() + k] == after.drop_last().drop_last()[
                                before.traffic.len() + k
                            ]);
                        } else {
                            assert(after[before.traffic.len() + k] == after.drop_last()[
                                before.traffic.len() + k
                            ]);
                        }
                    }
                }
            }
            i += 1;
        }
    }

    /// Where along the road the best agent is, if there is one.
    fn best_y(&self) -> (y: Option<i64>)
        requires
            self.wf(),
        ensures
            match y {
                Some(y) => self@.agents.agents.len() > 0 && y == self@.agents.agents[self@.agents.best_agent_index as int].y,
                None => self@.agents.agents.len() == 0,
            },
    {
        match self.agents.best_agent() {
            Some(car) => Some(car.y()),
            None => None,
        }
    }

    /// Spawns a vehicle for each lane index that names a lane of the
    /// settings (see [`lane_rows`]). Says how many it spawned.
    fn spawn_lanes(&mut self, best_y: i64, lane_indexes: &[u32], spacing: i64) -> (count: usize)
        requires
            old(self).wf(),
            -CENTER_LIMIT <= best_y <= CENTER_LIMIT,
            0 <= spacing <= IDEAL_DISTANCE,
        ensures
            final(self)@ == (SimulationModel { traffic: final(self)@.traffic, ..old(self)@ }),
            final(self).wf(),
            ({
                let rows = lane_rows(
                    best_y as int,
                    old(self)@.config.lanes_count,
                    lane_indexes@,
                    spacing as int,
                    lane_indexes@.len() as int,
                );
                &&& count == rows.len()
                &&& extended(
                    old(self)@.traffic,
                    final(self)@.traffic,
                    places(old(self)@.road, rows, rows.len() as int),
                )
            }),
    {
        let lanes_count = self.config.lanes_count();
        let mut rows: Vec<SpawnRow> = Vec::new();
        let mut i: usize = 0;
        while i < lane_indexes.len()
            invariant
                i <= lane_indexes@.len(),
                -CENTER_LIMIT <= best_y <= CENTER_LIMIT,
                0 <= spacing <= IDEAL_DISTANCE,
                lanes_count <= crate::config::COUNT_LIMIT,
                rows@ == lane_rows(best_y as int, lanes_count, lane_indexes@, spacing as int, i as int),
                forall|k: int| 0 <= k < rows@.len() ==> -CENTER_LIMIT <= (#[trigger] rows@[k]).2 <= CENTER_LIMIT,
            decreases lane_indexes@.len() - i,
        {
            let lane = lane_indexes[i];
            if (lane as usize) < lanes_count {
                assert(0 <= (i as int) * (spacing as int) <= 0xffff_ffff_ffff_ffff * 250_000_000)
                    by (nonlinear_arith)
                    requires
                        0 <= i <= 0xffff_ffff_ffff_ffff,
                        0 <= spacing <= 250_000_000,
                ;
                let y: i128 = (best_y as i128) - (SPAWN_DISTANCE as i128) - (i as i128) * (
                spacing as i128);
                rows.push((lane as i32, None, limit_to_road(y)));
            }
            i += 1;
        }
        self.add_rows(&rows);
        rows.len()
    }

    /// Spawns traffic one behind the other: a vehicle for each lane index
    /// that names a lane of the settings, the first `SPAWN_DISTANCE`
    /// ahead of the best agent and each `IDEAL_DISTANCE` farther than the
    /// one for the index before. An index that names no lane is passed
    /// over and leaves a gap. Without agents nothing is spawned. Says how
    /// many vehicles it spawned.
    pub fn spawn_cars_vertically(&mut self, lane_indexes: &[u32]) -> (count: usize)
        requires
            old(self).wf(),
        ensures
            final(self)@ == (SimulationModel { traffic: final(self)@.traffic, ..old(self)@ }),
            final(self).wf(),
            old(self)@.agents.agents.len() == 0 ==> count == 0 && final(self)@ == old(self)@,
            old(self)@.agents.agents.len() > 0 ==> {
                let rows = lane_rows(
                    old(self)@.agents.agents[old(self)@.agents.best_agent_index as int].y as int,
                    old(self)@.config.lanes_count,
                    lane_indexes@,
                    IDEAL_DISTANCE as int,
                    lane_indexes@.len() as int,
                );
                &&& count == rows.len()
                &&& extended(
                    old(self)@.traffic,
                    final(self)@.traffic,
                    places(old(self)@.road, rows, rows.len() as int),
                )
            },
    {
        match self.best_y() {
            Some(best_y) => self.spawn_lanes(best_y, lane_indexes, IDEAL_DISTANCE),
            None => 0,
        }
    }

    /// Spawns traffic side by side: a vehicle for each lane index that
    /// names a lane of the settings, all `SPAWN_DISTANCE` ahead of the
    /// best agent. An index that names no lane is passed over. With more
    /// indexes than the settings have lanes, or without agents, nothing
    /// is spawned. Says how many vehicles it spawned.
    pub fn spawn_cars_horizontally(&mut self, lane_indexes: &[u32]) -> (count: usize)
        requires
            old(self).wf(),
        ensures
            final(self)@ == (SimulationModel { traffic: final(self)@.traffic, ..old(self)@ }),
            final(self).wf(),
            old(self)@.agents.agents.len() == 0 || lane_indexes@.len() > old(self)@.config.lanes_count
                ==> count == 0 && final(self)@ == old(self)@,
            old(self)@.agents.agents.len() > 0 && lane_indexes@.len() <= old(self)@.config.lanes_count
                ==> {
                let rows = lane_rows(
                    old(self)@.agents.agents[old(self)@.agents.best_agent_index as int].y as int,
                    old(self)@.config.lanes_count,
                    lane_indexes@,
                    0,
                    lane_indexes@.len() as int,
                );
                &&& count == rows.len()
                &&& extended(
                    old(self)@.traffic,
                    final(self)@.traffic,
                    places(old(self)@.road, rows, rows.len() as int),
                )
            },
    {
        if lane_indexes.len() > self.config.lanes_count() {
            return 0;
        }
        match self.best_y() {
            Some(best_y) => self.spawn_lanes(best_y, lane_indexes, 0),
            None => 0,
        }
    }

    /// Spawns one vehicle in the given lane, `SPAWN_DISTANCE` ahead of
    /// the best agent. For an index that names no lane of the settings,
    /// and without agents, nothing is spawned. Says whether it spawned.
    pub fn spawn_car(&mut self, lane_index: i32) -> (done: bool)
        requires
            old(self).wf(),
        ensures
            final(self)@ == (SimulationModel { traffic: final(self)@.traffic, ..old(self)@ }),
            final(self).wf(),
            done == (old(self)@.agents.agents.len() > 0 && names_lane(
                lane_index as int,
                old(self)@.config.lanes_count,
            )),
            !done ==> final(self)@ == old(self)@,
            done ==> extended(
                old(self)@.traffic,
                final(self)@.traffic,
                seq![
                    (
                        lane_center_of(old(self)@.road, lane_index) as i64,
                        along_road(
                            old(self)@.agents.agents[old(self)@.agents.best_agent_index as int].y
                                - SPAWN_DISTANCE,
                        ),
                    ),
                ],
            ),
    {
        if lane_index < 0 || (lane_index as usize) >= self.config.lanes_count() {
            return false;
        }
        let best_y = match self.best_y() {
            Some(y) => y,
            None => {
                return false;
            },
        };
        let y = limit_to_road((best_y as i128) - (SPAWN_DISTANCE as i128));
        let mut rows: Vec<SpawnRow> = Vec::new();
        rows.push((lane_index, None, y));
        proof {
            let road = self@.road;
            assert(places(road, rows@, 0) =~= Seq::<Place>::empty());
        }
        self.add_rows(&rows);
        true
    }

    /// Spawns one vehicle in a lane drawn from `rng`, `SPAWN_DISTANCE`
    /// ahead of the best agent. Of one more choices than the settings
    /// have lanes, the last two mean the last lane. Without agents
    /// nothing is spawned. Says whether it spawned.
    pub fn spawn_random<R: RandomSource>(&mut self, rng: &mut R) -> (done: bool)
        requires
            old(self).wf(),
        ensures
            final(self)@ == (SimulationModel { traffic: final(self)@.traffic, ..old(self)@ }),
            final(self).wf(),
            done == (old(self)@.agents.agents.len() > 0),
            !done ==> final(self)@ == old(self)@,
            done ==> exists|lane: i32|
                names_lane(lane as int, old(self)@.config.lanes_count) && extended(
                    old(self)@.traffic,
                    final(self)@.traffic,
                    seq![
                        (
                            #[trigger] lane_center_of(old(self)@.road, lane) as i64,
                            along_road(
                                old(self)@.agents.agents[old(self)@.agents.best_agent_index as int].y
                                    - SPAWN_DISTANCE,
                            ),
                        ),
                    ],
                ),
    {
        if self.agents.agents().len() == 0 {
            return false;
        }
        let lanes: u64 = self.config.lanes_count() as u64;
        let choice: u64 = rng.next_raw() % (lanes + 1);
        let lane: i32 = if choice == lanes {
            (lanes - 1) as i32
        } else {
            choice as i32
        };
        self.spawn_car(lane)
    }

    /// Spawns the basic traffic ahead of the best agent: seven rows of
    /// one or two vehicles that leave one lane free each, row `i` lying
    /// `i + 1` times `IDEAL_DISTANCE` ahead, the distance stretched by
    /// `distance_ratio`. Without agents nothing is spawned. Says whether
    /// it spawned.
    pub fn add_basic_traffic(&mut self, distance_ratio: i64) -> (done: bool)
        requires
            old(self).wf(),
        ensures
            final(self)@ == (SimulationModel { traffic: final(self)@.traffic, ..old(self)@ }),
            final(self).wf(),
            done == (old(self)@.agents.agents.len() > 0),
            !done ==> final(self)@ == old(self)@,
            done ==> {
                let rows = basic_rows(
                    old(self)@.agents.agents[old(self)@.agents.best_agent_index as int].y as int,
                    distance_ratio as int,
                );
                extended(
                    old(self)@.traffic,
                    final(self)@.traffic,
                    places(old(self)@.road, rows, rows.len() as int),
                )
            },
    {
        let best_y = match self.best_y() {
            Some(y) => y,
            None => {
                return false;
            },
        };
        let lanes = basic_pattern();
        let mut rows: Vec<SpawnRow> = Vec::new();
        let mut i: usize = 0;
        while i < lanes.len()
            invariant
                i <= lanes@.len(),
                lanes@ == basic_lanes(),
                -CENTER_LIMIT <= best_y <= CENTER_LIMIT,
                rows@.len() == i,
                forall|k: int|
                    0 <= k < i ==> #[trigger] rows@[k] == basic_rows(
                        best_y as int,
                        distance_ratio as int,
                    )[k],
                forall|k: int| 0 <= k < rows@.len() ==> -CENTER_LIMIT <= (#[trigger] rows@[k]).2 <= CENTER_LIMIT,
            decreases lanes@.len() - i,
        {
            let (first, second) = lanes[i];
            let step: i128 = ((i as i128) + 1) * (-(IDEAL_DISTANCE as i128));
            assert(step == (i + 1) * (-IDEAL_DISTANCE));
            assert(-7 * 250_000_000 * 0x8000_0000_0000_0000 <= (step as int) * (distance_ratio as int)
                <= 7 * 250_000_000 * 0x8000_0000_0000_0000) by (nonlinear_arith)
                requires
                    -7 * 250_000_000 <= step <= 0,
                    -0x8000_0000_0000_0000 <= distance_ratio < 0x8000_0000_0000_0000,
            ;
            let ahead: i128 = quotient_of(step * (distance_ratio as i128), ONE as i128);
            rows.push((first, second, limit_to_road((best_y as i128) + ahead)));
            i += 1;
        }
        assert(rows@ =~= basic_rows(best_y as int, distance_ratio as int));
        self.add_rows(&rows);
        true
    }

    /// Spawns the training traffic ahead of the best agent: sixteen
    /// groups of three rows (see [`training_rows`]). Without agents
    /// nothing is spawned. Says whether it spawned.
    pub fn training_traffic(&mut self) -> (done: bool)
        requires
            old(self).wf(),
        ensures
            final(self)@ == (SimulationModel { traffic: final(self)@.traffic, ..old(self)@ }),
            final(self).wf(),
            done == (old(self)@.agents.agents.len() > 0),
            !done ==> final(self)@ == old(self)@,
            done ==> {
                let rows = training_rows(
                    old(self)@.agents.agents[old(self)@.agents.best_agent_index as int].y as int,
                );
                extended(
                    old(self)@.traffic,
                    final(self)@.traffic,
                    places(old(self)@.road, rows, rows.len() as int),
                )
            },
    {
        let best_y = match self.best_y() {
            Some(y) => y,
            None => {
                return false;
            },
        };
        let start: i128 = magnitude_of(best_y) as i128;
        let lanes = training_pattern();
        let mut rows: Vec<SpawnRow> = Vec::new();
        let mut depth: i128 = start + (TRAINING_START as i128);
        let mut g: usize = 0;
        while g < lanes.len()
            invariant
                g <= lanes@.len(),
                lanes@ == training_lanes(),
                0 <= start <= CENTER_LIMIT,
                start == crate::fixed::magnitude(best_y as int),
                rows@.len() == 3 * g,
                g < lanes@.len() ==> depth == training_depth(start as int, g as int, 0) - TRAINING_STEP - if g
                    == 0 {
                    0int
                } else if g % 2 == 1 {
                    TRAINING_SHORT_GAP as int
                } else {
                    TRAINING_GAP as int
                },
                forall|k: int| 0 <= k < rows@.len() ==> #[trigger] rows@[k] == training_rows(best_y as int)[k],
                forall|k: int| 0 <= k < rows@.len() ==> -CENTER_LIMIT <= (#[trigger] rows@[k]).2 <= CENTER_LIMIT,
            decreases lanes@.len() - g,
        {
            let (first, second) = lanes[g];
            if g > 0 {
                depth = depth + if g % 2 == 1 {
                    TRAINING_SHORT_GAP as i128
                } else {
                    TRAINING_GAP as i128
                };
            }
            let mut r: usize = 0;
            while r < TRAINING_GROUP
                invariant
                    r <= TRAINING_GROUP,
                    g < lanes@.len(),
                    lanes@ == training_lanes(),
                    (first, second) == lanes@[g as int],
                    0 <= start <= CENTER_LIMIT,
                    start == crate::fixed::magnitude(best_y as int),
                    rows@.len() == 3 * g + r,
                    depth == training_depth(start as int, g as int, r as int) - TRAINING_STEP,
                    forall|k: int|
                        0 <= k < rows@.len() ==> #[trigger] rows@[k] == training_rows(best_y as int)[k],
                    forall|k: int|
                        0 <= k < rows@.len() ==> -CENTER_LIMIT <= (#[trigger] rows@[k]).2 <= CENTER_LIMIT,
                decreases TRAINING_GROUP - r,
            {
                depth = depth + (TRAINING_STEP as i128);
                rows.push((first, second, limit_to_road(-depth)));
                r += 1;
            }
            g += 1;
        }
        assert(rows@ =~= training_rows(best_y as int));
        self.add_rows(&rows);
        true
    }

    /// The agents.
    pub fn agents(&self) -> (agents: &Agents)
        ensures
            agents@ == self@.agents,
    {
        &self.agents
    }

    /// The traffic.
    pub fn traffic(&self) -> (traffic: &Traffic)
        ensures
            traffic@ == self@.traffic,
    {
        &self.traffic
    }

    /// The road.
    pub fn road(&self) -> (road: &Road)
        ensures
            road@ == self@.road,
    {
        &self.road
    }

    /// The settings.
    pub fn config(&self) -> (config: &Config)
        ensures
            config@ == self@.config,
    {
        &self.config
    }
}

/// A position along the road kept within the bounds of a vehicle's
/// centre.
fn limit_to_road(y: i128) -> (limited: i64)
    ensures
        limited == along_road(y as int),
        -CENTER_LIMIT <= limited <= CENTER_LIMIT,
{
    if y < -(CENTER_LIMIT as i128) {
        -CENTER_LIMIT
    } else if y > CENTER_LIMIT as i128 {
        CENTER_LIMIT
    } else {
        y as i64
    }
}

/// The lanes of the rows of the basic traffic.
fn basic_pattern() -> (lanes: Vec<(i32, Option<i32>)>)
    ensures
        lanes@ == basic_lanes(),
{
    let mut lanes: Vec<(i32, Option<i32>)> = Vec::new();
    lanes.push((0, Some(2)));
    lanes.push((0, Some(2)));
    lanes.push((1, None));
    lanes.push((0, Some(2)));
    lanes.push((0, Some(1)));
    lanes.push((0, Some(2)));
    lanes.push((1, Some(2)));
    lanes
}

/// The lanes of the groups of the training traffic.
fn training_pattern() -> (lanes: Vec<(i32, Option<i32>)>)
    ensures
        lanes@ == training_lanes(),
{
    let mut lanes: Vec<(i32, Option<i32>)> = Vec::new();
    lanes.push((0, Some(2)));
    lanes.push((0, Some(2)));
    lanes.push((1, None));
    lanes.push((1, None));
    lanes.push((0, Some(2)));
    lanes.push((0, Some(2)));
    lanes.push((0, Some(1)));
    lanes.push((0, Some(1)));
    lanes.push((1, None));
    lanes.push((1, None));
    lanes.push((0, Some(2)));
    lanes.push((0, Some(2)));
    lanes.push((1, Some(2)));
    lanes.push((1, Some(2)));
    lanes.push((0, Some(1)));
    lanes.push((0, Some(1)));
    lanes
}

} // verus!

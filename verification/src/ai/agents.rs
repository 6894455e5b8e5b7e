//! The population of network-driven vehicles: it runs their ticks, keeps
//! their scores, knows the best of them and the one that is watched.
use crate::car::{car_wf, ticked, Car, CarModel};
use crate::env::Trig;
use crate::road::Road;
use crate::traffic::{stays_at, traffic_wf, Traffic};
use vstd::prelude::*;

verus! {

/// The id of an agent.
pub type AgentId = usize;

/// A row of the score table: an agent's id and its score.
pub type ScoreRow = (AgentId, i64);

/// Which agent is watched.
#[derive(Debug, Clone, Copy, PartialEq, Eq, Structural)]
pub enum Focus {
    /// Whichever agent is best at the moment.
    BestAgent,
    /// The agent with this id, whatever its score.
    SpecificAgent(AgentId),
}

impl Default for Focus {
    fn default() -> (focus: Self)
        ensures
            focus == Focus::BestAgent,
    {
        Focus::BestAgent
    }
}

/// What a population holds.
pub struct AgentsModel {
    pub best_agent_index: usize,
    pub agents: Seq<CarModel>,
    pub scores: Seq<ScoreRow>,
    pub focus: Focus,
}

/// The score of an agent: how far up the road it has got. The road runs
/// toward negative `y`.
pub open spec fn score_of(car: CarModel) -> int {
    -(car.y as int)
}

/// Some agent has the id.
pub open spec fn has_id(agents: Seq<CarModel>, id: AgentId) -> bool {
    exists|i: int| 0 <= i < agents.len() && (#[trigger] agents[i]).id == id
}

/// `i` is the place of the first agent with the id.
pub open spec fn is_first_index(agents: Seq<CarModel>, id: AgentId, i: int) -> bool {
    &&& 0 <= i < agents.len()
    &&& agents[i].id == id
    &&& forall|j: int| 0 <= j < i ==> (#[trigger] agents[j]).id != id
}

/// The place of the first agent with the id.
pub open spec fn first_index(agents: Seq<CarModel>, id: AgentId) -> int {
    choose|i: int| is_first_index(agents, id, i)
}

/// No two rows are for the same id.
pub open spec fn rows_distinct(scores: Seq<ScoreRow>) -> bool {
    forall|i: int, j: int|
        0 <= i < scores.len() && 0 <= j < scores.len() && i != j ==> (#[trigger] scores[i]).0 != (
        #[trigger] scores[j]).0
}

/// The table has a row for the id.
pub open spec fn has_row(scores: Seq<ScoreRow>, id: AgentId) -> bool {
    exists|i: int| 0 <= i < scores.len() && (#[trigger] scores[i]).0 == id
}

/// The place of the row for the id.
pub open spec fn row_index(scores: Seq<ScoreRow>, id: AgentId) -> int {
    choose|i: int| 0 <= i < scores.len() && (#[trigger] scores[i]).0 == id
}

/// The table after a score is recorded: the row for the id holds the new
/// score, a new row at the end if there was none; the other rows stay.
pub open spec fn recorded(scores: Seq<ScoreRow>, id: AgentId, score: i64) -> Seq<ScoreRow> {
    if has_row(scores, id) {
        scores.update(row_index(scores, id), (id, score))
    } else {
        scores.push((id, score))
    }
}

/// The table after the scores of the first `upto` agents are recorded, in
/// their order.
pub open spec fn recorded_all(scores: Seq<ScoreRow>, agents: Seq<CarModel>, upto: int) -> Seq<
    ScoreRow,
>
    decreases upto,
{
    if upto <= 0 {
        scores
    } else {
        recorded(
            recorded_all(scores, agents, upto - 1),
            agents[upto - 1].id,
            score_of(agents[upto - 1]) as i64,
        )
    }
}

/// `i` is the place of the best agent: none scores higher, and none
/// before it scores as high.
pub open spec fn is_best(agents: Seq<CarModel>, i: int) -> bool {
    &&& 0 <= i < agents.len()
    &&& forall|j: int| 0 <= j < agents.len() ==> score_of(#[trigger] agents[j]) <= score_of(agents[i])
    &&& forall|j: int| 0 <= j < i ==> score_of(#[trigger] agents[j]) < score_of(agents[i])
}

/// The order of the ranking: the higher score first; of two equal scores
/// the lower id.
pub open spec fn outranks(a: ScoreRow, b: ScoreRow) -> bool {
    a.1 > b.1 || (a.1 == b.1 && a.0 < b.0)
}

/// `top` is the head of the ranking, `count` rows long or as long as the
/// table if that is shorter: rows of the table in ranking order, which
/// outrank every row left out.
pub open spec fn is_top(top: Seq<ScoreRow>, scores: Seq<ScoreRow>, count: int) -> bool {
    &&& top.len() == if count < scores.len() {
        count
    } else {
        scores.len() as int
    }
    &&& forall|i: int, j: int| 0 <= i < j < top.len() ==> outranks(#[trigger] top[i], #[trigger] top[j])
    &&& forall|i: int| 0 <= i < top.len() ==> scores.contains(#[trigger] top[i])
    &&& forall|r: int, i: int|
        0 <= r < scores.len() && 0 <= i < top.len() ==> top.contains(#[trigger] scores[r]) || outranks(
            #[trigger] top[i],
            scores[r],
        )
}

/// The place the focus resolves to: the best agent's, or the first place
/// of the agent it is pinned to.
pub open spec fn focus_index(model: AgentsModel) -> int {
    match model.focus {
        Focus::BestAgent => model.best_agent_index as int,
        Focus::SpecificAgent(id) => first_index(model.agents, id),
    }
}

/// Every row of the table is for the id of an agent.
pub open spec fn rows_are_agents(scores: Seq<ScoreRow>, agents: Seq<CarModel>) -> bool {
    forall|r: int| 0 <= r < scores.len() ==> has_id(agents, (#[trigger] scores[r]).0)
}

/// What every population keeps: well-formed agents, a best place that
/// exists (0 in an empty population), a focus that is pinned to an agent
/// that exists, and a score table with one row per id and no row for an
/// id that is no agent's.
pub open spec fn agents_wf(model: AgentsModel) -> bool {
    &&& traffic_wf(model.agents)
    &&& (model.agents.len() > 0 ==> model.best_agent_index < model.agents.len())
    &&& (model.agents.len() == 0 ==> model.best_agent_index == 0)
    &&& (model.focus matches Focus::SpecificAgent(id) ==> has_id(model.agents, id))
    &&& rows_distinct(model.scores)
    &&& rows_are_agents(model.scores, model.agents)
}

/// Recording a score keeps one row per id.
pub proof fn lemma_recorded_distinct(scores: Seq<ScoreRow>, id: AgentId, score: i64)
    requires
        rows_distinct(scores),
    ensures
        rows_distinct(recorded(scores, id, score)),
        has_row(recorded(scores, id, score), id),
{
    let after = recorded(scores, id, score);
    if has_row(scores, id) {
        let r = row_index(scores, id);
        assert(after[r].0 == id);
    } else {
        assert(after[scores.len() as int].0 == id);
    }
}

/// Recording a score puts the row for the id in the table and leaves the
/// rows for other ids in it.
pub proof fn lemma_recorded_rows(scores: Seq<ScoreRow>, id: AgentId, score: i64)
    requires
        rows_distinct(scores),
    ensures
        recorded(scores, id, score).contains((id, score)),
        forall|r: int|
            0 <= r < scores.len() && (#[trigger] scores[r]).0 != id ==> recorded(
                scores,
                id,
                score,
            ).contains(scores[r]),
{
    let after = recorded(scores, id, score);
    if has_row(scores, id) {
        let at = row_index(scores, id);
        assert(after[at] == (id, score));
        assert forall|r: int| 0 <= r < scores.len() && (#[trigger] scores[r]).0 != id implies after.contains(
            scores[r],
        ) by {
            assert(after[r] == scores[r]);
        }
    } else {
        assert(after[scores.len() as int] == (id, score));
        assert forall|r: int| 0 <= r < scores.len() && (#[trigger] scores[r]).0 != id implies after.contains(
            scores[r],
        ) by {
            assert(after[r] == scores[r]);
        }
    }
}

/// Where ids are the agents' own, the table holds for every agent whose
/// score was recorded the row of its id and its score, and still one row
/// per id.
pub proof fn lemma_scores_are_kept_by_id(scores: Seq<ScoreRow>, agents: Seq<CarModel>, upto: int)
    requires
        rows_distinct(scores),
        crate::car::ids_distinct(agents),
        0 <= upto <= agents.len(),
    ensures
        rows_distinct(recorded_all(scores, agents, upto)),
        forall|i: int|
            0 <= i < upto ==> recorded_all(scores, agents, upto).contains(
                ((#[trigger] agents[i]).id, score_of(agents[i]) as i64),
            ),
    decreases upto,
{
    if upto > 0 {
        lemma_scores_are_kept_by_id(scores, agents, upto - 1);
        let before = recorded_all(scores, agents, upto - 1);
        let last = agents[upto - 1];
        let after = recorded_all(scores, agents, upto);
        lemma_recorded_distinct(before, last.id, score_of(last) as i64);
        lemma_recorded_rows(before, last.id, score_of(last) as i64);
        assert forall|i: int| 0 <= i < upto implies after.contains(
            ((#[trigger] agents[i]).id, score_of(agents[i]) as i64),
        ) by {
            if i < upto - 1 {
                let row = (agents[i].id, score_of(agents[i]) as i64);
                assert(before.contains(row));
                let r = choose|r: int| 0 <= r < before.len() && before[r] == row;
                assert(agents[i].id != last.id);
                assert(before[r].0 != last.id);
            }
        }
    }
}

/// The order of the ranking is strict, and total on rows for different
/// ids.
pub proof fn lemma_outranks_is_an_order(a: ScoreRow, b: ScoreRow, c: ScoreRow)
    ensures
        !outranks(a, a),
        outranks(a, b) ==> !outranks(b, a),
        outranks(a, b) && outranks(b, c) ==> outranks(a, c),
        a.0 != b.0 ==> outranks(a, b) || outranks(b, a),
{
}

/// There is one head of the ranking of a given length: two sequences that
/// both are it are the same.
pub proof fn lemma_ranking_is_unique(
    first: Seq<ScoreRow>,
    second: Seq<ScoreRow>,
    scores: Seq<ScoreRow>,
    count: int,
)
    requires
        rows_distinct(scores),
        is_top(first, scores, count),
        is_top(second, scores, count),
    ensures
        first == second,
{
    assert forall|i: int| 0 <= i < first.len() implies first[i] == second[i] by {
        lemma_same_place(first, second, scores, count, i);
    }
}

/// Two heads of the ranking agree at every place.
proof fn lemma_same_place(
    first: Seq<ScoreRow>,
    second: Seq<ScoreRow>,
    scores: Seq<ScoreRow>,
    count: int,
    i: int,
)
    requires
        rows_distinct(scores),
        is_top(first, scores, count),
        is_top(second, scores, count),
        0 <= i < first.len(),
    ensures
        first[i] == second[i],
    decreases i,
{
    assert forall|j: int| 0 <= j < i implies first[j] == second[j] by {
        lemma_same_place(first, second, scores, count, j);
    }
    let a = first[i];
    let b = second[i];
    assert(scores.contains(a));
    assert(scores.contains(b));
    let ra = choose|r: int| 0 <= r < scores.len() && scores[r] == a;
    let rb = choose|r: int| 0 <= r < scores.len() && scores[r] == b;
    if a != b {
        assert(ra != rb);
        assert(scores[ra].0 != scores[rb].0);
        if outranks(a, b) {
            // `a` is a row, so `second` holds it or outranks it at place i
            assert(second.contains(scores[ra]) || outranks(second[i], scores[ra]));
            assert(second.contains(a));
            let j = choose|j: int| 0 <= j < second.len() && second[j] == a;
            if j < i {
                assert(first[j] == second[j]);
                assert(outranks(first[j], first[i]));
            } else {
                assert(j > i);
                assert(outranks(second[i], second[j]));
            }
        } else {
            assert(outranks(b, a));
            assert(first.contains(scores[rb]) || outranks(first[i], scores[rb]));
            assert(first.contains(b));
            let j = choose|j: int| 0 <= j < first.len() && first[j] == b;
            if j < i {
                assert(first[j] == second[j]);
                assert(outranks(second[j], second[i]));
            } else {
                assert(j > i);
                assert(outranks(first[i], first[j]));
            }
        }
    }
}

/// Records a score in the table.
fn record(scores: &mut Vec<ScoreRow>, id: AgentId, score: i64)
    requires
        rows_distinct(old(scores)@),
    ensures
        final(scores)@ == recorded(old(scores)@, id, score),
        rows_distinct(final(scores)@),
        forall|r: int|
            0 <= r < final(scores)@.len() ==> (#[trigger] final(scores)@[r]).0 == id || (r < old(
                scores,
            )@.len() && final(scores)@[r].0 == old(scores)@[r].0),
{
    let mut i: usize = 0;
    while i < scores.len()
        invariant
            i <= scores@.len(),
            scores@ == old(scores)@,
            rows_distinct(scores@),
            rows_distinct(recorded(scores@, id, score)),
            forall|k: int| 0 <= k < i ==> (#[trigger] scores@[k]).0 != id,
        decreases scores@.len() - i,
    {
        if scores[i].0 == id {
            scores[i] = (id, score);
            return ;
        }
        i += 1;
    }
    scores.push((id, score));
}

/// How many of the first `upto` flags are set.
spec fn count_set(flags: Seq<bool>, upto: int) -> int
    decreases upto,
{
    if upto <= 0 {
        0
    } else {
        count_set(flags, upto - 1) + if flags[upto - 1] {
            1int
        } else {
            0int
        }
    }
}

/// Fewer flags set than there are flags: one is not set.
proof fn lemma_some_flag_clear(flags: Seq<bool>, upto: int)
    requires
        0 <= upto <= flags.len(),
        count_set(flags, upto) < upto,
    ensures
        exists|r: int| 0 <= r < upto && !#[trigger] flags[r],
    decreases upto,
{
    if upto > 0 {
        if flags[upto - 1] {
            lemma_some_flag_clear(flags, upto - 1);
        }
    }
}

/// Setting a clear flag adds one to the count of those at or after it.
proof fn lemma_count_after_set(flags: Seq<bool>, at: int, upto: int)
    requires
        0 <= at < flags.len(),
        0 <= upto <= flags.len(),
        !flags[at],
    ensures
        count_set(flags.update(at, true), upto) == count_set(flags, upto) + if at < upto {
            1int
        } else {
            0int
        },
    decreases upto,
{
    if upto > 0 {
        lemma_count_after_set(flags, at, upto - 1);
    }
}

/// Whether row `a` comes before row `b` in the ranking.
fn ranks_before(a: ScoreRow, b: ScoreRow) -> (before: bool)
    ensures
        before == outranks(a, b),
{
    a.1 > b.1 || (a.1 == b.1 && a.0 < b.0)
}

/// The `count` first rows of the ranking.
fn top_rows(scores: &Vec<ScoreRow>, count: usize) -> (top: Vec<ScoreRow>)
    requires
        rows_distinct(scores@),
    ensures
        is_top(top@, scores@, count as int),
{
    let n = scores.len();
    let limit = if count < n {
        count
    } else {
        n
    };
    let mut used: Vec<bool> = Vec::new();
    let mut r: usize = 0;
    while r < n
        invariant
            r <= n,
            used@.len() == r,
            forall|k: int| 0 <= k < r ==> !#[trigger] used@[k],
            count_set(used@, r as int) == 0,
        decreases n - r,
    {
        used.push(false);
        proof {
            lemma_all_clear(used@, r + 1);
        }
        r += 1;
    }
    let mut top: Vec<ScoreRow> = Vec::new();
    while top.len() < limit
        invariant
            n == scores@.len(),
            limit <= n,
            top@.len() <= limit,
            used@.len() == n,
            rows_distinct(scores@),
            count_set(used@, n as int) == top@.len(),
            forall|i: int, j: int|
                0 <= i < j < top@.len() ==> outranks(#[trigger] top@[i], #[trigger] top@[j]),
            forall|i: int| 0 <= i < top@.len() ==> scores@.contains(#[trigger] top@[i]),
            forall|k: int| 0 <= k < n && #[trigger] used@[k] ==> top@.contains(scores@[k]),
            forall|k: int, i: int|
                0 <= k < n && !used@[k] && 0 <= i < top@.len() ==> outranks(
                    #[trigger] top@[i],
                    #[trigger] scores@[k],
                ),
        decreases limit - top@.len(),
    {
        let mut pick: Option<usize> = None;
        let mut k: usize = 0;
        while k < n
            invariant
                k <= n,
                n == scores@.len(),
                used@.len() == n,
                rows_distinct(scores@),
                pick matches Some(m) ==> m < k && !used@[m as int],
                pick matches Some(m) ==> forall|l: int|
                    0 <= l < k && !#[trigger] used@[l] && l != m ==> outranks(
                        scores@[m as int],
                        scores@[l],
                    ),
                pick is None ==> forall|l: int| 0 <= l < k ==> #[trigger] used@[l],
            decreases n - k,
        {
            if !used[k] {
                let better = match pick {
                    Some(m) => ranks_before(scores[k], scores[m]),
                    None => true,
                };
                if better {
                    pick = Some(k);
                }
            }
            k += 1;
        }
        proof {
            lemma_some_flag_clear(used@, n as int);
        }
        let m = pick.unwrap();
        let row = scores[m];
        let ghost top_before = top@;
        proof {
            lemma_count_after_set(used@, m as int, n as int);
        }
        used[m] = true;
        top.push(row);
        proof {
            assert forall|l: int| 0 <= l < n && #[trigger] used@[l] implies top@.contains(
                scores@[l],
            ) by {
                if l == m {
                    assert(top@[top_before.len() as int] == scores@[l]);
                } else {
                    let i = choose|i: int| 0 <= i < top_before.len() && top_before[i] == scores@[l];
                    assert(top@[i] == scores@[l]);
                }
            }
        }
    }
    top
}

/// No flag set: the count is zero.
proof fn lemma_all_clear(flags: Seq<bool>, upto: int)
    requires
        0 <= upto <= flags.len(),
        forall|k: int| 0 <= k < upto ==> !#[trigger] flags[k],
    ensures
        count_set(flags, upto) == 0,
    decreases upto,
{
    if upto > 0 {
        lemma_all_clear(flags, upto - 1);
    }
}

/// The models of a row of vehicles.
pub open spec fn models(cars: Seq<Car>) -> Seq<CarModel> {
    Seq::new(cars.len(), |i: int| cars[i]@)
}

/// The place after `i` in a round of `len` places.
pub open spec fn next_index(i: int, len: int) -> int {
    if i + 1 >= len {
        0
    } else {
        i + 1
    }
}

/// The place before `i` in a round of `len` places.
pub open spec fn previous_index(i: int, len: int) -> int {
    if i <= 0 {
        len - 1
    } else {
        i - 1
    }
}

/// The population with the focus pinned to the agent at `target`.
pub open spec fn focused_on(model: AgentsModel, target: int) -> AgentsModel {
    AgentsModel { focus: Focus::SpecificAgent(model.agents[target].id), ..model }
}

/// What a tick does to a population: every agent has its tick, in place;
/// the scores of all are recorded, in their order; the best place is that
/// of the highest score, the first of them if several are as high; the
/// focus stays.
pub open spec fn population_ticked<T: Trig>(
    before: AgentsModel,
    after: AgentsModel,
    borders: Seq<crate::utils::Segment>,
    traffic: Seq<CarModel>,
    trig: &T,
) -> bool {
    &&& after.agents.len() == before.agents.len()
    &&& forall|i: int|
        0 <= i < before.agents.len() ==> ticked(
            before.agents[i],
            #[trigger] after.agents[i],
            borders,
            traffic,
            trig,
        )
    &&& after.scores == recorded_all(before.scores, after.agents, after.agents.len() as int)
    &&& after.focus == before.focus
    &&& (after.agents.len() > 0 ==> is_best(after.agents, after.best_agent_index as int))
    &&& (after.agents.len() == 0 ==> after.best_agent_index == 0)
}

/// The scores recorded for the first agents depend on those agents only.
proof fn lemma_recorded_prefix(scores: Seq<ScoreRow>, a: Seq<CarModel>, b: Seq<CarModel>, upto: int)
    requires
        0 <= upto <= a.len(),
        upto <= b.len(),
        forall|k: int| 0 <= k < upto ==> #[trigger] a[k] == b[k],
    ensures
        recorded_all(scores, a, upto) == recorded_all(scores, b, upto),
    decreases upto,
{
    if upto > 0 {
        lemma_recorded_prefix(scores, a, b, upto - 1);
    }
}

/// Where ids are the agents' own, the first place of an agent's id is the
/// agent's place.
pub proof fn lemma_first_index_of_own_id(agents: Seq<CarModel>, i: int)
    requires
        crate::car::ids_distinct(agents),
        0 <= i < agents.len(),
    ensures
        first_index(agents, agents[i].id) == i,
{
    assert(is_first_index(agents, agents[i].id, i)) by {
        assert forall|j: int| 0 <= j < i implies (#[trigger] agents[j]).id != agents[i].id by {}
    }
}

/// The place of the first vehicle with the id, if there is one.
fn position(cars: &Vec<Car>, id: AgentId) -> (place: Option<usize>)
    ensures
        match place {
            Some(i) => is_first_index(models(cars@), id, i as int),
            None => !has_id(models(cars@), id),
        },
{
    let mut i: usize = 0;
    while i < cars.len()
        invariant
            i <= cars@.len(),
            forall|k: int| 0 <= k < i ==> (#[trigger] models(cars@)[k]).id != id,
        decreases cars@.len() - i,
    {
        if cars[i].id() == id {
            return Some(i);
        }
        i += 1;
    }
    None
}

/// The population of network-driven vehicles.
#[derive(Debug)]
pub struct Agents {
    best_agent_index: usize,
    agents: Vec<Car>,
    scores: Vec<ScoreRow>,
    focused_agent: Focus,
}

impl View for Agents {
    type V = AgentsModel;

    closed spec fn view(&self) -> AgentsModel {
        AgentsModel {
            best_agent_index: self.best_agent_index,
            agents: models(self.agents@),
            scores: self.scores@,
            focus: self.focused_agent,
        }
    }
}

impl Agents {
    /// The population keeps what `agents_wf` says.
    pub open spec fn wf(&self) -> bool {
        agents_wf(self@)
    }

    /// A population of the given vehicles, with no score recorded yet,
    /// the first vehicle taken for the best, and the focus on the best.
    pub fn new(cars: Vec<Car>) -> (agents: Self)
        requires
            forall|i: int| 0 <= i < cars@.len() ==> (#[trigger] cars@[i]).wf(),
        ensures
            agents@ == (AgentsModel {
                best_agent_index: 0,
                agents: models(cars@),
                scores: Seq::empty(),
                focus: Focus::BestAgent,
            }),
            agents.wf(),
    {
        let agents = Agents {
            best_agent_index: 0,
            scores: Vec::new(),
            agents: cars,
            focused_agent: Focus::default(),
        };
        agents
    }

    /// The agent with the highest score; `None` in an empty population.
    pub fn best_agent(&self) -> (best: Option<&Car>)
        requires
            self.wf(),
        ensures
            match best {
                Some(car) => self@.agents.len() > 0 && car@ == self@.agents[self@.best_agent_index as int],
                None => self@.agents.len() == 0,
            },
    {
        if self.best_agent_index < self.agents.len() {
            Some(&self.agents[self.best_agent_index])
        } else {
            None
        }
    }

    /// The place the focus resolves to.
    fn focus_agent_index(&self) -> (index: usize)
        requires
            self.wf(),
        ensures
            index == focus_index(self@),
            self@.agents.len() > 0 ==> index < self@.agents.len(),
    {
        match self.focused_agent {
            Focus::BestAgent => self.best_agent_index,
            Focus::SpecificAgent(id) => {
                // the focus is pinned to an agent that exists: it is found
                match position(&self.agents, id) {
                    Some(index) => {
                        index
                    },
                    None => self.best_agent_index,
                }
            },
        }
    }

    /// The agent that is watched: the best one, or the one the focus is
    /// pinned to; `None` in an empty population.
    pub fn focused_agent(&self) -> (focused: Option<&Car>)
        requires
            self.wf(),
        ensures
            match focused {
                Some(car) => self@.agents.len() > 0 && car@ == self@.agents[focus_index(self@)],
                None => self@.agents.len() == 0,
            },
    {
        let index = self.focus_agent_index();
        if index < self.agents.len() {
            Some(&self.agents[index])
        } else {
            None
        }
    }

    /// A tick of the population: see [`population_ticked`]. Agents are
    /// taken in their order.
    pub fn update<T: Trig>(&mut self, road: &Road, traffic: &Traffic, trig: &T)
        requires
            old(self).wf(),
            road.wf(),
            traffic.wf(),
        ensures
            population_ticked(old(self)@, final(self)@, road@.borders, traffic@, trig),
            final(self).wf(),
    {
        let ghost before = self@;
        let ghost borders = road@.borders;
        let ghost obstacles = traffic@;
        let mut best_score: i64 = 0;
        let mut best_index: usize = 0;
        let mut i: usize = 0;
        while i < self.agents.len()
            invariant
                i <= self.agents@.len(),
                self.agents@.len() == before.agents.len(),
                agents_wf(before),
                road.wf(),
                traffic.wf(),
                borders == road@.borders,
                obstacles == traffic@,
                self.focused_agent == before.focus,
                self.best_agent_index == before.best_agent_index,
                rows_distinct(self.scores@),
                rows_are_agents(self.scores@, before.agents),
                self.scores@ == recorded_all(before.scores, models(self.agents@), i as int),
                forall|k: int|
                    0 <= k < i ==> ticked(
                        before.agents[k],
                        (#[trigger] self.agents@[k])@,
                        borders,
                        obstacles,
                        trig,
                    ) && self.agents@[k].wf(),
                forall|k: int| i <= k < before.agents.len() ==> (#[trigger] self.agents@[k])@ == before.agents[k],
                forall|k: int| 0 <= k < before.agents.len() ==> (#[trigger] self.agents@[k])@.id == before.agents[k].id,
                i > 0 ==> best_index < i && best_score == score_of(self.agents@[best_index as int]@),
                i == 0 ==> best_index == 0,
                forall|k: int| 0 <= k < i ==> score_of((#[trigger] self.agents@[k])@) <= best_score,
                forall|k: int| 0 <= k < best_index ==> score_of((#[trigger] self.agents@[k])@) < best_score,
            decreases self.agents@.len() - i,
        {
            let ghost cars_before = self.agents@;
            let ghost models_before = models(self.agents@);
            self.agents[i].update(road, traffic, trig);
            proof {
                assert(forall|k: int|
                    0 <= k < before.agents.len() && k != i ==> #[trigger] self.agents@[k] == cars_before[k]);
                assert forall|k: int| 0 <= k < i implies #[trigger] models(self.agents@)[k]
                    == models_before[k] by {}
                lemma_recorded_prefix(before.scores, models_before, models(self.agents@), i as int);
            }
            let id = self.agents[i].id();
            let score: i64 = -self.agents[i].y();
            if i == 0 || score > best_score {
                best_score = score;
                best_index = i;
            }
            let ghost rows_before = self.scores@;
            record(&mut self.scores, id, score);
            proof {
                assert(before.agents[i as int].id == id);
                assert forall|r: int| 0 <= r < self.scores@.len() implies has_id(
                    before.agents,
                    (#[trigger] self.scores@[r]).0,
                ) by {
                    if self.scores@[r].0 != id {
                        assert(has_id(before.agents, rows_before[r].0));
                    }
                }
            }
            i += 1;
        }
        self.best_agent_index = best_index;
        proof {
            let after = self@;
            assert forall|k: int| 0 <= k < after.agents.len() implies car_wf(
                #[trigger] after.agents[k],
            ) && ticked(before.agents[k], after.agents[k], borders, obstacles, trig) && after.agents[k].id
                == before.agents[k].id by {}
            assert forall|r: int| 0 <= r < after.scores.len() implies has_id(
                after.agents,
                (#[trigger] after.scores[r]).0,
            ) by {
                let id = after.scores[r].0;
                assert(has_id(before.agents, id));
                let w = choose|w: int|
                    0 <= w < before.agents.len() && (#[trigger] before.agents[w]).id == id;
                assert(after.agents[w].id == id);
            }
            if let Focus::SpecificAgent(id) = after.focus {
                let w = choose|w: int| 0 <= w < before.agents.len() && (#[trigger] before.agents[w]).id == id;
                assert(after.agents[w].id == id);
            }
            if after.agents.len() > 0 {
                assert forall|k: int| 0 <= k < after.agents.len() implies score_of(
                    #[trigger] after.agents[k],
                ) <= score_of(after.agents[best_index as int]) by {}
                assert forall|k: int| 0 <= k < best_index implies score_of(#[trigger] after.agents[k])
                    < score_of(after.agents[best_index as int]) by {}
            }
        }
    }

    /// Pins the focus to the agent with the id, if there is one. Says
    /// whether there is; if not, the focus stays where it was.
    pub fn focus_agent(&mut self, agent_id: AgentId) -> (found: bool)
        requires
            old(self).wf(),
        ensures
            found == has_id(old(self)@.agents, agent_id),
            found ==> final(self)@ == (AgentsModel {
                focus: Focus::SpecificAgent(agent_id),
                ..old(self)@
            }),
            !found ==> final(self)@ == old(self)@,
            final(self).wf(),
    {
        match position(&self.agents, agent_id) {
            Some(index) => {
                self.focused_agent = Focus::SpecificAgent(agent_id);
                true
            },
            None => false,
        }
    }

    /// Pins the focus to the agent after the watched one, the first after
    /// the last. From the best agent, the step is taken from its place.
    /// Nothing changes in an empty population.
    pub fn focus_next(&mut self)
        requires
            old(self).wf(),
        ensures
            old(self)@.agents.len() == 0 ==> final(self)@ == old(self)@,
            old(self)@.agents.len() > 0 ==> final(self)@ == focused_on(
                old(self)@,
                next_index(focus_index(old(self)@), old(self)@.agents.len() as int),
            ),
            crate::car::ids_distinct(old(self)@.agents) && old(self)@.agents.len() > 0 ==> focus_index(
                final(self)@,
            ) == next_index(focus_index(old(self)@), old(self)@.agents.len() as int),
            final(self).wf(),
    {
        let len = self.agents.len();
        if len == 0 {
            return ;
        }
        let index = self.focus_agent_index();
        let target = if index + 1 >= len {
            0
        } else {
            index + 1
        };
        self.pin(target);
    }

    /// Pins the focus to the agent before the watched one, the last before
    /// the first. From the best agent, the step is taken from its place.
    /// Nothing changes in an empty population.
    pub fn focus_previous(&mut self)
        requires
            old(self).wf(),
        ensures
            old(self)@.agents.len() == 0 ==> final(self)@ == old(self)@,
            old(self)@.agents.len() > 0 ==> final(self)@ == focused_on(
                old(self)@,
                previous_index(focus_index(old(self)@), old(self)@.agents.len() as int),
            ),
            crate::car::ids_distinct(old(self)@.agents) && old(self)@.agents.len() > 0 ==> focus_index(
                final(self)@,
            ) == previous_index(focus_index(old(self)@), old(self)@.agents.len() as int),
            final(self).wf(),
    {
        let len = self.agents.len();
        if len == 0 {
            return ;
        }
        let index = self.focus_agent_index();
        let target = if index == 0 {
            len - 1
        } else {
            index - 1
        };
        self.pin(target);
    }

    /// Pins the focus to the agent at `target`.
    fn pin(&mut self, target: usize)
        requires
            old(self).wf(),
            target < old(self)@.agents.len(),
        ensures
            final(self)@ == focused_on(old(self)@, target as int),
            crate::car::ids_distinct(old(self)@.agents) ==> focus_index(final(self)@) == target,
            final(self).wf(),
    {
        let id = self.agents[target].id();
        self.focused_agent = Focus::SpecificAgent(id);
        proof {
            if crate::car::ids_distinct(self@.agents) {
                lemma_first_index_of_own_id(self@.agents, target as int);
            }
        }
    }

    /// Lets the focus follow the best agent again.
    pub fn focus_best_agent(&mut self)
        requires
            old(self).wf(),
        ensures
            final(self)@ == (AgentsModel { focus: Focus::BestAgent, ..old(self)@ }),
            final(self).wf(),
    {
        self.focused_agent = Focus::BestAgent;
    }

    /// The `count` highest scores with the ids of their agents, the
    /// highest first; of two equal scores the one of the lower id first.
    /// All of them if fewer are recorded.
    pub fn n_best(&self, count: usize) -> (top: Vec<ScoreRow>)
        requires
            self.wf(),
        ensures
            is_top(top@, self@.scores, count as int),
    {
        top_rows(&self.scores, count)
    }

    /// The agent whose score is at place `index` of the ranking, the best
    /// at place 0. `None` if fewer scores are recorded, or if no agent has
    /// the id of that score.
    pub fn nth_best(&self, index: usize) -> (agent: Option<&Car>)
        requires
            self.wf(),
        ensures
            index >= self@.scores.len() ==> agent is None,
            index < self@.scores.len() ==> exists|top: Seq<ScoreRow>|
                #![trigger is_top(top, self@.scores, index + 1)]
                is_top(top, self@.scores, index + 1) && match agent {
                    Some(car) => is_first_index(
                        self@.agents,
                        top[index as int].0,
                        first_index(self@.agents, top[index as int].0),
                    ) && car@ == self@.agents[first_index(self@.agents, top[index as int].0)],
                    None => !has_id(self@.agents, top[index as int].0),
                },
    {
        if index >= self.scores.len() {
            return None;
        }
        let top = top_rows(&self.scores, index + 1);
        let id = top[index].0;
        match position(&self.agents, id) {
            Some(place) => {
                Some(&self.agents[place])
            },
            None => None,
        }
    }

    /// Removes the traffic that has fallen behind the best agent. Nothing
    /// is removed for an empty population.
    pub fn clean(&self, traffic: &mut Traffic)
        requires
            self.wf(),
        ensures
            self@.agents.len() == 0 ==> final(traffic)@ == old(traffic)@,
            self@.agents.len() > 0 ==> final(traffic)@ == old(traffic)@.filter(
                stays_at(self@.agents[self@.best_agent_index as int].y as int),
            ),
            old(traffic).wf() ==> final(traffic).wf(),
    {
        match self.best_agent() {
            Some(best) => {
                traffic.clean(best.y());
            },
            None => {},
        }
    }

    /// The agents, in their order.
    pub fn agents(&self) -> (agents: &[Car])
        ensures
            models(agents@) == self@.agents,
    {
        self.agents.as_slice()
    }

    /// The place of the best agent.
    pub fn best_agent_index(&self) -> (index: usize)
        ensures
            index == self@.best_agent_index,
    {
        self.best_agent_index
    }

    /// The score table: one row per agent id that a score was recorded
    /// for.
    pub fn scores(&self) -> (scores: &[ScoreRow])
        ensures
            scores@ == self@.scores,
    {
        self.scores.as_slice()
    }

    /// Which agent is watched.
    pub fn focus(&self) -> (focus: Focus)
        ensures
            focus == self@.focus,
    {
        self.focused_agent
    }
}

} // verus!

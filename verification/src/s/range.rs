//! Where a unit can move and what it can reach with an attack.

use vstd::prelude::*;
use std::collections::HashMap;
use crate::c::game::{GameState, Team};
use crate::c::hex::{adjacent, hex_distance, neighbor_in, HexCoord, HexSet, Terrain};
use crate::e::entity::{Store, World};
use crate::e::factory::HexMapFactory;
use crate::s::input::InputSystem;

verus! {

impl Store {
    /// The cell `c` can be entered by a unit of the side `turn`: it has a
    /// tile with a terrain, and no unit of another side stands on it.
    pub open spec fn passable(self, c: HexCoord, turn: u8) -> bool {
        &&& self.tile_at(c) is Some
        &&& self.component::<Terrain>(self.tile_at(c).unwrap()) is Some
        &&& !(self.component::<Team>(self.tile_at(c).unwrap()) is Some && self.component::<Team>(
            self.tile_at(c).unwrap(),
        ).unwrap().team_id != turn)
    }

    /// Movement points that entering the cell `c` costs.
    pub open spec fn entry_cost(self, c: HexCoord) -> int {
        self.component::<Terrain>(self.tile_at(c).unwrap()).unwrap().terrain_type.cost()
    }

    /// `path` is a walk for a unit of the side `turn`: each cell after the
    /// first is a neighbour of the one before and can be entered.
    pub open spec fn is_route(self, turn: u8, path: Seq<HexCoord>) -> bool {
        &&& path.len() >= 1
        &&& forall|i: int|
            1 <= i < path.len() ==> adjacent(path[i - 1], #[trigger] path[i]) && self.passable(
                path[i],
                turn,
            )
    }

    /// Movement points that the walk costs: the sum of the costs of the
    /// cells entered, that is of all but the first.
    pub open spec fn route_cost(self, path: Seq<HexCoord>) -> int
        decreases path.len(),
    {
        if path.len() <= 1 {
            0
        } else {
            self.route_cost(path.drop_last()) + self.entry_cost(path.last())
        }
    }

    /// A unit of the side `turn` can walk from `start` to `c` for at most
    /// `spent` movement points.
    pub open spec fn arrives(self, turn: u8, start: HexCoord, c: HexCoord, spent: int) -> bool {
        exists|path: Seq<HexCoord>|
            self.is_route(turn, path) && path[0] == start && path.last() == c
                && #[trigger] self.route_cost(path) <= spent
    }

    /// The cells other than `start` that a unit of the side to move can walk
    /// to from `start` for at most `budget` movement points. Empty without a
    /// game state.
    pub open spec fn movement_range(self, start: HexCoord, budget: int) -> Set<HexCoord> {
        match self.the_game_state() {
            Some(game_state) => Set::new(
                |c: HexCoord| c != start && self.arrives(game_state.current_turn, start, c, budget),
            ),
            None => Set::empty(),
        }
    }

    /// The cells of the map other than `start` that lie at most `range`
    /// steps from `start`.
    pub open spec fn attack_range(self, start: HexCoord, range: int) -> Set<HexCoord> {
        Set::new(
            |c: HexCoord| self.hex_map().contains_key(c) && hex_distance(c, start) <= range && c != start,
        )
    }
}

/// With more movement points a unit can walk to every cell that it can walk
/// to with fewer.
pub proof fn lemma_movement_range_monotone(s: Store, start: HexCoord, fewer: int, more: int)
    requires
        fewer <= more,
    ensures
        s.movement_range(start, fewer).subset_of(s.movement_range(start, more)),
{
    if s.the_game_state() is Some {
        let turn = s.the_game_state().unwrap().current_turn;
        assert forall|c: HexCoord| s.arrives(turn, start, c, fewer) implies s.arrives(
            turn,
            start,
            c,
            more,
        ) by {
            let path = choose|path: Seq<HexCoord>|
                s.is_route(turn, path) && path[0] == start && path.last() == c
                    && #[trigger] s.route_cost(path) <= fewer;
            assert(s.route_cost(path) <= more);
        }
    }
}

/// A walk costs at least one movement point for each cell entered.
pub proof fn lemma_route_cost_bounds(s: Store, turn: u8, path: Seq<HexCoord>)
    requires
        s.is_route(turn, path),
    ensures
        s.route_cost(path) >= path.len() - 1,
    decreases path.len(),
{
    if path.len() > 1 {
        let front = path.drop_last();
        assert forall|i: int| 1 <= i < front.len() implies adjacent(front[i - 1], #[trigger] front[i])
            && s.passable(front[i], turn) by {
            assert(front[i] == path[i]);
            assert(front[i - 1] == path[i - 1]);
        }
        lemma_route_cost_bounds(s, turn, front);
    }
}

/// A walk ends no more steps from where it starts than it has cells after
/// the first.
pub proof fn lemma_route_stays_near(s: Store, turn: u8, path: Seq<HexCoord>)
    requires
        s.is_route(turn, path),
    ensures
        hex_distance(path[0], path.last()) <= path.len() - 1,
    decreases path.len(),
{
    if path.len() > 1 {
        let front = path.drop_last();
        assert forall|i: int| 1 <= i < front.len() implies adjacent(front[i - 1], #[trigger] front[i])
            && s.passable(front[i], turn) by {
            assert(front[i] == path[i]);
            assert(front[i - 1] == path[i - 1]);
        }
        lemma_route_stays_near(s, turn, front);
        let c = front.last();
        let n = path.last();
        assert(adjacent(path[path.len() - 2], path[path.len() - 1]));
        let d = choose|d: int| 0 <= d < 6 && #[trigger] neighbor_in(c, d, n);
        assert(hex_distance(path[0], n) <= hex_distance(path[0], c) + 1);
    }
}

/// Every cell of a movement range is a cell of the map that can be entered
/// and lies within as many steps of the start as there are movement points.
pub proof fn lemma_movement_range_within_reach(s: Store, start: HexCoord, budget: int, c: HexCoord)
    requires
        s.movement_range(start, budget).contains(c),
    ensures
        s.tile_at(c) is Some,
        s.passable(c, s.the_game_state().unwrap().current_turn),
        1 <= hex_distance(start, c) <= budget,
{
    let turn = s.the_game_state().unwrap().current_turn;
    let path = choose|path: Seq<HexCoord>|
        s.is_route(turn, path) && path[0] == start && path.last() == c && #[trigger] s.route_cost(path)
            <= budget;
    lemma_route_cost_bounds(s, turn, path);
    lemma_route_stays_near(s, turn, path);
    assert(path.len() > 1);
    assert(s.passable(path[path.len() - 1], turn));
    crate::c::hex::lemma_distance_small(start, c);
    crate::c::hex::lemma_distance_symmetric(start, c);
}

/// A walk that ends next to a cell that can be entered goes on to that cell
/// for the cost of entering it.
proof fn lemma_arrives_step(s: Store, turn: u8, start: HexCoord, c: HexCoord, n: HexCoord, spent: int)
    requires
        s.arrives(turn, start, c, spent),
        adjacent(c, n),
        s.passable(n, turn),
    ensures
        s.arrives(turn, start, n, spent + s.entry_cost(n)),
{
    let path = choose|path: Seq<HexCoord>|
        s.is_route(turn, path) && path[0] == start && path.last() == c && #[trigger] s.route_cost(path)
            <= spent;
    let longer = path.push(n);
    assert(longer.drop_last() =~= path);
    assert forall|i: int| 1 <= i < longer.len() implies adjacent(longer[i - 1], #[trigger] longer[i])
        && s.passable(longer[i], turn) by {
        if i < path.len() {
            assert(longer[i] == path[i]);
            assert(longer[i - 1] == path[i - 1]);
        }
    }
    assert(s.route_cost(longer) == s.route_cost(path) + s.entry_cost(n));
    assert(longer[0] == start);
}

/// A unit stands at its start without spending anything.
proof fn lemma_arrives_start(s: Store, turn: u8, start: HexCoord)
    ensures
        s.arrives(turn, start, start, 0),
{
    let path = seq![start];
    assert(s.is_route(turn, path));
    assert(s.route_cost(path) == 0);
    assert(path[0] == start && path.last() == start);
}

/// Weight of a pending visit with `r` movement points left: more than six
/// times the weight of any visit that it can start.
spec fn weight(r: int) -> nat
    decreases r + 1,
{
    if r < 0 {
        1
    } else {
        7 * weight(r - 1)
    }
}

/// Weight of all pending visits.
spec fn stack_weight(stack: Seq<(HexCoord, i32)>) -> nat
    decreases stack.len(),
{
    if stack.len() == 0 {
        0
    } else {
        stack_weight(stack.drop_last()) + weight(stack.last().1 as int)
    }
}

proof fn lemma_weight_monotone(a: int, b: int)
    requires
        a <= b,
    ensures
        1 <= weight(a) <= weight(b),
    decreases b + 1,
{
    if b >= 0 {
        if a < b {
            lemma_weight_monotone(a, b - 1);
        } else {
            lemma_weight_monotone(a - 1, b - 1);
        }
    }
}

proof fn lemma_stack_weight_push(stack: Seq<(HexCoord, i32)>, entry: (HexCoord, i32))
    ensures
        stack_weight(stack.push(entry)) == stack_weight(stack) + weight(entry.1 as int),
{
    assert(stack.push(entry).drop_last() =~= stack);
}

/// The search has found a way to `c` that leaves `r` movement points.
spec fn sound_entry(s: Store, turn: u8, start: HexCoord, budget: int, c: HexCoord, r: int) -> bool {
    s.arrives(turn, start, c, budget - r) && (r >= 0 || c == start)
}

/// The cell `n` is visited, or waits to be visited, with at least `x`
/// movement points left.
spec fn covered(visited: Map<u64, i32>, stack: Seq<(HexCoord, i32)>, n: HexCoord, x: int) -> bool {
    ||| visited.contains_key(n.spec_key()) && visited[n.spec_key()] >= x
    ||| exists|i: int| 0 <= i < stack.len() && (#[trigger] stack[i]).0 == n && stack[i].1 >= x
}

/// The neighbours of `c` in the first `dirs` directions that can be entered
/// with `b` movement points are covered with what is then left.
spec fn expanded(
    s: Store,
    turn: u8,
    visited: Map<u64, i32>,
    stack: Seq<(HexCoord, i32)>,
    c: HexCoord,
    b: int,
    dirs: int,
) -> bool {
    forall|d: int, n: HexCoord|
        0 <= d < dirs && #[trigger] neighbor_in(c, d, n) && s.passable(n, turn) && s.entry_cost(n) <= b
            ==> covered(visited, stack, n, b - s.entry_cost(n))
}

/// Every visited cell but `except` is expanded in all directions.
spec fn closed(
    s: Store,
    turn: u8,
    visited: Map<u64, i32>,
    stack: Seq<(HexCoord, i32)>,
    except: Option<HexCoord>,
) -> bool {
    forall|c: HexCoord|
        visited.contains_key(#[trigger] c.spec_key()) && Some(c) != except ==> expanded(
            s,
            turn,
            visited,
            stack,
            c,
            visited[c.spec_key()] as int,
            6,
        )
}

/// Every visited cell and every pending visit stands for a way found.
spec fn sound(
    s: Store,
    turn: u8,
    start: HexCoord,
    budget: int,
    visited: Map<u64, i32>,
    stack: Seq<(HexCoord, i32)>,
) -> bool {
    &&& forall|c: HexCoord|
        visited.contains_key(#[trigger] c.spec_key()) ==> sound_entry(
            s,
            turn,
            start,
            budget,
            c,
            visited[c.spec_key()] as int,
        )
    &&& forall|i: int|
        0 <= i < stack.len() ==> sound_entry(
            s,
            turn,
            start,
            budget,
            (#[trigger] stack[i]).0,
            stack[i].1 as int,
        )
}

/// `later` has every visit of `earlier`, with at least as many points left.
spec fn grown(earlier: Map<u64, i32>, later: Map<u64, i32>) -> bool {
    forall|k: u64| #[trigger] earlier.contains_key(k) ==> later.contains_key(k) && later[k] >= earlier[k]
}

/// What is covered stays covered when a visit is added to the pending ones.
proof fn lemma_covered_push(
    visited: Map<u64, i32>,
    stack: Seq<(HexCoord, i32)>,
    entry: (HexCoord, i32),
    n: HexCoord,
    x: int,
)
    requires
        covered(visited, stack, n, x),
    ensures
        covered(visited, stack.push(entry), n, x),
{
    if !(visited.contains_key(n.spec_key()) && visited[n.spec_key()] >= x) {
        let i = choose|i: int| 0 <= i < stack.len() && (#[trigger] stack[i]).0 == n && stack[i].1 >= x;
        assert(stack.push(entry)[i] == stack[i]);
    }
}

/// What is covered stays covered when the last pending visit is taken off
/// and its cell is visited with at least as many points left.
proof fn lemma_covered_pop(
    visited: Map<u64, i32>,
    later: Map<u64, i32>,
    stack: Seq<(HexCoord, i32)>,
    n: HexCoord,
    x: int,
)
    requires
        stack.len() > 0,
        grown(visited, later),
        later.contains_key(stack.last().0.spec_key()),
        later[stack.last().0.spec_key()] >= stack.last().1,
        covered(visited, stack, n, x),
    ensures
        covered(later, stack.drop_last(), n, x),
{
    if visited.contains_key(n.spec_key()) && visited[n.spec_key()] >= x {
        assert(later.contains_key(n.spec_key()));
    } else {
        let i = choose|i: int| 0 <= i < stack.len() && (#[trigger] stack[i]).0 == n && stack[i].1 >= x;
        if i < stack.len() - 1 {
            assert(stack.drop_last()[i] == stack[i]);
        }
    }
}

/// Once nothing is pending, every walk from the start that the budget pays
/// for ends on a visited cell, with at least what the walk leaves.
proof fn lemma_routes_visited(
    s: Store,
    turn: u8,
    start: HexCoord,
    budget: int,
    visited: Map<u64, i32>,
    path: Seq<HexCoord>,
)
    requires
        closed(s, turn, visited, Seq::empty(), None),
        covered(visited, Seq::empty(), start, budget),
        s.is_route(turn, path),
        path[0] == start,
        s.route_cost(path) <= budget,
    ensures
        visited.contains_key(path.last().spec_key()),
        visited[path.last().spec_key()] >= budget - s.route_cost(path),
    decreases path.len(),
{
    if path.len() > 1 {
        let front = path.drop_last();
        let c = front.last();
        let n = path.last();
        assert forall|i: int| 1 <= i < front.len() implies adjacent(front[i - 1], #[trigger] front[i])
            && s.passable(front[i], turn) by {
            assert(front[i] == path[i]);
            assert(front[i - 1] == path[i - 1]);
        }
        assert(adjacent(path[path.len() - 2], path[path.len() - 1]) && s.passable(
            path[path.len() - 1],
            turn,
        ));
        assert(s.entry_cost(n) >= 1);
        lemma_routes_visited(s, turn, start, budget, visited, front);
        let d = choose|d: int| 0 <= d < 6 && #[trigger] neighbor_in(c, d, n);
        assert(expanded(s, turn, visited, Seq::empty(), c, visited[c.spec_key()] as int, 6));
        assert(neighbor_in(c, d, n));
        assert(covered(
            visited,
            Seq::empty(),
            n,
            visited[c.spec_key()] as int - s.entry_cost(n),
        ));
    }
}

impl InputSystem {
    /// The cells of the map other than `start` at most `range` steps from
    /// `start`.
    pub fn calculate_attack_range(world: &World, start: &HexCoord, range: i32) -> (attack_hexes: HexSet)
        requires
            world.wf(),
        ensures
            attack_hexes@ == world@.attack_range(*start, range as int),
    {
        let mut attack_hexes = HexSet::new();
        let hex_entities = HexMapFactory::get_hex_entity_map(world);
        let coords = hex_entities.coords();
        for k in 0..coords.len()
            invariant
                hex_entities@ == world@.hex_map(),
                forall|c: HexCoord| coords@.contains(c) <==> hex_entities@.contains_key(c),
                attack_hexes@ == Set::new(
                    |c: HexCoord|
                        coords@.take(k as int).contains(c) && hex_distance(c, *start) <= range && c
                            != *start,
                ),
        {
            let coord = coords[k];
            let ghost before = attack_hexes@;
            if coord.distance_wide(start) <= range as i64 && coord != *start {
                attack_hexes.insert(coord);
            }
            proof {
                let wanted = Set::new(
                    |c: HexCoord|
                        coords@.take(k + 1).contains(c) && hex_distance(c, *start) <= range && c
                            != *start,
                );
                let earlier = coords@.take(k as int);
                let later = coords@.take(k + 1);
                assert(later =~= earlier.push(coord));
                assert forall|c: HexCoord| #[trigger] attack_hexes@.contains(c) == wanted.contains(c) by {
                    if earlier.contains(c) {
                        let i = choose|i: int| 0 <= i < earlier.len() && earlier[i] == c;
                        assert(later[i] == c);
                    }
                    if c == coord {
                        assert(later[k as int] == c);
                    }
                    if later.contains(c) {
                        let i = choose|i: int| 0 <= i < later.len() && later[i] == c;
                        if i < k {
                            assert(earlier[i] == c);
                        }
                    }
                }
                assert(attack_hexes@ =~= wanted);
            }
        }
        proof {
            assert(coords@.take(coords@.len() as int) =~= coords@);
            assert(attack_hexes@ =~= world@.attack_range(*start, range as int));
        }
        attack_hexes
    }

    /// The cells that a unit of the side to move can walk to from `start`
    /// with `movement_points` movement points, `start` itself left out.
    /// Pending visits are kept on a stack; a cell is visited again only when
    /// a way is found that leaves more points than the best known.
    pub fn calculate_movement_range(world: &World, start: &HexCoord, movement_points: i32) -> (range:
        HexSet)
        requires
            world.wf(),
        ensures
            range@ == world@.movement_range(*start, movement_points as int),
    {
        broadcast use vstd::std_specs::hash::group_hash_axioms;

        let mut range = HexSet::new();
        let game_state_entity = match HexMapFactory::get_game_state_entity(world) {
            Some(entity) => entity,
            None => {
                assert(range@ =~= world@.movement_range(*start, movement_points as int));
                return range;
            },
        };
        let current_turn = match world.get_component::<GameState>(game_state_entity) {
            Some(game_state) => game_state.current_turn,
            None => {
                return range;
            },
        };
        let hex_entities = HexMapFactory::get_hex_entity_map(world);
        let mut visited: HashMap<u64, i32> = HashMap::new();
        let mut to_visit: Vec<(HexCoord, i32)> = Vec::new();
        to_visit.push((*start, movement_points));
        let ghost s = world@;
        let ghost budget = movement_points as int;
        proof {
            lemma_arrives_start(s, current_turn, *start);
            assert(to_visit@[0] == (*start, movement_points));
        }
        while to_visit.len() > 0
            invariant
                world.wf(),
                s == world@,
                budget == movement_points,
                s.the_game_state() matches Some(gs) && gs.current_turn == current_turn,
                hex_entities@ == s.hex_map(),
                sound(s, current_turn, *start, budget, visited@, to_visit@),
                closed(s, current_turn, visited@, to_visit@, None),
                covered(visited@, to_visit@, *start, budget),
                range@ == Set::new(|c: HexCoord| c != *start && visited@.contains_key(c.spec_key())),
            decreases stack_weight(to_visit@),
        {
            let ghost stack_before = to_visit@;
            let ghost visited_before = visited@;
            let (current, remaining) = to_visit.pop().unwrap();
            let ghost base = to_visit@;
            assert(base == stack_before.drop_last());
            assert(stack_before.last() == (current, remaining));
            proof {
                lemma_weight_monotone(remaining as int, remaining as int);
            }
            let better = match visited.get(&current.key()) {
                Some(prev) => *prev < remaining,
                None => true,
            };
            if better {
                visited.insert(current.key(), remaining);
                if current != *start {
                    range.insert(current);
                }
                proof {
                    assert(range@ =~= Set::new(
                        |c: HexCoord| c != *start && visited@.contains_key(c.spec_key()),
                    )) by {
                        assert forall|c: HexCoord| c.spec_key() == current.spec_key() implies c
                            == current by {
                            HexCoord::lemma_key_bijective(c, current, 0);
                        }
                    }
                    assert(grown(visited_before, visited@));
                    assert forall|c: HexCoord| visited@.contains_key(#[trigger] c.spec_key()) implies sound_entry(
                        s,
                        current_turn,
                        *start,
                        budget,
                        c,
                        visited@[c.spec_key()] as int,
                    ) by {
                        HexCoord::lemma_key_bijective(c, current, 0);
                        if c == current {
                            assert(stack_before[stack_before.len() - 1] == (current, remaining));
                        } else {
                            assert(visited_before.contains_key(c.spec_key()));
                        }
                    }
                    assert forall|i: int| 0 <= i < base.len() implies sound_entry(
                        s,
                        current_turn,
                        *start,
                        budget,
                        (#[trigger] base[i]).0,
                        base[i].1 as int,
                    ) by {
                        assert(base[i] == stack_before[i]);
                    }
                    assert forall|c: HexCoord|
                        visited@.contains_key(#[trigger] c.spec_key()) && Some(c) != Some(
                            current,
                        ) implies expanded(
                        s,
                        current_turn,
                        visited@,
                        base,
                        c,
                        visited@[c.spec_key()] as int,
                        6,
                    ) by {
                        HexCoord::lemma_key_bijective(c, current, 0);
                        assert(visited_before.contains_key(c.spec_key()));
                        assert(expanded(
                            s,
                            current_turn,
                            visited_before,
                            stack_before,
                            c,
                            visited_before[c.spec_key()] as int,
                            6,
                        ));
                        assert forall|d: int, n: HexCoord|
                            0 <= d < 6 && #[trigger] neighbor_in(c, d, n) && s.passable(
                                n,
                                current_turn,
                            ) && s.entry_cost(n) <= visited@[c.spec_key()] as int implies covered(
                            visited@,
                            base,
                            n,
                            visited@[c.spec_key()] as int - s.entry_cost(n),
                        ) by {
                            lemma_covered_pop(
                                visited_before,
                                visited@,
                                stack_before,
                                n,
                                visited@[c.spec_key()] as int - s.entry_cost(n),
                            );
                        }
                    }
                    lemma_covered_pop(visited_before, visited@, stack_before, *start, budget);
                }
                let mut d: usize = 0;
                while d < 6
                    invariant
                        world.wf(),
                        s == world@,
                        budget == movement_points,
                        d <= 6,
                        hex_entities@ == s.hex_map(),
                        visited@.contains_key(current.spec_key()),
                        visited@[current.spec_key()] == remaining,
                        sound(s, current_turn, *start, budget, visited@, to_visit@),
                        closed(s, current_turn, visited@, to_visit@, Some(current)),
                        expanded(s, current_turn, visited@, to_visit@, current, remaining as int, d as int),
                        covered(visited@, to_visit@, *start, budget),
                        stack_weight(to_visit@) <= stack_weight(base) + (if remaining >= 1 {
                            d * weight(remaining - 1)
                        } else {
                            0
                        }),
                    decreases 6 - d,
                {
                    let ghost stack_then = to_visit@;
                    let mut pushed = false;
                    if let Some(neighbor) = current.neighbor(d) {
                        if let Some(entity) = hex_entities.get(&neighbor) {
                            if let Some(terrain) = world.get_component::<Terrain>(entity) {
                                let cost = terrain.terrain_type.movement_cost();
                                let has_enemy = match world.get_component::<Team>(entity) {
                                    Some(team) => team.team_id != current_turn,
                                    None => false,
                                };
                                if !(cost > remaining || has_enemy) {
                                    to_visit.push((neighbor, remaining - cost));
                                    pushed = true;
                                    proof {
                                        assert(adjacent(current, neighbor)) by {
                                            assert(neighbor_in(current, d as int, neighbor));
                                        }
                                        assert(s.passable(neighbor, current_turn));
                                        assert(s.entry_cost(neighbor) == cost);
                                        lemma_arrives_step(
                                            s,
                                            current_turn,
                                            *start,
                                            current,
                                            neighbor,
                                            budget - remaining,
                                        );
                                        lemma_stack_weight_push(stack_then, (neighbor, (remaining - cost) as i32));
                                        lemma_weight_monotone(remaining - cost, remaining - 1);
                                        assert((d + 1) * weight(remaining - 1) == d * weight(remaining - 1)
                                            + weight(remaining - 1)) by (nonlinear_arith);
                                        assert(to_visit@[stack_then.len() as int] == (
                                            neighbor,
                                            (remaining - cost) as i32,
                                        ));
                                    }
                                }
                            }
                        }
                    }
                    proof {
                        if !pushed {
                            assert(to_visit@ == stack_then);
                            if remaining >= 1 {
                                assert((d + 1) * weight(remaining - 1) >= d * weight(remaining - 1))
                                    by (nonlinear_arith);
                            }
                        }
                        let entry = to_visit@.last();
                        assert forall|i: int| 0 <= i < to_visit@.len() implies sound_entry(
                            s,
                            current_turn,
                            *start,
                            budget,
                            (#[trigger] to_visit@[i]).0,
                            to_visit@[i].1 as int,
                        ) by {
                            if i < stack_then.len() {
                                assert(to_visit@[i] == stack_then[i]);
                            }
                        }
                        assert forall|c: HexCoord, x: int| covered(visited@, stack_then, c, x) implies covered(
                            visited@,
                            to_visit@,
                            c,
                            x,
                        ) by {
                            if pushed {
                                lemma_covered_push(visited@, stack_then, entry, c, x);
                            }
                        }
                        assert forall|c: HexCoord|
                            visited@.contains_key(#[trigger] c.spec_key()) && Some(c) != Some(
                                current,
                            ) implies expanded(
                            s,
                            current_turn,
                            visited@,
                            to_visit@,
                            c,
                            visited@[c.spec_key()] as int,
                            6,
                        ) by {
                            assert(expanded(
                                s,
                                current_turn,
                                visited@,
                                stack_then,
                                c,
                                visited@[c.spec_key()] as int,
                                6,
                            ));
                        }
                        assert forall|e: int, n: HexCoord|
                            0 <= e < d + 1 && #[trigger] neighbor_in(current, e, n) && s.passable(
                                n,
                                current_turn,
                            ) && s.entry_cost(n) <= remaining implies covered(
                            visited@,
                            to_visit@,
                            n,
                            remaining - s.entry_cost(n),
                        ) by {
                            if e < d {
                                assert(covered(visited@, stack_then, n, remaining - s.entry_cost(n)));
                            } else {
                                assert(pushed);
                                assert(to_visit@[stack_then.len() as int].0 == n);
                            }
                        }
                    }
                    d += 1;
                }
                proof {
                    if remaining >= 1 {
                        assert(weight(remaining as int) == 7 * weight(remaining - 1));
                        lemma_weight_monotone(remaining - 1, remaining - 1);
                    }
                }
            } else {
                proof {
                    assert(grown(visited_before, visited@));
                    assert forall|i: int| 0 <= i < base.len() implies sound_entry(
                        s,
                        current_turn,
                        *start,
                        budget,
                        (#[trigger] base[i]).0,
                        base[i].1 as int,
                    ) by {
                        assert(base[i] == stack_before[i]);
                    }
                    assert forall|c: HexCoord| visited@.contains_key(#[trigger] c.spec_key()) implies expanded(
                        s,
                        current_turn,
                        visited@,
                        base,
                        c,
                        visited@[c.spec_key()] as int,
                        6,
                    ) by {
                        assert(expanded(
                            s,
                            current_turn,
                            visited@,
                            stack_before,
                            c,
                            visited@[c.spec_key()] as int,
                            6,
                        ));
                        assert forall|d: int, n: HexCoord|
                            0 <= d < 6 && #[trigger] neighbor_in(c, d, n) && s.passable(
                                n,
                                current_turn,
                            ) && s.entry_cost(n) <= visited@[c.spec_key()] as int implies covered(
                            visited@,
                            base,
                            n,
                            visited@[c.spec_key()] as int - s.entry_cost(n),
                        ) by {
                            lemma_covered_pop(
                                visited@,
                                visited@,
                                stack_before,
                                n,
                                visited@[c.spec_key()] as int - s.entry_cost(n),
                            );
                        }
                    }
                    lemma_covered_pop(visited@, visited@, stack_before, *start, budget);
                }
            }
        }
        proof {
            assert(to_visit@ =~= Seq::empty());
            assert forall|c: HexCoord|
                c != *start && s.arrives(current_turn, *start, c, budget) implies visited@.contains_key(
                c.spec_key(),
            ) by {
                let path = choose|path: Seq<HexCoord>|
                    s.is_route(current_turn, path) && path[0] == *start && path.last() == c
                        && #[trigger] s.route_cost(path) <= budget;
                lemma_routes_visited(s, current_turn, *start, budget, visited@, path);
            }
            assert forall|c: HexCoord|
                c != *start && visited@.contains_key(c.spec_key()) implies s.arrives(
                current_turn,
                *start,
                c,
                budget,
            ) by {
                assert(sound_entry(s, current_turn, *start, budget, c, visited@[c.spec_key()] as int));
                let path = choose|path: Seq<HexCoord>|
                    s.is_route(current_turn, path) && path[0] == *start && path.last() == c
                        && #[trigger] s.route_cost(path) <= budget - visited@[c.spec_key()];
                assert(s.route_cost(path) <= budget);
            }
            assert(range@ =~= s.movement_range(*start, budget));
        }
        range
    }
}

} // verus!

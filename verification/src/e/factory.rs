//! Seeding a store with a map and its units, and the queries and updates
//! that concern the game as a whole.

use vstd::prelude::*;
use vstd::arithmetic::div_mod::lemma_fundamental_div_mod_converse;
use crate::c::game::{GameState, MapSettings, Team};
use crate::c::hex::{
    HexCoord, HexEntityMap, Position, Terrain, TerrainType, UnitState, UnitStats, UnitType,
};
use crate::e::entity::{lemma_first_holder, Entity, Store, World};
use crate::s::invariants::{lemma_same_board, lemma_seeded_keeps, lemma_tiled_is_consistent};

verus! {

/// What a unit of each kind is and can do.
pub open spec fn unit_stats_of(unit_type: UnitType) -> UnitStats {
    match unit_type {
        UnitType::Infantry => UnitStats {
            unit_type,
            max_health: 10,
            attack: 3,
            defense: 2,
            movement: 2,
            range: 1,
        },
        UnitType::Archer => UnitStats {
            unit_type,
            max_health: 8,
            attack: 4,
            defense: 1,
            movement: 2,
            range: 2,
        },
        UnitType::Cavalry => UnitStats {
            unit_type,
            max_health: 12,
            attack: 5,
            defense: 1,
            movement: 4,
            range: 1,
        },
    }
}

/// The state of a unit that has not fought or moved yet.
pub open spec fn fresh_state(stats: UnitStats) -> UnitState {
    UnitState { health: stats.max_health, movement_left: stats.movement, has_acted: false }
}

/// The state of a unit at the start of its side's turn.
pub open spec fn rested(stats: UnitStats, state: UnitState) -> UnitState {
    UnitState { health: state.health, movement_left: stats.movement, has_acted: false }
}

/// The terrain of the cell (q, r) of a seeded map: the four kinds in turn
/// along q + r.
pub open spec fn terrain_for(q: int, r: int) -> TerrainType {
    if (q + r) % 4 == 0 {
        TerrainType::Plain
    } else if (q + r) % 4 == 1 {
        TerrainType::Forest
    } else if (q + r) % 4 == 2 {
        TerrainType::Mountain
    } else {
        TerrainType::Water
    }
}

/// The state of a game that starts: the player's first turn.
pub open spec fn initial_game_state() -> GameState {
    GameState {
        selected_entity: None,
        hover_entity: None,
        current_turn: 0,
        turn_number: 1,
        game_over: false,
        player_won: false,
    }
}

/// The cell of the `j`-th tile of a map with `height` rows: tiles are laid
/// column by column.
pub open spec fn cell_of(j: int, height: int) -> HexCoord {
    HexCoord { q: (j / height) as i32, r: (j % height) as i32 }
}

/// The store holds the two singletons and `tiles` tiles of a map with
/// `height` rows and nothing else: entity 0 has the game state, entity 1 the
/// map settings and the map from cells to tiles, and the tiles follow,
/// column by column, each with its position and terrain.
pub open spec fn is_tiled(s: Store, tiles: int, height: int, settings: MapSettings) -> bool {
    let n = (2 + tiles) as nat;
    &&& s.ids == Seq::new(n, |i: int| i as usize)
    &&& s.next == n
    &&& s.free == Seq::<Entity>::empty()
    &&& s.selected is None
    &&& s.hovering is None
    &&& s.in_movement_range is None
    &&& s.in_attack_range is None
    &&& s.team is None
    &&& s.unit_stats is None
    &&& s.unit_state is None
    &&& s.game_state == Some(
        Seq::new(
            n,
            |i: int|
                if i == 0 {
                    Some(initial_game_state())
                } else {
                    None
                },
        ),
    )
    &&& s.map_settings == Some(
        Seq::new(
            n,
            |i: int|
                if i == 1 {
                    Some(settings)
                } else {
                    None
                },
        ),
    )
    &&& s.position == (if tiles == 0 {
        None
    } else {
        Some(
            Seq::new(
                n,
                |i: int|
                    if i >= 2 {
                        Some(Position { coord: cell_of(i - 2, height) })
                    } else {
                        None
                    },
            ),
        )
    })
    &&& s.terrain == (if tiles == 0 {
        None
    } else {
        Some(
            Seq::new(
                n,
                |i: int|
                    if i >= 2 {
                        Some(
                            Terrain {
                                terrain_type: terrain_for(
                                    cell_of(i - 2, height).q as int,
                                    cell_of(i - 2, height).r as int,
                                ),
                            },
                        )
                    } else {
                        None
                    },
            ),
        )
    })
    &&& s.hex_entity_map is Some
    &&& s.hex_entity_map.unwrap().len() == n
    &&& s.hex_entity_map.unwrap()[1] is Some
    &&& s.hex_entity_map.unwrap()[1].unwrap()@ == grid(tiles, height)
    &&& forall|i: int| 0 <= i < n && i != 1 ==> (#[trigger] s.hex_entity_map.unwrap()[i]) is None
}

/// The tile of each cell once `tiles` tiles of a map with `height` rows are
/// laid.
pub open spec fn grid(tiles: int, height: int) -> Map<HexCoord, Entity> {
    Map::new(
        |c: HexCoord| 0 <= c.q && 0 <= c.r < height && c.q * height + c.r < tiles,
        |c: HexCoord| (2 + c.q * height + c.r) as usize,
    )
}

/// The store without its units.
pub open spec fn without_units(s: Store) -> Store {
    Store { unit_stats: None, unit_state: None, team: None, ..s }
}

/// The store after the three units of each side are placed on a map of the
/// given size: the player's near the first corner, the enemy's near the
/// opposite one. A unit whose cell is not on the map is left out, and a unit
/// placed on the cell of an earlier one takes its place.
pub open spec fn seeded(s: Store, width: int, height: int) -> Store {
    s.with_unit(HexCoord { q: 1, r: 1 }, UnitType::Infantry, 0).with_unit(
        HexCoord { q: 2, r: 2 },
        UnitType::Archer,
        0,
    ).with_unit(HexCoord { q: 3, r: 1 }, UnitType::Cavalry, 0).with_unit(
        HexCoord { q: (width - 2) as i32, r: (height - 2) as i32 },
        UnitType::Infantry,
        1,
    ).with_unit(
        HexCoord { q: (width - 3) as i32, r: (height - 3) as i32 },
        UnitType::Archer,
        1,
    ).with_unit(HexCoord { q: (width - 4) as i32, r: (height - 2) as i32 }, UnitType::Cavalry, 1)
}

impl Store {
    /// The entity that carries the game state: the first that has one.
    pub open spec fn game_state_entity(self) -> Option<Entity> {
        self.first_holder::<GameState>()
    }

    /// The game state, if an entity carries one.
    pub open spec fn the_game_state(self) -> Option<GameState> {
        match self.game_state_entity() {
            Some(e) => self.component::<GameState>(e),
            None => None,
        }
    }

    /// The entity that carries the map settings: the first that has some.
    pub open spec fn map_settings_entity(self) -> Option<Entity> {
        self.first_holder::<MapSettings>()
    }

    /// The tile of each cell: what the entity with the map settings holds
    /// as its map, or nothing.
    pub open spec fn hex_map(self) -> Map<HexCoord, Entity> {
        match self.map_settings_entity() {
            Some(e) => match self.component::<HexEntityMap>(e) {
                Some(m) => m@,
                None => Map::empty(),
            },
            None => Map::empty(),
        }
    }

    /// The tile of cell `c`, if the map has one.
    pub open spec fn tile_at(self, c: HexCoord) -> Option<Entity> {
        if self.hex_map().contains_key(c) {
            Some(self.hex_map()[c])
        } else {
            None
        }
    }

    /// The store after a fresh unit of side `team_id` is placed on the tile
    /// of `coord`; unchanged if the map has no such tile.
    pub open spec fn with_unit(self, coord: HexCoord, unit_type: UnitType, team_id: u8) -> Store {
        match self.tile_at(coord) {
            Some(e) => self.added(e, unit_stats_of(unit_type)).added(
                e,
                fresh_state(unit_stats_of(unit_type)),
            ).added(e, Team { team_id }),
            None => self,
        }
    }

    /// What the state slot of entity `e` holds after the units of side
    /// `team_id` are rested: a unit of that side, that is an entity with
    /// team, stats and state, has its movement back and has not acted.
    pub open spec fn rested_slot(self, team_id: u8, e: Entity) -> Option<UnitState> {
        match (self.component::<Team>(e), self.component::<UnitStats>(e), self.component::<UnitState>(e)) {
            (Some(team), Some(stats), Some(state)) => if team.team_id == team_id {
                Some(rested(stats, state))
            } else {
                Some(state)
            },
            _ => self.component::<UnitState>(e),
        }
    }

    /// The store after the units of side `team_id` are rested.
    pub open spec fn team_reset(self, team_id: u8) -> Store {
        match self.unit_state {
            Some(c) => Store {
                unit_state: Some(Seq::new(c.len(), |i: int| self.rested_slot(team_id, i as usize))),
                ..self
            },
            None => self,
        }
    }

    /// Entity `e` is a living unit: it has a team and a state with health
    /// above zero.
    pub open spec fn alive(self, e: Entity) -> bool {
        &&& self.component::<Team>(e) is Some
        &&& self.component::<UnitState>(e) is Some
        &&& self.component::<UnitState>(e).unwrap().health > 0
    }

    /// Number of living units of side `team_id` among the first `n`
    /// entities.
    pub open spec fn living_units(self, team_id: u8, n: nat) -> nat
        decreases n,
    {
        if n == 0 {
            0
        } else {
            self.living_units(team_id, (n - 1) as nat) + (if self.alive((n - 1) as usize)
                && self.component::<Team>((n - 1) as usize).unwrap().team_id == team_id {
                1nat
            } else {
                0nat
            })
        }
    }

    /// The player has a living unit.
    pub open spec fn player_alive(self) -> bool {
        exists|e: Entity| #[trigger] self.alive(e) && self.component::<Team>(e).unwrap().team_id == 0
    }

    /// The enemy has a living unit. Every side but the player's counts as
    /// the enemy.
    pub open spec fn enemy_alive(self) -> bool {
        exists|e: Entity| #[trigger] self.alive(e) && self.component::<Team>(e).unwrap().team_id != 0
    }

    /// Whether the game is over, and whether the player has won it: the
    /// enemy wins when the player has no living unit, the player when the
    /// enemy has none (and the player has one).
    pub open spec fn game_over(self) -> (bool, bool) {
        if !self.player_alive() {
            (true, false)
        } else if !self.enemy_alive() {
            (true, true)
        } else {
            (false, false)
        }
    }
}

/// A side has a living unit among the first `n` entities exactly if the
/// number of its living units among them is not zero.
pub proof fn lemma_living_units(s: Store, team_id: u8, n: nat)
    requires
        n <= usize::MAX,
    ensures
        s.living_units(team_id, n) <= n,
        s.living_units(team_id, n) > 0 <==> exists|e: Entity|
            e < n && #[trigger] s.alive(e) && s.component::<Team>(e).unwrap().team_id == team_id,
    decreases n,
{
    if n > 0 {
        let m = (n - 1) as nat;
        lemma_living_units(s, team_id, m);
        if s.living_units(team_id, n) > 0 {
            if s.living_units(team_id, m) > 0 {
                let e = choose|e: Entity|
                    e < m && #[trigger] s.alive(e) && s.component::<Team>(e).unwrap().team_id == team_id;
                assert(e < n && s.alive(e));
            } else {
                assert(s.alive(m as usize));
            }
        }
        if exists|e: Entity|
            e < n && #[trigger] s.alive(e) && s.component::<Team>(e).unwrap().team_id == team_id {
            let e = choose|e: Entity|
                e < n && #[trigger] s.alive(e) && s.component::<Team>(e).unwrap().team_id == team_id;
            if e < m {
                assert(s.living_units(team_id, m) > 0);
            }
        }
    }
}

/// The game goes on exactly while both the player and the enemy, that is
/// some side other than the player's, have living units.
pub proof fn lemma_game_over_by_count(s: Store)
    requires
        s.wf(),
    ensures
        s.player_alive() <==> s.living_units(0, s.len()) > 0,
        !s.game_over().0 <==> s.player_alive() && s.enemy_alive(),
        s.game_over().1 <==> s.player_alive() && !s.enemy_alive(),
{
    lemma_living_units(s, 0, s.len());
    if s.player_alive() {
        let e = choose|e: Entity| #[trigger] s.alive(e) && s.component::<Team>(e).unwrap().team_id == 0;
        assert(e < s.len());
    }
}

/// Number of tiles of a map of the given size.
pub open spec fn tile_count(width: int, height: int) -> int {
    if width > 0 && height > 0 {
        width * height
    } else {
        0
    }
}

/// The store in which the map that is being laid is already filed with the
/// map settings.
spec fn with_map(s: Store, m: HexEntityMap) -> Store {
    Store {
        hex_entity_map: Some(
            Seq::new(
                s.ids.len(),
                |i: int|
                    if i == 1 {
                        Some(m)
                    } else {
                        None
                    },
            ),
        ),
        ..s
    }
}

/// Laying the tile of cell (q, r) as the next tile keeps the store tiled.
proof fn lemma_lay_tile(
    s: Store,
    m: HexEntityMap,
    t: Store,
    n: HexEntityMap,
    q: int,
    r: int,
    height: int,
    settings: MapSettings,
)
    requires
        s.wf(),
        t.wf(),
        0 <= q <= i32::MAX,
        0 <= r < height <= i32::MAX,
        is_tiled(with_map(s, m), q * height + r, height, settings),
        s.hex_entity_map is None,
        t == s.created().added(s.next_id(), Position { coord: HexCoord { q: q as i32, r: r as i32 } }).added(
            s.next_id(),
            Terrain { terrain_type: terrain_for(q, r) },
        ),
        n@ == m@.insert(HexCoord { q: q as i32, r: r as i32 }, s.next_id()),
    ensures
        is_tiled(with_map(t, n), q * height + r + 1, height, settings),
        t.hex_entity_map is None,
{
    let k = q * height + r;
    let len = (2 + k) as nat;
    let e = s.next_id();
    assert(k >= 0) by (nonlinear_arith)
        requires
            q >= 0,
            height > 0,
            r >= 0,
            k == q * height + r,
    ;
    assert(e == len);
    lemma_fundamental_div_mod_converse(k, height, q, r);
    assert(cell_of(k, height) == HexCoord { q: q as i32, r: r as i32 });
    let u = with_map(t, n);
    assert(u.ids =~= Seq::new(len + 1, |i: int| i as usize));
    assert(u.free =~= Seq::<Entity>::empty());
    assert(u.game_state.unwrap() =~= Seq::new(
        len + 1,
        |i: int|
            if i == 0 {
                Some(initial_game_state())
            } else {
                None
            },
    ));
    assert(u.map_settings.unwrap() =~= Seq::new(
        len + 1,
        |i: int|
            if i == 1 {
                Some(settings)
            } else {
                None
            },
    ));
    assert(u.position.unwrap() =~= Seq::new(
        len + 1,
        |i: int|
            if i >= 2 {
                Some(Position { coord: cell_of(i - 2, height) })
            } else {
                None
            },
    ));
    assert(u.terrain.unwrap() =~= Seq::new(
        len + 1,
        |i: int|
            if i >= 2 {
                Some(
                    Terrain {
                        terrain_type: terrain_for(
                            cell_of(i - 2, height).q as int,
                            cell_of(i - 2, height).r as int,
                        ),
                    },
                )
            } else {
                None
            },
    ));
    assert forall|c: HexCoord| 0 <= c.q && 0 <= c.r < height implies (c.q * height + c.r < k + 1 <==> c.q
        * height + c.r < k || c == (HexCoord { q: q as i32, r: r as i32 })) by {
        if c.q * height + c.r == k {
            lemma_fundamental_div_mod_converse(k, height, c.q as int, c.r as int);
        }
    }
    assert(n@ =~= grid(k + 1, height));
}

/// Placing a unit changes the tables of stats, of states and of teams, and
/// nothing else; neither does it change where the tiles are.
proof fn lemma_with_unit_keeps_tiles(s: Store, coord: HexCoord, unit_type: UnitType, team_id: u8)
    requires
        s.wf(),
    ensures
        s.with_unit(coord, unit_type, team_id).wf(),
        without_units(s.with_unit(coord, unit_type, team_id)) == without_units(s),
{
}

/// Placing the units of both sides changes the tables of stats, of states
/// and of teams, and nothing else.
proof fn lemma_seeded_keeps_tiles(s: Store, width: int, height: int)
    requires
        s.wf(),
        without_units(s) == s,
    ensures
        without_units(seeded(s, width, height)) == s,
        seeded(s, width, height) == seeded(without_units(seeded(s, width, height)), width, height),
{
    let s1 = s.with_unit(HexCoord { q: 1, r: 1 }, UnitType::Infantry, 0);
    lemma_with_unit_keeps_tiles(s, HexCoord { q: 1, r: 1 }, UnitType::Infantry, 0);
    let s2 = s1.with_unit(HexCoord { q: 2, r: 2 }, UnitType::Archer, 0);
    lemma_with_unit_keeps_tiles(s1, HexCoord { q: 2, r: 2 }, UnitType::Archer, 0);
    let s3 = s2.with_unit(HexCoord { q: 3, r: 1 }, UnitType::Cavalry, 0);
    lemma_with_unit_keeps_tiles(s2, HexCoord { q: 3, r: 1 }, UnitType::Cavalry, 0);
    let c4 = HexCoord { q: (width - 2) as i32, r: (height - 2) as i32 };
    let s4 = s3.with_unit(c4, UnitType::Infantry, 1);
    lemma_with_unit_keeps_tiles(s3, c4, UnitType::Infantry, 1);
    let c5 = HexCoord { q: (width - 3) as i32, r: (height - 3) as i32 };
    let s5 = s4.with_unit(c5, UnitType::Archer, 1);
    lemma_with_unit_keeps_tiles(s4, c5, UnitType::Archer, 1);
    let c6 = HexCoord { q: (width - 4) as i32, r: (height - 2) as i32 };
    lemma_with_unit_keeps_tiles(s5, c6, UnitType::Cavalry, 1);
}

/// Builds the map and answers questions about the game as a whole.
pub struct HexMapFactory;

impl HexMapFactory {
    /// Fills a fresh store with a game on a map of `width` columns and
    /// `height` rows: the game state, the map settings, one tile per cell,
    /// and three units for each side. The three screen measures are stored
    /// with the map settings as they are given. The game that results is
    /// consistent in every respect that the rules keep.
    pub fn create_map(
        world: &mut World,
        width: i32,
        height: i32,
        hex_size: u32,
        origin_x: u32,
        origin_y: u32,
    )
        requires
            old(world)@ == Store::empty(),
            width >= i32::MIN + 4,
            height >= i32::MIN + 3,
        ensures
            final(world).wf(),
            is_tiled(
                without_units(final(world)@),
                tile_count(width as int, height as int),
                height as int,
                MapSettings { map_width: width, map_height: height, hex_size, origin_x, origin_y },
            ),
            final(world)@ == seeded(without_units(final(world)@), width as int, height as int),
            final(world)@.selection_consistent(),
            final(world)@.units_in_bounds(),
            final(world)@.board_consistent(),
            final(world)@.sides_valid(),
    {
        let settings = MapSettings {
            map_width: width,
            map_height: height,
            hex_size,
            origin_x,
            origin_y,
        };
        let game_state_entity = world.create_entity();
        world.add_component(
            game_state_entity,
            GameState {
                selected_entity: None,
                hover_entity: None,
                current_turn: 0,
                turn_number: 1,
                game_over: false,
                player_won: false,
            },
        );
        let map_settings_entity = world.create_entity();
        world.add_component(map_settings_entity, settings);
        let mut hex_entity_map = HexEntityMap::new();
        proof {
            let u = with_map(world@, hex_entity_map);
            assert(u.ids =~= Seq::new(2, |i: int| i as usize));
            assert(u.game_state.unwrap() =~= Seq::new(
                2,
                |i: int|
                    if i == 0 {
                        Some(initial_game_state())
                    } else {
                        None
                    },
            ));
            assert(u.map_settings.unwrap() =~= Seq::new(
                2,
                |i: int|
                    if i == 1 {
                        Some(settings)
                    } else {
                        None
                    },
            ));
            assert(hex_entity_map@ =~= grid(0, height as int));
        }
        let mut q: i32 = 0;
        while q < width
            invariant
                world.wf(),
                0 <= q,
                q <= width || (width < 0 && q == 0),
                world@.hex_entity_map is None,
                is_tiled(
                    with_map(world@, hex_entity_map),
                    tile_count(q as int, height as int),
                    height as int,
                    settings,
                ),
            decreases width - q,
        {
            let mut r: i32 = 0;
            assert(q * height + 0 == q * height && 0 * height == 0) by (nonlinear_arith);
            while r < height
                invariant
                    world.wf(),
                    0 <= q < width,
                    0 <= r,
                    r <= height || height < 0,
                    world@.hex_entity_map is None,
                    is_tiled(
                        with_map(world@, hex_entity_map),
                        if height > 0 {
                            q * height + r
                        } else {
                            0
                        },
                        height as int,
                        settings,
                    ),
                decreases height - r,
            {
                let coord = HexCoord { q, r };
                let ghost before = world@;
                let ghost map_before = hex_entity_map;
                let entity = world.create_entity();
                world.add_component(entity, Position { coord });
                let terrain_type = match (q as i64 + r as i64) % 4 {
                    0 => TerrainType::Plain,
                    1 => TerrainType::Forest,
                    2 => TerrainType::Mountain,
                    _ => TerrainType::Water,
                };
                world.add_component(entity, Terrain { terrain_type });
                hex_entity_map.insert(coord, entity);
                proof {
                    lemma_lay_tile(
                        before,
                        map_before,
                        world@,
                        hex_entity_map,
                        q as int,
                        r as int,
                        height as int,
                        settings,
                    );
                }
                r += 1;
            }
            proof {
                if height > 0 {
                    assert(q * height + height == (q + 1) * height) by (nonlinear_arith);
                }
            }
            q += 1;
        }
        assert(tile_count(q as int, height as int) == tile_count(width as int, height as int));
        let ghost laid = with_map(world@, hex_entity_map);
        world.add_component(map_settings_entity, hex_entity_map);
        assert(world@ == laid) by {
            assert(world@.hex_entity_map.unwrap() =~= laid.hex_entity_map.unwrap());
        }
        Self::add_player_unit(world, HexCoord { q: 1, r: 1 }, UnitType::Infantry);
        Self::add_player_unit(world, HexCoord { q: 2, r: 2 }, UnitType::Archer);
        Self::add_player_unit(world, HexCoord { q: 3, r: 1 }, UnitType::Cavalry);
        Self::add_enemy_unit(world, HexCoord { q: width - 2, r: height - 2 }, UnitType::Infantry);
        Self::add_enemy_unit(world, HexCoord { q: width - 3, r: height - 3 }, UnitType::Archer);
        Self::add_enemy_unit(world, HexCoord { q: width - 4, r: height - 2 }, UnitType::Cavalry);
        proof {
            lemma_seeded_keeps_tiles(laid, width as int, height as int);
            lemma_tiled_is_consistent(
                laid,
                tile_count(width as int, height as int),
                height as int,
                settings,
            );
            lemma_seeded_keeps(laid, width as int, height as int);
            lemma_same_board(world@, laid);
        }
    }

    /// The stats of a unit of the given kind.
    pub fn unit_stats(unit_type: UnitType) -> (stats: UnitStats)
        ensures
            stats == unit_stats_of(unit_type),
    {
        match unit_type {
            UnitType::Infantry => UnitStats {
                unit_type,
                attack: 3,
                defense: 2,
                movement: 2,
                range: 1,
                max_health: 10,
            },
            UnitType::Archer => UnitStats {
                unit_type,
                attack: 4,
                defense: 1,
                movement: 2,
                range: 2,
                max_health: 8,
            },
            UnitType::Cavalry => UnitStats {
                unit_type,
                attack: 5,
                defense: 1,
                movement: 4,
                range: 1,
                max_health: 12,
            },
        }
    }

    /// Places a fresh unit of side `team_id` on the tile of `coord`. Does
    /// nothing if the map has no such tile.
    pub fn add_unit(world: &mut World, coord: HexCoord, unit_type: UnitType, team_id: u8)
        requires
            old(world).wf(),
        ensures
            final(world).wf(),
            final(world)@ == old(world)@.with_unit(coord, unit_type, team_id),
    {
        let hex_entities = Self::get_hex_entity_map(world);
        if let Some(entity) = hex_entities.get(&coord) {
            let stats = Self::unit_stats(unit_type);
            world.add_component(entity, stats);
            world.add_component(
                entity,
                UnitState {
                    health: stats.max_health,
                    movement_left: stats.movement,
                    has_acted: false,
                },
            );
            world.add_component(entity, Team { team_id });
        }
    }

    /// Places a fresh unit of the player on the tile of `coord`.
    pub fn add_player_unit(world: &mut World, coord: HexCoord, unit_type: UnitType)
        requires
            old(world).wf(),
        ensures
            final(world).wf(),
            final(world)@ == old(world)@.with_unit(coord, unit_type, 0),
    {
        Self::add_unit(world, coord, unit_type, 0);
    }

    /// Places a fresh unit of the enemy on the tile of `coord`.
    pub fn add_enemy_unit(world: &mut World, coord: HexCoord, unit_type: UnitType)
        requires
            old(world).wf(),
        ensures
            final(world).wf(),
            final(world)@ == old(world)@.with_unit(coord, unit_type, 1),
    {
        Self::add_unit(world, coord, unit_type, 1);
    }

    /// A copy of the map from cells to tiles; empty if the store has none.
    pub fn get_hex_entity_map(world: &World) -> (m: HexEntityMap)
        requires
            world.wf(),
        ensures
            m@ == world@.hex_map(),
    {
        if let Some(map_settings_entity) = Self::get_map_settings_entity(world) {
            if let Some(hex_entity_map) = world.get_component::<HexEntityMap>(map_settings_entity) {
                return hex_entity_map.clone();
            }
        }
        HexEntityMap::new()
    }

    /// The entity that carries the game state.
    pub fn get_game_state_entity(world: &World) -> (e: Option<Entity>)
        requires
            world.wf(),
        ensures
            e == world@.game_state_entity(),
            e matches Some(entity) ==> entity < world@.len() && world@.component::<GameState>(
                entity,
            ) is Some,
    {
        proof {
            lemma_first_holder::<GameState>(world@);
        }
        let holders = world.query::<GameState>();
        if holders.len() > 0 {
            Some(holders[0].0)
        } else {
            None
        }
    }

    /// The entity that carries the map settings.
    pub fn get_map_settings_entity(world: &World) -> (e: Option<Entity>)
        requires
            world.wf(),
        ensures
            e == world@.map_settings_entity(),
            e matches Some(entity) ==> entity < world@.len() && world@.component::<MapSettings>(
                entity,
            ) is Some,
    {
        proof {
            lemma_first_holder::<MapSettings>(world@);
        }
        let holders = world.query::<MapSettings>();
        if holders.len() > 0 {
            Some(holders[0].0)
        } else {
            None
        }
    }

    /// Rests the units of side `team_id`: each gets its full movement back
    /// and counts as not having acted. Nothing else changes.
    pub fn reset_team_units_for_new_turn(world: &mut World, team_id: u8)
        requires
            old(world).wf(),
        ensures
            final(world).wf(),
            final(world)@ == old(world)@.team_reset(team_id),
    {
        proof {
            lemma_first_holder::<Team>(world@);
        }
        let mut entity_ids: Vec<Entity> = Vec::new();
        let teams = world.query::<Team>();
        for k in 0..teams.len()
            invariant
                world.wf(),
                teams@.len() == world@.holders::<Team>().len(),
                forall|j: int|
                    0 <= j < teams@.len() ==> (#[trigger] teams@[j]).0 == world@.holders::<Team>()[j]
                        && world@.component::<Team>(teams@[j].0) == Some(*teams@[j].1),
                forall|i: int|
                    0 <= i < entity_ids@.len() ==> (world@.component::<Team>(
                        #[trigger] entity_ids@[i],
                    ) matches Some(t) && t.team_id == team_id),
                forall|j: int|
                    0 <= j < k && teams@[j].1.team_id == team_id ==> entity_ids@.contains(
                        #[trigger] teams@[j].0,
                    ),
        {
            if teams[k].1.team_id == team_id {
                let ghost before = entity_ids@;
                entity_ids.push(teams[k].0);
                assert forall|j: int|
                    0 <= j <= k && teams@[j].1.team_id == team_id implies entity_ids@.contains(
                    #[trigger] teams@[j].0,
                ) by {
                    if j < k {
                        let i = choose|i: int| 0 <= i < before.len() && before[i] == teams@[j].0;
                        assert(entity_ids@[i] == teams@[j].0);
                    } else {
                        assert(entity_ids@[before.len() as int] == teams@[j].0);
                    }
                }
            }
        }
        assert forall|e: Entity|
            (world@.component::<Team>(e) matches Some(t) && t.team_id == team_id)
                implies entity_ids@.contains(e) by {
            let j = choose|j: int|
                0 <= j < world@.holders::<Team>().len() && world@.holders::<Team>()[j] == e;
            assert(teams@[j].0 == e);
        }
        let ghost start = world@;
        let ghost ids = entity_ids@;
        for k in 0..entity_ids.len()
            invariant
                start == old(world)@,
                start.wf(),
                ids == entity_ids@,
                world.wf(),
                forall|i: int|
                    0 <= i < ids.len() ==> (start.component::<Team>(#[trigger] ids[i]) matches Some(
                        t,
                    ) && t.team_id == team_id),
                world@ == (Store { unit_state: world@.unit_state, ..start }),
                start.unit_state is None ==> world@.unit_state is None,
                start.unit_state matches Some(c) ==> world@.unit_state == Some(
                    Seq::new(
                        c.len(),
                        |i: int|
                            if ids.take(k as int).contains(i as usize) {
                                start.rested_slot(team_id, i as usize)
                            } else {
                                c[i]
                            },
                    ),
                ),
        {
            let entity = entity_ids[k];
            let ghost before = world@;
            assert(ids.take(k + 1) =~= ids.take(k as int).push(entity));
            assert(forall|e: Entity|
                ids.take(k + 1).contains(e) <==> ids.take(k as int).contains(e) || e == entity) by {
                assert forall|e: Entity| ids.take(k as int).contains(e) || e == entity implies ids.take(
                    k + 1,
                ).contains(e) by {
                    if e == entity {
                        assert(ids.take(k + 1)[k as int] == e);
                    } else {
                        let i = choose|i: int| 0 <= i < k && ids.take(k as int)[i] == e;
                        assert(ids.take(k + 1)[i] == e);
                    }
                }
            }
            let stats = world.get_component::<UnitStats>(entity);
            if let Some(unit_stats) = stats {
                let movement = unit_stats.movement;
                if let Some(unit_state) = world.get_component_mut::<UnitState>(entity) {
                    unit_state.movement_left = movement;
                    unit_state.has_acted = false;
                }
            }
            proof {
                if start.unit_state is Some {
                    let c = start.unit_state.unwrap();
                    assert(world@.unit_state.unwrap() =~= Seq::new(
                        c.len(),
                        |i: int|
                            if ids.take(k + 1).contains(i as usize) {
                                start.rested_slot(team_id, i as usize)
                            } else {
                                c[i]
                            },
                    ));
                }
            }
        }
        proof {
            assert(ids.take(ids.len() as int) =~= ids);
            if start.unit_state is Some {
                assert(world@.unit_state.unwrap() =~= start.team_reset(team_id).unit_state.unwrap());
            }
        }
    }

    /// Number of living units of side `team_id`.
    pub fn count_units(world: &World, team_id: u8) -> (count: usize)
        requires
            world.wf(),
        ensures
            count == world@.living_units(team_id, world@.len()),
    {
        let mut count: usize = 0;
        let n = world.len();
        for entity in 0..n
            invariant
                world.wf(),
                n == world@.len(),
                count <= entity,
                count == world@.living_units(team_id, entity as nat),
        {
            let of_side = match world.get_component::<Team>(entity) {
                Some(team) => team.team_id == team_id,
                None => false,
            };
            if of_side {
                if let Some(unit_state) = world.get_component::<UnitState>(entity) {
                    if unit_state.health > 0 {
                        count += 1;
                    }
                }
            }
        }
        count
    }

    /// Whether the game is over, and whether the player has won it.
    pub fn check_game_over(world: &World) -> (r: (bool, bool))
        requires
            world.wf(),
        ensures
            r == world@.game_over(),
    {
        proof {
            lemma_first_holder::<Team>(world@);
        }
        let mut player_units: usize = 0;
        let mut enemy_units: usize = 0;
        let teams = world.query::<Team>();
        for k in 0..teams.len()
            invariant
                world.wf(),
                teams@.len() == world@.holders::<Team>().len(),
                forall|j: int|
                    0 <= j < teams@.len() ==> (#[trigger] teams@[j]).0 == world@.holders::<Team>()[j]
                        && world@.component::<Team>(teams@[j].0) == Some(*teams@[j].1),
                player_units <= k,
                enemy_units <= k,
                player_units > 0 <==> exists|j: int|
                    0 <= j < k && world@.alive(#[trigger] teams@[j].0) && teams@[j].1.team_id == 0,
                enemy_units > 0 <==> exists|j: int|
                    0 <= j < k && world@.alive(#[trigger] teams@[j].0) && teams@[j].1.team_id != 0,
        {
            let (entity, team) = teams[k];
            if let Some(unit_state) = world.get_component::<UnitState>(entity) {
                if unit_state.health > 0 {
                    if team.team_id == 0 {
                        player_units += 1;
                    } else {
                        enemy_units += 1;
                    }
                }
            }
        }
        proof {
            let s = world@;
            assert forall|e: Entity| #[trigger] s.alive(e) implies exists|j: int|
                0 <= j < teams@.len() && teams@[j].0 == e by {
                let j = choose|j: int| 0 <= j < s.holders::<Team>().len() && s.holders::<Team>()[j] == e;
                assert(teams@[j].0 == e);
            }
            if s.player_alive() {
                let e = choose|e: Entity| #[trigger] s.alive(e) && s.component::<Team>(e).unwrap().team_id == 0;
                let j = choose|j: int| 0 <= j < teams@.len() && teams@[j].0 == e;
                assert(s.alive(teams@[j].0) && teams@[j].1.team_id == 0);
            }
            if s.enemy_alive() {
                let e = choose|e: Entity| #[trigger] s.alive(e) && s.component::<Team>(e).unwrap().team_id != 0;
                let j = choose|j: int| 0 <= j < teams@.len() && teams@[j].0 == e;
                assert(s.alive(teams@[j].0) && teams@[j].1.team_id != 0);
            }
        }
        if player_units == 0 {
            (true, false)
        } else if enemy_units == 0 {
            (true, true)
        } else {
            (false, false)
        }
    }
}

} // verus!

//! Axial hex coordinates and the components that live on the hex map.

use vstd::prelude::*;
use vstd::relations::injective_on;
use vstd::set_lib::lemma_map_size;
use vstd::std_specs::iter::IteratorSpec;
use std::collections::HashMap;
use std::collections::HashSet;
use crate::e::entity::Entity;

verus! {

/// Kind of a unit.
#[derive(Debug, Clone, Copy, PartialEq, Eq, Structural)]
pub enum UnitType {
    Infantry,
    Archer,
    Cavalry,
}

/// A cell of the hexagonal grid in axial coordinates.
#[derive(Debug, Clone, Copy, PartialEq, Eq, Hash, Structural)]
pub struct HexCoord {
    /// Column.
    pub q: i32,
    /// Row.
    pub r: i32,
}

/// Absolute value of a mathematical integer.
pub open spec fn abs(x: int) -> int {
    if x < 0 {
        -x
    } else {
        x
    }
}

/// Offset, in (q, r), of the neighbour in direction `d`. The six directions
/// are numbered 0 to 5, counter-clockwise from east.
pub open spec fn direction(d: int) -> (int, int) {
    if d == 0 {
        (1, 0)
    } else if d == 1 {
        (1, -1)
    } else if d == 2 {
        (0, -1)
    } else if d == 3 {
        (-1, 0)
    } else if d == 4 {
        (-1, 1)
    } else {
        (0, 1)
    }
}

/// Number of steps between two cells: half the sum of the absolute
/// differences of the three cube coordinates.
pub open spec fn hex_distance(a: HexCoord, b: HexCoord) -> int {
    (abs(a.q - b.q) + abs(a.r - b.r) + abs(a.cube_s() - b.cube_s())) / 2
}

/// `b` lies one step from `a`, in direction `d`.
pub open spec fn neighbor_in(a: HexCoord, d: int, b: HexCoord) -> bool {
    b.q == a.q + direction(d).0 && b.r == a.r + direction(d).1
}

/// `b` is one of the six neighbours of `a`.
pub open spec fn adjacent(a: HexCoord, b: HexCoord) -> bool {
    exists|d: int| 0 <= d < 6 && #[trigger] neighbor_in(a, d, b)
}

impl HexCoord {
    /// Third cube coordinate, as a mathematical integer.
    pub open spec fn cube_s(self) -> int {
        -self.q - self.r
    }

    /// The key under which hash collections file this cell: the two
    /// coordinates, each shifted to be non-negative, side by side.
    pub open spec fn spec_key(self) -> u64 {
        ((self.q + 0x8000_0000) * 0x1_0000_0000 + (self.r + 0x8000_0000)) as u64
    }

    /// The cell that `spec_key` files under `k`.
    pub open spec fn spec_from_key(k: u64) -> HexCoord {
        HexCoord {
            q: (k as int / 0x1_0000_0000 - 0x8000_0000) as i32,
            r: (k as int % 0x1_0000_0000 - 0x8000_0000) as i32,
        }
    }

    /// Every neighbour of this cell has coordinates that fit in `i32`.
    pub open spec fn interior(self) -> bool {
        i32::MIN < self.q < i32::MAX && i32::MIN < self.r < i32::MAX
    }

    /// The cell in column `q` and row `r`.
    pub fn new(q: i32, r: i32) -> (c: Self)
        ensures
            c == (HexCoord { q, r }),
    {
        Self { q, r }
    }

    /// Third cube coordinate.
    pub fn s(&self) -> (s: i32)
        requires
            i32::MIN <= self.cube_s() <= i32::MAX,
        ensures
            s == self.cube_s(),
    {
        (-(self.q as i64) - self.r as i64) as i32
    }

    /// Cube coordinates (x, y, z), which sum to zero.
    pub fn to_cube(&self) -> (c: (i32, i32, i32))
        requires
            i32::MIN <= self.cube_s() <= i32::MAX,
        ensures
            c == (self.q, self.r, self.cube_s() as i32),
            c.0 + c.1 + c.2 == 0,
    {
        (self.q, self.r, self.s())
    }

    /// The neighbour in direction `d`, unless its coordinates leave `i32`.
    pub fn neighbor(&self, d: usize) -> (n: Option<HexCoord>)
        requires
            d < 6,
        ensures
            match n {
                Some(b) => neighbor_in(*self, d as int, b),
                None => !(i32::MIN <= self.q + direction(d as int).0 <= i32::MAX && i32::MIN
                    <= self.r + direction(d as int).1 <= i32::MAX),
            },
    {
        let (dq, dr): (i64, i64) = if d == 0 {
            (1, 0)
        } else if d == 1 {
            (1, -1)
        } else if d == 2 {
            (0, -1)
        } else if d == 3 {
            (-1, 0)
        } else if d == 4 {
            (-1, 1)
        } else {
            (0, 1)
        };
        let q: i64 = self.q as i64 + dq;
        let r: i64 = self.r as i64 + dr;
        if q < i32::MIN as i64 || q > i32::MAX as i64 || r < i32::MIN as i64 || r > i32::MAX as i64 {
            None
        } else {
            Some(HexCoord { q: q as i32, r: r as i32 })
        }
    }

    /// The six neighbours, counter-clockwise from east.
    pub fn neighbors(&self) -> (n: [HexCoord; 6])
        requires
            self.interior(),
        ensures
            forall|d: int| 0 <= d < 6 ==> neighbor_in(*self, d, #[trigger] n[d]),
    {
        [
            HexCoord::new(self.q + 1, self.r),
            HexCoord::new(self.q + 1, self.r - 1),
            HexCoord::new(self.q, self.r - 1),
            HexCoord::new(self.q - 1, self.r),
            HexCoord::new(self.q - 1, self.r + 1),
            HexCoord::new(self.q, self.r + 1),
        ]
    }

    /// Number of steps to `other`, for any two cells.
    pub fn distance_wide(&self, other: &HexCoord) -> (d: i64)
        ensures
            d == hex_distance(*self, *other),
    {
        let dq: i64 = self.q as i64 - other.q as i64;
        let dr: i64 = self.r as i64 - other.r as i64;
        let ds: i64 = -dq - dr;
        let aq: i64 = if dq < 0 { -dq } else { dq };
        let ar: i64 = if dr < 0 { -dr } else { dr };
        let az: i64 = if ds < 0 { -ds } else { ds };
        (aq + ar + az) / 2
    }

    /// Number of steps to `other`.
    pub fn distance(&self, other: &HexCoord) -> (d: i32)
        requires
            hex_distance(*self, *other) <= i32::MAX,
        ensures
            d == hex_distance(*self, *other),
    {
        self.distance_wide(other) as i32
    }

    /// The key under which hash collections file this cell.
    pub fn key(&self) -> (k: u64)
        ensures
            k == self.spec_key(),
            HexCoord::spec_from_key(k) == *self,
    {
        let hi: u64 = (self.q as i64 + 0x8000_0000i64) as u64;
        let lo: u64 = (self.r as i64 + 0x8000_0000i64) as u64;
        hi * 0x1_0000_0000u64 + lo
    }

    /// The cell filed under `k`.
    pub fn from_key(k: u64) -> (c: HexCoord)
        ensures
            c == HexCoord::spec_from_key(k),
            c.spec_key() == k,
    {
        let hi: i64 = (k / 0x1_0000_0000u64) as i64;
        let lo: i64 = (k % 0x1_0000_0000u64) as i64;
        HexCoord { q: (hi - 0x8000_0000i64) as i32, r: (lo - 0x8000_0000i64) as i32 }
    }

    /// Keys and cells correspond one to one.
    pub proof fn lemma_key_bijective(a: HexCoord, b: HexCoord, k: u64)
        ensures
            HexCoord::spec_from_key(a.spec_key()) == a,
            HexCoord::spec_from_key(k).spec_key() == k,
            a.spec_key() == b.spec_key() ==> a == b,
    {
        if a.spec_key() == b.spec_key() {
            assert(HexCoord::spec_from_key(a.spec_key()) == a);
            assert(HexCoord::spec_from_key(b.spec_key()) == b);
        }
    }
}

/// Distance is symmetric, never negative, and zero from a cell to itself.
pub proof fn lemma_distance_symmetric(a: HexCoord, b: HexCoord)
    ensures
        hex_distance(a, b) == hex_distance(b, a),
        hex_distance(a, b) >= 0,
        hex_distance(a, a) == 0,
{
}

/// Distance is zero only from a cell to itself, and one exactly between
/// neighbours.
pub proof fn lemma_distance_small(a: HexCoord, b: HexCoord)
    ensures
        hex_distance(a, b) == 0 <==> a == b,
        hex_distance(a, b) == 1 <==> adjacent(a, b),
{
    if hex_distance(a, b) == 1 {
        let dq = b.q - a.q;
        let dr = b.r - a.r;
        if dq == 1 && dr == 0 {
            assert(neighbor_in(a, 0, b));
        } else if dq == 1 && dr == -1 {
            assert(neighbor_in(a, 1, b));
        } else if dq == 0 && dr == -1 {
            assert(neighbor_in(a, 2, b));
        } else if dq == -1 && dr == 0 {
            assert(neighbor_in(a, 3, b));
        } else if dq == -1 && dr == 1 {
            assert(neighbor_in(a, 4, b));
        } else {
            assert(neighbor_in(a, 5, b));
        }
    }
}

/// `egui::Color32`, a colour of four channels of one byte each. Nothing of
/// it is known but what `channels` names.
#[verifier::external_type_specification]
#[verifier::external_body]
pub struct ExColor32(egui::Color32);

/// What a colour holds: its four channels, red, green, blue and alpha, in
/// this order.
pub uninterp spec fn channels(c: egui::Color32) -> Seq<u8>;

/// `egui::Color32::from_rgb`: the opaque colour with the given red, green
/// and blue; its alpha is 255.
#[verifier::external_body]
fn color_from_rgb(r: u8, g: u8, b: u8) -> (c: egui::Color32)
    ensures
        channels(c) == seq![r, g, b, 255u8],
{
    egui::Color32::from_rgb(r, g, b)
}

/// Kind of ground on a tile.
#[derive(Debug, Clone, Copy, PartialEq, Eq, Structural)]
pub enum TerrainType {
    Plain,
    Forest,
    Mountain,
    Water,
}

impl TerrainType {
    /// Movement points that entering a tile of this terrain costs.
    pub open spec fn cost(self) -> int {
        match self {
            TerrainType::Plain => 1,
            TerrainType::Forest => 2,
            TerrainType::Mountain => 3,
            TerrainType::Water => 5,
        }
    }

    /// Red, green and blue of the colour in which the terrain is drawn.
    pub open spec fn rgb(self) -> (u8, u8, u8) {
        match self {
            TerrainType::Plain => (124, 252, 0),
            TerrainType::Forest => (34, 139, 34),
            TerrainType::Mountain => (128, 128, 128),
            TerrainType::Water => (65, 105, 225),
        }
    }

    /// English name of the terrain.
    pub open spec fn spec_name(self) -> Seq<char> {
        match self {
            TerrainType::Plain => "Plain"@,
            TerrainType::Forest => "Forest"@,
            TerrainType::Mountain => "Mountain"@,
            TerrainType::Water => "Water"@,
        }
    }

    /// The colour in which the terrain is drawn: light green, forest
    /// green, grey, royal blue.
    pub fn color(&self) -> (c: egui::Color32)
        ensures
            channels(c) == seq![self.rgb().0, self.rgb().1, self.rgb().2, 255u8],
    {
        match self {
            TerrainType::Plain => color_from_rgb(124, 252, 0),
            TerrainType::Forest => color_from_rgb(34, 139, 34),
            TerrainType::Mountain => color_from_rgb(128, 128, 128),
            TerrainType::Water => color_from_rgb(65, 105, 225),
        }
    }

    /// Movement points that entering a tile of this terrain costs.
    pub fn movement_cost(&self) -> (c: i32)
        ensures
            c == self.cost(),
            c >= 1,
    {
        match self {
            TerrainType::Plain => 1,
            TerrainType::Forest => 2,
            TerrainType::Mountain => 3,
            TerrainType::Water => 5,
        }
    }

    /// English name of the terrain.
    pub fn name(&self) -> (n: &'static str)
        ensures
            n@ == self.spec_name(),
    {
        match self {
            TerrainType::Plain => "Plain",
            TerrainType::Forest => "Forest",
            TerrainType::Mountain => "Mountain",
            TerrainType::Water => "Water",
        }
    }
}

/// The cell that a tile occupies.
#[derive(Clone, Copy, Debug)]
pub struct Position {
    pub coord: HexCoord,
}

/// The ground of a tile.
#[derive(Clone, Copy, Debug)]
pub struct Terrain {
    pub terrain_type: TerrainType,
}

/// What a unit is and can do; fixed for the whole game.
#[derive(Clone, Copy, Debug)]
pub struct UnitStats {
    pub unit_type: UnitType,
    pub max_health: i32,
    pub attack: i32,
    pub defense: i32,
    pub movement: i32,
    pub range: i32,
}

/// What changes about a unit during the game.
#[derive(Clone, Copy, Debug)]
pub struct UnitState {
    pub health: i32,
    pub movement_left: i32,
    pub has_acted: bool,
}

/// A sequence of cells that lists, place by place, the cells filed under a
/// duplicate-free sequence of keys holds exactly the cells whose keys are
/// listed, each once.
proof fn lemma_cells_of_keys(cells: Seq<HexCoord>, keys: Seq<u64>)
    requires
        cells.len() == keys.len(),
        keys.no_duplicates(),
        forall|i: int| 0 <= i < cells.len() ==> (#[trigger] cells[i]).spec_key() == keys[i],
    ensures
        cells.no_duplicates(),
        forall|c: HexCoord| cells.contains(c) <==> keys.to_set().contains(c.spec_key()),
{
    assert forall|c: HexCoord| keys.to_set().contains(c.spec_key()) implies cells.contains(c) by {
        let i = choose|i: int| 0 <= i < keys.len() && keys[i] == c.spec_key();
        HexCoord::lemma_key_bijective(cells[i], c, 0);
    }
}

/// The cells filed under a finite set of keys are as many as the keys.
proof fn lemma_cells_count(keys: Set<u64>)
    requires
        keys.finite(),
    ensures
        Set::new(|c: HexCoord| keys.contains(c.spec_key())).finite(),
        Set::new(|c: HexCoord| keys.contains(c.spec_key())).len() == keys.len(),
{
    let cell = |k: u64| HexCoord::spec_from_key(k);
    let cells = Set::new(|c: HexCoord| keys.contains(c.spec_key()));
    assert(injective_on(cell, keys)) by {
        assert forall|j: u64, k: u64|
            keys.contains(j) && keys.contains(k) && #[trigger] cell(j) == #[trigger] cell(k) implies j
            == k by {
            HexCoord::lemma_key_bijective(cell(j), cell(k), j);
            HexCoord::lemma_key_bijective(cell(j), cell(k), k);
        }
    }
    assert(keys.map(cell) =~= cells) by {
        assert forall|c: HexCoord| cells.contains(c) implies keys.map(cell).contains(c) by {
            HexCoord::lemma_key_bijective(c, c, 0);
            assert(keys.contains(c.spec_key()) && cell(c.spec_key()) == c);
        }
        assert forall|c: HexCoord| keys.map(cell).contains(c) implies cells.contains(c) by {
            let k = choose|k: u64| keys.contains(k) && c == cell(k);
            HexCoord::lemma_key_bijective(c, c, k);
        }
    }
    lemma_map_size(keys, cells, cell);
}

/// The tile entity of each cell of the map. Cells are filed under their
/// keys.
#[derive(Debug)]
pub struct HexEntityMap {
    pub map: HashMap<u64, Entity>,
}

impl View for HexEntityMap {
    type V = Map<HexCoord, Entity>;

    open spec fn view(&self) -> Map<HexCoord, Entity> {
        Map::new(
            |c: HexCoord| self.map@.contains_key(c.spec_key()),
            |c: HexCoord| self.map@[c.spec_key()],
        )
    }
}

impl Clone for HexEntityMap {
    fn clone(&self) -> (m: Self)
        ensures
            m@ == self@,
            m.map@ == self.map@,
    {
        HexEntityMap { map: self.map.clone() }
    }
}

impl HexEntityMap {
    /// A map without cells.
    pub fn new() -> (m: Self)
        ensures
            m@ == Map::<HexCoord, Entity>::empty(),
    {
        let m = HexEntityMap { map: HashMap::new() };
        assert(m@ =~= Map::<HexCoord, Entity>::empty());
        m
    }

    /// Files `entity` as the tile of `coord`, in place of any earlier one.
    pub fn insert(&mut self, coord: HexCoord, entity: Entity)
        ensures
            final(self)@ == old(self)@.insert(coord, entity),
    {
        broadcast use vstd::std_specs::hash::group_hash_axioms;

        self.map.insert(coord.key(), entity);
        assert forall|c: HexCoord| c.spec_key() == coord.spec_key() implies c == coord by {
            HexCoord::lemma_key_bijective(c, coord, 0);
        }
        assert(self@ =~= old(self)@.insert(coord, entity));
    }

    /// The tile of `coord`, if the map has one.
    pub fn get(&self, coord: &HexCoord) -> (e: Option<Entity>)
        ensures
            e == (if self@.contains_key(*coord) {
                Some(self@[*coord])
            } else {
                None
            }),
    {
        broadcast use vstd::std_specs::hash::group_hash_axioms;

        match self.map.get(&coord.key()) {
            Some(e) => Some(*e),
            None => None,
        }
    }

    /// Number of cells.
    pub fn len(&self) -> (n: usize)
        ensures
            self@.dom().finite(),
            n == self@.len(),
    {
        broadcast use vstd::std_specs::hash::group_hash_axioms;

        proof {
            lemma_cells_count(self.map@.dom());
            assert(self@.dom() =~= Set::new(|c: HexCoord| self.map@.dom().contains(c.spec_key())));
        }
        self.map.len()
    }

    /// The cells of the map, each once, in no particular order.
    pub fn coords(&self) -> (v: Vec<HexCoord>)
        ensures
            v@.no_duplicates(),
            forall|c: HexCoord| v@.contains(c) <==> self@.contains_key(c),
    {
        broadcast use vstd::std_specs::hash::group_hash_axioms;

        let mut v: Vec<HexCoord> = Vec::new();
        let ghost keys = self.map.keys().remaining().unref();
        for k in it: self.map.keys()
            invariant
                it.seq().unref() == keys,
                v@.len() == it.index(),
                forall|i: int| 0 <= i < v@.len() ==> (#[trigger] v@[i]).spec_key() == keys[i],
        {
            v.push(HexCoord::from_key(*k));
        }
        proof {
            lemma_cells_of_keys(v@, keys);
        }
        v
    }
}

/// A set of cells, filed under their keys.
#[derive(Debug)]
pub struct HexSet {
    pub set: HashSet<u64>,
}

impl View for HexSet {
    type V = Set<HexCoord>;

    open spec fn view(&self) -> Set<HexCoord> {
        Set::new(|c: HexCoord| self.set@.contains(c.spec_key()))
    }
}

impl HexSet {
    /// The empty set.
    pub fn new() -> (s: Self)
        ensures
            s@ == Set::<HexCoord>::empty(),
    {
        let s = HexSet { set: HashSet::new() };
        assert(s@ =~= Set::<HexCoord>::empty());
        s
    }

    /// Adds `coord` to the set.
    pub fn insert(&mut self, coord: HexCoord)
        ensures
            final(self)@ == old(self)@.insert(coord),
    {
        broadcast use vstd::std_specs::hash::group_hash_axioms;

        self.set.insert(coord.key());
        assert forall|c: HexCoord| c.spec_key() == coord.spec_key() implies c == coord by {
            HexCoord::lemma_key_bijective(c, coord, 0);
        }
        assert(self@ =~= old(self)@.insert(coord));
    }

    /// Whether `coord` is in the set.
    pub fn contains(&self, coord: &HexCoord) -> (b: bool)
        ensures
            b == self@.contains(*coord),
    {
        broadcast use vstd::std_specs::hash::group_hash_axioms;

        self.set.contains(&coord.key())
    }

    /// Number of cells in the set.
    pub fn len(&self) -> (n: usize)
        ensures
            self@.finite(),
            n == self@.len(),
    {
        broadcast use vstd::std_specs::hash::group_hash_axioms;

        proof {
            let keys = self.set.iter().remaining().unref();
            vstd::seq_lib::seq_to_set_is_finite(keys);
            assert(keys.to_set() == self.set@);
            lemma_cells_count(self.set@);
        }
        self.set.len()
    }

    /// The cells of the set, each once, in no particular order.
    pub fn coords(&self) -> (v: Vec<HexCoord>)
        ensures
            v@.no_duplicates(),
            forall|c: HexCoord| v@.contains(c) <==> self@.contains(c),
    {
        broadcast use vstd::std_specs::hash::group_hash_axioms;

        let mut v: Vec<HexCoord> = Vec::new();
        let ghost keys = self.set.iter().remaining().unref();
        for k in it: self.set.iter()
            invariant
                it.seq().unref() == keys,
                v@.len() == it.index(),
                forall|i: int| 0 <= i < v@.len() ==> (#[trigger] v@[i]).spec_key() == keys[i],
        {
            v.push(HexCoord::from_key(*k));
        }
        proof {
            lemma_cells_of_keys(v@, keys);
        }
        v
    }
}

} // verus!

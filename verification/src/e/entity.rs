//! The entity store: entities are indices, and every kind of component has
//! a table with one slot per index.

use vstd::prelude::*;
use crate::c::game::{
    GameState, Hovering, InAttackRange, InMovementRange, MapSettings, Selected, Team,
};
use crate::c::hex::{HexEntityMap, Position, Terrain, UnitStats, UnitState};

verus! {

/// Names one row across all component tables.
pub type Entity = usize;

/// The table of one kind of component as the contracts see it: absent until
/// the first component of that kind is added, then one slot per entity.
pub type Column<T> = Option<Seq<Option<T>>>;

/// What a table holds, as a column.
pub open spec fn column_view<T>(t: Option<Vec<Option<T>>>) -> Column<T> {
    match t {
        Some(v) => Some(v@),
        None => None,
    }
}

/// The column is absent or has `n` slots.
pub open spec fn column_fits<T>(c: Column<T>, n: nat) -> bool {
    c matches Some(s) ==> s.len() == n
}

/// The column with one more slot, empty.
pub open spec fn column_grown<T>(c: Column<T>) -> Column<T> {
    match c {
        Some(s) => Some(s.push(None)),
        None => None,
    }
}

/// The column with slot `e` emptied.
pub open spec fn column_cleared<T>(c: Column<T>, e: int) -> Column<T> {
    match c {
        Some(s) => Some(s.update(e, None)),
        None => None,
    }
}

/// The column, or `n` empty slots where it is absent.
pub open spec fn column_or_empty<T>(c: Column<T>, n: nat) -> Seq<Option<T>> {
    match c {
        Some(s) => s,
        None => Seq::new(n, |i: int| None),
    }
}

/// The column of `n` slots with `v` in slot `e`; an absent column is made
/// first, with every slot empty.
pub open spec fn column_set<T>(c: Column<T>, n: nat, e: int, v: T) -> Column<T> {
    Some(column_or_empty(c, n).update(e, Some(v)))
}

/// What slot `e` of the column holds.
pub open spec fn column_at<T>(c: Column<T>, e: int) -> Option<T> {
    match c {
        Some(s) => if 0 <= e < s.len() {
            s[e]
        } else {
            None
        },
        None => None,
    }
}

/// The column has nothing in the slots of the indices in `free`.
pub open spec fn column_spares<T>(c: Column<T>, free: Seq<Entity>) -> bool {
    forall|i: int| 0 <= i < free.len() ==> column_at(c, (#[trigger] free[i]) as int) is None
}

/// The indices of the filled slots, ascending.
pub open spec fn filled<T>(s: Seq<Option<T>>) -> Seq<Entity>
    decreases s.len(),
{
    if s.len() == 0 {
        Seq::empty()
    } else if s.last() is Some {
        filled(s.drop_last()).push((s.len() - 1) as usize)
    } else {
        filled(s.drop_last())
    }
}

/// The entities that have a component in the column, ascending.
pub open spec fn column_holders<T>(c: Column<T>) -> Seq<Entity> {
    match c {
        Some(s) => filled(s),
        None => Seq::empty(),
    }
}

/// `filled` lists exactly the indices of the filled slots, in strictly
/// ascending order.
pub proof fn lemma_filled<T>(s: Seq<Option<T>>)
    requires
        s.len() <= usize::MAX,
    ensures
        filled(s).len() <= s.len(),
        forall|k: int| 0 <= k < filled(s).len() ==> (#[trigger] filled(s)[k]) < s.len() && s[filled(s)[k] as int] is Some,
        forall|j: int, k: int| 0 <= j < k < filled(s).len() ==> filled(s)[j] < filled(s)[k],
        forall|i: int| 0 <= i < s.len() && (#[trigger] s[i]) is Some ==> filled(s).contains(i as usize),
    decreases s.len(),
{
    if s.len() > 0 {
        let t = s.drop_last();
        lemma_filled(t);
        let last = (s.len() - 1) as usize;
        assert forall|i: int| 0 <= i < s.len() && (#[trigger] s[i]) is Some implies filled(s).contains(i as usize) by {
            if i < t.len() {
                assert(t[i] is Some);
                let k = choose|k: int| 0 <= k < filled(t).len() && filled(t)[k] == i as usize;
                assert(filled(s)[k] == i as usize);
            } else {
                assert(filled(s)[filled(t).len() as int] == last);
            }
        }
    }
}

/// The first filled slot has the least index among the filled slots, and
/// there is one as soon as any slot is filled.
pub proof fn lemma_filled_first<T>(s: Seq<Option<T>>, i: int)
    requires
        s.len() <= usize::MAX,
        0 <= i < s.len(),
        s[i] is Some,
    ensures
        filled(s).len() > 0,
        filled(s)[0] <= i,
        s[filled(s)[0] as int] is Some,
{
    lemma_filled(s);
    let k = choose|k: int| 0 <= k < filled(s).len() && filled(s)[k] == i as usize;
    if k > 0 {
        assert(filled(s)[0] < filled(s)[k]);
    }
}

/// The store as the contracts see it: the entity list, the free list, and
/// one column for each kind of component.
pub ghost struct Store {
    /// One entry per allocated index: the index itself, or 0 once deleted.
    pub ids: Seq<Entity>,
    /// The index that the next fresh entity gets.
    pub next: Entity,
    /// Deleted indices, the one to be used again first at the end.
    pub free: Seq<Entity>,
    pub selected: Column<Selected>,
    pub hovering: Column<Hovering>,
    pub in_movement_range: Column<InMovementRange>,
    pub in_attack_range: Column<InAttackRange>,
    pub team: Column<Team>,
    pub game_state: Column<GameState>,
    pub map_settings: Column<MapSettings>,
    pub position: Column<Position>,
    pub terrain: Column<Terrain>,
    pub unit_stats: Column<UnitStats>,
    pub unit_state: Column<UnitState>,
    pub hex_entity_map: Column<HexEntityMap>,
}

impl Store {
    /// Number of allocated indices, deleted ones included.
    pub open spec fn len(self) -> nat {
        self.ids.len()
    }

    /// The store without entities or tables.
    pub open spec fn empty() -> Store {
        Store {
            ids: Seq::empty(),
            next: 0,
            free: Seq::empty(),
            selected: None,
            hovering: None,
            in_movement_range: None,
            in_attack_range: None,
            team: None,
            game_state: None,
            map_settings: None,
            position: None,
            terrain: None,
            unit_stats: None,
            unit_state: None,
            hex_entity_map: None,
        }
    }

    /// Every table has one slot per allocated index; every free index is
    /// allocated, stands once on the free list and has nothing in any table;
    /// and the entity list holds each index or 0.
    pub open spec fn wf(self) -> bool {
        &&& self.next == self.ids.len()
        &&& self.ids.len() <= usize::MAX
        &&& forall|i: int| 0 <= i < self.ids.len() ==> self.ids[i] == i || #[trigger] self.ids[i] == 0
        &&& forall|i: int| 0 <= i < self.free.len() ==> (#[trigger] self.free[i]) < self.ids.len()
        &&& self.free.no_duplicates()
        &&& column_fits(self.selected, self.ids.len())
        &&& column_fits(self.hovering, self.ids.len())
        &&& column_fits(self.in_movement_range, self.ids.len())
        &&& column_fits(self.in_attack_range, self.ids.len())
        &&& column_fits(self.team, self.ids.len())
        &&& column_fits(self.game_state, self.ids.len())
        &&& column_fits(self.map_settings, self.ids.len())
        &&& column_fits(self.position, self.ids.len())
        &&& column_fits(self.terrain, self.ids.len())
        &&& column_fits(self.unit_stats, self.ids.len())
        &&& column_fits(self.unit_state, self.ids.len())
        &&& column_fits(self.hex_entity_map, self.ids.len())
        &&& column_spares(self.selected, self.free)
        &&& column_spares(self.hovering, self.free)
        &&& column_spares(self.in_movement_range, self.free)
        &&& column_spares(self.in_attack_range, self.free)
        &&& column_spares(self.team, self.free)
        &&& column_spares(self.game_state, self.free)
        &&& column_spares(self.map_settings, self.free)
        &&& column_spares(self.position, self.free)
        &&& column_spares(self.terrain, self.free)
        &&& column_spares(self.unit_stats, self.free)
        &&& column_spares(self.unit_state, self.free)
        &&& column_spares(self.hex_entity_map, self.free)
    }

    /// Entity `e` is valid: its index is allocated and not free.
    pub open spec fn live(self, e: Entity) -> bool {
        e < self.len() && !self.free.contains(e)
    }

    /// Entity `e` has no component of any kind.
    pub open spec fn bare(self, e: Entity) -> bool {
        &&& column_at(self.selected, e as int) is None
        &&& column_at(self.hovering, e as int) is None
        &&& column_at(self.in_movement_range, e as int) is None
        &&& column_at(self.in_attack_range, e as int) is None
        &&& column_at(self.team, e as int) is None
        &&& column_at(self.game_state, e as int) is None
        &&& column_at(self.map_settings, e as int) is None
        &&& column_at(self.position, e as int) is None
        &&& column_at(self.terrain, e as int) is None
        &&& column_at(self.unit_stats, e as int) is None
        &&& column_at(self.unit_state, e as int) is None
        &&& column_at(self.hex_entity_map, e as int) is None
    }

    /// The column of components of kind `T`.
    pub open spec fn column<T: Component>(self) -> Column<T> {
        T::column(self)
    }

    /// The component of kind `T` that entity `e` has.
    pub open spec fn component<T: Component>(self, e: Entity) -> Option<T> {
        if e < self.len() {
            column_at(T::column(self), e as int)
        } else {
            None
        }
    }

    /// The entities that have a component of kind `T`, ascending.
    pub open spec fn holders<T: Component>(self) -> Seq<Entity> {
        column_holders(T::column(self))
    }

    /// The first entity that has a component of kind `T`.
    pub open spec fn first_holder<T: Component>(self) -> Option<Entity> {
        if self.holders::<T>().len() > 0 {
            Some(self.holders::<T>()[0])
        } else {
            None
        }
    }

    /// The identifier that the next created entity gets: the free index
    /// deleted last, or else the next fresh one.
    pub open spec fn next_id(self) -> Entity {
        if self.free.len() > 0 {
            self.free.last()
        } else {
            self.next
        }
    }

    /// The store after an entity is created.
    pub open spec fn created(self) -> Store {
        if self.free.len() > 0 {
            Store {
                ids: self.ids.update(self.free.last() as int, self.free.last()),
                free: self.free.drop_last(),
                ..self
            }
        } else {
            Store {
                ids: self.ids.push(self.next),
                next: (self.ids.len() + 1) as usize,
                free: self.free,
                selected: column_grown(self.selected),
                hovering: column_grown(self.hovering),
                in_movement_range: column_grown(self.in_movement_range),
                in_attack_range: column_grown(self.in_attack_range),
                team: column_grown(self.team),
                game_state: column_grown(self.game_state),
                map_settings: column_grown(self.map_settings),
                position: column_grown(self.position),
                terrain: column_grown(self.terrain),
                unit_stats: column_grown(self.unit_stats),
                unit_state: column_grown(self.unit_state),
                hex_entity_map: column_grown(self.hex_entity_map),
            }
        }
    }

    /// The store after entity `e` is deleted; the store itself if `e` is not
    /// valid.
    pub open spec fn deleted(self, e: Entity) -> Store {
        if !self.live(e) {
            self
        } else {
            Store {
                ids: self.ids.update(e as int, 0),
                next: self.next,
                free: self.free.push(e),
                selected: column_cleared(self.selected, e as int),
                hovering: column_cleared(self.hovering, e as int),
                in_movement_range: column_cleared(self.in_movement_range, e as int),
                in_attack_range: column_cleared(self.in_attack_range, e as int),
                team: column_cleared(self.team, e as int),
                game_state: column_cleared(self.game_state, e as int),
                map_settings: column_cleared(self.map_settings, e as int),
                position: column_cleared(self.position, e as int),
                terrain: column_cleared(self.terrain, e as int),
                unit_stats: column_cleared(self.unit_stats, e as int),
                unit_state: column_cleared(self.unit_state, e as int),
                hex_entity_map: column_cleared(self.hex_entity_map, e as int),
            }
        }
    }

    /// The store once the table of kind `T` exists.
    pub open spec fn registered<T: Component>(self) -> Store {
        T::with_column(self, Some(column_or_empty(T::column(self), self.len())))
    }

    /// The store after `v` is added to entity `e`; the store itself if `e`
    /// is not valid.
    pub open spec fn added<T: Component>(self, e: Entity, v: T) -> Store {
        if !self.live(e) {
            self
        } else {
            T::with_column(self, column_set(T::column(self), self.len(), e as int, v))
        }
    }

    /// The store after the component of kind `T` is removed from entity `e`.
    pub open spec fn removed<T: Component>(self, e: Entity) -> Store {
        if e >= self.len() {
            self
        } else {
            T::with_column(self, column_cleared(T::column(self), e as int))
        }
    }

    /// The store after the components of kind `T` are removed from all
    /// entities.
    pub open spec fn without<T: Component>(self) -> Store {
        match T::column(self) {
            Some(s) => T::with_column(self, Some(Seq::new(s.len(), |i: int| None))),
            None => self,
        }
    }
}

/// A kind of component: a type that has a table in the store. The generic
/// operations of the store reach the table of a kind through this trait.
pub trait Component: Sized {
    /// The column of this kind in `s`.
    spec fn column(s: Store) -> Column<Self>;

    /// `s` with the column of this kind replaced by `c`.
    spec fn with_column(s: Store, c: Column<Self>) -> Store;

    /// Replacing a column changes that column and nothing else.
    proof fn column_laws(s: Store, c: Column<Self>, d: Column<Self>)
        ensures
            Self::column(Self::with_column(s, c)) == c,
            Self::with_column(s, Self::column(s)) == s,
            Self::with_column(Self::with_column(s, c), d) == Self::with_column(s, d),
            Self::with_column(s, c).ids == s.ids,
            Self::with_column(s, c).next == s.next,
            Self::with_column(s, c).free == s.free,
            s.wf() ==> column_fits(Self::column(s), s.len()),
            s.wf() ==> column_spares(Self::column(s), s.free),
            s.wf() && column_fits(c, s.len()) && column_spares(c, s.free) ==> Self::with_column(s, c).wf(),
            forall|e: Entity| #[trigger] s.bare(e) ==> column_at(Self::column(s), e as int) is None,
    ;

    /// The table of this kind in `w`.
    fn table(w: &World) -> (t: &Option<Vec<Option<Self>>>)
        ensures
            column_view(*t) == Self::column(w@),
    ;

    /// The table of this kind in `w`, to be changed in place.
    fn table_mut(w: &mut World) -> (t: &mut Option<Vec<Option<Self>>>)
        ensures
            column_view(*t) == Self::column(old(w)@),
            final(w)@ == Self::with_column(old(w)@, column_view(*final(t))),
    ;
}

/// The empty store is well formed, and creating or deleting an entity and
/// adding, removing or registering a component keep a store well formed: at
/// every point each table has one slot per allocated index, and the free
/// indices stand once on the free list and have no components. (A fresh
/// index can only be created while the indices fit in `usize`.)
pub proof fn lemma_store_stays_wf<T: Component>(s: Store, e: Entity, v: T)
    requires
        s.wf(),
    ensures
        Store::empty().wf(),
        s.free.len() > 0 || s.len() < usize::MAX ==> s.created().wf(),
        s.created().len() == (if s.free.len() > 0 {
            s.len()
        } else {
            s.len() + 1
        }),
        s.deleted(e).wf(),
        s.deleted(e).len() == s.len(),
        s.registered::<T>().wf(),
        s.added(e, v).wf(),
        s.added(e, v).len() == s.len(),
        s.removed::<T>(e).wf(),
        s.removed::<T>(e).len() == s.len(),
        s.without::<T>().wf(),
        s.without::<T>().len() == s.len(),
{
    if s.free.len() > 0 {
        let last = s.free.len() - 1;
        assert forall|i: int| 0 <= i < last implies #[trigger] s.free.drop_last()[i] == s.free[i] by {}
        assert(s.free.drop_last() =~= s.free.subrange(0, last));
    }
    if s.live(e) {
        assert forall|i: int, j: int|
            0 <= i < s.free.push(e).len() && 0 <= j < s.free.push(e).len() && i != j implies s.free.push(
            e,
        )[i] != s.free.push(e)[j] by {
            if i < s.free.len() {
                assert(s.free.contains(s.free[i]));
            }
            if j < s.free.len() {
                assert(s.free.contains(s.free[j]));
            }
        }
    }
    T::column_laws(s, Some(column_or_empty(T::column(s), s.len())), None);
    T::column_laws(s, column_set(T::column(s), s.len(), e as int, v), None);
    T::column_laws(s, column_cleared(T::column(s), e as int), None);
    if T::column(s) is Some {
        T::column_laws(s, Some(Seq::new(T::column(s).unwrap().len(), |i: int| None)), None);
    }
}

/// After a component of some kind is removed from an entity, the entity has
/// none of that kind, and every other entity has what it had.
pub proof fn lemma_get_after_remove<T: Component>(s: Store, e: Entity, other: Entity)
    requires
        s.wf(),
    ensures
        s.removed::<T>(e).component::<T>(e) is None,
        other != e ==> s.removed::<T>(e).component::<T>(other) == s.component::<T>(other),
{
    T::column_laws(s, column_cleared(T::column(s), e as int), None);
}

/// After a component is added to a valid entity, the entity has it, and
/// every other entity has what it had.
pub proof fn lemma_get_after_add<T: Component>(s: Store, e: Entity, v: T, other: Entity)
    requires
        s.wf(),
        s.live(e),
    ensures
        s.added(e, v).component::<T>(e) == Some(v),
        other != e ==> s.added(e, v).component::<T>(other) == s.component::<T>(other),
{
    T::column_laws(s, column_set(T::column(s), s.len(), e as int, v), None);
}

/// The first component of a kind that is added makes the table of that
/// kind, with a slot for every allocated index, all empty but the one that
/// is filled.
pub proof fn lemma_add_backfills<T: Component>(s: Store, e: Entity, v: T)
    requires
        s.wf(),
        s.live(e),
        T::column(s) is None,
    ensures
        T::column(s.added(e, v)) == Some(
            Seq::new(
                s.len(),
                |i: int|
                    if i == e {
                        Some(v)
                    } else {
                        None
                    },
            ),
        ),
{
    T::column_laws(s, column_set(T::column(s), s.len(), e as int, v), None);
    assert(column_set(T::column(s), s.len(), e as int, v).unwrap() =~= Seq::new(
        s.len(),
        |i: int|
            if i == e {
                Some(v)
            } else {
                None
            },
    ));
}

/// An entity that is not valid, because its index was never allocated or is
/// free, has no component, and deleting it or adding a component to it or
/// removing one from it changes nothing.
pub proof fn lemma_invalid_is_inert<T: Component>(s: Store, e: Entity, v: T)
    requires
        s.wf(),
        !s.live(e),
    ensures
        s.bare(e),
        s.component::<T>(e) is None,
        s.deleted(e) == s,
        s.added(e, v) == s,
        s.removed::<T>(e) == s,
{
    T::column_laws(s, column_cleared(T::column(s), e as int), None);
    if e < s.len() {
        let i = choose|i: int| 0 <= i < s.free.len() && s.free[i] == e;
        assert(s.free[i] == e);
        assert(s.bare(e));
        if T::column(s) is Some {
            assert(T::column(s).unwrap().update(e as int, None) =~= T::column(s).unwrap());
        }
    }
}

/// An entity that has a component is valid.
pub proof fn lemma_holder_is_live<T: Component>(s: Store, e: Entity)
    requires
        s.wf(),
        s.component::<T>(e) is Some,
    ensures
        s.live(e),
{
    T::column_laws(s, None, None);
    if s.free.contains(e) {
        let i = choose|i: int| 0 <= i < s.free.len() && s.free[i] == e;
        assert(s.free[i] == e);
    }
}

/// The entity that is created next has no component, and is not valid
/// before it is created: no identifier is given out while it is in use.
pub proof fn lemma_created_is_bare(s: Store)
    requires
        s.wf(),
    ensures
        !s.live(s.next_id()),
        s.created().bare(s.next_id()),
        s.free.len() > 0 || s.len() < usize::MAX ==> s.created().live(s.next_id()),
        forall|e: Entity| s.live(e) ==> s.created().live(e),
{
    if s.free.len() > 0 {
        let last = s.free.len() - 1;
        let e = s.free.last();
        assert(s.free[last] == e);
        assert(s.free.contains(e));
        assert(s.bare(e));
        if s.created().free.contains(e) {
            let i = choose|i: int| 0 <= i < s.created().free.len() && s.created().free[i] == e;
            assert(s.free[i] == e);
        }
        assert forall|x: Entity| s.live(x) implies s.created().live(x) by {
            if s.created().free.contains(x) {
                let i = choose|i: int| 0 <= i < s.created().free.len() && s.created().free[i] == x;
                assert(s.free[i] == x);
            }
        }
    }
}

/// The first holder of a kind is an allocated entity that has a component
/// of that kind, and no entity before it has one; without a first holder no
/// entity has one.
pub proof fn lemma_first_holder<T: Component>(s: Store)
    requires
        s.wf(),
    ensures
        match s.first_holder::<T>() {
            Some(e) => e < s.len() && s.component::<T>(e) is Some && forall|i: Entity|
                i < e ==> (#[trigger] s.component::<T>(i)) is None,
            None => forall|i: Entity| (#[trigger] s.component::<T>(i)) is None,
        },
        forall|k: int|
            0 <= k < s.holders::<T>().len() ==> (#[trigger] s.holders::<T>()[k]) < s.len()
                && s.component::<T>(s.holders::<T>()[k]) is Some,
        forall|e: Entity| (#[trigger] s.component::<T>(e)) is Some ==> s.holders::<T>().contains(e),
{
    T::column_laws(s, None, None);
    if T::column(s) is Some {
        let c = T::column(s).unwrap();
        lemma_filled(c);
        assert forall|i: Entity| (#[trigger] s.component::<T>(i)) is Some implies s.holders::<T>().len() > 0
            && s.holders::<T>()[0] <= i && s.holders::<T>().contains(i) by {
            lemma_filled_first(c, i as int);
            assert(c[i as int] is Some);
        }
    }
}

/// Which slots are filled decides the indices that `filled` lists: two
/// columns filled in the same places have the same list.
pub proof fn lemma_filled_same_shape<T>(a: Seq<Option<T>>, b: Seq<Option<T>>)
    requires
        a.len() == b.len(),
        forall|i: int| 0 <= i < a.len() ==> ((#[trigger] a[i]) is Some <==> b[i] is Some),
    ensures
        filled(a) == filled(b),
    decreases a.len(),
{
    if a.len() > 0 {
        assert(a.last() is Some <==> b.last() is Some) by {
            assert(a[a.len() - 1] is Some <==> b[a.len() - 1] is Some);
        }
        let x = a.drop_last();
        let y = b.drop_last();
        assert forall|i: int| 0 <= i < x.len() implies ((#[trigger] x[i]) is Some <==> y[i] is Some) by {
            assert(a[i] is Some <==> b[i] is Some);
        }
        lemma_filled_same_shape(x, y);
    }
}

/// Giving an entity a component in place of one of the same kind leaves the
/// holders of that kind as they were.
pub proof fn lemma_holders_after_replace<T: Component>(s: Store, e: Entity, v: T)
    requires
        s.wf(),
        s.component::<T>(e) is Some,
    ensures
        s.added(e, v).holders::<T>() == s.holders::<T>(),
        s.added(e, v).first_holder::<T>() == s.first_holder::<T>(),
{
    T::column_laws(s, column_set(T::column(s), s.len(), e as int, v), None);
    let a = T::column(s).unwrap();
    let b = a.update(e as int, Some(v));
    lemma_filled_same_shape(a, b);
}

/// A table of optional components, one slot per entity.
pub trait ComponentVec {
    /// Kind of the components in the table.
    type Item;

    /// What the slots hold.
    spec fn slots(&self) -> Seq<Option<Self::Item>>;

    /// Appends an empty slot.
    fn push_none(&mut self)
        ensures
            final(self).slots() == old(self).slots().push(None),
    ;

    /// Empties slot `idx`.
    fn remove(&mut self, idx: usize)
        requires
            idx < old(self).slots().len(),
        ensures
            final(self).slots() == old(self).slots().update(idx as int, None),
    ;
}

impl<T> ComponentVec for Vec<Option<T>> {
    type Item = T;

    open spec fn slots(&self) -> Seq<Option<T>> {
        self@
    }

    fn push_none(&mut self) {
        self.push(None);
    }

    fn remove(&mut self, idx: usize) {
        self[idx] = None;
    }
}

/// Appends an empty slot to a table that exists.
fn grow_table<T>(t: &mut Option<Vec<Option<T>>>)
    ensures
        column_view(*final(t)) == column_grown(column_view(*old(t))),
{
    match t {
        Some(v) => {
            ComponentVec::push_none(v);
        },
        None => {},
    }
}

/// Empties slot `e` of a table that exists.
fn clear_slot<T>(t: &mut Option<Vec<Option<T>>>, e: Entity)
    requires
        column_view(*old(t)) matches Some(s) ==> e < s.len(),
    ensures
        column_view(*final(t)) == column_cleared(column_view(*old(t)), e as int),
{
    match t {
        Some(v) => {
            ComponentVec::remove(v, e);
        },
        None => {},
    }
}

/// The store: owner of all entities and of their components. It has one
/// table for each kind of component, made when the first component of the
/// kind is added; a kind is a type that implements [`Component`], which
/// says which table is its own. The tables are typed fields, not values of
/// erased type in a map keyed by type: the verifier knows no `Any`, so no
/// proof could follow a downcast.
pub struct World {
    pub(crate) entities: Vec<Entity>,
    pub(crate) next_entity: Entity,
    pub(crate) free_entities: Vec<Entity>,
    pub(crate) selected: Option<Vec<Option<Selected>>>,
    pub(crate) hovering: Option<Vec<Option<Hovering>>>,
    pub(crate) in_movement_range: Option<Vec<Option<InMovementRange>>>,
    pub(crate) in_attack_range: Option<Vec<Option<InAttackRange>>>,
    pub(crate) team: Option<Vec<Option<Team>>>,
    pub(crate) game_state: Option<Vec<Option<GameState>>>,
    pub(crate) map_settings: Option<Vec<Option<MapSettings>>>,
    pub(crate) position: Option<Vec<Option<Position>>>,
    pub(crate) terrain: Option<Vec<Option<Terrain>>>,
    pub(crate) unit_stats: Option<Vec<Option<UnitStats>>>,
    pub(crate) unit_state: Option<Vec<Option<UnitState>>>,
    pub(crate) hex_entity_map: Option<Vec<Option<HexEntityMap>>>,
}

impl View for World {
    type V = Store;

    open(crate) spec fn view(&self) -> Store {
        Store {
            ids: self.entities@,
            next: self.next_entity,
            free: self.free_entities@,
            selected: column_view(self.selected),
            hovering: column_view(self.hovering),
            in_movement_range: column_view(self.in_movement_range),
            in_attack_range: column_view(self.in_attack_range),
            team: column_view(self.team),
            game_state: column_view(self.game_state),
            map_settings: column_view(self.map_settings),
            position: column_view(self.position),
            terrain: column_view(self.terrain),
            unit_stats: column_view(self.unit_stats),
            unit_state: column_view(self.unit_state),
            hex_entity_map: column_view(self.hex_entity_map),
        }
    }
}

impl World {
    /// The tables agree with the entity list; see [`Store::wf`].
    pub open spec fn wf(&self) -> bool {
        self@.wf()
    }

    /// A store without entities or tables.
    pub fn new() -> (w: Self)
        ensures
            w.wf(),
            w@ == Store::empty(),
    {
        Self {
            entities: Vec::new(),
            next_entity: 0,
            free_entities: Vec::new(),
            selected: None,
            hovering: None,
            in_movement_range: None,
            in_attack_range: None,
            team: None,
            game_state: None,
            map_settings: None,
            position: None,
            terrain: None,
            unit_stats: None,
            unit_state: None,
            hex_entity_map: None,
        }
    }

    /// Whether `entity` is valid: its index is allocated and not free.
    pub fn is_valid(&self, entity: Entity) -> (valid: bool)
        ensures
            valid == self@.live(entity),
    {
        if entity >= self.entities.len() {
            return false;
        }
        for k in 0..self.free_entities.len()
            invariant
                forall|i: int| 0 <= i < k ==> self.free_entities@[i] != entity,
        {
            if self.free_entities[k] == entity {
                return false;
            }
        }
        true
    }

    /// Creates an entity. An index deleted earlier is used again, the one
    /// deleted last first; without one the entity gets the next fresh index,
    /// and every table gets an empty slot for it. Either way the entity was
    /// not valid before and is valid now, and has no component.
    pub fn create_entity(&mut self) -> (e: Entity)
        requires
            old(self).wf(),
        ensures
            final(self).wf(),
            e == old(self)@.next_id(),
            e < final(self)@.len(),
            final(self)@ == old(self)@.created(),
            !old(self)@.live(e),
            final(self)@.live(e),
            final(self)@.bare(e),
    {
        proof {
            lemma_created_is_bare(self@);
            lemma_store_stays_wf::<Selected>(self@, 0, Selected);
        }
        match self.free_entities.pop() {
            Some(entity) => {
                self.entities[entity] = entity;
                entity
            },
            None => {
                let entity = self.next_entity;
                self.entities.push(entity);
                self.next_entity = self.entities.len();
                grow_table(&mut self.selected);
                grow_table(&mut self.hovering);
                grow_table(&mut self.in_movement_range);
                grow_table(&mut self.in_attack_range);
                grow_table(&mut self.team);
                grow_table(&mut self.game_state);
                grow_table(&mut self.map_settings);
                grow_table(&mut self.position);
                grow_table(&mut self.terrain);
                grow_table(&mut self.unit_stats);
                grow_table(&mut self.unit_state);
                grow_table(&mut self.hex_entity_map);
                assert(self@.free =~= old(self)@.free);
                entity
            },
        }
    }

    /// Deletes entity `entity`: empties its slot in every table and puts its
    /// index on the free list. Does nothing if the entity is not valid,
    /// because its index was never allocated or is already free.
    pub fn delete_entity(&mut self, entity: Entity)
        requires
            old(self).wf(),
        ensures
            final(self).wf(),
            final(self)@ == old(self)@.deleted(entity),
            !final(self)@.live(entity),
            final(self)@.bare(entity),
            forall|e: Entity| e != entity ==> final(self)@.live(e) == old(self)@.live(e),
    {
        proof {
            lemma_store_stays_wf::<Selected>(self@, entity, Selected);
            if !self@.live(entity) {
                lemma_invalid_is_inert::<Selected>(self@, entity, Selected);
            } else {
                let after = self@.deleted(entity);
                assert(after.free[self@.free.len() as int] == entity);
                assert forall|e: Entity| e != entity implies after.live(e) == self@.live(e) by {
                    if self@.free.contains(e) {
                        let i = choose|i: int| 0 <= i < self@.free.len() && self@.free[i] == e;
                        assert(after.free[i] == e);
                    }
                    if after.free.contains(e) {
                        let i = choose|i: int| 0 <= i < after.free.len() && after.free[i] == e;
                        assert(self@.free[i] == e);
                    }
                }
            }
        }
        if !self.is_valid(entity) {
            return ;
        }
        clear_slot(&mut self.selected, entity);
        clear_slot(&mut self.hovering, entity);
        clear_slot(&mut self.in_movement_range, entity);
        clear_slot(&mut self.in_attack_range, entity);
        clear_slot(&mut self.team, entity);
        clear_slot(&mut self.game_state, entity);
        clear_slot(&mut self.map_settings, entity);
        clear_slot(&mut self.position, entity);
        clear_slot(&mut self.terrain, entity);
        clear_slot(&mut self.unit_stats, entity);
        clear_slot(&mut self.unit_state, entity);
        clear_slot(&mut self.hex_entity_map, entity);
        self.entities[entity] = 0;
        self.free_entities.push(entity);
    }

    /// Removes the component of kind `T` from `entity`. Does nothing if the
    /// entity is not valid.
    pub fn remove_component<T: Component>(&mut self, entity: Entity)
        requires
            old(self).wf(),
        ensures
            final(self).wf(),
            final(self)@ == old(self)@.removed::<T>(entity),
            final(self)@.component::<T>(entity) is None,
    {
        proof {
            T::column_laws(self@, column_cleared(T::column(self@), entity as int), None);
        }
        if entity >= self.entities.len() {
            return ;
        }
        clear_slot(T::table_mut(self), entity);
    }

    /// Makes the table of kind `T` if there is none yet, with an empty slot
    /// for every allocated index.
    pub fn register_component<T: Component>(&mut self)
        requires
            old(self).wf(),
        ensures
            final(self).wf(),
            final(self)@ == old(self)@.registered::<T>(),
    {
        proof {
            T::column_laws(self@, Some(column_or_empty(T::column(self@), self@.len())), None);
        }
        let n = self.entities.len();
        let table = T::table_mut(self);
        if table.is_none() {
            let mut component_vec: Vec<Option<T>> = Vec::new();
            for i in 0..n
                invariant
                    component_vec@ == Seq::new(i as nat, |j: int| None::<T>),
            {
                component_vec.push(None);
                assert(component_vec@ =~= Seq::new((i + 1) as nat, |j: int| None::<T>));
            }
            *table = Some(component_vec);
        }
    }

    /// Gives `entity` the component `component`, in place of any earlier one
    /// of the same kind. Does nothing if the entity is not valid, because
    /// its index was never allocated or is free.
    pub fn add_component<T: Component>(&mut self, entity: Entity, component: T)
        requires
            old(self).wf(),
        ensures
            final(self).wf(),
            final(self)@ == old(self)@.added(entity, component),
            old(self)@.live(entity) ==> final(self)@.component::<T>(entity) == Some(component),
            !old(self)@.live(entity) ==> final(self)@ == old(self)@,
            final(self)@.free == old(self)@.free,
            final(self)@.ids == old(self)@.ids,
    {
        if !self.is_valid(entity) {
            return ;
        }
        self.register_component::<T>();
        proof {
            T::column_laws(
                old(self)@,
                Some(column_or_empty(T::column(old(self)@), old(self)@.len())),
                column_set(T::column(old(self)@), old(self)@.len(), entity as int, component),
            );
            T::column_laws(
                old(self)@,
                column_set(T::column(old(self)@), old(self)@.len(), entity as int, component),
                None,
            );
        }
        match T::table_mut(self) {
            Some(component_vec) => {
                component_vec[entity] = Some(component);
            },
            None => {},
        }
    }

    /// The component of kind `T` that `entity` has.
    pub fn get_component<T: Component>(&self, entity: Entity) -> (r: Option<&T>)
        requires
            self.wf(),
        ensures
            match r {
                Some(x) => self@.component::<T>(entity) == Some(*x),
                None => self@.component::<T>(entity) is None,
            },
            !self@.live(entity) ==> r is None,
    {
        proof {
            T::column_laws(self@, None, None);
            if self@.component::<T>(entity) is Some {
                lemma_holder_is_live::<T>(self@, entity);
            }
        }
        if entity >= self.entities.len() {
            return None;
        }
        match T::table(self) {
            Some(component_vec) => match &component_vec[entity] {
                Some(component) => Some(component),
                None => None,
            },
            None => None,
        }
    }

    /// The component of kind `T` that `entity` has, to be changed in place.
    pub fn get_component_mut<T: Component>(&mut self, entity: Entity) -> (r: Option<&mut T>)
        requires
            old(self).wf(),
        ensures
            final(self).wf(),
            r is Some <==> old(self)@.component::<T>(entity) is Some,
            r matches Some(x) ==> old(self)@.component::<T>(entity) == Some(*x) && final(self)@
                == old(self)@.added(entity, *final(x)),
            r is None ==> final(self)@ == old(self)@,
    {
        proof {
            T::column_laws(self@, None, None);
            if self@.component::<T>(entity) is Some {
                lemma_holder_is_live::<T>(self@, entity);
            }
            assert forall|v: T| self@.live(entity) && T::column(self@) is Some implies (
            #[trigger] T::with_column(
                self@,
                column_set(T::column(self@), self@.len(), entity as int, v),
            )).wf() by {
                T::column_laws(self@, column_set(T::column(self@), self@.len(), entity as int, v), None);
            }
        }
        if entity >= self.entities.len() {
            return None;
        }
        match T::table_mut(self) {
            Some(component_vec) => {
                if component_vec[entity].is_some() {
                    match &mut component_vec[entity] {
                        Some(component) => Some(component),
                        None => None,
                    }
                } else {
                    None
                }
            },
            None => None,
        }
    }

    /// Every entity that has a component of kind `T`, with that component,
    /// in ascending order of the entities.
    pub fn query<T: Component>(&self) -> (r: Vec<(Entity, &T)>)
        requires
            self.wf(),
        ensures
            r@.len() == self@.holders::<T>().len(),
            forall|k: int| 0 <= k < r@.len() ==> (#[trigger] r@[k]).0 == self@.holders::<T>()[k]
                && self@.component::<T>(r@[k].0) == Some(*r@[k].1),
    {
        proof {
            T::column_laws(self@, None, None);
        }
        let mut result: Vec<(Entity, &T)> = Vec::new();
        match T::table(self) {
            Some(component_vec) => {
                let n = component_vec.len();
                for entity in 0..n
                    invariant
                        n == component_vec@.len(),
                        n == self@.len(),
                        T::column(self@) == Some(component_vec@),
                        result@.len() == filled(component_vec@.take(entity as int)).len(),
                        forall|k: int| 0 <= k < result@.len() ==> (#[trigger] result@[k]).0 == filled(component_vec@.take(entity as int))[k]
                            && result@[k].0 < entity
                            && component_vec@[result@[k].0 as int] == Some(*result@[k].1),
                {
                    proof {
                        assert(component_vec@.take(entity + 1).drop_last() =~= component_vec@.take(entity as int));
                    }
                    match &component_vec[entity] {
                        Some(component) => {
                            result.push((entity, component));
                        },
                        None => {},
                    }
                }
                assert(component_vec@.take(n as int) =~= component_vec@);
            },
            None => {},
        }
        result
    }

    /// The entity list: one entry per allocated index, the index itself or 0
    /// once deleted.
    pub fn entities(&self) -> (r: &Vec<Entity>)
        ensures
            r@ == self@.ids,
    {
        &self.entities
    }

    /// Number of allocated indices, deleted ones included.
    pub fn len(&self) -> (n: usize)
        ensures
            n == self@.len(),
    {
        self.entities.len()
    }
}

} // verus!

//! What a query yields: the item of each row of its walk that the filter lets
//! through.
use crate::other::{FilterState, OtherState};
use crate::other_world_query::Fetched;
use crate::rows::{rows, Row};
use crate::world::{Entity, World};
use vstd::prelude::*;

verus! {

/// Why a query has no item for an entity.
#[derive(Clone, Copy, Debug, PartialEq, Eq, Structural)]
pub enum QueryEntityError {
    /// The entity is not alive.
    NoSuchEntity,
    /// The archetype of the entity is not among the matches of the query.
    QueryDoesNotMatch,
}

/// What a query yields for one entity: the entity, and for each member of the shape,
/// by position, what that member yields.
#[derive(Debug)]
pub struct QueryItem {
    pub entity: Entity,
    pub components: Vec<Fetched>,
}

/// A query item as a plain value.
pub struct ItemView {
    pub entity: Entity,
    pub components: Seq<Fetched>,
}

impl View for QueryItem {
    type V = ItemView;

    open spec fn view(&self) -> ItemView {
        ItemView { entity: self.entity, components: self.components@ }
    }
}

/// The number of rows of each table of `world`.
pub open spec fn table_lens(world: World) -> Seq<nat> {
    Seq::new(world.tables.len() as nat, |t: int| world.tables[t].entities.len() as nat)
}

/// The number of entities of each archetype of `world`.
pub open spec fn archetype_lens(world: World) -> Seq<nat> {
    Seq::new(
        world.archetypes.len() as nat,
        |a: int| world.archetypes[a].entities.len() as nat,
    )
}

/// What the shape yields for `row`: of a table where `dense`, of an archetype where
/// not, for a system that last ran at `last_change_tick` and runs at `change_tick`.
pub open spec fn item_of(
    states: Seq<OtherState>,
    world: World,
    dense: bool,
    row: Row,
    last_change_tick: u32,
    change_tick: u32,
) -> ItemView {
    if dense {
        ItemView {
            entity: world.tables[row.source as int].entities[row.index as int],
            components: Seq::new(
                states.len(),
                |k: int|
                    states[k].table_fetched(
                        world,
                        row.source,
                        row.index,
                        last_change_tick,
                        change_tick,
                    ),
            ),
        }
    } else {
        ItemView {
            entity: world.archetypes[row.source as int].entities[row.index as int],
            components: Seq::new(
                states.len(),
                |k: int|
                    states[k].archetype_fetched(
                        world,
                        row.source,
                        row.index as int,
                        last_change_tick,
                        change_tick,
                    ),
            ),
        }
    }
}

/// The entity of `row`: of a table where `dense`, of an archetype where not.
pub open spec fn row_entity(world: World, dense: bool, row: Row) -> Entity {
    if dense {
        world.tables[row.source as int].entities[row.index as int]
    } else {
        world.archetypes[row.source as int].entities[row.index as int]
    }
}

/// Every member of the filter lets `entity` through, seen from a system that last ran
/// at `last_change_tick` and runs at `change_tick`.
pub open spec fn accepted(
    filters: Seq<FilterState>,
    world: World,
    entity: Entity,
    last_change_tick: u32,
    change_tick: u32,
) -> bool {
    forall|k: int|
        0 <= k < filters.len() ==> (#[trigger] filters[k]).accepts(
            world.ticks_of(entity, filters[k].component()),
            last_change_tick,
            change_tick,
        )
}

/// What a walk over the first `n` of `rows` yields: the item of each row that the
/// filter lets through, in the order of the rows.
pub open spec fn filtered(
    states: Seq<OtherState>,
    filters: Seq<FilterState>,
    world: World,
    dense: bool,
    rows: Seq<Row>,
    n: int,
    last_change_tick: u32,
    change_tick: u32,
) -> Seq<ItemView>
    decreases n,
{
    if n <= 0 {
        Seq::empty()
    } else {
        let before = filtered(
            states,
            filters,
            world,
            dense,
            rows,
            n - 1,
            last_change_tick,
            change_tick,
        );
        if accepted(
            filters,
            world,
            row_entity(world, dense, rows[n - 1]),
            last_change_tick,
            change_tick,
        ) {
            before.push(item_of(states, world, dense, rows[n - 1], last_change_tick, change_tick))
        } else {
            before
        }
    }
}

/// Every item that a walk yields is the item of one row that the filter lets through,
/// and it stands behind the items of the rows before that row.
pub proof fn lemma_filtered_origin(
    states: Seq<OtherState>,
    filters: Seq<FilterState>,
    world: World,
    dense: bool,
    rows: Seq<Row>,
    n: int,
    last_change_tick: u32,
    change_tick: u32,
    i: int,
) -> (q: int)
    requires
        0 <= i < filtered(states, filters, world, dense, rows, n, last_change_tick, change_tick).len(),
    ensures
        0 <= q < n,
        accepted(filters, world, row_entity(world, dense, rows[q]), last_change_tick, change_tick),
        filtered(states, filters, world, dense, rows, q, last_change_tick, change_tick).len() == i,
        filtered(states, filters, world, dense, rows, n, last_change_tick, change_tick)[i]
            == item_of(states, world, dense, rows[q], last_change_tick, change_tick),
    decreases n,
{
    let before = filtered(states, filters, world, dense, rows, n - 1, last_change_tick, change_tick);
    if i < before.len() {
        lemma_filtered_origin(
            states,
            filters,
            world,
            dense,
            rows,
            n - 1,
            last_change_tick,
            change_tick,
            i,
        )
    } else {
        n - 1
    }
}

/// What a walk has yielded after fewer rows, it has yielded after more.
pub proof fn lemma_filtered_prefix(
    states: Seq<OtherState>,
    filters: Seq<FilterState>,
    world: World,
    dense: bool,
    rows: Seq<Row>,
    k: int,
    n: int,
    last_change_tick: u32,
    change_tick: u32,
)
    requires
        0 <= k <= n,
    ensures
        filtered(states, filters, world, dense, rows, k, last_change_tick, change_tick).is_prefix_of(
            filtered(states, filters, world, dense, rows, n, last_change_tick, change_tick),
        ),
    decreases n - k,
{
    if k < n {
        lemma_filtered_prefix(
            states,
            filters,
            world,
            dense,
            rows,
            k,
            n - 1,
            last_change_tick,
            change_tick,
        );
    }
}

/// `result` is what `func` made of an item that is `view`.
pub open spec fn visited<R, F: Fn(QueryItem) -> R>(func: F, view: ItemView, result: R) -> bool {
    exists|item: QueryItem| item@ == view && call_ensures(func, (item,), result)
}

/// What a walk yields of its first rows depends on those rows alone.
pub proof fn lemma_filtered_same_rows(
    states: Seq<OtherState>,
    filters: Seq<FilterState>,
    world: World,
    dense: bool,
    a: Seq<Row>,
    b: Seq<Row>,
    n: int,
    last_change_tick: u32,
    change_tick: u32,
)
    requires
        0 <= n <= a.len(),
        n <= b.len(),
        forall|i: int| 0 <= i < n ==> a[i] == b[i],
    ensures
        filtered(states, filters, world, dense, a, n, last_change_tick, change_tick) == filtered(
            states,
            filters,
            world,
            dense,
            b,
            n,
            last_change_tick,
            change_tick,
        ),
    decreases n,
{
    if n > 0 {
        lemma_filtered_same_rows(
            states,
            filters,
            world,
            dense,
            a,
            b,
            n - 1,
            last_change_tick,
            change_tick,
        );
    }
}

/// A walk over rows put together from two lists yields what the walks over the two
/// lists yield, one after the other.
pub proof fn lemma_filtered_concat(
    states: Seq<OtherState>,
    filters: Seq<FilterState>,
    world: World,
    dense: bool,
    a: Seq<Row>,
    b: Seq<Row>,
    m: int,
    last_change_tick: u32,
    change_tick: u32,
)
    requires
        0 <= m <= b.len(),
    ensures
        filtered(states, filters, world, dense, a + b, a.len() + m, last_change_tick, change_tick)
            == filtered(
            states,
            filters,
            world,
            dense,
            a,
            a.len() as int,
            last_change_tick,
            change_tick,
        ) + filtered(states, filters, world, dense, b, m, last_change_tick, change_tick),
    decreases m,
{
    let whole = filtered(
        states,
        filters,
        world,
        dense,
        a + b,
        a.len() + m,
        last_change_tick,
        change_tick,
    );
    let first = filtered(
        states,
        filters,
        world,
        dense,
        a,
        a.len() as int,
        last_change_tick,
        change_tick,
    );
    let second = filtered(states, filters, world, dense, b, m, last_change_tick, change_tick);
    if m == 0 {
        lemma_filtered_same_rows(
            states,
            filters,
            world,
            dense,
            a + b,
            a,
            a.len() as int,
            last_change_tick,
            change_tick,
        );
        assert(whole =~= first + second);
    } else {
        lemma_filtered_concat(
            states,
            filters,
            world,
            dense,
            a,
            b,
            m - 1,
            last_change_tick,
            change_tick,
        );
        assert((a + b)[a.len() + m - 1] == b[m - 1]);
        assert(whole =~= first + second);
    }
}

} // verus!

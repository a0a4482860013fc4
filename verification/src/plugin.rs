//! Setting up a nested world, and keeping mirror entities of the primary world in
//! step with the entities of the nested one.
use crate::items::{ItemView, QueryItem};
use crate::other_query_state::OtherQueryState;
use crate::other_world::{OtherWorld, PrimaryWorld};
use crate::world::{Entity, World};
use vstd::prelude::*;

verus! {

/// Adds the nested world of index `index` to a primary world, and says in which stage
/// the mirror entities are to be synchronised, if in any.
pub struct OtherWorldPlugin {
    pub index: usize,
    pub sync_stage: Option<String>,
}

/// The marker that an entity of the nested world carries once it has a mirror entity.
#[derive(Clone, Copy, Debug, PartialEq, Eq, Structural)]
pub struct Synced;

/// A mirror entity of the primary world and the entity of the nested world that it
/// stands for.
#[derive(Clone, Copy, Debug, PartialEq, Eq, Structural)]
pub struct OtherSynced {
    pub entity: Entity,
    pub other: Entity,
}

/// What a synchronisation is to do.
pub struct SyncPlan {
    /// The mirror entities to despawn, in the order in which they were given.
    pub despawn: Vec<Entity>,
    /// The entities of the nested world that are to get a mirror entity and the
    /// marker, in the order of the walk.
    pub spawn: Vec<Entity>,
}

/// Among the first `n` mirror entities, those whose counterpart is no longer alive in
/// `world`.
pub open spec fn stale(synced: Seq<OtherSynced>, world: World, n: int) -> Seq<Entity>
    decreases n,
{
    if n <= 0 {
        Seq::empty()
    } else if world.location(synced[n - 1].other).is_none() {
        stale(synced, world, n - 1).push(synced[n - 1].entity)
    } else {
        stale(synced, world, n - 1)
    }
}

/// The entities of the items, in order.
pub open spec fn entities_of(items: Seq<ItemView>) -> Seq<Entity> {
    Seq::new(items.len(), |i: int| items[i].entity)
}

impl OtherWorldPlugin {
    /// A plugin for the nested world of index `index`, without synchronisation.
    pub fn new(index: usize) -> (plugin: Self)
        ensures
            plugin.index == index,
            plugin.sync_stage.is_none(),
    {
        OtherWorldPlugin { index, sync_stage: None }
    }

    /// Asks for the mirror entities to be synchronised in `stage`.
    pub fn with_sync(&mut self, stage: String)
        ensures
            final(self).index == old(self).index,
            final(self).sync_stage == Some(stage),
    {
        self.sync_stage = Some(stage);
    }

    /// Adds an empty nested world of identity `id` to `primary`. The answer tells
    /// whether it was added: a nested world of the same index that is there already
    /// stays.
    pub fn build(&self, primary: &mut PrimaryWorld, id: u64) -> (added: bool)
        requires
            old(primary).wf(),
        ensures
            final(primary).wf(),
            added == !old(primary).has_other(self.index),
            added ==> final(primary).has_other(self.index) && final(primary).other(self.index).id
                == id && final(primary).other(self.index).archetypes@.len() == 0
                && final(primary).others@.len() == old(primary).others@.len() + 1,
            !added ==> *final(primary) == *old(primary),
    {
        primary.insert_resource(OtherWorld::new(self.index, id))
    }
}

/// Plans one synchronisation. A mirror entity is stale, and is despawned, when the
/// entity that it stands for is no longer alive in the nested world. Every entity
/// that `unsynced` yields gets a mirror entity; `unsynced` is the query for the
/// entities of the nested world that do not carry the marker.
pub fn sync_other_world(
    synced: &Vec<OtherSynced>,
    unsynced: &mut OtherQueryState,
    other_world: &World,
) -> (plan: SyncPlan)
    requires
        old(unsynced).wf(),
        old(unsynced).fits(*other_world),
        other_world.wf(),
    ensures
        final(unsynced).updated(old(unsynced), *other_world),
        plan.despawn@ == stale(synced@, *other_world, synced.len() as int),
        plan.spawn@ == entities_of(
            final(unsynced).items(*other_world, other_world.last_change_tick, other_world.change_tick),
        ),
{
    let mut despawn: Vec<Entity> = Vec::new();
    let mut k: usize = 0;
    while k < synced.len()
        invariant
            k <= synced.len(),
            despawn@ == stale(synced@, *other_world, k as int),
        decreases synced.len() - k,
    {
        if other_world.get(synced[k].other).is_none() {
            despawn.push(synced[k].entity);
        }
        k += 1;
    }
    let entity_of = |item: QueryItem| -> (entity: Entity)
        ensures
            entity == item.entity,
        { item.entity };
    let spawn = unsynced.for_each(other_world, entity_of);
    proof {
        assert(spawn@ =~= entities_of(
            unsynced.items(*other_world, other_world.last_change_tick, other_world.change_tick),
        ));
    }
    SyncPlan { despawn, spawn }
}

} // verus!

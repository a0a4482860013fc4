//! Exclusive access to a resource of a nested world, as a parameter of a system.
use crate::other_world::{lemma_other_position, PrimaryWorld};
use crate::other_world_query::{ConfigurationError, Other};
use crate::system::SystemState;
use crate::ticks::{is_newer, ComponentTicks};
use vstd::prelude::*;

verus! {

/// A resource of a nested world, borrowed for writing during one run of a system.
#[derive(Clone, Copy, Debug)]
pub struct OtherResMut {
    /// The id of the resource type in the nested world.
    pub component_id: usize,
    pub ticks: ComponentTicks,
    pub last_change_tick: u32,
    pub change_tick: u32,
}

/// The state of an `OtherResMut` parameter.
#[derive(Clone, Copy, Debug, PartialEq, Eq, Structural)]
pub struct OtherResMutState {
    /// The id of the resource type in the nested world.
    pub component_id: usize,
    /// The index of the nested world.
    pub world_index: usize,
}

impl OtherResMut {
    /// Whether the resource was added since the system last ran.
    pub fn is_added(&self) -> (added: bool)
        ensures
            added == is_newer(self.ticks.added, self.last_change_tick, self.change_tick),
    {
        self.ticks.is_added(self.last_change_tick, self.change_tick)
    }

    /// Whether the resource was changed since the system last ran.
    pub fn is_changed(&self) -> (changed: bool)
        ensures
            changed == is_newer(self.ticks.changed, self.last_change_tick, self.change_tick),
    {
        self.ticks.is_changed(self.last_change_tick, self.change_tick)
    }

    /// The resource that is borrowed: the id of its type in the nested world.
    pub fn deref(&self) -> (component_id: usize)
        ensures
            component_id == self.component_id,
    {
        self.component_id
    }

    /// Takes the resource for writing, which stamps it as changed at the current
    /// tick.
    pub fn deref_mut(&mut self) -> (component_id: usize)
        ensures
            component_id == old(self).component_id,
            *final(self) == (OtherResMut {
                ticks: ComponentTicks { added: old(self).ticks.added, changed: old(self).change_tick },
                ..*old(self)
            }),
    {
        self.ticks.set_changed(self.change_tick);
        self.component_id
    }
}

impl OtherResMutState {
    /// Sets up exclusive access to the resource `other` as a parameter of the system
    /// whose claims are `system_state`. The type is registered where it is new. The
    /// parameter claims the resource for writing, under the key that the primary world
    /// has for it.
    pub fn init(primary: &mut PrimaryWorld, system_state: &mut SystemState, other: Other) -> (state:
        Result<OtherResMutState, ConfigurationError>)
        requires
            old(primary).wf(),
            old(system_state).wf(),
        ensures
            final(primary).wf(),
            final(system_state).wf(),
            final(system_state).queries() == old(system_state).queries(),
            final(system_state).archetype_component_access == old(
                system_state,
            ).archetype_component_access,
            final(system_state).last_change_tick == old(system_state).last_change_tick,
            !old(primary).has_other(other.world) ==> {
                &&& *final(primary) == *old(primary)
                &&& *final(system_state) == *old(system_state)
                &&& state matches Err(ConfigurationError::MissingResource { world })
                &&& world == other.world
            },
            old(primary).has_other(other.world) ==> {
                let ids = other.registration(*old(primary));
                let reads = old(system_state).reads();
                let writes = old(system_state).writes();
                &&& other.registered_in(*old(primary), *final(primary))
                &&& match state {
                    Ok(state) => {
                        &&& !reads.contains(ids.component_id as int)
                        &&& !reads.contains(ids.world_id as int)
                        &&& state == (OtherResMutState {
                            component_id: ids.other_component_id,
                            world_index: other.world,
                        })
                        &&& final(system_state).reads() == reads.insert(ids.component_id as int)
                        &&& final(system_state).writes() == writes.insert(ids.component_id as int)
                    },
                    Err(ConfigurationError::ConflictingAccess { components }) => {
                        &&& reads.contains(ids.component_id as int)
                        &&& components@ == seq![ids.component_id]
                        &&& final(system_state).reads() == reads
                        &&& final(system_state).writes() == writes
                    },
                    Err(ConfigurationError::OtherWorldBorrowed { world_id }) => {
                        &&& !reads.contains(ids.component_id as int)
                        &&& reads.contains(ids.world_id as int)
                        &&& world_id == ids.world_id
                        &&& final(system_state).reads() == reads
                        &&& final(system_state).writes() == writes
                    },
                    Err(_) => false,
                }
            },
    {
        let ids = match other.register(primary) {
            Some(ids) => ids,
            None => {
                return Err(ConfigurationError::MissingResource { world: other.world });
            },
        };
        if system_state.has_read(ids.component_id) {
            let mut components: Vec<usize> = Vec::new();
            components.push(ids.component_id);
            proof {
                assert(components@ =~= seq![ids.component_id]);
            }
            return Err(ConfigurationError::ConflictingAccess { components });
        }
        if system_state.has_read(ids.world_id) {
            return Err(ConfigurationError::OtherWorldBorrowed { world_id: ids.world_id });
        }
        system_state.claim_write(ids.component_id);
        Ok(OtherResMutState { component_id: ids.other_component_id, world_index: other.world })
    }

    /// The resource as a parameter of a system run. The nested world must hold the
    /// resource.
    pub fn get_param(
        state: &OtherResMutState,
        system_state: &SystemState,
        primary: &PrimaryWorld,
        change_tick: u32,
    ) -> (resource: OtherResMut)
        requires
            primary.has_other(state.world_index),
            primary.other(state.world_index).resource(state.component_id).is_some(),
        ensures
            resource.component_id == state.component_id,
            resource.ticks == primary.other(state.world_index).resource(
                state.component_id,
            ).unwrap().ticks,
            resource.last_change_tick == system_state.last_change_tick,
            resource.change_tick == change_tick,
    {
        proof {
            lemma_other_position(primary.others@, state.world_index);
        }
        let at = primary.find_other(state.world_index).unwrap();
        let held = primary.others[at].world.get_resource(state.component_id).unwrap();
        OtherResMut {
            component_id: state.component_id,
            ticks: held.ticks,
            last_change_tick: system_state.last_change_tick,
            change_tick,
        }
    }
}

} // verus!

//! What one system has claimed so far, through the parameters that were set up for it.
use crate::access::{
    access_reads, access_writes, combined_reads, combined_writes, filtered_reads, filtered_with,
    filtered_without, filtered_writes, lists_in_order, reported_conflicts, set_entries, Access,
    FilteredAccess, FilteredAccessSet,
};
use crate::other_world::PrimaryWorld;
use crate::other_world_query::ConfigurationError;
use crate::world::TypeKey;
use vstd::prelude::*;

verus! {

/// The claims of one system: on component ids, on the components of single
/// archetypes, and the tick at which the system last ran.
pub struct SystemState {
    pub component_access_set: FilteredAccessSet,
    pub archetype_component_access: Access,
    pub last_change_tick: u32,
}

/// A filtered access as the parameters of this library make it: it excludes nothing,
/// and what it writes it also reads.
pub open spec fn plain_claims(access: FilteredAccess) -> bool {
    &&& filtered_without(access) == Set::<int>::empty()
    &&& filtered_writes(access).subset_of(filtered_reads(access))
}

/// `key` stands for a type of the nested world of index `world`.
pub open spec fn is_proxy(key: TypeKey, world: usize) -> bool {
    match key {
        TypeKey::Other(_, of) => of == world,
        _ => false,
    }
}

/// Two filtered accesses that claim, ask for and exclude the same ids.
pub open spec fn same_claims(a: FilteredAccess, b: FilteredAccess) -> bool {
    &&& filtered_reads(a) == filtered_reads(b)
    &&& filtered_writes(a) == filtered_writes(b)
    &&& filtered_with(a) == filtered_with(b)
    &&& filtered_without(a) == filtered_without(b)
}

/// Holds the claims of a new query against those that a system has already. The
/// query is refused iff the access set reports a collision, and the error then lists
/// the component ids in rising order.
pub fn assert_component_access_compatibility(
    system_access: &FilteredAccessSet,
    current: &FilteredAccess,
) -> (checked: Result<(), ConfigurationError>)
    ensures
        match checked {
            Ok(_) => reported_conflicts(*system_access, *current) == Set::<int>::empty(),
            Err(error) => {
                &&& reported_conflicts(*system_access, *current) != Set::<int>::empty()
                &&& error matches ConfigurationError::ConflictingAccess { components }
                &&& lists_in_order(components@, reported_conflicts(*system_access, *current))
            },
        },
{
    let conflicts = system_access.get_conflicts(current);
    if conflicts.len() == 0 {
        proof {
            assert(reported_conflicts(*system_access, *current) =~= Set::<int>::empty());
        }
        return Ok(());
    }
    proof {
        assert(reported_conflicts(*system_access, *current).contains(conflicts[0] as int));
    }
    Err(ConfigurationError::ConflictingAccess { components: conflicts })
}

impl SystemState {
    /// Every id that some parameter of the system reads or writes.
    pub open spec fn reads(&self) -> Set<int> {
        combined_reads(self.component_access_set)
    }

    /// Every id that some parameter of the system writes.
    pub open spec fn writes(&self) -> Set<int> {
        combined_writes(self.component_access_set)
    }

    /// The claims of the queries of the system, in the order in which they were set up.
    pub open spec fn queries(&self) -> Seq<FilteredAccess> {
        set_entries(self.component_access_set)
    }

    /// The combined claims hold what every query claims, and every query is plain.
    pub open spec fn wf(&self) -> bool {
        &&& self.writes().subset_of(self.reads())
        &&& forall|i: int|
            0 <= i < self.queries().len() ==> {
                &&& plain_claims(#[trigger] self.queries()[i])
                &&& filtered_reads(self.queries()[i]).subset_of(self.reads())
                &&& filtered_writes(self.queries()[i]).subset_of(self.writes())
            }
    }

    /// `self` is `before` with one more query, which claims what `component_access`
    /// claims in general and what `archetype_component_access` claims in single
    /// archetypes.
    pub open spec fn added(
        &self,
        before: SystemState,
        component_access: FilteredAccess,
        archetype_component_access: Access,
    ) -> bool {
        &&& self.queries().len() == before.queries().len() + 1
        &&& forall|i: int|
            0 <= i < before.queries().len() ==> self.queries()[i] == before.queries()[i]
        &&& same_claims(self.queries().last(), component_access)
        &&& self.reads() == before.reads().union(filtered_reads(component_access))
        &&& self.writes() == before.writes().union(filtered_writes(component_access))
        &&& access_reads(self.archetype_component_access) == access_reads(
            before.archetype_component_access,
        ).union(access_reads(archetype_component_access))
        &&& access_writes(self.archetype_component_access) == access_writes(
            before.archetype_component_access,
        ).union(access_writes(archetype_component_access))
        &&& self.last_change_tick == before.last_change_tick
    }

    /// Enters the claims of a query among those of the system.
    pub fn add_query(
        &mut self,
        component_access: &FilteredAccess,
        archetype_component_access: &Access,
    )
        requires
            old(self).wf(),
            plain_claims(*component_access),
        ensures
            final(self).wf(),
            final(self).added(*old(self), *component_access, *archetype_component_access),
    {
        self.component_access_set.add(component_access.duplicate());
        self.archetype_component_access.extend(archetype_component_access);
        proof {
            assert forall|i: int| 0 <= i < self.queries().len() implies {
                &&& plain_claims(#[trigger] self.queries()[i])
                &&& filtered_reads(self.queries()[i]).subset_of(self.reads())
                &&& filtered_writes(self.queries()[i]).subset_of(self.writes())
            } by {
                if i < old(self).queries().len() {
                    assert(plain_claims(old(self).queries()[i]));
                }
            }
        }
    }

    /// Some parameter of the system accesses the nested world of index `world` through
    /// a key that `primary` has for one of its types.
    pub open spec fn reaches_into(&self, primary: PrimaryWorld, world: usize) -> bool {
        exists|id: int|
            0 <= id < primary.world.components.infos.len() && is_proxy(
                #[trigger] primary.world.components.infos[id].key,
                world,
            ) && self.reads().contains(id)
    }

    /// Borrows the nested world of index `world` itself, as a resource of the primary
    /// world: for writing where `exclusive`, else for reading.
    ///
    /// The borrow is refused where the resource is written already, or read already
    /// and asked for writing; and, after that, where a parameter of the system accesses
    /// the nested world through the key of one of its types. A refusal changes nothing.
    pub fn borrow_other_world(&mut self, primary: &PrimaryWorld, world: usize, exclusive: bool) -> (borrowed:
        Result<(), ConfigurationError>)
        requires
            old(self).wf(),
        ensures
            final(self).wf(),
            final(self).queries() == old(self).queries(),
            final(self).archetype_component_access == old(self).archetype_component_access,
            final(self).last_change_tick == old(self).last_change_tick,
            match primary.world.components.id_of(TypeKey::OtherWorld(world)) {
                None => {
                    &&& *final(self) == *old(self)
                    &&& borrowed matches Err(ConfigurationError::MissingResource { world: missing })
                    &&& missing == world
                },
                Some(world_id) => if old(self).writes().contains(world_id as int) || exclusive && old(
                    self,
                ).reads().contains(world_id as int) {
                    &&& *final(self) == *old(self)
                    &&& borrowed matches Err(ConfigurationError::ConflictingAccess { components })
                    &&& components@ == seq![world_id]
                } else if old(self).reaches_into(*primary, world) {
                    &&& *final(self) == *old(self)
                    &&& borrowed matches Err(
                        ConfigurationError::OtherWorldBorrowed { world_id: borrowed_id },
                    )
                    &&& borrowed_id == world_id
                } else {
                    &&& borrowed.is_ok()
                    &&& final(self).reads() == old(self).reads().insert(world_id as int)
                    &&& final(self).writes() == if exclusive {
                        old(self).writes().insert(world_id as int)
                    } else {
                        old(self).writes()
                    }
                },
            },
    {
        let world_id = match primary.world.components.get_id(TypeKey::OtherWorld(world)) {
            Some(world_id) => world_id,
            None => {
                return Err(ConfigurationError::MissingResource { world });
            },
        };
        proof {
            crate::world::lemma_key_position(
                primary.world.components.infos@,
                TypeKey::OtherWorld(world),
            );
        }
        let taken = if exclusive {
            self.has_read(world_id)
        } else {
            self.has_write(world_id)
        };
        if taken {
            let mut components: Vec<usize> = Vec::new();
            components.push(world_id);
            proof {
                assert(components@ =~= seq![world_id]);
            }
            return Err(ConfigurationError::ConflictingAccess { components });
        }
        let infos = &primary.world.components.infos;
        let mut id: usize = 0;
        while id < infos.len()
            invariant
                id <= infos.len(),
                infos == &primary.world.components.infos,
                *self == *old(self),
                self.wf(),
                primary.world.components.id_of(TypeKey::OtherWorld(world)) == Some(world_id),
                !(self.writes().contains(world_id as int) || exclusive && self.reads().contains(
                    world_id as int,
                )),
                forall|k: int|
                    0 <= k < id ==> !(is_proxy(#[trigger] infos[k].key, world)
                        && self.reads().contains(k)),
            decreases infos.len() - id,
        {
            let proxy = match infos[id].key {
                TypeKey::Other(_, of) => of == world,
                _ => false,
            };
            if proxy && self.has_read(id) {
                proof {
                    assert(is_proxy(primary.world.components.infos[id as int].key, world));
                    assert(self.reaches_into(*primary, world));
                }
                return Err(ConfigurationError::OtherWorldBorrowed { world_id });
            }
            id += 1;
        }
        if exclusive {
            self.claim_write(world_id);
        } else {
            self.claim_read(world_id);
        }
        Ok(())
    }

    /// A system without any claim.
    pub fn new(last_change_tick: u32) -> (system: SystemState)
        ensures
            system.wf(),
            system.reads() == Set::<int>::empty(),
            system.writes() == Set::<int>::empty(),
            system.queries() == Seq::<FilteredAccess>::empty(),
            system.last_change_tick == last_change_tick,
    {
        SystemState {
            component_access_set: FilteredAccessSet::new(),
            archetype_component_access: Access::new(),
            last_change_tick,
        }
    }

    /// Whether some parameter reads or writes `id`.
    pub fn has_read(&self, id: usize) -> (claimed: bool)
        ensures
            claimed == self.reads().contains(id as int),
    {
        self.component_access_set.combined_has_read(id)
    }

    /// Whether some parameter writes `id`.
    pub fn has_write(&self, id: usize) -> (claimed: bool)
        ensures
            claimed == self.writes().contains(id as int),
    {
        self.component_access_set.combined_has_write(id)
    }

    /// Whether some query of the system reads or writes the component with this id
    /// within its archetype.
    pub fn has_archetype_read(&self, archetype_component_id: usize) -> (claimed: bool)
        ensures
            claimed == access_reads(self.archetype_component_access).contains(
                archetype_component_id as int,
            ),
    {
        self.archetype_component_access.has_read(archetype_component_id)
    }

    /// Whether some query of the system writes the component with this id within its
    /// archetype.
    pub fn has_archetype_write(&self, archetype_component_id: usize) -> (claimed: bool)
        ensures
            claimed == access_writes(self.archetype_component_access).contains(
                archetype_component_id as int,
            ),
    {
        self.archetype_component_access.has_write(archetype_component_id)
    }

    /// Claims `id` for reading, as a shared borrow of a resource does. The claim is
    /// refused, and nothing changes, where `id` is written already.
    pub fn claim_read(&mut self, id: usize) -> (granted: bool)
        requires
            old(self).wf(),
            id < usize::MAX,
        ensures
            final(self).wf(),
            granted == !old(self).writes().contains(id as int),
            granted ==> final(self).reads() == old(self).reads().insert(id as int)
                && final(self).writes() == old(self).writes(),
            !granted ==> final(self).reads() == old(self).reads() && final(self).writes() == old(
                self,
            ).writes(),
            final(self).queries() == old(self).queries(),
            final(self).archetype_component_access == old(self).archetype_component_access,
            final(self).last_change_tick == old(self).last_change_tick,
    {
        if self.component_access_set.combined_has_write(id) {
            return false;
        }
        self.component_access_set.combined_add_read(id);
        proof {
            assert forall|i: int| 0 <= i < self.queries().len() implies {
                &&& plain_claims(#[trigger] self.queries()[i])
                &&& filtered_reads(self.queries()[i]).subset_of(self.reads())
                &&& filtered_writes(self.queries()[i]).subset_of(self.writes())
            } by {
                assert(plain_claims(old(self).queries()[i]));
            }
        }
        true
    }

    /// Claims `id` for writing, as an exclusive borrow of a resource does. The claim
    /// is refused, and nothing changes, where `id` is read or written already.
    pub fn claim_write(&mut self, id: usize) -> (granted: bool)
        requires
            old(self).wf(),
            id < usize::MAX,
        ensures
            final(self).wf(),
            granted == !old(self).reads().contains(id as int),
            granted ==> final(self).reads() == old(self).reads().insert(id as int)
                && final(self).writes() == old(self).writes().insert(id as int),
            !granted ==> final(self).reads() == old(self).reads() && final(self).writes() == old(
                self,
            ).writes(),
            final(self).queries() == old(self).queries(),
            final(self).archetype_component_access == old(self).archetype_component_access,
            final(self).last_change_tick == old(self).last_change_tick,
    {
        if self.component_access_set.combined_has_read(id) {
            return false;
        }
        self.component_access_set.combined_add_write(id);
        proof {
            assert forall|i: int| 0 <= i < self.queries().len() implies {
                &&& plain_claims(#[trigger] self.queries()[i])
                &&& filtered_reads(self.queries()[i]).subset_of(self.reads())
                &&& filtered_writes(self.queries()[i]).subset_of(self.writes())
            } by {
                assert(plain_claims(old(self).queries()[i]));
            }
        }
        true
    }
}

} // verus!

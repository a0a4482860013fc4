//! A second entity store held as a resource of a primary one.
use crate::world::{
    lemma_registry_extension, lemma_world_registry_extension, StorageType, TypeKey, World,
};
use vstd::prelude::*;

verus! {

/// A nested world: an entity store of its own, held by the primary world as the
/// resource of index `index`.
pub struct OtherWorld {
    pub index: usize,
    pub world: World,
}

/// The primary world with the nested worlds that are among its resources.
pub struct PrimaryWorld {
    pub world: World,
    pub others: Vec<OtherWorld>,
}

/// The position of the first nested world of index `index`, or the length where
/// there is none.
pub open spec fn other_position(others: Seq<OtherWorld>, index: usize) -> int
    decreases others.len(),
{
    if others.len() == 0 {
        0
    } else if others[0].index == index {
        0
    } else {
        1 + other_position(others.skip(1), index)
    }
}

pub proof fn lemma_other_position(others: Seq<OtherWorld>, index: usize)
    ensures
        0 <= other_position(others, index) <= others.len(),
        other_position(others, index) < others.len() ==> others[other_position(
            others,
            index,
        )].index == index,
        forall|i: int| 0 <= i < other_position(others, index) ==> (#[trigger] others[i]).index != index,
    decreases others.len(),
{
    if others.len() > 0 && others[0].index != index {
        let rest = others.skip(1);
        lemma_other_position(rest, index);
        assert forall|i: int| 0 <= i < other_position(others, index) implies (
        #[trigger] others[i]).index != index by {
            if i > 0 {
                assert(others[i] == rest[i - 1]);
            }
        }
    }
}

pub proof fn lemma_other_position_is(others: Seq<OtherWorld>, index: usize, at: int)
    requires
        0 <= at <= others.len(),
        at < others.len() ==> others[at].index == index,
        forall|i: int| 0 <= i < at ==> (#[trigger] others[i]).index != index,
    ensures
        other_position(others, index) == at,
{
    lemma_other_position(others, index);
    let found = other_position(others, index);
    if found < at {
        assert(others[found].index != index);
    } else if found > at {
        assert(others[at].index == index);
    }
}

impl OtherWorld {
    /// An empty nested world of index `index` and identity `id`.
    pub fn new(index: usize, id: u64) -> (other: OtherWorld)
        ensures
            other.index == index,
            other.world.id == id,
            other.world.wf(),
            other.world.archetypes@.len() == 0,
            other.world.tables@.len() == 0,
            other.world.entities@.len() == 0,
            other.world.components.infos@.len() == 0,
    {
        OtherWorld { index, world: World::new(id) }
    }

    /// The entity store behind the resource.
    pub fn world(&self) -> (world: &World)
        ensures
            *world == self.world,
    {
        &self.world
    }

    /// The entity store behind the resource, for changing it.
    pub fn world_mut(&mut self) -> (world: &mut World)
        ensures
            *world == old(self).world,
            final(self).index == old(self).index,
            final(self).world == *final(world),
    {
        &mut self.world
    }
}

impl PrimaryWorld {
    /// The nested world of index `index` is among the resources.
    pub open spec fn has_other(&self, index: usize) -> bool {
        other_position(self.others@, index) < self.others.len()
    }

    /// The nested world of index `index`.
    pub open spec fn other(&self, index: usize) -> World {
        self.others[other_position(self.others@, index)].world
    }

    /// Nested world `i` is consistent, is the only one of its index, and is registered
    /// as a resource of the primary world.
    pub open spec fn other_wf(&self, i: int) -> bool {
        &&& self.others[i].world.wf()
        &&& other_position(self.others@, self.others[i].index) == i
        &&& self.world.components.id_of(TypeKey::OtherWorld(self.others[i].index)).is_some()
    }

    pub open spec fn wf(&self) -> bool {
        &&& self.world.wf()
        &&& forall|i: int| 0 <= i < self.others.len() ==> #[trigger] self.other_wf(i)
    }

    /// A primary world of identity `id` without entities or resources.
    pub fn new(id: u64) -> (primary: PrimaryWorld)
        ensures
            primary.wf(),
            primary.world.id == id,
            primary.others@.len() == 0,
            primary.world.components.infos@.len() == 0,
    {
        PrimaryWorld { world: World::new(id), others: Vec::new() }
    }

    /// Where the nested world of index `index` stands among the resources.
    pub fn find_other(&self, index: usize) -> (at: Option<usize>)
        ensures
            at == if self.has_other(index) {
                Some(other_position(self.others@, index) as usize)
            } else {
                None
            },
    {
        let mut i: usize = 0;
        while i < self.others.len()
            invariant
                i <= self.others.len(),
                forall|k: int| 0 <= k < i ==> (#[trigger] self.others[k]).index != index,
            decreases self.others.len() - i,
        {
            if self.others[i].index == index {
                proof {
                    lemma_other_position_is(self.others@, index, i as int);
                }
                return Some(i);
            }
            i += 1;
        }
        proof {
            lemma_other_position_is(self.others@, index, i as int);
        }
        None
    }

    /// The nested world of index `index`, where the primary world holds one.
    pub fn get_resource(&self, index: usize) -> (other: Option<&OtherWorld>)
        ensures
            match other {
                Some(found) => self.has_other(index) && *found == self.others[other_position(
                    self.others@,
                    index,
                )],
                None => !self.has_other(index),
            },
    {
        proof {
            lemma_other_position(self.others@, index);
        }
        match self.find_other(index) {
            Some(at) => Some(&self.others[at]),
            None => None,
        }
    }

    /// Holds `other` as a resource and registers it, unless a nested world of its
    /// index is held already: then nothing changes and the answer is `false`.
    pub fn insert_resource(&mut self, other: OtherWorld) -> (inserted: bool)
        requires
            old(self).wf(),
            other.world.wf(),
        ensures
            final(self).wf(),
            inserted == !old(self).has_other(other.index),
            inserted ==> final(self).others@ == old(self).others@.push(other)
                && final(self).has_other(other.index)
                && final(self).other(other.index) == other.world,
            !inserted ==> *final(self) == *old(self),
            forall|key: TypeKey| #[trigger]
                old(self).world.components.id_of(key).is_some() ==> final(self).world.components.id_of(
                    key,
                ) == old(self).world.components.id_of(key),
            final(self).world.archetypes == old(self).world.archetypes,
            final(self).world.tables == old(self).world.tables,
            final(self).world.entities == old(self).world.entities,
            final(self).world.id == old(self).world.id,
    {
        if self.find_other(other.index).is_some() {
            return false;
        }
        let ghost before = *self;
        let index = other.index;
        let at = self.others.len();
        proof {
            lemma_other_position(before.others@, index);
        }
        self.world.components.get_or_insert(TypeKey::OtherWorld(index), StorageType::Table);
        self.others.push(other);
        proof {
            let infos = before.world.components.infos@;
            assert forall|key: TypeKey| #[trigger]
                before.world.components.id_of(key).is_some() implies self.world.components.id_of(
                key,
            ) == before.world.components.id_of(key) by {
                lemma_registry_extension(infos, self.world.components.infos@, key);
            }
            lemma_world_registry_extension(before.world, self.world);
            assert forall|i: int| 0 <= i < self.others.len() implies #[trigger] self.other_wf(
                i,
            ) by {
                if i < at {
                    assert(before.other_wf(i));
                    assert(self.others[i] == before.others[i]);
                    lemma_other_position(before.others@, before.others[i].index);
                    assert forall|k: int| 0 <= k < i implies (#[trigger] self.others[k]).index
                        != self.others[i].index by {
                        assert(self.others[k] == before.others[k]);
                    }
                    lemma_other_position_is(self.others@, self.others[i].index, i);
                    lemma_registry_extension(
                        infos,
                        self.world.components.infos@,
                        TypeKey::OtherWorld(self.others[i].index),
                    );
                } else {
                    assert forall|k: int| 0 <= k < at implies (#[trigger] self.others[k]).index
                        != index by {
                        assert(self.others[k] == before.others[k]);
                    }
                    lemma_other_position_is(self.others@, index, at as int);
                }
            }
            assert(self.other_wf(at as int));
        }
        true
    }

    /// Whether the primary world and every nested world are consistent.
    pub fn is_valid(&self) -> (valid: bool)
        ensures
            valid == self.wf(),
    {
        if !self.world.is_valid() {
            return false;
        }
        let mut i: usize = 0;
        while i < self.others.len()
            invariant
                i <= self.others.len(),
                forall|k: int| 0 <= k < i ==> #[trigger] self.other_wf(k),
            decreases self.others.len() - i,
        {
            let other = &self.others[i];
            proof {
                lemma_other_position(self.others@, other.index);
            }
            let first = self.find_other(other.index);
            let registered = self.world.components.get_id(TypeKey::OtherWorld(other.index));
            let sound = other.world.is_valid() && first == Some(i) && registered.is_some();
            if !sound {
                proof {
                    lemma_other_position(self.others@, other.index);
                    assert(!self.other_wf(i as int));
                }
                return false;
            }
            i += 1;
        }
        true
    }
}

} // verus!

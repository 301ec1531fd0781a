//! Trusted boundary to the outside crates: the bevy entity/component store
//! and the small-vector type that backs the record sequence.
//!
//! The world is modelled by three names: the set of entities alive in it,
//! the set of parent/child edges recorded in it, and quiescence — the
//! condition under which the store behaves synchronously (see
//! `world_quiescent`). The record vector is modelled by the sequence it
//! holds.

use vstd::prelude::*;
use bevy_ecs::entity::Entity;
use bevy_ecs::world::World;
use bevy_hierarchy::BuildWorldChildren;
use smallvec::SmallVec;
use crate::EntityInfo;

verus! {

#[verifier::external_type_specification]
#[verifier::external_body]
pub struct ExEntity(Entity);

#[verifier::external_type_specification]
#[verifier::external_body]
pub struct ExWorld(World);

/// The append-only vector of entity records, backed by a small vector so
/// that the common single-record instantiation does not allocate.
#[verifier::external_body]
pub struct RecordVec {
    inner: SmallVec<[EntityInfo; 1]>,
}

/// The set of entities alive in a world.
pub uninterp spec fn world_entities(w: World) -> Set<Entity>;

/// The parent/child edges recorded in a world's hierarchy, as
/// (parent, child) pairs.
pub uninterp spec fn world_edges(w: World) -> Set<(Entity, Entity)>;

/// The world is quiescent: its internal command queue holds no pending
/// command, no reserved entity awaits materialization, and neither an
/// observer of this world nor a hook of a component this library inserts
/// queues commands. Under this condition the store operations below are
/// synchronous: flushing is a no-op, and an insertion changes nothing but
/// the entity it names. bevy `World::spawn_empty` flushes the queue first,
/// so without this condition its effect on other entities would be
/// whatever the queued commands do.
pub uninterp spec fn world_quiescent(w: World) -> bool;

/// The records held by a record vector.
pub uninterp spec fn records_seq(v: RecordVec) -> Seq<EntityInfo>;

impl RecordVec {
    /// Relies on smallvec `SmallVec::new`: the new vector is empty.
    #[verifier::external_body]
    pub fn new() -> (v: RecordVec)
        ensures
            records_seq(v) == Seq::<EntityInfo>::empty(),
    {
        RecordVec { inner: SmallVec::new() }
    }

    /// Relies on smallvec `SmallVec::push`: appends one element at the back.
    #[verifier::external_body]
    pub fn push(&mut self, x: EntityInfo)
        ensures
            records_seq(*final(self)) == records_seq(*old(self)).push(x),
    {
        self.inner.push(x);
    }

    /// Relies on smallvec `SmallVec::len`: the number of elements held.
    #[verifier::external_body]
    pub fn len(&self) -> (n: usize)
        ensures
            n == records_seq(*self).len(),
    {
        self.inner.len()
    }

    /// Relies on the slice `get` reached through smallvec's `Deref`: the
    /// element at the index when it is in bounds, nothing otherwise.
    #[verifier::external_body]
    pub fn get(&self, i: usize) -> (r: Option<EntityInfo>)
        ensures
            i < records_seq(*self).len() ==> r == Some(records_seq(*self)[i as int]),
            i >= records_seq(*self).len() ==> r is None,
    {
        self.inner.get(i).copied()
    }
}

/// Relies on bevy_ecs `World::spawn_empty`: allocates a fresh empty entity
/// and returns its handle, one that was not alive before. In a quiescent
/// world the internal flush is a no-op, so exactly this entity is added,
/// nothing is removed, no edge changes, and the world stays quiescent (an
/// empty entity has no components, so no hook runs).
#[verifier::external_body]
pub(crate) fn spawn_empty_entity(world: &mut World) -> (e: Entity)
    requires
        world_quiescent(*old(world)),
    ensures
        world_entities(*final(world)) == world_entities(*old(world)).insert(e),
        !world_entities(*old(world)).contains(e),
        world_edges(*final(world)) == world_edges(*old(world)),
        world_quiescent(*final(world)),
{
    world.spawn_empty().id()
}

/// Relies on bevy_ecs `EntityWorldMut::insert`: attaches one component to
/// the given live entity. A single component is never a bundle with
/// duplicate component types, so the duplicate-bundle panic cannot fire.
/// `insert` does not flush the queue; in a quiescent world its hooks and
/// observers change nothing structural, so the entity and edge sets are
/// untouched and the world stays quiescent.
#[verifier::external_body]
pub(crate) fn insert_component<T: bevy_ecs::component::Component>(
    world: &mut World,
    entity: Entity,
    component: T,
)
    requires
        world_entities(*old(world)).contains(entity),
        world_quiescent(*old(world)),
    ensures
        world_entities(*final(world)) == world_entities(*old(world)),
        world_edges(*final(world)) == world_edges(*old(world)),
        world_quiescent(*final(world)),
{
    world.entity_mut(entity).insert(component);
}

/// Relies on bevy_hierarchy `BuildWorldChildren::add_child`: records the
/// parent/child edge between two distinct live entities; it refuses an
/// entity as its own child, hence the distinctness. The child's previous
/// edge, if any, is replaced; every other edge stays; `add_child` does not
/// flush, and in a quiescent world nothing else changes.
#[verifier::external_body]
pub(crate) fn add_child_edge(world: &mut World, parent: Entity, child: Entity)
    requires
        world_entities(*old(world)).contains(parent),
        world_entities(*old(world)).contains(child),
        parent != child,
        world_quiescent(*old(world)),
    ensures
        world_entities(*final(world)) == world_entities(*old(world)),
        world_edges(*final(world)).contains((parent, child)),
        forall|q: (Entity, Entity)|
            world_edges(*final(world)).contains(q) ==> q == (parent, child) || world_edges(
                *old(world),
            ).contains(q),
        forall|q: (Entity, Entity)|
            world_edges(*old(world)).contains(q) && q.1 != child ==> world_edges(
                *final(world),
            ).contains(q),
        world_quiescent(*final(world)),
{
    world.entity_mut(parent).add_child(child);
}

} // verus!

//! A declarative way to describe a tree of entities and the component data
//! attached to each, and to materialize that description as a real, linked
//! entity hierarchy in one construction pass.
//!
//! A schematic is a value describing how to mutate one or more entities;
//! combinators compose schematics, and a context tracks the growing,
//! append-only sequence of entity records while the tree is built.

use vstd::prelude::*;
use vstd::pervasive::unreached;
use bevy_ecs::entity::Entity;
use bevy_ecs::world::World;

pub mod hierarchy;
pub mod laws;
pub mod schematics;
pub mod store;

use crate::store::{
    world_entities, world_edges, world_quiescent, records_seq, spawn_empty_entity,
    insert_component, add_child_edge, RecordVec,
};

verus! {

/// A record tracked during one instantiation: an entity handle and the
/// index of its parent record, if any. Immutable once appended.
#[derive(Debug, Clone, Copy)]
pub struct EntityInfo {
    pub entity: Entity,
    pub parent: Option<usize>,
}

impl EntityInfo {
    pub(crate) fn new(entity: Entity, parent: Option<usize>) -> (r: Self)
        ensures
            r == (EntityInfo { entity, parent }),
    {
        EntityInfo { entity, parent }
    }

    pub(crate) fn root(entity: Entity) -> (r: Self)
        ensures
            r == (EntityInfo { entity, parent: None }),
    {
        EntityInfo { entity, parent: None }
    }

    pub fn entity(&self) -> (e: Entity)
        ensures
            e == self.entity,
    {
        self.entity
    }

    pub fn parent(&self) -> (p: Option<usize>)
        ensures
            p == self.parent,
    {
        self.parent
    }
}

/// The mathematical view of a context: the shared record sequence and the
/// index of the record the context currently points at.
pub ghost struct CtxView {
    pub records: Seq<EntityInfo>,
    pub current: int,
}

/// A parent index always points strictly below the record that carries it.
pub open spec fn parent_index_ok(r: EntityInfo, i: int) -> bool {
    match r.parent {
        Some(p) => p < i,
        None => true,
    }
}

impl CtxView {
    /// Well-formedness: the root record exists and has no parent, the
    /// current index is in bounds, and every parent index points to an
    /// earlier record.
    pub open spec fn wf(self) -> bool {
        &&& 0 < self.records.len()
        &&& 0 <= self.current < self.records.len()
        &&& self.records[0].parent is None
        &&& forall|i: int|
            0 <= i < self.records.len() ==> #[trigger] parent_index_ok(self.records[i], i)
    }
}

/// The record sequence only ever grows: every record of the earlier view
/// is still present, unchanged, at the same index.
pub open spec fn extends(pre: CtxView, post: CtxView) -> bool {
    &&& pre.records.len() <= post.records.len()
    &&& forall|i: int| 0 <= i < pre.records.len() ==> post.records[i] == pre.records[i]
}

/// Every entity recorded by the view is alive in the world.
pub open spec fn ctx_in_world(w: World, c: CtxView) -> bool {
    forall|i: int|
        0 <= i < c.records.len() ==> world_entities(w).contains(#[trigger] c.records[i].entity)
}

/// `e` is the entity of a record appended between the two views.
pub open spec fn appended_entity(pre: CtxView, post: CtxView, e: Entity) -> bool {
    exists|k: int|
        pre.records.len() <= k < post.records.len() && (#[trigger] post.records[k]).entity == e
}

/// Every record appended between the two views carries an entity that was
/// not alive in the world `w`.
pub open spec fn records_fresh(w: World, pre: CtxView, post: CtxView) -> bool {
    forall|k: int|
        pre.records.len() <= k < post.records.len() ==> !world_entities(w).contains(
            (#[trigger] post.records[k]).entity,
        )
}

/// Between the two worlds, the only entities created are the ones whose
/// records were appended between the two views: nothing else enters the
/// store.
pub open spec fn only_new_records_spawned(w0: World, w1: World, pre: CtxView, post: CtxView) -> bool {
    forall|e: Entity|
        #[trigger] world_entities(w1).contains(e) ==> world_entities(w0).contains(e)
            || appended_entity(pre, post, e)
}

/// Two consecutive instantiation steps compose: extension, freshness and
/// created-nothing-else carry over from (a to b) and (b to c) to (a to c).
pub proof fn lemma_compose_step(w0: World, wm: World, w1: World, a: CtxView, b: CtxView, c: CtxView)
    requires
        extends(a, b),
        extends(b, c),
        world_entities(w0).subset_of(world_entities(wm)),
        world_entities(wm).subset_of(world_entities(w1)),
        records_fresh(w0, a, b),
        records_fresh(wm, b, c),
        only_new_records_spawned(w0, wm, a, b),
        only_new_records_spawned(wm, w1, b, c),
    ensures
        extends(a, c),
        world_entities(w0).subset_of(world_entities(w1)),
        records_fresh(w0, a, c),
        only_new_records_spawned(w0, w1, a, c),
{
    assert forall|k: int|
        a.records.len() <= k < c.records.len() implies !world_entities(w0).contains(
        (#[trigger] c.records[k]).entity,
    ) by {
        if k < b.records.len() {
            assert(c.records[k] == b.records[k]);
        }
    }
    assert forall|e: Entity| #[trigger]
        world_entities(w1).contains(e) implies world_entities(w0).contains(e) || appended_entity(
        a,
        c,
        e,
    ) by {
        if world_entities(wm).contains(e) {
            if !world_entities(w0).contains(e) {
                let k = choose|k: int|
                    a.records.len() <= k < b.records.len() && (#[trigger] b.records[k]).entity
                        == e;
                assert(c.records[k] == b.records[k]);
                assert(appended_entity(a, c, e));
            }
        } else {
            let k = choose|k: int|
                b.records.len() <= k < c.records.len() && (#[trigger] c.records[k]).entity == e;
            assert(appended_entity(a, c, e));
        }
    }
}

/// The indices of the records whose parent is `cur`, in ascending order.
pub open spec fn child_indices(records: Seq<EntityInfo>, cur: int) -> Seq<usize>
    decreases records.len(),
{
    if records.len() == 0 {
        Seq::<usize>::empty()
    } else {
        let prefix = child_indices(records.drop_last(), cur);
        if records.last().parent == Some(cur as usize) {
            prefix.push((records.len() - 1) as usize)
        } else {
            prefix
        }
    }
}

/// The context of one instantiation: the append-only sequence of entity
/// records plus the index of the record it currently points at.
pub struct SchematicContext {
    pub(crate) entities: RecordVec,
    pub(crate) current_entity: usize,
}

impl View for SchematicContext {
    type V = CtxView;

    closed spec fn view(&self) -> CtxView {
        CtxView { records: records_seq(self.entities), current: self.current_entity as int }
    }
}

impl SchematicContext {
    /// Creates a context over a brand-new root entity: one record, no
    /// parent, pointed at by the context.
    pub fn new_root(world: &mut World) -> (ctx: SchematicContext)
        requires
            world_quiescent(*old(world)),
        ensures
            ctx@.wf(),
            ctx@.records.len() == 1,
            ctx@.current == 0,
            ctx_in_world(*final(world), ctx@),
            !world_entities(*old(world)).contains(ctx@.records[0].entity),
            world_entities(*final(world)) == world_entities(*old(world)).insert(
                ctx@.records[0].entity,
            ),
            world_quiescent(*final(world)),
    {
        let e = spawn_empty_entity(world);
        let mut v = RecordVec::new();
        v.push(EntityInfo::root(e));
        let ctx = SchematicContext { entities: v, current_entity: 0 };
        proof {
            assert(ctx@.records =~= Seq::<EntityInfo>::empty().push(
                (EntityInfo { entity: e, parent: None }),
            ));
        }
        ctx
    }

    /// The root record, at index 0.
    pub fn root(&self) -> (r: EntityInfo)
        requires
            self@.wf(),
        ensures
            r == self@.records[0],
    {
        match self.entities.get(0) {
            Some(x) => x,
            None => unreached(),
        }
    }

    /// The record the context currently points at.
    pub fn current(&self) -> (r: EntityInfo)
        requires
            self@.wf(),
        ensures
            r == self@.records[self@.current],
    {
        match self.entities.get(self.current_entity) {
            Some(x) => x,
            None => unreached(),
        }
    }

    /// The record at `index`, if it is in bounds.
    pub fn get(&self, index: usize) -> (r: Option<EntityInfo>)
        ensures
            index < self@.records.len() ==> r == Some(self@.records[index as int]),
            index >= self@.records.len() ==> r is None,
    {
        self.entities.get(index)
    }

    /// The index of the record the context currently points at.
    pub fn current_entity(&self) -> (i: usize)
        ensures
            i == self@.current,
    {
        self.current_entity
    }

    /// The number of records.
    pub fn len(&self) -> (n: usize)
        ensures
            n == self@.records.len(),
    {
        self.entities.len()
    }

    /// The record sequence itself, read-only.
    pub fn entities(&self) -> (r: &RecordVec)
        ensures
            records_seq(*r) == self@.records,
    {
        &self.entities
    }

    /// Repoints the context at `index`; a no-op returning nothing when the
    /// index is out of bounds.
    pub fn set_current(&mut self, index: usize) -> (r: Option<()>)
        ensures
            final(self)@.records == old(self)@.records,
            index < old(self)@.records.len() ==> final(self)@.current == index && r == Some(()),
            index >= old(self)@.records.len() ==> *final(self) == *old(self) && r is None,
    {
        if index >= self.len() {
            return None;
        }
        self.current_entity = index;
        Some(())
    }

    /// Attaches one component of data to the entity the context currently
    /// points at. Always succeeds; the record sequence is untouched, no
    /// entity is created or removed, and no edge changes. Data bundles of
    /// several components are attached by one call per component.
    pub fn insert<T: bevy_ecs::component::Component>(&mut self, world: &mut World, bundle: T)
        requires
            old(self)@.wf(),
            ctx_in_world(*old(world), old(self)@),
            world_quiescent(*old(world)),
        ensures
            *final(self) == *old(self),
            ctx_in_world(*final(world), final(self)@),
            world_entities(*final(world)) == world_entities(*old(world)),
            world_quiescent(*final(world)),
    {
        let info = self.current();
        proof {
            assert(world_entities(*world).contains(old(self)@.records[old(self)@.current].entity));
        }
        insert_component(world, info.entity, bundle);
    }

    /// Creates a brand-new entity, appends its record with the current
    /// record as parent, links the edge in the store, and returns the new
    /// record's index. The context still points where it pointed before.
    pub fn push_child(&mut self, world: &mut World) -> (idx: usize)
        requires
            old(self)@.wf(),
            ctx_in_world(*old(world), old(self)@),
            world_quiescent(*old(world)),
        ensures
            final(self)@.wf(),
            final(self)@.current == old(self)@.current,
            idx == old(self)@.records.len(),
            final(self)@.records == old(self)@.records.push(final(self)@.records.last()),
            final(self)@.records.last().parent == Some((old(self)@.current as usize)),
            ctx_in_world(*final(world), final(self)@),
            !world_entities(*old(world)).contains(final(self)@.records.last().entity),
            world_entities(*final(world)) == world_entities(*old(world)).insert(
                final(self)@.records.last().entity,
            ),
            world_edges(*final(world)).contains(
                (old(self)@.records[old(self)@.current].entity, final(self)@.records.last().entity),
            ),
            world_quiescent(*final(world)),
    {
        let child = spawn_empty_entity(world);
        let parent_info = self.current();
        let idx = self.len();
        self.entities.push(EntityInfo::new(child, Some(self.current_entity)));
        proof {
            assert(world_entities(*world).contains(old(self)@.records[old(self)@.current].entity));
            assert(world_entities(*world).contains(child));
        }
        add_child_edge(world, parent_info.entity, child);
        proof {
            let post = self@;
            let pre = old(self)@;
            assert(post.records.last() == (EntityInfo {
                entity: child,
                parent: Some(old(self).current_entity),
            }));
            assert forall|i: int| 0 <= i < post.records.len() implies #[trigger]
                parent_index_ok(post.records[i], i) by {
                if i < pre.records.len() {
                    assert(post.records[i] == pre.records[i]);
                    assert(parent_index_ok(pre.records[i], i));
                }
            }
            assert(post.records[0] == pre.records[0]);
            assert forall|i: int| 0 <= i < post.records.len() implies world_entities(
                *world,
            ).contains(#[trigger] post.records[i].entity) by {
                if i < pre.records.len() {
                    assert(post.records[i] == pre.records[i]);
                    assert(world_entities(*old(world)).contains(pre.records[i].entity));
                }
            }
        }
        idx
    }

    /// The indices whose record's parent is the current index, ascending.
    pub fn children(&self) -> (r: Vec<usize>)
        ensures
            r@ == child_indices(self@.records, self@.current),
    {
        let ghost all = self@.records;
        let mut out: Vec<usize> = Vec::new();
        let n = self.len();
        let mut i: usize = 0;
        while i < n
            invariant
                n == all.len(),
                i <= n,
                all == self@.records,
                out@ == child_indices(all.take(i as int), self@.current),
            decreases n - i,
        {
            let info = match self.entities.get(i) {
                Some(x) => x,
                None => unreached(),
            };
            let is_child = match info.parent {
                Some(p) => p == self.current_entity,
                None => false,
            };
            proof {
                assert(all.take(i as int + 1).drop_last() =~= all.take(i as int));
                assert(all.take(i as int + 1).last() == all[i as int]);
            }
            if is_child {
                out.push(i);
            }
            i = i + 1;
        }
        proof {
            assert(all.take(n as int) =~= all);
        }
        out
    }
}

/// The single error kind of the instantiation protocol: a structural
/// precondition did not hold.
#[derive(Debug)]
pub struct SchematicError(pub &'static str);

impl SchematicError {
    /// The static message describing the failed precondition.
    pub fn message(&self) -> (r: &'static str)
        ensures
            r == self.0,
    {
        self.0
    }
}

pub type SchematicResult = Result<(), SchematicError>;

/// The message of the failure raised where a parent record was required
/// and the current record has none.
pub open spec fn no_parent_message() -> Seq<char> {
    "entity does not have parent"@
}

/// The capability every composable unit implements: consume self and apply
/// it to the entity the context currently points at.
///
/// `effect` is each implementor's own statement of how one application
/// relates the view of the context before the call, the view after it, and
/// the result; `instantiate` is proved to realize it. Every implementor
/// also preserves well-formedness, only ever appends to the record
/// sequence, and keeps every recorded entity alive in the world.
pub trait Schematic: Sized + Send + 'static {
    spec fn effect(self, pre: CtxView, post: CtxView, r: SchematicResult) -> bool;

    fn instantiate(self, world: &mut World, ctx: &mut SchematicContext) -> (r: SchematicResult)
        requires
            old(ctx)@.wf(),
            ctx_in_world(*old(world), old(ctx)@),
            world_quiescent(*old(world)),
        ensures
            final(ctx)@.wf(),
            extends(old(ctx)@, final(ctx)@),
            ctx_in_world(*final(world), final(ctx)@),
            world_entities(*old(world)).subset_of(world_entities(*final(world))),
            records_fresh(*old(world), old(ctx)@, final(ctx)@),
            only_new_records_spawned(*old(world), *final(world), old(ctx)@, final(ctx)@),
            world_quiescent(*final(world)),
            self.effect(old(ctx)@, final(ctx)@, r),
    ;
}

/// The leaf adapter: a plain data bundle packaged as a schematic.
/// Instantiating it inserts the bundle onto the current entity, leaves the
/// record sequence untouched and always succeeds.
///
/// The bundle is captured together with its insertion into the store, so
/// that no other part of the library depends on the store's bundle
/// machinery.
#[verifier::external_body]
pub struct Leaf {
    inner: std::sync::Arc<dyn Fn(&mut World, Entity) + Send + Sync>,
}

impl Leaf {
    /// Relies on bevy_ecs `EntityWorldMut::insert`, captured for one
    /// component: applying the leaf inserts a clone of the component onto
    /// the given entity. A single component is never a bundle with
    /// duplicate component types, so the duplicate-bundle panic cannot
    /// fire; the clone is the component type's own code.
    #[verifier::external_body]
    pub fn new<B: bevy_ecs::component::Component + Clone>(bundle: B) -> (r: Leaf) {
        Leaf {
            inner: std::sync::Arc::new(move |world: &mut World, entity: Entity|
                {
                    world.entity_mut(entity).insert(bundle.clone());
                }),
        }
    }

    /// Relies on the insertion captured at construction (bevy_ecs
    /// `EntityWorldMut::insert` of one component on a live entity): it
    /// attaches component data; in a quiescent world nothing structural
    /// changes and the world stays quiescent.
    #[verifier::external_body]
    fn apply(self, world: &mut World, entity: Entity)
        requires
            world_entities(*old(world)).contains(entity),
            world_quiescent(*old(world)),
        ensures
            world_entities(*final(world)) == world_entities(*old(world)),
            world_edges(*final(world)) == world_edges(*old(world)),
            world_quiescent(*final(world)),
    {
        (self.inner)(world, entity);
    }
}

impl Clone for Leaf {
    /// Relies on `Arc::clone`: the duplicate applies the very same bundle.
    #[verifier::external_body]
    fn clone(&self) -> (r: Self) {
        Leaf { inner: self.inner.clone() }
    }
}

impl Schematic for Leaf {
    open spec fn effect(self, pre: CtxView, post: CtxView, r: SchematicResult) -> bool {
        post == pre && r is Ok
    }

    fn instantiate(self, world: &mut World, ctx: &mut SchematicContext) -> (r: SchematicResult) {
        let info = ctx.current();
        proof {
            assert(world_entities(*world).contains(old(ctx)@.records[old(ctx)@.current].entity));
        }
        self.apply(world, info.entity);
        Ok(())
    }
}

/// Maps a spawn result onto the protocol's unit result.
pub open spec fn result_unit(r: Result<Entity, SchematicError>) -> SchematicResult {
    match r {
        Ok(_) => Ok(()),
        Err(e) => Err(e),
    }
}

/// `e` is the entity of some record of the view.
pub open spec fn recorded_entity(post: CtxView, e: Entity) -> bool {
    exists|k: int| 0 <= k < post.records.len() && (#[trigger] post.records[k]).entity == e
}

/// What one entry-point run guarantees, over the entity sets before and
/// after it: the schematic's effect held from a one-record root view to a
/// final view whose records are all alive afterwards and were all freshly
/// created by this run, nothing else was created, and an `Ok` result is
/// the entity the final view points at.
pub open spec fn spawn_outcome<S: Schematic>(
    pre_set: Set<Entity>,
    post_set: Set<Entity>,
    schematic: S,
    r: Result<Entity, SchematicError>,
) -> bool {
    exists|pre: CtxView, post: CtxView|
        {
            &&& pre.wf()
            &&& pre.records.len() == 1
            &&& pre.current == 0
            &&& post.wf()
            &&& extends(pre, post)
            &&& forall|i: int|
                0 <= i < post.records.len() ==> post_set.contains(
                    (#[trigger] post.records[i]).entity,
                )
            &&& forall|i: int|
                0 <= i < post.records.len() ==> !pre_set.contains(
                    (#[trigger] post.records[i]).entity,
                )
            &&& forall|e: Entity| #[trigger] post_set.contains(e) ==> pre_set.contains(e)
                || recorded_entity(post, e)
            &&& #[trigger] schematic.effect(pre, post, result_unit(r))
            &&& (r matches Ok(ent) ==> ent == post.records[post.current].entity)
        }
}

/// The entry point: creates one fresh root entity, seeds a context with
/// exactly that record, runs the schematic, and returns the entity the
/// context points at afterwards, or the first failure. Nothing already
/// applied is rolled back on failure: every created entity stays alive.
pub fn spawn_schematic<S: Schematic>(world: &mut World, schematic: S) -> (r: Result<
    Entity,
    SchematicError,
>)
    requires
        world_quiescent(*old(world)),
    ensures
        world_entities(*old(world)).subset_of(world_entities(*final(world))),
        world_quiescent(*final(world)),
        spawn_outcome(world_entities(*old(world)), world_entities(*final(world)), schematic, r),
{
    let ghost w0 = *world;
    let mut ctx = SchematicContext::new_root(world);
    let ghost w1 = *world;
    let ghost pre = ctx@;
    let res = schematic.instantiate(world, &mut ctx);
    let ghost post = ctx@;
    proof {
        assert forall|i: int| 0 <= i < post.records.len() implies !world_entities(w0).contains(
            (#[trigger] post.records[i]).entity,
        ) by {
            if i == 0 {
                assert(post.records[0] == pre.records[0]);
            }
        }
        assert forall|e: Entity| #[trigger]
            world_entities(*world).contains(e) implies world_entities(w0).contains(e)
            || recorded_entity(post, e) by {
            if world_entities(w1).contains(e) {
                if !world_entities(w0).contains(e) {
                    assert(e == pre.records[0].entity);
                    assert(post.records[0] == pre.records[0]);
                    assert(recorded_entity(post, e));
                }
            } else {
                let k = choose|k: int|
                    pre.records.len() <= k < post.records.len() && (#[trigger] post.records[k]).entity
                        == e;
                assert(recorded_entity(post, e));
            }
        }
    }
    match res {
        Ok(u) => {
            let ent = ctx.current().entity();
            proof {
                assert(u == ());
                assert(schematic.effect(pre, post, result_unit(Ok::<
                    Entity,
                    SchematicError,
                >(ent))));
            }
            Ok(ent)
        },
        Err(e) => {
            proof {
                assert(schematic.effect(pre, post, result_unit(Err::<
                    Entity,
                    SchematicError,
                >(e))));
            }
            Err(e)
        },
    }
}

/// Spawning a schematic directly against a store of entities.
pub trait SchematicWorldExt {
    /// The set of entities alive in the store.
    spec fn entity_set(&self) -> Set<Entity>;

    /// The store is quiescent, as `world_quiescent` has it of a world.
    spec fn quiescent(&self) -> bool;

    fn spawn_schematic<S: Schematic>(&mut self, schematic: S) -> (r: Result<
        Entity,
        SchematicError,
    >)
        requires
            old(self).quiescent(),
        ensures
            old(self).entity_set().subset_of(final(self).entity_set()),
            final(self).quiescent(),
            spawn_outcome(old(self).entity_set(), final(self).entity_set(), schematic, r),
    ;
}

impl SchematicWorldExt for World {
    open spec fn entity_set(&self) -> Set<Entity> {
        world_entities(*self)
    }

    open spec fn quiescent(&self) -> bool {
        world_quiescent(*self)
    }

    fn spawn_schematic<S: Schematic>(&mut self, schematic: S) -> (r: Result<
        Entity,
        SchematicError,
    >) {
        spawn_schematic(self, schematic)
    }
}

/// A schematic packaged for deferred application. The queue adapter that
/// finally runs it has no caller to hand a failure to, so it treats an
/// error as an unrecoverable defect.
pub struct SchematicCommand<S>(pub S);

impl<S: Schematic> SchematicCommand<S> {
    /// Applies the packaged schematic to the world, as the direct entry
    /// point would.
    pub fn apply(self, world: &mut World) -> (r: Result<Entity, SchematicError>)
        requires
            world_quiescent(*old(world)),
        ensures
            world_entities(*old(world)).subset_of(world_entities(*final(world))),
            world_quiescent(*final(world)),
            spawn_outcome(world_entities(*old(world)), world_entities(*final(world)), self.0, r),
    {
        spawn_schematic(world, self.0)
    }
}

} // verus!

//! The hierarchy combinators: redirecting to the parent entity, spawning
//! one child per element of a list, and repeating one schematic over a
//! number of fresh children.

use vstd::prelude::*;
use bevy_ecs::entity::Entity;
use bevy_ecs::world::World;
use crate::{
    ctx_in_world, extends, lemma_compose_step, no_parent_message, only_new_records_spawned,
    parent_index_ok, records_fresh, CtxView, EntityInfo, Schematic, SchematicContext,
    SchematicError, SchematicResult,
};
use crate::store::{world_entities, world_quiescent};

verus! {

/// The view a nested application starts from when a combinator repoints
/// the context: the same records, another current index.
pub open spec fn repointed(pre: CtxView, i: int) -> CtxView {
    CtxView { records: pre.records, current: i }
}

/// The view a fresh child's application starts from: the child's record
/// appended with the current index as parent, and pointed at.
pub open spec fn child_view(pre: CtxView, e: Entity) -> CtxView {
    CtxView {
        records: pre.records.push(
            (EntityInfo { entity: e, parent: Some(pre.current as usize) }),
        ),
        current: pre.records.len() as int,
    }
}

/// Apply a schematic to the parent of the current entity.
#[derive(Debug, Clone, Copy)]
pub struct Parent<S>(pub S);

impl<S: Schematic> Schematic for Parent<S> {
    /// At a record with no parent: fail, touching nothing. Otherwise the
    /// inner schematic runs against the parent record, and the context
    /// points back at the record it pointed at before.
    open spec fn effect(self, pre: CtxView, post: CtxView, r: SchematicResult) -> bool {
        match pre.records[pre.current].parent {
            Some(p) => exists|mid: CtxView|
                #[trigger] self.0.effect(repointed(pre, p as int), mid, r) && post == (CtxView {
                    records: mid.records,
                    current: pre.current,
                }),
            None => post == pre && (r matches Err(err) && err.0@ == no_parent_message()),
        }
    }

    fn instantiate(self, world: &mut World, ctx: &mut SchematicContext) -> (r: SchematicResult) {
        let info = ctx.current();
        match info.parent {
            None => {
                proof {
                    reveal_strlit("entity does not have parent");
                }
                Err(SchematicError("entity does not have parent"))
            },
            Some(p) => {
                let ghost pre = ctx@;
                let saved = ctx.current_entity();
                proof {
                    assert(parent_index_ok(pre.records[pre.current], pre.current));
                }
                let _ = ctx.set_current(p);
                let r = self.0.instantiate(world, ctx);
                let ghost mid = ctx@;
                let _ = ctx.set_current(saved);
                proof {
                    assert(self.0.effect(repointed(pre, p as int), mid, r));
                    assert(ctx@ == (CtxView { records: mid.records, current: pre.current }));
                }
                r
            },
        }
    }
}

/// One child per element, in order: each element runs against a fresh
/// child record appended under the view's current record; the first
/// failure stops the rest, and the children already made stay in place.
pub open spec fn children_effect<S: Schematic>(
    elems: Seq<S>,
    pre: CtxView,
    post: CtxView,
    r: SchematicResult,
) -> bool
    decreases elems.len(),
{
    if elems.len() == 0 {
        post == pre && r is Ok
    } else {
        ||| (exists|e: Entity, mid: CtxView|
            #[trigger] elems[0].effect(child_view(pre, e), mid, r) && r is Err && post == (CtxView {
                records: mid.records,
                current: pre.current,
            }))
        ||| (exists|e: Entity, mid: CtxView|
            #[trigger] elems[0].effect(child_view(pre, e), mid, Ok(())) && children_effect(
                elems.skip(1),
                (CtxView { records: mid.records, current: pre.current }),
                post,
                r,
            ))
    }
}

/// One child per element, in order, with no stopping: every element runs
/// against its own fresh child record, and the results are collected in
/// input order.
pub open spec fn map_children_effect<S: Schematic>(
    elems: Seq<S>,
    pre: CtxView,
    post: CtxView,
    rs: Seq<SchematicResult>,
) -> bool
    decreases elems.len(),
{
    if elems.len() == 0 {
        post == pre && rs == Seq::<SchematicResult>::empty()
    } else {
        exists|e: Entity, mid: CtxView, r0: SchematicResult|
            #[trigger] elems[0].effect(child_view(pre, e), mid, r0) && rs.len() == elems.len()
                && rs[0] == r0 && map_children_effect(
                elems.skip(1),
                (CtxView { records: mid.records, current: pre.current }),
                post,
                rs.skip(1),
            )
    }
}

/// Appending one fresh child record is itself an instantiation step:
/// exactly that entity enters the store, and it is new.
pub proof fn lemma_push_step(w0: World, wa: World, pre: CtxView, vp: CtxView)
    requires
        vp.records == pre.records.push(vp.records.last()),
        !world_entities(w0).contains(vp.records.last().entity),
        world_entities(wa) == world_entities(w0).insert(vp.records.last().entity),
    ensures
        extends(pre, vp),
        world_entities(w0).subset_of(world_entities(wa)),
        records_fresh(w0, pre, vp),
        only_new_records_spawned(w0, wa, pre, vp),
{
    assert forall|k: int|
        pre.records.len() <= k < vp.records.len() implies !world_entities(w0).contains(
        (#[trigger] vp.records[k]).entity,
    ) by {
        assert(vp.records[k] == vp.records.last());
    }
    assert forall|e: Entity| #[trigger]
        world_entities(wa).contains(e) implies world_entities(w0).contains(e)
        || crate::appended_entity(pre, vp, e) by {
        if !world_entities(w0).contains(e) {
            assert((#[trigger] vp.records[pre.records.len() as int]).entity == e);
        }
    }
}

impl SchematicContext {
    /// For each element, in input order: creates a brand-new child entity
    /// under the current record and instantiates the element against it;
    /// stops at the first failure and returns it, leaving the children
    /// already made in place. The context points where it pointed before.
    pub fn try_map_children<S: Schematic>(
        &mut self,
        world: &mut World,
        children: Vec<S>,
    ) -> (r: SchematicResult)
        requires
            old(self)@.wf(),
            ctx_in_world(*old(world), old(self)@),
            world_quiescent(*old(world)),
        ensures
            final(self)@.wf(),
            extends(old(self)@, final(self)@),
            final(self)@.current == old(self)@.current,
            ctx_in_world(*final(world), final(self)@),
            world_entities(*old(world)).subset_of(world_entities(*final(world))),
            records_fresh(*old(world), old(self)@, final(self)@),
            only_new_records_spawned(*old(world), *final(world), old(self)@, final(self)@),
            world_quiescent(*final(world)),
            children_effect(children@, old(self)@, final(self)@, r),
        decreases children@.len(),
    {
        let mut rest = children;
        if rest.len() == 0 {
            return Ok(());
        }
        let first = rest.remove(0);
        let ghost pre = self@;
        let ghost w0 = *world;
        let saved = self.current_entity();
        let idx = self.push_child(world);
        let ghost vp = self@;
        let ghost wa = *world;
        let ghost child_rec = self@.records.last();
        let _ = self.set_current(idx);
        proof {
            assert(self@ == child_view(pre, child_rec.entity));
            lemma_push_step(w0, wa, pre, vp);
        }
        let r0 = first.instantiate(world, self);
        let ghost mid = self@;
        let ghost wb = *world;
        let _ = self.set_current(saved);
        match r0 {
            Err(e) => {
                proof {
                    lemma_compose_step(w0, wa, wb, pre, vp, mid);
                    assert(children@[0].effect(child_view(pre, child_rec.entity), mid, r0));
                    assert(self@ == (CtxView { records: mid.records, current: pre.current }));
                }
                Err(e)
            },
            Ok(u) => {
                proof {
                    assert(r0 == Ok::<(), SchematicError>(()));
                    assert(children@[0].effect(child_view(pre, child_rec.entity), mid, Ok(())));
                }
                let r1 = self.try_map_children(world, rest);
                proof {
                    lemma_compose_step(w0, wa, wb, pre, vp, mid);
                    lemma_compose_step(w0, wb, *world, pre, mid, self@);
                    assert(rest@ =~= children@.skip(1));
                    assert(children_effect(
                        children@.skip(1),
                        (CtxView { records: mid.records, current: pre.current }),
                        final(self)@,
                        r1,
                    ));
                }
                r1
            },
        }
    }

    /// For each element, in input order: creates a brand-new child entity
    /// under the current record and instantiates the element against it,
    /// whether or not earlier elements failed; the elements' results are
    /// collected in input order. The context points where it pointed
    /// before.
    pub fn map_children<S: Schematic>(
        &mut self,
        world: &mut World,
        children: Vec<S>,
    ) -> (rs: Vec<SchematicResult>)
        requires
            old(self)@.wf(),
            ctx_in_world(*old(world), old(self)@),
            world_quiescent(*old(world)),
        ensures
            final(self)@.wf(),
            extends(old(self)@, final(self)@),
            final(self)@.current == old(self)@.current,
            ctx_in_world(*final(world), final(self)@),
            world_entities(*old(world)).subset_of(world_entities(*final(world))),
            records_fresh(*old(world), old(self)@, final(self)@),
            only_new_records_spawned(*old(world), *final(world), old(self)@, final(self)@),
            world_quiescent(*final(world)),
            rs@.len() == children@.len(),
            map_children_effect(children@, old(self)@, final(self)@, rs@),
        decreases children@.len(),
    {
        let mut rest = children;
        if rest.len() == 0 {
            return Vec::new();
        }
        let first = rest.remove(0);
        let ghost pre = self@;
        let ghost w0 = *world;
        let saved = self.current_entity();
        let idx = self.push_child(world);
        let ghost vp = self@;
        let ghost wa = *world;
        let ghost child_rec = self@.records.last();
        let _ = self.set_current(idx);
        proof {
            assert(self@ == child_view(pre, child_rec.entity));
            lemma_push_step(w0, wa, pre, vp);
        }
        let r0 = first.instantiate(world, self);
        let ghost mid = self@;
        let ghost wb = *world;
        let _ = self.set_current(saved);
        proof {
            assert(children@[0].effect(child_view(pre, child_rec.entity), mid, r0));
        }
        let mut tail = self.map_children(world, rest);
        let ghost tail0 = tail@;
        let mut rs: Vec<SchematicResult> = Vec::new();
        rs.push(r0);
        rs.append(&mut tail);
        proof {
            lemma_compose_step(w0, wa, wb, pre, vp, mid);
            lemma_compose_step(w0, wb, *world, pre, mid, self@);
            assert(rest@ =~= children@.skip(1));
            assert(rs@.skip(1) =~= tail0);
            assert(map_children_effect(
                children@.skip(1),
                (CtxView { records: mid.records, current: pre.current }),
                final(self)@,
                rs@.skip(1),
            ));
        }
        rs
    }
}

/// Apply one schematic per element, each to a fresh child entity of the
/// current one, in input order.
#[derive(Debug, Clone)]
pub struct Children<S>(pub Vec<S>);

impl<S: Schematic> Schematic for Children<S> {
    /// Exactly the per-element child chain of `children_effect`.
    open spec fn effect(self, pre: CtxView, post: CtxView, r: SchematicResult) -> bool {
        children_effect(self.0@, pre, post, r)
    }

    fn instantiate(self, world: &mut World, ctx: &mut SchematicContext) -> (r: SchematicResult) {
        let Children(elems) = self;
        ctx.try_map_children(world, elems)
    }
}

/// `n` children made from duplicates of one schematic: each round a fresh
/// child record is appended under the view's current record and some
/// duplicate runs against it; the first failure stops the rest.
pub open spec fn repeat_effect<S: Schematic>(
    n: nat,
    pre: CtxView,
    post: CtxView,
    r: SchematicResult,
) -> bool
    decreases n,
{
    if n == 0 {
        post == pre && r is Ok
    } else {
        ||| (exists|d: S, e: Entity, mid: CtxView|
            #[trigger] d.effect(child_view(pre, e), mid, r) && r is Err && post == (CtxView {
                records: mid.records,
                current: pre.current,
            }))
        ||| (exists|d: S, e: Entity, mid: CtxView|
            #[trigger] d.effect(child_view(pre, e), mid, Ok(())) && repeat_effect::<S>(
                (n - 1) as nat,
                (CtxView { records: mid.records, current: pre.current }),
                post,
                r,
            ))
    }
}

/// Runs one duplicate of the schematic per fresh child, `count` times,
/// stopping at the first failure.
fn run_repeat<S: Schematic + Clone>(
    schematic: &S,
    count: usize,
    world: &mut World,
    ctx: &mut SchematicContext,
) -> (r: SchematicResult)
    requires
        old(ctx)@.wf(),
        ctx_in_world(*old(world), old(ctx)@),
        world_quiescent(*old(world)),
    ensures
        final(ctx)@.wf(),
        extends(old(ctx)@, final(ctx)@),
        final(ctx)@.current == old(ctx)@.current,
        ctx_in_world(*final(world), final(ctx)@),
        world_entities(*old(world)).subset_of(world_entities(*final(world))),
        records_fresh(*old(world), old(ctx)@, final(ctx)@),
        only_new_records_spawned(*old(world), *final(world), old(ctx)@, final(ctx)@),
        world_quiescent(*final(world)),
        repeat_effect::<S>(count as nat, old(ctx)@, final(ctx)@, r),
    decreases count,
{
    if count == 0 {
        return Ok(());
    }
    let d = schematic.clone();
    let ghost dup = d;
    let ghost pre = ctx@;
    let ghost w0 = *world;
    let saved = ctx.current_entity();
    let idx = ctx.push_child(world);
    let ghost vp = ctx@;
    let ghost wa = *world;
    let ghost child_rec = ctx@.records.last();
    let _ = ctx.set_current(idx);
    proof {
        assert(ctx@ == child_view(pre, child_rec.entity));
        lemma_push_step(w0, wa, pre, vp);
    }
    let r0 = d.instantiate(world, ctx);
    let ghost mid = ctx@;
    let ghost wb = *world;
    let _ = ctx.set_current(saved);
    match r0 {
        Err(e) => {
            proof {
                lemma_compose_step(w0, wa, wb, pre, vp, mid);
                assert(dup.effect(child_view(pre, child_rec.entity), mid, r0));
                assert(ctx@ == (CtxView { records: mid.records, current: pre.current }));
            }
            Err(e)
        },
        Ok(u) => {
            proof {
                assert(r0 == Ok::<(), SchematicError>(()));
                assert(dup.effect(child_view(pre, child_rec.entity), mid, Ok(())));
            }
            let r1 = run_repeat(schematic, count - 1, world, ctx);
            proof {
                lemma_compose_step(w0, wa, wb, pre, vp, mid);
                lemma_compose_step(w0, wb, *world, pre, mid, ctx@);
                assert(repeat_effect::<S>(
                    (count - 1) as nat,
                    (CtxView { records: mid.records, current: pre.current }),
                    final(ctx)@,
                    r1,
                ));
            }
            r1
        },
    }
}

/// Apply independent duplicates of one schematic to `count` fresh child
/// entities of the current one.
#[derive(Debug, Clone, Copy)]
pub struct RepeatChildren<S> {
    pub schematic: S,
    pub count: usize,
}

impl<S: Schematic + Clone> Schematic for RepeatChildren<S> {
    /// Exactly the duplicate-per-child chain of `repeat_effect`.
    open spec fn effect(self, pre: CtxView, post: CtxView, r: SchematicResult) -> bool {
        repeat_effect::<S>(self.count as nat, pre, post, r)
    }

    fn instantiate(self, world: &mut World, ctx: &mut SchematicContext) -> (r: SchematicResult) {
        run_repeat(&self.schematic, self.count, world, ctx)
    }
}

} // verus!

use bevy_ecs::component::{Component, StorageType};
use bevy_ecs::world::World;
use bevy_hierarchy::Children as HierarchyChildren;
use bevy_hierarchy::Parent as HierarchyParent;
use bevy_mod_schematica::hierarchy::{Children, Parent, RepeatChildren};
use bevy_mod_schematica::schematics::{Many, Maybe, OrDefault};
use bevy_mod_schematica::{
    spawn_schematic, CtxView, Leaf, Schematic, SchematicCommand, SchematicContext,
    SchematicResult, SchematicWorldExt,
};

#[derive(Debug, Clone, PartialEq)]
struct A;

impl Component for A {
    const STORAGE_TYPE: StorageType = StorageType::Table;
}

impl Schematic for A {
    fn effect(self, _pre: CtxView, _post: CtxView, _r: SchematicResult) -> bool {
        true
    }

    fn instantiate(self, world: &mut World, ctx: &mut SchematicContext) -> SchematicResult {
        ctx.insert(world, self);
        Ok(())
    }
}

#[derive(Debug, Clone, PartialEq)]
struct B {
    x: u8,
    y: u8,
}

impl Component for B {
    const STORAGE_TYPE: StorageType = StorageType::Table;
}

impl Schematic for B {
    fn effect(self, _pre: CtxView, _post: CtxView, _r: SchematicResult) -> bool {
        true
    }

    fn instantiate(self, world: &mut World, ctx: &mut SchematicContext) -> SchematicResult {
        ctx.insert(world, self);
        Ok(())
    }
}

#[derive(Debug, Clone, PartialEq)]
struct C(u8);

impl Component for C {
    const STORAGE_TYPE: StorageType = StorageType::Table;
}

impl Schematic for C {
    fn effect(self, _pre: CtxView, _post: CtxView, _r: SchematicResult) -> bool {
        true
    }

    fn instantiate(self, world: &mut World, ctx: &mut SchematicContext) -> SchematicResult {
        ctx.insert(world, self);
        Ok(())
    }
}

#[derive(Debug, Clone, PartialEq, Default)]
struct D(u8);

impl Component for D {
    const STORAGE_TYPE: StorageType = StorageType::Table;
}

impl Schematic for D {
    fn effect(self, _pre: CtxView, _post: CtxView, _r: SchematicResult) -> bool {
        true
    }

    fn instantiate(self, world: &mut World, ctx: &mut SchematicContext) -> SchematicResult {
        ctx.insert(world, self);
        Ok(())
    }
}

/// The hand-written equivalent of the generated product-type composition:
/// each field applied in declared order, short-circuiting on failure.
struct Simple {
    a: A,
    b: B,
    c: Children<Many<(C, OrDefault<D>)>>,
}

impl Schematic for Simple {
    fn effect(self, _pre: CtxView, _post: CtxView, _r: SchematicResult) -> bool {
        true
    }

    fn instantiate(self, world: &mut World, ctx: &mut SchematicContext) -> SchematicResult {
        self.a.instantiate(world, ctx)?;
        self.b.instantiate(world, ctx)?;
        self.c.instantiate(world, ctx)?;
        Ok(())
    }
}

fn sorted_children(world: &World, parent: bevy_ecs::entity::Entity) -> Vec<bevy_ecs::entity::Entity> {
    world
        .get::<HierarchyChildren>(parent)
        .map(|c| c.iter().copied().collect())
        .unwrap_or_default()
}

#[test]
fn leaf_bundle_succeeds_and_is_retrievable() {
    let mut world = World::new();
    let e = spawn_schematic(&mut world, Leaf::new(B { x: 4, y: 6 })).expect("leaf must succeed");
    assert_eq!(world.get::<B>(e), Some(&B { x: 4, y: 6 }));
}

#[test]
fn component_as_schematic_succeeds_and_is_retrievable() {
    let mut world = World::new();
    let e = world.spawn_schematic(C(42)).expect("leaf must succeed");
    assert_eq!(world.get::<C>(e), Some(&C(42)));
}

#[test]
fn ordered_tuple_short_circuits() {
    let mut world = World::new();
    let r = spawn_schematic(&mut world, Many((Parent(A), C(7))));
    let err = r.expect_err("parent redirect at root must fail");
    assert_eq!(err.message(), "entity does not have parent");
    // The element after the failing one never executed: no C anywhere.
    let mut q = world.query::<&C>();
    assert_eq!(q.iter(&world).count(), 0);
}

#[test]
fn ordered_tuple_keeps_work_done_before_the_failure() {
    let mut world = World::new();
    let r = spawn_schematic(&mut world, Many((C(3), Parent(A))));
    assert!(r.is_err());
    // No rollback: the first element's insertion stays.
    let mut q = world.query::<&C>();
    let values: Vec<&C> = q.iter(&world).collect();
    assert_eq!(values, vec![&C(3)]);
}

#[test]
fn children_from_list_creates_ordered_children() {
    let mut world = World::new();
    let root = spawn_schematic(
        &mut world,
        Children(vec![C(0), C(1), C(2)]),
    )
    .expect("children of leaves must succeed");
    let kids = sorted_children(&world, root);
    assert_eq!(kids.len(), 3);
    for (i, kid) in kids.iter().enumerate() {
        assert_eq!(world.get::<C>(*kid), Some(&C(i as u8)));
        assert_eq!(world.get::<HierarchyParent>(*kid).map(|p| p.get()), Some(root));
    }
}

#[test]
fn repeat_children_creates_independent_children() {
    let mut world = World::new();
    let root = spawn_schematic(
        &mut world,
        RepeatChildren { schematic: C(9), count: 4 },
    )
    .expect("repeat of leaves must succeed");
    let kids = sorted_children(&world, root);
    assert_eq!(kids.len(), 4);
    for kid in kids {
        assert_eq!(world.get::<C>(kid), Some(&C(9)));
    }
}

#[test]
fn repeat_children_with_library_leaf() {
    let mut world = World::new();
    let root = spawn_schematic(
        &mut world,
        RepeatChildren { schematic: Leaf::new(D(5)), count: 2 },
    )
    .expect("repeat of leaves must succeed");
    let kids = sorted_children(&world, root);
    assert_eq!(kids.len(), 2);
    for kid in kids {
        assert_eq!(world.get::<D>(kid), Some(&D(5)));
    }
}

#[test]
fn parent_redirect_at_root_fails_without_mutations() {
    let mut world = World::new();
    let r = spawn_schematic(&mut world, Parent(A));
    let err = r.expect_err("parent redirect at root must fail");
    assert_eq!(err.message(), "entity does not have parent");
    // Only the root entity was made, bare: no components, no children.
    assert_eq!(world.entities().len(), 1);
    let mut q = world.query::<&A>();
    assert_eq!(q.iter(&world).count(), 0);
}

#[test]
fn parent_redirect_lands_on_the_parent_entity() {
    let mut world = World::new();
    let root = spawn_schematic(&mut world, Children(vec![Parent(D(7))]))
        .expect("redirect below the root must succeed");
    // The redirected insertion landed on the root, not on the child.
    assert_eq!(world.get::<D>(root), Some(&D(7)));
    let kids = sorted_children(&world, root);
    assert_eq!(kids.len(), 1);
    assert_eq!(world.get::<D>(kids[0]), None);
}

#[test]
fn maybe_present_applies_and_absent_is_a_noop() {
    let mut world = World::new();
    let e1 = world.spawn_schematic(Maybe::Present(C(1))).expect("must succeed");
    assert_eq!(world.get::<C>(e1), Some(&C(1)));
    let e2 = world.spawn_schematic(Maybe::<C>::Absent).expect("must succeed");
    assert_eq!(world.get::<C>(e2), None);
}

#[test]
fn or_default_matches_direct_default() {
    let mut world = World::new();
    let via_fallback = world.spawn_schematic(OrDefault::<D>::UseDefault).expect("must succeed");
    let direct = world.spawn_schematic(D::default()).expect("must succeed");
    assert_eq!(world.get::<D>(via_fallback), world.get::<D>(direct));
    let chosen = world.spawn_schematic(OrDefault::Present(D(10))).expect("must succeed");
    assert_eq!(world.get::<D>(chosen), Some(&D(10)));
}

#[test]
fn end_to_end_aggregate() {
    let mut world = World::new();
    let simple = Simple {
        a: A,
        b: B { x: 4, y: 6 },
        c: Children(vec![
            Many((C(0), OrDefault::Present(D(10)))),
            Many((C(1), OrDefault::UseDefault)),
            Many((C(2), OrDefault::UseDefault)),
        ]),
    };
    let root = world.spawn_schematic(simple).expect("aggregate must succeed");
    assert_eq!(world.get::<A>(root), Some(&A));
    assert_eq!(world.get::<B>(root), Some(&B { x: 4, y: 6 }));
    let kids = sorted_children(&world, root);
    assert_eq!(kids.len(), 3);
    assert_eq!(world.get::<C>(kids[0]), Some(&C(0)));
    assert_eq!(world.get::<D>(kids[0]), Some(&D(10)));
    assert_eq!(world.get::<C>(kids[1]), Some(&C(1)));
    assert_eq!(world.get::<D>(kids[1]), Some(&D(0)));
    assert_eq!(world.get::<C>(kids[2]), Some(&C(2)));
    assert_eq!(world.get::<D>(kids[2]), Some(&D(0)));
}

#[test]
fn schematic_command_applies_like_the_direct_entry_point() {
    let mut world = World::new();
    let e = SchematicCommand(Leaf::new(C(11)))
        .apply(&mut world)
        .expect("command application must succeed");
    assert_eq!(world.get::<C>(e), Some(&C(11)));
}

#[test]
fn context_operations_track_the_record_sequence() {
    let mut world = World::new();
    let mut ctx = SchematicContext::new_root(&mut world);
    assert_eq!(ctx.len(), 1);
    assert_eq!(ctx.current_entity(), 0);
    assert_eq!(ctx.root().parent(), None);
    assert_eq!(ctx.current().entity(), ctx.root().entity());
    assert!(ctx.get(1).is_none());
    assert_eq!(ctx.set_current(3), None);

    let idx = ctx.push_child(&mut world);
    assert_eq!(idx, 1);
    assert_eq!(ctx.len(), 2);
    assert_eq!(ctx.current_entity(), 0);
    assert_eq!(ctx.get(1).unwrap().parent(), Some(0));
    assert_eq!(ctx.children(), vec![1]);

    assert_eq!(ctx.set_current(1), Some(()));
    assert_eq!(ctx.current_entity(), 1);
    assert_eq!(ctx.children(), Vec::<usize>::new());
    let grandchild = ctx.push_child(&mut world);
    assert_eq!(grandchild, 2);
    assert_eq!(ctx.get(2).unwrap().parent(), Some(1));
    assert_eq!(ctx.entities().len(), 3);
}

#[test]
fn insert_attaches_to_the_current_entity() {
    let mut world = World::new();
    let mut ctx = SchematicContext::new_root(&mut world);
    ctx.insert(&mut world, C(8));
    let root = ctx.root().entity();
    assert_eq!(world.get::<C>(root), Some(&C(8)));
}

#[test]
fn try_map_children_spawns_in_order_and_keeps_work_on_failure() {
    let mut world = World::new();
    let mut ctx = SchematicContext::new_root(&mut world);
    let r = ctx.try_map_children(&mut world, vec![C(0), C(1)]);
    assert!(r.is_ok());
    assert_eq!(ctx.len(), 3);
    assert_eq!(ctx.children(), vec![1, 2]);

    // The grandparent redirect fails at a child of the root, but the
    // child entity made for it stays recorded.
    let r2 = ctx.try_map_children(&mut world, vec![Parent(Parent(A))]);
    assert!(r2.is_err());
    assert_eq!(ctx.len(), 4);
    assert_eq!(ctx.children(), vec![1, 2, 3]);
}

#[test]
fn map_children_runs_every_element_and_collects_results() {
    let mut world = World::new();
    let mut ctx = SchematicContext::new_root(&mut world);
    // The failing redirect does not stop the later elements.
    let rs = ctx.map_children(
        &mut world,
        vec![Maybe::Present(Parent(Parent(C(9)))), Maybe::Absent, Maybe::Present(Parent(Parent(C(9))))],
    );
    assert_eq!(rs.len(), 3);
    assert!(rs[0].is_err());
    assert!(rs[1].is_ok());
    assert!(rs[2].is_err());
    assert_eq!(ctx.len(), 4);
    assert_eq!(ctx.children(), vec![1, 2, 3]);
}

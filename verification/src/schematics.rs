//! The value combinators: optional application, default fallback, and
//! ordered tuple composition against the same current entity.

use vstd::prelude::*;
use bevy_ecs::world::World;
use crate::{CtxView, Schematic, SchematicContext, SchematicResult};

verus! {

/// Maybe apply a schematic or do nothing.
#[derive(Debug, Clone, Copy)]
pub enum Maybe<S> {
    Present(S),
    Absent,
}

impl<S: Schematic> Schematic for Maybe<S> {
    /// Present delegates to the inner schematic; absent is a no-op success.
    open spec fn effect(self, pre: CtxView, post: CtxView, r: SchematicResult) -> bool {
        match self {
            Maybe::Present(s) => s.effect(pre, post, r),
            Maybe::Absent => post == pre && r is Ok,
        }
    }

    fn instantiate(self, world: &mut World, ctx: &mut SchematicContext) -> (r: SchematicResult) {
        match self {
            Maybe::Present(schematic) => schematic.instantiate(world, ctx),
            Maybe::Absent => Ok(()),
        }
    }
}

/// Apply either some schematic or the schematic type's default value.
#[derive(Debug, Clone, Copy)]
pub enum OrDefault<S> {
    Present(S),
    UseDefault,
}

impl<S: Schematic + Default> Schematic for OrDefault<S> {
    /// Present delegates to the inner schematic; the default variant
    /// substitutes the type's default value and delegates to it.
    open spec fn effect(self, pre: CtxView, post: CtxView, r: SchematicResult) -> bool {
        match self {
            OrDefault::Present(s) => s.effect(pre, post, r),
            OrDefault::UseDefault => exists|d: S|
                #[trigger] d.effect(pre, post, r) && call_ensures(S::default, (), d),
        }
    }

    fn instantiate(self, world: &mut World, ctx: &mut SchematicContext) -> (r: SchematicResult) {
        let schematic = match self {
            OrDefault::Present(schematic) => schematic,
            OrDefault::UseDefault => S::default(),
        };
        schematic.instantiate(world, ctx)
    }
}

/// Apply a tuple of different schematics, in declared order, against the
/// same current entity, stopping at the first failure.
#[derive(Debug, Clone, Copy)]
pub struct Many<T>(pub T);

/// 2 schematics applied in order against the same entity: either the
/// first fails and nothing further runs, or it succeeds into an
/// intermediate view from which the rest are applied in order.
pub open spec fn many_effect2<S1: Schematic, S2: Schematic>(
    s1: S1, s2: S2,
    pre: CtxView,
    post: CtxView,
    r: SchematicResult,
) -> bool {
    ||| (s1.effect(pre, post, r) && r is Err)
    ||| (exists|mid: CtxView|
        #[trigger] s1.effect(pre, mid, Ok(())) && s2.effect(mid, post, r))
}

/// 3 schematics applied in order against the same entity: either the
/// first fails and nothing further runs, or it succeeds into an
/// intermediate view from which the rest are applied in order.
pub open spec fn many_effect3<S1: Schematic, S2: Schematic, S3: Schematic>(
    s1: S1, s2: S2, s3: S3,
    pre: CtxView,
    post: CtxView,
    r: SchematicResult,
) -> bool {
    ||| (s1.effect(pre, post, r) && r is Err)
    ||| (exists|mid: CtxView|
        #[trigger] s1.effect(pre, mid, Ok(())) && many_effect2(s2, s3, mid, post, r))
}

/// 4 schematics applied in order against the same entity: either the
/// first fails and nothing further runs, or it succeeds into an
/// intermediate view from which the rest are applied in order.
pub open spec fn many_effect4<S1: Schematic, S2: Schematic, S3: Schematic, S4: Schematic>(
    s1: S1, s2: S2, s3: S3, s4: S4,
    pre: CtxView,
    post: CtxView,
    r: SchematicResult,
) -> bool {
    ||| (s1.effect(pre, post, r) && r is Err)
    ||| (exists|mid: CtxView|
        #[trigger] s1.effect(pre, mid, Ok(())) && many_effect3(s2, s3, s4, mid, post, r))
}

/// 5 schematics applied in order against the same entity: either the
/// first fails and nothing further runs, or it succeeds into an
/// intermediate view from which the rest are applied in order.
pub open spec fn many_effect5<S1: Schematic, S2: Schematic, S3: Schematic, S4: Schematic, S5: Schematic>(
    s1: S1, s2: S2, s3: S3, s4: S4, s5: S5,
    pre: CtxView,
    post: CtxView,
    r: SchematicResult,
) -> bool {
    ||| (s1.effect(pre, post, r) && r is Err)
    ||| (exists|mid: CtxView|
        #[trigger] s1.effect(pre, mid, Ok(())) && many_effect4(s2, s3, s4, s5, mid, post, r))
}

/// 6 schematics applied in order against the same entity: either the
/// first fails and nothing further runs, or it succeeds into an
/// intermediate view from which the rest are applied in order.
pub open spec fn many_effect6<S1: Schematic, S2: Schematic, S3: Schematic, S4: Schematic, S5: Schematic, S6: Schematic>(
    s1: S1, s2: S2, s3: S3, s4: S4, s5: S5, s6: S6,
    pre: CtxView,
    post: CtxView,
    r: SchematicResult,
) -> bool {
    ||| (s1.effect(pre, post, r) && r is Err)
    ||| (exists|mid: CtxView|
        #[trigger] s1.effect(pre, mid, Ok(())) && many_effect5(s2, s3, s4, s5, s6, mid, post, r))
}

/// 7 schematics applied in order against the same entity: either the
/// first fails and nothing further runs, or it succeeds into an
/// intermediate view from which the rest are applied in order.
pub open spec fn many_effect7<S1: Schematic, S2: Schematic, S3: Schematic, S4: Schematic, S5: Schematic, S6: Schematic, S7: Schematic>(
    s1: S1, s2: S2, s3: S3, s4: S4, s5: S5, s6: S6, s7: S7,
    pre: CtxView,
    post: CtxView,
    r: SchematicResult,
) -> bool {
    ||| (s1.effect(pre, post, r) && r is Err)
    ||| (exists|mid: CtxView|
        #[trigger] s1.effect(pre, mid, Ok(())) && many_effect6(s2, s3, s4, s5, s6, s7, mid, post, r))
}

/// 8 schematics applied in order against the same entity: either the
/// first fails and nothing further runs, or it succeeds into an
/// intermediate view from which the rest are applied in order.
pub open spec fn many_effect8<S1: Schematic, S2: Schematic, S3: Schematic, S4: Schematic, S5: Schematic, S6: Schematic, S7: Schematic, S8: Schematic>(
    s1: S1, s2: S2, s3: S3, s4: S4, s5: S5, s6: S6, s7: S7, s8: S8,
    pre: CtxView,
    post: CtxView,
    r: SchematicResult,
) -> bool {
    ||| (s1.effect(pre, post, r) && r is Err)
    ||| (exists|mid: CtxView|
        #[trigger] s1.effect(pre, mid, Ok(())) && many_effect7(s2, s3, s4, s5, s6, s7, s8, mid, post, r))
}

/// 9 schematics applied in order against the same entity: either the
/// first fails and nothing further runs, or it succeeds into an
/// intermediate view from which the rest are applied in order.
pub open spec fn many_effect9<S1: Schematic, S2: Schematic, S3: Schematic, S4: Schematic, S5: Schematic, S6: Schematic, S7: Schematic, S8: Schematic, S9: Schematic>(
    s1: S1, s2: S2, s3: S3, s4: S4, s5: S5, s6: S6, s7: S7, s8: S8, s9: S9,
    pre: CtxView,
    post: CtxView,
    r: SchematicResult,
) -> bool {
    ||| (s1.effect(pre, post, r) && r is Err)
    ||| (exists|mid: CtxView|
        #[trigger] s1.effect(pre, mid, Ok(())) && many_effect8(s2, s3, s4, s5, s6, s7, s8, s9, mid, post, r))
}

/// 10 schematics applied in order against the same entity: either the
/// first fails and nothing further runs, or it succeeds into an
/// intermediate view from which the rest are applied in order.
pub open spec fn many_effect10<S1: Schematic, S2: Schematic, S3: Schematic, S4: Schematic, S5: Schematic, S6: Schematic, S7: Schematic, S8: Schematic, S9: Schematic, S10: Schematic>(
    s1: S1, s2: S2, s3: S3, s4: S4, s5: S5, s6: S6, s7: S7, s8: S8, s9: S9, s10: S10,
    pre: CtxView,
    post: CtxView,
    r: SchematicResult,
) -> bool {
    ||| (s1.effect(pre, post, r) && r is Err)
    ||| (exists|mid: CtxView|
        #[trigger] s1.effect(pre, mid, Ok(())) && many_effect9(s2, s3, s4, s5, s6, s7, s8, s9, s10, mid, post, r))
}

impl<S1: Schematic, S2: Schematic> Schematic for Many<(S1, S2)> {
    open spec fn effect(self, pre: CtxView, post: CtxView, r: SchematicResult) -> bool {
        many_effect2(self.0.0, self.0.1, pre, post, r)
    }

    fn instantiate(self, world: &mut World, ctx: &mut SchematicContext) -> (r: SchematicResult) {
        let Many((s1, s2)) = self;
        let ghost pre = ctx@;
        let ghost w0 = *world;
        let r1 = s1.instantiate(world, ctx);
        let ghost m1 = ctx@;
        let ghost wm = *world;
        match r1 {
            Err(e) => {
                return Err(e);
            },
            Ok(u) => {
                proof {
                    assert(r1 == Ok::<(), crate::SchematicError>(()));
                }
            },
        }
        let r2 = s2.instantiate(world, ctx);
        proof {
            crate::lemma_compose_step(w0, wm, *world, pre, m1, ctx@);
            assert(s1.effect(pre, m1, Ok::<(), crate::SchematicError>(())));
            assert(s2.effect(m1, ctx@, r2));
        }
        r2
    }
}

impl<S1: Schematic, S2: Schematic, S3: Schematic> Schematic for Many<(S1, S2, S3)> {
    open spec fn effect(self, pre: CtxView, post: CtxView, r: SchematicResult) -> bool {
        many_effect3(self.0.0, self.0.1, self.0.2, pre, post, r)
    }

    fn instantiate(self, world: &mut World, ctx: &mut SchematicContext) -> (r: SchematicResult) {
        let Many((s1, s2, s3)) = self;
        let ghost pre = ctx@;
        let ghost w0 = *world;
        let r1 = s1.instantiate(world, ctx);
        let ghost m1 = ctx@;
        let ghost wm = *world;
        match r1 {
            Err(e) => {
                return Err(e);
            },
            Ok(u) => {
                proof {
                    assert(r1 == Ok::<(), crate::SchematicError>(()));
                }
            },
        }
        let rest = Many((s2, s3));
        let r2 = rest.instantiate(world, ctx);
        proof {
            crate::lemma_compose_step(w0, wm, *world, pre, m1, ctx@);
            assert(s1.effect(pre, m1, Ok::<(), crate::SchematicError>(())));
            assert(many_effect2(s2, s3, m1, ctx@, r2));
        }
        r2
    }
}

impl<S1: Schematic, S2: Schematic, S3: Schematic, S4: Schematic> Schematic for Many<(S1, S2, S3, S4)> {
    open spec fn effect(self, pre: CtxView, post: CtxView, r: SchematicResult) -> bool {
        many_effect4(self.0.0, self.0.1, self.0.2, self.0.3, pre, post, r)
    }

    fn instantiate(self, world: &mut World, ctx: &mut SchematicContext) -> (r: SchematicResult) {
        let Many((s1, s2, s3, s4)) = self;
        let ghost pre = ctx@;
        let ghost w0 = *world;
        let r1 = s1.instantiate(world, ctx);
        let ghost m1 = ctx@;
        let ghost wm = *world;
        match r1 {
            Err(e) => {
                return Err(e);
            },
            Ok(u) => {
                proof {
                    assert(r1 == Ok::<(), crate::SchematicError>(()));
                }
            },
        }
        let rest = Many((s2, s3, s4));
        let r2 = rest.instantiate(world, ctx);
        proof {
            crate::lemma_compose_step(w0, wm, *world, pre, m1, ctx@);
            assert(s1.effect(pre, m1, Ok::<(), crate::SchematicError>(())));
            assert(many_effect3(s2, s3, s4, m1, ctx@, r2));
        }
        r2
    }
}

impl<S1: Schematic, S2: Schematic, S3: Schematic, S4: Schematic, S5: Schematic> Schematic for Many<(S1, S2, S3, S4, S5)> {
    open spec fn effect(self, pre: CtxView, post: CtxView, r: SchematicResult) -> bool {
        many_effect5(self.0.0, self.0.1, self.0.2, self.0.3, self.0.4, pre, post, r)
    }

    fn instantiate(self, world: &mut World, ctx: &mut SchematicContext) -> (r: SchematicResult) {
        let Many((s1, s2, s3, s4, s5)) = self;
        let ghost pre = ctx@;
        let ghost w0 = *world;
        let r1 = s1.instantiate(world, ctx);
        let ghost m1 = ctx@;
        let ghost wm = *world;
        match r1 {
            Err(e) => {
                return Err(e);
            },
            Ok(u) => {
                proof {
                    assert(r1 == Ok::<(), crate::SchematicError>(()));
                }
            },
        }
        let rest = Many((s2, s3, s4, s5));
        let r2 = rest.instantiate(world, ctx);
        proof {
            crate::lemma_compose_step(w0, wm, *world, pre, m1, ctx@);
            assert(s1.effect(pre, m1, Ok::<(), crate::SchematicError>(())));
            assert(many_effect4(s2, s3, s4, s5, m1, ctx@, r2));
        }
        r2
    }
}

impl<S1: Schematic, S2: Schematic, S3: Schematic, S4: Schematic, S5: Schematic, S6: Schematic> Schematic for Many<(S1, S2, S3, S4, S5, S6)> {
    open spec fn effect(self, pre: CtxView, post: CtxView, r: SchematicResult) -> bool {
        many_effect6(self.0.0, self.0.1, self.0.2, self.0.3, self.0.4, self.0.5, pre, post, r)
    }

    fn instantiate(self, world: &mut World, ctx: &mut SchematicContext) -> (r: SchematicResult) {
        let Many((s1, s2, s3, s4, s5, s6)) = self;
        let ghost pre = ctx@;
        let ghost w0 = *world;
        let r1 = s1.instantiate(world, ctx);
        let ghost m1 = ctx@;
        let ghost wm = *world;
        match r1 {
            Err(e) => {
                return Err(e);
            },
            Ok(u) => {
                proof {
                    assert(r1 == Ok::<(), crate::SchematicError>(()));
                }
            },
        }
        let rest = Many((s2, s3, s4, s5, s6));
        let r2 = rest.instantiate(world, ctx);
        proof {
            crate::lemma_compose_step(w0, wm, *world, pre, m1, ctx@);
            assert(s1.effect(pre, m1, Ok::<(), crate::SchematicError>(())));
            assert(many_effect5(s2, s3, s4, s5, s6, m1, ctx@, r2));
        }
        r2
    }
}

impl<S1: Schematic, S2: Schematic, S3: Schematic, S4: Schematic, S5: Schematic, S6: Schematic, S7: Schematic> Schematic for Many<(S1, S2, S3, S4, S5, S6, S7)> {
    open spec fn effect(self, pre: CtxView, post: CtxView, r: SchematicResult) -> bool {
        many_effect7(self.0.0, self.0.1, self.0.2, self.0.3, self.0.4, self.0.5, self.0.6, pre, post, r)
    }

    fn instantiate(self, world: &mut World, ctx: &mut SchematicContext) -> (r: SchematicResult) {
        let Many((s1, s2, s3, s4, s5, s6, s7)) = self;
        let ghost pre = ctx@;
        let ghost w0 = *world;
        let r1 = s1.instantiate(world, ctx);
        let ghost m1 = ctx@;
        let ghost wm = *world;
        match r1 {
            Err(e) => {
                return Err(e);
            },
            Ok(u) => {
                proof {
                    assert(r1 == Ok::<(), crate::SchematicError>(()));
                }
            },
        }
        let rest = Many((s2, s3, s4, s5, s6, s7));
        let r2 = rest.instantiate(world, ctx);
        proof {
            crate::lemma_compose_step(w0, wm, *world, pre, m1, ctx@);
            assert(s1.effect(pre, m1, Ok::<(), crate::SchematicError>(())));
            assert(many_effect6(s2, s3, s4, s5, s6, s7, m1, ctx@, r2));
        }
        r2
    }
}

impl<S1: Schematic, S2: Schematic, S3: Schematic, S4: Schematic, S5: Schematic, S6: Schematic, S7: Schematic, S8: Schematic> Schematic for Many<(S1, S2, S3, S4, S5, S6, S7, S8)> {
    open spec fn effect(self, pre: CtxView, post: CtxView, r: SchematicResult) -> bool {
        many_effect8(self.0.0, self.0.1, self.0.2, self.0.3, self.0.4, self.0.5, self.0.6, self.0.7, pre, post, r)
    }

    fn instantiate(self, world: &mut World, ctx: &mut SchematicContext) -> (r: SchematicResult) {
        let Many((s1, s2, s3, s4, s5, s6, s7, s8)) = self;
        let ghost pre = ctx@;
        let ghost w0 = *world;
        let r1 = s1.instantiate(world, ctx);
        let ghost m1 = ctx@;
        let ghost wm = *world;
        match r1 {
            Err(e) => {
                return Err(e);
            },
            Ok(u) => {
                proof {
                    assert(r1 == Ok::<(), crate::SchematicError>(()));
                }
            },
        }
        let rest = Many((s2, s3, s4, s5, s6, s7, s8));
        let r2 = rest.instantiate(world, ctx);
        proof {
            crate::lemma_compose_step(w0, wm, *world, pre, m1, ctx@);
            assert(s1.effect(pre, m1, Ok::<(), crate::SchematicError>(())));
            assert(many_effect7(s2, s3, s4, s5, s6, s7, s8, m1, ctx@, r2));
        }
        r2
    }
}

impl<S1: Schematic, S2: Schematic, S3: Schematic, S4: Schematic, S5: Schematic, S6: Schematic, S7: Schematic, S8: Schematic, S9: Schematic> Schematic for Many<(S1, S2, S3, S4, S5, S6, S7, S8, S9)> {
    open spec fn effect(self, pre: CtxView, post: CtxView, r: SchematicResult) -> bool {
        many_effect9(self.0.0, self.0.1, self.0.2, self.0.3, self.0.4, self.0.5, self.0.6, self.0.7, self.0.8, pre, post, r)
    }

    fn instantiate(self, world: &mut World, ctx: &mut SchematicContext) -> (r: SchematicResult) {
        let Many((s1, s2, s3, s4, s5, s6, s7, s8, s9)) = self;
        let ghost pre = ctx@;
        let ghost w0 = *world;
        let r1 = s1.instantiate(world, ctx);
        let ghost m1 = ctx@;
        let ghost wm = *world;
        match r1 {
            Err(e) => {
                return Err(e);
            },
            Ok(u) => {
                proof {
                    assert(r1 == Ok::<(), crate::SchematicError>(()));
                }
            },
        }
        let rest = Many((s2, s3, s4, s5, s6, s7, s8, s9));
        let r2 = rest.instantiate(world, ctx);
        proof {
            crate::lemma_compose_step(w0, wm, *world, pre, m1, ctx@);
            assert(s1.effect(pre, m1, Ok::<(), crate::SchematicError>(())));
            assert(many_effect8(s2, s3, s4, s5, s6, s7, s8, s9, m1, ctx@, r2));
        }
        r2
    }
}

impl<S1: Schematic, S2: Schematic, S3: Schematic, S4: Schematic, S5: Schematic, S6: Schematic, S7: Schematic, S8: Schematic, S9: Schematic, S10: Schematic> Schematic for Many<(S1, S2, S3, S4, S5, S6, S7, S8, S9, S10)> {
    open spec fn effect(self, pre: CtxView, post: CtxView, r: SchematicResult) -> bool {
        many_effect10(self.0.0, self.0.1, self.0.2, self.0.3, self.0.4, self.0.5, self.0.6, self.0.7, self.0.8, self.0.9, pre, post, r)
    }

    fn instantiate(self, world: &mut World, ctx: &mut SchematicContext) -> (r: SchematicResult) {
        let Many((s1, s2, s3, s4, s5, s6, s7, s8, s9, s10)) = self;
        let ghost pre = ctx@;
        let ghost w0 = *world;
        let r1 = s1.instantiate(world, ctx);
        let ghost m1 = ctx@;
        let ghost wm = *world;
        match r1 {
            Err(e) => {
                return Err(e);
            },
            Ok(u) => {
                proof {
                    assert(r1 == Ok::<(), crate::SchematicError>(()));
                }
            },
        }
        let rest = Many((s2, s3, s4, s5, s6, s7, s8, s9, s10));
        let r2 = rest.instantiate(world, ctx);
        proof {
            crate::lemma_compose_step(w0, wm, *world, pre, m1, ctx@);
            assert(s1.effect(pre, m1, Ok::<(), crate::SchematicError>(())));
            assert(many_effect9(s2, s3, s4, s5, s6, s7, s8, s9, s10, m1, ctx@, r2));
        }
        r2
    }
}

} // verus!

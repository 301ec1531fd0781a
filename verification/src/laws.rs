//! The general laws of the instantiation protocol, each proved from the
//! combinators' published effects alone.

use vstd::prelude::*;
use bevy_ecs::entity::Entity;
use crate::{no_parent_message, result_unit, CtxView, Leaf, Schematic, SchematicResult};
use crate::hierarchy::{child_view, children_effect, repeat_effect, Parent};
use crate::schematics::{
    many_effect2, many_effect3, many_effect4, many_effect5, many_effect6, many_effect7,
    many_effect8, many_effect9, Many, OrDefault,
};

verus! {

/// Law: instantiating a leaf data bundle always succeeds and never changes
/// the record sequence or the current index.
pub proof fn lemma_leaf_always_succeeds(l: Leaf, pre: CtxView, post: CtxView, r: SchematicResult)
    requires
        l.effect(pre, post, r),
    ensures
        r is Ok,
        post == pre,
{
}

/// Law: the entry point owes success to every leaf bundle: any spawn
/// outcome that realizes a leaf's effect is a success.
pub proof fn lemma_spawn_leaf_succeeds(
    l: Leaf,
    r: Result<bevy_ecs::entity::Entity, crate::SchematicError>,
)
    requires
        exists|pre: CtxView, post: CtxView| #[trigger] l.effect(pre, post, result_unit(r)),
    ensures
        r is Ok,
{
    let (pre, post) = choose|pre: CtxView, post: CtxView|
        #[trigger] l.effect(pre, post, result_unit(r));
}

/// Law: when an ordered pair fails, the failure is exactly the first
/// failing element's, and the elements after it contribute nothing:
/// either the first element failed and produced the whole outcome itself,
/// or it succeeded and the second produced the whole remaining outcome.
pub proof fn lemma_many_first_failure<S1: Schematic, S2: Schematic>(
    m: Many<(S1, S2)>,
    pre: CtxView,
    post: CtxView,
    r: SchematicResult,
)
    requires
        m.effect(pre, post, r),
        r is Err,
    ensures
        m.0.0.effect(pre, post, r) || exists|mid: CtxView|
            #[trigger] m.0.0.effect(pre, mid, Ok(())) && m.0.1.effect(mid, post, r),
{
}

/// Law: when an ordered 3-tuple fails, the failure is exactly the first
/// failing element's: either the first element failed and produced the
/// whole outcome itself, or it succeeded and the remaining elements,
/// applied in order, produced the whole remaining outcome.
pub proof fn lemma_many3_first_failure<S1: Schematic, S2: Schematic, S3: Schematic>(
    m: Many<(S1, S2, S3)>,
    pre: CtxView,
    post: CtxView,
    r: SchematicResult,
)
    requires
        m.effect(pre, post, r),
        r is Err,
    ensures
        m.0.0.effect(pre, post, r) || exists|mid: CtxView|
            #[trigger] m.0.0.effect(pre, mid, Ok(())) && many_effect2(m.0.1, m.0.2, mid, post, r),
{
}

/// Law: when an ordered 4-tuple fails, the failure is exactly the first
/// failing element's: either the first element failed and produced the
/// whole outcome itself, or it succeeded and the remaining elements,
/// applied in order, produced the whole remaining outcome.
pub proof fn lemma_many4_first_failure<S1: Schematic, S2: Schematic, S3: Schematic, S4: Schematic>(
    m: Many<(S1, S2, S3, S4)>,
    pre: CtxView,
    post: CtxView,
    r: SchematicResult,
)
    requires
        m.effect(pre, post, r),
        r is Err,
    ensures
        m.0.0.effect(pre, post, r) || exists|mid: CtxView|
            #[trigger] m.0.0.effect(pre, mid, Ok(())) && many_effect3(m.0.1, m.0.2, m.0.3, mid, post, r),
{
}

/// Law: when an ordered 5-tuple fails, the failure is exactly the first
/// failing element's: either the first element failed and produced the
/// whole outcome itself, or it succeeded and the remaining elements,
/// applied in order, produced the whole remaining outcome.
pub proof fn lemma_many5_first_failure<S1: Schematic, S2: Schematic, S3: Schematic, S4: Schematic, S5: Schematic>(
    m: Many<(S1, S2, S3, S4, S5)>,
    pre: CtxView,
    post: CtxView,
    r: SchematicResult,
)
    requires
        m.effect(pre, post, r),
        r is Err,
    ensures
        m.0.0.effect(pre, post, r) || exists|mid: CtxView|
            #[trigger] m.0.0.effect(pre, mid, Ok(())) && many_effect4(m.0.1, m.0.2, m.0.3, m.0.4, mid, post, r),
{
}

/// Law: when an ordered 6-tuple fails, the failure is exactly the first
/// failing element's: either the first element failed and produced the
/// whole outcome itself, or it succeeded and the remaining elements,
/// applied in order, produced the whole remaining outcome.
pub proof fn lemma_many6_first_failure<S1: Schematic, S2: Schematic, S3: Schematic, S4: Schematic, S5: Schematic, S6: Schematic>(
    m: Many<(S1, S2, S3, S4, S5, S6)>,
    pre: CtxView,
    post: CtxView,
    r: SchematicResult,
)
    requires
        m.effect(pre, post, r),
        r is Err,
    ensures
        m.0.0.effect(pre, post, r) || exists|mid: CtxView|
            #[trigger] m.0.0.effect(pre, mid, Ok(())) && many_effect5(m.0.1, m.0.2, m.0.3, m.0.4, m.0.5, mid, post, r),
{
}

/// Law: when an ordered 7-tuple fails, the failure is exactly the first
/// failing element's: either the first element failed and produced the
/// whole outcome itself, or it succeeded and the remaining elements,
/// applied in order, produced the whole remaining outcome.
pub proof fn lemma_many7_first_failure<S1: Schematic, S2: Schematic, S3: Schematic, S4: Schematic, S5: Schematic, S6: Schematic, S7: Schematic>(
    m: Many<(S1, S2, S3, S4, S5, S6, S7)>,
    pre: CtxView,
    post: CtxView,
    r: SchematicResult,
)
    requires
        m.effect(pre, post, r),
        r is Err,
    ensures
        m.0.0.effect(pre, post, r) || exists|mid: CtxView|
            #[trigger] m.0.0.effect(pre, mid, Ok(())) && many_effect6(m.0.1, m.0.2, m.0.3, m.0.4, m.0.5, m.0.6, mid, post, r),
{
}

/// Law: when an ordered 8-tuple fails, the failure is exactly the first
/// failing element's: either the first element failed and produced the
/// whole outcome itself, or it succeeded and the remaining elements,
/// applied in order, produced the whole remaining outcome.
pub proof fn lemma_many8_first_failure<S1: Schematic, S2: Schematic, S3: Schematic, S4: Schematic, S5: Schematic, S6: Schematic, S7: Schematic, S8: Schematic>(
    m: Many<(S1, S2, S3, S4, S5, S6, S7, S8)>,
    pre: CtxView,
    post: CtxView,
    r: SchematicResult,
)
    requires
        m.effect(pre, post, r),
        r is Err,
    ensures
        m.0.0.effect(pre, post, r) || exists|mid: CtxView|
            #[trigger] m.0.0.effect(pre, mid, Ok(())) && many_effect7(m.0.1, m.0.2, m.0.3, m.0.4, m.0.5, m.0.6, m.0.7, mid, post, r),
{
}

/// Law: when an ordered 9-tuple fails, the failure is exactly the first
/// failing element's: either the first element failed and produced the
/// whole outcome itself, or it succeeded and the remaining elements,
/// applied in order, produced the whole remaining outcome.
pub proof fn lemma_many9_first_failure<S1: Schematic, S2: Schematic, S3: Schematic, S4: Schematic, S5: Schematic, S6: Schematic, S7: Schematic, S8: Schematic, S9: Schematic>(
    m: Many<(S1, S2, S3, S4, S5, S6, S7, S8, S9)>,
    pre: CtxView,
    post: CtxView,
    r: SchematicResult,
)
    requires
        m.effect(pre, post, r),
        r is Err,
    ensures
        m.0.0.effect(pre, post, r) || exists|mid: CtxView|
            #[trigger] m.0.0.effect(pre, mid, Ok(())) && many_effect8(m.0.1, m.0.2, m.0.3, m.0.4, m.0.5, m.0.6, m.0.7, m.0.8, mid, post, r),
{
}

/// Law: when an ordered 10-tuple fails, the failure is exactly the first
/// failing element's: either the first element failed and produced the
/// whole outcome itself, or it succeeded and the remaining elements,
/// applied in order, produced the whole remaining outcome.
pub proof fn lemma_many10_first_failure<S1: Schematic, S2: Schematic, S3: Schematic, S4: Schematic, S5: Schematic, S6: Schematic, S7: Schematic, S8: Schematic, S9: Schematic, S10: Schematic>(
    m: Many<(S1, S2, S3, S4, S5, S6, S7, S8, S9, S10)>,
    pre: CtxView,
    post: CtxView,
    r: SchematicResult,
)
    requires
        m.effect(pre, post, r),
        r is Err,
    ensures
        m.0.0.effect(pre, post, r) || exists|mid: CtxView|
            #[trigger] m.0.0.effect(pre, mid, Ok(())) && many_effect9(m.0.1, m.0.2, m.0.3, m.0.4, m.0.5, m.0.6, m.0.7, m.0.8, m.0.9, mid, post, r),
{
}

/// Law: a children list of leaves applied at a view always succeeds and
/// creates exactly one child record per element, in input order, each
/// recording the view's current index as its parent; the records already
/// present stay untouched.
pub proof fn lemma_children_of_leaves(
    elems: Seq<Leaf>,
    pre: CtxView,
    post: CtxView,
    r: SchematicResult,
)
    requires
        children_effect(elems, pre, post, r),
    ensures
        r is Ok,
        post.current == pre.current,
        post.records.len() == pre.records.len() + elems.len(),
        forall|k: int| 0 <= k < pre.records.len() ==> post.records[k] == pre.records[k],
        forall|k: int|
            0 <= k < elems.len() ==> (#[trigger] post.records[pre.records.len() + k]).parent
                == Some(pre.current as usize),
    decreases elems.len(),
{
    if elems.len() == 0 {
    } else {
        assert(!(exists|e: Entity, mid: CtxView|
            #[trigger] elems[0].effect(child_view(pre, e), mid, r) && r is Err && post == (CtxView {
                records: mid.records,
                current: pre.current,
            })));
        let (e, mid) = choose|e: Entity, mid: CtxView|
            #[trigger] elems[0].effect(child_view(pre, e), mid, Ok(())) && children_effect(
                elems.skip(1),
                (CtxView { records: mid.records, current: pre.current }),
                post,
                r,
            );
        assert(mid == child_view(pre, e));
        let pre2 = CtxView { records: mid.records, current: pre.current };
        lemma_children_of_leaves(elems.skip(1), pre2, post, r);
        assert(pre2.records[pre.records.len() as int].parent == Some(pre.current as usize));
        assert forall|k: int| 0 <= k < elems.len() implies (#[trigger] post.records[pre.records.len()
            + k]).parent == Some(pre.current as usize) by {
            if k == 0 {
                assert(post.records[pre2.records.len() - 1] == pre2.records[pre2.records.len()
                    - 1]);
            } else {
                assert(post.records[pre2.records.len() + (k - 1)].parent == Some(
                    pre2.current as usize,
                ));
            }
        }
    }
}

/// Law: repeating a leaf schematic over `n` fresh children always succeeds
/// and creates exactly `n` child records, each recording the view's current
/// index as its parent; the records already present stay untouched.
pub proof fn lemma_repeat_of_leaves(n: nat, pre: CtxView, post: CtxView, r: SchematicResult)
    requires
        repeat_effect::<Leaf>(n, pre, post, r),
    ensures
        r is Ok,
        post.current == pre.current,
        post.records.len() == pre.records.len() + n,
        forall|k: int| 0 <= k < pre.records.len() ==> post.records[k] == pre.records[k],
        forall|k: int|
            0 <= k < n ==> (#[trigger] post.records[pre.records.len() + k]).parent == Some(
                pre.current as usize,
            ),
    decreases n,
{
    if n == 0 {
    } else {
        assert(!(exists|d: Leaf, e: Entity, mid: CtxView|
            #[trigger] d.effect(child_view(pre, e), mid, r) && r is Err && post == (CtxView {
                records: mid.records,
                current: pre.current,
            })));
        let (d, e, mid) = choose|d: Leaf, e: Entity, mid: CtxView|
            #[trigger] d.effect(child_view(pre, e), mid, Ok(())) && repeat_effect::<Leaf>(
                (n - 1) as nat,
                (CtxView { records: mid.records, current: pre.current }),
                post,
                r,
            );
        assert(mid == child_view(pre, e));
        let pre2 = CtxView { records: mid.records, current: pre.current };
        lemma_repeat_of_leaves((n - 1) as nat, pre2, post, r);
        assert(pre2.records[pre.records.len() as int].parent == Some(pre.current as usize));
        assert forall|k: int| 0 <= k < n implies (#[trigger] post.records[pre.records.len()
            + k]).parent == Some(pre.current as usize) by {
            if k == 0 {
                assert(post.records[pre2.records.len() - 1] == pre2.records[pre2.records.len()
                    - 1]);
            } else {
                assert(post.records[pre2.records.len() + (k - 1)].parent == Some(
                    pre2.current as usize,
                ));
            }
        }
    }
}

/// Law: a parent redirection applied at the root record, which never has
/// a parent, fails with exactly the structural-precondition error and
/// leaves the view untouched.
pub proof fn lemma_parent_redirect_at_root_fails<S: Schematic>(
    p: Parent<S>,
    pre: CtxView,
    post: CtxView,
    r: SchematicResult,
)
    requires
        pre.wf(),
        pre.current == 0,
        p.effect(pre, post, r),
    ensures
        r is Err,
        r matches Err(err) && err.0@ == no_parent_message(),
        post == pre,
{
}

/// Law: the use-default fallback behaves as instantiating the type's
/// default value directly: its outcome is the outcome of a value that
/// `default` may return, with nothing added or skipped by the fallback
/// itself.
pub proof fn lemma_use_default_is_direct<S: Schematic + Default>(
    pre: CtxView,
    post: CtxView,
    r: SchematicResult,
)
    requires
        OrDefault::<S>::UseDefault.effect(pre, post, r),
    ensures
        exists|d: S| #[trigger] d.effect(pre, post, r) && call_ensures(S::default, (), d),
{
}

} // verus!

//! Laws of the store, proved once and for all over the model transitions.
//!
//! Every executable operation of [`crate::world::World`] is specified as a
//! [`WorldModel`] transition, so each lemma here is a statement about every
//! possible sequence of calls on a well-formed world.

use vstd::prelude::*;
use crate::entity::Entity;
use crate::error::EcsError;
use crate::model::{WorldModel, mask_covers};

verus! {

/// After a successful `remove_entity`, the handle no longer exists, and no
/// component of any tag ever added to it is still present.
pub proof fn lemma_remove_entity_purges<V>(m: WorldModel<V>, e: Entity)
    requires
        m.wf(),
        m.contains_entity(e),
    ensures
        ({
            let (m2, r) = m.spec_destroy(e);
            &&& r == Ok::<(), EcsError>(())
            &&& !m2.contains_entity(e)
            &&& forall|tag: u64| !(#[trigger] m2.has_at(e, tag))
            &&& forall|tag: u64| (#[trigger] m2.comp_at(e, tag)) is None
        }),
{
    let (m2, r) = m.spec_destroy(e);
    assert(!m2.live[e.id().index as int]);
}

/// `remove_entity` on a handle that denotes no live entity fails with
/// `EntityNotFound` and leaves the world unchanged. This covers handles
/// never issued, handles already removed, and stale handles of reused slots.
pub proof fn lemma_remove_entity_missing<V>(m: WorldModel<V>, e: Entity)
    requires
        !m.contains_entity(e),
    ensures
        m.spec_destroy(e) == (m, Err::<(), EcsError>(EcsError::EntityNotFound(e))),
{
}

/// A second removal of the same entity always fails with `EntityNotFound`
/// and changes nothing.
pub proof fn lemma_remove_entity_twice<V>(m: WorldModel<V>, e: Entity)
    requires
        m.wf(),
    ensures
        ({
            let m2 = m.spec_destroy(e).0;
            m2.spec_destroy(e) == (m2, Err::<(), EcsError>(EcsError::EntityNotFound(e)))
        }),
{
    let m2 = m.spec_destroy(e).0;
    if m.contains_entity(e) {
        assert(!m2.live[e.id().index as int]);
    }
}

/// Adding a component twice for the same (entity, tag) leaves the second
/// value: `add_component` overwrites.
pub proof fn lemma_add_component_overwrites<V>(
    m: WorldModel<V>,
    e: Entity,
    tag: u64,
    v1: V,
    v2: V,
)
    requires
        m.wf(),
        m.contains_entity(e),
    ensures
        ({
            let m1 = m.spec_add(e, tag, v1).0;
            let m2 = m1.spec_add(e, tag, v2).0;
            m2.comp_at(e, tag) == Some(v2)
        }),
{
}

/// Exactly how `add_component` changes stored values: the entity holds the
/// new value under the tag, and every other (entity, tag) pair is untouched.
pub proof fn lemma_add_component_comp_at<V>(
    m: WorldModel<V>,
    e: Entity,
    tag: u64,
    v: V,
    e2: Entity,
    tag2: u64,
)
    requires
        m.wf(),
        m.contains_entity(e),
    ensures
        ({
            let m1 = m.spec_add(e, tag, v).0;
            m1.comp_at(e2, tag2) == (if e2 == e && tag2 == tag {
                Some(v)
            } else {
                m.comp_at(e2, tag2)
            })
        }),
{
    let m1 = m.spec_add(e, tag, v).0;
    if m1.contains_entity(e2) && e2.id().index == e.id().index && e2 != e {
        assert(e2.id().generation == m.gens[e.id().index as int]);
        assert(false);
    }
}

/// Exactly how `remove_component` changes stored values: the entity loses
/// its value under the tag, and every other (entity, tag) pair is untouched.
pub proof fn lemma_remove_component_comp_at<V>(
    m: WorldModel<V>,
    e: Entity,
    tag: u64,
    e2: Entity,
    tag2: u64,
)
    requires
        m.wf(),
        m.contains_entity(e),
        m.registered(tag),
    ensures
        ({
            let m1 = m.spec_remove_component(e, tag).0;
            m1.comp_at(e2, tag2) == (if e2 == e && tag2 == tag {
                None
            } else {
                m.comp_at(e2, tag2)
            })
        }),
{
    let m1 = m.spec_remove_component(e, tag).0;
    if m1.contains_entity(e2) && e2.id().index == e.id().index && e2 != e {
        assert(e2.id().generation == m.gens[e.id().index as int]);
        assert(false);
    }
}

/// Exactly how `add_component` changes the membership index: the tag becomes
/// present for the entity, and every other (entity, tag) pair is untouched.
pub proof fn lemma_add_component_has<V>(
    m: WorldModel<V>,
    e: Entity,
    tag: u64,
    v: V,
    e2: Entity,
    tag2: u64,
)
    requires
        m.wf(),
        m.contains_entity(e),
    ensures
        ({
            let m1 = m.spec_add(e, tag, v).0;
            m1.has_at(e2, tag2) == (if e2 == e && tag2 == tag {
                true
            } else {
                m.has_at(e2, tag2)
            })
        }),
{
    let m1 = m.spec_add(e, tag, v).0;
    if m1.contains_entity(e2) && e2.id().index == e.id().index && e2 != e {
        assert(e2.id().generation == m.gens[e.id().index as int]);
        assert(false);
    }
}

/// Exactly how `remove_component` changes the membership index: the tag
/// becomes absent for the entity, and every other (entity, tag) pair is
/// untouched.
pub proof fn lemma_remove_component_has<V>(
    m: WorldModel<V>,
    e: Entity,
    tag: u64,
    e2: Entity,
    tag2: u64,
)
    requires
        m.wf(),
        m.contains_entity(e),
        m.registered(tag),
    ensures
        ({
            let m1 = m.spec_remove_component(e, tag).0;
            m1.has_at(e2, tag2) == (if e2 == e && tag2 == tag {
                false
            } else {
                m.has_at(e2, tag2)
            })
        }),
{
    let m1 = m.spec_remove_component(e, tag).0;
    if m1.contains_entity(e2) && e2.id().index == e.id().index && e2 != e {
        assert(e2.id().generation == m.gens[e.id().index as int]);
        assert(false);
    }
}

/// Creating an entity leaves every existing entity's components untouched.
pub proof fn lemma_create_entity_preserves_others<V>(m: WorldModel<V>, e2: Entity, tag: u64)
    requires
        m.wf(),
        m.contains_entity(e2),
    ensures
        ({
            let (m2, e) = m.spec_create();
            &&& e != e2
            &&& m2.contains_entity(e2)
            &&& m2.has_at(e2, tag) == m.has_at(e2, tag)
            &&& m2.comp_at(e2, tag) == m.comp_at(e2, tag)
        }),
{
    let (m2, e) = m.spec_create();
    if m.free.len() > 0 {
        assert(!m.live[m.free.last() as int]);
    }
}

/// Removing one entity leaves every other live entity's components
/// untouched.
pub proof fn lemma_remove_entity_preserves_others<V>(
    m: WorldModel<V>,
    e: Entity,
    e2: Entity,
    tag: u64,
)
    requires
        m.wf(),
        m.contains_entity(e2),
        e2 != e,
    ensures
        ({
            let m2 = m.spec_destroy(e).0;
            &&& m2.contains_entity(e2)
            &&& m2.has_at(e2, tag) == m.has_at(e2, tag)
            &&& m2.comp_at(e2, tag) == m.comp_at(e2, tag)
        }),
{
    let m2 = m.spec_destroy(e).0;
    if m.contains_entity(e) {
        if e2.id().index == e.id().index {
            assert(e2.id().generation == m.gens[e.id().index as int]);
            assert(false);
        }
        assert(m2.masks[e2.id().index as int] == m.masks[e2.id().index as int]);
        if m.comps.dom().contains(tag) {
            assert(m2.comps[tag] == m.comps[tag].remove(e.id().index));
        }
    }
}

/// The membership index never lies: a tag is present for an entity exactly
/// when the tag's typed store holds a value for it.
pub proof fn lemma_mask_matches_store<V>(m: WorldModel<V>, e: Entity, tag: u64)
    requires
        m.wf(),
    ensures
        m.has_at(e, tag) <==> m.comp_at(e, tag) is Some,
{
}

/// Membership in a query result up to slot `n`, characterized.
proof fn lemma_query_up_to_contains<V>(m: WorldModel<V>, required: Seq<u64>, n: int, e: Entity)
    requires
        m.wf(),
        n <= m.gens.len(),
    ensures
        m.spec_query_up_to(required, n).contains(e) <==> ((e.id().index as int) < n
            && m.contains_entity(e) && mask_covers(m.masks[e.id().index as int], required)),
    decreases n,
{
    if n > 0 {
        lemma_query_up_to_contains(m, required, n - 1, e);
        let prefix = m.spec_query_up_to(required, n - 1);
        let whole = m.spec_query_up_to(required, n);
        if whole.contains(e) {
            let j = choose|j: int| 0 <= j < whole.len() && whole[j] == e;
            if j < prefix.len() {
                assert(prefix[j] == e);
            } else {
                assert(e == m.entity_at(n - 1));
            }
        }
        if (e.id().index as int) < n && m.contains_entity(e) && mask_covers(
            m.masks[e.id().index as int],
            required,
        ) {
            if (e.id().index as int) < n - 1 {
                let j = choose|j: int| 0 <= j < prefix.len() && prefix[j] == e;
                assert(whole[j] == e);
            } else {
                assert(e == m.entity_at(n - 1));
                assert(whole[whole.len() - 1] == e);
            }
        }
    }
}

/// Every element of a query result below the scanned bound is a live entity
/// with a covering mask, and elements come in strictly increasing slot
/// order -- in particular, no slot is listed twice.
pub proof fn lemma_query_up_to_elements<V>(m: WorldModel<V>, required: Seq<u64>, n: int)
    requires
        m.wf(),
        n <= m.gens.len(),
    ensures
        ({
            let q = m.spec_query_up_to(required, n);
            &&& forall|x: int|
                0 <= x < q.len() ==> ((#[trigger] q[x]).id().index as int) < n
                    && m.contains_entity(q[x]) && mask_covers(
                    m.masks[q[x].id().index as int],
                    required,
                )
            &&& forall|x1: int, x2: int|
                0 <= x1 < x2 < q.len() ==> q[x1].id().index < q[x2].id().index
        }),
    decreases n,
{
    if n > 0 {
        lemma_query_up_to_elements(m, required, n - 1);
        let prev = m.spec_query_up_to(required, n - 1);
        let q = m.spec_query_up_to(required, n);
        if m.live[n - 1] && mask_covers(m.masks[n - 1], required) {
            assert(q == prev + seq![m.entity_at(n - 1)]);
            assert(q.len() == prev.len() + 1);
            assert(q[q.len() - 1] == m.entity_at(n - 1));
            assert((m.entity_at(n - 1).id().index as int) == n - 1);
            assert(m.contains_entity(m.entity_at(n - 1)));
        } else {
            assert(q =~= prev);
        }
        assert forall|x: int|
            0 <= x < q.len() implies ((#[trigger] q[x]).id().index as int) < n
            && m.contains_entity(q[x]) && mask_covers(
            m.masks[q[x].id().index as int],
            required,
        ) by {
            if x < prev.len() {
                assert(q[x] == prev[x]);
            } else {
                assert(q[x] == m.entity_at(n - 1));
            }
        }
        assert forall|x1: int, x2: int|
            0 <= x1 < x2 < q.len() implies q[x1].id().index < q[x2].id().index by {
            if x2 < prev.len() {
                assert(q[x1] == prev[x1] && q[x2] == prev[x2]);
            } else {
                assert(q[x1] == prev[x1] && q[x2] == m.entity_at(n - 1));
                assert((prev[x1].id().index as int) < n - 1);
            }
        }
    }
}

/// `query_entities` returns exactly the live entities whose current mask is
/// a superset of the required tags.
pub proof fn lemma_query_matches_masks<V>(m: WorldModel<V>, required: Seq<u64>, e: Entity)
    requires
        m.wf(),
    ensures
        m.spec_query(required).contains(e) <==> (m.contains_entity(e) && mask_covers(
            m.mask_of(e),
            required,
        )),
{
    lemma_query_up_to_contains(m, required, m.gens.len() as int, e);
}

/// Covering a set of required tags does not depend on the order they are
/// listed in.
proof fn lemma_mask_covers_to_set(mask: Set<u64>, required: Seq<u64>)
    ensures
        mask_covers(mask, required) <==> (forall|t: u64|
            required.to_set().contains(t) ==> mask.contains(t)),
{
    if forall|t: u64| required.to_set().contains(t) ==> mask.contains(t) {
        assert forall|k: int| 0 <= k < required.len() implies mask.contains(
            #[trigger] required[k],
        ) by {
            assert(required.to_set().contains(required[k]));
        }
    }
}

/// Queries for the same set of required tags, in any listing order, return
/// the same set of entities.
pub proof fn lemma_query_order_insensitive<V>(m: WorldModel<V>, req1: Seq<u64>, req2: Seq<u64>)
    requires
        m.wf(),
        req1.to_set() == req2.to_set(),
    ensures
        m.spec_query(req1).to_set() == m.spec_query(req2).to_set(),
{
    assert forall|e: Entity| #[trigger]
        m.spec_query(req1).contains(e) <==> m.spec_query(req2).contains(e) by {
        lemma_query_matches_masks(m, req1, e);
        lemma_query_matches_masks(m, req2, e);
        lemma_mask_covers_to_set(m.mask_of(e), req1);
        lemma_mask_covers_to_set(m.mask_of(e), req2);
    }
    assert(m.spec_query(req1).to_set() =~= m.spec_query(req2).to_set());
}

/// The query result over the first `n` slots counts the live slots among
/// them.
proof fn lemma_entities_up_to_len<V>(m: WorldModel<V>, n: int)
    requires
        0 <= n <= m.live.len(),
    ensures
        m.spec_query_up_to(Seq::empty(), n).len() == crate::model::count_live(m.live.take(n)),
    decreases n,
{
    if n > 0 {
        lemma_entities_up_to_len(m, n - 1);
        assert(m.live.take(n).drop_last() =~= m.live.take(n - 1));
        assert(m.live.take(n).last() == m.live[n - 1]);
    }
}

/// The entity count is exactly the number of entities a snapshot returns.
pub proof fn lemma_entity_count_matches_entities<V>(m: WorldModel<V>)
    requires
        m.wf(),
    ensures
        m.spec_entities().len() == m.entity_count(),
{
    lemma_entities_up_to_len(m, m.live.len() as int);
    assert(m.live.take(m.live.len() as int) =~= m.live);
}

/// Destroying an entity and then creating a new one never reissues the
/// destroyed handle: slot reuse bumps the generation, so the new handle
/// compares unequal to the old one.
pub proof fn lemma_no_stale_reuse<V>(m: WorldModel<V>, e: Entity)
    requires
        m.wf(),
        m.contains_entity(e),
    ensures
        ({
            let m2 = m.spec_destroy(e).0;
            let (m3, e2) = m2.spec_create();
            e2 != e
        }),
{
    let i = e.id().index;
    let g = e.id().generation;
    let m2 = m.spec_destroy(e).0;
    let (m3, e2) = m2.spec_create();
    if g < u64::MAX {
        assert(m2.free.last() == i);
        assert(e2.id().generation == g + 1);
    } else {
        if m2.free.len() > 0 {
            let j = m2.free.last();
            assert(m.free[m.free.len() - 1] == j);
            assert(!m.live[j as int]);
            assert(j != i);
        }
    }
}

/// Destroying a live entity bumps its slot's generation past the handle's.
pub proof fn lemma_destroy_bumps_generation<V>(m: WorldModel<V>, e: Entity)
    requires
        m.wf(),
        m.contains_entity(e),
        e.id().generation < u64::MAX,
    ensures
        m.spec_destroy(e).0.gens[e.id().index as int] > e.id().generation,
{
}

} // verus!

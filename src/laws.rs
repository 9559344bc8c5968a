use vstd::prelude::*;
use crate::handle::VersionedIndex;
use crate::slots::{allocated, freed, freed_all, live_in, Slot, SlotsView};
use crate::store::lists_keys_in_order;
use crate::entities::{without_handles, EntityManager};
use crate::resources::{name_index, ResourceManager};

verus! {

/// Freeing handles never makes a handle live, and every freed handle is dead
/// afterwards.
pub proof fn lemma_freed_all_kills(v: SlotsView, hs: Seq<VersionedIndex>, h: VersionedIndex)
    ensures
        live_in(freed_all(v, hs), h) ==> live_in(v, h),
        hs.contains(h) ==> !live_in(freed_all(v, hs), h),
    decreases hs.len(),
{
    if hs.len() > 0 {
        let d = hs.drop_last();
        lemma_freed_all_kills(v, d, h);
        let w = freed_all(v, d);
        if hs.contains(h) && hs.last() != h {
            let a = choose|a: int| 0 <= a < hs.len() && hs[a] == h;
            assert(d[a] == h);
        }
        if live_in(freed(w, hs.last()), h) {
            assert(live_in(w, h));
        }
    }
}

/// A table's first handle is (0, 0); once it is destroyed and flushed, the
/// next allocation reuses index 0 with generation 1, and (0, 0) stays dead.
pub proof fn law_generation_isolation()
    ensures
        ({
            let empty = SlotsView { slots: Seq::<Slot>::empty(), free: Seq::<usize>::empty() };
            let (v1, h0) = allocated(empty);
            let v2 = freed_all(v1, seq![h0]);
            let (v3, h1) = allocated(v2);
            &&& h0 == VersionedIndex { index: 0, generation: 0 }
            &&& h1 == VersionedIndex { index: 0, generation: 1 }
            &&& !live_in(v3, h0)
            &&& live_in(v3, h1)
        }),
{
    let empty = SlotsView { slots: Seq::<Slot>::empty(), free: Seq::<usize>::empty() };
    let (v1, h0) = allocated(empty);
    assert(seq![h0].drop_last() =~= Seq::<VersionedIndex>::empty());
    assert(freed_all(v1, Seq::<VersionedIndex>::empty()) == v1);
    let v2 = freed_all(v1, seq![h0]);
    assert(v2 == freed(v1, h0));
    assert(v2.free =~= seq![0usize]);
}

/// A handle that was just allocated has no component yet: whatever was stored
/// for an earlier handle of its slot is gone.
pub proof fn law_fresh_handle_has_no_rows<C>(m: EntityManager<C>, k: u64)
    requires
        m.wf(),
    ensures
        !m.rows(k).contains_key(allocated(m.slots_view()).1),
{
    m.lemma_rows_live();
    m.lemma_slots_wf();
    let v = m.slots_view();
    if v.free.len() > 0 {
        assert(v.free[v.free.len() - 1] < v.slots.len());
        assert(v.slots[v.free.last() as int] is Free);
    }
}

/// A handle that is not live sees nothing: no component of any kind and no
/// resource value, whatever now occupies its index.
pub proof fn law_no_stale_visibility<C, R>(m: EntityManager<C>, r: ResourceManager<R>, h: VersionedIndex, k: u64)
    requires
        m.wf(),
        r.wf(),
    ensures
        !m.live(h) ==> !m.rows(k).contains_key(h),
        !r.live(h) ==> !r.values().contains_key(h),
{
    m.lemma_rows_live();
    r.lemma_values_live();
}

/// A query result lists, once each, exactly the live entities that have a
/// component of the kind.
pub proof fn law_query_exact<C>(m: EntityManager<C>, k: u64, q: Seq<VersionedIndex>)
    requires
        m.wf(),
        lists_keys_in_order(q, m.rows(k)),
    ensures
        q.no_duplicates(),
        forall|h: VersionedIndex| q.contains(h) <==> (m.live(h) && m.rows(k).contains_key(h)),
{
    m.lemma_rows_live();
}

/// Destruction is deferred: a destroyed entity keeps its components until the
/// flush, and after the flush it has none and is no longer live.
pub proof fn law_flush_deferral<C>(m0: EntityManager<C>, m1: EntityManager<C>, m2: EntityManager<C>, h: VersionedIndex, k: u64)
    requires
        m0.wf(),
        m0.live(h),
        // m1 is m0 after `destroy_entity(h)`
        m1.slots_view() == m0.slots_view(),
        forall|x: u64| #[trigger] m1.rows(x) == m0.rows(x),
        m1.pending() == m0.pending().push(h),
        // m2 is m1 after `flush()`
        m2.slots_view() == freed_all(m1.slots_view(), m1.pending()),
        forall|x: u64| #[trigger] m2.rows(x) == without_handles(m1.rows(x), m1.pending()),
    ensures
        m1.live(h),
        m1.rows(k).contains_key(h) == m0.rows(k).contains_key(h),
        !m2.live(h),
        !m2.rows(k).contains_key(h),
{
    assert(m1.pending()[m1.pending().len() - 1] == h);
    lemma_freed_all_kills(m1.slots_view(), m1.pending(), h);
}

/// A resource created under a name is found by that name, and its handle
/// gives back the value stored.
pub proof fn law_named_resource_identity<R>(r0: ResourceManager<R>, r1: ResourceManager<R>, value: R, n: Seq<char>, h: VersionedIndex)
    requires
        // r1 is r0 after `create_resource(value, Some(n))`, which returned h
        r1.live(h),
        r1.values() == r0.values().insert(h, value),
        r1.names() == r0.names().push((n, h)),
    ensures
        r1.named(n) == Some(h),
        r1.values().contains_key(h),
        r1.values()[h] == value,
{
    assert(r1.names().drop_last() =~= r0.names());
    assert(name_index(r1.names()) == name_index(r0.names()).insert(n, h));
}

} // verus!

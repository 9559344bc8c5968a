use vstd::prelude::*;
use crate::handle::{InvalidHandle, VersionedIndex};
use crate::slots::{allocated, freed_all, live_in, SlotTable, SlotsView};
use crate::store::{without_index, ComponentStore};
use crate::entities::without_handles;

verus! {

/// The name index: each name maps to the handle it was most recently given.
pub open spec fn name_index(names: Seq<(Seq<char>, VersionedIndex)>) -> Map<Seq<char>, VersionedIndex>
    decreases names.len(),
{
    if names.len() == 0 {
        Map::empty()
    } else {
        name_index(names.drop_last()).insert(names.last().0, names.last().1)
    }
}

proof fn lemma_name_suffix(s: Seq<(Seq<char>, VersionedIndex)>, i: int, n: Seq<char>)
    requires
        0 <= i <= s.len(),
        forall|j: int| i <= j < s.len() ==> (#[trigger] s[j]).0 != n,
    ensures
        name_index(s).contains_key(n) == name_index(s.take(i)).contains_key(n),
        name_index(s).contains_key(n) ==> name_index(s)[n] == name_index(s.take(i))[n],
    decreases s.len(),
{
    if i == s.len() {
        assert(s.take(i) =~= s);
    } else {
        let d = s.drop_last();
        assert forall|j: int| i <= j < d.len() implies (#[trigger] d[j]).0 != n by {
            assert(d[j] == s[j]);
        }
        lemma_name_suffix(d, i, n);
        assert(d.take(i) =~= s.take(i));
        assert(s.last() == s[s.len() - 1]);
    }
}

proof fn lemma_name_hit(s: Seq<(Seq<char>, VersionedIndex)>, i: int, n: Seq<char>)
    requires
        0 <= i < s.len(),
        s[i].0 == n,
        forall|j: int| i < j < s.len() ==> (#[trigger] s[j]).0 != n,
    ensures
        name_index(s).contains_key(n),
        name_index(s)[n] == s[i].1,
{
    lemma_name_suffix(s, i + 1, n);
    assert(s.take(i + 1).drop_last() =~= s.take(i));
    assert(s.take(i + 1).last() == s[i]);
}

/// `a` and `b` hold the same characters.
pub fn str_eq(a: &str, b: &str) -> (r: bool)
    ensures
        r == (a@ == b@),
{
    let n = a.unicode_len();
    if n != b.unicode_len() {
        return false;
    }
    let mut i: usize = 0;
    while i < n
        invariant
            n == a@.len(),
            n == b@.len(),
            i <= n,
            forall|j: int| 0 <= j < i ==> a@[j] == b@[j],
        decreases n - i,
    {
        if a.get_char(i) != b.get_char(i) {
            return false;
        }
        i = i + 1;
    }
    assert(a@ =~= b@);
    true
}

/// Resources: values addressed by their own handles, optionally by name, with
/// destruction deferred to `flush`.
pub struct ResourceManager<R> {
    slots: SlotTable,
    values: ComponentStore<R>,
    names: Vec<(String, VersionedIndex)>,
    pending: Vec<VersionedIndex>,
}

impl<R> ResourceManager<R> {
    pub closed spec fn slots_view(&self) -> SlotsView {
        self.slots@
    }

    /// The value of each live resource.
    pub closed spec fn values(&self) -> Map<VersionedIndex, R> {
        self.values@
    }

    /// Every name given, with its resource, in order of creation.
    pub closed spec fn names(&self) -> Seq<(Seq<char>, VersionedIndex)> {
        self.names@.map_values(|e: (String, VersionedIndex)| (e.0@, e.1))
    }

    /// The destructions requested since the last flush.
    pub closed spec fn pending(&self) -> Seq<VersionedIndex> {
        self.pending@
    }

    pub open spec fn live(&self, h: VersionedIndex) -> bool {
        live_in(self.slots_view(), h)
    }

    /// The live resource that `n` was last given to.
    pub open spec fn named(&self, n: Seq<char>) -> Option<VersionedIndex> {
        let m = name_index(self.names());
        if m.contains_key(n) && self.live(m[n]) {
            Some(m[n])
        } else {
            None
        }
    }

    pub closed spec fn wf(&self) -> bool {
        &&& self.slots.wf()
        &&& forall|h: VersionedIndex| #[trigger] self.values@.contains_key(h) ==> self.slots.live(h)
    }

    /// Only live resources have values.
    pub proof fn lemma_values_live(&self)
        requires
            self.wf(),
        ensures
            forall|h: VersionedIndex| #[trigger] self.values().contains_key(h) ==> self.live(h),
    {
    }

    pub fn new() -> (r: ResourceManager<R>)
        ensures
            r.wf(),
            r.values() == Map::<VersionedIndex, R>::empty(),
            r.names() == Seq::<(Seq<char>, VersionedIndex)>::empty(),
            r.pending() == Seq::<VersionedIndex>::empty(),
            r.slots_view().slots == Seq::<crate::slots::Slot>::empty(),
            r.slots_view().free == Seq::<usize>::empty(),
    {
        let r = ResourceManager { slots: SlotTable::new(), values: ComponentStore::new(), names: Vec::new(), pending: Vec::new() };
        assert(r.names() =~= Seq::<(Seq<char>, VersionedIndex)>::empty());
        r
    }

    pub fn is_live(&self, h: VersionedIndex) -> (r: bool)
        ensures
            r == self.live(h),
    {
        self.slots.is_live(h)
    }

    /// Stores `value` under a new handle and, when a name is given, makes the
    /// name refer to it.
    pub fn create_resource(&mut self, value: R, name: Option<String>) -> (r: VersionedIndex)
        requires
            old(self).wf(),
        ensures
            final(self).wf(),
            (final(self).slots_view(), r) == allocated(old(self).slots_view()),
            !old(self).live(r),
            final(self).live(r),
            final(self).values() == old(self).values().insert(r, value),
            final(self).names() == match name {
                Some(n) => old(self).names().push((n@, r)),
                None => old(self).names(),
            },
            final(self).pending() == old(self).pending(),
    {
        let h = self.slots.allocate();
        proof {
            assert(!old(self).values@.contains_key(h));
            assert forall|x: VersionedIndex| #[trigger] old(self).values@.contains_key(x) implies self.slots.live(x) by {
                assert(old(self).slots.live(x));
                if old(self).slots@.free.len() > 0 {
                    let f = old(self).slots@.free;
                    assert(f[f.len() - 1] < old(self).slots@.slots.len());
                }
            }
            assert(without_index(old(self).values@, h.index) =~= old(self).values@);
        }
        self.values.insert(h, value);
        match name {
            Some(n) => {
                self.names.push((n, h));
                proof {
                    assert(self.names() =~= old(self).names().push((n@, h)));
                }
            },
            None => {},
        }
        h
    }

    pub fn get_resource(&self, h: VersionedIndex) -> (r: Option<&R>)
        ensures
            match r {
                Some(v) => self.values().contains_key(h) && *v == self.values()[h],
                None => !self.values().contains_key(h),
            },
    {
        self.values.get(h)
    }

    pub fn get_resource_mut(&mut self, h: VersionedIndex) -> (r: Option<&mut R>)
        requires
            old(self).wf(),
        ensures
            final(self).slots_view() == old(self).slots_view(),
            final(self).names() == old(self).names(),
            final(self).pending() == old(self).pending(),
            match r {
                Some(v) => old(self).values().contains_key(h) && *v == old(self).values()[h]
                    && final(self).values() == old(self).values().insert(h, *final(v)),
                None => !old(self).values().contains_key(h) && final(self).values() == old(self).values(),
            },
    {
        self.values.get_mut(h)
    }

    /// The live resource that `name` was last given to.
    pub fn get_resource_id(&self, name: &str) -> (r: Option<VersionedIndex>)
        ensures
            r == self.named(name@),
    {
        let mut i: usize = self.names.len();
        while i > 0
            invariant
                i <= self.names@.len(),
                forall|j: int| i <= j < self.names@.len() ==> (#[trigger] self.names()[j]).0 != name@,
            decreases i,
        {
            i = i - 1;
            if str_eq(self.names[i].0.as_str(), name) {
                let h = self.names[i].1;
                proof {
                    lemma_name_hit(self.names(), i as int, name@);
                }
                if self.slots.is_live(h) {
                    return Some(h);
                } else {
                    return None;
                }
            }
        }
        proof {
            lemma_name_suffix(self.names(), 0, name@);
        }
        None
    }

    /// Requests the destruction of `h` at the next flush.
    pub fn destroy_resource(&mut self, h: VersionedIndex) -> (r: Result<(), InvalidHandle>)
        requires
            old(self).wf(),
        ensures
            final(self).wf(),
            final(self).slots_view() == old(self).slots_view(),
            final(self).values() == old(self).values(),
            final(self).names() == old(self).names(),
            r is Ok <==> old(self).live(h),
            r is Ok ==> final(self).pending() == old(self).pending().push(h),
            r is Err ==> r->Err_0 == (InvalidHandle { handle: h }) && final(self).pending() == old(self).pending(),
    {
        if !self.slots.is_live(h) {
            return Err(InvalidHandle { handle: h });
        }
        self.pending.push(h);
        Ok(())
    }

    /// Applies the requested destructions: drops the values and frees the handles.
    pub fn flush(&mut self)
        requires
            old(self).wf(),
        ensures
            final(self).wf(),
            final(self).pending() == Seq::<VersionedIndex>::empty(),
            final(self).names() == old(self).names(),
            final(self).slots_view() == freed_all(old(self).slots_view(), old(self).pending()),
            final(self).values() == without_handles(old(self).values(), old(self).pending()),
    {
        let ghost queue = self.pending@;
        let mut pending: Vec<VersionedIndex> = Vec::new();
        std::mem::swap(&mut pending, &mut self.pending);
        let mut i: usize = 0;
        while i < pending.len()
            invariant
                self.wf(),
                pending@ == queue,
                self.pending@ == Seq::<VersionedIndex>::empty(),
                self.names == old(self).names,
                i <= queue.len(),
                self.slots@ == freed_all(old(self).slots@, queue.take(i as int)),
                self.values@ == without_handles(old(self).values@, queue.take(i as int)),
            decreases queue.len() - i,
        {
            let h = pending[i];
            let ghost before = self.values@;
            proof {
                assert(queue.take(i + 1).drop_last() =~= queue.take(i as int));
                assert(queue.take(i + 1).last() == h);
            }
            if self.slots.is_live(h) {
                let _ = self.values.remove(h);
                let _ = self.slots.free(h);
            }
            proof {
                let t0 = queue.take(i as int);
                let t1 = queue.take(i + 1);
                assert forall|y: VersionedIndex| t1.contains(y) <==> (t0.contains(y) || y == h) by {
                    if t1.contains(y) {
                        let a = choose|a: int| 0 <= a < t1.len() && t1[a] == y;
                        if a < i {
                            assert(t0[a] == y);
                        }
                    }
                    if t0.contains(y) {
                        let a = choose|a: int| 0 <= a < t0.len() && t0[a] == y;
                        assert(t1[a] == y);
                    }
                    if y == h {
                        assert(t1[i as int] == y);
                    }
                }
                assert(self.values@ =~= without_handles(old(self).values@, t1));
            }
            i = i + 1;
        }
        proof {
            assert(queue.take(queue.len() as int) =~= queue);
        }
    }
}

} // verus!

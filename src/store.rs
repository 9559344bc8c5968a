use vstd::prelude::*;
use crate::handle::VersionedIndex;

verus! {

/// `m` without any row at index `i`.
pub open spec fn without_index<T>(m: Map<VersionedIndex, T>, i: usize) -> Map<VersionedIndex, T> {
    Map::new(|k: VersionedIndex| m.contains_key(k) && k.index != i, |k: VersionedIndex| m[k])
}

/// `s` holds exactly the keys of `m`, once each, in increasing index order.
pub open spec fn lists_keys_in_order<T>(s: Seq<VersionedIndex>, m: Map<VersionedIndex, T>) -> bool {
    &&& s.no_duplicates()
    &&& forall|h: VersionedIndex| s.contains(h) <==> m.contains_key(h)
    &&& forall|i: int, j: int| 0 <= i < j < s.len() ==> s[i].index < s[j].index
}

/// A stored value and the generation of the handle it was stored under.
pub struct Entry<T> {
    pub generation: u64,
    pub value: T,
}

/// Sparse storage of one component type, keyed by slot index and checked
/// against the generation of the handle used to reach it.
pub struct ComponentStore<T> {
    entries: Vec<Option<Entry<T>>>,
}

pub open spec fn has_row<T>(e: Seq<Option<Entry<T>>>, h: VersionedIndex) -> bool {
    h.index < e.len() && e[h.index as int] is Some && e[h.index as int]->Some_0.generation == h.generation
}

pub open spec fn rows_prefix<T>(e: Seq<Option<Entry<T>>>, n: int) -> Seq<VersionedIndex>
    decreases n,
{
    if n <= 0 {
        Seq::empty()
    } else {
        let rest = rows_prefix(e, n - 1);
        match e[n - 1] {
            Some(x) => rest.push(VersionedIndex { index: (n - 1) as usize, generation: x.generation }),
            None => rest,
        }
    }
}

proof fn lemma_rows_prefix<T>(e: Seq<Option<Entry<T>>>, n: int)
    requires
        0 <= n <= e.len(),
        e.len() <= usize::MAX,
    ensures
        rows_prefix(e, n).no_duplicates(),
        forall|j: int| 0 <= j < rows_prefix(e, n).len() ==> (#[trigger] rows_prefix(e, n)[j]).index < n,
        forall|i: int, j: int| 0 <= i < j < rows_prefix(e, n).len()
            ==> rows_prefix(e, n)[i].index < rows_prefix(e, n)[j].index,
        forall|h: VersionedIndex| rows_prefix(e, n).contains(h) <==> (h.index < n && has_row(e, h)),
    decreases n,
{
    if n > 0 {
        lemma_rows_prefix(e, n - 1);
        let rest = rows_prefix(e, n - 1);
        match e[n - 1] {
            Some(x) => {
                let h = VersionedIndex { index: (n - 1) as usize, generation: x.generation };
                assert(rows_prefix(e, n) == rest.push(h));
                assert forall|y: VersionedIndex| rows_prefix(e, n).contains(y)
                    <==> (y.index < n && has_row(e, y)) by {
                    if rows_prefix(e, n).contains(y) {
                        let j = choose|j: int| 0 <= j < rest.push(h).len() && rest.push(h)[j] == y;
                        if j < rest.len() {
                            assert(rest[j] == y);
                            assert(rest.contains(y));
                        } else {
                            assert(y == h);
                        }
                    }
                    if y.index < n && has_row(e, y) {
                        if y.index == n - 1 {
                            assert(y == h);
                            assert(rest.push(h)[rest.len() as int] == y);
                        } else {
                            assert(rest.contains(y));
                            let j = choose|j: int| 0 <= j < rest.len() && rest[j] == y;
                            assert(rest.push(h)[j] == y);
                        }
                    }
                }
            },
            None => {
                assert forall|y: VersionedIndex| rows_prefix(e, n).contains(y)
                    <==> (y.index < n && has_row(e, y)) by {
                    if y.index == n - 1 {
                        assert(!rest.contains(y));
                    }
                }
            },
        }
    }
}

impl<T> View for ComponentStore<T> {
    type V = Map<VersionedIndex, T>;

    closed spec fn view(&self) -> Map<VersionedIndex, T> {
        Map::new(|h: VersionedIndex| has_row(self.entries@, h), |h: VersionedIndex| self.entries@[h.index as int]->Some_0.value)
    }
}

impl<T> ComponentStore<T> {
    pub fn new() -> (r: ComponentStore<T>)
        ensures
            r@ == Map::<VersionedIndex, T>::empty(),
    {
        let r = ComponentStore { entries: Vec::new() };
        assert(r@ =~= Map::<VersionedIndex, T>::empty());
        r
    }

    /// Stores `value` for `h`, replacing whatever row its index held.
    pub fn insert(&mut self, h: VersionedIndex, value: T)
        ensures
            final(self)@ == without_index(old(self)@, h.index).insert(h, value),
    {
        while self.entries.len() <= h.index
            invariant
                self.entries@.len() >= old(self).entries@.len(),
                self.entries@.len() <= h.index + 1 || self.entries@.len() == old(self).entries@.len(),
                forall|i: int| 0 <= i < self.entries@.len() ==> #[trigger] self.entries@[i]
                    == if i < old(self).entries@.len() { old(self).entries@[i] } else { None },
            decreases h.index + 1 - self.entries@.len(),
        {
            self.entries.push(None);
        }
        self.entries.set(h.index, Some(Entry { generation: h.generation, value }));
        assert(final(self)@ =~= without_index(old(self)@, h.index).insert(h, value));
    }

    pub fn get(&self, h: VersionedIndex) -> (r: Option<&T>)
        ensures
            match r {
                Some(v) => self@.contains_key(h) && *v == self@[h],
                None => !self@.contains_key(h),
            },
    {
        if h.index < self.entries.len() {
            match &self.entries[h.index] {
                Some(e) => {
                    if e.generation == h.generation {
                        Some(&e.value)
                    } else {
                        None
                    }
                },
                None => None,
            }
        } else {
            None
        }
    }

    pub fn get_mut(&mut self, h: VersionedIndex) -> (r: Option<&mut T>)
        ensures
            match r {
                Some(v) => old(self)@.contains_key(h) && *v == old(self)@[h]
                    && final(self)@ == old(self)@.insert(h, *final(v)),
                None => !old(self)@.contains_key(h) && final(self)@ == old(self)@,
            },
    {
        if h.index < self.entries.len() {
            let slot = &mut self.entries[h.index];
            match slot {
                Some(e) => {
                    if e.generation == h.generation {
                        Some(&mut e.value)
                    } else {
                        None
                    }
                },
                None => None,
            }
        } else {
            None
        }
    }

    /// Takes out the row of `h`, if it has one.
    pub fn remove(&mut self, h: VersionedIndex) -> (r: Option<T>)
        ensures
            match r {
                Some(v) => old(self)@.contains_key(h) && v == old(self)@[h]
                    && final(self)@ == old(self)@.remove(h),
                None => !old(self)@.contains_key(h) && final(self)@ == old(self)@,
            },
    {
        if h.index < self.entries.len() {
            let live = match &self.entries[h.index] {
                Some(e) => e.generation == h.generation,
                None => false,
            };
            if live {
                let mut taken: Option<Entry<T>> = None;
                self.entries.set_and_swap(h.index, &mut taken);
                assert(final(self)@ =~= old(self)@.remove(h));
                match taken {
                    Some(e) => Some(e.value),
                    None => None,
                }
            } else {
                None
            }
        } else {
            None
        }
    }

    /// Drops whatever row index `i` holds.
    pub fn clear_index(&mut self, i: usize)
        ensures
            final(self)@ == without_index(old(self)@, i),
    {
        if i < self.entries.len() {
            self.entries.set(i, None);
        }
        assert(final(self)@ =~= without_index(old(self)@, i));
    }

    /// The handles that have a row, in index order.
    pub fn handles(&self) -> (r: Vec<VersionedIndex>)
        ensures
            lists_keys_in_order(r@, self@),
    {
        let mut out: Vec<VersionedIndex> = Vec::new();
        let mut i: usize = 0;
        while i < self.entries.len()
            invariant
                i <= self.entries@.len(),
                out@ == rows_prefix(self.entries@, i as int),
            decreases self.entries@.len() - i,
        {
            match &self.entries[i] {
                Some(e) => {
                    out.push(VersionedIndex { index: i, generation: e.generation });
                },
                None => {},
            }
            i = i + 1;
        }
        proof {
            lemma_rows_prefix(self.entries@, self.entries@.len() as int);
        }
        out
    }
}

} // verus!

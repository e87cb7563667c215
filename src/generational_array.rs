use vstd::prelude::*;

verus! {

/// A handle to a slot of a [`GenerationalIndexAllocator`]: the slot's index and
/// the generation the slot had when the handle was issued.
#[derive(Clone, Copy, Debug, PartialEq, Eq, Hash, Structural)]
pub struct GenerationalIndex {
    pub index: usize,
    pub generation: u64,
}

impl GenerationalIndex {
    pub fn index(&self) -> (r: usize)
        ensures
            r == self.index,
    {
        self.index
    }

    /// A handle to slot `index` at generation zero.
    pub fn from_raw(index: usize) -> (r: GenerationalIndex)
        ensures
            r.index == index,
            r.generation == 0,
    {
        GenerationalIndex { index, generation: 0 }
    }
}

struct AllocatorEntry {
    is_live: bool,
    generation: u64,
}

/// Issues reusable slot handles. A slot's generation grows by one each time the
/// slot is freed, so a handle to a freed slot never becomes live again.
pub struct GenerationalIndexAllocator {
    entries: Vec<AllocatorEntry>,
    free: Vec<usize>,
}

impl GenerationalIndexAllocator {
    /// The number of slots ever handed out.
    pub closed spec fn slot_count(&self) -> nat {
        self.entries@.len()
    }

    /// Whether slot `i` is currently in use.
    pub closed spec fn slot_live(&self, i: int) -> bool {
        self.entries@[i].is_live
    }

    /// The current generation of slot `i`.
    pub closed spec fn slot_generation(&self, i: int) -> u64 {
        self.entries@[i].generation
    }

    /// The free list holds exactly the slots that are not in use, each once.
    pub closed spec fn wf(&self) -> bool {
        &&& self.entries@.len() <= usize::MAX
        &&& forall|k: int| 0 <= k < self.free@.len() ==> #[trigger] self.free@[k] < self.entries@.len()
        &&& forall|k: int| 0 <= k < self.free@.len() ==> !self.entries@[#[trigger] self.free@[k] as int].is_live
        &&& forall|k1: int, k2: int|
            0 <= k1 < self.free@.len() && 0 <= k2 < self.free@.len() && k1 != k2
                ==> #[trigger] self.free@[k1] != #[trigger] self.free@[k2]
        &&& forall|i: int|
            0 <= i < self.entries@.len() && !(#[trigger] self.entries@[i]).is_live
                ==> exists|k: int| 0 <= k < self.free@.len() && self.free@[k] as int == i
    }

    /// `h` names a slot that is in use, at that slot's current generation.
    pub open spec fn live(&self, h: GenerationalIndex) -> bool {
        &&& h.index < self.slot_count()
        &&& self.slot_live(h.index as int)
        &&& self.slot_generation(h.index as int) == h.generation
    }

    /// `h` names a slot whose generation has moved past the handle's own: the
    /// slot was freed at least once since `h` was issued.
    pub open spec fn retired(&self, h: GenerationalIndex) -> bool {
        &&& h.index < self.slot_count()
        &&& self.slot_generation(h.index as int) > h.generation
    }

    /// What every call keeps: slots are never dropped and generations never fall.
    pub open spec fn grows_from(&self, prev: &Self) -> bool {
        &&& prev.slot_count() <= self.slot_count()
        &&& forall|i: int|
            0 <= i < prev.slot_count() ==> prev.slot_generation(i) <= #[trigger] self.slot_generation(
                i,
            )
    }

    pub fn new() -> (r: Self)
        ensures
            r.wf(),
            r.slot_count() == 0,
    {
        GenerationalIndexAllocator { entries: Vec::new(), free: Vec::new() }
    }

    /// Hands out a free slot (at its current generation) or a new slot at
    /// generation zero.
    pub fn allocate(&mut self) -> (r: GenerationalIndex)
        requires
            old(self).wf(),
        ensures
            final(self).wf(),
            final(self).live(r),
            r.index < usize::MAX,
            final(self).grows_from(old(self)),
            r.index < old(self).slot_count() ==> !old(self).slot_live(r.index as int)
                && old(self).slot_generation(r.index as int) == r.generation,
            r.index >= old(self).slot_count() ==> r.index == old(self).slot_count() && r.generation
                == 0 && final(self).slot_count() == old(self).slot_count() + 1,
            forall|i: int|
                0 <= i < old(self).slot_count() && i != r.index ==> final(self).slot_live(i)
                    == old(self).slot_live(i) && final(self).slot_generation(i)
                    == old(self).slot_generation(i),
    {
        if let Some(index) = self.free.pop() {
            proof {
                let k = self.free@.len() as int;
                assert(old(self).free@[k] == index);
                assert forall|j: int| 0 <= j < self.free@.len() implies self.free@[j] != index by {
                    assert(old(self).free@[j] == self.free@[j]);
                }
            }
            let ghost old_entries = self.entries@;
            let generation = self.entries[index].generation;
            self.entries.set(index, AllocatorEntry { is_live: true, generation });
            proof {
                assert forall|k: int| 0 <= k < self.free@.len() implies !self.entries@[
                    #[trigger] self.free@[k] as int].is_live by {
                    assert(old(self).free@[k] == self.free@[k]);
                }
                assert forall|i: int|
                    0 <= i < self.entries@.len() && !(#[trigger] self.entries@[i]).is_live implies exists|k: int|
                    0 <= k < self.free@.len() && self.free@[k] as int == i by {
                    assert(i != index);
                    assert(old_entries[i] == self.entries@[i]);
                    let k = choose|k: int| 0 <= k < old(self).free@.len() && old(self).free@[k] as int == i;
                    assert(old(self).free@[self.free@.len() as int] == index);
                    assert(k != self.free@.len());
                    assert(self.free@[k] as int == i);
                }
            }
            GenerationalIndex { index, generation }
        } else {
            self.entries.push(AllocatorEntry { is_live: true, generation: 0 });
            let index = self.entries.len() - 1;
            proof {
                assert forall|i: int|
                    0 <= i < self.entries@.len() && !(#[trigger] self.entries@[i]).is_live implies exists|k: int|
                    0 <= k < self.free@.len() && self.free@[k] as int == i by {
                    assert(self.entries@[i] == old(self).entries@[i]);
                }
            }
            GenerationalIndex { index, generation: 0 }
        }
    }

    /// Frees the slot `h` names, if `h` is live, and reports whether it did: a
    /// handle to a free slot, or one from an earlier generation, changes nothing.
    /// The slot's generation grows by one, so `h` is retired from then on.
    pub fn deallocate(&mut self, h: GenerationalIndex) -> (r: bool)
        requires
            old(self).wf(),
            old(self).live(h) ==> old(self).slot_generation(h.index as int) < u64::MAX,
        ensures
            final(self).wf(),
            final(self).grows_from(old(self)),
            final(self).slot_count() == old(self).slot_count(),
            r == old(self).live(h),
            r ==> !final(self).slot_live(h.index as int) && final(self).slot_generation(
                h.index as int,
            ) == old(self).slot_generation(h.index as int) + 1,
            !r ==> *final(self) == *old(self),
            forall|i: int|
                0 <= i < old(self).slot_count() && i != h.index ==> final(self).slot_live(i)
                    == old(self).slot_live(i) && final(self).slot_generation(i)
                    == old(self).slot_generation(i),
    {
        if h.index >= self.entries.len() {
            return false;
        }
        if !self.entries[h.index].is_live || self.entries[h.index].generation != h.generation {
            return false;
        }
        let generation = self.entries[h.index].generation + 1;
        self.entries.set(h.index, AllocatorEntry { is_live: false, generation });
        self.free.push(h.index);
        proof {
            assert(self.free@[self.free@.len() - 1] == h.index);
            assert forall|k: int| 0 <= k < self.free@.len() implies !self.entries@[
                #[trigger] self.free@[k] as int].is_live by {
                if k < old(self).free@.len() {
                    assert(self.free@[k] == old(self).free@[k]);
                }
            }
            assert forall|k1: int, k2: int|
                0 <= k1 < self.free@.len() && 0 <= k2 < self.free@.len() && k1 != k2
                    implies #[trigger] self.free@[k1] != #[trigger] self.free@[k2] by {
                if k1 < old(self).free@.len() {
                    assert(self.free@[k1] == old(self).free@[k1]);
                    assert(old(self).entries@[old(self).free@[k1] as int].is_live == false);
                }
                if k2 < old(self).free@.len() {
                    assert(self.free@[k2] == old(self).free@[k2]);
                    assert(old(self).entries@[old(self).free@[k2] as int].is_live == false);
                }
            }
            assert forall|i: int|
                0 <= i < self.entries@.len() && !(#[trigger] self.entries@[i]).is_live implies exists|k: int|
                0 <= k < self.free@.len() && self.free@[k] as int == i by {
                if i == h.index {
                    assert(self.free@[self.free@.len() - 1] as int == i);
                } else {
                    assert(self.entries@[i] == old(self).entries@[i]);
                    let k = choose|k: int| 0 <= k < old(self).free@.len() && old(self).free@[k] as int == i;
                    assert(self.free@[k] as int == i);
                }
            }
        }
        true
    }

    pub fn is_live(&self, h: GenerationalIndex) -> (r: bool)
        ensures
            r == self.live(h),
    {
        if h.index < self.entries.len() {
            let entry = &self.entries[h.index];
            entry.is_live && entry.generation == h.generation
        } else {
            false
        }
    }
}

/// A retired handle is never live, whatever happened to its slot since.
pub proof fn lemma_retired_is_not_live(a: &GenerationalIndexAllocator, h: GenerationalIndex)
    requires
        a.retired(h),
    ensures
        !a.live(h),
{
}

/// Once retired, a handle stays retired across every later state of the
/// allocator, since slots are never dropped and generations never fall.
pub proof fn lemma_retired_stays_retired(
    before: &GenerationalIndexAllocator,
    after: &GenerationalIndexAllocator,
    h: GenerationalIndex,
)
    requires
        before.retired(h),
        after.grows_from(before),
    ensures
        after.retired(h),
        !after.live(h),
{
    assert(before.slot_generation(h.index as int) <= after.slot_generation(h.index as int));
}

/// A handle that was live before a successful `deallocate` of it is retired
/// afterwards, so no later `allocate` can make it live again.
pub proof fn lemma_deallocated_is_retired(
    before: &GenerationalIndexAllocator,
    after: &GenerationalIndexAllocator,
    h: GenerationalIndex,
)
    requires
        before.live(h),
        after.slot_count() == before.slot_count(),
        after.slot_generation(h.index as int) == before.slot_generation(h.index as int) + 1,
    ensures
        after.retired(h),
        !after.live(h),
{
}

struct ArrayEntry<T> {
    value: T,
    generation: u64,
}

/// An associative array from [`GenerationalIndex`] to values: slot `i` holds
/// at most one value, tagged with the generation it was stored under.
pub struct GenerationalIndexArray<T>(Vec<Option<ArrayEntry<T>>>);

impl<T> GenerationalIndexArray<T> {
    /// Slot by slot, the generation and value each one holds.
    pub closed spec fn slots(&self) -> Seq<Option<(u64, T)>> {
        self.0@.map_values(
            |e: Option<ArrayEntry<T>>|
                match e {
                    Some(e) => Some((e.generation, e.value)),
                    None => None,
                },
        )
    }

    /// The value stored under `h`: present only where `h`'s slot holds a value
    /// of `h`'s generation.
    pub open spec fn lookup(&self, h: GenerationalIndex) -> Option<T> {
        if h.index < self.slots().len() {
            match self.slots()[h.index as int] {
                Some((g, v)) => if g == h.generation {
                    Some(v)
                } else {
                    None
                },
                None => None,
            }
        } else {
            None
        }
    }

    pub fn new() -> (r: Self)
        ensures
            r.slots() == Seq::<Option<(u64, T)>>::empty(),
    {
        GenerationalIndexArray(Vec::new())
    }

    pub fn clear(&mut self)
        ensures
            final(self).slots() == Seq::<Option<(u64, T)>>::empty(),
    {
        self.0.clear();
        assert(self.slots() =~= Seq::<Option<(u64, T)>>::empty());
    }

    /// Stores `value` under `h`, growing the array as needed. Whatever the
    /// slot held before, of any generation, is handed back with its handle.
    pub fn insert(&mut self, h: GenerationalIndex, value: T) -> (r: Option<(GenerationalIndex, T)>)
        requires
            h.index < usize::MAX,
        ensures
            final(self).slots().len() == if h.index < old(self).slots().len() {
                old(self).slots().len() as int
            } else {
                h.index + 1
            },
            final(self).slots()[h.index as int] == Some((h.generation, value)),
            forall|j: int|
                0 <= j < final(self).slots().len() && j != h.index ==> #[trigger] final(self).slots()[j] == if j < old(self).slots().len() {
                    old(self).slots()[j]
                } else {
                    None
                },
            r == if h.index < old(self).slots().len() {
                match old(self).slots()[h.index as int] {
                    Some((g, v)) => Some((GenerationalIndex { index: h.index, generation: g }, v)),
                    None => None,
                }
            } else {
                None
            },
    {
        let ghost start = self.slots();
        while self.0.len() <= h.index
            invariant
                h.index < usize::MAX,
                self.slots().len() >= start.len(),
                start.len() <= h.index ==> self.slots().len() <= h.index + 1,
                start.len() > h.index ==> self.slots().len() == start.len(),
                forall|j: int|
                    0 <= j < self.slots().len() ==> #[trigger] self.slots()[j] == if j
                        < start.len() {
                        start[j]
                    } else {
                        None
                    },
            decreases h.index + 1 - self.0.len(),
        {
            let ghost before = self.slots();
            self.0.push(None);
            assert(self.slots() =~= before.push(None));
        }
        let ghost grown = self.slots();
        let ghost grown_raw = self.0@;
        let old_entry = self.0[h.index].take();
        assert(old_entry == grown_raw[h.index as int]);
        assert(grown[h.index as int] == match old_entry {
            Some(e) => Some((e.generation, e.value)),
            None => None,
        });
        self.0.set(h.index, Some(ArrayEntry { value, generation: h.generation }));
        assert(self.slots() =~= grown.update(h.index as int, Some((h.generation, value))));
        match old_entry {
            Some(e) => Some((GenerationalIndex { index: h.index, generation: e.generation }, e.value)),
            None => None,
        }
    }

    /// Takes the value stored under `h` out of the array, if there is one of
    /// `h`'s generation; a value of another generation stays.
    pub fn remove(&mut self, h: GenerationalIndex) -> (r: Option<T>)
        ensures
            r == old(self).lookup(h),
            final(self).slots() == if r is Some {
                old(self).slots().update(h.index as int, None)
            } else {
                old(self).slots()
            },
    {
        if h.index < self.0.len() {
            let entry = self.0[h.index].take();
            match entry {
                Some(e) => {
                    if e.generation == h.generation {
                        proof {
                            assert(self.slots() =~= old(self).slots().update(h.index as int, None));
                        }
                        return Some(e.value);
                    } else {
                        self.0.set(h.index, Some(e));
                        proof {
                            assert(self.slots() =~= old(self).slots());
                        }
                    }
                },
                None => {
                    proof {
                        assert(self.slots() =~= old(self).slots());
                    }
                },
            }
        }
        None
    }

    pub fn contains_key(&self, h: GenerationalIndex) -> (r: bool)
        ensures
            r == self.lookup(h) is Some,
    {
        self.get(h).is_some()
    }

    pub fn get(&self, h: GenerationalIndex) -> (r: Option<&T>)
        ensures
            r == match self.lookup(h) {
                Some(v) => Some(&v),
                None => None::<&T>,
            },
    {
        if h.index < self.0.len() {
            match &self.0[h.index] {
                Some(e) => if e.generation == h.generation {
                    Some(&e.value)
                } else {
                    None
                },
                None => None,
            }
        } else {
            None
        }
    }

    pub fn get_mut(&mut self, h: GenerationalIndex) -> (r: Option<&mut T>)
        ensures
            match r {
                Some(v) => old(self).lookup(h) == Some(*v) && final(self).slots() == old(self).slots().update(h.index as int, Some((h.generation, *final(v)))),
                None => old(self).lookup(h) is None && final(self).slots() == old(self).slots(),
            },
    {
        if h.index < self.0.len() {
            match &mut self.0[h.index] {
                Some(e) => if e.generation == h.generation {
                    Some(&mut e.value)
                } else {
                    None
                },
                None => None,
            }
        } else {
            None
        }
    }
    /// The value in `h`'s slot, whatever its generation; the slot must hold one.
    pub fn get_unchecked_mut(&mut self, h: GenerationalIndex) -> (r: &mut T)
        requires
            h.index < old(self).slots().len(),
            old(self).slots()[h.index as int] is Some,
        ensures
            *r == (old(self).slots()[h.index as int]->0).1,
            final(self).slots() == old(self).slots().update(
                h.index as int,
                Some(((old(self).slots()[h.index as int]->0).0, *final(r))),
            ),
    {
        let e = self.0[h.index].as_mut().unwrap();
        &mut e.value
    }

    /// Calls `f` on each stored entry, letting it update the value, and keeps
    /// the entries for which it returns true; the others are cleared. Kept
    /// entries keep their generation, and empty slots stay empty.
    pub fn retain<F: Fn(GenerationalIndex, &mut T) -> bool>(&mut self, f: F)
        requires
            forall|h: GenerationalIndex, v: &mut T| #[trigger] f.requires((h, v)),
        ensures
            final(self).slots().len() == old(self).slots().len(),
            forall|i: int|
                0 <= i < old(self).slots().len() ==> match (
                    old(self).slots()[i],
                    #[trigger] final(self).slots()[i],
                ) {
                    (None, n) => n is None,
                    (Some((g, v)), None) => exists|r: &mut T|
                        *r == v && f.ensures(
                            (GenerationalIndex { index: i as usize, generation: g }, r),
                            false,
                        ),
                    (Some((g, v)), Some((g2, w))) => g2 == g && exists|r: &mut T|
                        *r == v && *final(r) == w && f.ensures(
                            (GenerationalIndex { index: i as usize, generation: g }, r),
                            true,
                        ),
                },
    {
        let n = self.0.len();
        let mut i: usize = 0;
        while i < n
            invariant
                n == old(self).slots().len(),
                self.slots().len() == n,
                i <= n,
                forall|h: GenerationalIndex, v: &mut T| #[trigger] f.requires((h, v)),
                forall|j: int|
                    0 <= j < i ==> match (old(self).slots()[j], #[trigger] self.slots()[j]) {
                        (None, n) => n is None,
                        (Some((g, v)), None) => exists|r: &mut T|
                            *r == v && f.ensures(
                                (GenerationalIndex { index: j as usize, generation: g }, r),
                                false,
                            ),
                        (Some((g, v)), Some((g2, w))) => g2 == g && exists|r: &mut T|
                            *r == v && *final(r) == w && f.ensures(
                                (GenerationalIndex { index: j as usize, generation: g }, r),
                                true,
                            ),
                    },
                forall|j: int| i <= j < n ==> #[trigger] self.slots()[j] == old(self).slots()[j],
            decreases n - i,
        {
            let ghost before = self.slots();
            let ghost raw = self.0@;
            let entry = self.0[i].take();
            assert(entry == raw[i as int]);
            assert(before[i as int] == old(self).slots()[i as int]);
            match entry {
                Some(mut e) => {
                    let ghost v0 = e.value;
                    assert(before[i as int] == Some((e.generation, v0)));
                    let keep = f(GenerationalIndex { index: i, generation: e.generation }, &mut e.value);
                    if keep {
                        self.0.set(i, Some(e));
                        assert(self.slots()[i as int] == Some((e.generation, e.value)));
                    } else {
                        assert(self.slots()[i as int] is None);
                    }
                },
                None => {
                    assert(before[i as int] is None);
                    assert(self.slots()[i as int] is None);
                },
            }
            assert forall|j: int| 0 <= j < n && j != i implies #[trigger] self.slots()[j] == before[j] by {}
            i += 1;
        }
    }

    /// Replaces each stored value by what `f` makes of it, clearing the slots
    /// for which `f` returns `None`; generations stay as they were.
    pub fn filter_map<F: Fn(GenerationalIndex, T) -> Option<T>>(&mut self, f: F)
        requires
            forall|h: GenerationalIndex, v: T| #[trigger] f.requires((h, v)),
        ensures
            final(self).slots().len() == old(self).slots().len(),
            forall|i: int|
                0 <= i < old(self).slots().len() ==> match (
                    old(self).slots()[i],
                    #[trigger] final(self).slots()[i],
                ) {
                    (None, n) => n is None,
                    (Some((g, v)), None) => f.ensures(
                        (GenerationalIndex { index: i as usize, generation: g }, v),
                        None,
                    ),
                    (Some((g, v)), Some((g2, w))) => g2 == g && f.ensures(
                        (GenerationalIndex { index: i as usize, generation: g }, v),
                        Some(w),
                    ),
                },
    {
        let n = self.0.len();
        let mut i: usize = 0;
        while i < n
            invariant
                n == old(self).slots().len(),
                self.slots().len() == n,
                i <= n,
                forall|h: GenerationalIndex, v: T| #[trigger] f.requires((h, v)),
                forall|j: int|
                    0 <= j < i ==> match (old(self).slots()[j], #[trigger] self.slots()[j]) {
                        (None, n) => n is None,
                        (Some((g, v)), None) => f.ensures(
                            (GenerationalIndex { index: j as usize, generation: g }, v),
                            None,
                        ),
                        (Some((g, v)), Some((g2, w))) => g2 == g && f.ensures(
                            (GenerationalIndex { index: j as usize, generation: g }, v),
                            Some(w),
                        ),
                    },
                forall|j: int| i <= j < n ==> #[trigger] self.slots()[j] == old(self).slots()[j],
            decreases n - i,
        {
            let ghost before = self.slots();
            let ghost raw = self.0@;
            let entry = self.0[i].take();
            assert(entry == raw[i as int]);
            assert(before[i as int] == old(self).slots()[i as int]);
            match entry {
                Some(e) => {
                    let h = GenerationalIndex { index: i, generation: e.generation };
                    assert(before[i as int] == Some((e.generation, e.value)));
                    assert(old(self).slots()[i as int] == Some((e.generation, e.value)));
                    let out = f(h, e.value);
                    match out {
                        Some(value) => {
                            self.0.set(i, Some(ArrayEntry { value, generation: h.generation }));
                            assert(self.slots()[i as int] == Some((h.generation, value)));
                        },
                        None => {
                            assert(self.slots()[i as int] is None);
                        },
                    }
                },
                None => {
                    assert(before[i as int] is None);
                    assert(self.slots()[i as int] is None);
                },
            }
            assert forall|j: int| 0 <= j < n && j != i implies #[trigger] self.slots()[j] == before[j] by {}
            i += 1;
        }
    }
}

} // verus!

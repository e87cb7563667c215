use std::marker::PhantomData;
use vstd::prelude::*;

verus! {

/// A key that converts to a small integer, used to index a [`SparseArray`]
/// directly.
pub trait SparseIndex: Sized + Copy {
    /// The integer this key stands for.
    spec fn spec_sparse_index(&self) -> nat;

    /// Whether `value` is small enough to be turned into a key unchanged.
    spec fn spec_fits(value: usize) -> bool;

    fn sparse_index(&self) -> (r: usize)
        ensures
            r as nat == self.spec_sparse_index(),
    ;

    fn new_sparse_index(value: usize) -> (r: Self)
        ensures
            Self::spec_fits(value) ==> r.spec_sparse_index() == value as nat,
    ;
}

impl SparseIndex for u8 {
    open spec fn spec_sparse_index(&self) -> nat {
        *self as nat
    }

    open spec fn spec_fits(value: usize) -> bool {
        value <= u8::MAX
    }

    fn sparse_index(&self) -> (r: usize) {
        *self as usize
    }

    fn new_sparse_index(value: usize) -> (r: Self) {
        value as u8
    }
}

impl SparseIndex for u16 {
    open spec fn spec_sparse_index(&self) -> nat {
        *self as nat
    }

    open spec fn spec_fits(value: usize) -> bool {
        value <= u16::MAX
    }

    fn sparse_index(&self) -> (r: usize) {
        *self as usize
    }

    fn new_sparse_index(value: usize) -> (r: Self) {
        value as u16
    }
}

impl SparseIndex for u32 {
    open spec fn spec_sparse_index(&self) -> nat {
        *self as nat
    }

    open spec fn spec_fits(value: usize) -> bool {
        value <= u32::MAX
    }

    fn sparse_index(&self) -> (r: usize) {
        *self as usize
    }

    fn new_sparse_index(value: usize) -> (r: Self) {
        value as u32
    }
}

impl SparseIndex for u64 {
    open spec fn spec_sparse_index(&self) -> nat {
        (*self as usize) as nat
    }

    open spec fn spec_fits(value: usize) -> bool {
        true
    }

    fn sparse_index(&self) -> (r: usize) {
        *self as usize
    }

    fn new_sparse_index(value: usize) -> (r: Self) {
        value as u64
    }
}

impl SparseIndex for usize {
    open spec fn spec_sparse_index(&self) -> nat {
        *self as nat
    }

    open spec fn spec_fits(value: usize) -> bool {
        true
    }

    fn sparse_index(&self) -> (r: usize) {
        *self
    }

    fn new_sparse_index(value: usize) -> (r: Self) {
        value
    }
}

/// A growable array of optional values indexed directly by a key's integer
/// form: lookups, inserts and removals without hashing.
#[derive(Debug, PartialEq)]
pub struct SparseArray<I, V> {
    values: Vec<Option<V>>,
    phantom: PhantomData<I>,
}

impl<I, V> SparseArray<I, V> {
    /// The backing slots, present or absent.
    pub closed spec fn slots(&self) -> Seq<Option<V>> {
        self.values@
    }

    /// The value at integer position `i`; absent beyond the end.
    pub open spec fn spec_get(&self, i: nat) -> Option<V> {
        if i < self.slots().len() {
            self.slots()[i as int]
        } else {
            None
        }
    }

    pub fn new() -> (r: Self)
        ensures
            r.slots() == Seq::<Option<V>>::empty(),
    {
        SparseArray { values: Vec::new(), phantom: PhantomData }
    }

    /// The backing slots, in order.
    pub fn values(&self) -> (r: &Vec<Option<V>>)
        ensures
            r@ == self.slots(),
    {
        &self.values
    }
}

impl<I: SparseIndex, V> SparseArray<I, V> {
    pub fn get(&self, index: I) -> (r: Option<&V>)
        ensures
            r == match self.spec_get(index.spec_sparse_index()) {
                Some(v) => Some(&v),
                None => None::<&V>,
            },
    {
        let i = index.sparse_index();
        if i < self.values.len() {
            self.values[i].as_ref()
        } else {
            None
        }
    }

    pub fn get_mut(&mut self, index: I) -> (r: Option<&mut V>)
        ensures
            match r {
                Some(v) => old(self).spec_get(index.spec_sparse_index()) == Some(*v)
                    && final(self).slots() == old(self).slots().update(
                    index.spec_sparse_index() as int,
                    Some(*final(v)),
                ),
                None => old(self).spec_get(index.spec_sparse_index()) is None && final(self).slots()
                    == old(self).slots(),
            },
    {
        let i = index.sparse_index();
        if i < self.values.len() {
            self.values[i].as_mut()
        } else {
            None
        }
    }

    /// Stores `value` at `index`, growing the array with absent slots as needed.
    pub fn insert(&mut self, index: I, value: V)
        requires
            index.spec_sparse_index() < usize::MAX || index.spec_sparse_index() < old(self).slots().len(),
        ensures
            ({
                let i = index.spec_sparse_index();
                &&& final(self).slots().len() == if i < old(self).slots().len() {
                    old(self).slots().len()
                } else {
                    i + 1
                }
                &&& final(self).slots()[i as int] == Some(value)
                &&& forall|j: int|
                    0 <= j < final(self).slots().len() && j != i ==> #[trigger] final(self).slots()[j]
                        == if j < old(self).slots().len() {
                        old(self).slots()[j]
                    } else {
                        None
                    }
            }),
    {
        let i = index.sparse_index();
        if i < self.values.len() {
            self.values.set(i, Some(value));
            return;
        }
        let ghost start = self.slots();
        while self.values.len() <= i
            invariant
                i < usize::MAX,
                self.slots().len() >= start.len(),
                start.len() <= i ==> self.slots().len() <= i + 1,
                start.len() > i ==> self.slots().len() == start.len(),
                forall|j: int|
                    0 <= j < self.slots().len() ==> #[trigger] self.slots()[j] == if j
                        < start.len() {
                        start[j]
                    } else {
                        None
                    },
            decreases i + 1 - self.values.len(),
        {
            let ghost before = self.slots();
            self.values.push(None);
            assert(self.slots() =~= before.push(None));
        }
        self.values.set(i, Some(value));
    }

    /// Clears the slot at `index`, handing back what it held.
    pub fn remove(&mut self, index: I) -> (r: Option<V>)
        ensures
            r == old(self).spec_get(index.spec_sparse_index()),
            final(self).slots() == if index.spec_sparse_index() < old(self).slots().len() {
                old(self).slots().update(index.spec_sparse_index() as int, None)
            } else {
                old(self).slots()
            },
    {
        let i = index.sparse_index();
        if i < self.values.len() {
            let r = self.values[i].take();
            r
        } else {
            None
        }
    }
}

/// A map from keys to values: a [`SparseArray`] of positions into a dense,
/// insertion-ordered list of values.
#[derive(Debug)]
pub struct SparseSet<I, V> {
    sparse: SparseArray<I, usize>,
    dense: Vec<V>,
}

impl<I, V> View for SparseSet<I, V> {
    type V = Map<nat, V>;

    /// Each present key's integer form, mapped to the value stored for it.
    closed spec fn view(&self) -> Map<nat, V> {
        Map::new(
            |k: nat| self.sparse.spec_get(k) is Some,
            |k: nat| self.dense@[self.sparse.spec_get(k)->0 as int],
        )
    }
}

impl<I, V> SparseSet<I, V> {
    /// Every key points at its own dense position.
    pub closed spec fn wf(&self) -> bool {
        &&& forall|k: nat| #[trigger]
            self.sparse.spec_get(k) is Some ==> self.sparse.spec_get(k)->0 < self.dense@.len()
        &&& forall|k1: nat, k2: nat|
            k1 != k2 && #[trigger] self.sparse.spec_get(k1) is Some && #[trigger] self.sparse.spec_get(
                k2,
            ) is Some ==> self.sparse.spec_get(k1)->0 != self.sparse.spec_get(k2)->0
    }

    pub fn new() -> (r: Self)
        ensures
            r.wf(),
            r@ == Map::<nat, V>::empty(),
    {
        let r = SparseSet { sparse: SparseArray::new(), dense: Vec::new() };
        assert(r@ =~= Map::<nat, V>::empty());
        r
    }
}

impl<I: SparseIndex, V> SparseSet<I, V> {
    pub fn get(&self, index: I) -> (r: Option<&V>)
        requires
            self.wf(),
        ensures
            r == if self@.contains_key(index.spec_sparse_index()) {
                Some(&self@[index.spec_sparse_index()])
            } else {
                None::<&V>
            },
    {
        match self.sparse.get(index) {
            Some(d) => Some(&self.dense[*d]),
            None => None,
        }
    }

    pub fn get_mut(&mut self, index: I) -> (r: Option<&mut V>)
        requires
            old(self).wf(),
        ensures
            final(self).wf(),
            match r {
                Some(v) => old(self)@.contains_key(index.spec_sparse_index()) && *v == old(self)@[index.spec_sparse_index()]
                    && final(self)@ =~= old(self)@.insert(index.spec_sparse_index(), *final(v)),
                None => !old(self)@.contains_key(index.spec_sparse_index()) && *final(self) == *old(self),
            },
    {
        let d = match self.sparse.get(index) {
            Some(d) => *d,
            None => {
                return None;
            },
        };
        Some(&mut self.dense[d])
    }

    /// Stores `value` under `index`, replacing any value already there.
    pub fn insert(&mut self, index: I, value: V)
        requires
            old(self).wf(),
            index.spec_sparse_index() < usize::MAX,
        ensures
            final(self).wf(),
            final(self)@ =~= old(self)@.insert(index.spec_sparse_index(), value),
    {
        let ghost ki = index.spec_sparse_index();
        match self.sparse.get(index) {
            Some(d) => {
                let d = *d;
                self.dense.set(d, value);
            },
            None => {
                let d = self.dense.len();
                self.sparse.insert(index, d);
                self.dense.push(value);
                proof {
                    assert forall|k: nat| k != ki implies #[trigger] self.sparse.spec_get(k) == old(self).sparse.spec_get(k) by {}
                    assert forall|k: nat| #[trigger]
                        self.sparse.spec_get(k) is Some implies self.sparse.spec_get(k)->0
                        < self.dense@.len() by {
                        if k != ki {
                            assert(self.sparse.spec_get(k) == old(self).sparse.spec_get(k));
                        }
                    }
                    assert forall|k1: nat, k2: nat|
                        k1 != k2 && #[trigger] self.sparse.spec_get(k1) is Some
                            && #[trigger] self.sparse.spec_get(k2) is Some implies self.sparse.spec_get(
                        k1,
                    )->0 != self.sparse.spec_get(k2)->0 by {
                        if k1 != ki {
                            assert(self.sparse.spec_get(k1) == old(self).sparse.spec_get(k1));
                        }
                        if k2 != ki {
                            assert(self.sparse.spec_get(k2) == old(self).sparse.spec_get(k2));
                        }
                    }
                    assert forall|k: nat| #[trigger]
                        self.sparse.spec_get(k) is Some && k != ki implies self.dense@[self.sparse.spec_get(
                        k,
                    )->0 as int] == old(self).dense@[old(self).sparse.spec_get(k)->0 as int] by {
                        assert(self.sparse.spec_get(k) == old(self).sparse.spec_get(k));
                    }
                }
            },
        }
    }
}

} // verus!

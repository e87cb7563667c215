use vstd::prelude::*;

verus! {

/// A growable buffer that owns values of one element type, fixed when the
/// buffer is made. Removal swaps the last element into the freed slot.
#[derive(Debug, PartialEq)]
pub struct BlobVec<T> {
    data: Vec<T>,
}

impl<T> View for BlobVec<T> {
    type V = Seq<T>;

    closed spec fn view(&self) -> Seq<T> {
        self.data@
    }
}

/// Relies on `Vec::capacity`: the number of elements the vector holds room for,
/// never fewer than it holds.
#[verifier::external_body]
fn vec_capacity<T>(v: &Vec<T>) -> (r: usize)
    ensures
        r >= v@.len(),
{
    v.capacity()
}

/// What `swap_remove(index)` leaves: the last element moved into slot `index`
/// and the buffer one shorter; removing the last element just drops it.
pub open spec fn swap_removed<T>(s: Seq<T>, index: int) -> Seq<T> {
    if index == s.len() - 1 {
        s.drop_last()
    } else {
        s.update(index, s.last()).drop_last()
    }
}

/// An element survives `swap_removed(s, d)` exactly when it sits in `s` at a
/// position other than `d`.
pub proof fn lemma_swap_removed_contains<T>(s: Seq<T>, d: int, x: T)
    requires
        0 <= d < s.len(),
    ensures
        swap_removed(s, d).contains(x) <==> exists|i: int| 0 <= i < s.len() && i != d && s[i] == x,
{
    let r = swap_removed(s, d);
    if r.contains(x) {
        let p = choose|p: int| 0 <= p < r.len() && r[p] == x;
        if p == d {
            assert(s[s.len() - 1] == x);
        } else {
            assert(s[p] == x);
        }
    }
    if exists|i: int| 0 <= i < s.len() && i != d && s[i] == x {
        let i = choose|i: int| 0 <= i < s.len() && i != d && s[i] == x;
        if i == s.len() - 1 {
            assert(r[d] == x);
        } else {
            assert(r[i] == x);
        }
    }
}

/// The elements stored by `n` pushes onto an empty buffer, read back by
/// index, are the pushed values in push order.
pub open spec fn pushed_all<T>(vals: Seq<T>) -> Seq<T>
    decreases vals.len(),
{
    if vals.len() == 0 {
        Seq::empty()
    } else {
        pushed_all(vals.drop_last()).push(vals.last())
    }
}

/// Pushing values one by one onto an empty buffer and reading positions
/// `0..n` back yields exactly the pushed values, in order.
pub proof fn lemma_push_round_trip<T>(vals: Seq<T>)
    ensures
        pushed_all(vals) == vals,
        forall|i: int| 0 <= i < vals.len() ==> #[trigger] pushed_all(vals)[i] == vals[i],
    decreases vals.len(),
{
    if vals.len() > 0 {
        lemma_push_round_trip(vals.drop_last());
        assert(pushed_all(vals) =~= vals);
    }
}

/// Removing the first of three elements moves the third into its place;
/// removing the only element leaves nothing.
pub proof fn lemma_swap_remove_shapes<T>(a: T, b: T, c: T)
    ensures
        swap_removed(seq![a, b, c], 0) == seq![c, b],
        swap_removed(seq![a], 0) == Seq::<T>::empty(),
{
    assert(swap_removed(seq![a, b, c], 0) =~= seq![c, b]);
    assert(swap_removed(seq![a], 0) =~= Seq::<T>::empty());
}

impl<T> BlobVec<T> {
    pub fn new() -> (r: Self)
        ensures
            r@ == Seq::<T>::empty(),
    {
        BlobVec { data: Vec::new() }
    }

    pub fn push(&mut self, item: T)
        ensures
            final(self)@ == old(self)@.push(item),
    {
        self.data.push(item);
    }

    pub fn get(&self, index: usize) -> (r: Option<&T>)
        ensures
            r == if index < self@.len() {
                Some(&self@[index as int])
            } else {
                None::<&T>
            },
    {
        if index < self.data.len() {
            Some(&self.data[index])
        } else {
            None
        }
    }

    pub fn get_mut(&mut self, index: usize) -> (r: Option<&mut T>)
        ensures
            final(self)@.len() == old(self)@.len(),
            match r {
                Some(v) => index < old(self)@.len() && *v == old(self)@[index as int] && final(self)@
                    == old(self)@.update(index as int, *final(v)),
                None => index >= old(self)@.len() && final(self)@ == old(self)@,
            },
    {
        if index < self.data.len() {
            Some(&mut self.data[index])
        } else {
            None
        }
    }

    /// Removes the element at `index` by moving the last element into its
    /// slot, and hands the removed element back.
    pub fn swap_remove(&mut self, index: usize) -> (r: T)
        requires
            index < old(self)@.len(),
        ensures
            r == old(self)@[index as int],
            final(self)@ == swap_removed(old(self)@, index as int),
    {
        if self.data.len() == 1 {
            let r = self.data.pop().unwrap();
            assert(self@ =~= swap_removed(old(self)@, index as int));
            r
        } else {
            let r = self.data.swap_remove(index);
            assert(self@ =~= swap_removed(old(self)@, index as int));
            r
        }
    }

    pub fn len(&self) -> (r: usize)
        ensures
            r == self@.len(),
    {
        self.data.len()
    }

    pub fn is_empty(&self) -> (r: bool)
        ensures
            r == (self@.len() == 0),
    {
        self.data.len() == 0
    }

    /// How many elements the buffer holds room for without growing.
    pub fn capacity(&self) -> (r: usize)
        ensures
            r >= self@.len(),
    {
        vec_capacity(&self.data)
    }

    /// The elements, in order.
    pub fn as_slice(&self) -> (r: &[T])
        ensures
            r@ == self@,
    {
        self.data.as_slice()
    }
}

} // verus!

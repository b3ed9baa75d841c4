use vstd::prelude::*;

verus! {

/// A fixed number of slots, each filled at most once, in any order.
///
/// All slots are allocated at construction. A filled slot keeps its value
/// for the whole life of the array: the first write wins.
pub struct LazyArray<T> {
    slots: Vec<Option<T>>,
}

impl<T> View for LazyArray<T> {
    type V = Seq<Option<T>>;

    /// The slots, `None` where nothing was written yet.
    closed spec fn view(&self) -> Seq<Option<T>> {
        self.slots@
    }
}

/// What `get_or_insert(index, t)` hands back: the value already in the slot,
/// else `t`.
pub open spec fn occupant<T>(slots: Seq<Option<T>>, index: int, t: T) -> T {
    match slots[index] {
        Some(v) => v,
        None => t,
    }
}

/// The slots after `get_or_insert(index, t)`: the slot holds its occupant.
pub open spec fn after_insert<T>(slots: Seq<Option<T>>, index: int, t: T) -> Seq<Option<T>> {
    slots.update(index, Some(occupant(slots, index, t)))
}

/// Inserting into a slot is write-once: a second `get_or_insert` on the same
/// slot, whatever its value, returns what the first one returned and changes
/// nothing.
pub proof fn lemma_write_once<T>(slots: Seq<Option<T>>, index: int, first: T, second: T)
    requires
        0 <= index < slots.len(),
    ensures
        occupant(after_insert(slots, index, first), index, second) == occupant(
            slots,
            index,
            first,
        ),
        after_insert(after_insert(slots, index, first), index, second) == after_insert(
            slots,
            index,
            first,
        ),
        slots[index] is None ==> occupant(slots, index, first) == first,
{
    let once = after_insert(slots, index, first);
    assert(after_insert(once, index, second) =~= once);
}

impl<T> LazyArray<T> {
    /// Creates an array of `capacity` empty slots.
    pub fn new(capacity: usize) -> (r: LazyArray<T>)
        ensures
            r@ == Seq::new(capacity as nat, |i: int| None::<T>),
    {
        let mut slots: Vec<Option<T>> = Vec::with_capacity(capacity);
        let mut i: usize = 0;
        while i < capacity
            invariant
                i <= capacity,
                slots@ == Seq::new(i as nat, |j: int| None::<T>),
            decreases capacity - i,
        {
            slots.push(None);
            i = i + 1;
            assert(slots@ =~= Seq::new(i as nat, |j: int| None::<T>));
        }
        LazyArray { slots }
    }

    /// Fills slot `index` with `t` if it is empty, and returns the slot's
    /// value; a slot that is already filled keeps its value and `t` is dropped.
    pub fn get_or_insert(&mut self, index: usize, t: T) -> (r: &T)
        requires
            index < old(self)@.len(),
        ensures
            *r == occupant(old(self)@, index as int, t),
            final(self)@ == after_insert(old(self)@, index as int, t),
    {
        if self.slots[index].is_none() {
            self.slots.set(index, Some(t));
        }
        proof {
            assert(self.slots@ =~= after_insert(old(self)@, index as int, t));
        }
        self.slots[index].as_ref().unwrap()
    }

    /// The value in slot `index`, or `None` if the slot is empty.
    pub fn get(&self, index: usize) -> (r: Option<&T>)
        requires
            index < self@.len(),
        ensures
            r is Some == self@[index as int] is Some,
            r is Some ==> *r->Some_0 == self@[index as int]->Some_0,
    {
        self.slots[index].as_ref()
    }
}

impl<T> Default for LazyArray<T> {
    /// An array with no slot.
    fn default() -> (r: LazyArray<T>)
        ensures
            r@ == Seq::<Option<T>>::empty(),
    {
        let r = LazyArray::new(0);
        assert(r@ =~= Seq::<Option<T>>::empty());
        r
    }
}

} // verus!

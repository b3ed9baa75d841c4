use vstd::prelude::*;

verus! {

/// Number of values held by one segment.
pub const SEGMENT_CAPACITY: usize = 32;

/// A sequence onto which values can only be appended.
///
/// Values live in segments of `SEGMENT_CAPACITY` slots. A segment is allocated
/// when the first value goes into it and is never resized, so a value stays
/// where it was written for the whole life of the sequence. `push` hands back
/// the position of the new value, a handle that stays valid and keeps
/// designating the same value whatever is pushed afterwards.
pub struct AppendOnlyVec<T> {
    /// Full segments, in order.
    segments: Vec<Vec<T>>,
    /// The segment being filled; never full.
    tail: Vec<T>,
}

impl<T> View for AppendOnlyVec<T> {
    type V = Seq<T>;

    /// The values pushed so far, in push order.
    closed spec fn view(&self) -> Seq<T> {
        Seq::new(
            (self.segments@.len() * SEGMENT_CAPACITY + self.tail@.len()) as nat,
            |i: int| self.slot(i),
        )
    }
}

/// Position `i` lies in segment `s` at offset `o`.
proof fn lemma_position(i: int, s: int, o: int)
    requires
        0 <= s,
        0 <= o < SEGMENT_CAPACITY,
        i == s * SEGMENT_CAPACITY + o,
    ensures
        i / SEGMENT_CAPACITY as int == s,
        i % SEGMENT_CAPACITY as int == o,
{
    vstd::arithmetic::div_mod::lemma_fundamental_div_mod_converse(
        i,
        SEGMENT_CAPACITY as int,
        s,
        o,
    );
}

/// The values after pushing each of `values`, in order, onto `s`.
pub open spec fn push_each<T>(s: Seq<T>, values: Seq<T>) -> Seq<T>
    decreases values.len(),
{
    if values.len() == 0 {
        s
    } else {
        push_each(s, values.drop_last()).push(values.last())
    }
}

/// Pushing appends: `push_each(s, values)` is `s` followed by `values`.
proof fn lemma_push_each_is_concat<T>(s: Seq<T>, values: Seq<T>)
    ensures
        push_each(s, values) == s + values,
    decreases values.len(),
{
    if values.len() > 0 {
        lemma_push_each_is_concat(s, values.drop_last());
        assert(s + values =~= (s + values.drop_last()).push(values.last()));
    } else {
        assert(s + values =~= s);
    }
}

/// Earlier values are stable: whatever is pushed afterwards, each value that
/// was already in the sequence stays at its position, unchanged.
pub proof fn lemma_push_keeps_earlier<T>(s: Seq<T>, values: Seq<T>, k: int)
    requires
        0 <= k < s.len(),
    ensures
        push_each(s, values)[k] == s[k],
{
    lemma_push_each_is_concat(s, values);
}

/// After `n` pushes onto a new sequence its length is `n`, and position `i`
/// holds the `i`-th value pushed.
pub proof fn lemma_pushes_from_empty<T>(values: Seq<T>)
    ensures
        push_each(Seq::empty(), values).len() == values.len(),
        forall|i: int|
            0 <= i < values.len() ==> #[trigger] push_each(Seq::empty(), values)[i] == values[i],
{
    lemma_push_each_is_concat(Seq::empty(), values);
    assert(Seq::<T>::empty() + values =~= values);
}

impl<T> AppendOnlyVec<T> {
    /// The value stored at position `i`.
    spec fn slot(&self, i: int) -> T {
        let s = i / SEGMENT_CAPACITY as int;
        let o = i % SEGMENT_CAPACITY as int;
        if s < self.segments@.len() {
            self.segments@[s]@[o]
        } else {
            self.tail@[o]
        }
    }

    /// Every segment but the tail is full, the tail is not, and the number of
    /// values fits in a `usize`.
    pub closed spec fn wf(&self) -> bool {
        &&& forall|s: int|
            0 <= s < self.segments@.len() ==> (#[trigger] self.segments@[s])@.len()
                == SEGMENT_CAPACITY
        &&& self.tail@.len() < SEGMENT_CAPACITY
        &&& self.segments@.len() * SEGMENT_CAPACITY + self.tail@.len() <= usize::MAX
    }

    /// Creates an empty sequence; nothing is allocated until the first push.
    pub fn new() -> (r: AppendOnlyVec<T>)
        ensures
            r.wf(),
            r@ == Seq::<T>::empty(),
    {
        let r = AppendOnlyVec { segments: Vec::new(), tail: Vec::new() };
        assert(r@ =~= Seq::<T>::empty());
        r
    }

    /// Appends `value` and returns its position, which `index` resolves to
    /// `value` from now on.
    pub fn push(&mut self, value: T) -> (r: usize)
        requires
            old(self).wf(),
            old(self)@.len() < usize::MAX,
        ensures
            final(self).wf(),
            final(self)@ == old(self)@.push(value),
            r == old(self)@.len(),
    {
        let r = self.len();
        let ghost before = self@;
        let ghost nsegs = self.segments@.len();
        let ghost old_tail = self.tail@;
        if self.tail.len() == 0 {
            self.tail = Vec::with_capacity(SEGMENT_CAPACITY);
        }
        self.tail.push(value);
        let ghost new_tail = self.tail@;
        if self.tail.len() == SEGMENT_CAPACITY {
            let mut full = Vec::new();
            std::mem::swap(&mut full, &mut self.tail);
            self.segments.push(full);
        }
        assert forall|i: int| 0 <= i < before.len() + 1 implies #[trigger] self.slot(i)
            == before.push(value)[i] by {
            if i < nsegs * SEGMENT_CAPACITY {
                lemma_position(i, i / SEGMENT_CAPACITY as int, i % SEGMENT_CAPACITY as int);
                assert((i / SEGMENT_CAPACITY as int) < nsegs) by (nonlinear_arith)
                    requires
                        i < nsegs * SEGMENT_CAPACITY,
                        0 <= i,
                ;
            } else {
                lemma_position(i, nsegs as int, i - nsegs * SEGMENT_CAPACITY);
                assert(new_tail == old_tail.push(value));
            }
        }
        assert(self@ =~= before.push(value));
        r
    }

    /// The number of values pushed so far.
    pub fn len(&self) -> (r: usize)
        requires
            self.wf(),
        ensures
            r == self@.len(),
    {
        self.segments.len() * SEGMENT_CAPACITY + self.tail.len()
    }

    /// Whether nothing has been pushed yet.
    pub fn is_empty(&self) -> (r: bool)
        requires
            self.wf(),
        ensures
            r == (self@.len() == 0),
    {
        self.tail.len() == 0 && self.segments.len() == 0
    }

    /// The value at position `i`, found in segment `i / SEGMENT_CAPACITY` at
    /// offset `i % SEGMENT_CAPACITY`.
    pub fn index(&self, i: usize) -> (r: &T)
        requires
            self.wf(),
            i < self@.len(),
        ensures
            *r == self@[i as int],
    {
        let segment = i / SEGMENT_CAPACITY;
        let offset = i % SEGMENT_CAPACITY;
        if segment < self.segments.len() {
            &self.segments[segment][offset]
        } else {
            assert(segment == self.segments@.len()) by (nonlinear_arith)
                requires
                    segment == i / SEGMENT_CAPACITY,
                    i < self.segments@.len() * SEGMENT_CAPACITY + self.tail@.len(),
                    self.tail@.len() < SEGMENT_CAPACITY,
                    segment >= self.segments@.len(),
            ;
            &self.tail[offset]
        }
    }
}

impl<T> Default for AppendOnlyVec<T> {
    fn default() -> (r: AppendOnlyVec<T>)
        ensures
            r.wf(),
            r@ == Seq::<T>::empty(),
    {
        AppendOnlyVec::new()
    }
}

} // verus!

//! A fixed-length circular window: each new value overwrites the oldest
//! slot. Its mean is the smoothed value of one sensor axis.
use vstd::prelude::*;

verus! {

/// The contents of a fresh window of requested length `size`, every slot
/// holding `v`; a length of zero is taken as one.
pub open spec fn filled<T>(size: nat, v: T) -> Seq<T> {
    Seq::new(if size == 0 { 1 } else { size }, |_i: int| v)
}

/// A window of slots in storage order; the view lists the slots, and
/// `cursor` is the slot that the next value overwrites.
pub struct MovingWindow<T> {
    queue: Vec<T>,
    index: usize,
}

impl<T> View for MovingWindow<T> {
    type V = Seq<T>;

    closed spec fn view(&self) -> Seq<T> {
        self.queue@
    }
}

impl<T: Copy> MovingWindow<T> {
    /// At least one slot, and the cursor points at a slot.
    pub closed spec fn wf(&self) -> bool {
        self.queue@.len() >= 1 && self.index < self.queue@.len()
    }

    /// The slot that the next value overwrites.
    pub closed spec fn cursor(&self) -> int {
        self.index as int
    }

    pub fn new(array_size: usize, initial_value: T) -> (r: MovingWindow<T>)
        ensures
            r.wf(),
            r@ == filled(array_size as nat, initial_value),
            r.cursor() == 0,
    {
        let size: usize = if array_size == 0 { 1 } else { array_size };
        let mut queue: Vec<T> = Vec::new();
        let mut k: usize = 0;
        while k < size
            invariant
                k <= size,
                queue@ == Seq::new(k as nat, |_i: int| initial_value),
            decreases size - k,
        {
            queue.push(initial_value);
            k = k + 1;
            assert(queue@ =~= Seq::new(k as nat, |_i: int| initial_value));
        }
        assert(queue@ =~= filled(array_size as nat, initial_value));
        MovingWindow { queue, index: 0 }
    }

    /// Overwrites the slot at the cursor with `value` and moves the cursor
    /// on by one, back to the first slot after the last.
    pub fn add(&mut self, value: T)
        requires
            old(self).wf(),
        ensures
            final(self).wf(),
            final(self)@ == old(self)@.update(old(self).cursor(), value),
            final(self)@.len() == old(self)@.len(),
            0 <= old(self).cursor() < old(self)@.len(),
            0 <= final(self).cursor() < final(self)@.len(),
            final(self).cursor() == (old(self).cursor() + 1) % (old(self)@.len() as int),
    {
        let i = self.index;
        self.queue[i] = value;
        let n = self.queue.len();
        self.index = if i < n - 1 { i + 1 } else { 0 };
        proof {
            if i + 1 < n {
                vstd::arithmetic::div_mod::lemma_small_mod((i + 1) as nat, n as nat);
            } else {
                vstd::arithmetic::div_mod::lemma_mod_self_0(n as int);
            }
        }
    }

    /// The slots, in storage order.
    pub fn values(&self) -> (r: &[T])
        ensures
            r@ == self@,
    {
        self.queue.as_slice()
    }

    /// The number of slots.
    pub fn len(&self) -> (r: usize)
        ensures
            r == self@.len(),
    {
        self.queue.len()
    }
}

/// The sum of the values of `s`.
pub open spec fn sum_of(s: Seq<i16>) -> int
    decreases s.len(),
{
    if s.len() == 0 {
        0
    } else {
        sum_of(s.drop_last()) + s.last()
    }
}

impl MovingWindow<i16> {
    /// The exact sum of the slots; divided by `len` it is the window's mean.
    pub fn sum(&self) -> (r: i128)
        ensures
            r == sum_of(self@),
    {
        let mut acc: i128 = 0;
        let mut k: usize = 0;
        while k < self.queue.len()
            invariant
                k <= self.queue@.len(),
                acc == sum_of(self.queue@.take(k as int)),
                -32768 * k <= acc <= 32767 * k,
            decreases self.queue@.len() - k,
        {
            assert(self.queue@.take(k as int + 1).drop_last() =~= self.queue@.take(k as int));
            acc = acc + self.queue[k] as i128;
            k = k + 1;
        }
        assert(self.queue@.take(k as int) =~= self.queue@);
        acc
    }
}

/// A requested length of zero gives the same one-slot window as a length of
/// one; a value added to it is then its only content, so its mean is that
/// value.
pub proof fn lemma_zero_length_is_one<T>(v: T, x: T)
    ensures
        filled(0, v) == filled(1, v),
        filled(1, v).len() == 1,
        filled(1, v).update(0, x) == seq![x],
{
    assert(filled(0, v) =~= filled(1, v));
    assert(filled(1, v).update(0, x) =~= seq![x]);
}

} // verus!

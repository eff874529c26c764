//! A fixed-capacity FIFO buffer that evicts its oldest element when full.

use std::collections::VecDeque;
use vstd::pervasive::cloned;
use vstd::prelude::*;

verus! {

broadcast use
    vstd::seq_lib::lemma_seq_skip_index,
    vstd::seq_lib::lemma_seq_skip_len,
    vstd::seq_lib::lemma_seq_take_index,
    vstd::seq_lib::lemma_seq_take_len;

/// The last `cap` elements of `s`, or all of `s` when it is no longer than `cap`.
pub open spec fn last_n<T>(s: Seq<T>, cap: nat) -> Seq<T> {
    if s.len() <= cap {
        s
    } else {
        s.skip(s.len() - cap)
    }
}

/// Bounding a sequence to its last `cap` elements commutes with pushing one
/// more element: the bound may be applied before or after the push.
pub proof fn lemma_last_n_push<T>(s: Seq<T>, cap: nat, e: T)
    ensures
        last_n(last_n(s, cap).push(e), cap) == last_n(s.push(e), cap),
{
    if s.len() <= cap {
    } else {
        let t = last_n(s, cap);
        assert(t.len() == cap);
        assert(last_n(t.push(e), cap) =~= last_n(s.push(e), cap));
    }
}

/// A fixed length ring buffer that overwrites the oldest element when full.
///
/// The logical contents are the sequence of retained elements, oldest first.
/// The capacity is a field of its own: the inner buffer may have allocated
/// more, and its allocation never stands in any contract here.
pub struct RingBuffer<T> {
    inner: VecDeque<T>,
    capacity: usize,
}

impl<T> View for RingBuffer<T> {
    type V = Seq<T>;

    closed spec fn view(&self) -> Seq<T> {
        self.inner@
    }
}

impl<T> RingBuffer<T> {
    /// The buffer never retains more elements than its capacity.
    pub open spec fn wf(&self) -> bool {
        self@.len() <= self.spec_capacity()
    }

    pub closed spec fn spec_capacity(&self) -> usize {
        self.capacity
    }

    /// Create a new ring buffer of the given capacity.
    pub fn new(capacity: usize) -> (r: Self)
        ensures
            r@ == Seq::<T>::empty(),
            r.spec_capacity() == capacity,
            r.wf(),
    {
        Self { inner: VecDeque::with_capacity(capacity), capacity }
    }

    /// Add an element to the ring buffer, evicting the oldest element if full.
    pub fn push(&mut self, elem: T)
        requires
            old(self).wf(),
        ensures
            final(self).wf(),
            final(self).spec_capacity() == old(self).spec_capacity(),
            final(self)@ == last_n(old(self)@.push(elem), old(self).spec_capacity() as nat),
    {
        if self.capacity == 0 {
            assert(final(self)@ =~= last_n(old(self)@.push(elem), 0));
            return;
        }
        if self.inner.len() >= self.capacity {
            let _ = self.inner.pop_front();
        }
        self.inner.push_back(elem);
        assert(self@ =~= last_n(old(self)@.push(elem), old(self).spec_capacity() as nat));
    }

    /// Add each element of `elems` in order, evicting oldest elements as needed.
    #[verifier::loop_isolation(false)]
    pub fn push_multiple(&mut self, elems: Vec<T>)
        requires
            old(self).wf(),
        ensures
            final(self).wf(),
            final(self).spec_capacity() == old(self).spec_capacity(),
            final(self)@ == last_n(old(self)@ + elems@, old(self).spec_capacity() as nat),
    {
        let ghost cap = old(self).spec_capacity() as nat;
        let ghost all = elems@;
        let mut rest = elems;
        assert(old(self)@ + all.take(0) =~= old(self)@);
        while rest.len() > 0
            invariant
                self.wf(),
                self.spec_capacity() == old(self).spec_capacity(),
                rest@.len() <= all.len(),
                rest@ == all.skip(all.len() - rest@.len()),
                self@ == last_n(old(self)@ + all.take(all.len() - rest@.len()), cap),
            decreases rest@.len(),
        {
            let ghost old_rest = rest@;
            let ghost done = all.len() - old_rest.len();
            let ghost prefix = old(self)@ + all.take(done);
            let e = rest.remove(0);
            proof {
                assert(old_rest == all.skip(done));
                assert(e == old_rest[0]);
                assert(old_rest[0] == all[done]) by {
                    assert(all.skip(done)[0] == all[done]);
                }
                assert(rest@ =~= old_rest.skip(1));
                assert(rest@ =~= all.skip(done + 1)) by {
                    assert(forall|i: int| 0 <= i < old_rest.len() - 1 ==> old_rest.skip(1)[i]
                        == all.skip(done)[i + 1] && all.skip(done)[i + 1] == all[done + 1 + i]
                        && #[trigger] all.skip(done + 1)[i] == all[done + 1 + i]);
                }
            }
            self.push(e);
            proof {
                lemma_last_n_push(prefix, cap, e);
                assert(self@ == last_n(last_n(prefix, cap).push(e), cap));
                assert(prefix.push(e) =~= old(self)@ + all.take(done + 1));
            }
        }
        proof {
            assert(old(self)@ + all.take(all.len() as int) =~= old(self)@ + all);
        }
    }

    /// Build a buffer holding exactly `elems`, whose capacity equals their
    /// count.
    pub fn from_vec(elems: Vec<T>) -> (r: Self)
        ensures
            r@ == elems@,
            r.spec_capacity() == elems@.len(),
            r.wf(),
    {
        let ghost contents = elems@;
        let mut r = Self::new(elems.len());
        r.push_multiple(elems);
        proof {
            assert(Seq::<T>::empty() + contents =~= contents);
        }
        r
    }

    /// Get the element at `index`, where 0 is the oldest retained element.
    pub fn get(&self, index: usize) -> (r: Option<&T>)
        ensures
            match r {
                Some(e) => index < self@.len() && *e == self@[index as int],
                None => index >= self@.len(),
            },
    {
        if index < self.inner.len() {
            Some(&self.inner[index])
        } else {
            None
        }
    }

    /// Get the capacity of the ring buffer.
    #[verifier::when_used_as_spec(spec_capacity)]
    pub fn capacity(&self) -> (r: usize)
        ensures
            r == self.spec_capacity(),
    {
        self.capacity
    }

    /// Get the number of retained elements.
    pub fn len(&self) -> (r: usize)
        ensures
            r == self@.len(),
    {
        self.inner.len()
    }

    /// Check if the ring buffer is empty.
    pub fn is_empty(&self) -> (r: bool)
        ensures
            r == (self@.len() == 0),
    {
        self.inner.len() == 0
    }

    /// Grow the capacity of the ring buffer.  Fails exactly when `capacity`
    /// is below the current capacity, leaving the buffer untouched, so the
    /// capacity never decreases through this operation.
    pub fn resize(&mut self, capacity: usize) -> (r: Result<(), ResizeError>)
        requires
            old(self).wf(),
        ensures
            final(self).wf(),
            r is Ok <==> capacity >= old(self).spec_capacity(),
            r is Ok ==> final(self)@ == old(self)@ && final(self).spec_capacity() == capacity,
            r is Err ==> *final(self) == *old(self),
            match r {
                Ok(()) => true,
                Err(e) => e.spec_new_capacity() == capacity && e.spec_length() == old(
                    self,
                )@.len(),
            },
    {
        if capacity < self.capacity {
            Err(ResizeError { new_capacity: capacity, length: self.inner.len() })
        } else {
            self.capacity = capacity;
            Ok(())
        }
    }

    /// Change the capacity of the ring buffer, evicting oldest elements as
    /// necessary; both shrinking and growing are permitted.  Exactly
    /// `min(len, capacity)` elements remain, the newest ones, in order.
    #[verifier::loop_isolation(false)]
    pub fn truncate_fifo(&mut self, capacity: usize)
        requires
            old(self).wf(),
        ensures
            final(self).wf(),
            final(self).spec_capacity() == capacity,
            final(self)@ == last_n(old(self)@, capacity as nat),
    {
        while self.inner.len() > capacity
            invariant
                self@.len() <= old(self)@.len(),
                self@ == if self@.len() > capacity {
                    last_n(old(self)@, self@.len() as nat)
                } else {
                    last_n(old(self)@, capacity as nat)
                },
            decreases self@.len(),
        {
            let ghost before = self@;
            let _ = self.inner.pop_front();
            proof {
                assert(self@ =~= if self@.len() > capacity {
                    last_n(old(self)@, self@.len() as nat)
                } else {
                    last_n(old(self)@, capacity as nat)
                });
            }
        }
        self.capacity = capacity;
    }
}

impl<T: Clone> RingBuffer<T> {
    /// The retained elements as a vector, oldest first, each obtained with
    /// `clone`.
    #[verifier::loop_isolation(false)]
    pub fn iter(&self) -> (r: Vec<T>)
        ensures
            r@.len() == self@.len(),
            forall|i: int| 0 <= i < self@.len() ==> cloned(self@[i], #[trigger] r@[i]),
    {
        let mut out: Vec<T> = Vec::new();
        let mut i: usize = 0;
        while i < self.inner.len()
            invariant
                i <= self@.len(),
                out@.len() == i,
                forall|j: int| 0 <= j < i ==> cloned(self@[j], #[trigger] out@[j]),
            decreases self@.len() - i,
        {
            out.push(self.inner[i].clone());
            i += 1;
        }
        out
    }

    /// The retained elements as a vector, newest first, each obtained with
    /// `clone`.
    #[verifier::loop_isolation(false)]
    pub fn iter_rev(&self) -> (r: Vec<T>)
        ensures
            r@.len() == self@.len(),
            forall|i: int| 0 <= i < self@.len() ==> cloned(
                self@[self@.len() - 1 - i],
                #[trigger] r@[i],
            ),
    {
        let mut out: Vec<T> = Vec::new();
        let mut i: usize = self.inner.len();
        while i > 0
            invariant
                i <= self@.len(),
                out@.len() == self@.len() - i,
                forall|j: int| 0 <= j < out@.len() ==> cloned(
                    self@[self@.len() - 1 - j],
                    #[trigger] out@[j],
                ),
            decreases i,
        {
            i -= 1;
            out.push(self.inner[i].clone());
        }
        out
    }
}

impl<T: Clone> Clone for RingBuffer<T> {
    /// Clone the buffer: capacity is kept, and each element is a clone of the
    /// element at the same position.
    fn clone(&self) -> (r: Self)
        ensures
            r.spec_capacity() == self.spec_capacity(),
            r@.len() == self@.len(),
            forall|i: int| 0 <= i < self@.len() ==> cloned(self@[i], #[trigger] r@[i]),
    {
        Self { inner: self.inner.clone(), capacity: self.capacity }
    }
}

/// The error of a rejected `resize`: the requested capacity together with the
/// buffer length at the time of the call.
pub struct ResizeError {
    new_capacity: usize,
    length: usize,
}

impl ResizeError {
    pub closed spec fn spec_new_capacity(&self) -> usize {
        self.new_capacity
    }

    pub closed spec fn spec_length(&self) -> usize {
        self.length
    }
}

} // verus!

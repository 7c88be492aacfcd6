//! Fixed-capacity rolling window with O(1) updates.

use vstd::prelude::*;

verus! {

/// Where the next value goes and how many values are retained.
#[derive(Debug, Clone, Copy)]
struct Cursor {
    write_pos: usize,
    count: usize,
}

/// The last `capacity` values pushed, oldest first.
#[derive(Debug)]
pub struct RollingWindow<T> {
    buffer: Vec<T>,
    capacity: usize,
    cursor: Cursor,
}

impl<T> View for RollingWindow<T> {
    type V = Seq<T>;

    /// The retained values, oldest first.
    closed spec fn view(&self) -> Seq<T> {
        if self.cursor.count < self.capacity {
            self.buffer@.take(self.cursor.count as int)
        } else {
            self.buffer@.skip(self.cursor.write_pos as int) + self.buffer@.take(
                self.cursor.write_pos as int,
            )
        }
    }
}

/// The window after pushing `value` onto a window holding `w`: the value is appended,
/// and when `w` was full its oldest value leaves.
pub open spec fn after_push<T>(capacity: nat, w: Seq<T>, value: T) -> Seq<T> {
    if w.len() < capacity {
        w.push(value)
    } else {
        w.drop_first().push(value)
    }
}

/// The window after pushing all of `values`, in order, onto a window holding `w`.
pub open spec fn after_pushes<T>(capacity: nat, w: Seq<T>, values: Seq<T>) -> Seq<T>
    decreases values.len(),
{
    if values.len() == 0 {
        w
    } else {
        after_push(capacity, after_pushes(capacity, w, values.drop_last()), values.last())
    }
}

/// A window of capacity `c`, filled from empty, holds exactly the last `c` values
/// pushed (all of them while fewer were pushed), oldest first.
pub proof fn lemma_window_keeps_latest<T>(capacity: nat, values: Seq<T>)
    requires
        capacity > 0,
    ensures
        after_pushes(capacity, Seq::empty(), values) == values.skip(
            if values.len() > capacity {
                values.len() - capacity
            } else {
                0
            },
        ),
    decreases values.len(),
{
    if values.len() == 0 {
        assert(values.skip(0) =~= values);
    } else {
        let init = values.drop_last();
        lemma_window_keeps_latest(capacity, init);
        let w = after_pushes(capacity, Seq::empty(), init);
        if init.len() < capacity {
            assert(w =~= init);
            assert(values.skip(0) =~= values);
            assert(w.push(values.last()) =~= values);
        } else {
            let drop = init.len() - capacity;
            assert(w == init.skip(drop));
            assert(w.len() == capacity);
            assert(w.drop_first().push(values.last()) =~= values.skip(values.len() - capacity));
        }
    }
}

impl<T> RollingWindow<T> {
    /// The storage is preallocated; the cursor agrees with the retained values.
    #[verifier::type_invariant]
    closed spec fn consistent(self) -> bool {
        &&& self.capacity > 0
        &&& self.buffer.len() == self.capacity
        &&& self.cursor.count <= self.capacity
        &&& self.cursor.write_pos < self.capacity
        &&& self.cursor.count < self.capacity ==> self.cursor.write_pos == self.cursor.count
    }

    /// How many values the window retains at most.
    pub closed spec fn spec_capacity(&self) -> usize {
        self.capacity
    }
}

impl<T: Copy + Default> RollingWindow<T> {
    /// An empty window with its storage allocated; a window of capacity 0 is refused.
    pub fn new(capacity: usize) -> (res: Self)
        requires
            capacity > 0,
        ensures
            res@ == Seq::<T>::empty(),
            res.spec_capacity() == capacity,
    {
        let mut buffer: Vec<T> = Vec::new();
        let mut i: usize = 0;
        while i < capacity
            invariant
                i <= capacity,
                buffer.len() == i,
            decreases capacity - i,
        {
            buffer.push(T::default());
            i = i + 1;
        }
        let res = RollingWindow { buffer, capacity, cursor: Cursor { write_pos: 0, count: 0 } };
        assert(res@ =~= Seq::<T>::empty());
        res
    }

    /// Appends `value`; when the window was full its oldest value leaves and is returned.
    pub fn push(&mut self, value: T) -> (res: Option<T>)
        ensures
            final(self).spec_capacity() == old(self).spec_capacity(),
            final(self)@ == after_push(old(self).spec_capacity() as nat, old(self)@, value),
            old(self)@.len() < old(self).spec_capacity() ==> {
                &&& res is None
                &&& final(self)@ == old(self)@.push(value)
            },
            old(self)@.len() >= old(self).spec_capacity() ==> {
                &&& res == Some(old(self)@[0])
                &&& final(self)@ == old(self)@.drop_first().push(value)
            },
    {
        proof {
            use_type_invariant(&*self);
        }
        let ghost before = self@;
        let ghost b = self.buffer@;
        let idx = self.cursor.write_pos;
        let count = self.cursor.count;
        let next = if idx + 1 == self.capacity {
            0
        } else {
            idx + 1
        };
        if count >= self.capacity {
            let old_value = self.buffer[idx];
            self.buffer[idx] = value;
            self.cursor = Cursor { write_pos: next, count };
            proof {
                let nb = b.update(idx as int, value);
                assert(self.buffer@ == nb);
                assert(before == b.skip(idx as int) + b.take(idx as int));
                assert(before[0] == b[idx as int]);
                if next == 0 {
                    assert(nb.skip(0) + nb.take(0) =~= nb);
                    assert(nb =~= b.take(idx as int).push(value));
                    assert(before.drop_first() =~= b.take(idx as int));
                } else {
                    assert(nb.skip(next as int) =~= b.skip(next as int));
                    assert(nb.take(next as int) =~= b.take(idx as int).push(value));
                    assert(before.drop_first() =~= b.skip(next as int) + b.take(idx as int));
                }
                assert(self@ =~= before.drop_first().push(value));
            }
            Some(old_value)
        } else {
            self.buffer[idx] = value;
            self.cursor = Cursor { write_pos: next, count: count + 1 };
            proof {
                let nb = b.update(idx as int, value);
                assert(self.buffer@ == nb);
                assert(before == b.take(count as int));
                if count + 1 == self.capacity {
                    assert(nb.skip(0) + nb.take(0) =~= nb);
                    assert(nb =~= b.take(count as int).push(value));
                } else {
                    assert(nb.take(count + 1) =~= b.take(count as int).push(value));
                }
                assert(self@ =~= before.push(value));
            }
            None
        }
    }

    pub fn len(&self) -> (res: usize)
        ensures
            res == self@.len(),
            res <= self.spec_capacity(),
    {
        proof {
            use_type_invariant(self);
        }
        self.cursor.count
    }

    pub fn is_empty(&self) -> (res: bool)
        ensures
            res == (self@.len() == 0),
    {
        proof {
            use_type_invariant(self);
        }
        self.cursor.count == 0
    }

    pub fn is_full(&self) -> (res: bool)
        ensures
            res == (self@.len() >= self.spec_capacity()),
    {
        proof {
            use_type_invariant(self);
        }
        self.cursor.count >= self.capacity
    }

    pub fn capacity(&self) -> (res: usize)
        ensures
            res == self.spec_capacity(),
            res > 0,
    {
        proof {
            use_type_invariant(self);
        }
        self.capacity
    }

    /// Forgets every value; the capacity and the storage stay.
    pub fn clear(&mut self)
        ensures
            final(self)@ == Seq::<T>::empty(),
            final(self).spec_capacity() == old(self).spec_capacity(),
    {
        proof {
            use_type_invariant(&*self);
        }
        self.cursor = Cursor { write_pos: 0, count: 0 };
        assert(self@ =~= Seq::<T>::empty());
    }
}

} // verus!

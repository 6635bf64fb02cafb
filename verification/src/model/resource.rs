//! Docker resource rows and the bounded buffers that hold events and logs.
use std::collections::VecDeque;

use vstd::prelude::*;

verus! {

#[derive(Clone, Debug, Default)]
pub struct ImageRow {
    pub id: String,
    pub tags: Vec<String>,
    pub size_bytes: u64,
    pub created: i64,
}

#[derive(Clone, Debug, Default)]
pub struct VolumeRow {
    pub name: String,
    pub driver: String,
    pub mountpoint: String,
    pub scope: String,
}

#[derive(Clone, Debug, Default)]
pub struct NetworkRow {
    pub id: String,
    pub name: String,
    pub driver: String,
    pub scope: String,
    pub containers: usize,
}

#[derive(Clone, Debug, Default)]
pub struct ContainerDetails {
    pub id: String,
    pub name: String,
    pub image: String,
    pub command: String,
    pub created: String,
    pub started: String,
    pub status: String,
    pub health: String,
    pub restart_count: i64,
    pub ports: Vec<String>,
    pub mounts: Vec<String>,
    pub networks: Vec<String>,
}

/// A FIFO buffer that keeps at most `capacity` items, dropping the oldest.
#[derive(Clone, Debug)]
pub struct BoundedLines<T> {
    pub items: VecDeque<T>,
    pub capacity: usize,
}

/// The buffer after `item` is pushed onto the contents `items` of a buffer
/// with room for `capacity` items.
pub open spec fn pushed<T>(items: Seq<T>, capacity: nat, item: T) -> Seq<T> {
    if capacity == 0 {
        items
    } else if items.len() == capacity {
        items.drop_first().push(item)
    } else {
        items.push(item)
    }
}

/// The contents after pushing every item of `xs`, in order.
pub open spec fn pushed_all<T>(items: Seq<T>, capacity: nat, xs: Seq<T>) -> Seq<T>
    decreases xs.len(),
{
    if xs.len() == 0 {
        items
    } else {
        pushed(pushed_all(items, capacity, xs.drop_last()), capacity, xs.last())
    }
}

/// The last `n` items of `xs` (all of them when there are fewer).
pub open spec fn last_n<T>(xs: Seq<T>, n: nat) -> Seq<T> {
    if xs.len() <= n {
        xs
    } else {
        xs.skip(xs.len() - n)
    }
}

impl<T> BoundedLines<T> {
    /// The buffer never holds more than its capacity.
    pub open spec fn wf(&self) -> bool {
        self.items@.len() <= self.capacity
    }

    pub fn new(capacity: usize) -> (b: Self)
        ensures
            b.items@ == Seq::<T>::empty(),
            b.capacity == capacity,
            b.wf(),
    {
        let reserve = if capacity < 1024 {
            capacity
        } else {
            1024
        };
        BoundedLines { items: VecDeque::with_capacity(reserve), capacity }
    }

    /// Append `item`, dropping the oldest item when the buffer is full. A
    /// buffer of capacity 0 keeps nothing.
    pub fn push(&mut self, item: T)
        ensures
            final(self).items@ == pushed(old(self).items@, old(self).capacity as nat, item),
            final(self).capacity == old(self).capacity,
    {
        if self.capacity == 0 {
            return;
        }
        if self.items.len() == self.capacity {
            self.items.pop_front();
        }
        self.items.push_back(item);
    }

    pub fn clear(&mut self)
        ensures
            final(self).items@ == Seq::<T>::empty(),
            final(self).capacity == old(self).capacity,
    {
        self.items.clear();
    }
}

/// Pushing keeps a buffer within its capacity.
pub proof fn lemma_push_keeps_bound<T>(items: Seq<T>, capacity: nat, item: T)
    requires
        items.len() <= capacity,
    ensures
        pushed(items, capacity, item).len() <= capacity,
{
}

/// Pushing a run of items into an empty buffer of capacity `capacity > 0`
/// leaves exactly the last `capacity` of them, oldest first.
pub proof fn lemma_keeps_newest<T>(capacity: nat, xs: Seq<T>)
    requires
        capacity > 0,
    ensures
        pushed_all(Seq::empty(), capacity, xs) == last_n(xs, capacity),
    decreases xs.len(),
{
    if xs.len() > 0 {
        lemma_keeps_newest(capacity, xs.drop_last());
        let prev = last_n(xs.drop_last(), capacity);
        if xs.len() - 1 <= capacity {
            assert(prev == xs.drop_last());
            if xs.len() - 1 == capacity {
                assert(prev.drop_first().push(xs.last()) =~= xs.skip(xs.len() - capacity));
            } else {
                assert(prev.push(xs.last()) =~= xs);
            }
        } else {
            assert(prev.len() == capacity);
            assert(prev.drop_first().push(xs.last()) =~= xs.skip(xs.len() - capacity));
        }
    }
}

} // verus!

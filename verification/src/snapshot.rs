//! Snapshot iteration: an ordered copy taken in full when it is made, and
//! handed out one element at a time.

use crate::pull::{head_of, rest_of};
use std::collections::VecDeque;
use vstd::prelude::*;

verus! {

/// An ordered sequence captured at construction, with a cursor that counts
/// the elements handed out so far. Nothing that happens to the source
/// afterwards reaches it.
pub struct Snapshot<T> {
    items: VecDeque<T>,
    cursor: usize,
}

impl<T> Snapshot<T> {
    #[verifier::type_invariant]
    spec fn countable(&self) -> bool {
        self.cursor + self.items@.len() <= usize::MAX
    }

    /// The elements not handed out yet, in the order in which they will come.
    pub closed spec fn remaining(&self) -> Seq<T> {
        self.items@
    }

    /// The number of elements handed out so far.
    pub closed spec fn cursor(&self) -> nat {
        self.cursor as nat
    }

    /// The number of elements captured at construction.
    pub open spec fn length(&self) -> nat {
        self.cursor() + self.remaining().len()
    }

    /// A snapshot of the given elements, with the cursor at the start.
    pub fn capture(items: VecDeque<T>) -> (r: Self)
        ensures
            r.remaining() == items@,
            r.cursor() == 0,
    {
        proof {
            vstd::std_specs::vecdeque::axiom_spec_len(&items);
        }
        Snapshot { items, cursor: 0 }
    }

    /// Hands out the element under the cursor and moves the cursor on, or
    /// returns `None` where the cursor has reached the length. An exhausted
    /// snapshot stays exhausted.
    pub fn next(&mut self) -> (r: Option<T>)
        ensures
            r == head_of(old(self).remaining()),
            final(self).remaining() == rest_of(old(self).remaining()),
            final(self).length() == old(self).length(),
            r is Some ==> final(self).cursor() == old(self).cursor() + 1,
            r is None <==> old(self).cursor() == old(self).length(),
            r is None ==> final(self).cursor() == old(self).cursor(),
    {
        proof {
            use_type_invariant(&*self);
        }
        let mut items = VecDeque::new();
        core::mem::swap(&mut items, &mut self.items);
        let first = items.pop_front();
        if first.is_some() {
            self.cursor = self.cursor + 1;
        }
        self.items = items;
        first
    }
}

} // verus!

//! A bounded window in front of a stream: the next items can be looked at
//! without being taken, up to a fixed number of them.

use vstd::prelude::*;

verus! {

/// A stream of items with a window of `SIZE` items that can be seen ahead.
pub struct CachedLookahead<T, const SIZE: usize> {
    // The items that are still to come; the next one is the last.
    stack: Vec<T>,
}

/// The first `size` items of `remaining`, or all of them if there are fewer.
pub open spec fn window_of<T>(remaining: Seq<T>, size: nat) -> Seq<T> {
    if remaining.len() <= size {
        remaining
    } else {
        remaining.take(size as int)
    }
}

impl<T, const SIZE: usize> CachedLookahead<T, SIZE> {
    /// The items that are still to come, the next one first.
    pub closed spec fn remaining(&self) -> Seq<T> {
        self.stack@.reverse()
    }

    /// The items that can be seen without taking them.
    pub open spec fn window(&self) -> Seq<T> {
        window_of(self.remaining(), SIZE as nat)
    }

    /// A stream over `items`, first to last.
    pub fn new(items: Vec<T>) -> (r: Self)
        ensures
            r.remaining() == items@,
    {
        let mut items = items;
        let ghost all = items@;
        let mut stack: Vec<T> = Vec::new();
        while items.len() > 0
            invariant
                items@.len() + stack@.len() == all.len(),
                items@ == all.take(items@.len() as int),
                forall|i: int| 0 <= i < stack@.len() ==> stack@[i] == all[all.len() - 1 - i],
            decreases items.len(),
        {
            let item = items.pop().unwrap();
            stack.push(item);
        }
        proof {
            assert(stack@.reverse() =~= all);
        }
        CachedLookahead { stack }
    }

    /// How many items are still to come.
    pub fn len(&self) -> (n: usize)
        ensures
            n == self.remaining().len(),
    {
        self.stack.len()
    }

    /// Takes the next item.
    pub fn next(&mut self) -> (r: Option<T>)
        ensures
            match r {
                Some(item) => old(self).remaining().len() > 0 && item == old(self).remaining()[0]
                    && final(self).remaining() == old(self).remaining().drop_first(),
                None => old(self).remaining().len() == 0 && final(self).remaining() == old(
                    self,
                ).remaining(),
            },
    {
        let r = self.stack.pop();
        proof {
            if r.is_some() {
                assert(self.stack@.reverse() =~= old(self).stack@.reverse().drop_first());
            }
        }
        r
    }

    /// The next item, which stays in the stream.
    pub fn peek(&self) -> (r: Option<&T>)
        ensures
            match r {
                Some(item) => self.remaining().len() > 0 && *item == self.remaining()[0],
                None => self.remaining().len() == 0,
            },
    {
        let n: usize = self.stack.len();
        if n == 0 {
            None
        } else {
            Some(&self.stack[n - 1])
        }
    }

    /// The item `ahead` places after the next one, if the window reaches it.
    pub fn lookahead(&self, ahead: usize) -> (r: Option<&T>)
        ensures
            match r {
                Some(item) => ahead < self.window().len() && *item == self.window()[ahead as int],
                None => ahead >= self.window().len(),
            },
    {
        let n: usize = self.stack.len();
        if ahead < SIZE && ahead < n {
            Some(&self.stack[n - 1 - ahead])
        } else {
            None
        }
    }
}

} // verus!

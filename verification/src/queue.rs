//! Items that are taken one by one, first to last.
use vstd::prelude::*;

verus! {

/// Items that are taken one by one, first to last.
pub(crate) struct Queue<T> {
    /// The items, last to first.
    reversed: Vec<T>,
}

impl<T> View for Queue<T> {
    type V = Seq<T>;

    closed spec fn view(&self) -> Seq<T> {
        self.reversed@.reverse()
    }
}

impl<T> Queue<T> {
    /// Queues up items.
    pub fn new(items: Vec<T>) -> (queue: Self)
        ensures
            queue@ == items@,
    {
        let mut left = items;
        let mut reversed: Vec<T> = Vec::new();
        while left.len() > 0
            invariant
                left@ + reversed@.reverse() =~= items@,
            decreases left.len(),
        {
            let ghost before = left@;
            let ghost turned = reversed@;
            if let Some(item) = left.pop() {
                reversed.push(item);
                assert(before == left@.push(item));
                assert(reversed@.reverse() =~= seq![item] + turned.reverse());
            }
        }
        let queue = Queue { reversed };
        assert(queue@ =~= items@);
        queue
    }

    /// Returns how many items are left.
    pub fn len(&self) -> (len: usize)
        ensures
            len == self@.len(),
    {
        self.reversed.len()
    }

    /// Takes the first of the items that are left, of which there is one.
    pub fn take(&mut self) -> (item: T)
        requires
            old(self)@.len() > 0,
        ensures
            item == old(self)@[0],
            final(self)@ == old(self)@.skip(1),
    {
        let at = self.reversed.len() - 1;
        let item = self.reversed.remove(at);
        assert(self@ =~= old(self)@.skip(1));
        item
    }
}

} // verus!

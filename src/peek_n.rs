use vstd::prelude::*;

verus! {

/// A cursor over a sequence that can look any number of items ahead
/// before it consumes them.
pub struct PeekN<T> {
    /// The items still to come, the next one last.
    rest: Vec<T>,
}

impl<T> View for PeekN<T> {
    type V = Seq<T>;

    /// The items still to come, in order.
    closed spec fn view(&self) -> Seq<T> {
        Seq::new(self.rest@.len(), |i: int| self.rest@[self.rest@.len() - 1 - i])
    }
}

impl<T> PeekN<T> {
    /// A cursor before the first of `items`.
    pub fn new(items: Vec<T>) -> (r: PeekN<T>)
        ensures
            r@ == items@,
    {
        let ghost all = items@;
        let mut items = items;
        let mut rest: Vec<T> = Vec::new();
        while items.len() > 0
            invariant
                items@ == all.take(items@.len() as int),
                rest@.len() + items@.len() == all.len(),
                forall|i: int| 0 <= i < rest@.len() ==> rest@[i] == all[all.len() - 1 - i],
            decreases items@.len(),
        {
            let item = items.pop().unwrap();
            rest.push(item);
            proof {
                assert(items@ =~= all.take(items@.len() as int));
            }
        }
        let r = PeekN { rest };
        proof {
            assert(r@ =~= all);
        }
        r
    }

    /// The next item, if any.
    pub fn peek(&self) -> (r: Option<&T>)
        ensures
            r == (if self@.len() > 0 { Some(&self@[0]) } else { None }),
    {
        self.peek_nth(0)
    }

    /// The item `nth` places ahead (0 is the next one), if there is one.
    pub fn peek_nth(&self, nth: usize) -> (r: Option<&T>)
        ensures
            r == (if nth < self@.len() { Some(&self@[nth as int]) } else { None }),
    {
        if nth < self.rest.len() {
            Some(&self.rest[self.rest.len() - 1 - nth])
        } else {
            None
        }
    }

    /// Consumes and returns the next item.
    pub fn next(&mut self) -> (r: Option<T>)
        ensures
            old(self)@.len() == 0 ==> r is None && final(self)@ == old(self)@,
            old(self)@.len() > 0 ==> r == Some(old(self)@[0]) && final(self)@
                == old(self)@.drop_first(),
    {
        let r = self.rest.pop();
        proof {
            if old(self)@.len() > 0 {
                assert(self@ =~= old(self)@.drop_first());
            } else {
                assert(self@ =~= old(self)@);
            }
        }
        r
    }

    /// Consumes and returns the next item where `pred` holds of it.
    pub fn next_if<P: FnOnce(&T) -> bool>(&mut self, pred: P) -> (r: Option<T>)
        requires
            old(self)@.len() > 0 ==> call_requires(pred, (&old(self)@[0],)),
        ensures
            old(self)@.len() == 0 ==> r is None && final(self)@ == old(self)@,
            old(self)@.len() > 0 ==> exists|taken: bool|
                {
                    &&& call_ensures(pred, (&old(self)@[0],), taken)
                    &&& taken ==> r == Some(old(self)@[0]) && final(self)@
                        == old(self)@.drop_first()
                    &&& !taken ==> r is None && final(self)@ == old(self)@
                },
    {
        let taken = match self.peek() {
            None => return None,
            Some(item) => pred(item),
        };
        if taken {
            self.next()
        } else {
            None
        }
    }

    /// Consumes the next `n` items.
    pub fn advance(&mut self, n: usize)
        requires
            n <= old(self)@.len(),
        ensures
            final(self)@ == old(self)@.skip(n as int),
    {
        let mut i: usize = 0;
        while i < n
            invariant
                i <= n,
                n <= old(self)@.len(),
                self@ == old(self)@.skip(i as int),
            decreases n - i,
        {
            self.next();
            proof {
                assert(old(self)@.skip(i as int).drop_first() =~= old(self)@.skip(i + 1));
            }
            i = i + 1;
        }
    }

    /// The number of items still to come.
    pub fn len(&self) -> (r: usize)
        ensures
            r == self@.len(),
    {
        self.rest.len()
    }
}

} // verus!

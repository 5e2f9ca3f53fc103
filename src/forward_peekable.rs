use vstd::prelude::*;

verus! {

/// A sequence of items that are handed out one at a time, where any item still
/// ahead can be looked at without taking it.
#[derive(Debug)]
pub struct ForwardPeekable<T> {
    /// The items still ahead, last one first: the next item sits at the end.
    ahead: Vec<T>,
}

impl<T> View for ForwardPeekable<T> {
    type V = Seq<T>;

    /// The items still ahead, next one first.
    closed spec fn view(&self) -> Seq<T> {
        Seq::new(self.ahead@.len(), |i: int| self.ahead@[self.ahead@.len() - 1 - i])
    }
}

impl<T> ForwardPeekable<T> {
    pub fn new(items: Vec<T>) -> (r: ForwardPeekable<T>)
        ensures
            r@ == items@,
    {
        let ghost all = items@;
        let mut items = items;
        let mut ahead: Vec<T> = Vec::new();
        while items.len() > 0
            invariant
                items@.len() + ahead@.len() == all.len(),
                items@ == all.take(items@.len() as int),
                forall|j: int|
                    0 <= j < ahead@.len() ==> #[trigger] ahead@[j] == all[all.len() - 1 - j],
            decreases items@.len(),
        {
            let x = items.pop().unwrap();
            ahead.push(x);
        }
        let r = ForwardPeekable { ahead };
        assert(r@ =~= all);
        r
    }

    /// The next item, if any, left in place.
    pub fn peek(&self) -> (r: Option<&T>)
        ensures
            match r {
                Some(x) => self@.len() > 0 && *x == self@[0],
                None => self@.len() == 0,
            },
    {
        self.peek_nth(0)
    }

    /// The item `n` places ahead (`0` is the next one), if any, left in place.
    pub fn peek_nth(&self, n: usize) -> (r: Option<&T>)
        ensures
            match r {
                Some(x) => n < self@.len() && *x == self@[n as int],
                None => n >= self@.len(),
            },
    {
        let len = self.ahead.len();
        if n < len {
            Some(&self.ahead[len - 1 - n])
        } else {
            None
        }
    }

    /// Takes the next item, if any.
    pub fn next(&mut self) -> (r: Option<T>)
        ensures
            match r {
                Some(x) => old(self)@.len() > 0 && x == old(self)@[0] && final(self)@
                    == old(self)@.drop_first(),
                None => old(self)@.len() == 0 && final(self)@ == old(self)@,
            },
    {
        let r = self.ahead.pop();
        proof {
            if r is Some {
                assert(self@ =~= old(self)@.drop_first());
            }
        }
        r
    }
}

/// Turns a collection into a [`ForwardPeekable`] over its items, in order.
pub trait IteratorExt<T>: Sized {
    spec fn items(&self) -> Seq<T>;

    fn forward_peekable(self) -> (r: ForwardPeekable<T>)
        ensures
            r@ == self.items(),
    ;
}

impl<T> IteratorExt<T> for Vec<T> {
    open spec fn items(&self) -> Seq<T> {
        self@
    }

    fn forward_peekable(self) -> (r: ForwardPeekable<T>) {
        ForwardPeekable::new(self)
    }
}

} // verus!

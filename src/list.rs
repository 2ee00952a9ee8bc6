use std::rc::Rc;
use vstd::prelude::*;

verus! {

/// A persistent singly linked list whose tails are shared through `Rc`.
pub enum List<A> {
    Nil,
    Cons(A, Rc<List<A>>),
}

/// A path into a tree: the child index chosen at each level.
pub type Path = List<usize>;

impl<A> List<A> {
    /// The elements from the head to the end of the list.
    pub open spec fn elems(&self) -> Seq<A>
        decreases self,
    {
        match self {
            List::Nil => Seq::empty(),
            List::Cons(h, t) => seq![*h] + (**t).elems(),
        }
    }
}

impl<A> View for List<A> {
    type V = Seq<A>;

    open spec fn view(&self) -> Seq<A> {
        self.elems()
    }
}

impl<A> List<A> {
    /// Whether the list has no element.
    pub fn is_empty(&self) -> (r: bool)
        ensures
            r == (self@.len() == 0),
    {
        match self {
            List::Nil => true,
            List::Cons(_, _) => false,
        }
    }

    /// The empty list.
    pub fn new() -> (r: Self)
        ensures
            r@ == Seq::<A>::empty(),
    {
        List::Nil
    }
}

impl<A> Default for List<A> {
    fn default() -> (r: Self)
        ensures
            r@ == Seq::<A>::empty(),
    {
        List::Nil
    }
}

/// A cursor that walks a list from its head, one element per call of `next`.
pub struct ListIter<'a, A>(pub &'a List<A>);

impl<'a, A> ListIter<'a, A> {
    /// The element under the cursor, moving the cursor one step on; `None` at the end.
    pub fn next(&mut self) -> (r: Option<&'a A>)
        ensures
            old(self).0@.len() == 0 ==> r is None && final(self).0@ == old(self).0@,
            old(self).0@.len() > 0 ==> r == Some(&old(self).0@[0]) && final(self).0@
                == old(self).0@.drop_first(),
    {
        match self.0 {
            List::Nil => None,
            List::Cons(head, tail) => {
                proof {
                    assert(self.0@ == seq![*head] + (**tail)@);
                    assert((**tail)@ =~= self.0@.drop_first());
                }
                self.0 = &**tail;
                Some(head)
            },
        }
    }
}

impl<A> List<A> {
    /// A cursor at the head of this list.
    pub fn iter(&self) -> (r: ListIter<'_, A>)
        ensures
            r.0@ == self@,
    {
        ListIter(self)
    }
}

impl<A: Copy> List<A> {
    /// A fresh list holding the same elements in the opposite order.
    pub fn reverse(&self) -> (r: List<A>)
        ensures
            r@ == self@.reverse(),
    {
        let mut reversed: List<A> = List::Nil;
        let mut it = self.iter();
        let ghost k: int = 0;
        while !it.0.is_empty()
            invariant
                0 <= k <= self@.len(),
                it.0@ == self@.skip(k),
                reversed@ == self@.take(k).reverse(),
            decreases it.0@.len(),
        {
            let ghost before = it.0@;
            match it.next() {
                Some(x) => {
                    proof {
                        lemma_take_reverse(self@, k);
                        assert(before[0] == self@[k]);
                        assert(self@.skip(k).drop_first() =~= self@.skip(k + 1));
                    }
                    reversed = List::Cons(*x, Rc::new(reversed));
                    proof {
                        k = k + 1;
                    }
                },
                None => {},
            }
        }
        assert(self@.take(k) =~= self@);
        reversed
    }
}

impl<A: Copy> List<A> {
    /// The elements of the list, head first, in a vector.
    pub fn to_vec(&self) -> (r: Vec<A>)
        ensures
            r@ == self@,
    {
        let mut out: Vec<A> = Vec::new();
        let mut it = self.iter();
        while !it.0.is_empty()
            invariant
                out@ + it.0@ == self@,
            decreases it.0@.len(),
        {
            let ghost before = it.0@;
            match it.next() {
                Some(x) => {
                    out.push(*x);
                    assert(out@ + it.0@ =~= self@) by {
                        assert(before =~= seq![*x] + it.0@);
                    }
                },
                None => {},
            }
        }
        assert(out@ =~= self@);
        out
    }

    /// The list holding the elements of `v` in the same order.
    pub fn from_vec(v: &Vec<A>) -> (r: List<A>)
        ensures
            r@ == v@,
    {
        let mut out: List<A> = List::Nil;
        let mut i: usize = v.len();
        while i > 0
            invariant
                i <= v@.len(),
                out@ == v@.skip(i as int),
            decreases i,
        {
            i = i - 1;
            out = List::Cons(v[i], Rc::new(out));
            assert(out@ =~= v@.skip(i as int)) by {
                assert(out@ == seq![v@[i as int]] + v@.skip(i + 1));
            }
        }
        out
    }
}

/// Taking one more element and reversing puts that element in front.
proof fn lemma_take_reverse<A>(s: Seq<A>, k: int)
    requires
        0 <= k < s.len(),
    ensures
        s.take(k + 1).reverse() == seq![s[k]] + s.take(k).reverse(),
{
    assert(s.take(k + 1).reverse() =~= seq![s[k]] + s.take(k).reverse());
}

/// Reversing a list twice gives back its elements in their order: `reverse`
/// produces the reversed sequence, and the reversed sequence of that is the
/// original.
pub proof fn lemma_reverse_reverse<A>(p: Seq<A>)
    ensures
        p.reverse().reverse() == p,
{
    assert(p.reverse().reverse() =~= p);
}

} // verus!

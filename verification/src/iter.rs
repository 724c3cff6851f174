use vstd::prelude::*;
use crate::chain::Chain;
use crate::chain::Link;
use crate::chain::link_at;
use crate::list::List;
use crate::model;
use crate::model::Op;

verus! {

/// The part of a chain that an iterator has not yielded yet: `len` nodes,
/// the first in slot `front`, the last in slot `back`. `start` is the
/// position of the first of them in the chain; it exists only in proofs.
pub(crate) struct Window {
    pub(crate) front: Link,
    pub(crate) back: Link,
    pub(crate) len: usize,
    pub(crate) start: Ghost<int>,
}

impl Window {
    /// The window lies inside `chain`, and while it is not empty its two
    /// links name its first and its last node.
    pub(crate) open spec fn fits<T>(self, chain: Chain<T>) -> bool {
        &&& 0 <= self.start@
        &&& self.start@ + self.len <= chain.len
        &&& self.len > 0 ==> self.front == link_at(chain.order@, self.start@)
        &&& self.len > 0 ==> self.back == link_at(chain.order@, self.start@ + self.len - 1)
    }

    /// The elements of `chain` that lie in the window.
    pub(crate) open spec fn of<T>(self, chain: Chain<T>) -> Seq<T> {
        chain.elements().subrange(self.start@, self.start@ + self.len)
    }

    /// The window over all of `chain`.
    pub(crate) fn whole<T>(chain: &Chain<T>) -> (window: Self)
        requires
            chain.wf(),
        ensures
            window.fits(*chain),
            window.start@ == 0,
            window.len == chain.len,
            window.of(*chain) == chain.elements(),
    {
        let window = Window { front: chain.front, back: chain.back, len: chain.len, start: Ghost(0) };
        assert(window.of(*chain) =~= chain.elements());
        window
    }
}

/// An iterator that owns the list and hands out its elements. Its view is
/// the sequence of elements not yet yielded, front to back.
pub struct IntoIter<T> {
    list: List<T>,
}

impl<T> View for IntoIter<T> {
    type V = Seq<T>;

    closed spec fn view(&self) -> Seq<T> {
        self.list@
    }
}

impl<T> IntoIter<T> {
    /// The iterator that hands out all of `list`.
    pub(crate) fn new(list: List<T>) -> (iter: Self)
        ensures
            iter@ == list@,
    {
        IntoIter { list }
    }

    /// Yields the first remaining element, or `None` when none remains.
    pub fn next(&mut self) -> (item: Option<T>)
        ensures
            old(self)@.len() == 0 ==> item is None && final(self)@ == old(self)@,
            old(self)@.len() > 0 ==> item == Some(old(self)@.first()) && final(self)@ == old(
                self,
            )@.drop_first(),
            item == model::returned(old(self)@, Op::PopFront),
            final(self)@ == model::after(old(self)@, Op::PopFront),
    {
        self.list.pop_front()
    }

    /// Yields the last remaining element, or `None` when none remains.
    pub fn next_back(&mut self) -> (item: Option<T>)
        ensures
            old(self)@.len() == 0 ==> item is None && final(self)@ == old(self)@,
            old(self)@.len() > 0 ==> item == Some(old(self)@.last()) && final(self)@ == old(
                self,
            )@.drop_last(),
            item == model::returned(old(self)@, Op::PopBack),
            final(self)@ == model::after(old(self)@, Op::PopBack),
    {
        self.list.pop_back()
    }

    /// The number of elements that remain.
    pub fn len(&self) -> (len: usize)
        ensures
            len == self@.len(),
    {
        self.list.len()
    }

    /// The bounds on the number of elements that remain: both are exact.
    pub fn size_hint(&self) -> (hint: (usize, Option<usize>))
        ensures
            hint.0 == self@.len(),
            hint.1 == Some(hint.0),
    {
        let len = self.list.len();
        (len, Some(len))
    }
}

/// An iterator over shared references to the elements of a list. Its view is
/// the sequence of elements not yet yielded, front to back.
pub struct Iter<'a, T> {
    list: &'a List<T>,
    window: Window,
}

impl<'a, T> View for Iter<'a, T> {
    type V = Seq<T>;

    closed spec fn view(&self) -> Seq<T> {
        self.window.of(self.list.chain)
    }
}

impl<'a, T> Iter<'a, T> {
    #[verifier::type_invariant]
    spec fn inv(self) -> bool {
        self.list.chain.wf() && self.window.fits(self.list.chain)
    }

    /// The iterator over all of `list`.
    pub(crate) fn new(list: &'a List<T>) -> (iter: Self)
        ensures
            iter@ == list.chain.elements(),
    {
        proof {
            use_type_invariant(list);
        }
        Iter { list, window: Window::whole(&list.chain) }
    }

    /// Yields the first remaining element, or `None` when none remains.
    pub fn next(&mut self) -> (item: Option<&'a T>)
        ensures
            old(self)@.len() == 0 ==> item is None && final(self)@ == old(self)@,
            old(self)@.len() > 0 ==> item == Some(&old(self)@.first()) && final(self)@ == old(
                self,
            )@.drop_first(),
    {
        proof {
            use_type_invariant(&*self);
        }
        if self.window.len > 0 {
            match self.window.front {
                Some(idx) => {
                    let list = self.list;
                    let ghost start = self.window.start@;
                    proof {
                        assert(list.chain.linked(start));
                    }
                    let node = list.chain.node_ref(idx);
                    self.window = Window {
                        front: node.back,
                        back: self.window.back,
                        len: self.window.len - 1,
                        start: Ghost(start + 1),
                    };
                    assert(self@ =~= old(self)@.drop_first());
                    Some(&node.element)
                },
                None => None,
            }
        } else {
            None
        }
    }

    /// Yields the last remaining element, or `None` when none remains.
    pub fn next_back(&mut self) -> (item: Option<&'a T>)
        ensures
            old(self)@.len() == 0 ==> item is None && final(self)@ == old(self)@,
            old(self)@.len() > 0 ==> item == Some(&old(self)@.last()) && final(self)@ == old(
                self,
            )@.drop_last(),
    {
        proof {
            use_type_invariant(&*self);
        }
        if self.window.len > 0 {
            match self.window.back {
                Some(idx) => {
                    let list = self.list;
                    let ghost end = self.window.start@ + self.window.len - 1;
                    proof {
                        assert(list.chain.linked(end));
                    }
                    let node = list.chain.node_ref(idx);
                    self.window = Window {
                        front: self.window.front,
                        back: node.front,
                        len: self.window.len - 1,
                        start: self.window.start,
                    };
                    assert(self@ =~= old(self)@.drop_last());
                    Some(&node.element)
                },
                None => None,
            }
        } else {
            None
        }
    }

    /// The number of elements that remain.
    pub fn len(&self) -> (len: usize)
        ensures
            len == self@.len(),
    {
        proof {
            use_type_invariant(self);
        }
        self.window.len
    }

    /// The bounds on the number of elements that remain: both are exact.
    pub fn size_hint(&self) -> (hint: (usize, Option<usize>))
        ensures
            hint.0 == self@.len(),
            hint.1 == Some(hint.0),
    {
        proof {
            use_type_invariant(self);
        }
        (self.window.len, Some(self.window.len))
    }
}

/// An iterator over exclusive references to the elements of a list. Its view
/// is the sequence of elements not yet yielded, front to back.
///
/// Each reference is lent for as long as the caller keeps it: the next call
/// waits for the previous item to be given up.
pub struct IterMut<'a, T> {
    list: &'a mut List<T>,
    window: Window,
}

impl<'a, T> View for IterMut<'a, T> {
    type V = Seq<T>;

    closed spec fn view(&self) -> Seq<T> {
        self.window.of(self.list.chain)
    }
}

impl<'a, T> IterMut<'a, T> {
    #[verifier::type_invariant]
    spec fn inv(self) -> bool {
        self.list.chain.wf() && self.window.fits(self.list.chain)
    }

    /// The borrow of the list that is iterated over. Its current value is
    /// the list as the items yielded so far have left it.
    pub closed spec fn target(&self) -> &'a mut List<T> {
        self.list
    }

    /// How many elements lie in front of the remaining ones.
    pub closed spec fn offset(&self) -> int {
        self.window.start@
    }

    /// The remaining elements are the stretch of the list that starts at
    /// `offset`. This holds of every iterator that the list hands out.
    pub open spec fn in_place(&self) -> bool {
        &&& 0 <= self.offset()
        &&& self.offset() + self@.len() <= self.target()@.len()
        &&& self@ == self.target()@.subrange(self.offset(), self.offset() + self@.len())
    }

    /// Once the iterator is given up, the list is what the iterator made of
    /// it.
    pub proof fn lemma_released(self)
        requires
            has_resolved(self),
        ensures
            *final(self.target()) == *self.target(),
    {
    }

    /// The iterator over all of `list`.
    pub(crate) fn new(list: &'a mut List<T>) -> (iter: Self)
        ensures
            iter@ == old(list).chain.elements(),
            iter.offset() == 0,
            iter.in_place(),
            *iter.target() == *old(list),
            *final(iter.target()) == *final(list),
    {
        proof {
            use_type_invariant(&*list);
            list.lemma_view();
        }
        let window = Window::whole(&list.chain);
        IterMut { list, window }
    }

    /// Yields the first remaining element, or `None` when none remains. The
    /// list ends up with whatever the caller leaves in that element.
    pub fn next(&mut self) -> (item: Option<&mut T>)
        ensures
            *final(final(self).target()) == *final(old(self).target()),
            old(self).in_place(),
            final(self).in_place(),
            old(self)@.len() == 0 ==> item is None && *final(self) == *old(self),
            old(self)@.len() > 0 ==> item is Some && *item->0 == old(self)@.first(),
            old(self)@.len() > 0 ==> final(self)@ == old(self)@.drop_first(),
            old(self)@.len() > 0 ==> final(self).offset() == old(self).offset() + 1,
            old(self)@.len() > 0 ==> final(self).target()@ == old(self).target()@.update(
                old(self).offset(),
                *final(item->0),
            ),
    {
        proof {
            use_type_invariant(&*self);
            assert forall|list: List<T>| #[trigger] list.view() == list.chain.elements() by {
                list.lemma_view();
            }
        }
        if self.window.len > 0 {
            match self.window.front {
                Some(idx) => {
                    let ghost start = self.window.start@;
                    proof {
                        assert(self.list.chain.linked(start));
                    }
                    let next = self.list.chain.node_ref(idx).back;
                    self.window = Window {
                        front: next,
                        back: self.window.back,
                        len: self.window.len - 1,
                        start: Ghost(start + 1),
                    };
                    let ghost rest = self@;
                    assert(rest =~= old(self)@.drop_first());
                    let item = self.list.chain.element_mut(idx, Ghost(start));
                    Some(item)
                },
                None => None,
            }
        } else {
            None
        }
    }

    /// Yields the last remaining element, or `None` when none remains. The
    /// list ends up with whatever the caller leaves in that element.
    pub fn next_back(&mut self) -> (item: Option<&mut T>)
        ensures
            *final(final(self).target()) == *final(old(self).target()),
            old(self).in_place(),
            final(self).in_place(),
            old(self)@.len() == 0 ==> item is None && *final(self) == *old(self),
            old(self)@.len() > 0 ==> item is Some && *item->0 == old(self)@.last(),
            old(self)@.len() > 0 ==> final(self)@ == old(self)@.drop_last(),
            old(self)@.len() > 0 ==> final(self).offset() == old(self).offset(),
            old(self)@.len() > 0 ==> final(self).target()@ == old(self).target()@.update(
                old(self).offset() + old(self)@.len() - 1,
                *final(item->0),
            ),
    {
        proof {
            use_type_invariant(&*self);
            assert forall|list: List<T>| #[trigger] list.view() == list.chain.elements() by {
                list.lemma_view();
            }
        }
        if self.window.len > 0 {
            match self.window.back {
                Some(idx) => {
                    let ghost end = self.window.start@ + self.window.len - 1;
                    proof {
                        assert(self.list.chain.linked(end));
                    }
                    let prev = self.list.chain.node_ref(idx).front;
                    self.window = Window {
                        front: self.window.front,
                        back: prev,
                        len: self.window.len - 1,
                        start: self.window.start,
                    };
                    let ghost rest = self@;
                    assert(rest =~= old(self)@.drop_last());
                    let item = self.list.chain.element_mut(idx, Ghost(end));
                    Some(item)
                },
                None => None,
            }
        } else {
            None
        }
    }

    /// The number of elements that remain.
    pub fn len(&self) -> (len: usize)
        ensures
            len == self@.len(),
    {
        proof {
            use_type_invariant(self);
        }
        self.window.len
    }

    /// The bounds on the number of elements that remain: both are exact.
    pub fn size_hint(&self) -> (hint: (usize, Option<usize>))
        ensures
            hint.0 == self@.len(),
            hint.1 == Some(hint.0),
    {
        proof {
            use_type_invariant(self);
        }
        (self.window.len, Some(self.window.len))
    }
}

} // verus!

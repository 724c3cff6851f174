use vstd::prelude::*;
use crate::chain::Chain;
use crate::cursor::CursorMut;
use crate::iter::IntoIter;
use crate::iter::Iter;
use crate::iter::IterMut;
use crate::model;
use crate::model::Op;

verus! {

/// A doubly-linked list that owns its elements.
///
/// Elements are pushed and popped at both ends in constant time. The view of
/// a list is the sequence of its elements from front to back.
pub struct List<T> {
    pub(crate) chain: Chain<T>,
}

impl<T> View for List<T> {
    type V = Seq<T>;

    closed spec fn view(&self) -> Seq<T> {
        self.chain.elements()
    }
}

impl<T> List<T> {
    #[verifier::type_invariant]
    pub(crate) open spec fn inv(self) -> bool {
        self.chain.wf()
    }

    /// The view of a list is the elements of its chain.
    pub(crate) proof fn lemma_view(self)
        ensures
            self@ == self.chain.elements(),
    {
    }

    /// An empty list. Nothing is allocated.
    pub fn new() -> (list: Self)
        ensures
            list@ == Seq::<T>::empty(),
    {
        List { chain: Chain::new() }
    }

    /// Puts `element` in front of all the others.
    pub fn push_front(&mut self, element: T)
        ensures
            final(self)@ == seq![element] + old(self)@,
            final(self)@ == model::after(old(self)@, Op::PushFront(element)),
    {
        proof {
            use_type_invariant(&*self);
        }
        let mut chain = Chain::new();
        core::mem::swap(&mut chain, &mut self.chain);
        chain.push_front(element);
        self.chain = chain;
    }

    /// Puts `element` behind all the others.
    pub fn push_back(&mut self, element: T)
        ensures
            final(self)@ == old(self)@.push(element),
            final(self)@ == model::after(old(self)@, Op::PushBack(element)),
    {
        proof {
            use_type_invariant(&*self);
        }
        let mut chain = Chain::new();
        core::mem::swap(&mut chain, &mut self.chain);
        chain.push_back(element);
        self.chain = chain;
    }

    /// Removes the first element and returns it, or returns `None` and
    /// leaves the list as it is when the list is empty.
    pub fn pop_front(&mut self) -> (element: Option<T>)
        ensures
            old(self)@.len() == 0 ==> element is None && final(self)@ == old(self)@,
            old(self)@.len() > 0 ==> element == Some(old(self)@.first()) && final(self)@ == old(
                self,
            )@.drop_first(),
            element == model::returned(old(self)@, Op::PopFront),
            final(self)@ == model::after(old(self)@, Op::PopFront),
    {
        proof {
            use_type_invariant(&*self);
        }
        let mut chain = Chain::new();
        core::mem::swap(&mut chain, &mut self.chain);
        let element = chain.pop_front();
        self.chain = chain;
        element
    }

    /// Removes the last element and returns it, or returns `None` and leaves
    /// the list as it is when the list is empty.
    pub fn pop_back(&mut self) -> (element: Option<T>)
        ensures
            old(self)@.len() == 0 ==> element is None && final(self)@ == old(self)@,
            old(self)@.len() > 0 ==> element == Some(old(self)@.last()) && final(self)@ == old(
                self,
            )@.drop_last(),
            element == model::returned(old(self)@, Op::PopBack),
            final(self)@ == model::after(old(self)@, Op::PopBack),
    {
        proof {
            use_type_invariant(&*self);
        }
        let mut chain = Chain::new();
        core::mem::swap(&mut chain, &mut self.chain);
        let element = chain.pop_back();
        self.chain = chain;
        element
    }

    /// The number of elements, read from the cached count.
    pub fn len(&self) -> (len: usize)
        ensures
            len == self@.len(),
    {
        proof {
            use_type_invariant(self);
        }
        self.chain.len
    }

    /// Whether the list holds no element.
    pub fn is_empty(&self) -> (empty: bool)
        ensures
            empty <==> self@.len() == 0,
    {
        proof {
            use_type_invariant(self);
        }
        self.chain.len == 0
    }

    /// The first element, or `None` when the list is empty.
    pub fn front(&self) -> (element: Option<&T>)
        ensures
            element == (if self@.len() > 0 {
                Some(&self@.first())
            } else {
                None
            }),
    {
        proof {
            use_type_invariant(self);
        }
        match self.chain.front {
            Some(idx) => {
                proof {
                    assert(self.chain.linked(0));
                }
                Some(&self.chain.node_ref(idx).element)
            },
            None => None,
        }
    }

    /// The last element, or `None` when the list is empty.
    pub fn back(&self) -> (element: Option<&T>)
        ensures
            element == (if self@.len() > 0 {
                Some(&self@.last())
            } else {
                None
            }),
    {
        proof {
            use_type_invariant(self);
        }
        match self.chain.back {
            Some(idx) => {
                proof {
                    assert(self.chain.linked(self.chain.len - 1));
                }
                Some(&self.chain.node_ref(idx).element)
            },
            None => None,
        }
    }

    /// Exclusive access to the first element, or `None` when the list is
    /// empty. The list ends up with whatever the caller leaves in that
    /// element, and is otherwise unchanged.
    pub fn front_mut(&mut self) -> (element: Option<&mut T>)
        ensures
            old(self)@.len() == 0 ==> element is None && final(self)@ == old(self)@,
            old(self)@.len() > 0 ==> element is Some && *element->0 == old(self)@.first()
                && final(self)@ == old(self)@.update(0, *final(element->0)),
    {
        proof {
            use_type_invariant(&*self);
        }
        match self.chain.front {
            Some(idx) => Some(self.chain.element_mut(idx, Ghost(0))),
            None => None,
        }
    }

    /// Exclusive access to the last element, or `None` when the list is
    /// empty. The list ends up with whatever the caller leaves in that
    /// element, and is otherwise unchanged.
    pub fn back_mut(&mut self) -> (element: Option<&mut T>)
        ensures
            old(self)@.len() == 0 ==> element is None && final(self)@ == old(self)@,
            old(self)@.len() > 0 ==> element is Some && *element->0 == old(self)@.last()
                && final(self)@ == old(self)@.update(old(self)@.len() - 1, *final(element->0)),
    {
        proof {
            use_type_invariant(&*self);
        }
        match self.chain.back {
            Some(idx) => Some(self.chain.element_mut(idx, Ghost(self.chain.len - 1))),
            None => None,
        }
    }

    /// Removes every element, front to back.
    pub fn clear(&mut self)
        ensures
            final(self)@ == Seq::<T>::empty(),
    {
        loop
            ensures
                self@.len() == 0,
            decreases self@.len(),
        {
            match self.pop_front() {
                Some(_) => {},
                None => {
                    break ;
                },
            }
        }
    }

    /// Turns the list into an iterator that hands out its elements.
    pub fn into_iter(self) -> (iter: IntoIter<T>)
        ensures
            iter@ == self@,
    {
        IntoIter::new(self)
    }

    /// An iterator over shared references to the elements.
    pub fn iter(&self) -> (iter: Iter<'_, T>)
        ensures
            iter@ == self@,
    {
        Iter::new(self)
    }

    /// An iterator over exclusive references to the elements. When the
    /// iterator is given up, the list is what the iterator made of it.
    pub fn iter_mut(&mut self) -> (iter: IterMut<'_, T>)
        ensures
            iter@ == old(self)@,
            iter.offset() == 0,
            iter.in_place(),
            *iter.target() == *old(self),
            *final(iter.target()) == *final(self),
    {
        IterMut::new(self)
    }

    /// A cursor that starts on the ghost. When the cursor is given up, the
    /// list is what the cursor made of it.
    pub fn cursor_mut(&mut self) -> (cursor: CursorMut<'_, T>)
        ensures
            cursor.position() is None,
            *cursor.target() == *old(self),
            *final(cursor.target()) == *final(self),
    {
        CursorMut::new(self)
    }

    /// Appends the elements of `items` at the back, in their order.
    pub fn extend(&mut self, items: Vec<T>)
        ensures
            final(self)@ == old(self)@ + items@,
    {
        for item in iter: items
            invariant
                self@ == old(self)@ + iter.seq().take(iter.index() as int),
        {
            self.push_back(item);
        }
    }

    /// The list of the elements of `items`, in their order.
    pub fn from_iter(items: Vec<T>) -> (list: Self)
        ensures
            list@ == items@,
    {
        let mut list = Self::new();
        list.extend(items);
        list
    }
}

impl<T> Default for List<T> {
    /// An empty list.
    fn default() -> (list: Self)
        ensures
            list@ == Seq::<T>::empty(),
    {
        Self::new()
    }
}

impl<T: Clone> Clone for List<T> {
    /// A list of its own that holds a clone of each element, in the same
    /// order.
    fn clone(&self) -> (copy: Self)
        ensures
            copy@.len() == self@.len(),
            forall|k: int| 0 <= k < self@.len() ==> cloned::<T>(#[trigger] self@[k], copy@[k]),
    {
        let mut copy = Self::new();
        let mut rest = self.iter();
        loop
            invariant
                copy@.len() + rest@.len() == self@.len(),
                rest@ == self@.skip(copy@.len() as int),
                forall|k: int| 0 <= k < copy@.len() ==> cloned::<T>(#[trigger] self@[k], copy@[k]),
            decreases rest@.len(),
        {
            match rest.next() {
                Some(item) => {
                    copy.push_back(item.clone());
                },
                None => {
                    return copy;
                },
            }
        }
    }
}

} // verus!

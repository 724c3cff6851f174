use vstd::prelude::*;
use crate::chain::Chain;
use crate::chain::Link;
use crate::chain::link_at;
use crate::list::List;

verus! {

/// Where a cursor stands: on the node in slot `curr`, which is the element
/// number `index` from the front, or on the ghost, where both are `None`.
pub(crate) struct Spot {
    pub(crate) curr: Link,
    pub(crate) index: Option<usize>,
}

impl Spot {
    /// The slot and the index name the same node of `chain`.
    pub(crate) open spec fn fits<T>(self, chain: Chain<T>) -> bool {
        match self.index {
            Some(i) => i < chain.len && self.curr == Some(chain.order@[i as int]),
            None => self.curr is None,
        }
    }
}

/// The position that follows `position` in a list of `len` elements: from
/// the ghost to the front element, from the back element to the ghost. In an
/// empty list the ghost follows itself.
pub open spec fn position_after_next(position: Option<usize>, len: nat) -> Option<usize> {
    match position {
        Some(i) => if i + 1 < len {
            Some((i + 1) as usize)
        } else {
            None
        },
        None => if len > 0 {
            Some(0)
        } else {
            None
        },
    }
}

/// The position that precedes `position` in a list of `len` elements: from
/// the ghost to the back element, from the front element to the ghost. In an
/// empty list the ghost precedes itself.
pub open spec fn position_after_prev(position: Option<usize>, len: nat) -> Option<usize> {
    match position {
        Some(i) => if i > 0 {
            Some((i - 1) as usize)
        } else {
            None
        },
        None => if len > 0 {
            Some((len - 1) as usize)
        } else {
            None
        },
    }
}

/// The position after `steps` steps towards the back, from `position`, in a
/// list of `len` elements.
pub open spec fn position_after_nexts(position: Option<usize>, len: nat, steps: nat) -> Option<
    usize,
>
    decreases steps,
{
    if steps == 0 {
        position
    } else {
        position_after_next(position_after_nexts(position, len, (steps - 1) as nat), len)
    }
}

/// From the ghost, `k` steps towards the back lead to the element `k - 1`,
/// for every `k` from 1 to the length of the list, and one step more leads
/// back to the ghost: the cursor goes round the list for ever.
pub proof fn lemma_next_goes_round(len: nat, k: nat)
    requires
        len <= usize::MAX,
        1 <= k <= len,
    ensures
        position_after_nexts(None, len, k) == Some((k - 1) as usize),
        position_after_nexts(None, len, len + 1) is None,
{
    lemma_next_reaches(len, k);
    lemma_next_reaches(len, len);
}

/// From the ghost, `k` steps towards the back lead to the element `k - 1`.
proof fn lemma_next_reaches(len: nat, k: nat)
    requires
        len <= usize::MAX,
        1 <= k <= len,
    ensures
        position_after_nexts(None, len, k) == Some((k - 1) as usize),
    decreases k,
{
    if k > 1 {
        lemma_next_reaches(len, (k - 1) as nat);
    } else {
        assert(position_after_nexts(None, len, 0) is None);
    }
}

/// A step towards the back and a step towards the front undo each other,
/// wherever in the list of `len` elements the cursor stands.
pub proof fn lemma_steps_undo_each_other(position: Option<usize>, len: nat)
    requires
        len <= usize::MAX,
        position matches Some(i) ==> i < len,
    ensures
        position_after_prev(position_after_next(position, len), len) == position,
        position_after_next(position_after_prev(position, len), len) == position,
{
}

/// A cursor over a list that it borrows exclusively. It stands either on an
/// element or on the ghost, the one position between the back and the front
/// of the list, and moves one step at a time in either direction.
pub struct CursorMut<'a, T> {
    list: &'a mut List<T>,
    spot: Spot,
}

impl<'a, T> CursorMut<'a, T> {
    #[verifier::type_invariant]
    spec fn inv(self) -> bool {
        self.list.chain.wf() && self.spot.fits(self.list.chain)
    }

    /// The borrow of the list that the cursor walks. Its current value is
    /// the list as the cursor has left it so far.
    pub closed spec fn target(&self) -> &'a mut List<T> {
        self.list
    }

    /// The index of the element that the cursor stands on, counted from the
    /// front, or `None` while it stands on the ghost.
    pub closed spec fn position(&self) -> Option<usize> {
        self.spot.index
    }

    /// The cursor stands on the ghost or on an element of the list. This
    /// holds of every cursor that the list hands out.
    pub open spec fn in_place(&self) -> bool {
        self.position() matches Some(i) ==> i < self.target()@.len()
    }

    /// Once the cursor is given up, the list is what the cursor made of it.
    pub proof fn lemma_released(self)
        requires
            has_resolved(self),
        ensures
            *final(self.target()) == *self.target(),
    {
    }

    /// A cursor over `list` that stands on the ghost.
    pub(crate) fn new(list: &'a mut List<T>) -> (cursor: Self)
        ensures
            cursor.position() is None,
            *cursor.target() == *old(list),
            *final(cursor.target()) == *final(list),
    {
        proof {
            use_type_invariant(&*list);
        }
        CursorMut { list, spot: Spot { curr: None, index: None } }
    }

    /// The index of the element that the cursor stands on, or `None` while
    /// it stands on the ghost.
    pub fn index(&self) -> (index: Option<usize>)
        ensures
            index == self.position(),
            self.in_place(),
    {
        proof {
            use_type_invariant(self);
            self.list.lemma_view();
        }
        self.spot.index
    }

    /// Moves one step towards the back: from the ghost to the front
    /// element, from the back element to the ghost. The list is not changed.
    pub fn move_next(&mut self)
        ensures
            *final(self).target() == *old(self).target(),
            *final(final(self).target()) == *final(old(self).target()),
            old(self).in_place(),
            final(self).in_place(),
            final(self).position() == position_after_next(
                old(self).position(),
                old(self).target()@.len(),
            ),
    {
        proof {
            use_type_invariant(&*self);
            self.list.lemma_view();
        }
        match self.spot.curr {
            Some(curr) => {
                let ghost i = self.spot.index->0 as int;
                proof {
                    assert(self.list.chain.linked(i));
                }
                let next = self.list.chain.node_ref(curr).back;
                let index = match (next, self.spot.index) {
                    (Some(_), Some(i)) => Some(i + 1),
                    _ => None,
                };
                self.spot = Spot { curr: next, index };
            },
            None => {
                if !self.list.is_empty() {
                    self.spot = Spot { curr: self.list.chain.front, index: Some(0) };
                }
            },
        }
    }

    /// Moves one step towards the front: from the ghost to the back
    /// element, from the front element to the ghost. The list is not
    /// changed.
    pub fn move_prev(&mut self)
        ensures
            *final(self).target() == *old(self).target(),
            *final(final(self).target()) == *final(old(self).target()),
            old(self).in_place(),
            final(self).in_place(),
            final(self).position() == position_after_prev(
                old(self).position(),
                old(self).target()@.len(),
            ),
    {
        proof {
            use_type_invariant(&*self);
            self.list.lemma_view();
        }
        match self.spot.curr {
            Some(curr) => {
                let ghost i = self.spot.index->0 as int;
                proof {
                    assert(self.list.chain.linked(i));
                }
                let prev = self.list.chain.node_ref(curr).front;
                let index = match (prev, self.spot.index) {
                    (Some(_), Some(i)) => Some(i - 1),
                    _ => None,
                };
                self.spot = Spot { curr: prev, index };
            },
            None => {
                if !self.list.is_empty() {
                    self.spot = Spot {
                        curr: self.list.chain.back,
                        index: Some(self.list.chain.len - 1),
                    };
                }
            },
        }
    }

    /// Exclusive access to the element that the cursor stands on, or `None`
    /// on the ghost. The cursor does not move; the list ends up with
    /// whatever the caller leaves in that element.
    pub fn current(&mut self) -> (item: Option<&mut T>)
        ensures
            *final(final(self).target()) == *final(old(self).target()),
            old(self).in_place(),
            final(self).in_place(),
            final(self).position() == old(self).position(),
            old(self).position() is None ==> item is None && *final(self).target() == *old(
                self,
            ).target(),
            old(self).position() matches Some(i) ==> item is Some && *item->0 == old(
                self,
            ).target()@[i as int] && final(self).target()@ == old(self).target()@.update(
                i as int,
                *final(item->0),
            ),
    {
        proof {
            use_type_invariant(&*self);
            assert forall|list: List<T>| #[trigger] list.view() == list.chain.elements() by {
                list.lemma_view();
            }
        }
        match self.spot.curr {
            Some(curr) => {
                let ghost i = self.spot.index->0 as int;
                Some(self.list.chain.element_mut(curr, Ghost(i)))
            },
            None => None,
        }
    }

    /// The element one step towards the back, or `None` where that step
    /// leads to the ghost. From the ghost that element is the front one.
    /// Neither the cursor nor the list is changed.
    pub fn peek_next(&self) -> (item: Option<&T>)
        ensures
            self.in_place(),
            match position_after_next(self.position(), self.target()@.len()) {
                Some(j) => item == Some(&self.target()@[j as int]),
                None => item is None,
            },
    {
        proof {
            use_type_invariant(self);
            self.list.lemma_view();
        }
        let next = match self.spot.curr {
            Some(curr) => {
                proof {
                    assert(self.list.chain.linked(self.spot.index->0 as int));
                }
                self.list.chain.node_ref(curr).back
            },
            None => self.list.chain.front,
        };
        match next {
            Some(idx) => {
                proof {
                    let j = position_after_next(self.position(), self.target()@.len())->0 as int;
                    assert(self.list.chain.linked(j));
                }
                Some(&self.list.chain.node_ref(idx).element)
            },
            None => None,
        }
    }

    /// The element one step towards the front, or `None` where that step
    /// leads to the ghost. From the ghost that element is the back one.
    /// Neither the cursor nor the list is changed.
    pub fn peek_prev(&self) -> (item: Option<&T>)
        ensures
            self.in_place(),
            match position_after_prev(self.position(), self.target()@.len()) {
                Some(j) => item == Some(&self.target()@[j as int]),
                None => item is None,
            },
    {
        proof {
            use_type_invariant(self);
            self.list.lemma_view();
        }
        let prev = match self.spot.curr {
            Some(curr) => {
                proof {
                    assert(self.list.chain.linked(self.spot.index->0 as int));
                }
                self.list.chain.node_ref(curr).front
            },
            None => self.list.chain.back,
        };
        match prev {
            Some(idx) => {
                proof {
                    let j = position_after_prev(self.position(), self.target()@.len())->0 as int;
                    assert(self.list.chain.linked(j));
                }
                Some(&self.list.chain.node_ref(idx).element)
            },
            None => None,
        }
    }
}

} // verus!

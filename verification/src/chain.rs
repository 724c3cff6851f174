use vstd::prelude::*;

verus! {

/// A non-owning reference to a node: the index of its slot in the arena,
/// or `None` where there is no neighbour in that direction.
pub type Link = Option<usize>;

/// The storage cell of one element, with the links to its two neighbours.
pub struct Node<T> {
    /// The neighbour closer to the front of the list.
    pub front: Link,
    /// The neighbour closer to the back of the list.
    pub back: Link,
    /// The element stored in this node.
    pub element: T,
}

impl<T> Node<T> {
    /// A node that holds `element` and has no neighbours yet.
    pub fn new(element: T) -> (node: Self)
        ensures
            node == (Node { front: None, back: None, element }),
    {
        Self { front: None, back: None, element }
    }
}

/// The link to the node at position `k` of `order`, or `None` when `k` is
/// not a position of `order`.
pub(crate) open spec fn link_at(order: Seq<usize>, k: int) -> Link {
    if 0 <= k < order.len() {
        Some(order[k])
    } else {
        None
    }
}

/// An arena of nodes chained in both directions.
///
/// `slots` owns every node; a vacant slot is `None` and its index waits in
/// `free` to be used again. `order` lists the slots of the live nodes from
/// front to back; it exists only in proofs.
pub(crate) struct Chain<T> {
    pub(crate) slots: Vec<Option<Node<T>>>,
    pub(crate) free: Vec<usize>,
    pub(crate) front: Link,
    pub(crate) back: Link,
    pub(crate) len: usize,
    pub(crate) order: Ghost<Seq<usize>>,
}

impl<T> Chain<T> {
    /// Slot `i` holds a node.
    pub(crate) open spec fn live(self, i: int) -> bool {
        0 <= i < self.slots@.len() && self.slots@[i] is Some
    }

    /// The node in slot `i`.
    pub(crate) open spec fn node(self, i: int) -> Node<T> {
        self.slots@[i]->0
    }

    /// The node at position `k` is live and linked to the nodes at the
    /// positions before and after it.
    pub(crate) open spec fn linked(self, k: int) -> bool {
        let i = self.order@[k] as int;
        &&& self.live(i)
        &&& self.node(i).front == link_at(self.order@, k - 1)
        &&& self.node(i).back == link_at(self.order@, k + 1)
    }

    /// Entry `m` of the free list names a vacant slot.
    pub(crate) open spec fn vacant(self, m: int) -> bool {
        let i = self.free@[m] as int;
        0 <= i < self.slots@.len() && self.slots@[i] is None
    }

    /// The representation invariant.
    ///
    /// The live nodes are those that `order` lists, each once, so no node is
    /// reached twice and the chain has no cycle. Each is linked to the nodes
    /// listed before and after it, so the links of two neighbours agree:
    /// the back link of the one names the other exactly when the front link
    /// of the other names the one. `front` and `back` name the first and the
    /// last node listed, so both are `None` exactly when the chain is empty,
    /// and they are equal exactly when it holds at most one node. The slots
    /// that hold no node are those that `free` lists, each once.
    pub(crate) open spec fn wf(self) -> bool {
        &&& self.order@.len() == self.len
        &&& self.len + self.free@.len() == self.slots@.len()
        &&& self.order@.no_duplicates()
        &&& self.free@.no_duplicates()
        &&& forall|k: int| 0 <= k < self.order@.len() ==> #[trigger] self.linked(k)
        &&& forall|m: int| 0 <= m < self.free@.len() ==> #[trigger] self.vacant(m)
        &&& self.front == link_at(self.order@, 0)
        &&& self.back == link_at(self.order@, self.len - 1)
    }

    /// The elements from front to back.
    pub(crate) open spec fn elements(self) -> Seq<T> {
        Seq::new(self.order@.len(), |k: int| self.node(self.order@[k] as int).element)
    }

    /// An empty chain. Nothing is allocated.
    pub(crate) fn new() -> (chain: Self)
        ensures
            chain.wf(),
            chain.elements() == Seq::<T>::empty(),
    {
        Chain {
            slots: Vec::new(),
            free: Vec::new(),
            front: None,
            back: None,
            len: 0,
            order: Ghost(Seq::empty()),
        }
    }

    /// The ends, the length and the order of the nodes are those of
    /// `before`: the two chains can differ in their slots alone.
    pub(crate) open spec fn same_order(self, before: Self) -> bool {
        &&& self.front == before.front
        &&& self.back == before.back
        &&& self.len == before.len
        &&& self.order@ == before.order@
    }

    /// The node in slot `idx`.
    pub(crate) fn node_ref(&self, idx: usize) -> (node: &Node<T>)
        requires
            self.live(idx as int),
        ensures
            *node == self.node(idx as int),
    {
        self.slots[idx].as_ref().unwrap()
    }

    /// `self` is `before` with `value` in place of the element in slot `idx`.
    pub(crate) open spec fn replaced_element(self, before: Self, idx: int, value: T) -> bool {
        &&& self.same_order(before)
        &&& self.free@ == before.free@
        &&& self.slots@ == before.slots@.update(
            idx,
            Some(Node { element: value, ..before.node(idx) }),
        )
    }

    /// Replacing the element at position `k` keeps the chain well formed and
    /// changes entry `k` of its elements, nothing else.
    pub(crate) proof fn lemma_replaced_element(self, before: Self, k: int, value: T)
        requires
            before.wf(),
            0 <= k < before.len,
            self.replaced_element(before, before.order@[k] as int, value),
        ensures
            self.wf(),
            self.elements() == before.elements().update(k, value),
    {
        assert(before.linked(k));
        assert forall|j: int| 0 <= j < self.order@.len() implies #[trigger] self.linked(j) by {
            assert(before.linked(j));
        }
        assert forall|m: int| 0 <= m < self.free@.len() implies #[trigger] self.vacant(m) by {
            assert(before.vacant(m));
        }
        assert forall|j: int| 0 <= j < self.order@.len() implies self.elements()[j]
            == before.elements().update(k, value)[j] by {
            assert(before.linked(j));
            if j != k {
                assert(before.order@[j] != before.order@[k]);
            }
        }
        assert(self.elements() =~= before.elements().update(k, value));
    }

    /// Exclusive access to the element at position `k`, which lies in slot
    /// `idx`. Whatever the caller leaves there, nothing else changes.
    pub(crate) fn element_mut(&mut self, idx: usize, Ghost(k): Ghost<int>) -> (element: &mut T)
        requires
            old(self).wf(),
            0 <= k < old(self).len,
            old(self).order@[k] == idx,
        ensures
            *element == old(self).elements()[k],
            final(self).wf(),
            final(self).same_order(*old(self)),
            final(self).elements() == old(self).elements().update(k, *final(element)),
        no_unwind
    {
        proof {
            let before = *self;
            assert(before.linked(k));
            assert forall|after: Self, value: T| #[trigger]
                after.replaced_element(before, idx as int, value) implies after.wf()
                && after.elements() == before.elements().update(k, value) by {
                after.lemma_replaced_element(before, k, value);
            }
        }
        self.slot_element_mut(idx)
    }

    /// Exclusive access to the element in the live slot `idx`.
    fn slot_element_mut(&mut self, idx: usize) -> (element: &mut T)
        requires
            old(self).live(idx as int),
        ensures
            *element == old(self).node(idx as int).element,
            final(self).replaced_element(*old(self), idx as int, *final(element)),
        no_unwind
    {
        match &mut self.slots[idx] {
            Some(node) => &mut node.element,
            None => unreached(),
        }
    }

    /// Points the front link of the node in slot `idx` at `link`.
    fn set_front(&mut self, idx: usize, link: Link)
        requires
            old(self).live(idx as int),
        ensures
            final(self).same_order(*old(self)),
            final(self).free@ == old(self).free@,
            final(self).slots@ == old(self).slots@.update(
                idx as int,
                Some(Node { front: link, ..old(self).node(idx as int) }),
            ),
    {
        self.slots[idx].as_mut().unwrap().front = link;
    }

    /// Points the back link of the node in slot `idx` at `link`.
    fn set_back(&mut self, idx: usize, link: Link)
        requires
            old(self).live(idx as int),
        ensures
            final(self).same_order(*old(self)),
            final(self).free@ == old(self).free@,
            final(self).slots@ == old(self).slots@.update(
                idx as int,
                Some(Node { back: link, ..old(self).node(idx as int) }),
            ),
    {
        self.slots[idx].as_mut().unwrap().back = link;
    }

    /// Stores `node` in a vacant slot, a used one where the free list has
    /// one, and returns the slot's index. The node is not linked yet.
    fn occupy(&mut self, node: Node<T>) -> (idx: usize)
        requires
            old(self).wf(),
        ensures
            final(self).same_order(*old(self)),
            !old(self).live(idx as int),
            0 <= idx < final(self).slots@.len(),
            final(self).slots@.len() >= old(self).slots@.len(),
            final(self).slots@[idx as int] == Some(node),
            forall|i: int|
                0 <= i < old(self).slots@.len() && i != idx ==> final(self).slots@[i]
                    == old(self).slots@[i],
            final(self).len + final(self).free@.len() + 1 == final(self).slots@.len(),
            final(self).free@.no_duplicates(),
            forall|m: int| 0 <= m < final(self).free@.len() ==> #[trigger] final(self).vacant(m),
    {
        match self.free.pop() {
            Some(idx) => {
                proof {
                    let last = old(self).free@.len() - 1;
                    assert(old(self).vacant(last));
                    assert forall|m: int| 0 <= m < self.free@.len() implies self.free@[m]
                        != idx by {
                        assert(old(self).free@[m] != old(self).free@[last]);
                    }
                }
                self.slots[idx] = Some(node);
                proof {
                    assert forall|m: int| 0 <= m < self.free@.len() implies #[trigger] self.vacant(
                        m,
                    ) by {
                        assert(old(self).vacant(m));
                    }
                }
                idx
            },
            None => {
                self.slots.push(Some(node));
                self.slots.len() - 1
            },
        }
    }

    /// Empties the live slot `idx`, hands out its node and puts the slot on
    /// the free list.
    fn release(&mut self, idx: usize) -> (node: Node<T>)
        requires
            old(self).live(idx as int),
        ensures
            node == old(self).node(idx as int),
            final(self).same_order(*old(self)),
            final(self).slots@ == old(self).slots@.update(idx as int, None),
            final(self).free@ == old(self).free@.push(idx),
    {
        let node = self.slots[idx].take();
        self.free.push(idx);
        node.unwrap()
    }

    /// Links a new node that holds `element` in front of the first node.
    pub(crate) fn push_front(&mut self, element: T)
        requires
            old(self).wf(),
        ensures
            final(self).wf(),
            final(self).elements() == seq![element] + old(self).elements(),
    {
        let mut node = Node::new(element);
        node.back = self.front;
        let new = self.occupy(node);
        let ghost mid = *self;
        match self.front {
            Some(first) => {
                proof {
                    assert(old(self).linked(0));
                }
                self.set_front(first, Some(new));
            },
            None => {
                self.back = Some(new);
            },
        }
        self.front = Some(new);
        proof {
            assert(self.slots.len() == self.slots@.len());
        }
        self.len = self.len + 1;
        self.order = Ghost(seq![new] + self.order@);
        proof {
            let pre = *old(self);
            let before = pre.order@;
            let after = self.order@;
            assert forall|k: int| 0 <= k < before.len() implies before[k] != new by {
                assert(pre.linked(k));
            }
            assert forall|k: int| 0 <= k < after.len() implies #[trigger] self.linked(k) by {
                if k > 0 {
                    assert(pre.linked(k - 1));
                    if k > 1 {
                        assert(before[k - 1] != before[0]);
                    }
                }
            }
            assert forall|m: int| 0 <= m < self.free@.len() implies #[trigger] self.vacant(m) by {
                assert(mid.vacant(m));
            }
            assert forall|k: int| 0 <= k < after.len() implies self.elements()[k] == (seq![element]
                + pre.elements())[k] by {
                if k > 0 {
                    assert(pre.linked(k - 1));
                }
            }
            assert(self.elements() =~= seq![element] + pre.elements());
        }
    }

    /// Links a new node that holds `element` behind the last node.
    pub(crate) fn push_back(&mut self, element: T)
        requires
            old(self).wf(),
        ensures
            final(self).wf(),
            final(self).elements() == old(self).elements().push(element),
    {
        let mut node = Node::new(element);
        node.front = self.back;
        let new = self.occupy(node);
        let ghost mid = *self;
        match self.back {
            Some(last) => {
                proof {
                    assert(old(self).linked(old(self).len - 1));
                }
                self.set_back(last, Some(new));
            },
            None => {
                self.front = Some(new);
            },
        }
        self.back = Some(new);
        proof {
            assert(self.slots.len() == self.slots@.len());
        }
        self.len = self.len + 1;
        self.order = Ghost(self.order@.push(new));
        proof {
            let pre = *old(self);
            let before = pre.order@;
            let after = self.order@;
            let end = before.len() - 1;
            assert forall|k: int| 0 <= k < before.len() implies before[k] != new by {
                assert(pre.linked(k));
            }
            assert forall|k: int| 0 <= k < after.len() implies #[trigger] self.linked(k) by {
                if k <= end {
                    assert(pre.linked(k));
                    if k < end {
                        assert(before[k] != before[end]);
                    }
                }
            }
            assert forall|m: int| 0 <= m < self.free@.len() implies #[trigger] self.vacant(m) by {
                assert(mid.vacant(m));
            }
            assert forall|k: int| 0 <= k < after.len() implies self.elements()[k]
                == pre.elements().push(element)[k] by {
                if k <= end {
                    assert(pre.linked(k));
                }
            }
            assert(self.elements() =~= pre.elements().push(element));
        }
    }

    /// Unlinks the first node and returns its element, or `None` when the
    /// chain is empty.
    pub(crate) fn pop_front(&mut self) -> (element: Option<T>)
        requires
            old(self).wf(),
        ensures
            final(self).wf(),
            old(self).elements().len() == 0 ==> element is None && final(self).elements() == old(
                self,
            ).elements(),
            old(self).elements().len() > 0 ==> element == Some(old(self).elements().first())
                && final(self).elements() == old(self).elements().drop_first(),
    {
        match self.front {
            None => None,
            Some(idx) => {
                proof {
                    assert(old(self).linked(0));
                }
                let node = self.release(idx);
                self.front = node.back;
                match self.front {
                    Some(first) => {
                        proof {
                            assert(old(self).linked(1));
                            assert(old(self).order@[1] != old(self).order@[0]);
                        }
                        self.set_front(first, None);
                    },
                    None => {
                        self.back = None;
                    },
                }
                self.len = self.len - 1;
                self.order = Ghost(self.order@.drop_first());
                proof {
                    let pre = *old(self);
                    let before = pre.order@;
                    let after = self.order@;
                    assert forall|k: int| 0 <= k < after.len() implies #[trigger] self.linked(
                        k,
                    ) by {
                        assert(pre.linked(k + 1));
                        assert(before[k + 1] != before[0]);
                        if k > 0 {
                            assert(before[k + 1] != before[1]);
                        }
                    }
                    assert forall|m: int| 0 <= m < self.free@.len() implies #[trigger] self.vacant(
                        m,
                    ) by {
                        if m < pre.free@.len() {
                            assert(pre.vacant(m));
                        }
                    }
                    assert forall|m: int| 0 <= m < pre.free@.len() implies pre.free@[m]
                        != idx by {
                        assert(pre.vacant(m));
                    }
                    assert forall|k: int| 0 <= k < after.len() implies self.elements()[k]
                        == pre.elements().drop_first()[k] by {
                        assert(pre.linked(k + 1));
                        assert(before[k + 1] != before[0]);
                    }
                    assert(self.elements() =~= pre.elements().drop_first());
                }
                Some(node.element)
            },
        }
    }

    /// Unlinks the last node and returns its element, or `None` when the
    /// chain is empty.
    pub(crate) fn pop_back(&mut self) -> (element: Option<T>)
        requires
            old(self).wf(),
        ensures
            final(self).wf(),
            old(self).elements().len() == 0 ==> element is None && final(self).elements() == old(
                self,
            ).elements(),
            old(self).elements().len() > 0 ==> element == Some(old(self).elements().last())
                && final(self).elements() == old(self).elements().drop_last(),
    {
        match self.back {
            None => None,
            Some(idx) => {
                let ghost end = old(self).len - 1;
                proof {
                    assert(old(self).linked(end));
                }
                let node = self.release(idx);
                self.back = node.front;
                match self.back {
                    Some(last) => {
                        proof {
                            assert(old(self).linked(end - 1));
                            assert(old(self).order@[end - 1] != old(self).order@[end]);
                        }
                        self.set_back(last, None);
                    },
                    None => {
                        self.front = None;
                    },
                }
                self.len = self.len - 1;
                self.order = Ghost(self.order@.drop_last());
                proof {
                    let pre = *old(self);
                    let before = pre.order@;
                    let after = self.order@;
                    assert forall|k: int| 0 <= k < after.len() implies #[trigger] self.linked(
                        k,
                    ) by {
                        assert(pre.linked(k));
                        assert(before[k] != before[end]);
                        if k < end - 1 {
                            assert(before[k] != before[end - 1]);
                        }
                    }
                    assert forall|m: int| 0 <= m < self.free@.len() implies #[trigger] self.vacant(
                        m,
                    ) by {
                        if m < pre.free@.len() {
                            assert(pre.vacant(m));
                        }
                    }
                    assert forall|m: int| 0 <= m < pre.free@.len() implies pre.free@[m]
                        != idx by {
                        assert(pre.vacant(m));
                    }
                    assert forall|k: int| 0 <= k < after.len() implies self.elements()[k]
                        == pre.elements().drop_last()[k] by {
                        assert(pre.linked(k));
                        assert(before[k] != before[end]);
                    }
                    assert(self.elements() =~= pre.elements().drop_last());
                }
                Some(node.element)
            },
        }
    }
}

} // verus!

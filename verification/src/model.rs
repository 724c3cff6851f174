use vstd::prelude::*;

verus! {

/// One operation at an end of a list.
pub enum Op<T> {
    /// `push_front` of the value.
    PushFront(T),
    /// `push_back` of the value.
    PushBack(T),
    /// `pop_front`.
    PopFront,
    /// `pop_back`.
    PopBack,
}

impl<T> Op<T> {
    /// The operation adds an element.
    pub open spec fn is_push(self) -> bool {
        self is PushFront || self is PushBack
    }

    /// The operation takes an element away, where there is one.
    pub open spec fn is_pop(self) -> bool {
        self is PopFront || self is PopBack
    }
}

/// The elements after `op` on a list of the elements `s`, as the contract of
/// the operation gives them: a pop on an empty list changes nothing.
pub open spec fn after<T>(s: Seq<T>, op: Op<T>) -> Seq<T> {
    match op {
        Op::PushFront(x) => seq![x] + s,
        Op::PushBack(x) => s.push(x),
        Op::PopFront => if s.len() > 0 {
            s.drop_first()
        } else {
            s
        },
        Op::PopBack => if s.len() > 0 {
            s.drop_last()
        } else {
            s
        },
    }
}

/// What `op` returns on a list of the elements `s`: a pop returns the element
/// it removed, or `None` on an empty list; a push returns nothing.
pub open spec fn returned<T>(s: Seq<T>, op: Op<T>) -> Option<T> {
    match op {
        Op::PopFront => if s.len() > 0 {
            Some(s.first())
        } else {
            None
        },
        Op::PopBack => if s.len() > 0 {
            Some(s.last())
        } else {
            None
        },
        _ => None,
    }
}

/// The elements after all of `ops`, in their order, on a list of the
/// elements `s`.
pub open spec fn run<T>(s: Seq<T>, ops: Seq<Op<T>>) -> Seq<T>
    decreases ops.len(),
{
    if ops.len() == 0 {
        s
    } else {
        after(run(s, ops.drop_last()), ops.last())
    }
}

/// The number of pushes among `ops`.
pub open spec fn pushes<T>(ops: Seq<Op<T>>) -> nat
    decreases ops.len(),
{
    if ops.len() == 0 {
        0
    } else if ops.last().is_push() {
        pushes(ops.drop_last()) + 1
    } else {
        pushes(ops.drop_last())
    }
}

/// The number of pops among `ops` that return an element when `ops` run on
/// a list of the elements `s`.
pub open spec fn served<T>(s: Seq<T>, ops: Seq<Op<T>>) -> nat
    decreases ops.len(),
{
    if ops.len() == 0 {
        0
    } else if returned(run(s, ops.drop_last()), ops.last()) is Some {
        served(s, ops.drop_last()) + 1
    } else {
        served(s, ops.drop_last())
    }
}

/// The number of `pop_front` among `ops`.
pub open spec fn front_pops<T>(ops: Seq<Op<T>>) -> nat
    decreases ops.len(),
{
    if ops.len() == 0 {
        0
    } else if ops.last() is PopFront {
        front_pops(ops.drop_last()) + 1
    } else {
        front_pops(ops.drop_last())
    }
}

/// The values that `ops` push at the front, in the order of the pushes.
pub open spec fn pushed_front<T>(ops: Seq<Op<T>>) -> Seq<T>
    decreases ops.len(),
{
    if ops.len() == 0 {
        Seq::empty()
    } else {
        match ops.last() {
            Op::PushFront(x) => pushed_front(ops.drop_last()).push(x),
            _ => pushed_front(ops.drop_last()),
        }
    }
}

/// The values that `ops` push at the back, in the order of the pushes.
pub open spec fn pushed_back<T>(ops: Seq<Op<T>>) -> Seq<T>
    decreases ops.len(),
{
    if ops.len() == 0 {
        Seq::empty()
    } else {
        match ops.last() {
            Op::PushBack(x) => pushed_back(ops.drop_last()).push(x),
            _ => pushed_back(ops.drop_last()),
        }
    }
}

/// After any operations the length is the length before, plus the number of
/// pushes, minus the number of pops that returned an element. A pop returns
/// none exactly on an empty list, so the count never goes below zero.
pub proof fn lemma_len_is_net_count<T>(s: Seq<T>, ops: Seq<Op<T>>)
    ensures
        run(s, ops).len() + served(s, ops) == s.len() + pushes(ops),
        forall|mid: Seq<T>, op: Op<T>|
            op.is_pop() ==> (#[trigger] returned(mid, op) is None <==> mid.len() == 0),
    decreases ops.len(),
{
    if ops.len() > 0 {
        lemma_len_is_net_count(s, ops.drop_last());
    }
}

/// After pushes alone on an empty list, the elements from front to back are
/// the values pushed at the front, the latest first, and then the values
/// pushed at the back, the earliest first.
pub proof fn lemma_pushes_order<T>(ops: Seq<Op<T>>)
    requires
        forall|i: int| 0 <= i < ops.len() ==> (#[trigger] ops[i]).is_push(),
    ensures
        run(Seq::empty(), ops) == pushed_front(ops).reverse() + pushed_back(ops),
    decreases ops.len(),
{
    if ops.len() > 0 {
        let rest = ops.drop_last();
        assert forall|i: int| 0 <= i < rest.len() implies (#[trigger] rest[i]).is_push() by {
            assert(ops[i].is_push());
        }
        lemma_pushes_order(rest);
        let front = pushed_front(rest);
        let back = pushed_back(rest);
        assert(ops[ops.len() - 1].is_push());
        match ops.last() {
            Op::PushFront(x) => {
                assert(seq![x] + (front.reverse() + back) =~= front.push(x).reverse() + back);
            },
            Op::PushBack(x) => {
                assert((front.reverse() + back).push(x) =~= front.reverse() + back.push(x));
            },
            _ => {},
        }
    } else {
        assert(run(Seq::<T>::empty(), ops) =~= pushed_front(ops).reverse() + pushed_back(ops));
    }
}

/// Popping on an empty list returns nothing and leaves the list empty.
pub proof fn lemma_pop_on_empty<T>(s: Seq<T>, op: Op<T>)
    requires
        s.len() == 0,
        op.is_pop(),
    ensures
        returned(s, op) is None,
        after(s, op) == s,
{
}

/// What is pushed at one end of an empty list is what a pop at the other end
/// returns next, and that pop leaves the list empty again.
pub proof fn lemma_push_then_pop_other_end<T>(s: Seq<T>, x: T)
    requires
        s.len() == 0,
    ensures
        returned(after(s, Op::PushFront(x)), Op::PopBack) == Some(x),
        after(after(s, Op::PushFront(x)), Op::PopBack) == s,
        returned(after(s, Op::PushBack(x)), Op::PopFront) == Some(x),
        after(after(s, Op::PushBack(x)), Op::PopFront) == s,
{
    assert((seq![x] + s).drop_last() =~= s);
    assert(s.push(x).drop_first() =~= s);
}

/// What is pushed at one end is what a pop at that end returns next, and
/// that pop leaves the list as it was before the push.
pub proof fn lemma_push_then_pop_same_end<T>(s: Seq<T>, x: T)
    ensures
        returned(after(s, Op::PushFront(x)), Op::PopFront) == Some(x),
        after(after(s, Op::PushFront(x)), Op::PopFront) == s,
        returned(after(s, Op::PushBack(x)), Op::PopBack) == Some(x),
        after(after(s, Op::PushBack(x)), Op::PopBack) == s,
{
    assert((seq![x] + s).drop_first() =~= s);
    assert(s.push(x).drop_last() =~= s);
}

/// As long as no more pops have run than the list has elements, whatever
/// ends they took from, each has returned an element, and the elements that
/// remain are those between the ones taken at the front and the ones taken
/// at the back. So the next pop at the front returns the element behind
/// those taken at the front, the next pop at the back the element before
/// those taken at the back: each element is returned once, and after as many
/// pops as elements nothing remains.
///
/// The steps of the owning iterator are such pops.
pub proof fn lemma_pops_meet<T>(s: Seq<T>, pops: Seq<Op<T>>)
    requires
        forall|i: int| 0 <= i < pops.len() ==> (#[trigger] pops[i]).is_pop(),
        pops.len() <= s.len(),
    ensures
        front_pops(pops) <= pops.len(),
        run(s, pops) == s.subrange(
            front_pops(pops) as int,
            s.len() - (pops.len() - front_pops(pops)),
        ),
        served(s, pops) == pops.len(),
    decreases pops.len(),
{
    if pops.len() > 0 {
        let rest = pops.drop_last();
        assert forall|i: int| 0 <= i < rest.len() implies (#[trigger] rest[i]).is_pop() by {
            assert(pops[i].is_pop());
        }
        lemma_pops_meet(s, rest);
        assert(pops[pops.len() - 1].is_pop());
        let from = front_pops(rest) as int;
        let to = s.len() - (rest.len() - front_pops(rest));
        let mid = s.subrange(from, to);
        match pops.last() {
            Op::PopFront => {
                assert(mid.drop_first() =~= s.subrange(from + 1, to));
            },
            Op::PopBack => {
                assert(mid.drop_last() =~= s.subrange(from, to - 1));
            },
            _ => {},
        }
    } else {
        assert(s.subrange(0, s.len() as int) =~= s);
    }
}

/// Pops at the front alone return the elements from front to back.
pub proof fn lemma_front_pops_in_order<T>(s: Seq<T>, k: nat)
    requires
        k < s.len(),
    ensures
        returned(run(s, Seq::new(k, |i: int| Op::PopFront)), Op::PopFront) == Some(s[k as int]),
{
    let pops = Seq::new(k, |i: int| Op::<T>::PopFront);
    lemma_pops_meet(s, pops);
    lemma_all_front(pops);
}

/// A sequence of `pop_front` alone counts as many of them as it is long.
proof fn lemma_all_front<T>(pops: Seq<Op<T>>)
    requires
        forall|i: int| 0 <= i < pops.len() ==> (#[trigger] pops[i]) is PopFront,
    ensures
        front_pops(pops) == pops.len(),
    decreases pops.len(),
{
    if pops.len() > 0 {
        let rest = pops.drop_last();
        assert forall|i: int| 0 <= i < rest.len() implies (#[trigger] rest[i]) is PopFront by {
            assert(pops[i] is PopFront);
        }
        lemma_all_front(rest);
        assert(pops[pops.len() - 1] is PopFront);
    }
}

} // verus!

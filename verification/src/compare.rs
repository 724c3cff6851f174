use core::cmp::Ordering;
use vstd::prelude::*;
use vstd::std_specs::cmp::OrdSpec;
use vstd::std_specs::cmp::PartialEqSpec;
use vstd::std_specs::cmp::PartialOrdSpec;
use crate::list::List;

verus! {

/// `outcome` is a result that `x == y` can give, by the contract of the
/// element type's `eq`.
pub open spec fn eq_can_give<T: PartialEq>(x: T, y: T, outcome: bool) -> bool {
    call_ensures(T::eq, (&x, &y), outcome)
}

/// `outcome` is a result that the partial comparison of `x` with `y` can
/// give, by the contract of the element type's `partial_cmp`.
pub open spec fn partial_cmp_can_give<T: PartialOrd>(x: T, y: T, outcome: Option<Ordering>) -> bool {
    call_ensures(T::partial_cmp, (&x, &y), outcome)
}

/// `outcome` is a result that the total comparison of `x` with `y` can give,
/// by the contract of the element type's `cmp`.
pub open spec fn cmp_can_give<T: Ord>(x: T, y: T, outcome: Ordering) -> bool {
    call_ensures(T::cmp, (&x, &y), outcome)
}

/// The pairs of elements before position `n` can all compare as equal.
pub open spec fn eq_up_to<T: PartialEq>(a: Seq<T>, b: Seq<T>, n: int) -> bool {
    forall|i: int| 0 <= i < n ==> eq_can_give(#[trigger] a[i], b[i], true)
}

/// `equal` is a result that the comparison of two sequences for equality
/// can give: `true` where they have the same length and every pair of
/// elements can compare as equal, `false` where the lengths differ or,
/// after pairs that can compare as equal, a pair can compare as unequal.
pub open spec fn elements_eq_can_give<T: PartialEq>(a: Seq<T>, b: Seq<T>, equal: bool) -> bool {
    if equal {
        &&& a.len() == b.len()
        &&& forall|i: int| 0 <= i < a.len() ==> eq_can_give(#[trigger] a[i], b[i], true)
    } else {
        ||| a.len() != b.len()
        ||| exists|i: int|
            0 <= i < a.len() && #[trigger] eq_up_to(a, b, i) && eq_can_give(a[i], b[i], false)
    }
}

/// `order` is a result that the lexicographic comparison of two sequences
/// by the partial order of their elements can give. The first pair of
/// elements that does not compare as equal decides, also where it does not
/// compare at all; where one sequence runs out first, the shorter one is the
/// lesser.
pub open spec fn lex_partial_can_give<T: PartialOrd>(
    a: Seq<T>,
    b: Seq<T>,
    order: Option<Ordering>,
) -> bool
    decreases a.len(),
{
    if a.len() == 0 {
        order == if b.len() == 0 {
            Some(Ordering::Equal)
        } else {
            Some(Ordering::Less)
        }
    } else if b.len() == 0 {
        order == Some(Ordering::Greater)
    } else {
        ||| partial_cmp_can_give(a.first(), b.first(), Some(Ordering::Equal))
            && lex_partial_can_give(a.drop_first(), b.drop_first(), order)
        ||| order != Some(Ordering::Equal) && partial_cmp_can_give(a.first(), b.first(), order)
    }
}

/// `order` is a result that the lexicographic comparison of two sequences
/// by the total order of their elements can give.
pub open spec fn lex_total_can_give<T: Ord>(a: Seq<T>, b: Seq<T>, order: Ordering) -> bool
    decreases a.len(),
{
    if a.len() == 0 {
        order == if b.len() == 0 {
            Ordering::Equal
        } else {
            Ordering::Less
        }
    } else if b.len() == 0 {
        order == Ordering::Greater
    } else {
        ||| cmp_can_give(a.first(), b.first(), Ordering::Equal) && lex_total_can_give(
            a.drop_first(),
            b.drop_first(),
            order,
        )
        ||| order != Ordering::Equal && cmp_can_give(a.first(), b.first(), order)
    }
}

/// Two sequences are equal when they have the same length and equal elements
/// at every position, by the equality of the element type.
pub open spec fn elements_eq<T: PartialEq>(a: Seq<T>, b: Seq<T>) -> bool {
    &&& a.len() == b.len()
    &&& forall|i: int| 0 <= i < a.len() ==> (#[trigger] a[i]).eq_spec(&b[i])
}

/// The lexicographic order of two sequences by the partial order of the
/// element type.
pub open spec fn lex_partial<T: PartialOrd>(a: Seq<T>, b: Seq<T>) -> Option<Ordering>
    decreases a.len(),
{
    if a.len() == 0 {
        if b.len() == 0 {
            Some(Ordering::Equal)
        } else {
            Some(Ordering::Less)
        }
    } else if b.len() == 0 {
        Some(Ordering::Greater)
    } else {
        match a.first().partial_cmp_spec(&b.first()) {
            Some(Ordering::Equal) => lex_partial(a.drop_first(), b.drop_first()),
            decided => decided,
        }
    }
}

/// The lexicographic order of two sequences by the total order of the
/// element type.
pub open spec fn lex_total<T: Ord>(a: Seq<T>, b: Seq<T>) -> Ordering
    decreases a.len(),
{
    if a.len() == 0 {
        if b.len() == 0 {
            Ordering::Equal
        } else {
            Ordering::Less
        }
    } else if b.len() == 0 {
        Ordering::Greater
    } else {
        match a.first().cmp_spec(&b.first()) {
            Ordering::Equal => lex_total(a.drop_first(), b.drop_first()),
            decided => decided,
        }
    }
}

/// Where the element type's `eq` is the equality that its specification
/// names, the only result that comparing two sequences can give is whether
/// they are equal by that equality.
pub proof fn lemma_eq_of_lawful_elements<T: PartialEq>(a: Seq<T>, b: Seq<T>, equal: bool)
    requires
        T::obeys_eq_spec(),
        elements_eq_can_give(a, b, equal),
    ensures
        equal == elements_eq(a, b),
{
    if !equal && a.len() == b.len() {
        let i = choose|i: int|
            0 <= i < a.len() && #[trigger] eq_up_to(a, b, i) && eq_can_give(a[i], b[i], false);
        assert(!a[i].eq_spec(&b[i]));
    }
}

/// Where the element type's `partial_cmp` is the partial order that its
/// specification names, the only result that comparing two sequences can
/// give is their lexicographic order.
pub proof fn lemma_partial_cmp_of_lawful_elements<T: PartialOrd>(
    a: Seq<T>,
    b: Seq<T>,
    order: Option<Ordering>,
)
    requires
        T::obeys_partial_cmp_spec(),
        lex_partial_can_give(a, b, order),
    ensures
        order == lex_partial(a, b),
    decreases a.len(),
{
    if a.len() > 0 && b.len() > 0 {
        if partial_cmp_can_give(a.first(), b.first(), Some(Ordering::Equal))
            && lex_partial_can_give(a.drop_first(), b.drop_first(), order) {
            lemma_partial_cmp_of_lawful_elements(a.drop_first(), b.drop_first(), order);
        }
    }
}

/// Where the element type's `cmp` is the total order that its specification
/// names, the only result that comparing two sequences can give is their
/// lexicographic order.
pub proof fn lemma_cmp_of_lawful_elements<T: Ord>(a: Seq<T>, b: Seq<T>, order: Ordering)
    requires
        T::obeys_cmp_spec(),
        lex_total_can_give(a, b, order),
    ensures
        order == lex_total(a, b),
    decreases a.len(),
{
    if a.len() > 0 && b.len() > 0 {
        if cmp_can_give(a.first(), b.first(), Ordering::Equal) && lex_total_can_give(
            a.drop_first(),
            b.drop_first(),
            order,
        ) {
            lemma_cmp_of_lawful_elements(a.drop_first(), b.drop_first(), order);
        }
    }
}

impl<T: PartialEq> List<T> {
    /// Compares the elements pair by pair, front to back, until a pair
    /// compares as unequal.
    fn elements_equal(&self, other: &Self) -> (equal: bool)
        ensures
            elements_eq_can_give(self@, other@, equal),
    {
        if self.len() != other.len() {
            return false;
        }
        let mut a = self.iter();
        let mut b = other.iter();
        let ghost mut done: int = 0;
        loop
            invariant
                self@.len() == other@.len(),
                0 <= done <= self@.len(),
                a@ == self@.skip(done),
                b@ == other@.skip(done),
                eq_up_to(self@, other@, done),
            decreases a@.len(),
        {
            match (a.next(), b.next()) {
                (Some(x), Some(y)) => {
                    if !x.eq(y) {
                        proof {
                            assert(eq_can_give(self@[done], other@[done], false));
                            assert(eq_up_to(self@, other@, done));
                        }
                        return false;
                    }
                    proof {
                        assert(a@ =~= self@.skip(done + 1));
                        assert(b@ =~= other@.skip(done + 1));
                        done = done + 1;
                    }
                },
                _ => {
                    return true;
                },
            }
        }
    }
}

impl<T: PartialEq> PartialEq for List<T> {
    /// Whether the two lists have the same length and equal elements at
    /// every position.
    fn eq(&self, other: &Self) -> (equal: bool)
        ensures
            elements_eq_can_give(self@, other@, equal),
    {
        let equal = self.elements_equal(other);
        proof {
            if T::obeys_eq_spec() {
                lemma_eq_of_lawful_elements(self@, other@, equal);
            }
        }
        equal
    }

    /// Whether the two lists differ in length or in some element.
    fn ne(&self, other: &Self) -> (differ: bool)
        ensures
            elements_eq_can_give(self@, other@, !differ),
    {
        !self.eq(other)
    }
}

impl<T: PartialEq> vstd::std_specs::cmp::PartialEqSpecImpl for List<T> {
    open spec fn obeys_eq_spec() -> bool {
        T::obeys_eq_spec()
    }

    open spec fn eq_spec(&self, other: &Self) -> bool {
        elements_eq(self@, other@)
    }
}

impl<T: Eq> Eq for List<T> {

}

impl<T: PartialOrd> List<T> {
    /// Compares the elements pair by pair, front to back, until a pair does
    /// not compare as equal or a list runs out.
    fn elements_partial_cmp(&self, other: &Self) -> (order: Option<Ordering>)
        ensures
            lex_partial_can_give(self@, other@, order),
    {
        let mut a = self.iter();
        let mut b = other.iter();
        loop
            invariant
                forall|o: Option<Ordering>| #[trigger]
                    lex_partial_can_give(a@, b@, o) ==> lex_partial_can_give(self@, other@, o),
            decreases a@.len(),
        {
            let ghost before_a = a@;
            let ghost before_b = b@;
            match a.next() {
                None => {
                    let order = match b.next() {
                        None => Some(Ordering::Equal),
                        Some(_) => Some(Ordering::Less),
                    };
                    proof {
                        assert(lex_partial_can_give(before_a, before_b, order));
                    }
                    return order;
                },
                Some(x) => match b.next() {
                    None => {
                        proof {
                            assert(lex_partial_can_give(
                                before_a,
                                before_b,
                                Some(Ordering::Greater),
                            ));
                        }
                        return Some(Ordering::Greater);
                    },
                    Some(y) => match x.partial_cmp(y) {
                        Some(Ordering::Equal) => {
                            proof {
                                assert forall|o: Option<Ordering>| #[trigger]
                                    lex_partial_can_give(a@, b@, o) implies lex_partial_can_give(
                                    self@,
                                    other@,
                                    o,
                                ) by {
                                    assert(lex_partial_can_give(before_a, before_b, o));
                                }
                            }
                        },
                        decided => {
                            proof {
                                assert(lex_partial_can_give(before_a, before_b, decided));
                            }
                            return decided;
                        },
                    },
                },
            }
        }
    }
}

impl<T: PartialOrd> PartialOrd for List<T> {
    /// Compares the two lists lexicographically. An incomparable pair of
    /// elements makes the lists incomparable.
    fn partial_cmp(&self, other: &Self) -> (order: Option<Ordering>)
        ensures
            lex_partial_can_give(self@, other@, order),
    {
        let order = self.elements_partial_cmp(other);
        proof {
            if T::obeys_partial_cmp_spec() {
                lemma_partial_cmp_of_lawful_elements(self@, other@, order);
            }
        }
        order
    }
}

impl<T: PartialOrd> vstd::std_specs::cmp::PartialOrdSpecImpl for List<T> {
    open spec fn obeys_partial_cmp_spec() -> bool {
        T::obeys_partial_cmp_spec()
    }

    open spec fn partial_cmp_spec(&self, other: &Self) -> Option<Ordering> {
        lex_partial(self@, other@)
    }
}

impl<T: Ord> List<T> {
    /// Compares the two lists lexicographically by the total order of
    /// their elements.
    pub fn cmp(&self, other: &Self) -> (order: Ordering)
        ensures
            lex_total_can_give(self@, other@, order),
            T::obeys_cmp_spec() ==> order == lex_total(self@, other@),
    {
        let mut a = self.iter();
        let mut b = other.iter();
        loop
            invariant
                forall|o: Ordering| #[trigger]
                    lex_total_can_give(a@, b@, o) ==> lex_total_can_give(self@, other@, o),
            decreases a@.len(),
        {
            let ghost before_a = a@;
            let ghost before_b = b@;
            match a.next() {
                None => {
                    let order = match b.next() {
                        None => Ordering::Equal,
                        Some(_) => Ordering::Less,
                    };
                    proof {
                        assert(lex_total_can_give(before_a, before_b, order));
                        if T::obeys_cmp_spec() {
                            lemma_cmp_of_lawful_elements(self@, other@, order);
                        }
                    }
                    return order;
                },
                Some(x) => match b.next() {
                    None => {
                        proof {
                            assert(lex_total_can_give(before_a, before_b, Ordering::Greater));
                            if T::obeys_cmp_spec() {
                                lemma_cmp_of_lawful_elements(self@, other@, Ordering::Greater);
                            }
                        }
                        return Ordering::Greater;
                    },
                    Some(y) => match x.cmp(y) {
                        Ordering::Equal => {
                            proof {
                                assert forall|o: Ordering| #[trigger]
                                    lex_total_can_give(a@, b@, o) implies lex_total_can_give(
                                    self@,
                                    other@,
                                    o,
                                ) by {
                                    assert(lex_total_can_give(before_a, before_b, o));
                                }
                            }
                        },
                        decided => {
                            proof {
                                assert(lex_total_can_give(before_a, before_b, decided));
                                if T::obeys_cmp_spec() {
                                    lemma_cmp_of_lawful_elements(self@, other@, decided);
                                }
                            }
                            return decided;
                        },
                    },
                },
            }
        }
    }
}

/// Lists that hold the same elements in the same order are equal, whatever
/// order of pushes built them, as long as each element equals itself.
pub proof fn lemma_same_elements_equal<T: PartialEq>(a: List<T>, b: List<T>)
    requires
        a@ == b@,
        forall|i: int| 0 <= i < a@.len() ==> (#[trigger] a@[i]).eq_spec(&a@[i]),
    ensures
        a.eq_spec(&b),
{
}

/// Lists that hold the same elements in the same order do not compare as
/// unequal, as long as no element can compare as unequal to itself.
pub proof fn lemma_same_elements_never_differ<T: PartialEq>(a: List<T>, b: List<T>, equal: bool)
    requires
        a@ == b@,
        forall|i: int| 0 <= i < a@.len() ==> !eq_can_give(#[trigger] a@[i], a@[i], false),
        elements_eq_can_give(a@, b@, equal),
    ensures
        equal,
{
}

/// Where the elements before position `i` compare as equal and the two at
/// position `i` do not compare at all, the lists do not compare either:
/// none of `<`, `<=`, `>` and `>=` holds between them.
pub proof fn lemma_incomparable<T: PartialOrd>(a: List<T>, b: List<T>, i: int)
    requires
        0 <= i < a@.len(),
        i < b@.len(),
        forall|j: int| 0 <= j < i ==> (#[trigger] a@[j]).partial_cmp_spec(&b@[j]) == Some(Ordering::Equal),
        a@[i].partial_cmp_spec(&b@[i]) is None,
    ensures
        a.partial_cmp_spec(&b) is None,
{
    lemma_lex_partial_decided(a@, b@, i);
}

/// Where comparing `x` with `y` can give nothing but `None`, comparing a
/// list of `x` alone with a list of `y` alone gives `None`: none of `<`,
/// `<=`, `>` and `>=` holds between them.
pub proof fn lemma_incomparable_singletons<T: PartialOrd>(x: T, y: T, order: Option<Ordering>)
    requires
        forall|o: Option<Ordering>| #[trigger] partial_cmp_can_give(x, y, o) ==> o is None,
        lex_partial_can_give(seq![x], seq![y], order),
    ensures
        order is None,
{
    let a = seq![x];
    let b = seq![y];
    assert(a.first() == x && b.first() == y);
}

/// The first pair of elements that does not compare as equal decides the
/// comparison of two sequences.
proof fn lemma_lex_partial_decided<T: PartialOrd>(a: Seq<T>, b: Seq<T>, i: int)
    requires
        0 <= i < a.len(),
        i < b.len(),
        forall|j: int| 0 <= j < i ==> (#[trigger] a[j]).partial_cmp_spec(&b[j]) == Some(Ordering::Equal),
        a[i].partial_cmp_spec(&b[i]) != Some(Ordering::Equal),
    ensures
        lex_partial(a, b) == a[i].partial_cmp_spec(&b[i]),
    decreases i,
{
    if i > 0 {
        let x = a.drop_first();
        let y = b.drop_first();
        assert(a[0].partial_cmp_spec(&b[0]) == Some(Ordering::Equal));
        assert forall|j: int| 0 <= j < i - 1 implies (#[trigger] x[j]).partial_cmp_spec(&y[j])
            == Some(Ordering::Equal) by {
            assert(a[j + 1].partial_cmp_spec(&b[j + 1]) == Some(Ordering::Equal));
        }
        lemma_lex_partial_decided(x, y, i - 1);
    }
}

} // verus!

//! Lists of positive numbers and the greatest common divisor of a whole list.

use crate::euclid::{
    divides, gcd, gcd_spec, lemma_common_divisor_divides_gcd, lemma_divides_transitive,
    lemma_divisor_at_most, lemma_gcd_divides, lemma_gcd_zero_left,
};
use vstd::arithmetic::div_mod::lemma_mod_multiples_basic;
use vstd::prelude::*;

verus! {

/// No element of `s` is zero.
pub open spec fn all_positive(s: Seq<u64>) -> bool {
    forall|i: int| 0 <= i < s.len() ==> s[i] != 0
}

/// `d` is a positive divisor of every element of `s`.
pub open spec fn divides_all(d: nat, s: Seq<u64>) -> bool {
    d > 0 && forall|i: int| 0 <= i < s.len() ==> divides(d, #[trigger] s[i] as nat)
}

/// `d` is the largest number that divides every element of `s`.
pub open spec fn is_greatest_divisor_of_all(d: nat, s: Seq<u64>) -> bool {
    &&& divides_all(d, s)
    &&& forall|c: nat| divides_all(c, s) ==> c <= d
}

/// The greatest common divisor of a list, reduced pairwise from the left.
/// Zero is neutral, so the reduction of the empty list is zero and that of
/// a single number is the number itself.
pub open spec fn gcd_of(s: Seq<u64>) -> nat
    decreases s.len(),
{
    if s.len() == 0 {
        0
    } else {
        gcd_spec(gcd_of(s.drop_last()), s.last() as nat)
    }
}

/// The reduction of a list of zeros is zero.
pub proof fn lemma_gcd_of_zeros(s: Seq<u64>)
    requires
        forall|i: int| 0 <= i < s.len() ==> s[i] == 0,
    ensures
        gcd_of(s) == 0,
    decreases s.len(),
{
    if s.len() > 0 {
        lemma_gcd_of_zeros(s.drop_last());
    }
}

/// The reduction of a list is positive as soon as one element is, and a
/// positive reduction divides every element.
pub proof fn lemma_gcd_of_divides_element(s: Seq<u64>, i: int)
    requires
        0 <= i < s.len(),
    ensures
        s[i] != 0 ==> gcd_of(s) > 0,
        gcd_of(s) > 0 ==> divides(gcd_of(s), s[i] as nat),
    decreases s.len(),
{
    let front = s.drop_last();
    let g_front = gcd_of(front);
    let last = s.last() as nat;
    let g = gcd_of(s);
    if g_front > 0 || last > 0 {
        lemma_gcd_divides(g_front, last);
    }
    if i < s.len() - 1 {
        lemma_gcd_of_divides_element(front, i);
        if g > 0 && g_front > 0 {
            lemma_divides_transitive(g, g_front, s[i] as nat);
        }
    }
}

/// A number that divides every element divides the reduction of the list.
pub proof fn lemma_divisor_of_all_divides_gcd_of(c: nat, s: Seq<u64>)
    requires
        divides_all(c, s),
    ensures
        divides(c, gcd_of(s)),
    decreases s.len(),
{
    if s.len() == 0 {
        lemma_mod_multiples_basic(0, c as int);
    } else {
        let front = s.drop_last();
        assert(divides_all(c, front)) by {
            assert forall|i: int| 0 <= i < front.len() implies divides(
                c,
                #[trigger] front[i] as nat,
            ) by {}
        }
        lemma_divisor_of_all_divides_gcd_of(c, front);
        lemma_common_divisor_divides_gcd(c, gcd_of(front), s.last() as nat);
    }
}

/// The reduction of a non-empty list of positive numbers divides every
/// element, and no larger number does.
pub proof fn lemma_gcd_of_is_greatest(s: Seq<u64>)
    requires
        s.len() > 0,
        all_positive(s),
    ensures
        is_greatest_divisor_of_all(gcd_of(s), s),
{
    let g = gcd_of(s);
    assert forall|i: int| 0 <= i < s.len() implies divides(g, #[trigger] s[i] as nat) by {
        lemma_gcd_of_divides_element(s, i);
    }
    assert forall|c: nat| divides_all(c, s) implies c <= g by {
        lemma_divisor_of_all_divides_gcd_of(c, s);
        lemma_divisor_at_most(c, g);
    }
}

/// If every element of `s` occurs in `t`, a positive reduction of `t`
/// divides the reduction of `s`.
proof fn lemma_gcd_of_sublist(s: Seq<u64>, t: Seq<u64>)
    requires
        forall|i: int| 0 <= i < s.len() ==> t.contains(#[trigger] s[i]),
        gcd_of(t) > 0,
    ensures
        divides(gcd_of(t), gcd_of(s)),
{
    let g = gcd_of(t);
    assert forall|i: int| 0 <= i < s.len() implies divides(g, #[trigger] s[i] as nat) by {
        let j = choose|j: int| 0 <= j < t.len() && t[j] == s[i];
        lemma_gcd_of_divides_element(t, j);
    }
    lemma_divisor_of_all_divides_gcd_of(g, s);
}

/// If every element of `s` occurs in `t` and the reduction of `s` is
/// positive, so is that of `t`.
proof fn lemma_gcd_of_superlist_positive(s: Seq<u64>, t: Seq<u64>)
    requires
        forall|i: int| 0 <= i < s.len() ==> t.contains(#[trigger] s[i]),
        gcd_of(s) > 0,
    ensures
        gcd_of(t) > 0,
{
    if forall|i: int| 0 <= i < s.len() ==> s[i] == 0 {
        lemma_gcd_of_zeros(s);
    } else {
        let i = choose|i: int| 0 <= i < s.len() && s[i] != 0;
        let j = choose|j: int| 0 <= j < t.len() && t[j] == s[i];
        lemma_gcd_of_divides_element(t, j);
    }
}

/// The order in which a list is reduced does not matter: two lists that hold
/// the same numbers, each as often as the other, have the same reduction.
pub proof fn lemma_gcd_of_reordered(s: Seq<u64>, t: Seq<u64>)
    requires
        s.to_multiset() == t.to_multiset(),
    ensures
        gcd_of(s) == gcd_of(t),
{
    s.to_multiset_ensures();
    t.to_multiset_ensures();
    assert forall|i: int| 0 <= i < s.len() implies t.contains(#[trigger] s[i]) by {
        assert(s.to_multiset().count(s[i]) > 0);
    }
    assert forall|i: int| 0 <= i < t.len() implies s.contains(#[trigger] t[i]) by {
        assert(t.to_multiset().count(t[i]) > 0);
    }
    if gcd_of(s) > 0 {
        lemma_gcd_of_superlist_positive(s, t);
    }
    if gcd_of(t) > 0 {
        lemma_gcd_of_superlist_positive(t, s);
        lemma_gcd_of_sublist(s, t);
        lemma_gcd_of_sublist(t, s);
        lemma_divisor_at_most(gcd_of(s), gcd_of(t));
        lemma_divisor_at_most(gcd_of(t), gcd_of(s));
    }
}

/// A non-empty list of positive numbers.
#[derive(Debug, PartialEq, Eq)]
pub struct NumberList {
    values: Vec<u64>,
}

impl View for NumberList {
    type V = Seq<u64>;

    closed spec fn view(&self) -> Seq<u64> {
        self.values@
    }
}

impl NumberList {
    #[verifier::type_invariant]
    spec fn well_formed(self) -> bool {
        self.values@.len() > 0 && all_positive(self.values@)
    }

    /// Wraps `values`, unless the list is empty or holds a zero.
    pub fn new(values: Vec<u64>) -> (list: Option<NumberList>)
        ensures
            list is Some <==> values@.len() > 0 && all_positive(values@),
            list matches Some(l) ==> l@ == values@,
    {
        if values.len() == 0 {
            return None;
        }
        let mut i: usize = 0;
        while i < values.len()
            invariant
                i <= values.len(),
                forall|j: int| 0 <= j < i ==> values[j] != 0,
            decreases values.len() - i,
        {
            if values[i] == 0 {
                return None;
            }
            i += 1;
        }
        Some(NumberList { values })
    }

    /// The numbers, in their order.
    pub fn values(&self) -> (values: &Vec<u64>)
        ensures
            values@ == self@,
            values@.len() > 0,
            all_positive(values@),
    {
        proof {
            use_type_invariant(self);
        }
        &self.values
    }

    /// The greatest common divisor of the whole list: the first number,
    /// reduced with each following one in turn.
    pub fn gcd(&self) -> (d: u64)
        ensures
            d as nat == gcd_of(self@),
            is_greatest_divisor_of_all(d as nat, self@),
    {
        proof {
            use_type_invariant(self);
            lemma_gcd_zero_left(self.values@[0] as nat);
            assert(self.values@.take(1).drop_last() =~= Seq::<u64>::empty());
            assert(gcd_of(Seq::<u64>::empty()) == 0);
        }
        let mut d: u64 = self.values[0];
        let mut i: usize = 1;
        while i < self.values.len()
            invariant
                1 <= i <= self.values.len(),
                all_positive(self.values@),
                d != 0,
                d as nat == gcd_of(self.values@.take(i as int)),
            decreases self.values.len() - i,
        {
            proof {
                assert(self.values@.take(i + 1).drop_last() =~= self.values@.take(i as int));
            }
            d = gcd(d, self.values[i]);
            i += 1;
        }
        proof {
            assert(self.values@.take(i as int) =~= self.values@);
            lemma_gcd_of_is_greatest(self.values@);
        }
        d
    }
}

} // verus!

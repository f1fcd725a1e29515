//! Sorting in parallel by a verified total order.

use core::cmp::Ordering;

use rayon::slice::ParallelSliceMut;
use vstd::prelude::*;

use crate::order::{compare_sign, lex_le, lex_lt, lemma_lex_asymmetric, lemma_lex_irreflexive, lemma_lex_total, lemma_lex_transitive};

verus! {

/// The outcome of comparing two values.
#[derive(Debug, Clone, Copy, PartialEq, Eq, Structural)]
pub enum Order {
    /// The first sorts before the second.
    Less,
    /// Neither sorts before the other.
    Equal,
    /// The first sorts after the second.
    Greater,
}

/// Values with a total preorder `le` and a comparison that follows it.
pub trait Ordered: Sized {
    /// `self` may come before `other`.
    spec fn le(self, other: Self) -> bool;

    /// Any two values are comparable.
    proof fn lemma_le_total(a: Self, b: Self)
        ensures
            a.le(b) || b.le(a),
    ;

    /// `le` is transitive.
    proof fn lemma_le_transitive(a: Self, b: Self, c: Self)
        requires
            a.le(b),
            b.le(c),
        ensures
            a.le(c),
    ;

    /// Compares `self` with `other` by `le`.
    fn order(&self, other: &Self) -> (o: Order)
        ensures
            (o == Order::Less) == !other.le(*self),
            (o == Order::Greater) == !self.le(*other),
            (o == Order::Equal) == (self.le(*other) && other.le(*self)),
    ;
}

/// The comparison of `a` and `b`, as the standard library names it.
pub fn std_ordering<T: Ordered>(a: &T, b: &T) -> (r: Ordering)
    ensures
        (r == Ordering::Less) == !b.le(*a),
        (r == Ordering::Greater) == !a.le(*b),
        (r == Ordering::Equal) == (a.le(*b) && b.le(*a)),
{
    match a.order(b) {
        Order::Less => Ordering::Less,
        Order::Equal => Ordering::Equal,
        Order::Greater => Ordering::Greater,
    }
}

/// `s` is sorted by `le`.
pub open spec fn sorted<T: Ordered>(s: Seq<T>) -> bool {
    forall|i: int, j: int| 0 <= i < j < s.len() ==> s[i].le(s[j])
}

/// Sorts `v` with rayon's `par_sort_unstable_by`, comparing by `le`.
/// rayon's documentation promises a permutation of the elements in
/// ascending order for a comparator that is a total order, which
/// `std_ordering` is for every `Ordered` type; the order of elements that
/// compare equal is left open.
#[verifier::external_body]
pub(crate) fn par_sort<T: Ordered + Send>(v: &mut Vec<T>)
    ensures
        final(v)@.to_multiset() == old(v)@.to_multiset(),
        sorted(final(v)@),
{
    v.par_sort_unstable_by(|a, b| std_ordering(a, b));
}

impl Ordered for (u32, u32) {
    open spec fn le(self, other: Self) -> bool {
        self.0 < other.0 || (self.0 == other.0 && self.1 <= other.1)
    }

    proof fn lemma_le_total(a: Self, b: Self) {
    }

    proof fn lemma_le_transitive(a: Self, b: Self, c: Self) {
    }

    fn order(&self, other: &Self) -> (o: Order) {
        if self.0 < other.0 {
            Order::Less
        } else if self.0 > other.0 {
            Order::Greater
        } else if self.1 < other.1 {
            Order::Less
        } else if self.1 > other.1 {
            Order::Greater
        } else {
            Order::Equal
        }
    }
}

impl Ordered for (u32, u32, u32) {
    open spec fn le(self, other: Self) -> bool {
        self.0 < other.0 || (self.0 == other.0 && (self.1 < other.1 || (self.1 == other.1
            && self.2 <= other.2)))
    }

    proof fn lemma_le_total(a: Self, b: Self) {
    }

    proof fn lemma_le_transitive(a: Self, b: Self, c: Self) {
    }

    fn order(&self, other: &Self) -> (o: Order) {
        if self.0 < other.0 {
            Order::Less
        } else if self.0 > other.0 {
            Order::Greater
        } else if self.1 < other.1 {
            Order::Less
        } else if self.1 > other.1 {
            Order::Greater
        } else if self.2 < other.2 {
            Order::Less
        } else if self.2 > other.2 {
            Order::Greater
        } else {
            Order::Equal
        }
    }
}

impl Ordered for (u32, usize, u32) {
    open spec fn le(self, other: Self) -> bool {
        self.0 < other.0 || (self.0 == other.0 && (self.1 < other.1 || (self.1 == other.1
            && self.2 <= other.2)))
    }

    proof fn lemma_le_total(a: Self, b: Self) {
    }

    proof fn lemma_le_transitive(a: Self, b: Self, c: Self) {
    }

    fn order(&self, other: &Self) -> (o: Order) {
        if self.0 < other.0 {
            Order::Less
        } else if self.0 > other.0 {
            Order::Greater
        } else if self.1 < other.1 {
            Order::Less
        } else if self.1 > other.1 {
            Order::Greater
        } else if self.2 < other.2 {
            Order::Less
        } else if self.2 > other.2 {
            Order::Greater
        } else {
            Order::Equal
        }
    }
}

/// A text to sort by, and the position it belongs to.
#[derive(Debug)]
pub struct TextKey {
    /// The text.
    pub text: Vec<u8>,
    /// The position.
    pub position: u32,
}

impl Ordered for TextKey {
    open spec fn le(self, other: Self) -> bool {
        lex_le(self.text@, other.text@)
    }

    proof fn lemma_le_total(a: Self, b: Self) {
        lemma_lex_total(a.text@, b.text@);
    }

    proof fn lemma_le_transitive(a: Self, b: Self, c: Self) {
        if lex_lt(a.text@, b.text@) && lex_lt(b.text@, c.text@) {
            lemma_lex_transitive(a.text@, b.text@, c.text@);
        }
    }

    fn order(&self, other: &Self) -> (o: Order) {
        proof {
            lemma_lex_asymmetric(self.text@, other.text@);
            lemma_lex_irreflexive(self.text@);
            lemma_lex_total(self.text@, other.text@);
        }
        let s = compare_sign(self.text.as_slice(), other.text.as_slice());
        if s < 0 {
            Order::Less
        } else if s == 0 {
            Order::Equal
        } else {
            Order::Greater
        }
    }
}

/// A text to sort by, with its position breaking ties.
#[derive(Debug)]
pub struct RankedText {
    /// The text.
    pub text: Vec<u8>,
    /// The position.
    pub position: u32,
}

impl Ordered for RankedText {
    open spec fn le(self, other: Self) -> bool {
        lex_lt(self.text@, other.text@) || (self.text@ == other.text@ && self.position <= other.position)
    }

    proof fn lemma_le_total(a: Self, b: Self) {
        lemma_lex_total(a.text@, b.text@);
    }

    proof fn lemma_le_transitive(a: Self, b: Self, c: Self) {
        lemma_lex_asymmetric(a.text@, b.text@);
        lemma_lex_irreflexive(a.text@);
        if lex_lt(a.text@, b.text@) && lex_lt(b.text@, c.text@) {
            lemma_lex_transitive(a.text@, b.text@, c.text@);
        }
    }

    fn order(&self, other: &Self) -> (o: Order) {
        proof {
            lemma_lex_asymmetric(self.text@, other.text@);
            lemma_lex_irreflexive(self.text@);
            lemma_lex_total(self.text@, other.text@);
        }
        let s = compare_sign(self.text.as_slice(), other.text.as_slice());
        if s < 0 {
            Order::Less
        } else if s > 0 {
            Order::Greater
        } else if self.position < other.position {
            Order::Less
        } else if self.position > other.position {
            Order::Greater
        } else {
            Order::Equal
        }
    }
}

/// A value at two positions of `s` is counted twice.
pub proof fn lemma_count_two<A>(s: Seq<A>, a: int, b: int)
    requires
        0 <= a < b < s.len(),
        s[a] == s[b],
    ensures
        s.to_multiset().count(s[a]) >= 2,
{
    broadcast use vstd::multiset::group_multiset_axioms;

    vstd::seq_lib::to_multiset_remove(s, b);
    assert(s.remove(b)[a] == s[a]);
    vstd::seq_lib::to_multiset_contains(s.remove(b), s[a]);
    vstd::seq_lib::to_multiset_contains(s, s[a]);
}

/// In a table whose entries carry their own positions, each entry is counted
/// once.
pub proof fn lemma_count_one<A>(s: Seq<A>, p: int, pos: spec_fn(A) -> int)
    requires
        0 <= p < s.len(),
        forall|k: int| 0 <= k < s.len() ==> pos(#[trigger] s[k]) == k,
    ensures
        s.to_multiset().count(s[p]) == 1,
{
    broadcast use vstd::multiset::group_multiset_axioms;

    vstd::seq_lib::to_multiset_remove(s, p);
    vstd::seq_lib::to_multiset_contains(s, s[p]);
    assert forall|k: int| 0 <= k < s.remove(p).len() implies s.remove(p)[k] != s[p] by {
        if k < p {
            assert(s.remove(p)[k] == s[k]);
        } else {
            assert(s.remove(p)[k] == s[k + 1]);
        }
    }
    vstd::seq_lib::to_multiset_contains(s.remove(p), s[p]);
}

/// Reordering a table whose entries carry their own positions: each entry of
/// the result is the entry of the input at its position, and no position
/// occurs twice.
pub proof fn lemma_reordered_positions<A>(before: Seq<A>, after: Seq<A>, pos: spec_fn(A) -> int)
    requires
        after.to_multiset() == before.to_multiset(),
        forall|k: int| 0 <= k < before.len() ==> pos(#[trigger] before[k]) == k,
    ensures
        after.len() == before.len(),
        forall|m: int|
            0 <= m < after.len() ==> 0 <= pos(#[trigger] after[m]) < before.len() && after[m]
                == before[pos(after[m])],
        forall|a: int, b: int| 0 <= a < b < after.len() ==> pos(after[a]) != pos(after[b]),
{
    vstd::seq_lib::to_multiset_len(after);
    vstd::seq_lib::to_multiset_len(before);
    assert forall|m: int| 0 <= m < after.len() implies 0 <= pos(#[trigger] after[m]) < before.len()
        && after[m] == before[pos(after[m])] by {
        vstd::seq_lib::to_multiset_contains(after, after[m]);
        vstd::seq_lib::to_multiset_contains(before, after[m]);
        let w = choose|w: int| 0 <= w < before.len() && before[w] == after[m];
        assert(pos(before[w]) == w);
    }
    assert forall|a: int, b: int| 0 <= a < b < after.len() implies pos(after[a]) != pos(after[b]) by {
        if pos(after[a]) == pos(after[b]) {
            let p = pos(after[a]);
            assert(after[a] == before[p]);
            assert(after[b] == before[p]);
            lemma_count_two(after, a, b);
            lemma_count_one(before, p, pos);
        }
    }
}

} // verus!

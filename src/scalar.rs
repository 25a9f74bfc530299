use vstd::prelude::*;

verus! {

/// Element types that have the two identities and a strict total order.
pub trait Scalar: Copy + Sized {
    /// The additive identity.
    spec fn zero_value() -> Self;

    /// The multiplicative identity.
    spec fn one_value() -> Self;

    /// The strict order on elements.
    spec fn less(self, other: Self) -> bool;

    /// `less` is irreflexive, transitive and total.
    proof fn lemma_strict_total_order()
        ensures
            forall|a: Self| !#[trigger] a.less(a),
            forall|a: Self, b: Self, c: Self| #[trigger] a.less(b) && #[trigger] b.less(c) ==> a.less(c),
            forall|a: Self, b: Self| a.less(b) || b.less(a) || a == b,
    ;

    fn zero() -> (r: Self)
        ensures
            r == Self::zero_value(),
    ;

    fn one() -> (r: Self)
        ensures
            r == Self::one_value(),
    ;

    fn lt(&self, other: &Self) -> (r: bool)
        ensures
            r == self.less(*other),
    ;
}

impl Scalar for i64 {
    open spec fn zero_value() -> i64 {
        0
    }

    open spec fn one_value() -> i64 {
        1
    }

    open spec fn less(self, other: i64) -> bool {
        self < other
    }

    proof fn lemma_strict_total_order() {
    }

    fn zero() -> (r: i64) {
        0
    }

    fn one() -> (r: i64) {
        1
    }

    fn lt(&self, other: &i64) -> (r: bool) {
        *self < *other
    }
}

impl Scalar for i32 {
    open spec fn zero_value() -> i32 {
        0
    }

    open spec fn one_value() -> i32 {
        1
    }

    open spec fn less(self, other: i32) -> bool {
        self < other
    }

    proof fn lemma_strict_total_order() {
    }

    fn zero() -> (r: i32) {
        0
    }

    fn one() -> (r: i32) {
        1
    }

    fn lt(&self, other: &i32) -> (r: bool) {
        *self < *other
    }
}

impl Scalar for u64 {
    open spec fn zero_value() -> u64 {
        0
    }

    open spec fn one_value() -> u64 {
        1
    }

    open spec fn less(self, other: u64) -> bool {
        self < other
    }

    proof fn lemma_strict_total_order() {
    }

    fn zero() -> (r: u64) {
        0
    }

    fn one() -> (r: u64) {
        1
    }

    fn lt(&self, other: &u64) -> (r: bool) {
        *self < *other
    }
}

} // verus!

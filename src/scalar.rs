use vstd::prelude::*;

verus! {

/// The scalars a network computes with.
///
/// Each executable operation is pinned to a spec function of the same name,
/// so that the network's contracts are exact over those spec functions; the
/// proof functions are the few algebraic facts the network's laws rest on.
pub trait Scalar: Copy + Sized {
    spec fn zero_spec() -> Self;

    /// The scalar nearest to `n / d`.
    spec fn ratio_spec(n: int, d: int) -> Self;

    spec fn pos_spec(a: Self) -> bool;

    spec fn plus_spec(a: Self, b: Self) -> Self;

    spec fn minus_spec(a: Self, b: Self) -> Self;

    spec fn times_spec(a: Self, b: Self) -> Self;

    spec fn over_spec(a: Self, b: Self) -> Self;

    spec fn square_spec(a: Self) -> Self;

    fn zero() -> (r: Self)
        ensures
            r == Self::zero_spec(),
    ;

    fn ratio(n: i64, d: i64) -> (r: Self)
        requires
            d > 0,
        ensures
            r == Self::ratio_spec(n as int, d as int),
    ;

    /// Whether `0 < self`.
    fn is_pos(&self) -> (r: bool)
        ensures
            r == Self::pos_spec(*self),
    ;

    fn plus(self, b: Self) -> (r: Self)
        ensures
            r == Self::plus_spec(self, b),
    ;

    fn minus(self, b: Self) -> (r: Self)
        ensures
            r == Self::minus_spec(self, b),
    ;

    fn times(self, b: Self) -> (r: Self)
        ensures
            r == Self::times_spec(self, b),
    ;

    fn over(self, b: Self) -> (r: Self)
        ensures
            r == Self::over_spec(self, b),
    ;

    fn square(self) -> (r: Self)
        ensures
            r == Self::square_spec(self),
    ;

    proof fn lemma_zero_not_pos()
        ensures
            !Self::pos_spec(Self::zero_spec()),
    ;

    proof fn lemma_minus_self(a: Self)
        ensures
            Self::minus_spec(a, a) == Self::zero_spec(),
    ;

    proof fn lemma_square_minus_swap(a: Self, b: Self)
        ensures
            Self::square_spec(Self::minus_spec(a, b)) == Self::square_spec(Self::minus_spec(b, a)),
    ;

    proof fn lemma_square_zero()
        ensures
            Self::square_spec(Self::zero_spec()) == Self::zero_spec(),
    ;

    proof fn lemma_plus_zero()
        ensures
            Self::plus_spec(Self::zero_spec(), Self::zero_spec()) == Self::zero_spec(),
    ;

    /// Zero divided by a positive scalar is zero.
    proof fn lemma_zero_over(b: Self)
        requires
            Self::pos_spec(b),
        ensures
            Self::over_spec(Self::zero_spec(), b) == Self::zero_spec(),
    ;

    /// A ratio of at least one is positive.
    proof fn lemma_ratio_pos(n: int, d: int)
        requires
            0 < d <= n <= i64::MAX,
        ensures
            Self::pos_spec(Self::ratio_spec(n, d)),
    ;
}

} // verus!

use vstd::prelude::*;
use crate::scalar::Scalar;

verus! {

/// The one failure of the network: two lengths that must agree do not.
#[derive(Clone, Copy, Debug, PartialEq, Eq, Structural)]
pub enum NetError {
    DimensionMismatch,
}

/// `max(0, a)`.
pub open spec fn relu_one<T: Scalar>(a: T) -> T {
    if T::pos_spec(a) {
        a
    } else {
        T::zero_spec()
    }
}

pub open spec fn relu_seq<T: Scalar>(v: Seq<T>) -> Seq<T> {
    v.map_values(|a: T| relu_one(a))
}

/// The rows of a layer as sequences.
pub open spec fn rows_view<T>(w: &Vec<Vec<T>>) -> Seq<Seq<T>> {
    w@.map_values(|r: Vec<T>| r@)
}

/// Every row of the layer is as long as the first.
pub open spec fn rectangular<T>(w: Seq<Seq<T>>) -> bool {
    forall|j: int| 0 <= j < w.len() ==> #[trigger] w[j].len() == w[0].len()
}

/// `x[0] * w[0][i] + ... + x[n-1] * w[n-1][i]`, summed from the left.
pub open spec fn dot_acc<T: Scalar>(x: Seq<T>, w: Seq<Seq<T>>, i: int, n: nat) -> T
    decreases n,
{
    if n == 0 {
        T::zero_spec()
    } else {
        T::plus_spec(
            dot_acc(x, w, i, (n - 1) as nat),
            T::times_spec(x[n - 1], w[n - 1][i]),
        )
    }
}

/// The row vector `x` multiplied by the matrix whose rows are `w`.
pub open spec fn dot_seq<T: Scalar>(x: Seq<T>, w: Seq<Seq<T>>) -> Seq<T> {
    Seq::new(w[0].len(), |i: int| dot_acc(x, w, i, x.len()))
}

/// Whether `x` can be multiplied by `w`: one row per entry, and at least one.
pub open spec fn fits<T>(x: Seq<T>, w: Seq<Seq<T>>) -> bool {
    w.len() > 0 && x.len() == w.len()
}

/// `(y[0] - t[0])^2 + ... + (y[n-1] - t[n-1])^2`, summed from the left.
pub open spec fn sq_err_acc<T: Scalar>(y: Seq<T>, t: Seq<T>, n: nat) -> T
    decreases n,
{
    if n == 0 {
        T::zero_spec()
    } else {
        T::plus_spec(sq_err_acc(y, t, (n - 1) as nat), T::square_spec(T::minus_spec(y[n - 1], t[n - 1])))
    }
}

/// Half the summed squared error of `y` against `t`.
pub open spec fn loss_spec<T: Scalar>(y: Seq<T>, t: Seq<T>) -> T {
    T::over_spec(sq_err_acc(y, t, y.len()), T::ratio_spec(2, 1))
}

/// Applies `max(0, a)` to every entry.
pub fn relu<T: Scalar>(x: &Vec<T>) -> (r: Vec<T>)
    ensures
        r@ == relu_seq(x@),
{
    let mut ret: Vec<T> = Vec::new();
    let zero = T::zero();
    for i in 0..x.len()
        invariant
            zero == T::zero_spec(),
            ret@.len() == i,
            forall|k: int| 0 <= k < i ==> #[trigger] ret@[k] == relu_one(x@[k]),
    {
        let a = x[i];
        let b = if a.is_pos() { a } else { zero };
        ret.push(b);
    }
    assert(ret@ =~= relu_seq(x@));
    ret
}

/// Multiplies the row vector `x` by the matrix whose rows are `w`:
/// `r[i] = x[0] * w[0][i] + ... + x[n-1] * w[n-1][i]`.
pub fn dot<T: Scalar>(x: &Vec<T>, w: &Vec<Vec<T>>) -> (r: Result<Vec<T>, NetError>)
    requires
        rectangular(rows_view(w)),
    ensures
        r is Ok <==> fits(x@, rows_view(w)),
        r is Ok ==> r->Ok_0@ == dot_seq(x@, rows_view(w)),
        r is Err ==> r->Err_0 == NetError::DimensionMismatch,
{
    if w.len() == 0 || x.len() != w.len() {
        return Err(NetError::DimensionMismatch);
    }
    let ghost ws = rows_view(w);
    let m = w[0].len();
    let n = x.len();
    let mut ret: Vec<T> = Vec::new();
    for i in 0..m
        invariant
            ws == rows_view(w),
            rectangular(ws),
            fits(x@, ws),
            n == x@.len(),
            m == ws[0].len(),
            ret@.len() == i,
            forall|k: int| 0 <= k < i ==> #[trigger] ret@[k] == dot_acc(x@, ws, k, n as nat),
    {
        let mut acc = T::zero();
        for j in 0..n
            invariant
                ws == rows_view(w),
                rectangular(ws),
                fits(x@, ws),
                n == x@.len(),
                m == ws[0].len(),
                i < m,
                acc == dot_acc(x@, ws, i as int, j as nat),
        {
            assert(ws[j as int] == w@[j as int]@);
            acc = acc.plus(x[j].times(w[j][i]));
        }
        ret.push(acc);
    }
    assert(ret@ == dot_seq(x@, ws));
    Ok(ret)
}

/// Half the summed squared error of `y` against `t`.
pub fn mean_squared_error<T: Scalar>(y: &Vec<T>, t: &Vec<T>) -> (r: Result<T, NetError>)
    ensures
        r is Ok <==> y@.len() == t@.len(),
        r is Ok ==> r->Ok_0 == loss_spec(y@, t@),
        r is Err ==> r->Err_0 == NetError::DimensionMismatch,
{
    if y.len() != t.len() {
        return Err(NetError::DimensionMismatch);
    }
    let mut acc = T::zero();
    for i in 0..y.len()
        invariant
            y@.len() == t@.len(),
            acc == sq_err_acc(y@, t@, i as nat),
    {
        acc = acc.plus(y[i].minus(t[i]).square());
    }
    Ok(acc.over(T::ratio(2, 1)))
}

/// Activation is idempotent: applying it twice is applying it once.
pub proof fn lemma_relu_idempotent<T: Scalar>(v: Seq<T>)
    ensures
        relu_seq(relu_seq(v)) == relu_seq(v),
{
    T::lemma_zero_not_pos();
    assert(relu_seq(relu_seq(v)) =~= relu_seq(v));
}

proof fn lemma_sq_err_self<T: Scalar>(y: Seq<T>, n: nat)
    requires
        n <= y.len(),
    ensures
        sq_err_acc(y, y, n) == T::zero_spec(),
    decreases n,
{
    if n > 0 {
        lemma_sq_err_self(y, (n - 1) as nat);
        T::lemma_minus_self(y[n - 1]);
        T::lemma_square_zero();
        T::lemma_plus_zero();
    }
}

proof fn lemma_sq_err_swap<T: Scalar>(y: Seq<T>, t: Seq<T>, n: nat)
    requires
        n <= y.len(),
        n <= t.len(),
    ensures
        sq_err_acc(y, t, n) == sq_err_acc(t, y, n),
    decreases n,
{
    if n > 0 {
        lemma_sq_err_swap(y, t, (n - 1) as nat);
        T::lemma_square_minus_swap(y[n - 1], t[n - 1]);
    }
}

/// The loss of a prediction that equals its target is exactly zero.
pub proof fn lemma_loss_of_equal_is_zero<T: Scalar>(y: Seq<T>)
    ensures
        loss_spec(y, y) == T::zero_spec(),
{
    lemma_sq_err_self(y, y.len());
    T::lemma_ratio_pos(2, 1);
    T::lemma_zero_over(T::ratio_spec(2, 1));
}

/// The loss is symmetric: swapping prediction and target keeps it.
pub proof fn lemma_loss_symmetric<T: Scalar>(y: Seq<T>, t: Seq<T>)
    requires
        y.len() == t.len(),
    ensures
        loss_spec(y, t) == loss_spec(t, y),
{
    lemma_sq_err_swap(y, t, y.len());
}

} // verus!

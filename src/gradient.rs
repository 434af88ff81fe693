use vstd::prelude::*;
use crate::layer::NetError;
use crate::network::{store_view, well_formed};
use crate::scalar::Scalar;

verus! {

/// The perturbation step of the finite difference, as `STEP_NUM / STEP_DEN`.
pub const STEP_NUM: i64 = 1;

pub const STEP_DEN: i64 = 10000;

/// A scalar objective over a whole weight store.
pub trait Objective<T: Scalar> {
    /// What the objective is on the given weights.
    spec fn value(&self, w: Seq<Seq<Seq<T>>>) -> Result<T, NetError>;

    fn eval(&self, w: &Vec<Vec<Vec<T>>>) -> (r: Result<T, NetError>)
        requires
            well_formed(store_view(w)),
        ensures
            r == self.value(store_view(w)),
    ;
}

pub open spec fn step_spec<T: Scalar>() -> T {
    T::ratio_spec(STEP_NUM as int, STEP_DEN as int)
}

/// `w` with the single entry `w[l][r][k]` set to `v`.
pub open spec fn perturb<T>(w: Seq<Seq<Seq<T>>>, l: int, r: int, k: int, v: T) -> Seq<Seq<Seq<T>>> {
    w.update(l, w[l].update(r, w[l][r].update(k, v)))
}

pub open spec fn probe_up<T: Scalar>(w: Seq<Seq<Seq<T>>>, l: int, r: int, k: int) -> Seq<Seq<Seq<T>>> {
    perturb(w, l, r, k, T::plus_spec(w[l][r][k], step_spec()))
}

pub open spec fn probe_down<T: Scalar>(w: Seq<Seq<Seq<T>>>, l: int, r: int, k: int) -> Seq<Seq<Seq<T>>> {
    perturb(w, l, r, k, T::minus_spec(w[l][r][k], step_spec()))
}

/// `(up - down) / (2 h)`.
pub open spec fn central_diff<T: Scalar>(up: T, down: T) -> T {
    T::over_spec(T::minus_spec(up, down), T::times_spec(T::ratio_spec(2, 1), step_spec()))
}

/// Both probes of entry `k` of row `(l, r)` evaluate without error.
pub open spec fn probes_ok<T: Scalar, F: Objective<T>>(f: F, w: Seq<Seq<Seq<T>>>, l: int, r: int, k: int) -> bool {
    &&& f.value(probe_up(w, l, r, k)) is Ok
    &&& f.value(probe_down(w, l, r, k)) is Ok
}

/// The estimated derivative of `f` in entry `k` of row `(l, r)`.
pub open spec fn partial<T: Scalar, F: Objective<T>>(f: F, w: Seq<Seq<Seq<T>>>, l: int, r: int, k: int) -> T {
    central_diff(f.value(probe_up(w, l, r, k))->Ok_0, f.value(probe_down(w, l, r, k))->Ok_0)
}

/// Every probe of row `(l, r)` evaluates without error.
pub open spec fn row_ok<T: Scalar, F: Objective<T>>(f: F, w: Seq<Seq<Seq<T>>>, l: int, r: int) -> bool {
    forall|k: int| 0 <= k < w[l][r].len() ==> #[trigger] probes_ok(f, w, l, r, k)
}

/// The estimated gradient of `f` over row `(l, r)`.
pub open spec fn row_grad<T: Scalar, F: Objective<T>>(f: F, w: Seq<Seq<Seq<T>>>, l: int, r: int) -> Seq<T> {
    Seq::new(w[l][r].len(), |k: int| partial(f, w, l, r, k))
}

proof fn lemma_perturb_shape<T>(w: Seq<Seq<Seq<T>>>, l: int, r: int, k: int, v: T)
    requires
        well_formed(w),
        0 <= l < w.len(),
        0 <= r < w[l].len(),
        0 <= k < w[l][r].len(),
    ensures
        well_formed(perturb(w, l, r, k, v)),
{
    let p = perturb(w, l, r, k, v);
    assert forall|i: int| 0 <= i < 3 implies #[trigger] crate::layer::rectangular(p[i]) by {
        assert(crate::layer::rectangular(w[i]));
        if i == l {
            assert forall|j: int| 0 <= j < p[i].len() implies #[trigger] p[i][j].len() == p[i][0].len() by {
                assert(w[i][j].len() == w[i][0].len());
            }
        }
    }
}

proof fn lemma_perturb_twice<T>(w: Seq<Seq<Seq<T>>>, l: int, r: int, k: int, a: T, b: T)
    requires
        0 <= l < w.len(),
        0 <= r < w[l].len(),
        0 <= k < w[l][r].len(),
    ensures
        perturb(perturb(w, l, r, k, a), l, r, k, b) == perturb(w, l, r, k, b),
        perturb(w, l, r, k, w[l][r][k]) == w,
{
    assert(perturb(perturb(w, l, r, k, a), l, r, k, b) =~~= perturb(w, l, r, k, b));
    assert(perturb(w, l, r, k, w[l][r][k]) =~~= w);
}

/// Sets entry `k` of row `(l, r)` to `v`.
pub(crate) fn set_entry<T: Scalar>(w: &mut Vec<Vec<Vec<T>>>, l: usize, r: usize, k: usize, v: T)
    requires
        l < old(w)@.len(),
        r < old(w)@[l as int]@.len(),
        k < old(w)@[l as int]@[r as int]@.len(),
    ensures
        store_view(final(w)) == perturb(store_view(old(w)), l as int, r as int, k as int, v),
{
    let ghost w0 = store_view(w);
    w[l][r][k] = v;
    assert(store_view(w) =~~= perturb(w0, l as int, r as int, k as int, v));
}

/// Estimates the derivative of `f` in every entry of row `(tgt_layer, tgt_row)`
/// by central differences, moving one entry at a time by the step and back.
///
/// The weights are left as they were, whether or not an evaluation fails.
pub fn num_diff<T: Scalar, F: Objective<T>>(
    f: &F,
    w: &mut Vec<Vec<Vec<T>>>,
    tgt_layer: usize,
    tgt_row: usize,
) -> (r: Result<Vec<T>, NetError>)
    requires
        well_formed(store_view(old(w))),
        tgt_layer < old(w)@.len(),
        tgt_row < old(w)@[tgt_layer as int]@.len(),
    ensures
        store_view(final(w)) == store_view(old(w)),
        r is Ok <==> row_ok(*f, store_view(old(w)), tgt_layer as int, tgt_row as int),
        r is Ok ==> r->Ok_0@ == row_grad(*f, store_view(old(w)), tgt_layer as int, tgt_row as int),
{
    let ghost w0 = store_view(w);
    let ghost l = tgt_layer as int;
    let ghost rw = tgt_row as int;
    let h = T::ratio(STEP_NUM, STEP_DEN);
    let two_h = T::ratio(2, 1).times(h);
    let n = w[tgt_layer][tgt_row].len();
    let mut grad: Vec<T> = Vec::new();
    for k in 0..n
        invariant
            store_view(w) == w0,
            w0 == store_view(old(w)),
            well_formed(w0),
            l == tgt_layer,
            rw == tgt_row,
            tgt_layer < w@.len(),
            tgt_row < w@[l]@.len(),
            n == w0[l][rw].len(),
            h == step_spec::<T>(),
            two_h == T::times_spec(T::ratio_spec(2, 1), step_spec()),
            grad@.len() == k,
            forall|j: int| 0 <= j < k ==> #[trigger] probes_ok(*f, w0, l, rw, j),
            forall|j: int| 0 <= j < k ==> #[trigger] grad@[j] == partial(*f, w0, l, rw, j),
    {
        assert(w0[l][rw] == w@[l]@[rw]@);
        let tmp = w[tgt_layer][tgt_row][k];
        proof {
            lemma_perturb_shape(w0, l, rw, k as int, T::plus_spec(tmp, h));
            lemma_perturb_shape(w0, l, rw, k as int, T::minus_spec(tmp, h));
        }
        set_entry(w, tgt_layer, tgt_row, k, tmp.plus(h));
        let up = f.eval(w);
        proof {
            lemma_perturb_twice(w0, l, rw, k as int, T::plus_spec(tmp, h), T::minus_spec(tmp, h));
            lemma_perturb_twice(w0, l, rw, k as int, T::minus_spec(tmp, h), tmp);
            assert(store_view(w)[l][rw].len() == n);
            assert(w@[l]@[rw]@ == store_view(w)[l][rw]);
        }
        set_entry(w, tgt_layer, tgt_row, k, tmp.minus(h));
        let down = f.eval(w);
        proof {
            assert(store_view(w)[l][rw].len() == n);
            assert(w@[l]@[rw]@ == store_view(w)[l][rw]);
        }
        set_entry(w, tgt_layer, tgt_row, k, tmp);
        assert(tmp == w0[l][rw][k as int]);
        assert(store_view(w) == w0);
        assert(up == f.value(probe_up(w0, l, rw, k as int)));
        assert(down == f.value(probe_down(w0, l, rw, k as int)));
        let a = match up {
            Ok(a) => a,
            Err(e) => {
                assert(!probes_ok(*f, w0, l, rw, k as int));
                return Err(e);
            },
        };
        let b = match down {
            Ok(b) => b,
            Err(e) => {
                assert(!probes_ok(*f, w0, l, rw, k as int));
                return Err(e);
            },
        };
        grad.push(a.minus(b).over(two_h));
    }
    assert(grad@ =~= row_grad(*f, w0, l, rw));
    Ok(grad)
}

} // verus!

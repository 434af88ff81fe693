use vstd::prelude::*;
use crate::gradient::{num_diff, perturb, row_grad, row_ok, set_entry, Objective};
use crate::layer::{loss_spec, mean_squared_error, rectangular, NetError};
use crate::network::{predict, predict_spec, same_shape, store_view, well_formed};
use crate::scalar::Scalar;

verus! {

/// The learning rate, as `RATE_NUM / RATE_DEN`.
pub const RATE_NUM: i64 = 1;

pub const RATE_DEN: i64 = 20;

pub open spec fn rate_spec<T: Scalar>() -> T {
    T::ratio_spec(RATE_NUM as int, RATE_DEN as int)
}

/// The loss of the network's prediction on `x` against the target `t`.
pub open spec fn sample_loss_spec<T: Scalar>(x: Seq<T>, t: Seq<T>, w: Seq<Seq<Seq<T>>>) -> Result<T, NetError> {
    match predict_spec(x, w) {
        Err(e) => Err(e),
        Ok(y) => if y.len() == t.len() {
            Ok(loss_spec(y, t))
        } else {
            Err(NetError::DimensionMismatch)
        },
    }
}

/// The objective of one training sample: the loss of the prediction on `x`
/// against the target `t`, as a function of the weights.
pub struct SampleLoss<'a, T> {
    pub x: &'a Vec<T>,
    pub t: &'a Vec<T>,
}

impl<'a, T: Scalar> Objective<T> for SampleLoss<'a, T> {
    open spec fn value(&self, w: Seq<Seq<Seq<T>>>) -> Result<T, NetError> {
        sample_loss_spec(self.x@, self.t@, w)
    }

    fn eval(&self, w: &Vec<Vec<Vec<T>>>) -> (r: Result<T, NetError>) {
        let y = predict(self.x, w)?;
        mean_squared_error(&y, self.t)
    }
}

/// Row `(l, r)` moved against the gradient `g` by the learning rate.
pub open spec fn apply_row<T: Scalar>(w: Seq<Seq<Seq<T>>>, l: int, r: int, g: Seq<T>) -> Seq<Seq<Seq<T>>> {
    w.update(l, w[l].update(r, Seq::new(w[l][r].len(), |k: int|
        T::minus_spec(w[l][r][k], T::times_spec(rate_spec(), g[k])))))
}

/// The weights after the rows of the layers before `l`, and the first `r`
/// rows of layer `l`, were each estimated and updated in turn, every row
/// seeing the updates of the rows before it.
pub open spec fn run_rows<T: Scalar, F: Objective<T>>(f: F, w: Seq<Seq<Seq<T>>>, l: nat, r: nat) -> Seq<Seq<Seq<T>>>
    decreases l, r,
{
    if r > 0 {
        let v = run_rows(f, w, l, (r - 1) as nat);
        apply_row(v, l as int, r - 1, row_grad(f, v, l as int, r - 1))
    } else if l > 0 && l <= w.len() {
        run_rows(f, w, (l - 1) as nat, w[l - 1].len())
    } else {
        w
    }
}

/// Every row estimated on the way to `run_rows(f, w, l, r)` evaluated without error.
pub open spec fn run_ok<T: Scalar, F: Objective<T>>(f: F, w: Seq<Seq<Seq<T>>>, l: nat, r: nat) -> bool
    decreases l, r,
{
    if r > 0 {
        run_ok(f, w, l, (r - 1) as nat) && row_ok(f, run_rows(f, w, l, (r - 1) as nat), l as int, r - 1)
    } else if l > 0 && l <= w.len() {
        run_ok(f, w, (l - 1) as nat, w[l - 1].len())
    } else {
        true
    }
}

proof fn lemma_same_shape_well_formed<T>(a: Seq<Seq<Seq<T>>>, b: Seq<Seq<Seq<T>>>)
    requires
        same_shape(a, b),
        well_formed(b),
    ensures
        well_formed(a),
{
    assert forall|l: int| 0 <= l < 3 implies #[trigger] rectangular(a[l]) by {
        assert(rectangular(b[l]));
        assert forall|j: int| 0 <= j < a[l].len() implies #[trigger] a[l][j].len() == a[l][0].len() by {
            assert(b[l][j].len() == b[l][0].len());
        }
    }
}

proof fn lemma_run_rows_shape<T: Scalar, F: Objective<T>>(f: F, w: Seq<Seq<Seq<T>>>, l: nat, r: nat)
    requires
        l < w.len() ==> r <= w[l as int].len(),
        l >= w.len() ==> r == 0,
    ensures
        same_shape(run_rows(f, w, l, r), w),
    decreases l, r,
{
    if r > 0 {
        lemma_run_rows_shape(f, w, l, (r - 1) as nat);
        let v = run_rows(f, w, l, (r - 1) as nat);
        let u = apply_row(v, l as int, r - 1, row_grad(f, v, l as int, r - 1));
        assert forall|i: int, j: int| 0 <= i < u.len() && 0 <= j < u[i].len()
            implies #[trigger] u[i][j].len() == w[i][j].len() by {
            assert(v[i][j].len() == w[i][j].len());
        }
    } else if l > 0 && l <= w.len() {
        lemma_run_rows_shape(f, w, (l - 1) as nat, w[l - 1].len());
    }
}

/// Row `(l, r)` with its first `k` entries moved against `g`.
spec fn descend_prefix<T: Scalar>(w: Seq<Seq<Seq<T>>>, l: int, r: int, g: Seq<T>, k: int) -> Seq<T> {
    Seq::new(w[l][r].len(), |j: int|
        if j < k { T::minus_spec(w[l][r][j], T::times_spec(rate_spec(), g[j])) } else { w[l][r][j] })
}

/// Moves row `(l, r)` against the gradient `g` by the learning rate.
fn descend_row<T: Scalar>(w: &mut Vec<Vec<Vec<T>>>, l: usize, r: usize, g: &Vec<T>)
    requires
        l < old(w)@.len(),
        r < old(w)@[l as int]@.len(),
        g@.len() == old(w)@[l as int]@[r as int]@.len(),
    ensures
        store_view(final(w)) == apply_row(store_view(old(w)), l as int, r as int, g@),
{
    let ghost w0 = store_view(w);
    let ghost li = l as int;
    let ghost ri = r as int;
    let rate = T::ratio(RATE_NUM, RATE_DEN);
    let n = g.len();
    assert(descend_prefix(w0, li, ri, g@, 0) =~= w0[li][ri]);
    assert(w0[li].update(ri, w0[li][ri]) =~= w0[li]);
    assert(w0.update(li, w0[li]) =~= w0);
    for k in 0..n
        invariant
            w0 == store_view(old(w)),
            li == l,
            ri == r,
            rate == rate_spec::<T>(),
            n == g@.len(),
            l < w@.len(),
            r < w@[li]@.len(),
            li < w0.len(),
            ri < w0[li].len(),
            w0[li][ri].len() == n,
            store_view(w) == w0.update(li, w0[li].update(ri, descend_prefix(w0, li, ri, g@, k as int))),
    {
        let ghost before = store_view(w);
        assert(before[li][ri] == descend_prefix(w0, li, ri, g@, k as int));
        assert(before[li][ri].len() == n);
        assert(w@[li]@[ri]@ == before[li][ri]);
        let v = w[l][r][k].minus(rate.times(g[k]));
        set_entry(w, l, r, k, v);
        assert(descend_prefix(w0, li, ri, g@, k as int).update(k as int, v) =~= descend_prefix(w0, li, ri, g@, k + 1));
        assert(perturb(before, li, ri, k as int, v) =~~= w0.update(li, w0[li].update(ri, descend_prefix(w0, li, ri, g@, k + 1))));
        assert(store_view(w)[li].len() == w@[li]@.len());
    }
    assert(descend_prefix(w0, li, ri, g@, n as int) =~= apply_row(w0, li, ri, g@)[li][ri]);
    assert(store_view(w) =~~= apply_row(w0, li, ri, g@));
}

proof fn lemma_run_ok_prefix<T: Scalar, F: Objective<T>>(f: F, w: Seq<Seq<Seq<T>>>, l: nat, r: nat, l2: nat, r2: nat)
    requires
        (l < l2 && l2 <= w.len() && r <= w[l as int].len()) || (l == l2 && r <= r2),
        run_ok(f, w, l2, r2),
    ensures
        run_ok(f, w, l, r),
    decreases l2, r2,
{
    if l == l2 && r == r2 {
    } else if r2 > 0 {
        lemma_run_ok_prefix(f, w, l, r, l2, (r2 - 1) as nat);
    } else {
        lemma_run_ok_prefix(f, w, l, r, (l2 - 1) as nat, w[l2 - 1].len());
    }
}

/// The gradients one training step computes: for each row, its estimate on
/// the weights as they stand when the step reaches it.
pub open spec fn step_grads<T: Scalar, F: Objective<T>>(f: F, w: Seq<Seq<Seq<T>>>) -> Seq<Seq<Seq<T>>> {
    Seq::new(w.len(), |l: int| Seq::new(w[l].len(), |r: int|
        row_grad(f, run_rows(f, w, l as nat, r as nat), l, r)))
}

/// One training step on the sample `x` with target `t`: for every row, in
/// layer order and then row order, estimates the loss gradient over that row
/// and at once moves the row against it by the learning rate. Returns the
/// gradients.
pub fn backward<T: Scalar>(x: &Vec<T>, t: &Vec<T>, w: &mut Vec<Vec<Vec<T>>>) -> (r: Result<Vec<Vec<Vec<T>>>, NetError>)
    requires
        well_formed(store_view(old(w))),
    ensures
        same_shape(store_view(final(w)), store_view(old(w))),
        well_formed(store_view(final(w))),
        r is Ok <==> run_ok((SampleLoss { x, t }), store_view(old(w)), 3, 0),
        r is Ok ==> store_view(final(w)) == run_rows((SampleLoss { x, t }), store_view(old(w)), 3, 0),
        r is Ok ==> store_view(&r->Ok_0) == step_grads((SampleLoss { x, t }), store_view(old(w))),
{
    let ghost w0 = store_view(w);
    let f = SampleLoss { x, t };
    let mut grads: Vec<Vec<Vec<T>>> = Vec::new();
    let nl = w.len();
    for i in 0..nl
        invariant
            w0 == store_view(old(w)),
            well_formed(w0),
            f == (SampleLoss { x, t }),
            nl == w0.len(),
            store_view(w) == run_rows(f, w0, i as nat, 0),
            run_ok(f, w0, i as nat, 0),
            grads@.len() == i,
            forall|a: int| 0 <= a < i ==> #[trigger] crate::layer::rows_view(&grads@[a]) == step_grads(f, w0)[a],
    {
        let ghost wi = store_view(w);
        proof {
            lemma_run_rows_shape(f, w0, i as nat, 0);
            assert(store_view(w)[i as int].len() == w0[i as int].len());
            assert(w@[i as int]@.len() == store_view(w)[i as int].len());
        }
        let nr = w[i].len();
        let mut lg: Vec<Vec<T>> = Vec::new();
        for j in 0..nr
            invariant
                w0 == store_view(old(w)),
                well_formed(w0),
                f == (SampleLoss { x, t }),
                nl == w0.len(),
                i < nl,
                nr == w0[i as int].len(),
                store_view(w) == run_rows(f, w0, i as nat, j as nat),
                run_ok(f, w0, i as nat, j as nat),
                lg@.len() == j,
                forall|b: int| 0 <= b < j ==> #[trigger] lg@[b]@ == row_grad(f, run_rows(f, w0, i as nat, b as nat), i as int, b),
        {
            proof {
                lemma_run_rows_shape(f, w0, i as nat, j as nat);
                lemma_same_shape_well_formed(store_view(w), w0);
                assert(store_view(w)[i as int].len() == w0[i as int].len());
                assert(w@[i as int]@.len() == store_view(w)[i as int].len());
            }
            let g = match num_diff(&f, w, i, j) {
                Ok(g) => g,
                Err(e) => {
                    proof {
                        if run_ok(f, w0, 3, 0) {
                            lemma_run_ok_prefix(f, w0, i as nat, (j + 1) as nat, 3, 0);
                        }
                    }
                    return Err(e);
                },
            };
            descend_row(w, i, j, &g);
            lg.push(g);
        }
        grads.push(lg);
        assert(crate::layer::rows_view(&lg) =~= step_grads(f, w0)[i as int]);
    }
    assert(store_view(&grads) =~~= step_grads(f, w0));
    proof {
        lemma_run_rows_shape(f, w0, 3, 0);
        lemma_same_shape_well_formed(store_view(w), w0);
    }
    Ok(grads)
}

/// The weights after a training step on each of the first `n` samples in
/// turn, or the failure of the first step that fails.
pub open spec fn epoch_spec<T: Scalar>(
    xs: Seq<Vec<T>>,
    ts: Seq<Vec<T>>,
    w: Seq<Seq<Seq<T>>>,
    n: nat,
) -> Result<Seq<Seq<Seq<T>>>, NetError>
    decreases n,
{
    if n == 0 {
        Ok(w)
    } else {
        match epoch_spec(xs, ts, w, (n - 1) as nat) {
            Err(e) => Err(e),
            Ok(v) => if run_ok((SampleLoss { x: &xs[n - 1], t: &ts[n - 1] }), v, 3, 0) {
                Ok(run_rows((SampleLoss { x: &xs[n - 1], t: &ts[n - 1] }), v, 3, 0))
            } else {
                Err(NetError::DimensionMismatch)
            },
        }
    }
}

/// One epoch: a training step on every sample, in order, each on the
/// weights the previous one left.
pub fn train_epoch<T: Scalar>(
    input: &Vec<Vec<T>>,
    answer: &Vec<Vec<T>>,
    w: &mut Vec<Vec<Vec<T>>>,
) -> (r: Result<(), NetError>)
    requires
        well_formed(store_view(old(w))),
        input@.len() == answer@.len(),
    ensures
        well_formed(store_view(final(w))),
        same_shape(store_view(final(w)), store_view(old(w))),
        r is Ok <==> epoch_spec(input@, answer@, store_view(old(w)), input@.len()) is Ok,
        r is Ok ==> store_view(final(w)) == epoch_spec(input@, answer@, store_view(old(w)), input@.len())->Ok_0,
{
    let ghost w0 = store_view(w);
    for dt in 0..input.len()
        invariant
            w0 == store_view(old(w)),
            input@.len() == answer@.len(),
            well_formed(store_view(w)),
            same_shape(store_view(w), w0),
            epoch_spec(input@, answer@, w0, dt as nat) == Ok::<Seq<Seq<Seq<T>>>, NetError>(store_view(w)),
    {
        let ghost before = store_view(w);
        let res = backward(&input[dt], &answer[dt], w);
        assert(same_shape(store_view(w), w0)) by {
            assert forall|l: int, r: int| 0 <= l < store_view(w).len() && 0 <= r < store_view(w)[l].len()
                implies #[trigger] store_view(w)[l][r].len() == w0[l][r].len() by {
                assert(before[l][r].len() == w0[l][r].len());
            }
        }
        match res {
            Ok(_) => {},
            Err(e) => {
                if dt + 1 < input.len() {
                    proof {
                        lemma_epoch_err_stays(input@, answer@, w0, (dt + 1) as nat, input@.len());
                    }
                }
                return Err(e);
            },
        }
    }
    Ok(())
}

proof fn lemma_epoch_err_stays<T: Scalar>(
    xs: Seq<Vec<T>>,
    ts: Seq<Vec<T>>,
    w: Seq<Seq<Seq<T>>>,
    m: nat,
    n: nat,
)
    requires
        m <= n,
        epoch_spec(xs, ts, w, m) is Err,
    ensures
        epoch_spec(xs, ts, w, n) is Err,
    decreases n,
{
    if m < n {
        lemma_epoch_err_stays(xs, ts, w, m, (n - 1) as nat);
    }
}

/// Whether the epoch numbered `epoch` (counting from one) reports its
/// progress: when it is a multiple of the interval, an interval of zero
/// counting as one.
pub fn report_due(epoch: usize, interval: usize) -> (r: bool)
    ensures
        r == (epoch % (if interval == 0 { 1 } else { interval }) == 0),
{
    let every: usize = if interval == 0 { 1 } else { interval };
    epoch % every == 0
}

/// Runs the network on every sample of `input`, in order.
pub fn infer<T: Scalar>(input: &Vec<Vec<T>>, w: &Vec<Vec<Vec<T>>>) -> (r: Result<Vec<Vec<T>>, NetError>)
    requires
        well_formed(store_view(w)),
    ensures
        r is Ok <==> forall|i: int| 0 <= i < input@.len() ==> #[trigger] predict_spec(input@[i]@, store_view(w)) is Ok,
        r is Ok ==> r->Ok_0@.len() == input@.len(),
        r is Ok ==> forall|i: int| 0 <= i < input@.len() ==>
            predict_spec(input@[i]@, store_view(w)) == Ok::<Seq<T>, NetError>(#[trigger] r->Ok_0@[i]@),
{
    let mut out: Vec<Vec<T>> = Vec::new();
    for i in 0..input.len()
        invariant
            well_formed(store_view(w)),
            out@.len() == i,
            forall|j: int| 0 <= j < i ==> #[trigger] predict_spec(input@[j]@, store_view(w)) == Ok::<Seq<T>, NetError>(out@[j]@),
    {
        match crate::network::forward(&input[i], w) {
            Ok(y) => out.push(y),
            Err(e) => {
                assert(predict_spec(input@[i as int]@, store_view(w)) is Err);
                return Err(e);
            },
        }
    }
    Ok(out)
}

} // verus!

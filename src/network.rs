use vstd::prelude::*;
use crate::layer::{
    dot, dot_seq, fits, rectangular, relu, relu_seq, rows_view, NetError,
};
use crate::scalar::Scalar;

verus! {

/// A weight store as nested sequences: layers, rows, entries.
pub open spec fn store_view<T>(w: &Vec<Vec<Vec<T>>>) -> Seq<Seq<Seq<T>>> {
    w@.map_values(|l: Vec<Vec<T>>| rows_view(&l))
}

/// Exactly three layers, each of rows of one length.
pub open spec fn well_formed<T>(w: Seq<Seq<Seq<T>>>) -> bool {
    &&& w.len() == 3
    &&& forall|l: int| 0 <= l < 3 ==> #[trigger] rectangular(w[l])
}

/// Two weight stores with the same layers, rows and row lengths.
pub open spec fn same_shape<T>(a: Seq<Seq<Seq<T>>>, b: Seq<Seq<Seq<T>>>) -> bool {
    &&& a.len() == b.len()
    &&& forall|l: int| 0 <= l < a.len() ==> #[trigger] a[l].len() == b[l].len()
    &&& forall|l: int, r: int|
        0 <= l < a.len() && 0 <= r < a[l].len() ==> #[trigger] a[l][r].len() == b[l][r].len()
}

/// One linear transform, failing where the input does not fit the layer.
pub open spec fn transform<T: Scalar>(x: Seq<T>, w: Seq<Seq<T>>) -> Result<Seq<T>, NetError> {
    if fits(x, w) {
        Ok(dot_seq(x, w))
    } else {
        Err(NetError::DimensionMismatch)
    }
}

/// The network's output on `x`: two transforms each followed by the
/// activation, then a final transform without it.
pub open spec fn predict_spec<T: Scalar>(x: Seq<T>, w: Seq<Seq<Seq<T>>>) -> Result<Seq<T>, NetError> {
    match transform(x, w[0]) {
        Err(e) => Err(e),
        Ok(a1) => match transform(relu_seq(a1), w[1]) {
            Err(e) => Err(e),
            Ok(a2) => transform(relu_seq(a2), w[2]),
        },
    }
}

proof fn lemma_rows_of_layer<T>(w: &Vec<Vec<Vec<T>>>, l: int)
    requires
        0 <= l < w@.len(),
    ensures
        rows_view(&w@[l]) == store_view(w)[l],
{
}

/// Runs the network on the sample `x`.
pub fn predict<T: Scalar>(x: &Vec<T>, w: &Vec<Vec<Vec<T>>>) -> (r: Result<Vec<T>, NetError>)
    requires
        well_formed(store_view(w)),
    ensures
        match r {
            Ok(v) => predict_spec(x@, store_view(w)) == Ok::<Seq<T>, NetError>(v@),
            Err(e) => predict_spec(x@, store_view(w)) == Err::<Seq<T>, NetError>(e),
        },
{
    proof {
        lemma_rows_of_layer(w, 0);
        lemma_rows_of_layer(w, 1);
        lemma_rows_of_layer(w, 2);
        assert(rectangular(store_view(w)[0]));
        assert(rectangular(store_view(w)[1]));
        assert(rectangular(store_view(w)[2]));
    }
    let x1 = dot(x, &w[0])?;
    let z1 = relu(&x1);
    let x2 = dot(&z1, &w[1])?;
    let z2 = relu(&x2);
    dot(&z2, &w[2])
}

/// Runs the network on the sample `x`; the inference entry point.
pub fn forward<T: Scalar>(x: &Vec<T>, w: &Vec<Vec<Vec<T>>>) -> (r: Result<Vec<T>, NetError>)
    requires
        well_formed(store_view(w)),
    ensures
        match r {
            Ok(v) => predict_spec(x@, store_view(w)) == Ok::<Seq<T>, NetError>(v@),
            Err(e) => predict_spec(x@, store_view(w)) == Err::<Seq<T>, NetError>(e),
        },
{
    predict(x, w)
}

} // verus!

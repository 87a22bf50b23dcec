use vstd::prelude::*;
use crate::residuals::{initial_context, ResidualCalculation, ResidualTrait, RContext};

verus! {

/// Every pair of the two streams, up to the shorter one's end, has a `Shifted` residual
/// under a fresh context with the given cut.
pub open spec fn shifted_residuals_defined(cut: u32, data: Seq<u32>, pred: Seq<u32>) -> bool {
    forall|i: int|
        0 <= i < data.len() && i < pred.len() ==> ResidualCalculation::Shifted.residual_defined(
            #[trigger] data[i],
            pred[i],
            initial_context(cut),
        )
}

/// The `Shifted` residual of each true value against its prediction, pair by pair, up to
/// the shorter stream's end; the context is never updated.
pub fn calculate_shifted_residuals(cut: u32, data: &[u32], pred: &[u32]) -> (diff: Vec<u32>)
    requires
        shifted_residuals_defined(cut, data@, pred@),
    ensures
        diff.len() == if data.len() <= pred.len() {
            data.len()
        } else {
            pred.len()
        },
        forall|i: int|
            0 <= i < diff.len() ==> diff[i] == ResidualCalculation::Shifted.residual_of(
                data[i],
                pred[i],
                initial_context(cut),
            ),
{
    let mut rctx = RContext::new(cut);
    let r = ResidualCalculation::Shifted;
    let n: usize = if data.len() <= pred.len() {
        data.len()
    } else {
        pred.len()
    };
    let mut diff: Vec<u32> = Vec::new();
    let mut i: usize = 0;
    while i < n
        invariant
            n <= data.len(),
            n <= pred.len(),
            i <= n,
            rctx == initial_context(cut),
            r == ResidualCalculation::Shifted,
            shifted_residuals_defined(cut, data@, pred@),
            diff.len() == i,
            forall|j: int|
                0 <= j < i ==> diff[j] == ResidualCalculation::Shifted.residual_of(
                    data[j],
                    pred[j],
                    initial_context(cut),
                ),
        decreases n - i,
    {
        let t = data[i];
        let p = pred[i];
        let v = r.residual(t, p, &mut rctx);
        diff.push(v);
        i += 1;
    }
    diff
}

/// Whether `calculate_shifted_residuals` is defined on these streams.
pub fn shifted_residuals_fit(cut: u32, data: &[u32], pred: &[u32]) -> (b: bool)
    ensures
        b == shifted_residuals_defined(cut, data@, pred@),
{
    let rctx = RContext::new(cut);
    let r = ResidualCalculation::Shifted;
    let mut i: usize = 0;
    while i < data.len() && i < pred.len()
        invariant
            rctx == initial_context(cut),
            r == ResidualCalculation::Shifted,
            i <= data.len(),
            forall|j: int|
                0 <= j < i && j < data.len() && j < pred.len()
                    ==> ResidualCalculation::Shifted.residual_defined(
                    #[trigger] data[j],
                    pred[j],
                    initial_context(cut),
                ),
        decreases data.len() - i,
    {
        if !r.residual_fits(data[i], pred[i], &rctx) {
            return false;
        }
        i += 1;
    }
    true
}

} // verus!

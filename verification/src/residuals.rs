use vstd::prelude::*;
use vstd::std_specs::bits::{u32_leading_zeros, axiom_u32_leading_zeros};

verus! {

/// `0b1010...10`: alternating bits starting with a one at the top.
pub const ONE_ZERO_U32: u32 = 2863311530;
/// `0b0101...01`: alternating bits starting with a zero at the top.
pub const ZERO_ONE_U32: u32 = 1431655765;
/// `0b1100...1100`: pairs of bits, used as the goal's low part by the Gray variant.
pub const GRAY_ONE_ZERO_U32: u32 = 3435973836;
/// `0b0011...0011`: pairs of bits, used as the goal's low part by the Gray variant.
pub const GRAY_ZERO_ONE_U32: u32 = 858993459;

/// State carried from one value to the next while residuals are computed.
#[derive(Debug)]
pub struct RContext {
    /// Number of low bits that the shifted variants rewrite.
    pub cut: u32,
    /// The last true value seen by `update`.
    pub truth: u32,
    /// The last prediction seen by `update`.
    pub prediction: u32,
    /// Whether, at the last `update`, the prediction was below the true value.
    pub prediction_too_low: bool,
}

/// The context in which residuals start: the given cut, everything else zero.
pub open spec fn initial_context(cut: u32) -> RContext {
    RContext { cut: cut, truth: 0, prediction: 0, prediction_too_low: false }
}

impl RContext {
    pub fn new(cut: u32) -> (ctx: Self)
        ensures
            ctx == initial_context(cut),
    {
        RContext { cut: cut, truth: 0, prediction: 0, prediction_too_low: false }
    }
}

// ----- shift goals -----

/// Whether bit `i` of `num` is set.
pub open spec fn bit_set(num: u32, i: u32) -> bool {
    (num >> i) & 1 == 1
}

/// `num` with its `cut` low bits cleared.
pub open spec fn high_part(num: u32, cut: u32) -> u32 {
    (num >> cut) << cut
}

/// The `cut` low bits that continue, downwards, the alternation started by bit `cut` of `num`.
pub open spec fn alternating_tail(num: u32, cut: u32) -> u32 {
    if bit_set(num, cut) {
        ZERO_ONE_U32 >> ((32 - cut) as u32)
    } else {
        ONE_ZERO_U32 >> ((32 - cut) as u32)
    }
}

/// The value toward which the shifted variants move `num`: its bits above `cut` kept,
/// the bits below alternating.
pub open spec fn shift_goal(num: u32, cut: u32) -> int {
    high_part(num, cut) + alternating_tail(num, cut)
}

/// The goal of the Gray variant: `num`'s bits above `cut` plus a whole-word bit-pair pattern.
pub open spec fn gray_goal(num: u32, cut: u32) -> int {
    high_part(num, cut) + if bit_set(num, cut) {
        GRAY_ZERO_ONE_U32
    } else {
        GRAY_ONE_ZERO_U32
    }
}

/// Direction (`true`: add) and distance that carry `num` to `goal`; at `goal` itself the
/// direction is `up_on_tie`.
pub open spec fn shift_toward(num: u32, goal: int, up_on_tie: bool) -> (bool, u32) {
    (
        num < goal || (up_on_tie && num == goal),
        (if num <= goal { goal - num } else { num - goal }) as u32,
    )
}

pub open spec fn cut_in_range(cut: u32) -> bool {
    1 <= cut <= 31
}

pub open spec fn shift_spec(num: u32, cut: u32) -> (bool, u32) {
    shift_toward(num, shift_goal(num, cut), bit_set(num, cut))
}

pub open spec fn gray_defined(num: u32, cut: u32) -> bool {
    cut < 32 && gray_goal(num, cut) <= u32::MAX
}

pub open spec fn shift_gray_spec(num: u32, cut: u32) -> (bool, u32) {
    shift_toward(num, gray_goal(num, cut), bit_set(num, cut))
}

/// Computes how `num` is moved onto its goal (see `shift_goal`).
pub fn shift_calculation(num: u32, rctx: &mut RContext) -> (res: (bool, u32))
    requires
        cut_in_range(old(rctx).cut),
    ensures
        res == shift_spec(num, old(rctx).cut),
        *final(rctx) == *old(rctx),
{
    let bits: u32 = 32;
    let cut = rctx.cut;
    let base = (num >> cut) << cut;
    let last_value = (num >> cut) & 1;
    let width: u32 = bits - cut;
    if last_value == 1 {
        let delta = ZERO_ONE_U32 >> width;
        assert(((num >> cut) << cut) + (1431655765u32 >> width) <= 0xffff_ffffu32) by (bit_vector)
            requires
                1 <= cut <= 31,
                width == 32 - cut,
        ;
        let goal = base + delta;
        let shift = num.max(goal) - num.min(goal);
        (num <= goal, shift)
    } else {
        let delta = ONE_ZERO_U32 >> width;
        assert(((num >> cut) << cut) + (2863311530u32 >> width) <= 0xffff_ffffu32) by (bit_vector)
            requires
                1 <= cut <= 31,
                width == 32 - cut,
        ;
        let goal = base + delta;
        let shift = num.max(goal) - num.min(goal);
        (num < goal, shift)
    }
}

/// Computes how `num` is moved onto its Gray-variant goal (see `gray_goal`).
pub fn shift_calculation_gray(num: u32, rctx: &mut RContext) -> (res: (bool, u32))
    requires
        gray_defined(num, old(rctx).cut),
    ensures
        res == shift_gray_spec(num, old(rctx).cut),
        *final(rctx) == *old(rctx),
{
    let cut = rctx.cut;
    let base = (num >> cut) << cut;
    let last_value = (num >> cut) & 1;
    if last_value == 1 {
        let delta = GRAY_ZERO_ONE_U32;
        let goal = base + delta;
        let shift = num.max(goal) - num.min(goal);
        (num <= goal, shift)
    } else {
        let delta = GRAY_ONE_ZERO_U32;
        let goal = base + delta;
        let shift = num.max(goal) - num.min(goal);
        (num < goal, shift)
    }
}

// ----- applying a shift -----

/// `num` moved up (`sign`) or down by `delta`, as an integer.
pub open spec fn shifted(num: u32, sign: bool, delta: u32) -> int {
    if sign {
        num + delta
    } else {
        num - delta
    }
}

pub open spec fn shift_fits(num: u32, sign: bool, delta: u32) -> bool {
    0 <= shifted(num, sign, delta) <= u32::MAX
}

/// Moves `num` up (`sign`) or down by `delta`.
pub fn apply_shift(num: u32, sign: bool, delta: u32) -> (r: u32)
    requires
        shift_fits(num, sign, delta),
    ensures
        r == shifted(num, sign, delta),
{
    if sign {
        let result = num + delta;
        result
    } else {
        let result = num - delta;
        result
    }
}


// ----- residual transforms -----

/// Residual of the shifted variants: prediction and truth both moved by `sh`, then XOR-ed.
pub open spec fn shifted_residual(truth: u32, prediction: u32, sh: (bool, u32)) -> u32 {
    (shifted(prediction, sh.0, sh.1) as u32) ^ (shifted(truth, sh.0, sh.1) as u32)
}

pub open spec fn shifted_residual_fits(truth: u32, prediction: u32, sh: (bool, u32)) -> bool {
    shift_fits(prediction, sh.0, sh.1) && shift_fits(truth, sh.0, sh.1)
}

/// Inverse of `shifted_residual`: XOR with the moved prediction, then move back.
pub open spec fn shifted_truth(residual: u32, prediction: u32, sh: (bool, u32)) -> u32 {
    shifted(residual ^ (shifted(prediction, sh.0, sh.1) as u32), !sh.0, sh.1) as u32
}

pub open spec fn shifted_truth_fits(residual: u32, prediction: u32, sh: (bool, u32)) -> bool {
    shift_fits(prediction, sh.0, sh.1) && shift_fits(
        residual ^ (shifted(prediction, sh.0, sh.1) as u32),
        !sh.0,
        sh.1,
    )
}

/// The cut chosen by the LZC variant: the bit length of `truth ^ prediction`, at least 4.
pub open spec fn lzc_cut(truth: u32, prediction: u32) -> u32 {
    let len = 32 - u32_leading_zeros(truth ^ prediction);
    if len < 4 {
        4
    } else {
        len as u32
    }
}

/// A transform between a true value and its prediction, which yields a residual from
/// which the true value can be recovered.
pub trait ResidualTrait {
    /// Whether `residual` can compute on these inputs without overflow.
    spec fn residual_defined(&self, truth: u32, prediction: u32, rctx: RContext) -> bool;

    /// What `residual` returns.
    spec fn residual_of(&self, truth: u32, prediction: u32, rctx: RContext) -> u32;

    /// Whether `truth` can compute on these inputs without overflow.
    spec fn truth_defined(&self, residual: u32, prediction: u32, rctx: RContext) -> bool;

    /// What `truth` returns.
    spec fn truth_of(&self, residual: u32, prediction: u32, rctx: RContext) -> u32;

    /// The context after `update`.
    spec fn updated(&self, truth: u32, prediction: u32, rctx: RContext) -> RContext;

    fn residual(&self, truth: u32, prediction: u32, rctx: &mut RContext) -> (r: u32)
        requires
            self.residual_defined(truth, prediction, *old(rctx)),
        ensures
            r == self.residual_of(truth, prediction, *old(rctx)),
            *final(rctx) == *old(rctx),
    ;

    fn truth(&self, residual: u32, prediction: u32, rctx: &mut RContext) -> (t: u32)
        requires
            self.truth_defined(residual, prediction, *old(rctx)),
        ensures
            t == self.truth_of(residual, prediction, *old(rctx)),
            *final(rctx) == *old(rctx),
    ;

    fn update(&self, truth: u32, prediction: u32, rctx: &mut RContext)
        ensures
            *final(rctx) == self.updated(truth, prediction, *old(rctx)),
    ;
}

/// The residual transforms.
#[derive(Debug)]
pub enum ResidualCalculation {
    /// `truth ^ prediction`.
    ExclusiveOR,
    /// Both values moved by the shift that carries the prediction onto its alternating
    /// goal (`shift_goal`), then XOR-ed.
    Shifted,
    /// As `Shifted`; `update` sets the cut from the last XOR's bit length.
    ShiftedLZC,
    /// As `Shifted`, with the bit-pair goal of `gray_goal`.
    ShiftedGray,
    /// The absolute difference; `truth` takes the sign from the context.
    Diff,
}

impl ResidualTrait for ResidualCalculation {
    open spec fn residual_defined(&self, truth: u32, prediction: u32, rctx: RContext) -> bool {
        match self {
            ResidualCalculation::ExclusiveOR => true,
            ResidualCalculation::Shifted | ResidualCalculation::ShiftedLZC => {
                cut_in_range(rctx.cut) && shifted_residual_fits(
                    truth,
                    prediction,
                    shift_spec(prediction, rctx.cut),
                )
            },
            ResidualCalculation::ShiftedGray => {
                gray_defined(prediction, rctx.cut) && shifted_residual_fits(
                    truth,
                    prediction,
                    shift_gray_spec(prediction, rctx.cut),
                )
            },
            ResidualCalculation::Diff => true,
        }
    }

    open spec fn residual_of(&self, truth: u32, prediction: u32, rctx: RContext) -> u32 {
        match self {
            ResidualCalculation::ExclusiveOR => truth ^ prediction,
            ResidualCalculation::Shifted | ResidualCalculation::ShiftedLZC => {
                shifted_residual(truth, prediction, shift_spec(prediction, rctx.cut))
            },
            ResidualCalculation::ShiftedGray => {
                shifted_residual(truth, prediction, shift_gray_spec(prediction, rctx.cut))
            },
            ResidualCalculation::Diff => (if prediction >= truth {
                prediction - truth
            } else {
                truth - prediction
            }) as u32,
        }
    }

    open spec fn truth_defined(&self, residual: u32, prediction: u32, rctx: RContext) -> bool {
        match self {
            ResidualCalculation::ExclusiveOR => true,
            ResidualCalculation::Shifted | ResidualCalculation::ShiftedLZC => {
                cut_in_range(rctx.cut) && shifted_truth_fits(
                    residual,
                    prediction,
                    shift_spec(prediction, rctx.cut),
                )
            },
            ResidualCalculation::ShiftedGray => {
                gray_defined(prediction, rctx.cut) && shifted_truth_fits(
                    residual,
                    prediction,
                    shift_gray_spec(prediction, rctx.cut),
                )
            },
            ResidualCalculation::Diff => shift_fits(prediction, rctx.prediction_too_low, residual),
        }
    }

    open spec fn truth_of(&self, residual: u32, prediction: u32, rctx: RContext) -> u32 {
        match self {
            ResidualCalculation::ExclusiveOR => residual ^ prediction,
            ResidualCalculation::Shifted | ResidualCalculation::ShiftedLZC => {
                shifted_truth(residual, prediction, shift_spec(prediction, rctx.cut))
            },
            ResidualCalculation::ShiftedGray => {
                shifted_truth(residual, prediction, shift_gray_spec(prediction, rctx.cut))
            },
            ResidualCalculation::Diff => shifted(
                prediction,
                rctx.prediction_too_low,
                residual,
            ) as u32,
        }
    }

    open spec fn updated(&self, truth: u32, prediction: u32, rctx: RContext) -> RContext {
        RContext {
            cut: match self {
                ResidualCalculation::ShiftedLZC => lzc_cut(truth, prediction),
                _ => rctx.cut,
            },
            truth: truth,
            prediction: prediction,
            prediction_too_low: match self {
                ResidualCalculation::Diff => prediction < truth,
                _ => rctx.prediction_too_low,
            },
        }
    }

    fn residual(&self, truth: u32, prediction: u32, rctx: &mut RContext) -> (r: u32) {
        match self {
            ResidualCalculation::ExclusiveOR => {
                let result = truth ^ prediction;
                result
            },
            ResidualCalculation::Shifted => {
                let (add, shift) = shift_calculation(prediction, rctx);
                let shifted_prediction = apply_shift(prediction, add, shift);
                let shifted_truth = apply_shift(truth, add, shift);
                shifted_prediction ^ shifted_truth
            },
            ResidualCalculation::ShiftedGray => {
                let (add, shift) = shift_calculation_gray(prediction, rctx);
                let shifted_prediction = apply_shift(prediction, add, shift);
                let shifted_truth = apply_shift(truth, add, shift);
                shifted_prediction ^ shifted_truth
            },
            ResidualCalculation::ShiftedLZC => {
                let (add, shift) = shift_calculation(prediction, rctx);
                let shifted_prediction = apply_shift(prediction, add, shift);
                let shifted_truth = apply_shift(truth, add, shift);
                shifted_prediction ^ shifted_truth
            },
            ResidualCalculation::Diff => { prediction.max(truth) - prediction.min(truth) },
        }
    }

    fn truth(&self, residual: u32, prediction: u32, rctx: &mut RContext) -> (t: u32) {
        match self {
            ResidualCalculation::ExclusiveOR => residual ^ prediction,
            ResidualCalculation::Shifted => {
                let (add, shift) = shift_calculation(prediction, rctx);
                let shifted_prediction = apply_shift(prediction, add, shift);
                let shifted_truth = residual ^ shifted_prediction;
                let truth = apply_shift(shifted_truth, !add, shift);
                truth
            },
            ResidualCalculation::ShiftedGray => {
                let (add, shift) = shift_calculation_gray(prediction, rctx);
                let shifted_prediction = apply_shift(prediction, add, shift);
                let shifted_truth = residual ^ shifted_prediction;
                let truth = apply_shift(shifted_truth, !add, shift);
                truth
            },
            ResidualCalculation::ShiftedLZC => {
                let (add, shift) = shift_calculation(prediction, rctx);
                let shifted_prediction = apply_shift(prediction, add, shift);
                let shifted_truth = residual ^ shifted_prediction;
                let truth = apply_shift(shifted_truth, !add, shift);
                truth
            },
            ResidualCalculation::Diff => {
                if rctx.prediction_too_low {
                    prediction + residual
                } else {
                    prediction - residual
                }
            },
        }
    }

    fn update(&self, truth: u32, prediction: u32, rctx: &mut RContext) {
        rctx.prediction = prediction;
        rctx.truth = truth;
        match self {
            ResidualCalculation::ExclusiveOR => {},
            ResidualCalculation::Shifted => {},
            ResidualCalculation::ShiftedGray => {},
            ResidualCalculation::ShiftedLZC => {
                let x = truth ^ prediction;
                proof {
                    axiom_u32_leading_zeros(x);
                }
                let new_cut = 32 - x.leading_zeros();
                rctx.cut = new_cut.max(4);
            },
            ResidualCalculation::Diff => {
                rctx.prediction_too_low = prediction < truth;
            },
        }
    }
}

/// Whether `num` can be moved up (`sign`) or down by `delta` within `u32`.
fn shift_in_range(num: u32, sign: bool, delta: u32) -> (b: bool)
    ensures
        b == shift_fits(num, sign, delta),
{
    if sign {
        num <= u32::MAX - delta
    } else {
        num >= delta
    }
}

impl ResidualCalculation {
    /// Whether `residual` is defined on these inputs (see `ResidualTrait::residual_defined`).
    pub fn residual_fits(&self, truth: u32, prediction: u32, rctx: &RContext) -> (b: bool)
        ensures
            b == self.residual_defined(truth, prediction, *rctx),
    {
        let mut scratch = RContext {
            cut: rctx.cut,
            truth: rctx.truth,
            prediction: rctx.prediction,
            prediction_too_low: rctx.prediction_too_low,
        };
        match self {
            ResidualCalculation::ExclusiveOR => true,
            ResidualCalculation::Shifted | ResidualCalculation::ShiftedLZC => {
                if rctx.cut < 1 || rctx.cut > 31 {
                    return false;
                }
                let (add, shift) = shift_calculation(prediction, &mut scratch);
                shift_in_range(prediction, add, shift) && shift_in_range(truth, add, shift)
            },
            ResidualCalculation::ShiftedGray => {
                if rctx.cut >= 32 {
                    return false;
                }
                let cut = rctx.cut;
                let base = (prediction >> cut) << cut;
                let delta = if (prediction >> cut) & 1 == 1 {
                    GRAY_ZERO_ONE_U32
                } else {
                    GRAY_ONE_ZERO_U32
                };
                if base > u32::MAX - delta {
                    return false;
                }
                let (add, shift) = shift_calculation_gray(prediction, &mut scratch);
                shift_in_range(prediction, add, shift) && shift_in_range(truth, add, shift)
            },
            ResidualCalculation::Diff => true,
        }
    }
}

// ----- laws -----

proof fn lemma_xor_cancel(a: u32, b: u32)
    ensures
        (a ^ b) ^ a == b,
        (a ^ b) ^ b == a,
        a ^ a == 0,
{
    assert((a ^ b) ^ a == b) by (bit_vector);
    assert((a ^ b) ^ b == a) by (bit_vector);
    assert(a ^ a == 0) by (bit_vector);
}

/// A shift adds `delta` when `sign` is set and subtracts it otherwise; moving a value by a
/// shift and then back by the opposite shift gives the value again.
pub proof fn lemma_apply_shift_inverse(num: u32, sign: bool, delta: u32)
    requires
        shift_fits(num, sign, delta),
    ensures
        sign ==> shifted(num, sign, delta) == num + delta,
        !sign ==> shifted(num, sign, delta) == num - delta,
        shift_fits(shifted(num, sign, delta) as u32, !sign, delta),
        shifted(shifted(num, sign, delta) as u32, !sign, delta) == num,
{
}

/// The shift of `shift_calculation` carries `num` exactly onto its goal; the goal fits in
/// a `u32`, keeps `num`'s bits above `cut`, and is those bits OR-ed with the alternating tail.
pub proof fn lemma_shift_reaches_goal(num: u32, cut: u32)
    requires
        cut_in_range(cut),
    ensures
        shift_goal(num, cut) <= u32::MAX,
        shift_fits(num, shift_spec(num, cut).0, shift_spec(num, cut).1),
        shifted(num, shift_spec(num, cut).0, shift_spec(num, cut).1) == shift_goal(num, cut),
        shift_goal(num, cut) == high_part(num, cut) | alternating_tail(num, cut),
        (shift_goal(num, cut) as u32) >> cut == num >> cut,
{
    let width: u32 = (32 - cut) as u32;
    assert(((num >> cut) << cut) + (1431655765u32 >> width) <= 0xffff_ffffu32
        && ((num >> cut) << cut) + (1431655765u32 >> width) == ((num >> cut) << cut) | (
    1431655765u32 >> width) && ((((num >> cut) << cut) | (1431655765u32 >> width)) >> cut) == num
        >> cut) by (bit_vector)
        requires
            1 <= cut <= 31,
            width == 32 - cut,
    ;
    assert(((num >> cut) << cut) + (2863311530u32 >> width) <= 0xffff_ffffu32
        && ((num >> cut) << cut) + (2863311530u32 >> width) == ((num >> cut) << cut) | (
    2863311530u32 >> width) && ((((num >> cut) << cut) | (2863311530u32 >> width)) >> cut) == num
        >> cut) by (bit_vector)
        requires
            1 <= cut <= 31,
            width == 32 - cut,
    ;
}

/// The Gray shift carries `num` exactly onto its Gray goal.
pub proof fn lemma_gray_shift_reaches_goal(num: u32, cut: u32)
    requires
        gray_defined(num, cut),
    ensures
        shift_fits(num, shift_gray_spec(num, cut).0, shift_gray_spec(num, cut).1),
        shifted(num, shift_gray_spec(num, cut).0, shift_gray_spec(num, cut).1) == gray_goal(
            num,
            cut,
        ),
{
}

/// A step of the transform can be undone: the residual is defined, and for `Diff` the
/// context records on which side of the true value the prediction lies.
pub open spec fn step_invertible(
    calc: ResidualCalculation,
    truth: u32,
    prediction: u32,
    rctx: RContext,
) -> bool {
    &&& calc.residual_defined(truth, prediction, rctx)
    &&& (calc is Diff ==> (rctx.prediction_too_low == (prediction < truth) || prediction
        == truth))
}

/// `truth` undoes `residual`: from the residual of a true value and the same prediction
/// and context, `truth` recovers the true value.
pub proof fn lemma_truth_inverts_residual(
    calc: ResidualCalculation,
    truth: u32,
    prediction: u32,
    rctx: RContext,
)
    requires
        step_invertible(calc, truth, prediction, rctx),
    ensures
        calc.truth_defined(calc.residual_of(truth, prediction, rctx), prediction, rctx),
        calc.truth_of(calc.residual_of(truth, prediction, rctx), prediction, rctx) == truth,
{
    match calc {
        ResidualCalculation::ExclusiveOR => {
            lemma_xor_cancel(truth, prediction);
        },
        ResidualCalculation::Shifted | ResidualCalculation::ShiftedLZC => {
            let sh = shift_spec(prediction, rctx.cut);
            let sp = shifted(prediction, sh.0, sh.1) as u32;
            let st = shifted(truth, sh.0, sh.1) as u32;
            lemma_xor_cancel(sp, st);
        },
        ResidualCalculation::ShiftedGray => {
            let sh = shift_gray_spec(prediction, rctx.cut);
            let sp = shifted(prediction, sh.0, sh.1) as u32;
            let st = shifted(truth, sh.0, sh.1) as u32;
            lemma_xor_cancel(sp, st);
        },
        ResidualCalculation::Diff => {},
    }
}

/// An exact prediction gives a zero residual.
pub proof fn lemma_exact_prediction_zero_residual(
    calc: ResidualCalculation,
    value: u32,
    rctx: RContext,
)
    requires
        calc.residual_defined(value, value, rctx),
    ensures
        calc.residual_of(value, value, rctx) == 0,
{
    match calc {
        ResidualCalculation::ExclusiveOR => {
            lemma_xor_cancel(value, value);
        },
        ResidualCalculation::Shifted | ResidualCalculation::ShiftedLZC => {
            let sh = shift_spec(value, rctx.cut);
            lemma_xor_cancel(shifted(value, sh.0, sh.1) as u32, 0);
        },
        ResidualCalculation::ShiftedGray => {
            let sh = shift_gray_spec(value, rctx.cut);
            lemma_xor_cancel(shifted(value, sh.0, sh.1) as u32, 0);
        },
        ResidualCalculation::Diff => {},
    }
}

/// After a `ShiftedLZC` update the cut is the bit length of `truth ^ prediction`, raised
/// to at least 4: no bit of the XOR is set at or above the cut, and unless the cut is the
/// minimum 4, the bit just below it is set.
pub proof fn lemma_lzc_cut_is_bit_length(truth: u32, prediction: u32, rctx: RContext)
    ensures
        4 <= ResidualCalculation::ShiftedLZC.updated(truth, prediction, rctx).cut <= 32,
        ResidualCalculation::ShiftedLZC.updated(truth, prediction, rctx).cut < 32 ==> (truth
            ^ prediction) >> ResidualCalculation::ShiftedLZC.updated(truth, prediction, rctx).cut
            == 0,
        ResidualCalculation::ShiftedLZC.updated(truth, prediction, rctx).cut > 4 ==> ((truth
            ^ prediction) >> ((ResidualCalculation::ShiftedLZC.updated(
            truth,
            prediction,
            rctx,
        ).cut - 1) as u32)) & 1 == 1,
{
    let x = truth ^ prediction;
    let c = ResidualCalculation::ShiftedLZC.updated(truth, prediction, rctx).cut;
    axiom_u32_leading_zeros(x);
    let lz = u32_leading_zeros(x);
    let len: u32 = (32 - lz) as u32;
    assert(x >> len == 0);
    if 32 - lz < 4 {
        assert(c == 4);
        assert(x >> 4u32 == 0) by (bit_vector)
            requires
                x >> len == 0,
                len < 4,
        ;
    } else {
        assert(c == len);
        if c > 4 {
            let below: u32 = (31 - lz) as u32;
            assert((x >> below) & 1 != 0);
            assert((x >> below) & 1 == 1) by (bit_vector)
                requires
                    (x >> below) & 1 != 0,
            ;
        }
    }
}

/// The XOR residual is the bitwise XOR: each bit of the residual is set exactly when the
/// true value and the prediction differ in it, and each bit of the recovered value is set
/// exactly when the residual and the prediction differ in it.
pub proof fn lemma_xor_residual_bitwise(
    truth: u32,
    prediction: u32,
    residual: u32,
    rctx: RContext,
    i: u32,
)
    requires
        i < 32,
    ensures
        ((ResidualCalculation::ExclusiveOR.residual_of(truth, prediction, rctx) >> i) & 1 == 1)
            == (((truth >> i) & 1 == 1) != ((prediction >> i) & 1 == 1)),
        ((ResidualCalculation::ExclusiveOR.truth_of(residual, prediction, rctx) >> i) & 1 == 1)
            == (((residual >> i) & 1 == 1) != ((prediction >> i) & 1 == 1)),
{
    let r = ResidualCalculation::ExclusiveOR.residual_of(truth, prediction, rctx);
    let t = ResidualCalculation::ExclusiveOR.truth_of(residual, prediction, rctx);
    assert(((r >> i) & 1 == 1) == (((truth >> i) & 1 == 1) != ((prediction >> i) & 1 == 1)))
        by (bit_vector)
        requires
            r == truth ^ prediction,
            i < 32,
    ;
    assert(((t >> i) & 1 == 1) == (((residual >> i) & 1 == 1) != ((prediction >> i) & 1 == 1)))
        by (bit_vector)
        requires
            t == residual ^ prediction,
            i < 32,
    ;
}

/// The goal of the plain shift keeps `num`'s bits from `cut` up, and below `cut` its bits
/// alternate, each differing from the one above it (so bit `cut - 1` is the opposite of
/// bit `cut` of `num`). The shift carries `num` onto that goal.
pub proof fn lemma_shift_goal_alternates(num: u32, cut: u32, i: u32)
    requires
        1 <= cut <= 31,
        i < cut,
    ensures
        0 <= shifted(num, shift_spec(num, cut).0, shift_spec(num, cut).1) <= u32::MAX,
        (shifted(num, shift_spec(num, cut).0, shift_spec(num, cut).1) as u32) >> cut == num
            >> cut,
        (((shifted(num, shift_spec(num, cut).0, shift_spec(num, cut).1) as u32) >> i) & 1 == 1)
            != (((shifted(num, shift_spec(num, cut).0, shift_spec(num, cut).1) as u32) >> (i
            + 1) as u32) & 1 == 1),
{
    lemma_shift_reaches_goal(num, cut);
    let g = shifted(num, shift_spec(num, cut).0, shift_spec(num, cut).1) as u32;
    let width: u32 = (32 - cut) as u32;
    let j: u32 = (i + 1) as u32;
    if (num >> cut) & 1 == 1 {
        assert(g == ((num >> cut) << cut) | (1431655765u32 >> width));
        assert(((g >> i) & 1 == 1) != ((g >> j) & 1 == 1)) by (bit_vector)
            requires
                g == ((num >> cut) << cut) | (1431655765u32 >> width),
                (num >> cut) & 1 == 1,
                1 <= cut <= 31,
                width == 32 - cut,
                i < cut,
                j == i + 1,
        ;
    } else {
        assert(g == ((num >> cut) << cut) | (2863311530u32 >> width));
        assert(((g >> i) & 1 == 1) != ((g >> j) & 1 == 1)) by (bit_vector)
            requires
                g == ((num >> cut) << cut) | (2863311530u32 >> width),
                (num >> cut) & 1 != 1,
                1 <= cut <= 31,
                width == 32 - cut,
                i < cut,
                j == i + 1,
        ;
    }
}

/// The Gray goal is `num` with its bits below `cut` cleared, plus `0x3333_3333` when bit
/// `cut` of `num` is set and `0xCCCC_CCCC` when it is clear; where that sum fits in a
/// `u32`, the Gray shift is defined and carries `num` onto it.
pub proof fn lemma_gray_goal_by_bit(num: u32, cut: u32)
    requires
        cut < 32,
        ((num >> cut) << cut) + (if (num >> cut) & 1 == 1 {
            0x3333_3333u32
        } else {
            0xCCCC_CCCCu32
        }) <= u32::MAX,
    ensures
        gray_defined(num, cut),
        shifted(num, shift_gray_spec(num, cut).0, shift_gray_spec(num, cut).1) == ((num >> cut)
            << cut) + (if (num >> cut) & 1 == 1 {
            0x3333_3333u32
        } else {
            0xCCCC_CCCCu32
        }),
{
}

/// With the context just updated by the same pair, `Diff` recovers the true value from
/// its residual, for every pair of `u32` values.
pub proof fn lemma_diff_inverts_after_update(truth: u32, prediction: u32, rctx: RContext)
    ensures
        ResidualCalculation::Diff.truth_defined(
            ResidualCalculation::Diff.residual_of(
                truth,
                prediction,
                ResidualCalculation::Diff.updated(truth, prediction, rctx),
            ),
            prediction,
            ResidualCalculation::Diff.updated(truth, prediction, rctx),
        ),
        ResidualCalculation::Diff.truth_of(
            ResidualCalculation::Diff.residual_of(
                truth,
                prediction,
                ResidualCalculation::Diff.updated(truth, prediction, rctx),
            ),
            prediction,
            ResidualCalculation::Diff.updated(truth, prediction, rctx),
        ) == truth,
{
    lemma_truth_inverts_residual(
        ResidualCalculation::Diff,
        truth,
        prediction,
        ResidualCalculation::Diff.updated(truth, prediction, rctx),
    );
}

/// The `Diff` residual is the distance between the true value and the prediction: adding
/// it to the smaller of the two gives the larger. `truth` adds a residual to the
/// prediction when the context says the prediction was too low, and subtracts it otherwise.
pub proof fn lemma_diff_residual_is_distance(
    truth: u32,
    prediction: u32,
    residual: u32,
    rctx: RContext,
)
    ensures
        rctx.prediction_too_low && prediction + residual <= u32::MAX ==> ResidualCalculation::Diff.truth_defined(residual, prediction, rctx) && ResidualCalculation::Diff.truth_of(residual, prediction, rctx) == prediction + residual,
        !rctx.prediction_too_low && residual <= prediction ==> ResidualCalculation::Diff.truth_defined(residual, prediction, rctx) && ResidualCalculation::Diff.truth_of(residual, prediction, rctx) == prediction - residual,
        prediction <= truth ==> prediction + ResidualCalculation::Diff.residual_of(
            truth,
            prediction,
            rctx,
        ) == truth,
        truth <= prediction ==> truth + ResidualCalculation::Diff.residual_of(
            truth,
            prediction,
            rctx,
        ) == prediction,
{
}

/// Every update records the pair it was given; only `ShiftedLZC` changes the cut and only
/// `Diff` changes the recorded sign, which is set exactly when the prediction is below the
/// true value as unsigned numbers.
pub proof fn lemma_update_records(
    calc: ResidualCalculation,
    truth: u32,
    prediction: u32,
    rctx: RContext,
)
    ensures
        calc.updated(truth, prediction, rctx).truth == truth,
        calc.updated(truth, prediction, rctx).prediction == prediction,
        !(calc is ShiftedLZC) ==> calc.updated(truth, prediction, rctx).cut == rctx.cut,
        !(calc is Diff) ==> calc.updated(truth, prediction, rctx).prediction_too_low
            == rctx.prediction_too_low,
        calc is Diff ==> (calc.updated(truth, prediction, rctx).prediction_too_low <==> (
        prediction as int) < (truth as int)),
{
}

/// The shifted variants move the prediction onto its goal `g` and the true value by the
/// same offset `g - prediction`, and XOR the two; `truth` XORs the residual with `g` and
/// moves back by that offset.
pub proof fn lemma_shifted_residual_moves_both(
    calc: ResidualCalculation,
    truth: u32,
    prediction: u32,
    residual: u32,
    rctx: RContext,
)
    requires
        calc is Shifted || calc is ShiftedLZC || calc is ShiftedGray,
    ensures
        calc.residual_defined(truth, prediction, rctx) ==> ({
            let sh = if calc is ShiftedGray {
                shift_gray_spec(prediction, rctx.cut)
            } else {
                shift_spec(prediction, rctx.cut)
            };
            let g = shifted(prediction, sh.0, sh.1);
            &&& 0 <= g <= u32::MAX
            &&& 0 <= truth + (g - prediction) <= u32::MAX
            &&& calc.residual_of(truth, prediction, rctx) == (g as u32) ^ ((truth + (g
                - prediction)) as u32)
        }),
        calc.truth_defined(residual, prediction, rctx) ==> ({
            let sh = if calc is ShiftedGray {
                shift_gray_spec(prediction, rctx.cut)
            } else {
                shift_spec(prediction, rctx.cut)
            };
            let g = shifted(prediction, sh.0, sh.1);
            &&& 0 <= g <= u32::MAX
            &&& 0 <= (residual ^ (g as u32)) - (g - prediction) <= u32::MAX
            &&& calc.truth_of(residual, prediction, rctx) == ((residual ^ (g as u32)) - (g
                - prediction)) as u32
        }),
{
}

// ----- whole streams -----

/// Residuals of a stream: each pair is transformed, then the context is updated with it.
pub open spec fn encode_stream(
    calc: ResidualCalculation,
    truths: Seq<u32>,
    predictions: Seq<u32>,
    rctx: RContext,
) -> Seq<u32>
    decreases truths.len(),
{
    if truths.len() == 0 || predictions.len() == 0 {
        Seq::empty()
    } else {
        seq![calc.residual_of(truths[0], predictions[0], rctx)] + encode_stream(
            calc,
            truths.drop_first(),
            predictions.drop_first(),
            calc.updated(truths[0], predictions[0], rctx),
        )
    }
}

/// True values of a stream of residuals: each is recovered, then the context is updated
/// with the recovered value, as on the encoding side.
pub open spec fn decode_stream(
    calc: ResidualCalculation,
    residuals: Seq<u32>,
    predictions: Seq<u32>,
    rctx: RContext,
) -> Seq<u32>
    decreases residuals.len(),
{
    if residuals.len() == 0 || predictions.len() == 0 {
        Seq::empty()
    } else {
        let t = calc.truth_of(residuals[0], predictions[0], rctx);
        seq![t] + decode_stream(
            calc,
            residuals.drop_first(),
            predictions.drop_first(),
            calc.updated(t, predictions[0], rctx),
        )
    }
}

/// Every step of encoding the stream is invertible (see `step_invertible`).
pub open spec fn stream_invertible(
    calc: ResidualCalculation,
    truths: Seq<u32>,
    predictions: Seq<u32>,
    rctx: RContext,
) -> bool
    decreases truths.len(),
{
    if truths.len() == 0 || predictions.len() == 0 {
        true
    } else {
        step_invertible(calc, truths[0], predictions[0], rctx) && stream_invertible(
            calc,
            truths.drop_first(),
            predictions.drop_first(),
            calc.updated(truths[0], predictions[0], rctx),
        )
    }
}

/// Decoding the residuals of a stream, with the same predictions and starting context,
/// gives the stream back.
pub proof fn lemma_decode_inverts_encode(
    calc: ResidualCalculation,
    truths: Seq<u32>,
    predictions: Seq<u32>,
    rctx: RContext,
)
    requires
        truths.len() == predictions.len(),
        stream_invertible(calc, truths, predictions, rctx),
    ensures
        decode_stream(calc, encode_stream(calc, truths, predictions, rctx), predictions, rctx)
            == truths,
    decreases truths.len(),
{
    if truths.len() > 0 {
        let r0 = calc.residual_of(truths[0], predictions[0], rctx);
        let next = calc.updated(truths[0], predictions[0], rctx);
        lemma_truth_inverts_residual(calc, truths[0], predictions[0], rctx);
        lemma_decode_inverts_encode(calc, truths.drop_first(), predictions.drop_first(), next);
        let enc = encode_stream(calc, truths, predictions, rctx);
        let rest = encode_stream(calc, truths.drop_first(), predictions.drop_first(), next);
        assert(enc[0] == r0);
        assert(enc.drop_first() =~= rest);
        assert(decode_stream(calc, enc, predictions, rctx) =~= seq![truths[0]]
            + decode_stream(calc, rest, predictions.drop_first(), next));
        assert(truths =~= seq![truths[0]] + truths.drop_first());
    }
}

} // verus!

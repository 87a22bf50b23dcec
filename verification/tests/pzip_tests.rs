use pzip::compress::{calculate_shifted_residuals, shifted_residuals_fit};
use pzip::encode::{encode_bwt_range, pack_residuals, u32_to_bool};
use pzip::prediction::{calculate_dims, calculate_offset};
use pzip::residuals::{
    apply_shift, shift_calculation, shift_calculation_gray, RContext, ResidualCalculation,
    ResidualTrait, GRAY_ONE_ZERO_U32, GRAY_ZERO_ONE_U32, ONE_ZERO_U32, ZERO_ONE_U32,
};
use pzip::shape::Shape;

fn shape(x: i32, y: i32, z: i32) -> Shape {
    Shape { x, y, z }
}

#[test]
fn dims_of_a_grid() {
    let d = calculate_dims(&shape(4, 3, 2));
    assert_eq!((d.x, d.y, d.z), (1, 4, 12));
}

#[test]
fn offsets_of_neighbours() {
    let s = shape(4, 3, 2);
    assert_eq!(calculate_offset(&s, &shape(1, 0, 0)), 1);
    assert_eq!(calculate_offset(&s, &shape(0, 1, 0)), 4);
    assert_eq!(calculate_offset(&s, &shape(0, 0, 1)), 12);
    assert_eq!(calculate_offset(&s, &shape(1, 1, 1)), 17);
    assert_eq!(calculate_offset(&s, &shape(0, 0, 0)), 0);
}

#[test]
fn negative_offset_wraps() {
    assert_eq!(calculate_offset(&shape(4, 3, 2), &shape(-1, 0, 0)), usize::MAX);
}

#[test]
fn new_context() {
    let c = RContext::new(31);
    assert_eq!((c.cut, c.truth, c.prediction, c.prediction_too_low), (31, 0, 0, false));
}

#[test]
fn pattern_constants() {
    assert_eq!(ONE_ZERO_U32, 0xAAAA_AAAA);
    assert_eq!(ZERO_ONE_U32, 0x5555_5555);
    assert_eq!(GRAY_ONE_ZERO_U32, 0xCCCC_CCCC);
    assert_eq!(GRAY_ZERO_ONE_U32, 0x3333_3333);
}

#[test]
fn shift_toward_alternating_goal() {
    let mut c = RContext::new(4);
    // bit 4 clear: goal 0b1010 = 10
    assert_eq!(shift_calculation(0, &mut c), (true, 10));
    // bit 4 set: goal 0b1_0101 = 21
    assert_eq!(shift_calculation(31, &mut c), (false, 10));
    // at the goal with bit 4 set: direction up, distance 0
    assert_eq!(shift_calculation(21, &mut c), (true, 0));
    // at the goal with bit 4 clear: direction down, distance 0
    assert_eq!(shift_calculation(0x2A, &mut c), (false, 0));
    assert_eq!(c.cut, 4);
}

#[test]
fn shift_keeps_high_bits() {
    let mut c = RContext::new(31);
    let (add, shift) = shift_calculation(0x9000_0000, &mut c);
    let goal = apply_shift(0x9000_0000, add, shift);
    assert_eq!(goal >> 31, 0x9000_0000u32 >> 31);
    assert_eq!(goal, 0x8000_0000 | (ZERO_ONE_U32 >> 1));
}

#[test]
fn gray_shift() {
    let mut c = RContext::new(4);
    assert_eq!(shift_calculation_gray(0, &mut c), (true, 0xCCCC_CCCC));
    assert_eq!(shift_calculation_gray(0x10, &mut c), (true, 0x3333_3333));
}

#[test]
fn apply_shift_both_ways() {
    assert_eq!(apply_shift(10, true, 5), 15);
    assert_eq!(apply_shift(10, false, 3), 7);
    assert_eq!(apply_shift(apply_shift(10, true, 5), false, 5), 10);
}

#[test]
fn xor_residual() {
    let mut c = RContext::new(31);
    let r = ResidualCalculation::ExclusiveOR;
    assert_eq!(r.residual(5, 3, &mut c), 6);
    assert_eq!(r.truth(6, 3, &mut c), 5);
}

#[test]
fn shifted_residual_exact_values() {
    let mut c = RContext::new(4);
    let r = ResidualCalculation::Shifted;
    // prediction 31 moves down by 10 to 21; truth 20 moves to 10; 21 ^ 10 = 31
    assert_eq!(r.residual(20, 31, &mut c), 31);
    assert_eq!(r.truth(31, 31, &mut c), 20);
    assert_eq!(c.cut, 4);
}

#[test]
fn shifted_lzc_and_gray_residuals() {
    let mut c = RContext::new(4);
    assert_eq!(ResidualCalculation::ShiftedLZC.residual(20, 31, &mut c), 31);
    // Gray: prediction 0x10 moves up by 0x3333_3333 to 0x3333_3343; truth 0x11 to 0x3333_3344
    assert_eq!(ResidualCalculation::ShiftedGray.residual(0x11, 0x10, &mut c), 0x3343 ^ 0x3344);
    assert_eq!(ResidualCalculation::ShiftedGray.truth(0x3343 ^ 0x3344, 0x10, &mut c), 0x11);
}

#[test]
fn diff_residual() {
    let mut c = RContext::new(31);
    let r = ResidualCalculation::Diff;
    assert_eq!(r.residual(3, 10, &mut c), 7);
    assert_eq!(r.residual(10, 3, &mut c), 7);
    assert_eq!(r.truth(7, 10, &mut c), 3);
    r.update(10, 3, &mut c);
    assert!(c.prediction_too_low);
    assert_eq!(r.truth(7, 3, &mut c), 10);
}

#[test]
fn update_records_values() {
    let mut c = RContext::new(31);
    ResidualCalculation::Shifted.update(7, 9, &mut c);
    assert_eq!((c.cut, c.truth, c.prediction, c.prediction_too_low), (31, 7, 9, false));
}

#[test]
fn lzc_update_sets_cut() {
    let mut c = RContext::new(31);
    let r = ResidualCalculation::ShiftedLZC;
    r.update(0x100, 0, &mut c);
    assert_eq!(c.cut, 9);
    r.update(5, 5, &mut c);
    assert_eq!(c.cut, 4);
    r.update(0x7FFF_FFFF, 0, &mut c);
    assert_eq!(c.cut, 31);
}

fn sample_pairs() -> Vec<(u32, u32)> {
    vec![
        (0, 0),
        (1, 0),
        (0x3F80_0000, 0x3F80_0001),
        (0x4049_0FDB, 0x4048_F5C3),
        (0x0000_1234, 0x0000_1200),
        (0x1234_5678, 0x1234_0000),
        (100, 200),
        (0x7F00_0000, 0x7E00_0000),
    ]
}

#[test]
fn truth_inverts_residual_for_each_transform() {
    let calcs = vec![
        ResidualCalculation::ExclusiveOR,
        ResidualCalculation::Shifted,
        ResidualCalculation::ShiftedLZC,
        ResidualCalculation::ShiftedGray,
    ];
    for calc in calcs.iter() {
        for cut in [4u32, 12, 20, 31] {
            for &(t, p) in sample_pairs().iter() {
                let c = RContext::new(cut);
                if calc.residual_fits(t, p, &c) {
                    let mut c = RContext::new(cut);
                    let r = calc.residual(t, p, &mut c);
                    assert_eq!(calc.truth(r, p, &mut c), t);
                }
            }
        }
    }
}

#[test]
fn diff_inverts_when_context_has_the_sign() {
    for &(t, p) in sample_pairs().iter() {
        let mut c = RContext::new(31);
        let calc = ResidualCalculation::Diff;
        calc.update(t, p, &mut c);
        let r = calc.residual(t, p, &mut c);
        assert_eq!(calc.truth(r, p, &mut c), t);
    }
}

#[test]
fn diff_loses_the_sign_with_a_stale_context() {
    let mut c = RContext::new(31);
    let calc = ResidualCalculation::Diff;
    c.prediction_too_low = true;
    let r = calc.residual(1, 2, &mut c);
    assert_eq!(calc.truth(r, 2, &mut c), 3);
}

#[test]
fn stream_round_trip_with_updates() {
    let truths: Vec<u32> = vec![0x3F80_0000, 0x3F80_0100, 0x3F7F_0000, 0x4000_0000, 0x3F00_1234];
    let preds: Vec<u32> = vec![0x3F80_0001, 0x3F80_0000, 0x3F80_0000, 0x3FFF_FFFF, 0x3F00_0000];
    let calc = ResidualCalculation::ShiftedLZC;
    let mut enc = RContext::new(31);
    let mut residuals = Vec::new();
    for i in 0..truths.len() {
        assert!(calc.residual_fits(truths[i], preds[i], &enc));
        residuals.push(calc.residual(truths[i], preds[i], &mut enc));
        calc.update(truths[i], preds[i], &mut enc);
    }
    let mut dec = RContext::new(31);
    for i in 0..truths.len() {
        let t = calc.truth(residuals[i], preds[i], &mut dec);
        assert_eq!(t, truths[i]);
        calc.update(t, preds[i], &mut dec);
    }
}

#[test]
fn exact_prediction_gives_zero() {
    let calcs = vec![
        ResidualCalculation::ExclusiveOR,
        ResidualCalculation::Shifted,
        ResidualCalculation::ShiftedLZC,
        ResidualCalculation::ShiftedGray,
        ResidualCalculation::Diff,
    ];
    for calc in calcs.iter() {
        let mut c = RContext::new(12);
        assert_eq!(calc.residual(0x1234_5678, 0x1234_5678, &mut c), 0);
    }
}

#[test]
fn residual_fits_detects_overflow() {
    let c = RContext::new(31);
    assert!(!ResidualCalculation::Shifted.residual_fits(0xFFFF_FFFF, 0, &c));
    assert!(ResidualCalculation::Shifted.residual_fits(1, 0, &c));
    assert!(!ResidualCalculation::Shifted.residual_fits(1, 0, &RContext::new(0)));
    assert!(!ResidualCalculation::Shifted.residual_fits(1, 0, &RContext::new(32)));
    assert!(!ResidualCalculation::ShiftedGray.residual_fits(1, 0xFFFF_0000, &RContext::new(4)));
    assert!(ResidualCalculation::ExclusiveOR.residual_fits(0xFFFF_FFFF, 0, &c));
}

#[test]
fn shifted_residuals_of_streams() {
    assert!(shifted_residuals_fit(31, &[1, 2], &[0, 0, 9]));
    assert_eq!(calculate_shifted_residuals(31, &[1, 2], &[0, 0, 9]), vec![3, 2]);
    assert_eq!(calculate_shifted_residuals(31, &[], &[5]), Vec::<u32>::new());
    assert!(!shifted_residuals_fit(31, &[1, 0xFFFF_FFFF], &[0, 0]));
}

#[test]
fn binary_digits() {
    assert_eq!(u32_to_bool(0), Vec::<bool>::new());
    assert_eq!(u32_to_bool(1), vec![true]);
    assert_eq!(u32_to_bool(4), vec![true, false, false]);
    assert_eq!(u32_to_bool(5), vec![true, false, true]);
    let top = u32_to_bool(0x8000_0000);
    assert_eq!(top.len(), 32);
    assert!(top[0]);
    assert!(top[1..].iter().all(|b| !*b));
}

#[test]
fn binary_digits_read_back() {
    for v in [1u32, 2, 3, 77, 1000, 0x7FFF_FFFF] {
        let bits = u32_to_bool(v);
        assert!(bits[0]);
        let back = bits.iter().fold(0u64, |acc, b| 2 * acc + (*b as u64));
        assert_eq!(back, v as u64);
    }
}

#[test]
fn packing_residual_bits() {
    // 5 = 101, first 1 digit skipped: 01 behind the leading one: 1010_0000
    assert_eq!(pack_residuals(&[5], &[0]), vec![0b1010_0000]);
    // 4 = 100 skip 2 -> 0; 7 = 111 skip 1 -> 11; zeros are passed over
    assert_eq!(pack_residuals(&[0, 4, 7], &[1, 0]), vec![0b1011_0000]);
    // nothing left to pack after the skip
    assert_eq!(pack_residuals(&[1], &[3]), vec![0b1000_0000]);
    assert_eq!(pack_residuals(&[], &[]), vec![0b1000_0000]);
    // a second byte, padded with zeros
    assert_eq!(pack_residuals(&[0xFF], &[0]), vec![0xFF]);
    assert_eq!(pack_residuals(&[0x1FF], &[0]), vec![0xFF, 0x80]);
}

#[test]
fn encoded_container_size() {
    let fc = encode_bwt_range(&[0, 4, 7], &[1, 0], [2, 3], vec![9, 9], vec![1, 2, 3]);
    assert_eq!(fc.nbytes(), 2 + 0 + 3 + 1 + 1);
}

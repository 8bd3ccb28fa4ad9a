use ullis::ternary::{
    check_ternary_rows, gradient_passes, ternarize_row, ternary_code, TernaryError,
};

fn bits(values: &[f32]) -> Vec<u32> {
    values.iter().map(|v| v.to_bits()).collect()
}

#[test]
fn weights_round_around_the_threshold() {
    let row = bits(&[0.5_f32, 0.7, -0.7, -0.5, 0.0, -0.0, 3.0, f32::NAN, f32::NEG_INFINITY]);
    assert_eq!(
        ternarize_row(&row, 0.5_f32.to_bits()),
        vec![0, 1, -1, 0, 0, 0, 1, 0, -1]
    );
    assert_eq!(ternary_code(0.0_f32.to_bits(), 0), 0);
    assert_eq!(ternary_code((-1e-30_f32).to_bits(), 0), -1);
    assert!(ternarize_row(&[], 0).is_empty());
}

#[test]
fn rounding_is_the_same_on_both_sides_and_keeps_the_order() {
    let delta = 0.25_f32;
    let values = [-2.0_f32, -0.25, -0.1, 0.0, 0.1, 0.25, 0.3, 9.0];
    let mut last = -1;
    for v in values {
        let code = ternary_code(v.to_bits(), delta.to_bits());
        assert_eq!(ternary_code((-v).to_bits(), delta.to_bits()), -code);
        assert_eq!(code == 0, v.abs() <= delta);
        assert!(code >= last);
        last = code;
    }
}

#[test]
fn gradients_pass_between_minus_one_and_one() {
    for (v, passes) in [(1.0_f32, true), (-1.0, true), (0.0, true), (1.5, false), (-7.0, false)] {
        assert_eq!(gradient_passes(v.to_bits()), passes);
    }
    assert!(!gradient_passes(f32::NAN.to_bits()));
}

#[test]
fn rows_that_do_not_fit_are_not_rounded() {
    assert_eq!(check_ternary_rows(6, 2, 3, 6), Ok(()));
    assert_eq!(check_ternary_rows(5, 2, 3, 6), Err(TernaryError::WeightLength));
    assert_eq!(check_ternary_rows(6, 2, 3, 5), Err(TernaryError::OutputLength));
    assert_eq!(check_ternary_rows(0, 2, 0, 0), Err(TernaryError::NoColumns));
    assert_eq!(
        check_ternary_rows(0, usize::MAX, 2, 0),
        Err(TernaryError::WeightLength)
    );
}

use ullis::decode::{
    bump_count, candidates, finite, greedy_token, masked, rank, splitmix64, total_key,
    DecodeConfig, DecodeError,
};

fn bits(values: &[f32]) -> Vec<u32> {
    values.iter().map(|v| v.to_bits()).collect()
}

#[test]
fn temperature_zero_is_argmax() {
    let cfg = DecodeConfig {
        temperature: 0.0_f32.to_bits(),
        ..DecodeConfig::default()
    };
    assert!(cfg.is_greedy());
    let logits = bits(&[0.1_f32, 3.0, 2.9]);
    assert_eq!(greedy_token(&logits, 9, 9, 9, false), Some(1));
    assert_eq!(greedy_token(&logits, 9, 9, 9, false), Some(1));
}

#[test]
fn min_new_tokens_suppresses_eos() {
    let logits = bits(&[0.0_f32, 0.0, 9.0, 1.0]);
    let eos = 2;
    assert_eq!(greedy_token(&logits, 0, 1, eos, false), Some(eos));
    assert_eq!(greedy_token(&logits, 0, 1, eos, true), Some(3));
}

#[test]
fn decode_config_rejects_out_of_range_penalties() {
    let bad_freq = DecodeConfig {
        frequency_penalty: 3.0_f32.to_bits(),
        ..DecodeConfig::default()
    };
    assert!(bad_freq.validate().is_err());
    let bad_p = DecodeConfig {
        top_p: 0.0_f32.to_bits(),
        ..DecodeConfig::default()
    };
    assert!(bad_p.validate().is_err());
}

#[test]
fn each_decode_error_has_its_cause() {
    let base = DecodeConfig::default();
    assert!(base.validate().is_ok());
    for (cfg, error) in [
        (
            DecodeConfig {
                temperature: (-1.0_f32).to_bits(),
                ..base
            },
            DecodeError::Temperature,
        ),
        (
            DecodeConfig {
                temperature: f32::NAN.to_bits(),
                ..base
            },
            DecodeError::Temperature,
        ),
        (
            DecodeConfig {
                top_p: 1.5_f32.to_bits(),
                ..base
            },
            DecodeError::TopP,
        ),
        (
            DecodeConfig {
                presence_penalty: (-2.5_f32).to_bits(),
                ..base
            },
            DecodeError::PresencePenalty,
        ),
        (
            DecodeConfig {
                frequency_penalty: f32::INFINITY.to_bits(),
                ..base
            },
            DecodeError::FrequencyPenalty,
        ),
    ] {
        assert_eq!(cfg.validate(), Err(error));
    }
    let edge = DecodeConfig {
        presence_penalty: (-2.0_f32).to_bits(),
        frequency_penalty: 2.0_f32.to_bits(),
        top_p: 1.0_f32.to_bits(),
        ..base
    };
    assert!(edge.validate().is_ok());
}

#[test]
fn bit_patterns_are_ordered_as_total_cmp_orders_floats() {
    let values = [
        f32::NAN,
        f32::INFINITY,
        1.5,
        0.0,
        -0.0,
        -1.5,
        f32::NEG_INFINITY,
        f32::MIN_POSITIVE,
    ];
    for a in values {
        for b in values {
            assert_eq!(
                total_key(a.to_bits()).cmp(&total_key(b.to_bits())),
                a.total_cmp(&b)
            );
        }
        assert_eq!(finite(a.to_bits()), a.is_finite());
    }
}

#[test]
fn splitmix_words_are_the_published_ones() {
    let mut state = 1234567_u64;
    assert_eq!(splitmix64(&mut state), 6457827717110365317);
    assert_eq!(splitmix64(&mut state), 3203168211198807973);
    assert_eq!(splitmix64(&mut state), 9817491932198370423);
}

#[test]
fn counts_stop_at_their_limit() {
    let mut counts = [0_u32, u32::MAX];
    bump_count(&mut counts, 0);
    bump_count(&mut counts, 1);
    bump_count(&mut counts, 9);
    assert_eq!(counts, [1, u32::MAX]);
}

#[test]
fn special_tokens_are_never_chosen() {
    assert!(masked(0, 0, 1, 2, false));
    assert!(masked(1, 0, 1, 2, false));
    assert!(!masked(2, 0, 1, 2, false));
    assert!(masked(2, 0, 1, 2, true));
    assert_eq!(greedy_token(&bits(&[5.0, 4.0]), 0, 1, 2, false), None);
}

#[test]
fn candidates_are_unmasked_and_finite() {
    let logits = bits(&[1.0_f32, 2.0, f32::NAN, 3.0, f32::NEG_INFINITY, 0.5]);
    assert_eq!(candidates(&logits, 0, 9, 3, false), vec![1, 3, 5]);
    assert_eq!(candidates(&logits, 0, 9, 3, true), vec![1, 5]);
    assert!(candidates(&bits(&[f32::INFINITY]), 9, 9, 9, false).is_empty());
}

#[test]
fn a_ranking_starts_with_the_largest_and_keeps_equals_in_order() {
    let weights = bits(&[0.25_f32, 0.5, 0.25, 1.0, 0.0, -1.0, 0.5]);
    assert_eq!(rank(&weights), vec![3, 1, 6, 0, 2, 4, 5]);
    assert_eq!(rank(&bits(&[-0.0_f32, 0.0])), vec![1, 0]);
    assert!(rank(&[]).is_empty());
}

use ullis::config::{
    default_train_config, smoke_config, Architecture, ConfigError, TrainConfig, DEFAULT_MEMORY_BUDGET_BYTES, MAX_CONTEXT_LEN,
};
use ullis::tokenizer::{BpeTokenizer, MIN_VOCAB};

fn byte_tokenizer() -> BpeTokenizer {
    let mut pieces: Vec<Vec<u8>> = vec![Vec::new(); 4];
    for b in 0..=255_u8 {
        pieces.push(vec![b]);
    }
    BpeTokenizer {
        pieces,
        pad_id: 0,
        bos_id: 1,
        eos_id: 2,
        unk_id: 3,
    }
}

#[test]
fn default_profile_fits_the_four_gib_budget() {
    let cfg = TrainConfig::default();
    cfg.validate().unwrap();
    let estimate = cfg.memory_estimate().unwrap();
    let peak = estimate.peak().unwrap();
    assert!(peak as u64 <= DEFAULT_MEMORY_BUDGET_BYTES);
    assert!(
        peak < 200 * 1024 * 1024,
        "default peak {peak} should stay well under 200 MiB"
    );
    assert_eq!(estimate.embedding, 8192 * 256 * 2);
    assert_eq!(estimate.rosa_sam_peak, 40 * 2048 * 256);
    assert_eq!(estimate.qkv_bitplanes, 3 * 2048 * 256 / 8);
    assert_eq!(estimate.binaryconnect_workspace, 8192 * 256 * 4);
    assert_eq!(estimate.wkv_tape, 0);
    assert_eq!(cfg.context_len, 2048);
}

#[test]
fn wide_heron_profile_is_admitted() {
    let cfg = TrainConfig {
        n_layers: 12,
        d_model: 768,
        dim_ffn: 768 * 4,
        context_len: 512,
        tmix_lora_rank: 16,
        ..Default::default()
    };
    cfg.validate().unwrap();
    let peak = cfg.memory_estimate().unwrap().peak().unwrap();
    assert!(
        peak < 1024 * 1024 * 1024,
        "wide heron peak {peak} should stay under 1 GiB after FP32 SGD residual"
    );
}

#[test]
fn hybrid_rejects_unpadded_digit_lengths() {
    let cfg = TrainConfig {
        architecture: Architecture::RosaRwkv7,
        d_model: 32,
        n_layers: 2,
        dim_ffn: 128,
        context_len: 129,
        tmix_lora_rank: 8,
        vocab_size: MIN_VOCAB as usize,
        ..Default::default()
    };
    assert!(cfg.validate().is_err());
}

#[test]
fn tokenizer_binding_uses_compact_vocab_and_revalidates_budget() {
    let tokenizer = byte_tokenizer();
    let config = TrainConfig::default().with_tokenizer(&tokenizer).unwrap();
    assert_eq!(config.vocab_size, tokenizer.vocab_size() as usize);
}

#[test]
fn four_bit_rosa_is_rejected() {
    let cfg = TrainConfig {
        rosa_bits: 4,
        ..Default::default()
    };
    assert!(cfg.validate().is_err());
}

#[test]
fn each_config_error_has_its_cause() {
    let base = TrainConfig::default();
    let hybrid = TrainConfig {
        architecture: Architecture::RosaRwkv7,
        d_model: 32,
        n_layers: 2,
        dim_ffn: 128,
        context_len: 144,
        tmix_lora_rank: 8,
        ..base
    };
    assert!(hybrid.validate().is_ok());
    let cases = [
        (TrainConfig { d_model: 0, ..base }, ConfigError::EmptyModel),
        (
            TrainConfig {
                vocab_size: 259,
                ..base
            },
            ConfigError::VocabTooSmall { least: 260 },
        ),
        (
            TrainConfig {
                context_len: MAX_CONTEXT_LEN + 1,
                ..base
            },
            ConfigError::ContextLength,
        ),
        (
            TrainConfig {
                batch_size: 0,
                ..base
            },
            ConfigError::BatchSize,
        ),
        (TrainConfig { rosa_bits: 4, ..base }, ConfigError::RosaBits),
        (
            TrainConfig {
                d_model: 40,
                ..hybrid
            },
            ConfigError::HeadMultiple,
        ),
        (
            TrainConfig {
                context_len: 129,
                ..hybrid
            },
            ConfigError::ContextMultiple,
        ),
    ];
    for (cfg, error) in cases {
        assert_eq!(cfg.validate(), Err(error), "{cfg:?}");
        assert!(!error.to_string().is_empty());
    }
    let tight = TrainConfig {
        memory_budget_bytes: 1024 * 1024,
        ..base
    };
    assert!(matches!(
        tight.validate(),
        Err(ConfigError::OverBudget { .. })
    ));
    let huge = TrainConfig {
        n_layers: usize::MAX,
        ..base
    };
    assert!(huge.validate().is_err());
}

#[test]
fn profiles_differ_from_the_default_where_they_say() {
    assert_eq!(default_train_config(300).vocab_size, 300);
    assert_eq!(default_train_config(300).d_model, 256);
    let smoke = smoke_config(260);
    assert_eq!((smoke.d_model, smoke.n_layers, smoke.context_len), (16, 1, 32));
    assert!(smoke.validate().is_ok());
}

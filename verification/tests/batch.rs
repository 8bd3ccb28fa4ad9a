use ullis::batch::{BatchError, CausalBatcher};
use ullis::config::{ConfigError, TrainConfig};

#[test]
fn batches_borrow_fixed_windows_and_skip_only_the_tail() {
    let tokens: Vec<u32> = (0..17).collect();
    let mut batches = CausalBatcher::new(&tokens, 2, 4).unwrap();
    assert_eq!(batches.remaining_batches(), 2);
    let first = batches.next().unwrap();
    assert_eq!(first.tokens(), &tokens[..8]);
    assert_eq!(first.labels(), &tokens[..8]);
    assert_eq!((first.batch_size(), first.time()), (2, 4));
    let second = batches.next().unwrap();
    assert_eq!(second.tokens(), &tokens[8..16]);
    assert!(batches.next().is_none());
}

#[test]
fn accepts_time_two_for_next_token_loss() {
    let tokens: Vec<u32> = (0..4).collect();
    let mut batches = CausalBatcher::new(&tokens, 1, 2).unwrap();
    assert_eq!(batches.next().unwrap().tokens(), &tokens[..2]);
}

#[test]
fn rejects_shapes_that_cannot_support_next_token_loss() {
    assert!(CausalBatcher::new(&[1, 2, 3], 0, 2).is_err());
    assert!(CausalBatcher::new(&[1, 2, 3], 1, 1).is_err());
}

#[test]
fn supervised_batcher_keeps_labels_aligned() {
    let tokens: Vec<u32> = (0..8).collect();
    let labels = [0_u32, 1, 0, 3, 0, 5, 0, 7];
    let mut batches = CausalBatcher::new_with_labels(&tokens, &labels, 1, 4).unwrap();
    let first = batches.next().unwrap();
    assert_eq!(first.tokens(), &tokens[..4]);
    assert_eq!(first.labels(), &labels[..4]);
    assert!(CausalBatcher::new_with_labels(&[1, 2], &[1], 1, 2).is_err());
}

#[test]
fn skip_batches_starts_at_the_resume_window() {
    let tokens: Vec<u32> = (0..16).collect();
    let mut batches = CausalBatcher::new(&tokens, 1, 4).unwrap();
    batches.skip_batches(2).unwrap();
    assert_eq!(batches.next().unwrap().tokens(), &tokens[8..12]);
    assert!(CausalBatcher::new(&tokens, 1, 4)
        .unwrap()
        .skip_batches(5)
        .is_err());
}

#[test]
fn config_batcher_rejects_invalid_configuration_before_borrowing_data() {
    let cfg = TrainConfig {
        vocab_size: 1,
        ..Default::default()
    };
    assert!(CausalBatcher::from_config(&[1, 2, 3], &cfg, 2).is_err());
}

#[test]
fn each_batch_error_has_its_cause() {
    assert_eq!(
        CausalBatcher::new(&[1, 2], 0, 2).err(),
        Some(BatchError::Shape)
    );
    assert_eq!(
        CausalBatcher::new_with_labels(&[1, 2], &[1], 1, 2).err(),
        Some(BatchError::LabelLength)
    );
    assert_eq!(
        CausalBatcher::new(&[1, 2], usize::MAX, 2).err(),
        Some(BatchError::ShapeOverflow)
    );
    let small = TrainConfig {
        vocab_size: 1,
        ..Default::default()
    };
    assert_eq!(
        CausalBatcher::from_config(&[1, 2], &small, 2).err(),
        Some(BatchError::Config(ConfigError::VocabTooSmall { least: 260 }))
    );
    let cfg = TrainConfig::default();
    assert_eq!(
        CausalBatcher::from_config(&[1, 2], &cfg, cfg.context_len + 1).err(),
        Some(BatchError::BeyondContext)
    );
    let mut walk = CausalBatcher::new(&[1, 2, 3, 4], 1, 2).unwrap();
    assert_eq!(
        walk.skip_batches(usize::MAX).err(),
        Some(BatchError::SkipOverflow)
    );
    assert_eq!(walk.skip_batches(3).err(), Some(BatchError::SkipPastEnd));
    assert_eq!(walk.remaining_batches(), 2);
}

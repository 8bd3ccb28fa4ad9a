use ullis::completion::{
    finished_turn, prompt_ids, prompt_text, Completion, CompletionError, Next,
};
use ullis::decode::{DecodeConfig, DecodeError};

#[test]
fn a_prompt_opens_a_turn_when_it_is_templated() {
    assert_eq!(prompt_text("Hello", false), "Hello");
    assert_eq!(
        prompt_text("Hello", true),
        "<user>Hello</user><assistant><thinking>"
    );
    assert_eq!(prompt_ids(vec![], 1, 4), Ok(vec![1]));
    assert_eq!(prompt_ids(vec![5, 6], 1, 4), Ok(vec![5, 6]));
    assert_eq!(
        prompt_ids(vec![5; 5], 1, 4),
        Err(CompletionError::PromptTooLong)
    );
}

#[test]
fn a_completion_stops_at_its_end() {
    let decode = DecodeConfig {
        min_new_tokens: 2,
        ..DecodeConfig::default()
    };
    let mut c = Completion::new(3, 10, decode, 100, 2).unwrap();
    assert!(c.suppress_eos());
    assert_eq!(c.accept(7, 5), Next::Keep);
    assert_eq!(c.accept(7, 6), Next::Keep);
    assert!(!c.suppress_eos());
    assert_eq!(c.counts[7], 2);
    assert_eq!(c.accept(2, 7), Next::Stop);
    assert_eq!(c.produced, vec![7, 7]);
    assert_eq!(c.accept(8, 100), Next::Stop);
    assert_eq!(c.accept(8, 99), Next::Keep);
    assert!(!c.wants_more());
}

#[test]
fn each_completion_error_has_its_cause() {
    let good = DecodeConfig::default();
    assert_eq!(
        Completion::new(0, 10, good, 100, 2).err(),
        Some(CompletionError::NoTokens)
    );
    let bad = DecodeConfig {
        top_p: 0,
        ..good
    };
    assert_eq!(
        Completion::new(1, 10, bad, 100, 2).err(),
        Some(CompletionError::Decode(DecodeError::TopP))
    );
}

#[test]
fn a_finished_turn_is_cut_at_its_end() {
    assert_eq!(finished_turn("4</assistant><user>").as_deref(), Some("4"));
    assert_eq!(finished_turn("4"), None);
}

#[test]
fn settings_are_checked_before_anything_is_fed() {
    let decode = DecodeConfig::default();
    assert_eq!(Completion::check(1, decode), Ok(()));
    assert_eq!(Completion::check(0, decode), Err(CompletionError::NoTokens));
    let cold = DecodeConfig {
        top_p: 0,
        ..decode
    };
    assert_eq!(
        Completion::check(1, cold),
        Err(CompletionError::Decode(DecodeError::TopP))
    );
}

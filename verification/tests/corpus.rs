use ullis::corpus::{sample_thinking_chars, Survey};

#[test]
fn long_traces_are_sampled_at_head_middle_and_tail() {
    assert_eq!(sample_thinking_chars("short", 9), "short");
    assert_eq!(sample_thinking_chars("aaabbbcccddd", 9), "aaa\nbbc\nddd");
    assert_eq!(sample_thinking_chars("abc", 1), "a\nb\nc");
}

#[test]
fn alike_users_and_stub_thoughts_are_warned_of() {
    let mut survey = Survey::new();
    for i in 0..40 {
        let thought = if i % 2 == 0 { "stub" } else { "real" };
        assert!(!survey.add("the same user", &format!("{thought}{}", if i % 2 == 0 { 0 } else { i })));
    }
    let verdict = survey.verdict();
    assert!(verdict.few_users);
    assert!(!verdict.long_thinking);
    assert_eq!(verdict.stub.as_deref(), Some("stub0"));
    let mut varied = Survey::new();
    for i in 0..40 {
        varied.add(&format!("user {i}"), &"x".repeat(2000));
    }
    let verdict = varied.verdict();
    assert!(!verdict.few_users);
    assert!(verdict.long_thinking);
    let empty = Survey::new().verdict();
    assert!(!empty.few_users && !empty.long_thinking && empty.stub.is_none());
}

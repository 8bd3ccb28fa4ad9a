use ullis::conversation::{
    generation_prefix, has_conversation_markup, min_supervised_targets, pack_document_windows,
    render_messages, supervised_labels, truncate_at_assistant_end, ChatMessage, PackError,
};
use ullis::tokenizer::BpeTokenizer;

fn byte_tokenizer() -> BpeTokenizer {
    let mut pieces: Vec<Vec<u8>> = vec![Vec::new(); 4];
    for b in 0..=255_u8 {
        pieces.push(vec![b]);
    }
    BpeTokenizer {
        pieces,
        pad_id: 0,
        bos_id: 1,
        eos_id: 2,
        unk_id: 3,
    }
}

fn encode(tokenizer: &BpeTokenizer, text: &str) -> Vec<u32> {
    let mut ids = vec![tokenizer.bos_id];
    ids.extend(text.bytes().map(|b| b as u32 + 4));
    ids.push(tokenizer.eos_id);
    ids
}

fn decode(tokenizer: &BpeTokenizer, ids: &[u32]) -> String {
    let mut bytes: Vec<u8> = Vec::new();
    for &id in ids {
        bytes.extend_from_slice(tokenizer.token_bytes(id));
    }
    String::from_utf8(bytes).unwrap()
}

#[test]
fn render_marks_only_assistant_bytes() {
    let (text, spans) = render_messages(&[
        ChatMessage {
            role: "system",
            content: "Be brief.",
            thinking: None,
        },
        ChatMessage {
            role: "user",
            content: "2+2?",
            thinking: None,
        },
        ChatMessage {
            role: "assistant",
            content: "4",
            thinking: Some("add"),
        },
    ]);
    assert!(text.starts_with("<system>Be brief.</system><user>2+2?</user><assistant>"));
    assert_eq!(spans.len(), 1);
    assert_eq!(
        &text[spans[0].start..spans[0].end],
        "<assistant><thinking>add</thinking>4</assistant>"
    );
    assert!(!text[spans[0].start..spans[0].end].contains("<user>"));
}

#[test]
fn generation_prefix_opens_the_trained_assistant_span() {
    assert_eq!(
        generation_prefix("Write Hello"),
        "<user>Write Hello</user><assistant><thinking>"
    );
    assert_eq!(
        generation_prefix("<user>already</user><assistant><thinking>"),
        "<user>already</user><assistant><thinking>"
    );
}

#[test]
fn truncate_strips_the_end_tag_and_whatever_follows() {
    let text = "hello</assistant><system>next";
    assert_eq!(truncate_at_assistant_end(text), Some("hello"));
    assert_eq!(truncate_at_assistant_end("hello"), None);
}

#[test]
fn labels_supervise_assistant_and_eos_only() {
    let tokenizer = byte_tokenizer();
    let (text, spans) = render_messages(&[
        ChatMessage {
            role: "system",
            content: "Be brief.",
            thinking: None,
        },
        ChatMessage {
            role: "user",
            content: "2+2?",
            thinking: None,
        },
        ChatMessage {
            role: "assistant",
            content: "4",
            thinking: Some("add"),
        },
    ]);
    let ids = encode(&tokenizer, &text);
    let labels = supervised_labels(&tokenizer, &ids, &text, &spans);
    assert_eq!(ids[0], tokenizer.bos_id);
    assert_eq!(labels[0], tokenizer.pad_id);
    assert_eq!(*ids.last().unwrap(), tokenizer.eos_id);
    assert_eq!(*labels.last().unwrap(), tokenizer.eos_id);
    let supervised: Vec<u32> = labels
        .iter()
        .copied()
        .filter(|&id| id != tokenizer.pad_id)
        .collect();
    assert!(supervised.contains(&tokenizer.eos_id));
    let decoded_supervised = decode(&tokenizer, &supervised);
    assert!(decoded_supervised.contains("add"));
    assert!(decoded_supervised.contains('4'));
    assert!(!decoded_supervised.contains("Be brief"));
    assert!(!decoded_supervised.contains("2+2"));
}

#[test]
fn pack_windows_concatenate_real_tokens_without_pad() {
    let pad = 0_u32;
    let docs = vec![
        (vec![1_u32, 2, 3], vec![0_u32, 2, 3]),
        (vec![4_u32, 5], vec![4_u32, 5]),
    ];
    let (tokens, labels) = pack_document_windows(&docs, 4, pad, 8).unwrap();
    assert_eq!(tokens, vec![1, 2, 3, 4, 5, 1, 2, 3]);
    assert_eq!(labels, vec![0, 2, 3, 4, 5, 0, 2, 3]);
    assert!(!tokens.contains(&pad));
}

#[test]
fn pack_windows_skip_windows_with_no_supervised_target() {
    let pad = 0_u32;
    let docs = vec![(vec![1_u32, 2, 3, 4, 5, 6], vec![0_u32, 0, 0, 0, 5, 6])];
    let (tokens, labels) = pack_document_windows(&docs, 3, pad, 6).unwrap();
    assert_eq!(tokens.len(), 6);
    assert!(!tokens.contains(&pad));
    for window in tokens.chunks(3).zip(labels.chunks(3)) {
        let (_ids, window_labels) = window;
        assert!(
            window_labels[1..].iter().any(|&id| id != pad),
            "every packed window must have a supervised next-token target, got {window_labels:?}"
        );
    }
}

#[test]
fn pack_windows_skip_sparse_assistant_tails() {
    let pad = 0_u32;
    // T=32 requires min_supervised = 31/8 = 3. Two supervised labels in a
    // long unsupervised prefix must not become a packed window.
    let ids = vec![1_u32; 64];
    let mut targets = vec![pad; 64];
    targets[60] = 1;
    targets[61] = 1;
    let err = pack_document_windows(&[(ids.clone(), targets.clone())], 32, pad, 32)
        .unwrap_err()
        .to_string();
    assert!(err.contains("supervised next-token"));
    targets[50] = 1;
    let (tokens, labels) = pack_document_windows(&[(ids, targets)], 32, pad, 32).unwrap();
    assert_eq!(tokens.len(), 32);
    assert!(labels[1..].iter().filter(|&&id| id != pad).count() >= min_supervised_targets(32));
}

#[test]
fn each_packing_error_has_its_cause() {
    assert_eq!(
        pack_document_windows(&[(vec![1], vec![1])], 1, 0, 1).unwrap_err(),
        PackError::ContextTooShort
    );
    assert_eq!(
        pack_document_windows(&[], 4, 0, 1).unwrap_err(),
        PackError::EmptyCorpus
    );
    assert_eq!(
        pack_document_windows(&[(vec![1, 2, 3], vec![0, 0, 0])], 2, 0, 1).unwrap_err(),
        PackError::NoTargets
    );
    assert_eq!(
        pack_document_windows(&[(vec![1; 64], { let mut t = vec![0; 64]; t[60] = 1; t })], 32, 0, 1)
            .unwrap_err(),
        PackError::TooSparse { needed: 1 }
    );
}

#[test]
fn markup_is_told_from_plain_text() {
    assert!(has_conversation_markup("<user>hi</user>"));
    assert!(!has_conversation_markup("hi"));
    assert_eq!(min_supervised_targets(0), 1);
    assert_eq!(min_supervised_targets(65), 8);
}

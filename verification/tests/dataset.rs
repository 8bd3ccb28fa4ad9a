use ullis::conversation::PackError;
use ullis::dataset::{
    cap_texts_bytes, encode_training_stream, text_budget, training_document, validate_record,
    DatasetMessage, DatasetRecord, MessageError, RecordError, StreamError, TextLoad,
};
use ullis::tokenizer::BpeTokenizer;

fn message(role: &str, content: &str, thinking: Option<&str>) -> DatasetMessage {
    DatasetMessage {
        role: role.to_string(),
        content: content.to_string(),
        thinking: thinking.map(str::to_string),
        tool_call_id: None,
    }
}

fn record(messages: Vec<DatasetMessage>) -> DatasetRecord {
    DatasetRecord {
        id: "demo-1".to_string(),
        messages,
    }
}

fn byte_tokenizer() -> BpeTokenizer {
    let mut pieces: Vec<Vec<u8>> = vec![Vec::new(); 4];
    for b in 0..=255_u8 {
        pieces.push(vec![b]);
    }
    BpeTokenizer {
        pieces,
        pad_id: 0,
        bos_id: 1,
        eos_id: 2,
        unk_id: 3,
    }
}

fn demo() -> DatasetRecord {
    record(vec![
        message("system", "Be concise.", None),
        message("user", "What is 2+2?", None),
        message("assistant", "4", Some("Use direct arithmetic.")),
    ])
}

#[test]
fn a_record_follows_the_schema() {
    assert_eq!(validate_record(&demo()), Ok(()));
    assert_eq!(validate_record(&record(vec![])), Err(RecordError::Empty));
    assert_eq!(
        validate_record(&record(vec![message("user", "hi", None), message("robot", "x", None)])),
        Err(RecordError::Message {
            index: 1,
            error: MessageError::UnsupportedRole
        })
    );
    assert_eq!(
        validate_record(&record(vec![message("assistant", "x", None)])),
        Err(RecordError::Message {
            index: 0,
            error: MessageError::MissingThinking
        })
    );
    assert_eq!(
        validate_record(&record(vec![message("tool", "x", None)])),
        Err(RecordError::Message {
            index: 0,
            error: MessageError::MissingToolCallId
        })
    );
}

#[test]
fn a_document_is_the_rendered_conversation() {
    let doc = training_document(&demo());
    assert_eq!(
        doc.text,
        "<system>Be concise.</system><user>What is 2+2?</user>\
         <assistant><thinking>Use direct arithmetic.</thinking>4</assistant>"
    );
    assert_eq!(doc.spans.len(), 1);
}

#[test]
fn texts_are_capped_by_bytes() {
    assert_eq!(text_budget(2), 2 * 1024 * 1024);
    assert_eq!(text_budget(0), usize::MAX);
    let doc = training_document(&demo());
    let mut load = TextLoad::new(doc.text.len() + 1);
    assert!(!load.take(&doc));
    assert!(load.take(&doc));
    let docs = vec![training_document(&demo()), training_document(&demo())];
    assert_eq!(cap_texts_bytes(&docs, 1).len(), 1);
    assert_eq!(cap_texts_bytes(&docs, usize::MAX).len(), 2);
}

#[test]
fn a_stream_holds_enough_windows() {
    let tokenizer = byte_tokenizer();
    let docs = vec![training_document(&demo())];
    let mut ids = vec![tokenizer.bos_id];
    ids.extend(docs[0].text.bytes().map(|b| b as u32 + 4));
    ids.push(tokenizer.eos_id);
    let (tokens, labels) =
        encode_training_stream(&docs, vec![ids], &tokenizer, 16, 64).unwrap();
    assert!(tokens.len() >= 64);
    assert_eq!(tokens.len(), labels.len());
    assert!(matches!(
        encode_training_stream(&Vec::new(), Vec::new(), &tokenizer, 16, 0),
        Err(StreamError::Empty)
    ));
    assert!(matches!(
        encode_training_stream(&Vec::new(), Vec::new(), &tokenizer, 16, 64),
        Err(StreamError::Pack(PackError::EmptyCorpus))
    ));
}

//! Records of a training corpus: which are admitted, how they become text, and
//! how much of the text is used.
use vstd::prelude::*;
use vstd::string::*;
use crate::conversation::{
    pack_document_windows, render_messages, supervised_labels, ByteSpan, ChatMessage, PackError,
};
use crate::text::{len_bytes, same_text, trim};
use crate::tokenizer::BpeTokenizer;

verus! {

/// One message of a record.
#[derive(Debug)]
pub struct DatasetMessage {
    pub role: String,
    pub content: String,
    pub thinking: Option<String>,
    pub tool_call_id: Option<String>,
}

/// One record of the corpus.
#[derive(Debug)]
pub struct DatasetRecord {
    pub id: String,
    pub messages: Vec<DatasetMessage>,
}

/// What is wrong with a message.
#[derive(Clone, Copy, Debug, PartialEq, Eq, Structural)]
pub enum MessageError {
    UnsupportedRole,
    MissingThinking,
    MissingToolCallId,
}

/// What is wrong with a record, and in which of its messages.
#[derive(Clone, Copy, Debug, PartialEq, Eq, Structural)]
pub enum RecordError {
    Empty,
    Message { index: usize, error: MessageError },
}

/// The text is missing, or holds nothing but white space.
pub open spec fn is_blank(text: Option<String>) -> bool {
    match text {
        Some(t) => crate::text::trimmed(t@).len() == 0,
        None => true,
    }
}

/// What is wrong with a message. An assistant has to say what it thought, and
/// a tool which call it answers.
pub open spec fn message_error(message: DatasetMessage) -> Option<MessageError> {
    let role = message.role@;
    if role != "system"@ && role != "user"@ && role != "assistant"@ && role != "tool"@ {
        Some(MessageError::UnsupportedRole)
    } else if role == "assistant"@ && is_blank(message.thinking) {
        Some(MessageError::MissingThinking)
    } else if role == "tool"@ && !(message.tool_call_id matches Some(id) && id@.len() > 0) {
        Some(MessageError::MissingToolCallId)
    } else {
        None
    }
}

/// The record is turned away for this reason: the first thing that is wrong.
pub open spec fn record_fails(record: DatasetRecord, error: RecordError) -> bool {
    let empty = crate::text::trimmed(record.id@).len() == 0 || record.messages@.len() == 0;
    match error {
        RecordError::Empty => empty,
        RecordError::Message { index, error } => {
            &&& !empty
            &&& index < record.messages@.len()
            &&& message_error(record.messages@[index as int]) == Some(error)
            &&& forall|j: int|
                0 <= j < index ==> message_error(#[trigger] record.messages@[j]) is None
        },
    }
}

fn check_message(message: &DatasetMessage) -> (error: Option<MessageError>)
    ensures
        error == message_error(*message),
{
    proof {
        reveal_strlit("assistant");
        reveal_strlit("tool");
    }
    let role = message.role.as_str();
    let assistant = same_text(role, "assistant");
    let tool = same_text(role, "tool");
    if !assistant && !tool && !same_text(role, "system") && !same_text(role, "user") {
        return Some(MessageError::UnsupportedRole);
    }
    if assistant {
        let blank = match &message.thinking {
            Some(t) => trim(t.as_str()).is_empty(),
            None => true,
        };
        if blank {
            return Some(MessageError::MissingThinking);
        }
    }
    if tool {
        let missing = match &message.tool_call_id {
            Some(id) => id.as_str().is_empty(),
            None => true,
        };
        if missing {
            return Some(MessageError::MissingToolCallId);
        }
    }
    None
}

/// Checks a record of the corpus.
pub fn validate_record(record: &DatasetRecord) -> (verdict: Result<(), RecordError>)
    ensures
        match verdict {
            Ok(_) => forall|error: RecordError| !record_fails(*record, error),
            Err(error) => record_fails(*record, error),
        },
{
    let n: usize = record.messages.len();
    if trim(record.id.as_str()).is_empty() || n == 0 {
        return Err(RecordError::Empty);
    }
    for i in 0..n
        invariant
            n == record.messages@.len(),
            n > 0,
            crate::text::trimmed(record.id@).len() > 0,
            forall|j: int| 0 <= j < i ==> message_error(#[trigger] record.messages@[j]) is None,
    {
        match check_message(&record.messages[i]) {
            Some(error) => return Err(RecordError::Message { index: i, error }),
            None => {},
        }
    }
    Ok(())
}

/// The text of a record, and the byte ranges of what the assistant said.
#[derive(Debug)]
pub struct TrainingDocument {
    pub text: String,
    pub spans: Vec<ByteSpan>,
}

/// The message says what the message of the record says.
pub open spec fn same_message(message: ChatMessage, source: DatasetMessage) -> bool {
    &&& message.role@ == source.role@
    &&& message.content@ == source.content@
    &&& match (message.thinking, source.thinking) {
        (Some(a), Some(b)) => a@ == b@,
        (None, None) => true,
        _ => false,
    }
}

/// The messages are those of the record, in order.
pub open spec fn same_messages(messages: Seq<ChatMessage>, record: DatasetRecord) -> bool {
    &&& messages.len() == record.messages@.len()
    &&& forall|i: int|
        0 <= i < messages.len() ==> same_message(#[trigger] messages[i], record.messages@[i])
}

/// Renders a record for training.
pub fn training_document(record: &DatasetRecord) -> (document: TrainingDocument)
    ensures
        exists|messages: Seq<ChatMessage>|
            {
                &&& #[trigger] same_messages(messages, *record)
                &&& document.text@ == crate::conversation::rendered(messages)
                &&& crate::conversation::ranges(document.spans@)
                    == crate::conversation::assistant_ranges(messages)
            },
{
    let n: usize = record.messages.len();
    let mut messages: Vec<ChatMessage> = Vec::new();
    for i in 0..n
        invariant
            n == record.messages@.len(),
            messages@.len() == i,
            forall|j: int|
                0 <= j < i ==> same_message(#[trigger] messages@[j], record.messages@[j]),
    {
        let m = &record.messages[i];
        let thinking: Option<&str> = match &m.thinking {
            Some(t) => Some(t.as_str()),
            None => None,
        };
        messages.push(ChatMessage { role: m.role.as_str(), content: m.content.as_str(), thinking });
    }
    let (text, spans) = render_messages(messages.as_slice());
    assert(same_messages(messages@, *record));
    TrainingDocument { text, spans }
}

/// Bytes of so many mebibytes, as far as they can be counted.
pub open spec fn mebibytes(mib: usize) -> int {
    if mib * 1_048_576 > usize::MAX {
        usize::MAX as int
    } else {
        mib * 1_048_576
    }
}

fn count_mebibytes(mib: usize) -> (bytes: usize)
    ensures
        bytes == mebibytes(mib),
{
    match mib.checked_mul(1_048_576) {
        Some(b) => b,
        None => usize::MAX,
    }
}

/// How much text is loaded: everything when no limit is set.
pub fn text_budget(data_mib: usize) -> (bytes: usize)
    ensures
        bytes == (if data_mib == 0 {
            usize::MAX as int
        } else {
            mebibytes(data_mib)
        }),
{
    if data_mib == 0 {
        usize::MAX
    } else {
        count_mebibytes(data_mib)
    }
}

/// The sum of the byte lengths, as far as it can be counted.
pub open spec fn total_bytes(lens: Seq<nat>) -> int
    decreases lens.len(),
{
    if lens.len() == 0 {
        0
    } else {
        let sum = total_bytes(lens.drop_last()) + lens.last();
        if sum > usize::MAX {
            usize::MAX as int
        } else {
            sum
        }
    }
}

/// What the texts of two rows hold together is what each of them holds, and one
/// text holds its own bytes; above what can be counted, the count stands still.
pub proof fn law_bytes_add_up(a: Seq<nat>, b: Seq<nat>, one: nat)
    ensures
        total_bytes(seq![one]) == if one > usize::MAX {
            usize::MAX as int
        } else {
            one as int
        },
        0 <= total_bytes(a) <= usize::MAX,
        total_bytes(a + b) == if total_bytes(a) + total_bytes(b) > usize::MAX {
            usize::MAX as int
        } else {
            total_bytes(a) + total_bytes(b)
        },
    decreases a.len(), b.len(),
{
    reveal_with_fuel(total_bytes, 3);
    assert(seq![one].drop_last() =~= Seq::empty());
    if a.len() > 0 {
        law_bytes_add_up(a.drop_last(), Seq::empty(), one);
    }
    if b.len() == 0 {
        assert(a + b =~= a);
    } else {
        law_bytes_add_up(a, b.drop_last(), one);
        law_bytes_add_up(Seq::empty(), b.drop_last(), one);
        assert(Seq::<nat>::empty() + b.drop_last() =~= b.drop_last());
        assert((a + b).drop_last() =~= a + b.drop_last());
        assert((a + b).last() == b.last());
    }
}

/// How far the loading of the corpus has come.
#[derive(Clone, Copy, Debug, PartialEq, Eq, Structural)]
pub struct TextLoad {
    pub max_bytes: usize,
    pub records: usize,
    pub text_bytes: usize,
}

impl TextLoad {
    /// The load has taken in documents of these byte lengths.
    pub open spec fn took(self, lens: Seq<nat>) -> bool {
        self.records == lens.len() && self.text_bytes == total_bytes(lens)
    }

    pub fn new(max_bytes: usize) -> (load: Self)
        ensures
            load.max_bytes == max_bytes,
            load.took(Seq::empty()),
    {
        TextLoad { max_bytes, records: 0, text_bytes: 0 }
    }

    /// Takes in a document, and says whether the budget is used up.
    pub fn take(&mut self, document: &TrainingDocument) -> (full: bool)
        requires
            old(self).records < usize::MAX,
        ensures
            final(self).max_bytes == old(self).max_bytes,
            forall|lens: Seq<nat>|
                #[trigger] old(self).took(lens) ==> final(self).took(
                    lens.push(crate::text::byte_len(document.text@)),
                ),
            full == (final(self).text_bytes >= final(self).max_bytes),
    {
        let len: usize = len_bytes(document.text.as_str());
        let ghost before = *self;
        self.text_bytes = match self.text_bytes.checked_add(len) {
            Some(sum) => sum,
            None => usize::MAX,
        };
        self.records = self.records + 1;
        proof {
            assert forall|lens: Seq<nat>| #[trigger] before.took(lens) implies self.took(
                lens.push(crate::text::byte_len(document.text@)),
            ) by {
                let more = lens.push(crate::text::byte_len(document.text@));
                assert(more.drop_last() =~= lens);
            }
        }
        self.text_bytes >= self.max_bytes
    }
}

/// The byte lengths of the first `n` texts.
pub open spec fn text_lens(texts: Seq<TrainingDocument>, n: int) -> Seq<nat> {
    Seq::new(n as nat, |i: int| crate::text::byte_len(texts[i].text@))
}

/// The texts that the tokenizer is fitted on: texts from the front on, until
/// they hold `max_bytes` bytes. At least one text is taken, and all of them
/// when there is no limit.
pub fn cap_texts_bytes(texts: &Vec<TrainingDocument>, max_bytes: usize) -> (out: Vec<String>)
    ensures
        out@.len() <= texts@.len(),
        texts@.len() > 0 ==> out@.len() > 0,
        forall|i: int| 0 <= i < out@.len() ==> (#[trigger] out@[i])@ == texts@[i].text@,
        out@.len() < texts@.len() ==> max_bytes != usize::MAX && total_bytes(
            text_lens(texts@, out@.len() as int),
        ) >= max_bytes,
        forall|n: int|
            0 < n < out@.len() && max_bytes != usize::MAX ==> total_bytes(
                #[trigger] text_lens(texts@, n),
            ) < max_bytes,
{
    let n: usize = texts.len();
    let mut out: Vec<String> = Vec::new();
    let mut used: usize = 0;
    assert(text_lens(texts@, 0) =~= Seq::<nat>::empty());
    let mut i: usize = 0;
    while i < n
        invariant_except_break
            i <= n == texts@.len(),
            out@.len() == i,
            used == total_bytes(text_lens(texts@, i as int)),
            forall|j: int| 0 <= j < i ==> (#[trigger] out@[j])@ == texts@[j].text@,
            forall|m: int|
                0 < m < i && max_bytes != usize::MAX ==> total_bytes(
                    #[trigger] text_lens(texts@, m),
                ) < max_bytes,
        ensures
            out@.len() <= texts@.len(),
            texts@.len() > 0 ==> out@.len() > 0,
            forall|j: int| 0 <= j < out@.len() ==> (#[trigger] out@[j])@ == texts@[j].text@,
            out@.len() < texts@.len() ==> max_bytes != usize::MAX && total_bytes(
                text_lens(texts@, out@.len() as int),
            ) >= max_bytes,
            forall|m: int|
                0 < m < out@.len() && max_bytes != usize::MAX ==> total_bytes(
                    #[trigger] text_lens(texts@, m),
                ) < max_bytes,
        decreases n - i,
    {
        if max_bytes != usize::MAX && used >= max_bytes && i > 0 {
            break;
        }
        let len: usize = len_bytes(texts[i].text.as_str());
        used = match used.checked_add(len) {
            Some(sum) => sum,
            None => usize::MAX,
        };
        out.push(texts[i].text.clone());
        proof {
            assert(text_lens(texts@, i + 1).drop_last() =~= text_lens(texts@, i as int));
        }
        i += 1;
    }
    out
}

/// Why a corpus could not be packed.
#[derive(Clone, Copy, Debug, PartialEq, Eq, Structural)]
pub enum StreamError {
    Empty,
    Pack(PackError),
}

/// The labels of a document: its assistant tokens are learned, and padding
/// stands in the place of every other.
pub open spec fn labelled(
    tokenizer: BpeTokenizer,
    ids: Seq<u32>,
    spans: Seq<ByteSpan>,
    labels: Seq<u32>,
) -> bool {
    &&& labels.len() == ids.len()
    &&& forall|i: int|
        0 <= i < ids.len() ==> #[trigger] labels[i] == if crate::conversation::is_target(
            tokenizer,
            ids,
            spans,
            i,
        ) {
            ids[i]
        } else {
            tokenizer.pad_id
        }
}

/// The documents of the stream, with their labels.
pub open spec fn labels_all(
    tokenizer: BpeTokenizer,
    documents: Seq<TrainingDocument>,
    ids: Seq<Vec<u32>>,
    packed: Seq<(Vec<u32>, Vec<u32>)>,
) -> bool {
    &&& packed.len() == documents.len()
    &&& forall|i: int|
        0 <= i < packed.len() ==> {
            &&& (#[trigger] packed[i]).0@ == ids[i]@
            &&& labelled(tokenizer, ids[i]@, documents[i].spans@, packed[i].1@)
        }
}

/// What packing the documents gives.
pub open spec fn packs(
    packed: Seq<(Vec<u32>, Vec<u32>)>,
    context_len: usize,
    pad: u32,
    needed: usize,
    stream: Result<(Vec<u32>, Vec<u32>), StreamError>,
) -> bool {
    let tokens = crate::conversation::stream_tokens(packed);
    let labels = crate::conversation::stream_labels(packed);
    let error = crate::conversation::pack_error(tokens, labels, context_len, pad, needed);
    match stream {
        Ok(s) => {
            &&& error is None
            &&& s.0@.len() == needed
            &&& s.1@.len() == needed
            &&& forall|j: int|
                #![trigger s.0@[j]]
                #![trigger s.1@[j]]
                0 <= j < needed ==> s.0@[j] == tokens[crate::conversation::source(
                    labels,
                    pad,
                    context_len as int,
                    j,
                )] && s.1@[j] == labels[crate::conversation::source(
                    labels,
                    pad,
                    context_len as int,
                    j,
                )]
        },
        Err(StreamError::Pack(e)) => error == Some(e),
        Err(StreamError::Empty) => false,
    }
}

/// Each document is learned from by its own assistant turns: a token that stands
/// for text keeps its id as its label exactly when it stands on a byte of an
/// assistant message of that document, and has the padding id otherwise.
pub proof fn law_documents_are_learned_by_their_own_turns(
    tokenizer: BpeTokenizer,
    documents: Seq<TrainingDocument>,
    ids: Seq<Vec<u32>>,
    packed: Seq<(Vec<u32>, Vec<u32>)>,
    messages: Seq<ChatMessage>,
    d: int,
    i: int,
)
    requires
        labels_all(tokenizer, documents, ids, packed),
        0 <= d < documents.len(),
        crate::conversation::ranges(documents[d].spans@) == crate::conversation::assistant_ranges(
            messages,
        ),
        crate::conversation::spelled(tokenizer, ids[d]@) == vstd::utf8::encode_utf8(
            crate::conversation::rendered(messages),
        ),
        crate::conversation::spelled(tokenizer, ids[d]@).len() <= usize::MAX,
        0 <= i < ids[d]@.len(),
    ensures
        packed.len() == documents.len(),
        packed[d].0@ == ids[d]@,
        packed[d].1@.len() == ids[d]@.len(),
        crate::conversation::stands_for_text(tokenizer, ids[d]@[i]) && tokenizer.piece(
            ids[d]@[i],
        ).len() > 0 ==> packed[d].1@[i] == if exists|p: int|
            crate::conversation::byte_start(tokenizer, ids[d]@, i) <= p
                < crate::conversation::byte_start(tokenizer, ids[d]@, i + 1)
                && #[trigger] crate::conversation::is_assistant_byte(messages, p) {
            ids[d]@[i]
        } else {
            tokenizer.pad_id
        },
{
    assert(packed[d].0@ == ids[d]@);
    crate::conversation::law_targets_are_the_assistant_turns(
        tokenizer,
        ids[d]@,
        messages,
        documents[d].spans@,
        i,
    );
}

/// Where every window of the stream is worth a step, packing it gives its tokens
/// and labels one after the other, round and round.
pub proof fn law_a_dense_stream_is_packed_in_order(
    packed: Seq<(Vec<u32>, Vec<u32>)>,
    context_len: usize,
    pad: u32,
    needed: usize,
    stream: Result<(Vec<u32>, Vec<u32>), StreamError>,
    j: int,
)
    requires
        packs(packed, context_len, pad, needed, stream),
        crate::conversation::stream_tokens(packed).len() == crate::conversation::stream_labels(
            packed,
        ).len() > 0,
        context_len >= 2,
        0 <= j < needed,
        exists|i: int|
            0 <= i < crate::conversation::stream_tokens(packed).len()
                && #[trigger] crate::conversation::stream_tokens(packed)[i] != pad,
        forall|pos: int|
            0 <= pos < crate::conversation::stream_labels(packed).len()
                ==> #[trigger] crate::conversation::worth_a_step(
                crate::conversation::stream_labels(packed),
                pad,
                context_len as int,
                pos,
            ),
    ensures
        stream matches Ok(s) && s.0@.len() == needed && s.1@.len() == needed && s.0@[j]
            == crate::conversation::stream_tokens(packed)[j % (crate::conversation::stream_tokens(
            packed,
        ).len() as int)] && s.1@[j] == crate::conversation::stream_labels(packed)[j % (
        crate::conversation::stream_labels(packed).len() as int)],
{
    crate::conversation::law_a_dense_corpus_is_packed_in_order(
        crate::conversation::stream_tokens(packed),
        crate::conversation::stream_labels(packed),
        context_len,
        pad,
        needed,
    );
}

/// Packs the documents, whose ids are given, into windows of the context.
pub fn encode_training_stream(
    documents: &Vec<TrainingDocument>,
    ids: Vec<Vec<u32>>,
    tokenizer: &BpeTokenizer,
    context_len: usize,
    needed: usize,
) -> (stream: Result<(Vec<u32>, Vec<u32>), StreamError>)
    requires
        ids@.len() == documents@.len(),
    ensures
        needed == 0 ==> stream == Err::<(Vec<u32>, Vec<u32>), StreamError>(StreamError::Empty),
        needed > 0 ==> exists|packed: Seq<(Vec<u32>, Vec<u32>)>|
            {
                &&& #[trigger] labels_all(*tokenizer, documents@, ids@, packed)
                &&& packs(packed, context_len, tokenizer.pad_id, needed, stream)
            },
{
    if needed == 0 {
        return Err(StreamError::Empty);
    }
    let n: usize = documents.len();
    let mut packed: Vec<(Vec<u32>, Vec<u32>)> = Vec::new();
    for i in 0..n
        invariant
            n == documents@.len() == ids@.len(),
            packed@.len() == i,
            forall|j: int|
                0 <= j < i ==> {
                    &&& (#[trigger] packed@[j]).0@ == ids@[j]@
                    &&& labelled(*tokenizer, ids@[j]@, documents@[j].spans@, packed@[j].1@)
                },
    {
        let labels = supervised_labels(
            tokenizer,
            ids[i].as_slice(),
            documents[i].text.as_str(),
            documents[i].spans.as_slice(),
        );
        packed.push((crate::expert::copied(&ids[i]), labels));
    }
    assert(labels_all(*tokenizer, documents@, ids@, packed@));
    match pack_document_windows(packed.as_slice(), context_len, tokenizer.pad_id, needed) {
        Ok(s) => Ok(s),
        Err(e) => Err(StreamError::Pack(e)),
    }
}

/// The messages that are learned from: those of the four roles, of which an
/// assistant says what it thought and a tool which call it answers.
pub proof fn law_admitted_messages(message: DatasetMessage)
    ensures
        message_error(message) is None <==> {
            ||| message.role@ == "system"@
            ||| message.role@ == "user"@
            ||| message.role@ == "assistant"@ && (message.thinking matches Some(t) && exists|i: int|
                0 <= i < t@.len() && !crate::text::is_white(#[trigger] t@[i]))
            ||| message.role@ == "tool"@ && (message.tool_call_id matches Some(id) && id@.len()
                > 0)
        },
{
    reveal_strlit("system");
    reveal_strlit("user");
    reveal_strlit("assistant");
    reveal_strlit("tool");
    assert("user"@[0] != "tool"@[0]);
    if let Some(t) = message.thinking {
        let ends = crate::text::law_trimming_keeps_the_middle(t@);
        assert(crate::text::trimmed(t@).len() == ends.1 - ends.0);
        if ends.0 < ends.1 {
            assert(!crate::text::is_white(t@[ends.0]));
        } else {
            assert forall|i: int| 0 <= i < t@.len() implies crate::text::is_white(
                #[trigger] t@[i],
            ) by {
                assert(i < ends.0 || ends.1 <= i);
            }
        }
        assert(is_blank(message.thinking) <==> !exists|i: int|
            0 <= i < t@.len() && !crate::text::is_white(#[trigger] t@[i]));
    } else {
        assert(is_blank(message.thinking));
    }
    let role = message.role@;
    assert("system"@.len() == 6 && "user"@.len() == 4 && "assistant"@.len() == 9 && "tool"@.len()
        == 4);
    if role == "system"@ {
        assert(message_error(message) is None);
    } else if role == "user"@ {
        assert(message_error(message) is None);
    } else if role == "assistant"@ {
        assert(message_error(message) is None <==> !is_blank(message.thinking));
    } else if role == "tool"@ {
        assert(message_error(message) is None <==> (message.tool_call_id matches Some(id) && id@.len()
            > 0));
    } else {
        assert(message_error(message) is Some);
    }
}

/// A record is turned away for one reason, and exactly when it has no name, no
/// messages, or a message that is not admitted.
pub proof fn law_a_record_fails_for_one_reason(record: DatasetRecord, a: RecordError, b: RecordError)
    ensures
        record_fails(record, a) && record_fails(record, b) ==> a == b,
        record.messages@.len() <= usize::MAX ==> ((exists|e: RecordError|
            #[trigger] record_fails(record, e)) <==> crate::text::trimmed(record.id@).len() == 0
            || record.messages@.len() == 0 || exists|i: int|
            0 <= i < record.messages@.len() && message_error(
                #[trigger] record.messages@[i],
            ) is Some),
{
    let empty = crate::text::trimmed(record.id@).len() == 0 || record.messages@.len() == 0;
    if empty {
        assert(record_fails(record, RecordError::Empty));
    } else if exists|i: int|
        0 <= i < record.messages@.len() && message_error(#[trigger] record.messages@[i]) is Some {
        let i = choose|i: int|
            0 <= i < record.messages@.len() && message_error(
                #[trigger] record.messages@[i],
            ) is Some;
        if record.messages@.len() <= usize::MAX {
            lemma_first_failing(record, i);
        }
    }
    if record_fails(record, a) && record_fails(record, b) {
        match (a, b) {
            (
                RecordError::Message { index: i, error: e },
                RecordError::Message { index: j, error: f },
            ) => {
                if i < j {
                    assert(message_error(record.messages@[i as int]) is None);
                }
                if j < i {
                    assert(message_error(record.messages@[j as int]) is None);
                }
            },
            _ => {},
        }
    }
}

proof fn lemma_first_failing(record: DatasetRecord, i: int)
    requires
        crate::text::trimmed(record.id@).len() > 0,
        0 <= i < record.messages@.len() <= usize::MAX,
        message_error(record.messages@[i]) is Some,
    ensures
        exists|e: RecordError| #[trigger] record_fails(record, e),
    decreases i,
{
    if exists|j: int| 0 <= j < i && message_error(#[trigger] record.messages@[j]) is Some {
        let j = choose|j: int|
            0 <= j < i && message_error(#[trigger] record.messages@[j]) is Some;
        lemma_first_failing(record, j);
    } else {
        let e = RecordError::Message {
            index: i as usize,
            error: message_error(record.messages@[i])->0,
        };
        assert(record_fails(record, e));
    }
}

/// A mebibyte is a kibibyte of kibibytes.
pub proof fn law_mebibytes(mib: usize)
    ensures
        mebibytes(mib) <= usize::MAX,
        mib * 1_048_576 <= usize::MAX ==> mebibytes(mib) == mib * 1_048_576,
        mib * 1_048_576 > usize::MAX ==> mebibytes(mib) == usize::MAX,
{
}

/// A load counts the documents that it took, and their bytes.
pub proof fn law_a_load_counts_its_documents(load: TextLoad, lens: Seq<nat>, one: nat)
    requires
        load.took(lens),
    ensures
        load.records == lens.len(),
        lens.len() == 0 ==> load.text_bytes == 0,
        lens.len() == 1 && lens[0] == one && one <= usize::MAX ==> load.text_bytes == one,
        lens.len() == 2 && lens[0] + lens[1] <= usize::MAX ==> load.text_bytes == lens[0] + lens[1],
{
    reveal_with_fuel(total_bytes, 4);
    if lens.len() > 0 {
        let front = lens.drop_last();
        if front.len() > 0 {
            assert(front.last() == lens[front.len() - 1]);
        }
    }
}

} // verus!

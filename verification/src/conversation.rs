//! Conversation rendering shared by training, generation and chat.
//!
//! Training and decoding must emit the same markup. Next-token loss is
//! restricted to assistant tokens (the assistant tags included) and to the end
//! of sequence, so repeated system prompts cannot dominate the gradient.
use vstd::prelude::*;
use vstd::string::*;
use vstd::utf8::*;
use crate::text::{find_text, len_bytes, same_text};
use crate::tokenizer::BpeTokenizer;

verus! {

pub const SYSTEM_OPEN: &'static str = "<system>";

pub const SYSTEM_CLOSE: &'static str = "</system>";

pub const USER_OPEN: &'static str = "<user>";

pub const USER_CLOSE: &'static str = "</user>";

pub const ASSISTANT_OPEN: &'static str = "<assistant>";

pub const ASSISTANT_CLOSE: &'static str = "</assistant>";

pub const THINKING_OPEN: &'static str = "<thinking>";

pub const THINKING_CLOSE: &'static str = "</thinking>";

pub const TOOL_OPEN: &'static str = "<tool>";

pub const TOOL_CLOSE: &'static str = "</tool>";

/// Inclusive-exclusive byte range in a rendered conversation.
#[derive(Clone, Copy, Debug, PartialEq, Eq, Structural)]
pub struct ByteSpan {
    pub start: usize,
    pub end: usize,
}

#[derive(Clone, Copy, Debug)]
pub struct ChatMessage<'a> {
    pub role: &'a str,
    pub content: &'a str,
    pub thinking: Option<&'a str>,
}

/// The thinking of a message; nothing when it has none.
pub open spec fn thinking_text(m: ChatMessage) -> Seq<char> {
    match m.thinking {
        Some(t) => t@,
        None => Seq::empty(),
    }
}

/// The markup of one message. An unknown role leaves no trace.
pub open spec fn block(m: ChatMessage) -> Seq<char> {
    if m.role@ == "system"@ {
        SYSTEM_OPEN@ + m.content@ + SYSTEM_CLOSE@
    } else if m.role@ == "user"@ {
        USER_OPEN@ + m.content@ + USER_CLOSE@
    } else if m.role@ == "assistant"@ {
        ASSISTANT_OPEN@ + THINKING_OPEN@ + thinking_text(m) + THINKING_CLOSE@ + m.content@
            + ASSISTANT_CLOSE@
    } else if m.role@ == "tool"@ {
        TOOL_OPEN@ + m.content@ + TOOL_CLOSE@
    } else {
        Seq::empty()
    }
}

/// The message is one that the loss is taken on.
pub open spec fn is_assistant(m: ChatMessage) -> bool {
    m.role@ == "assistant"@
}

/// The markup of a conversation: its blocks in order.
pub open spec fn rendered(messages: Seq<ChatMessage>) -> Seq<char>
    decreases messages.len(),
{
    if messages.len() == 0 {
        Seq::empty()
    } else {
        rendered(messages.drop_last()) + block(messages.last())
    }
}

/// Byte ranges of the assistant blocks, in order.
pub open spec fn assistant_ranges(messages: Seq<ChatMessage>) -> Seq<(nat, nat)>
    decreases messages.len(),
{
    if messages.len() == 0 {
        Seq::empty()
    } else if is_assistant(messages.last()) {
        assistant_ranges(messages.drop_last()).push(
            (
                crate::text::byte_len(rendered(messages.drop_last())),
                crate::text::byte_len(rendered(messages)),
            ),
        )
    } else {
        assistant_ranges(messages.drop_last())
    }
}

/// The spans as pairs of numbers.
pub open spec fn ranges(spans: Seq<ByteSpan>) -> Seq<(nat, nat)> {
    Seq::new(spans.len(), |i: int| (spans[i].start as nat, spans[i].end as nat))
}

fn wrap(out: &mut String, open: &str, content: &str, close: &str)
    ensures
        final(out)@ == old(out)@ + (open@ + content@ + close@),
{
    out.append(open);
    out.append(content);
    out.append(close);
    assert(out@ =~= old(out)@ + (open@ + content@ + close@));
}

proof fn lemma_distinct_roles()
    ensures
        "system"@ != "user"@,
        "system"@ != "assistant"@,
        "system"@ != "tool"@,
        "user"@ != "assistant"@,
        "user"@ != "tool"@,
        "assistant"@ != "tool"@,
{
    reveal_strlit("system");
    reveal_strlit("user");
    reveal_strlit("assistant");
    reveal_strlit("tool");
    assert("user"@[0] == 'u' && "tool"@[0] == 't');
    assert("system"@.len() == 6 && "assistant"@.len() == 9);
}

/// Markup used both to train and to seed generation and chat, with the byte
/// ranges of the assistant blocks.
pub fn render_messages(messages: &[ChatMessage<'_>]) -> (out: (String, Vec<ByteSpan>))
    ensures
        out.0@ == rendered(messages@),
        ranges(out.1@) == assistant_ranges(messages@),
{
    let mut out = String::new();
    let mut supervised: Vec<ByteSpan> = Vec::new();
    assert(messages@.take(0) =~= Seq::empty());
    let mut i: usize = 0;
    while i < messages.len()
        invariant
            i <= messages@.len(),
            out@ == rendered(messages@.take(i as int)),
            ranges(supervised@) =~= assistant_ranges(messages@.take(i as int)),
        decreases messages@.len() - i,
    {
        let message = messages[i];
        let ghost before = messages@.take(i as int);
        let ghost after = messages@.take(i + 1);
        assert(after.drop_last() =~= before);
        assert(after.last() == message);
        let start: usize = len_bytes(out.as_str());
        if same_text(message.role, "system") {
            wrap(&mut out, SYSTEM_OPEN, message.content, SYSTEM_CLOSE);
        } else if same_text(message.role, "user") {
            wrap(&mut out, USER_OPEN, message.content, USER_CLOSE);
        } else if same_text(message.role, "assistant") {
            let thinking = match message.thinking {
                Some(t) => t,
                None => "",
            };
            proof {
                reveal_strlit("");
                assert(thinking@ =~= thinking_text(message));
            }
            out.append(ASSISTANT_OPEN);
            out.append(THINKING_OPEN);
            out.append(thinking);
            out.append(THINKING_CLOSE);
            out.append(message.content);
            out.append(ASSISTANT_CLOSE);
            assert(out@ =~= rendered(before) + block(message));
            let end: usize = len_bytes(out.as_str());
            let ghost spans = supervised@;
            supervised.push(ByteSpan { start, end });
            assert(ranges(supervised@) =~= ranges(spans).push((start as nat, end as nat)));
        } else if same_text(message.role, "tool") {
            wrap(&mut out, TOOL_OPEN, message.content, TOOL_CLOSE);
        } else {
            assert(out@ =~= rendered(before) + block(message));
        }
        proof {
            lemma_distinct_roles();
        }
        i += 1;
    }
    assert(messages@.take(messages@.len() as int) =~= messages@);
    (out, supervised)
}

/// The text holds an opening tag of a turn.
pub open spec fn is_marked(text: Seq<char>) -> bool {
    crate::text::has_text(text, SYSTEM_OPEN@) || crate::text::has_text(text, USER_OPEN@)
        || crate::text::has_text(text, ASSISTANT_OPEN@)
}

/// True when the caller already supplied training markup.
pub fn has_conversation_markup(text: &str) -> (marked: bool)
    ensures
        marked == is_marked(text@),
{
    find_text(text, SYSTEM_OPEN).is_some() || find_text(text, USER_OPEN).is_some() || find_text(
        text,
        ASSISTANT_OPEN,
    ).is_some()
}

/// What opens an assistant turn after `user_text`.
pub open spec fn opening(user_text: Seq<char>) -> Seq<char> {
    if is_marked(user_text) {
        user_text
    } else {
        USER_OPEN@ + user_text + USER_CLOSE@ + ASSISTANT_OPEN@ + THINKING_OPEN@
    }
}

/// Open assistant turn for a raw user string.
pub fn generation_prefix(user_text: &str) -> (prefix: String)
    ensures
        prefix@ == opening(user_text@),
{
    if has_conversation_markup(user_text) {
        return user_text.to_owned();
    }
    let mut prefix = String::new();
    wrap(&mut prefix, USER_OPEN, user_text, USER_CLOSE);
    prefix.append(ASSISTANT_OPEN);
    prefix.append(THINKING_OPEN);
    assert(prefix@ =~= opening(user_text@));
    prefix
}

/// Truncate a decoded completion at the first trained end-of-turn tag.
pub fn truncate_at_assistant_end(text: &str) -> (cut: Option<&str>)
    ensures
        cut is Some <==> crate::text::has_text(text@, ASSISTANT_CLOSE@),
        cut matches Some(t) ==> crate::text::first_at(
            text@,
            ASSISTANT_CLOSE@,
            t@.len() as int,
        ) && t@ == text@.take(t@.len() as int),
{
    match find_text(text, ASSISTANT_CLOSE) {
        Some(at) => {
            let t = text.substring_char(0, at);
            assert(t@ =~= text@.take(at as int));
            Some(t)
        },
        None => None,
    }
}

/// The seed of a generated turn is exactly how the trained rendering of that
/// turn begins: a user message without markup, followed by any assistant
/// message, renders to the seed and then the thinking and the answer.
pub proof fn law_generation_continues_training(user: ChatMessage, assistant: ChatMessage)
    requires
        user.role@ == "user"@,
        assistant.role@ == "assistant"@,
        !is_marked(user.content@),
    ensures
        rendered(seq![user, assistant]) == opening(user.content@) + (thinking_text(assistant)
            + THINKING_CLOSE@ + assistant.content@ + ASSISTANT_CLOSE@),
{
    lemma_distinct_roles();
    let two = seq![user, assistant];
    assert(two.drop_last() =~= seq![user]);
    assert(seq![user].drop_last() =~= Seq::empty());
    assert(rendered(seq![user].drop_last()) == Seq::<char>::empty());
    assert(rendered(seq![user]) =~= block(user));
    assert(rendered(two) =~= opening(user.content@) + (thinking_text(assistant) + THINKING_CLOSE@
        + assistant.content@ + ASSISTANT_CLOSE@));
}

/// A conversation reads as its parts do, one after the other; a single message
/// reads as its block.
pub proof fn law_conversations_are_joined(a: Seq<ChatMessage>, b: Seq<ChatMessage>)
    ensures
        rendered(a + b) == rendered(a) + rendered(b),
        b.len() == 1 ==> rendered(b) == block(b[0]),
    decreases b.len(),
{
    if b.len() == 0 {
        assert(a + b =~= a);
        assert(rendered(a) + rendered(b) =~= rendered(a));
    } else {
        law_conversations_are_joined(a, b.drop_last());
        assert((a + b).drop_last() =~= a + b.drop_last());
        assert((a + b).last() == b.last());
        assert(rendered(a + b) =~= rendered(a) + rendered(b));
        if b.len() == 1 {
            assert(b.drop_last() =~= Seq::empty());
            assert(rendered(b) =~= block(b[0]));
        }
    }
}

/// The assistant messages, in order.
pub open spec fn assistants<'a>(messages: Seq<ChatMessage<'a>>) -> Seq<ChatMessage<'a>>
    decreases messages.len(),
{
    if messages.len() == 0 {
        Seq::empty()
    } else if is_assistant(messages.last()) {
        assistants(messages.drop_last()).push(messages.last())
    } else {
        assistants(messages.drop_last())
    }
}

/// The supervised ranges are the assistant blocks and nothing else: there is
/// one range per assistant message, its bytes are the block of that message,
/// and the ranges follow each other without overlap inside the text.
pub proof fn law_ranges_hold_the_assistant_blocks(messages: Seq<ChatMessage>)
    ensures
        assistant_ranges(messages).len() == assistants(messages).len(),
        forall|i: int|
            0 <= i < assistants(messages).len() ==> {
                let (start, end) = #[trigger] assistant_ranges(messages)[i];
                &&& start < end <= crate::text::byte_len(rendered(messages))
                &&& encode_utf8(rendered(messages)).subrange(start as int, end as int)
                    == encode_utf8(block(assistants(messages)[i]))
            },
        forall|i: int, j: int|
            0 <= i < j < assistants(messages).len() ==> (#[trigger] assistant_ranges(messages)[i]).1
                <= (#[trigger] assistant_ranges(messages)[j]).0,
    decreases messages.len(),
{
    if messages.len() > 0 {
        let before = messages.drop_last();
        let last = messages.last();
        law_ranges_hold_the_assistant_blocks(before);
        crate::text::lemma_encode_concat(rendered(before), block(last));
        let old_bytes = encode_utf8(rendered(before));
        let bytes = encode_utf8(rendered(messages));
        assert(bytes == old_bytes + encode_utf8(block(last)));
        if is_assistant(last) {
            lemma_distinct_roles();
            reveal_strlit("<assistant>");
            assert(block(last)[0] == ASSISTANT_OPEN@[0]);
            assert(encode_utf8(block(last)).len() > 0);
        }
        assert forall|i: int| 0 <= i < assistants(messages).len() implies {
            let (start, end) = #[trigger] assistant_ranges(messages)[i];
            &&& start < end <= crate::text::byte_len(rendered(messages))
            &&& encode_utf8(rendered(messages)).subrange(start as int, end as int) == encode_utf8(
                block(assistants(messages)[i]),
            )
        } by {
            let (start, end) = assistant_ranges(messages)[i];
            if i < assistants(before).len() {
                assert(assistant_ranges(before)[i] == (start, end));
                assert(bytes.subrange(start as int, end as int) =~= old_bytes.subrange(
                    start as int,
                    end as int,
                ));
            } else {
                assert(bytes.subrange(start as int, end as int) =~= encode_utf8(block(last)));
            }
        }
        assert forall|i: int, j: int| 0 <= i < j < assistants(messages).len() implies (
        #[trigger] assistant_ranges(messages)[i]).1 <= (#[trigger] assistant_ranges(
            messages,
        )[j]).0 by {
            assert(assistant_ranges(before)[i] == assistant_ranges(messages)[i]);
            if j < assistants(before).len() {
                assert(assistant_ranges(before)[j] == assistant_ranges(messages)[j]);
            }
        }
    }
}

/// An id that never covers text and is never a target.
pub open spec fn is_silent(tokenizer: BpeTokenizer, id: u32) -> bool {
    id == tokenizer.bos_id || id == tokenizer.pad_id || id == tokenizer.unk_id
}

/// Bytes of text that `id` covers.
pub open spec fn covered(tokenizer: BpeTokenizer, id: u32) -> nat {
    if is_silent(tokenizer, id) || id == tokenizer.eos_id {
        0
    } else {
        tokenizer.piece(id).len()
    }
}

/// Bytes of text that come before token `i`.
pub open spec fn byte_start(tokenizer: BpeTokenizer, ids: Seq<u32>, i: int) -> nat
    decreases i,
{
    if i <= 0 {
        0
    } else {
        byte_start(tokenizer, ids, i - 1) + covered(tokenizer, ids[i - 1])
    }
}

/// `n`, held at the largest position that a span can name.
pub open spec fn capped(n: nat) -> nat {
    if n <= usize::MAX {
        n
    } else {
        usize::MAX as nat
    }
}

/// The bytes from `start` to `end` meet the span.
pub open spec fn meets(span: ByteSpan, start: nat, end: nat) -> bool {
    start < span.end && end > span.start
}

/// Token `i` is one that the loss is taken on.
pub open spec fn is_target(
    tokenizer: BpeTokenizer,
    ids: Seq<u32>,
    spans: Seq<ByteSpan>,
    i: int,
) -> bool {
    let start = capped(byte_start(tokenizer, ids, i));
    let end = capped(byte_start(tokenizer, ids, i + 1));
    !is_silent(tokenizer, ids[i]) && (ids[i] == tokenizer.eos_id || exists|k: int|
        0 <= k < spans.len() && #[trigger] meets(spans[k], start, end))
}

fn meets_any(spans: &[ByteSpan], start: usize, end: usize) -> (found: bool)
    ensures
        found == exists|k: int|
            0 <= k < spans@.len() && #[trigger] meets(spans@[k], start as nat, end as nat),
{
    let mut k: usize = 0;
    while k < spans.len()
        invariant
            k <= spans@.len(),
            forall|j: int| 0 <= j < k ==> !#[trigger] meets(spans@[j], start as nat, end as nat),
        decreases spans@.len() - k,
    {
        let span = spans[k];
        if start < span.end && end > span.start {
            assert(meets(spans@[k as int], start as nat, end as nat));
            return true;
        }
        k += 1;
    }
    false
}

/// Token `i` stands on byte `p`, a byte that a span can name.
pub open spec fn on_byte(tokenizer: BpeTokenizer, ids: Seq<u32>, i: int, p: int) -> bool {
    byte_start(tokenizer, ids, i) <= p < byte_start(tokenizer, ids, i + 1) <= usize::MAX
}

/// `labels[i] = ids[i]` when token `i` is a supervised target, otherwise the
/// padding id. `text` is what the ids encode and `spans` are its supervised
/// byte ranges.
///
/// The end of sequence is always supervised so the model can end a record. The
/// begin of sequence, padding and unknown ids are not.
#[allow(unused_variables)]
pub fn supervised_labels(
    tokenizer: &BpeTokenizer,
    ids: &[u32],
    text: &str,
    spans: &[ByteSpan],
) -> (labels: Vec<u32>)
    ensures
        labels@.len() == ids@.len(),
        forall|i: int|
            0 <= i < ids@.len() ==> #[trigger] labels@[i] == if is_target(
                *tokenizer,
                ids@,
                spans@,
                i,
            ) {
                ids@[i]
            } else {
                tokenizer.pad_id
            },
        forall|i: int, k: int, p: int|
            #![trigger labels@[i], spans@[k], on_byte(*tokenizer, ids@, i, p)]
            0 <= i < ids@.len() && stands_for_text(*tokenizer, ids@[i]) && 0 <= k < spans@.len()
                && on_byte(*tokenizer, ids@, i, p) && spans@[k].start <= p < spans@[k].end
                ==> labels@[i] == ids@[i],
{
    let mut labels: Vec<u32> = Vec::new();
    let mut byte_pos: usize = 0;
    let mut i: usize = 0;
    while i < ids.len()
        invariant
            i <= ids@.len(),
            labels@.len() == i,
            byte_pos == capped(byte_start(*tokenizer, ids@, i as int)),
            forall|j: int|
                0 <= j < i ==> #[trigger] labels@[j] == if is_target(
                    *tokenizer,
                    ids@,
                    spans@,
                    j,
                ) {
                    ids@[j]
                } else {
                    tokenizer.pad_id
                },
        decreases ids@.len() - i,
    {
        let id: u32 = ids[i];
        if id == tokenizer.bos_id || id == tokenizer.pad_id || id == tokenizer.unk_id {
            labels.push(tokenizer.pad_id);
        } else if id == tokenizer.eos_id {
            labels.push(id);
        } else {
            let start: usize = byte_pos;
            let end: usize = byte_pos.saturating_add(tokenizer.token_bytes(id).len());
            if meets_any(spans, start, end) {
                labels.push(id);
            } else {
                labels.push(tokenizer.pad_id);
            }
            byte_pos = end;
        }
        i += 1;
    }
    proof {
        assert forall|i: int, k: int, p: int|
            #![trigger labels@[i], spans@[k], on_byte(*tokenizer, ids@, i, p)]
            0 <= i < ids@.len() && stands_for_text(*tokenizer, ids@[i]) && 0 <= k < spans@.len()
                && on_byte(*tokenizer, ids@, i, p) && spans@[k].start <= p
                < spans@[k].end implies labels@[i] == ids@[i] by {
            assert(meets(
                spans@[k],
                capped(byte_start(*tokenizer, ids@, i)),
                capped(byte_start(*tokenizer, ids@, i + 1)),
            ));
        }
    }
    labels
}

/// The id stands for text: it is none of the four ids that do not.
pub open spec fn stands_for_text(tokenizer: BpeTokenizer, id: u32) -> bool {
    &&& id != tokenizer.bos_id
    &&& id != tokenizer.eos_id
    &&& id != tokenizer.pad_id
    &&& id != tokenizer.unk_id
}

/// The bytes that ids spell.
pub open spec fn spelled(tokenizer: BpeTokenizer, ids: Seq<u32>) -> Seq<u8>
    decreases ids.len(),
{
    if ids.len() == 0 {
        Seq::empty()
    } else if stands_for_text(tokenizer, ids.last()) {
        spelled(tokenizer, ids.drop_last()) + tokenizer.piece(ids.last())
    } else {
        spelled(tokenizer, ids.drop_last())
    }
}

/// Every token stands on its own bytes of what the ids spell: its piece is
/// found there from [`byte_start`] of the token to that of the next.
pub proof fn law_tokens_stand_on_their_bytes(tokenizer: BpeTokenizer, ids: Seq<u32>, i: int)
    requires
        0 <= i <= ids.len(),
    ensures
        byte_start(tokenizer, ids, i) <= spelled(tokenizer, ids).len(),
        i == ids.len() ==> byte_start(tokenizer, ids, i) == spelled(tokenizer, ids).len(),
        i < ids.len() ==> byte_start(tokenizer, ids, i) <= byte_start(tokenizer, ids, i + 1)
            <= spelled(tokenizer, ids).len() && spelled(tokenizer, ids).subrange(
            byte_start(tokenizer, ids, i) as int,
            byte_start(tokenizer, ids, i + 1) as int,
        ) == if stands_for_text(tokenizer, ids[i]) {
            tokenizer.piece(ids[i])
        } else {
            Seq::empty()
        },
    decreases ids.len(),
{
    if ids.len() > 0 {
        let front = ids.drop_last();
        let n = ids.len() as int;
        lemma_byte_start_agrees(tokenizer, front, ids, n - 1);
        law_tokens_stand_on_their_bytes(tokenizer, front, n - 1);
        if i < n - 1 {
            law_tokens_stand_on_their_bytes(tokenizer, front, i);
            lemma_byte_start_agrees(tokenizer, front, ids, i);
            lemma_byte_start_agrees(tokenizer, front, ids, i + 1);
            let all = spelled(tokenizer, ids);
            let old = spelled(tokenizer, front);
            assert(all.subrange(0, old.len() as int) =~= old);
            assert(all.subrange(
                byte_start(tokenizer, ids, i) as int,
                byte_start(tokenizer, ids, i + 1) as int,
            ) =~= old.subrange(
                byte_start(tokenizer, ids, i) as int,
                byte_start(tokenizer, ids, i + 1) as int,
            ));
        } else if i == n - 1 {
            let all = spelled(tokenizer, ids);
            let here = all.subrange(
                byte_start(tokenizer, ids, i) as int,
                byte_start(tokenizer, ids, i + 1) as int,
            );
            if stands_for_text(tokenizer, ids[i]) {
                assert(here =~= tokenizer.piece(ids[i]));
            } else {
                assert(here =~= Seq::empty());
            }
        }
    }
}

proof fn lemma_byte_start_agrees(tokenizer: BpeTokenizer, a: Seq<u32>, b: Seq<u32>, i: int)
    requires
        0 <= i <= a.len(),
        i <= b.len(),
        forall|j: int| 0 <= j < i ==> a[j] == b[j],
    ensures
        byte_start(tokenizer, a, i) == byte_start(tokenizer, b, i),
    decreases i,
{
    if i > 0 {
        lemma_byte_start_agrees(tokenizer, a, b, i - 1);
    }
}

/// Byte `p` of a rendered conversation belongs to the block of an assistant
/// message, whichever it is.
pub open spec fn is_assistant_byte(messages: Seq<ChatMessage>, p: int) -> bool {
    exists|k: int|
        0 <= k < messages.len() && (#[trigger] messages[k]).role@ == "assistant"@
            && crate::text::byte_len(rendered(messages.take(k))) <= p < crate::text::byte_len(
            rendered(messages.take(k + 1)),
        )
}

/// The ranges hold exactly the bytes of the assistant messages.
proof fn lemma_ranges_hold_bytes(messages: Seq<ChatMessage>, p: int)
    ensures
        is_assistant_byte(messages, p) <==> exists|r: int|
            0 <= r < assistant_ranges(messages).len() && (#[trigger] assistant_ranges(
                messages,
            )[r]).0 <= p < assistant_ranges(messages)[r].1,
    decreases messages.len(),
{
    if messages.len() > 0 {
        let before = messages.drop_last();
        let n = messages.len() as int;
        let old_ranges = assistant_ranges(before);
        let all_ranges = assistant_ranges(messages);
        lemma_ranges_hold_bytes(before, p);
        assert(messages.take(n) =~= messages);
        assert(messages.take(n - 1) =~= before);
        if is_assistant_byte(messages, p) {
            let k = choose|k: int|
                0 <= k < messages.len() && (#[trigger] messages[k]).role@ == "assistant"@
                    && crate::text::byte_len(rendered(messages.take(k))) <= p
                    < crate::text::byte_len(rendered(messages.take(k + 1)));
            if k < n - 1 {
                assert(messages.take(k) =~= before.take(k));
                assert(messages.take(k + 1) =~= before.take(k + 1));
                assert(before[k] == messages[k]);
                assert(is_assistant_byte(before, p));
                let r = choose|r: int|
                    0 <= r < old_ranges.len() && (#[trigger] old_ranges[r]).0 <= p
                        < old_ranges[r].1;
                assert(all_ranges[r] == old_ranges[r]);
            } else {
                assert(all_ranges[old_ranges.len() as int].0 <= p
                    < all_ranges[old_ranges.len() as int].1);
            }
        }
        if exists|r: int|
            0 <= r < all_ranges.len() && (#[trigger] all_ranges[r]).0 <= p < all_ranges[r].1 {
            let r = choose|r: int|
                0 <= r < all_ranges.len() && (#[trigger] all_ranges[r]).0 <= p < all_ranges[r].1;
            if r < old_ranges.len() {
                assert(old_ranges[r] == all_ranges[r]);
                let k = choose|k: int|
                    0 <= k < before.len() && (#[trigger] before[k]).role@ == "assistant"@
                        && crate::text::byte_len(rendered(before.take(k))) <= p
                        < crate::text::byte_len(rendered(before.take(k + 1)));
                assert(messages.take(k) =~= before.take(k));
                assert(messages.take(k + 1) =~= before.take(k + 1));
                assert(messages[k] == before[k]);
            } else {
                assert(messages[n - 1].role@ == "assistant"@);
            }
        }
    }
}

/// The loss is taken on every assistant turn of a conversation, the last as well
/// as the first, and on nothing else but the end of sequence: a token is a
/// target exactly when one of the bytes that it stands on belongs to the block
/// of an assistant message, or when it is the end of sequence.
pub proof fn law_targets_are_the_assistant_turns(
    tokenizer: BpeTokenizer,
    ids: Seq<u32>,
    messages: Seq<ChatMessage>,
    spans: Seq<ByteSpan>,
    i: int,
)
    requires
        ranges(spans) == assistant_ranges(messages),
        spelled(tokenizer, ids) == encode_utf8(rendered(messages)),
        spelled(tokenizer, ids).len() <= usize::MAX,
        0 <= i < ids.len(),
    ensures
        ids[i] == tokenizer.bos_id || ids[i] == tokenizer.pad_id || ids[i] == tokenizer.unk_id
            ==> !is_target(tokenizer, ids, spans, i),
        ids[i] == tokenizer.eos_id && ids[i] != tokenizer.bos_id && ids[i] != tokenizer.pad_id
            && ids[i] != tokenizer.unk_id ==> is_target(tokenizer, ids, spans, i),
        stands_for_text(tokenizer, ids[i]) && tokenizer.piece(ids[i]).len() > 0 ==> (is_target(
            tokenizer,
            ids,
            spans,
            i,
        ) <==> exists|p: int|
            byte_start(tokenizer, ids, i) <= p < byte_start(tokenizer, ids, i + 1)
                && #[trigger] is_assistant_byte(messages, p)),
{
    law_tokens_stand_on_their_bytes(tokenizer, ids, i);
    let start = byte_start(tokenizer, ids, i);
    let end = byte_start(tokenizer, ids, i + 1);
    assert(capped(start) == start && capped(end) == end);
    if stands_for_text(tokenizer, ids[i]) && tokenizer.piece(ids[i]).len() > 0 {
        if is_target(tokenizer, ids, spans, i) {
            let k = choose|k: int| 0 <= k < spans.len() && #[trigger] meets(spans[k], start, end);
            law_ranges_hold_the_assistant_blocks(messages);
            assert(assistant_ranges(messages)[k] == ranges(spans)[k]);
            let p: int = if start >= spans[k].start {
                start as int
            } else {
                spans[k].start as int
            };
            lemma_ranges_hold_bytes(messages, p);
            assert(is_assistant_byte(messages, p));
        }
        if exists|p: int| start <= p < end && #[trigger] is_assistant_byte(messages, p) {
            let p = choose|p: int| start <= p < end && #[trigger] is_assistant_byte(messages, p);
            lemma_ranges_hold_bytes(messages, p);
            let r = choose|r: int|
                0 <= r < assistant_ranges(messages).len() && (#[trigger] assistant_ranges(
                    messages,
                )[r]).0 <= p < assistant_ranges(messages)[r].1;
            assert(ranges(spans)[r] == assistant_ranges(messages)[r]);
            assert(meets(spans[r], start, end));
        }
    }
}

/// Why documents cannot be packed.
#[derive(Clone, Copy, Debug, PartialEq, Eq, Structural)]
pub enum PackError {
    ContextTooShort,
    EmptyCorpus,
    NoTargets,
    TooSparse { needed: usize },
}

impl PackError {
    /// The message shown to the user.
    pub open spec fn message(self) -> Seq<char> {
        match self {
            PackError::ContextTooShort => "packed windows require context_len >= 2"@,
            PackError::EmptyCorpus => "encoded corpus is empty"@,
            PackError::NoTargets => "encoded corpus has no supervised assistant/EOS tokens"@,
            PackError::TooSparse { needed } => "could not pack "@ + crate::text::decimal(
                needed as nat,
            ) + " windows with supervised next-token targets"@,
        }
    }

    /// The message shown to the user.
    pub fn to_string(&self) -> (text: String)
        ensures
            text@ == self.message(),
    {
        match *self {
            PackError::ContextTooShort => "packed windows require context_len >= 2".to_owned(),
            PackError::EmptyCorpus => "encoded corpus is empty".to_owned(),
            PackError::NoTargets =>
                "encoded corpus has no supervised assistant/EOS tokens".to_owned(),
            PackError::TooSparse { needed } => {
                let mut text = "could not pack ".to_owned();
                crate::text::push_decimal(&mut text, needed as u64);
                text.append(" windows with supervised next-token targets");
                text
            },
        }
    }
}

/// A document takes part when it has tokens and one label for each.
pub open spec fn takes_part(document: (Vec<u32>, Vec<u32>)) -> bool {
    document.0@.len() == document.1@.len() && document.0@.len() > 0
}

/// The tokens of the documents that take part, end to end.
pub open spec fn stream_tokens(documents: Seq<(Vec<u32>, Vec<u32>)>) -> Seq<u32>
    decreases documents.len(),
{
    if documents.len() == 0 {
        Seq::empty()
    } else if takes_part(documents.last()) {
        stream_tokens(documents.drop_last()) + documents.last().0@
    } else {
        stream_tokens(documents.drop_last())
    }
}

/// The labels of the documents that take part, end to end.
pub open spec fn stream_labels(documents: Seq<(Vec<u32>, Vec<u32>)>) -> Seq<u32>
    decreases documents.len(),
{
    if documents.len() == 0 {
        Seq::empty()
    } else if takes_part(documents.last()) {
        stream_labels(documents.drop_last()) + documents.last().1@
    } else {
        stream_labels(documents.drop_last())
    }
}

/// Every id is the padding id.
pub open spec fn all_pad(ids: Seq<u32>, pad: u32) -> bool {
    forall|i: int| 0 <= i < ids.len() ==> ids[i] == pad
}

/// Supervised labels among the `m` that follow position `pos` on the ring.
pub open spec fn targets_after(labels: Seq<u32>, pad: u32, pos: int, m: int) -> nat
    decreases m,
{
    if m <= 0 {
        0
    } else if labels[(pos + m) % (labels.len() as int)] != pad {
        targets_after(labels, pad, pos, m - 1) + 1
    } else {
        targets_after(labels, pad, pos, m - 1)
    }
}

/// Least number of next-token labels in a packed window: one eighth of what
/// the window can hold, at least one.
pub open spec fn least_targets(context_len: int) -> int {
    if (context_len - 1) / 8 >= 1 {
        (context_len - 1) / 8
    } else {
        1
    }
}

/// The window that starts at `pos` has enough targets to be worth a step.
pub open spec fn is_dense(labels: Seq<u32>, pad: u32, context_len: int, pos: int) -> bool {
    targets_after(labels, pad, pos, context_len - 1) >= least_targets(context_len)
}

/// Some window of the ring has enough targets.
pub open spec fn has_dense(labels: Seq<u32>, pad: u32, context_len: int) -> bool {
    exists|pos: int| 0 <= pos < labels.len() && is_dense(labels, pad, context_len, pos)
}

/// The window `k` places after `pos` on the ring has enough targets.
pub open spec fn dense_from(
    labels: Seq<u32>,
    pad: u32,
    context_len: int,
    pos: int,
    k: int,
) -> bool {
    is_dense(labels, pad, context_len, (pos + k) % (labels.len() as int))
}

/// From `pos` on, the first window with enough targets is `gap` places away.
pub open spec fn dense_after(
    labels: Seq<u32>,
    pad: u32,
    context_len: int,
    pos: int,
    gap: int,
) -> bool {
    &&& 0 <= gap
    &&& dense_from(labels, pad, context_len, pos, gap)
    &&& forall|k: int| 0 <= k < gap ==> !dense_from(labels, pad, context_len, pos, k)
}

/// Places skipped from `pos` on until a window has enough targets.
pub open spec fn gap(labels: Seq<u32>, pad: u32, context_len: int, pos: int) -> int {
    choose|g: int| dense_after(labels, pad, context_len, pos, g)
}

/// Where the search for window `i` starts.
pub open spec fn search_start(labels: Seq<u32>, pad: u32, context_len: int, i: int) -> int
    decreases i,
{
    if i <= 0 {
        0
    } else {
        let from = search_start(labels, pad, context_len, i - 1);
        let at = (from + gap(labels, pad, context_len, from)) % (labels.len() as int);
        (at + context_len) % (labels.len() as int)
    }
}

/// Where window `i` starts on the ring.
pub open spec fn window_start(labels: Seq<u32>, pad: u32, context_len: int, i: int) -> int {
    let from = search_start(labels, pad, context_len, i);
    (from + gap(labels, pad, context_len, from)) % (labels.len() as int)
}

/// Windows looked at until `i` of them were taken.
pub open spec fn scans(labels: Seq<u32>, pad: u32, context_len: int, i: int) -> int
    decreases i,
{
    if i <= 0 {
        0
    } else {
        scans(labels, pad, context_len, i - 1) + gap(
            labels,
            pad,
            context_len,
            search_start(labels, pad, context_len, i - 1),
        ) + 1
    }
}

/// Windows needed for `needed` tokens.
pub open spec fn windows_for(needed: int, context_len: int) -> int {
    (needed + context_len - 1) / context_len
}

/// How many windows may be looked at before the corpus counts as too sparse.
pub open spec fn scan_budget(n: int, needed: int, context_len: int) -> int {
    capped((2 * n + needed + context_len) as nat) as int + 1
}

/// Place on the ring that packed position `j` is taken from.
pub open spec fn source(labels: Seq<u32>, pad: u32, context_len: int, j: int) -> int {
    (window_start(labels, pad, context_len, j / context_len) + j % context_len) % (
    labels.len() as int)
}

/// What stops the packing, if anything does.
pub open spec fn pack_error(
    tokens: Seq<u32>,
    labels: Seq<u32>,
    context_len: usize,
    pad: u32,
    needed: usize,
) -> Option<PackError> {
    if context_len < 2 {
        Some(PackError::ContextTooShort)
    } else if needed == 0 || all_pad(tokens, pad) {
        Some(PackError::EmptyCorpus)
    } else if all_pad(labels, pad) {
        Some(PackError::NoTargets)
    } else if !has_dense(labels, pad, context_len as int) || scans(
        labels,
        pad,
        context_len as int,
        windows_for(needed as int, context_len as int),
    ) > scan_budget(labels.len() as int, needed as int, context_len as int) {
        Some(PackError::TooSparse { needed })
    } else {
        None
    }
}

/// Least number of next-token labels in a packed window.
///
/// Assistant-only loss leaves long system and user stretches with a handful of
/// supervised ids; a whole step must not be spent on a single end of sequence.
pub fn min_supervised_targets(context_len: usize) -> (n: usize)
    ensures
        context_len >= 1 ==> n == least_targets(context_len as int),
        context_len == 0 ==> n == 1,
{
    let eighth: usize = context_len.saturating_sub(1) / 8;
    if eighth >= 1 {
        eighth
    } else {
        1
    }
}

fn append_ids(out: &mut Vec<u32>, more: &Vec<u32>)
    ensures
        final(out)@ == old(out)@ + more@,
{
    let mut i: usize = 0;
    while i < more.len()
        invariant
            i <= more@.len(),
            out@ == old(out)@ + more@.take(i as int),
        decreases more@.len() - i,
    {
        out.push(more[i]);
        assert(more@.take(i + 1) =~= more@.take(i as int).push(more@[i as int]));
        i += 1;
        assert(out@ =~= old(out)@ + more@.take(i as int));
    }
    assert(more@.take(more@.len() as int) =~= more@);
}

fn only_pad(ids: &Vec<u32>, pad: u32) -> (only: bool)
    ensures
        only == all_pad(ids@, pad),
{
    let mut i: usize = 0;
    while i < ids.len()
        invariant
            i <= ids@.len(),
            forall|k: int| 0 <= k < i ==> ids@[k] == pad,
        decreases ids@.len() - i,
    {
        if ids[i] != pad {
            return false;
        }
        i += 1;
    }
    true
}

/// `pos + step` on a ring of `n` places.
fn ring_add(pos: usize, step: usize, n: usize) -> (r: usize)
    requires
        pos < n,
    ensures
        r == (pos + step) % (n as int),
        r < n,
{
    let s: usize = step % n;
    proof {
        vstd::arithmetic::div_mod::lemma_add_mod_noop(pos as int, step as int, n as int);
        vstd::arithmetic::div_mod::lemma_small_mod(pos as nat, n as nat);
    }
    if s < n - pos {
        proof {
            vstd::arithmetic::div_mod::lemma_small_mod((pos + s) as nat, n as nat);
        }
        pos + s
    } else {
        proof {
            vstd::arithmetic::div_mod::lemma_mod_sub_multiples_vanish((pos + s) as int, n as int);
            vstd::arithmetic::div_mod::lemma_small_mod((pos + s - n) as nat, n as nat);
        }
        s - (n - pos)
    }
}

proof fn lemma_targets_monotone(labels: Seq<u32>, pad: u32, pos: int, m: int, k: int)
    requires
        m <= k,
    ensures
        targets_after(labels, pad, pos, m) <= targets_after(labels, pad, pos, k),
    decreases k - m,
{
    if m < k {
        lemma_targets_monotone(labels, pad, pos, m, k - 1);
    }
}

fn window_is_dense(labels: &Vec<u32>, pad: u32, context_len: usize, pos: usize) -> (dense: bool)
    requires
        pos < labels@.len(),
        context_len >= 2,
    ensures
        dense == is_dense(labels@, pad, context_len as int, pos as int),
{
    let least: usize = min_supervised_targets(context_len);
    let mut found: usize = 0;
    let mut t: usize = 0;
    while t < context_len - 1
        invariant
            t <= context_len - 1,
            context_len >= 2,
            pos < labels@.len(),
            least == least_targets(context_len as int),
            found == targets_after(labels@, pad, pos as int, t as int),
            found <= t,
            found < least,
        decreases context_len - t,
    {
        if labels[ring_add(pos, t + 1, labels.len())] != pad {
            found += 1;
            if found >= least {
                proof {
                    lemma_targets_monotone(labels@, pad, pos as int, t + 1, context_len - 1);
                }
                return true;
            }
        }
        t += 1;
    }
    false
}

/// The gap is what the definition of [`dense_after`] says, and there is only
/// one such number.
proof fn lemma_gap(labels: Seq<u32>, pad: u32, context_len: int, pos: int)
    requires
        0 <= pos < labels.len(),
        has_dense(labels, pad, context_len),
    ensures
        dense_after(labels, pad, context_len, pos, gap(labels, pad, context_len, pos)),
{
    let n = labels.len() as int;
    let d = choose|d: int| 0 <= d < labels.len() && is_dense(labels, pad, context_len, d);
    let far = if d >= pos {
        d - pos
    } else {
        d - pos + n
    };
    if d < pos {
        vstd::arithmetic::div_mod::lemma_mod_add_multiples_vanish(d, n);
    }
    vstd::arithmetic::div_mod::lemma_small_mod(d as nat, n as nat);
    assert((pos + far) % n == d);
    lemma_least_gap(labels, pad, context_len, pos, far);
}

proof fn lemma_least_gap(labels: Seq<u32>, pad: u32, context_len: int, pos: int, far: int)
    requires
        0 <= far,
        dense_from(labels, pad, context_len, pos, far),
    ensures
        exists|g: int| dense_after(labels, pad, context_len, pos, g),
    decreases far,
{
    if dense_after(labels, pad, context_len, pos, far) {
    } else {
        let k = choose|k: int| 0 <= k < far && dense_from(labels, pad, context_len, pos, k);
        lemma_least_gap(labels, pad, context_len, pos, k);
    }
}

proof fn lemma_search_in_range(labels: Seq<u32>, pad: u32, context_len: int, i: int)
    requires
        labels.len() > 0,
    ensures
        0 <= search_start(labels, pad, context_len, i) < labels.len(),
{
    if i > 0 {
        let from = search_start(labels, pad, context_len, i - 1);
        let at = (from + gap(labels, pad, context_len, from)) % (labels.len() as int);
        vstd::arithmetic::div_mod::lemma_mod_bound(at + context_len, labels.len() as int);
    }
}

proof fn lemma_scans_grow(labels: Seq<u32>, pad: u32, context_len: int, i: int, j: int)
    requires
        0 <= i <= j,
        labels.len() > 0,
        has_dense(labels, pad, context_len),
    ensures
        scans(labels, pad, context_len, i) <= scans(labels, pad, context_len, j),
    decreases j - i,
{
    if i < j {
        lemma_scans_grow(labels, pad, context_len, i, j - 1);
        lemma_search_in_range(labels, pad, context_len, j - 1);
        lemma_gap(labels, pad, context_len, search_start(labels, pad, context_len, j - 1));
    }
}

proof fn lemma_stream_lengths(documents: Seq<(Vec<u32>, Vec<u32>)>)
    ensures
        stream_tokens(documents).len() == stream_labels(documents).len(),
    decreases documents.len(),
{
    if documents.len() > 0 {
        lemma_stream_lengths(documents.drop_last());
    }
}

/// `(x + y) % n` may be taken in two steps.
proof fn lemma_ring_step(x: int, y: int, n: int)
    requires
        n > 0,
    ensures
        (x % n + y) % n == (x + y) % n,
{
    vstd::arithmetic::div_mod::lemma_add_mod_noop(x, y, n);
    vstd::arithmetic::div_mod::lemma_add_mod_noop(x % n, y, n);
    vstd::arithmetic::div_mod::lemma_mod_twice(x, n);
}

/// Position `i` of window `k` is packed position `k * context_len + i`.
proof fn lemma_packed_position(context_len: int, k: int, i: int)
    requires
        0 <= i < context_len,
    ensures
        (k * context_len + i) / context_len == k,
        (k * context_len + i) % context_len == i,
{
    vstd::arithmetic::div_mod::lemma_fundamental_div_mod_converse(
        k * context_len + i,
        context_len,
        k,
        i,
    );
}

fn pack_stream(
    tokens: &Vec<u32>,
    labels: &Vec<u32>,
    context_len: usize,
    pad_id: u32,
    needed: usize,
) -> (packed: Result<(Vec<u32>, Vec<u32>), PackError>)
    requires
        context_len >= 2,
        needed > 0,
        tokens@.len() == labels@.len(),
        !all_pad(tokens@, pad_id),
        !all_pad(labels@, pad_id),
    ensures
        match packed {
            Ok(p) => {
                &&& pack_error(tokens@, labels@, context_len, pad_id, needed) is None
                &&& p.0@.len() == needed
                &&& p.1@.len() == needed
                &&& forall|j: int|
                    #![trigger p.0@[j]]
                    #![trigger p.1@[j]]
                    0 <= j < needed ==> p.0@[j] == tokens@[source(
                        labels@,
                        pad_id,
                        context_len as int,
                        j,
                    )] && p.1@[j] == labels@[source(labels@, pad_id, context_len as int, j)]
            },
            Err(e) => pack_error(tokens@, labels@, context_len, pad_id, needed) == Some(e),
        },
{
    let n: usize = tokens.len();
    let limit: usize = n.saturating_add(n).saturating_add(needed).saturating_add(context_len);
    let ghost ctx = context_len as int;
    let ghost ring = labels@.len() as int;
    let mut out_tokens: Vec<u32> = Vec::new();
    let mut out_labels: Vec<u32> = Vec::new();
    let mut pos: usize = 0;
    let mut scanned: u128 = 0;
    let ghost mut taken: int = 0;
    let ghost mut skipped: int = 0;
    proof {
        vstd::arithmetic::div_mod::lemma_small_mod(0, ring as nat);
    }
    while out_tokens.len() < needed
        invariant
            ctx == context_len >= 2,
            ring == labels@.len() == tokens@.len() == n,
            n > 0,
            needed > 0,
            !all_pad(tokens@, pad_id),
            !all_pad(labels@, pad_id),
            limit + 1 == scan_budget(ring, needed as int, ctx),
            taken >= 0,
            skipped >= 0,
            taken > 0 ==> has_dense(labels@, pad_id, ctx) && (taken - 1) * ctx < needed,
            out_tokens@.len() == out_labels@.len(),
            out_tokens@.len() == if taken * ctx <= needed {
                taken * ctx
            } else {
                needed as int
            },
            pos < n,
            pos == (search_start(labels@, pad_id, ctx, taken) + skipped) % ring,
            forall|k: int|
                0 <= k < skipped ==> !dense_from(
                    labels@,
                    pad_id,
                    ctx,
                    search_start(labels@, pad_id, ctx, taken),
                    k,
                ),
            scanned == scans(labels@, pad_id, ctx, taken) + skipped,
            scanned <= limit + 1,
            forall|j: int|
                #![trigger out_tokens@[j]]
                #![trigger out_labels@[j]]
                0 <= j < out_tokens@.len() ==> out_tokens@[j] == tokens@[source(
                    labels@,
                    pad_id,
                    ctx,
                    j,
                )] && out_labels@[j] == labels@[source(labels@, pad_id, ctx, j)],
        decreases limit + 2 - scanned,
    {
        let ghost from = search_start(labels@, pad_id, ctx, taken);
        proof {
            lemma_search_in_range(labels@, pad_id, ctx, taken);
        }
        if scanned > limit as u128 {
            proof {
                let w = windows_for(needed as int, ctx);
                assert(w >= taken + 1) by (nonlinear_arith)
                    requires
                        w == (needed + ctx - 1) / ctx,
                        ctx > 0,
                        taken * ctx < needed,
                ;
                if has_dense(labels@, pad_id, ctx) {
                    lemma_gap(labels@, pad_id, ctx, from);
                    lemma_scans_grow(labels@, pad_id, ctx, taken + 1, w);
                }
            }
            return Err(PackError::TooSparse { needed });
        }
        scanned += 1;
        if !window_is_dense(labels, pad_id, context_len, pos) {
            proof {
                lemma_ring_step(from + skipped, 1, ring);
                skipped = skipped + 1;
            }
            pos = ring_add(pos, 1, n);
            continue;
        }
        proof {
            assert(dense_from(labels@, pad_id, ctx, from, skipped));
            lemma_gap(labels@, pad_id, ctx, from);
            assert(gap(labels@, pad_id, ctx, from) == skipped);
            assert(window_start(labels@, pad_id, ctx, taken) == pos);
        }
        let mut i: usize = 0;
        while i < context_len && out_tokens.len() < needed
            invariant
                ctx == context_len >= 2,
                ring == labels@.len() == tokens@.len() == n,
                n > 0,
                taken >= 0,
                i <= context_len,
                pos < n,
                window_start(labels@, pad_id, ctx, taken) == pos,
                out_tokens@.len() == out_labels@.len(),
                out_tokens@.len() == taken * ctx + i,
                out_tokens@.len() <= needed,
                forall|j: int|
                    #![trigger out_tokens@[j]]
                    #![trigger out_labels@[j]]
                    0 <= j < out_tokens@.len() ==> out_tokens@[j] == tokens@[source(
                        labels@,
                        pad_id,
                        ctx,
                        j,
                    )] && out_labels@[j] == labels@[source(labels@, pad_id, ctx, j)],
            decreases context_len - i,
        {
            let index: usize = ring_add(pos, i, n);
            proof {
                lemma_packed_position(ctx, taken, i as int);
                assert(source(labels@, pad_id, ctx, taken * ctx + i) == index);
            }
            out_tokens.push(tokens[index]);
            out_labels.push(labels[index]);
            i += 1;
        }
        pos = ring_add(pos, context_len, n);
        proof {
            assert((taken + 1) * ctx == taken * ctx + ctx) by (nonlinear_arith);
            vstd::arithmetic::div_mod::lemma_small_mod(pos as nat, ring as nat);
            taken = taken + 1;
            skipped = 0;
            assert(search_start(labels@, pad_id, ctx, taken) == pos);
        }
    }
    proof {
        let w = windows_for(needed as int, ctx);
        assert(w == taken) by (nonlinear_arith)
            requires
                w == (needed + ctx - 1) / ctx,
                ctx > 0,
                taken * ctx >= needed,
                (taken - 1) * ctx < needed,
        ;
    }
    Ok((out_tokens, out_labels))
}

/// Every packed window carries enough targets: window `i` of a stream packed
/// with a whole number of windows has at least [`least_targets`] labels after
/// its first position that are not the padding id.
pub proof fn law_packed_windows_are_dense(
    tokens: Seq<u32>,
    labels: Seq<u32>,
    context_len: usize,
    pad: u32,
    needed: usize,
    i: int,
)
    requires
        tokens.len() == labels.len(),
        pack_error(tokens, labels, context_len, pad, needed) is None,
        0 <= i,
        (i + 1) * context_len <= needed,
    ensures
        is_dense(labels, pad, context_len as int, window_start(labels, pad, context_len as int, i)),
        forall|t: int|
            0 <= t < context_len ==> #[trigger] source(
                labels,
                pad,
                context_len as int,
                i * context_len + t,
            ) == (window_start(labels, pad, context_len as int, i) + t) % (labels.len() as int),
{
    let ctx = context_len as int;
    lemma_search_in_range(labels, pad, ctx, i);
    lemma_gap(labels, pad, ctx, search_start(labels, pad, ctx, i));
    assert forall|t: int| 0 <= t < ctx implies #[trigger] source(labels, pad, ctx, i * ctx + t) == (
    window_start(labels, pad, ctx, i) + t) % (labels.len() as int) by {
        lemma_packed_position(ctx, i, t);
    }
}

/// Packing never invents an id: every packed token is a token of the corpus,
/// with the label that stands beside it there.
pub proof fn law_packed_ids_come_from_the_corpus(
    tokens: Seq<u32>,
    labels: Seq<u32>,
    context_len: usize,
    pad: u32,
    needed: usize,
    j: int,
)
    requires
        tokens.len() == labels.len(),
        pack_error(tokens, labels, context_len, pad, needed) is None,
        0 <= j < needed,
    ensures
        0 <= source(labels, pad, context_len as int, j) < tokens.len(),
{
    let ctx = context_len as int;
    vstd::arithmetic::div_mod::lemma_mod_bound(
        window_start(labels, pad, ctx, j / ctx) + j % ctx,
        labels.len() as int,
    );
}

/// The labels behind the first place of the window at `pos` that are targets,
/// counted by their places in the window.
pub open spec fn target_places(
    labels: Seq<u32>,
    pad: u32,
    context_len: int,
    pos: int,
) -> Set<int> {
    Set::new(|t: int| 1 <= t < context_len && labels[(pos + t) % (labels.len() as int)] != pad)
}

/// The window at `pos` is worth a step: an eighth of the places behind its first
/// are targets, and at least one.
pub open spec fn worth_a_step(labels: Seq<u32>, pad: u32, context_len: int, pos: int) -> bool {
    &&& target_places(labels, pad, context_len, pos).len() >= 1
    &&& target_places(labels, pad, context_len, pos).len() >= (context_len - 1) / 8
}

/// A window is taken exactly when it is worth a step.
pub proof fn law_dense_windows_are_worth_a_step(
    labels: Seq<u32>,
    pad: u32,
    context_len: int,
    pos: int,
)
    requires
        context_len >= 2,
    ensures
        is_dense(labels, pad, context_len, pos) == worth_a_step(labels, pad, context_len, pos),
{
    let p = |t: int| labels[(pos + t) % (labels.len() as int)] != pad;
    lemma_targets_are_places(labels, pad, pos, context_len - 1);
    assert(target_places(labels, pad, context_len, pos) =~= crate::counting::places(
        p,
        1,
        context_len,
    ));
}

proof fn lemma_targets_are_places(labels: Seq<u32>, pad: u32, pos: int, m: int)
    requires
        0 <= m,
    ensures
        targets_after(labels, pad, pos, m) == crate::counting::places(
            |t: int| labels[(pos + t) % (labels.len() as int)] != pad,
            1,
            m + 1,
        ).len(),
    decreases m,
{
    let p = |t: int| labels[(pos + t) % (labels.len() as int)] != pad;
    if m > 0 {
        lemma_targets_are_places(labels, pad, pos, m - 1);
        crate::counting::lemma_places_step(p, 1, m + 1);
    } else {
        assert(crate::counting::places(p, 1, 1) =~= Set::empty());
    }
}

/// Window `i` starts at the first place that is worth a step, from right behind
/// the last token of the window before on; the first window is looked for from
/// the start of the corpus.
pub proof fn law_windows_follow_each_other(
    labels: Seq<u32>,
    pad: u32,
    context_len: int,
    some: int,
    i: int,
) -> (gap: int)
    requires
        context_len >= 2,
        0 <= some < labels.len(),
        worth_a_step(labels, pad, context_len, some),
        0 <= i,
    ensures
        ({
            let n = labels.len() as int;
            let behind = if i == 0 {
                0
            } else {
                window_start(labels, pad, context_len, i - 1) + context_len
            };
            &&& 0 <= gap < n
            &&& window_start(labels, pad, context_len, i) == (behind + gap) % n
            &&& worth_a_step(
                labels,
                pad,
                context_len,
                window_start(labels, pad, context_len, i),
            )
            &&& forall|k: int|
                0 <= k < gap ==> !worth_a_step(
                    labels,
                    pad,
                    context_len,
                    #[trigger] ((behind + k) % n),
                )
        }),
{
    let n = labels.len() as int;
    let from = search_start(labels, pad, context_len, i);
    let behind = if i == 0 {
        0
    } else {
        window_start(labels, pad, context_len, i - 1) + context_len
    };
    let g = self::gap(labels, pad, context_len, from);
    law_dense_windows_are_worth_a_step(labels, pad, context_len, some);
    assert(has_dense(labels, pad, context_len));
    lemma_search_in_range(labels, pad, context_len, i);
    lemma_gap(labels, pad, context_len, from);
    lemma_gap_below(labels, pad, context_len, from);
    vstd::arithmetic::div_mod::lemma_small_mod(0, n as nat);
    assert(from == behind % n);
    assert forall|k: int| 0 <= k <= g implies #[trigger] ((behind + k) % n) == (from + k) % n by {
        lemma_ring_step(behind, k, n);
    }
    assert((behind + g) % n == (from + g) % n);
    law_dense_windows_are_worth_a_step(labels, pad, context_len, (from + g) % n);
    assert(dense_from(labels, pad, context_len, from, g));
    assert forall|k: int| 0 <= k < g implies !worth_a_step(
        labels,
        pad,
        context_len,
        #[trigger] ((behind + k) % n),
    ) by {
        assert(!dense_from(labels, pad, context_len, from, k));
        law_dense_windows_are_worth_a_step(labels, pad, context_len, (from + k) % n);
        assert((behind + k) % n == (from + k) % n);
    }
    g
}

proof fn lemma_gap_below(labels: Seq<u32>, pad: u32, context_len: int, pos: int)
    requires
        0 <= pos < labels.len(),
        has_dense(labels, pad, context_len),
    ensures
        0 <= gap(labels, pad, context_len, pos) < labels.len(),
{
    let n = labels.len() as int;
    let d = choose|d: int| 0 <= d < labels.len() && is_dense(labels, pad, context_len, d);
    let far = if d >= pos {
        d - pos
    } else {
        d - pos + n
    };
    if d < pos {
        vstd::arithmetic::div_mod::lemma_mod_add_multiples_vanish(d, n);
    }
    vstd::arithmetic::div_mod::lemma_small_mod(d as nat, n as nat);
    assert(dense_from(labels, pad, context_len, pos, far));
    lemma_gap(labels, pad, context_len, pos);
}

/// Position `t` of window `i` is the `t`-th token from the start of the window
/// on, round the ring.
pub proof fn law_a_window_is_a_run_of_the_ring(
    labels: Seq<u32>,
    pad: u32,
    context_len: int,
    i: int,
    t: int,
)
    requires
        0 <= t < context_len,
        0 <= i,
    ensures
        source(labels, pad, context_len, i * context_len + t) == (window_start(
            labels,
            pad,
            context_len,
            i,
        ) + t) % (labels.len() as int),
{
    lemma_packed_position(context_len, i, t);
}

/// Where every window is worth a step, packing always succeeds and reads the
/// corpus once round after the other, in order: output `j` is token `j % n` with
/// its label.
pub proof fn law_a_dense_corpus_is_packed_in_order(
    tokens: Seq<u32>,
    labels: Seq<u32>,
    context_len: usize,
    pad: u32,
    needed: usize,
)
    requires
        tokens.len() == labels.len() > 0,
        context_len >= 2,
        needed > 0,
        exists|i: int| 0 <= i < tokens.len() && #[trigger] tokens[i] != pad,
        forall|pos: int|
            0 <= pos < labels.len() ==> #[trigger] worth_a_step(
                labels,
                pad,
                context_len as int,
                pos,
            ),
    ensures
        pack_error(tokens, labels, context_len, pad, needed) is None,
        forall|j: int|
            0 <= j ==> #[trigger] source(labels, pad, context_len as int, j) == j % (
            labels.len() as int),
{
    let ctx = context_len as int;
    let n = labels.len() as int;
    assert forall|pos: int| 0 <= pos < n implies #[trigger] is_dense(labels, pad, ctx, pos) by {
        law_dense_windows_are_worth_a_step(labels, pad, ctx, pos);
        assert(worth_a_step(labels, pad, ctx, pos));
    }
    assert(is_dense(labels, pad, ctx, 0));
    let w = windows_for(needed as int, ctx);
    assert(0 <= w <= needed) by (nonlinear_arith)
        requires
            w == (needed + ctx - 1) / ctx,
            ctx >= 2,
            needed > 0,
    ;
    lemma_dense_walk(labels, pad, ctx, w);
    assert(!all_pad(labels, pad)) by {
        assert(worth_a_step(labels, pad, ctx, 0));
        let s = target_places(labels, pad, ctx, 0);
        let t = s.choose();
        assert(s.contains(t)) by {
            if forall|a: int| !s.contains(a) {
                assert(s =~= Set::empty());
            }
        }
        vstd::arithmetic::div_mod::lemma_mod_bound(t, n);
        assert(labels[(0 + t) % n] != pad);
    }
    assert forall|j: int| 0 <= j implies #[trigger] source(labels, pad, ctx, j) == j % n by {
        let i = j / ctx;
        let t = j % ctx;
        assert(j == i * ctx + t && i >= 0 && 0 <= t < ctx) by (nonlinear_arith)
            requires
                0 <= j,
                ctx >= 2,
                i == j / ctx,
                t == j % ctx,
        ;
        lemma_dense_walk(labels, pad, ctx, i);
        lemma_ring_step(i * ctx, t, n);
    }
}

proof fn lemma_dense_walk(labels: Seq<u32>, pad: u32, ctx: int, i: int)
    requires
        labels.len() > 0,
        0 <= i,
        forall|pos: int| 0 <= pos < labels.len() ==> #[trigger] is_dense(labels, pad, ctx, pos),
    ensures
        search_start(labels, pad, ctx, i) == (i * ctx) % (labels.len() as int),
        window_start(labels, pad, ctx, i) == (i * ctx) % (labels.len() as int),
        scans(labels, pad, ctx, i) == i,
    decreases i,
{
    let n = labels.len() as int;
    assert(is_dense(labels, pad, ctx, 0));
    if i > 0 {
        lemma_dense_walk(labels, pad, ctx, i - 1);
        lemma_ring_step((i - 1) * ctx, ctx, n);
        assert((i - 1) * ctx + ctx == i * ctx) by (nonlinear_arith);
        lemma_dense_gap(labels, pad, ctx, search_start(labels, pad, ctx, i - 1));
        vstd::arithmetic::div_mod::lemma_mod_twice((i - 1) * ctx, n);
    } else {
        assert(0 * ctx == 0);
        vstd::arithmetic::div_mod::lemma_small_mod(0, n as nat);
    }
    lemma_dense_gap(labels, pad, ctx, search_start(labels, pad, ctx, i));
    vstd::arithmetic::div_mod::lemma_mod_twice(i * ctx, n);
}

proof fn lemma_dense_gap(labels: Seq<u32>, pad: u32, ctx: int, pos: int)
    requires
        0 <= pos < labels.len() || labels.len() > 0 && pos == search_start(labels, pad, ctx, 0)
            || labels.len() > 0 && exists|i: int| pos == #[trigger] search_start(
            labels,
            pad,
            ctx,
            i,
        ),
        forall|p: int| 0 <= p < labels.len() ==> #[trigger] is_dense(labels, pad, ctx, p),
    ensures
        0 <= pos < labels.len(),
        gap(labels, pad, ctx, pos) == 0,
{
    if !(0 <= pos < labels.len()) {
        let i = choose|i: int| pos == #[trigger] search_start(labels, pad, ctx, i);
        lemma_search_in_range(labels, pad, ctx, i);
    }
    let n = labels.len() as int;
    assert(is_dense(labels, pad, ctx, pos));
    lemma_gap(labels, pad, ctx, pos);
    vstd::arithmetic::div_mod::lemma_small_mod(pos as nat, n as nat);
    assert(dense_from(labels, pad, ctx, pos, 0));
}

/// A corpus without a window that is worth a step is refused, and one with such
/// a window always gives a first window.
pub proof fn law_a_window_is_found_where_there_is_one(
    tokens: Seq<u32>,
    labels: Seq<u32>,
    context_len: usize,
    pad: u32,
    needed: usize,
)
    requires
        tokens.len() == labels.len() > 0,
        context_len >= 2,
        needed > 0,
        exists|i: int| 0 <= i < tokens.len() && #[trigger] tokens[i] != pad,
        exists|i: int| 0 <= i < labels.len() && #[trigger] labels[i] != pad,
        tokens.len() < usize::MAX,
    ensures
        (forall|pos: int|
            0 <= pos < labels.len() ==> !#[trigger] worth_a_step(
                labels,
                pad,
                context_len as int,
                pos,
            )) ==> pack_error(tokens, labels, context_len, pad, needed) == Some(
            PackError::TooSparse { needed },
        ),
        needed <= context_len && (exists|pos: int|
            0 <= pos < labels.len() && #[trigger] worth_a_step(
                labels,
                pad,
                context_len as int,
                pos,
            )) ==> pack_error(tokens, labels, context_len, pad, needed) is None,
{
    let ctx = context_len as int;
    let n = labels.len() as int;
    assert forall|pos: int| #[trigger] is_dense(labels, pad, ctx, pos) == worth_a_step(
        labels,
        pad,
        ctx,
        pos,
    ) by {
        law_dense_windows_are_worth_a_step(labels, pad, ctx, pos);
    }
    if exists|pos: int| 0 <= pos < n && #[trigger] worth_a_step(labels, pad, ctx, pos) {
        let pos = choose|pos: int| 0 <= pos < n && #[trigger] worth_a_step(labels, pad, ctx, pos);
        assert(is_dense(labels, pad, ctx, pos));
        assert(has_dense(labels, pad, ctx));
        if needed <= context_len {
            assert(windows_for(needed as int, ctx) == 1) by (nonlinear_arith)
                requires
                    0 < needed <= ctx,
                    windows_for(needed as int, ctx) == (needed + ctx - 1) / ctx,
            ;
            lemma_gap_below(labels, pad, ctx, 0);
            assert(scans(labels, pad, ctx, 0) == 0);
            assert(scans(labels, pad, ctx, 1) == gap(labels, pad, ctx, 0) + 1);
        }
    } else {
        assert forall|pos: int| 0 <= pos < n implies !is_dense(labels, pad, ctx, pos) by {
            assert(!worth_a_step(labels, pad, ctx, pos));
        }
        assert(!has_dense(labels, pad, ctx));
    }
}

/// The documents are joined end to end: a corpus in two parts is the one part
/// and then the other, and a document takes part whole, with its labels, or, when
/// it has not one label for each token, not at all.
pub proof fn law_documents_are_joined(
    a: Seq<(Vec<u32>, Vec<u32>)>,
    b: Seq<(Vec<u32>, Vec<u32>)>,
)
    ensures
        stream_tokens(a + b) == stream_tokens(a) + stream_tokens(b),
        stream_labels(a + b) == stream_labels(a) + stream_labels(b),
        b.len() == 1 && b[0].0@.len() == b[0].1@.len() ==> stream_tokens(b) == b[0].0@
            && stream_labels(b) == b[0].1@,
        b.len() == 1 && b[0].0@.len() != b[0].1@.len() ==> stream_tokens(b).len() == 0
            && stream_labels(b).len() == 0,
    decreases b.len(),
{
    if b.len() == 0 {
        assert(a + b =~= a);
        assert(stream_tokens(a) + stream_tokens(b) =~= stream_tokens(a));
        assert(stream_labels(a) + stream_labels(b) =~= stream_labels(a));
    } else {
        law_documents_are_joined(a, b.drop_last());
        assert((a + b).drop_last() =~= a + b.drop_last());
        assert((a + b).last() == b.last());
        assert(stream_tokens(a + b) =~= stream_tokens(a) + stream_tokens(b));
        assert(stream_labels(a + b) =~= stream_labels(a) + stream_labels(b));
        if b.len() == 1 {
            assert(b.drop_last() =~= Seq::empty());
            assert(stream_tokens(b.drop_last()).len() == 0);
            assert(stream_labels(b.drop_last()).len() == 0);
            if b[0].0@.len() == b[0].1@.len() {
                assert(stream_tokens(b) =~= b[0].0@);
                assert(stream_labels(b) =~= b[0].1@);
            }
        }
    }
}

/// Dense token stream: documents are concatenated, never padded.
///
/// Padding in the input would repeat one embedding for the rest of the window;
/// the ignored id lives only in the labels, and every forwarded id is a token
/// of the corpus. Windows with too few next-token labels are skipped, so that
/// a wide step on one end of sequence cannot outweigh a dense assistant span.
pub fn pack_document_windows(
    documents: &[(Vec<u32>, Vec<u32>)],
    context_len: usize,
    pad_id: u32,
    needed: usize,
) -> (packed: Result<(Vec<u32>, Vec<u32>), PackError>)
    ensures
        ({
            let tokens = stream_tokens(documents@);
            let labels = stream_labels(documents@);
            match packed {
                Ok(p) => {
                    &&& pack_error(tokens, labels, context_len, pad_id, needed) is None
                    &&& p.0@.len() == needed
                    &&& p.1@.len() == needed
                    &&& forall|j: int|
                        #![trigger p.0@[j]]
                        #![trigger p.1@[j]]
                        0 <= j < needed ==> p.0@[j] == tokens[source(
                            labels,
                            pad_id,
                            context_len as int,
                            j,
                        )] && p.1@[j] == labels[source(labels, pad_id, context_len as int, j)]
                    &&& (forall|pos: int|
                        0 <= pos < labels.len() ==> #[trigger] worth_a_step(
                            labels,
                            pad_id,
                            context_len as int,
                            pos,
                        )) ==> forall|j: int|
                        #![trigger p.0@[j]]
                        #![trigger p.1@[j]]
                        0 <= j < needed ==> p.0@[j] == tokens[j % (tokens.len() as int)]
                            && p.1@[j] == labels[j % (labels.len() as int)]
                },
                Err(e) => pack_error(tokens, labels, context_len, pad_id, needed) == Some(e),
            }
        }),
{
    if context_len < 2 {
        return Err(PackError::ContextTooShort);
    }
    if needed == 0 {
        return Err(PackError::EmptyCorpus);
    }
    let mut tokens: Vec<u32> = Vec::new();
    let mut labels: Vec<u32> = Vec::new();
    let mut i: usize = 0;
    assert(documents@.take(0) =~= Seq::empty());
    while i < documents.len()
        invariant
            i <= documents@.len(),
            tokens@ == stream_tokens(documents@.take(i as int)),
            labels@ == stream_labels(documents@.take(i as int)),
        decreases documents@.len() - i,
    {
        let document = &documents[i];
        assert(documents@.take(i + 1).drop_last() =~= documents@.take(i as int));
        assert(documents@.take(i + 1).last() == document);
        if document.0.len() == document.1.len() && document.0.len() != 0 {
            append_ids(&mut tokens, &document.0);
            append_ids(&mut labels, &document.1);
        }
        i += 1;
    }
    assert(documents@.take(documents@.len() as int) =~= documents@);
    if only_pad(&tokens, pad_id) {
        return Err(PackError::EmptyCorpus);
    }
    if only_pad(&labels, pad_id) {
        return Err(PackError::NoTargets);
    }
    proof {
        lemma_stream_lengths(documents@);
        if forall|pos: int|
            0 <= pos < labels@.len() ==> #[trigger] worth_a_step(
                labels@,
                pad_id,
                context_len as int,
                pos,
            ) {
            law_a_dense_corpus_is_packed_in_order(tokens@, labels@, context_len, pad_id, needed);
        }
    }
    pack_stream(&tokens, &labels, context_len, pad_id, needed)
}

/// A message is wrapped in the tags of its role, with every word of it between
/// them; the thinking of an assistant stands in tags of its own before what it
/// says. A role that is not known leaves no trace.
pub proof fn law_messages_are_wrapped_in_their_role(m: ChatMessage)
    ensures
        m.role@ == "system"@ ==> block(m) == "<system>"@ + m.content@ + "</system>"@,
        m.role@ == "user"@ ==> block(m) == "<user>"@ + m.content@ + "</user>"@,
        m.role@ == "tool"@ ==> block(m) == "<tool>"@ + m.content@ + "</tool>"@,
        m.role@ == "assistant"@ && m.thinking is Some ==> block(m) == "<assistant>"@
            + "<thinking>"@ + m.thinking->0@ + "</thinking>"@ + m.content@ + "</assistant>"@,
        m.role@ == "assistant"@ && m.thinking is None ==> block(m) == "<assistant>"@
            + "<thinking>"@ + "</thinking>"@ + m.content@ + "</assistant>"@,
        m.role@ != "system"@ && m.role@ != "user"@ && m.role@ != "assistant"@ && m.role@ != "tool"@
            ==> block(m).len() == 0,
{
    reveal_strlit("system");
    reveal_strlit("user");
    reveal_strlit("assistant");
    reveal_strlit("tool");
    assert("user"@[0] != "tool"@[0]);
    assert("system"@.len() == 6 && "user"@.len() == 4 && "assistant"@.len() == 9 && "tool"@.len()
        == 4);
    let open = "<assistant>"@ + "<thinking>"@;
    assert(open + Seq::<char>::empty() =~= open);
}

/// A text that holds an opening tag is taken as it is; any other becomes the
/// words of a user, and an assistant begins to think behind them.
pub proof fn law_plain_text_becomes_a_user_turn(text: Seq<char>)
    ensures
        is_marked(text) <==> {
            ||| exists|at: int| crate::text::occurs_at(text, "<system>"@, at)
            ||| exists|at: int| crate::text::occurs_at(text, "<user>"@, at)
            ||| exists|at: int| crate::text::occurs_at(text, "<assistant>"@, at)
        },
        is_marked(text) ==> opening(text) == text,
        !is_marked(text) ==> opening(text) == "<user>"@ + text + "</user>"@ + "<assistant>"@
            + "<thinking>"@,
{
}

/// What is refused before any window is looked for: a context without room for a
/// target, a corpus of nothing but padding or of which nothing is wanted, and one
/// of which nothing is learned.
pub proof fn law_corpora_that_are_refused(
    tokens: Seq<u32>,
    labels: Seq<u32>,
    context_len: usize,
    pad: u32,
    needed: usize,
)
    ensures
        ({
            let words = exists|i: int| 0 <= i < tokens.len() && #[trigger] tokens[i] != pad;
            let targets = exists|i: int| 0 <= i < labels.len() && #[trigger] labels[i] != pad;
            let error = pack_error(tokens, labels, context_len, pad, needed);
            &&& error == Some(PackError::ContextTooShort) <==> context_len <= 1
            &&& error == Some(PackError::EmptyCorpus) <==> context_len >= 2 && (needed == 0
                || !words)
            &&& error == Some(PackError::NoTargets) <==> context_len >= 2 && needed > 0 && words
                && !targets
            &&& forall|n: usize| error == Some(PackError::TooSparse { needed: n }) ==> n == needed
        }),
{
}

/// Packing gives up when it has looked at more windows than twice the corpus, the
/// tokens that are wanted and a window hold together, and not before.
pub proof fn law_packing_gives_up_after_enough_windows(
    tokens: Seq<u32>,
    labels: Seq<u32>,
    context_len: usize,
    pad: u32,
    needed: usize,
    some: int,
)
    requires
        tokens.len() == labels.len() > 0,
        context_len >= 2,
        needed > 0,
        exists|i: int| 0 <= i < tokens.len() && #[trigger] tokens[i] != pad,
        exists|i: int| 0 <= i < labels.len() && #[trigger] labels[i] != pad,
        0 <= some < labels.len(),
        worth_a_step(labels, pad, context_len as int, some),
        2 * tokens.len() + needed + context_len <= usize::MAX,
    ensures
        pack_error(tokens, labels, context_len, pad, needed) is None <==> crate::hadamard::total(
            |i: int|
                gap(
                    labels,
                    pad,
                    context_len as int,
                    search_start(labels, pad, context_len as int, i),
                ) + 1,
            0,
            (needed + context_len - 1) / (context_len as int),
        ) <= 2 * tokens.len() + needed + context_len + 1,
{
    let ctx = context_len as int;
    law_dense_windows_are_worth_a_step(labels, pad, ctx, some);
    assert(is_dense(labels, pad, ctx, some));
    let w = (needed + ctx - 1) / ctx;
    assert(w >= 0) by (nonlinear_arith)
        requires
            w == (needed + ctx - 1) / ctx,
            ctx >= 2,
            needed > 0,
    ;
    lemma_scans_add_up(labels, pad, ctx, w);
}

proof fn lemma_scans_add_up(labels: Seq<u32>, pad: u32, ctx: int, n: int)
    requires
        0 <= n,
    ensures
        scans(labels, pad, ctx, n) == crate::hadamard::total(
            |i: int| gap(labels, pad, ctx, search_start(labels, pad, ctx, i)) + 1,
            0,
            n,
        ),
    decreases n,
{
    if n > 0 {
        lemma_scans_add_up(labels, pad, ctx, n - 1);
    }
}

} // verus!

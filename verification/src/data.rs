//! Four-key chat records: their token stream, the supervised windows cut from
//! it, and the ring that feeds training.
//!
//! A record is the four texts `system`, `user`, `thinking` and `output`. Its
//! stream is the four texts behind their tags, and the loss is taken on the
//! thinking and the output only.
use vstd::prelude::*;
use vstd::slice::slice_subrange;
use vstd::string::*;
use crate::text::{chars_of, find_chars, trim, white};

verus! {

/// Token ring cap, independent of file size and thinking depth.
pub const MAX_TOKEN_BUF: usize = 32_768;

pub const TAG_SYSTEM: &'static str = "<|system|>";

pub const TAG_USER: &'static str = "<|user|>";

pub const TAG_THINKING: &'static str = "<|thinking|>";

pub const TAG_THINK_END: &'static str = "<|/thinking|>";

pub const TAG_OUTPUT: &'static str = "<|output|>";

/// Canonical four-key record. All four strings are required; empty is allowed.
#[derive(Debug)]
pub struct ChatRecord {
    pub system: String,
    pub user: String,
    pub thinking: String,
    pub output: String,
}

/// A text behind its tag, each on a line of its own.
pub open spec fn section(tag: Seq<char>, body: Seq<char>) -> Seq<char> {
    tag + "\n"@ + crate::text::trimmed(body) + "\n"@
}

/// The thinking section, with its closing tag.
pub open spec fn thinking_section(body: Seq<char>) -> Seq<char> {
    section(TAG_THINKING@, body) + TAG_THINK_END@ + "\n"@
}

/// The stream of a record, as far as its parts are given.
pub open spec fn record_text(
    system: Seq<char>,
    user: Seq<char>,
    thinking: Option<Seq<char>>,
    output: Option<Seq<char>>,
) -> Seq<char> {
    let head = section(TAG_SYSTEM@, system) + section(TAG_USER@, user);
    let middle = match thinking {
        Some(t) => thinking_section(t),
        None => Seq::empty(),
    };
    let tail = match output {
        Some(o) => section(TAG_OUTPUT@, o),
        None => Seq::empty(),
    };
    head + middle + tail
}

/// The characters of an optional text.
pub open spec fn opt_text(text: Option<&str>) -> Option<Seq<char>> {
    match text {
        Some(t) => Some(t@),
        None => None,
    }
}

fn push_section(out: &mut String, tag: &str, body: &str)
    ensures
        final(out)@ == old(out)@ + section(tag@, body@),
{
    out.append(tag);
    out.append("\n");
    out.append(trim(body));
    out.append("\n");
    assert(out@ =~= old(out)@ + section(tag@, body@));
}

fn push_thinking(out: &mut String, body: &str)
    ensures
        final(out)@ == old(out)@ + thinking_section(body@),
{
    push_section(out, TAG_THINKING, body);
    out.append(TAG_THINK_END);
    out.append("\n");
    assert(out@ =~= old(out)@ + thinking_section(body@));
}

/// The stream used both to train and to prompt, as far as its parts are given.
pub fn pack_record(
    system: &str,
    user: &str,
    thinking: Option<&str>,
    output: Option<&str>,
) -> (out: String)
    ensures
        out@ == record_text(system@, user@, opt_text(thinking), opt_text(output)),
{
    let mut out = String::new();
    push_section(&mut out, TAG_SYSTEM, system);
    push_section(&mut out, TAG_USER, user);
    if let Some(t) = thinking {
        push_thinking(&mut out, t);
    }
    if let Some(o) = output {
        push_section(&mut out, TAG_OUTPUT, o);
    }
    assert(out@ =~= record_text(system@, user@, opt_text(thinking), opt_text(output)));
    out
}

/// The texts whose tokens make up a record: what is conditioned on, the
/// thinking, and the output.
pub struct PartTexts {
    pub prefix: String,
    pub thinking: String,
    pub output: String,
}

impl ChatRecord {
    /// The whole stream of the record.
    pub fn pack(&self) -> (out: String)
        ensures
            out@ == record_text(
                self.system@,
                self.user@,
                Some(self.thinking@),
                Some(self.output@),
            ),
    {
        pack_record(
            self.system.as_str(),
            self.user.as_str(),
            Some(self.thinking.as_str()),
            Some(self.output.as_str()),
        )
    }

    /// The texts that are encoded on their own.
    pub fn part_texts(&self) -> (parts: PartTexts)
        ensures
            parts.prefix@ == record_text(self.system@, self.user@, None, None),
            parts.thinking@ == thinking_section(self.thinking@),
            parts.output@ == section(TAG_OUTPUT@, self.output@),
    {
        let prefix = pack_record(self.system.as_str(), self.user.as_str(), None, None);
        let mut thinking = String::new();
        push_thinking(&mut thinking, self.thinking.as_str());
        let mut output = String::new();
        push_section(&mut output, TAG_OUTPUT, self.output.as_str());
        assert(thinking@ =~= thinking_section(self.thinking@));
        assert(output@ =~= section(TAG_OUTPUT@, self.output@));
        PartTexts { prefix, thinking, output }
    }

    /// Whether a parsed record is worth keeping: a record of nothing but
    /// thinking is not.
    pub fn is_usable(&self) -> (usable: bool)
        ensures
            usable == !(self.system@.len() == 0 && self.user@.len() == 0 && self.output@.len()
                == 0),
    {
        !(self.system.as_str().is_empty() && self.user.as_str().is_empty()
            && self.output.as_str().is_empty())
    }
}

/// The parts of a record, end to end, are its stream: encoding them one by one
/// covers the same text as the packed record.
pub proof fn law_parts_make_up_the_record(
    system: Seq<char>,
    user: Seq<char>,
    thinking: Seq<char>,
    output: Seq<char>,
)
    ensures
        record_text(system, user, Some(thinking), Some(output)) == record_text(
            system,
            user,
            None,
            None,
        ) + thinking_section(thinking) + section(TAG_OUTPUT@, output),
{
    assert(record_text(system, user, Some(thinking), Some(output)) =~= record_text(
        system,
        user,
        None,
        None,
    ) + thinking_section(thinking) + section(TAG_OUTPUT@, output));
}

/// The part of a JSONL line that is parsed; nothing for a blank line.
pub fn line_body(line: &str) -> (body: Option<&str>)
    ensures
        body is Some <==> crate::text::trimmed(line@).len() > 0,
        body matches Some(b) ==> b@ == crate::text::trimmed(line@),
{
    let body = trim(line);
    if body.is_empty() {
        None
    } else {
        Some(body)
    }
}

/// The last `n` ids, or all of them.
pub open spec fn tail_of(ids: Seq<u32>, n: int) -> Seq<u32> {
    if ids.len() <= n {
        ids
    } else {
        ids.skip(ids.len() - n)
    }
}

/// The first `n` ids, or all of them.
pub open spec fn head_of(ids: Seq<u32>, n: int) -> Seq<u32> {
    if ids.len() <= n {
        ids
    } else {
        ids.take(n)
    }
}

/// The loss mask of `total` ids of which the first `context` are conditioned
/// on. A window of nothing but context is supervised whole.
pub open spec fn context_mask(context: int, total: int) -> Seq<u8> {
    Seq::new(
        total as nat,
        |i: int|
            if i < context && context < total {
                0u8
            } else {
                1u8
            },
    )
}

fn tail(ids: &[u32], n: usize) -> (out: Vec<u32>)
    ensures
        out@ == tail_of(ids@, n as int),
{
    let len: usize = ids.len();
    let start: usize = if len <= n {
        0
    } else {
        len - n
    };
    let out = copy_range(ids, start, len);
    assert(out@ =~= tail_of(ids@, n as int));
    out
}

fn head(ids: &[u32], n: usize) -> (out: Vec<u32>)
    ensures
        out@ == head_of(ids@, n as int),
{
    let len: usize = ids.len();
    let end: usize = if len <= n {
        len
    } else {
        n
    };
    let out = copy_range(ids, 0, end);
    assert(out@ =~= head_of(ids@, n as int));
    out
}

fn copy_range(ids: &[u32], start: usize, end: usize) -> (out: Vec<u32>)
    requires
        start <= end <= ids@.len(),
    ensures
        out@ == ids@.subrange(start as int, end as int),
{
    let mut out: Vec<u32> = Vec::new();
    let mut i: usize = start;
    while i < end
        invariant
            start <= i <= end <= ids@.len(),
            out@ == ids@.subrange(start as int, i as int),
        decreases end - i,
    {
        out.push(ids[i]);
        i += 1;
        assert(out@ =~= ids@.subrange(start as int, i as int));
    }
    out
}

fn joined(a: &[u32], b: &[u32]) -> (out: Vec<u32>)
    ensures
        out@ == a@ + b@,
{
    let mut out = copy_range(a, 0, a.len());
    assert(a@.subrange(0, a@.len() as int) =~= a@);
    assert(b@.take(0) =~= Seq::empty());
    let mut i: usize = 0;
    while i < b.len()
        invariant
            i <= b@.len(),
            out@ == a@ + b@.take(i as int),
        decreases b@.len() - i,
    {
        out.push(b[i]);
        i += 1;
        assert(out@ =~= a@ + b@.take(i as int));
    }
    assert(b@.take(b@.len() as int) =~= b@);
    out
}

fn mask_pref_sup(context: usize, total: usize) -> (mask: Vec<u8>)
    ensures
        mask@ == context_mask(context as int, total as int),
{
    let mut mask: Vec<u8> = Vec::new();
    let mut i: usize = 0;
    while i < total
        invariant
            i <= total,
            mask@.len() == i,
            forall|j: int|
                0 <= j < i ==> #[trigger] mask@[j] == context_mask(
                    context as int,
                    total as int,
                )[j],
        decreases total - i,
    {
        if i < context && context < total {
            mask.push(0);
        } else {
            mask.push(1);
        }
        i += 1;
    }
    assert(mask@ =~= context_mask(context as int, total as int));
    mask
}

/// How many ids of the context a window keeps when the context alone would
/// fill it: up to eight, and at most a quarter of the window.
pub open spec fn least_context(context: int, keep: int) -> int {
    let eight = if context < 8 {
        context
    } else {
        8
    };
    if eight < keep / 4 {
        eight
    } else {
        keep / 4
    }
}

/// How many ids of the body a window keeps.
pub open spec fn body_budget(context: int, keep: int) -> int {
    if context < keep {
        keep - context
    } else {
        keep - least_context(context, keep)
    }
}

/// The ids of a window of at most `keep`: the most recent context that fits,
/// and the head of the body behind it.
pub open spec fn window_ids(context: Seq<u32>, body: Seq<u32>, keep: int) -> Seq<u32> {
    if keep == 0 {
        Seq::empty()
    } else {
        let part = head_of(body, body_budget(context.len() as int, keep));
        tail_of(context, keep - part.len()) + part
    }
}

/// How many ids of the window are context.
pub open spec fn window_context(context: Seq<u32>, body: Seq<u32>, keep: int) -> int {
    window_ids(context, body, keep).len() - if keep == 0 {
        0
    } else {
        head_of(body, body_budget(context.len() as int, keep)).len() as int
    }
}

/// The mask of that window.
pub open spec fn window_mask(context: Seq<u32>, body: Seq<u32>, keep: int) -> Seq<u8> {
    context_mask(
        window_context(context, body, keep),
        window_ids(context, body, keep).len() as int,
    )
}

/// Fits context and body into `keep` ids: the tail of the context, which is its
/// most recent ids, and the head of the body. A context that fits is kept
/// whole, so that a short window still conditions on the user turn; one that
/// does not never takes the whole window.
fn pack_ctx_body(context: &[u32], body: &[u32], keep: usize) -> (window: (Vec<u32>, Vec<u8>))
    ensures
        window.0@ == window_ids(context@, body@, keep as int),
        window.1@ == window_mask(context@, body@, keep as int),
{
    if keep == 0 {
        let ids: Vec<u32> = Vec::new();
        let mask: Vec<u8> = Vec::new();
        assert(mask@ =~= window_mask(context@, body@, 0));
        return (ids, mask);
    }
    let n: usize = context.len();
    let budget: usize = if n < keep {
        keep - n
    } else {
        let eight: usize = if n < 8 {
            n
        } else {
            8
        };
        let least: usize = if eight < keep / 4 {
            eight
        } else {
            keep / 4
        };
        keep - least
    };
    let part = head(body, budget);
    let front = tail(context, keep - part.len());
    let ids = joined(front.as_slice(), part.as_slice());
    let mask = mask_pref_sup(front.len(), ids.len());
    (ids, mask)
}

/// A window keeps to its size, and a record that has something to learn from
/// is never packed into a window without it: where the body has ids, the
/// window holds some of them, the mask is set on exactly those, and the
/// context before them is the most recent that fits.
pub proof fn law_windows_keep_their_targets(context: Seq<u32>, body: Seq<u32>, keep: int)
    requires
        keep > 0,
    ensures
        window_ids(context, body, keep).len() <= keep,
        window_mask(context, body, keep).len() == window_ids(context, body, keep).len(),
        context.len() + body.len() <= keep ==> window_ids(context, body, keep) == context + body,
        body.len() > 0 ==> {
            let part = head_of(body, body_budget(context.len() as int, keep));
            let ids = window_ids(context, body, keep);
            let mask = window_mask(context, body, keep);
            &&& part.len() > 0
            &&& ids.skip(ids.len() - part.len()) == part
            &&& forall|i: int|
                0 <= i < ids.len() ==> #[trigger] mask[i] == if i < ids.len() - part.len() {
                    0u8
                } else {
                    1u8
                }
        },
{
    let part = head_of(body, body_budget(context.len() as int, keep));
    let ids = window_ids(context, body, keep);
    assert(ids.skip(ids.len() - part.len()) =~= part);
    if context.len() + body.len() <= keep {
        assert(ids =~= context + body);
    }
}

/// A window is as full as it can be: it ends its context where the body begins,
/// holds nothing between them, and is short only where there is nothing more. A
/// context that leaves room is kept whole; of one that would fill the window
/// eight ids are kept, or a quarter of the window if that is less, and more only
/// where the body leaves room.
pub proof fn law_a_window_is_as_full_as_it_can_be(context: Seq<u32>, body: Seq<u32>, keep: int)
    requires
        keep > 0,
    ensures
        ({
            let quarter = if 8 < keep / 4 {
                8
            } else {
                keep / 4
            };
            let kept = if context.len() < keep {
                context.len() as int
            } else if keep - body.len() > quarter {
                keep - body.len()
            } else {
                quarter
            };
            let learned = if context.len() + body.len() < keep {
                body.len() as int
            } else {
                keep - kept
            };
            &&& 0 <= kept <= context.len() && 0 <= learned <= body.len()
            &&& kept + learned == (if context.len() + body.len() < keep {
                (context.len() + body.len()) as int
            } else {
                keep
            })
            &&& window_ids(context, body, keep) == context.skip(context.len() - kept) + body.take(
                learned,
            )
            &&& forall|i: int|
                0 <= i < kept + learned ==> (#[trigger] window_mask(context, body, keep)[i] != 0
                    <==> i >= kept || learned == 0)
        }),
{
    let quarter = if 8 < keep / 4 {
        8
    } else {
        keep / 4
    };
    let kept = if context.len() < keep {
        context.len() as int
    } else if keep - body.len() > quarter {
        keep - body.len()
    } else {
        quarter
    };
    let learned = if context.len() + body.len() < keep {
        body.len() as int
    } else {
        keep - kept
    };
    assert(window_ids(context, body, keep) =~= context.skip(context.len() - kept) + body.take(
        learned,
    ));
}

/// Ids and mask of a window.
pub open spec fn window_view(w: (Vec<u32>, Vec<u8>)) -> (Seq<u32>, Seq<u8>) {
    (w.0@, w.1@)
}

/// Windows by their ids and masks.
pub open spec fn windows_view(ws: Seq<(Vec<u32>, Vec<u8>)>) -> Seq<(Seq<u32>, Seq<u8>)> {
    Seq::new(ws.len(), |i: int| window_view(ws[i]))
}

/// The window has an id that the loss is taken on.
pub open spec fn is_supervised(mask: Seq<u8>) -> bool {
    exists|i: int| 0 <= i < mask.len() && #[trigger] mask[i] != 0
}

/// The ids stand in the list already.
pub open spec fn has_ids(ws: Seq<(Seq<u32>, Seq<u8>)>, ids: Seq<u32>) -> bool {
    exists|i: int| 0 <= i < ws.len() && (#[trigger] ws[i]).0 == ids
}

/// The list with a window added, unless the window is empty, has nothing to
/// learn from, or stands there already.
pub open spec fn with_window(
    ws: Seq<(Seq<u32>, Seq<u8>)>,
    ids: Seq<u32>,
    mask: Seq<u8>,
) -> Seq<(Seq<u32>, Seq<u8>)> {
    if ids.len() == 0 || !is_supervised(mask) || has_ids(ws, ids) {
        ws
    } else {
        ws.push((ids, mask))
    }
}

fn same_ids(a: &Vec<u32>, b: &Vec<u32>) -> (same: bool)
    ensures
        same == (a@ == b@),
{
    if a.len() != b.len() {
        return false;
    }
    let mut i: usize = 0;
    while i < a.len()
        invariant
            i <= a@.len() == b@.len(),
            forall|j: int| 0 <= j < i ==> a@[j] == b@[j],
        decreases a@.len() - i,
    {
        if a[i] != b[i] {
            return false;
        }
        i += 1;
    }
    assert(a@ =~= b@);
    true
}

fn any_set(mask: &Vec<u8>) -> (found: bool)
    ensures
        found == is_supervised(mask@),
{
    let mut i: usize = 0;
    while i < mask.len()
        invariant
            i <= mask@.len(),
            forall|j: int| 0 <= j < i ==> #[trigger] mask@[j] == 0,
        decreases mask@.len() - i,
    {
        if mask[i] != 0 {
            return true;
        }
        i += 1;
    }
    false
}

fn push_unique_window(windows: &mut Vec<(Vec<u32>, Vec<u8>)>, ids: Vec<u32>, mask: Vec<u8>)
    ensures
        windows_view(final(windows)@) == with_window(windows_view(old(windows)@), ids@, mask@),
{
    let ghost before = windows_view(windows@);
    if ids.len() == 0 || !any_set(&mask) {
        return;
    }
    let mut i: usize = 0;
    while i < windows.len()
        invariant
            i <= windows@.len(),
            windows@ == old(windows)@,
            before == windows_view(windows@),
            ids@.len() > 0,
            is_supervised(mask@),
            forall|j: int| 0 <= j < i ==> (#[trigger] before[j]).0 != ids@,
        decreases windows@.len() - i,
    {
        if same_ids(&windows[i].0, &ids) {
            assert(before[i as int].0 == ids@);
            return;
        }
        i += 1;
    }
    windows.push((ids, mask));
    assert(windows_view(windows@) =~= before.push((ids@, mask@)));
}

/// The encoded parts of a record.
pub struct EncodedParts {
    pub prefix: Vec<u32>,
    pub thinking: Vec<u32>,
    pub output: Vec<u32>,
}

impl EncodedParts {
    /// The parts as they are trained on: the end of sequence follows the output.
    pub fn closed(prefix: Vec<u32>, thinking: Vec<u32>, output: Vec<u32>, eos: u32) -> (parts: Self)
        ensures
            parts.prefix@ == prefix@,
            parts.thinking@ == thinking@,
            parts.output@ == output@.push(eos),
    {
        let mut output = output;
        output.push(eos);
        EncodedParts { prefix, thinking, output }
    }

    /// Number of ids.
    pub open spec fn total(&self) -> nat {
        self.prefix@.len() + self.thinking@.len() + self.output@.len()
    }
}

/// A mask that is set everywhere.
pub open spec fn full_mask(n: nat) -> Seq<u8> {
    Seq::new(n, |i: int| 1u8)
}

/// Windows over the middle of a long thinking part: up to six, half a window
/// apart, each of `keep` ids.
pub open spec fn middle_windows(
    ws: Seq<(Seq<u32>, Seq<u8>)>,
    thinking: Seq<u32>,
    keep: int,
    start: int,
    extra: int,
) -> Seq<(Seq<u32>, Seq<u8>)>
    decreases 6 - extra,
{
    if start < thinking.len() && extra < 6 {
        let end = if start + keep < thinking.len() {
            start + keep
        } else {
            thinking.len() as int
        };
        middle_windows(
            with_window(ws, thinking.subrange(end - keep, end), full_mask(keep as nat)),
            thinking,
            keep,
            start + stride_of(keep),
            extra + 1,
        )
    } else {
        ws
    }
}

/// Half a window, at least one id.
pub open spec fn stride_of(keep: int) -> int {
    if keep / 2 >= 1 {
        keep / 2
    } else {
        1
    }
}

/// The list with the window of this context and body added.
pub open spec fn with_packed(
    ws: Seq<(Seq<u32>, Seq<u8>)>,
    context: Seq<u32>,
    body: Seq<u32>,
    keep: int,
) -> Seq<(Seq<u32>, Seq<u8>)> {
    with_window(ws, window_ids(context, body, keep), window_mask(context, body, keep))
}

/// The mask of the last `keep` ids of a record whose last `output` ids are
/// learned.
pub open spec fn end_mask(output: int, keep: int) -> Seq<u8> {
    context_mask(keep - output, keep)
}

/// The windows over the start of the thinking (or of the output, when only
/// the output is learned), over the answer, and over the end of the record,
/// for an answer that the window before it breaks off.
pub open spec fn edge_windows(
    prefix: Seq<u32>,
    thinking: Seq<u32>,
    output: Seq<u32>,
    keep: int,
    output_only: bool,
) -> Seq<(Seq<u32>, Seq<u8>)> {
    let both = prefix + thinking;
    let first = with_packed(
        Seq::empty(),
        if output_only {
            both
        } else {
            prefix
        },
        if output_only || thinking.len() == 0 {
            output
        } else {
            thinking
        },
        keep,
    );
    if output.len() == 0 {
        first
    } else {
        let second = with_packed(first, both, output, keep);
        with_window(second, tail_of(both + output, keep), end_mask(output.len() as int, keep))
    }
}

/// The windows of a record that does not fit into one.
pub open spec fn long_windows(
    prefix: Seq<u32>,
    thinking: Seq<u32>,
    output: Seq<u32>,
    keep: int,
    output_only: bool,
) -> Seq<(Seq<u32>, Seq<u8>)> {
    let edges = edge_windows(prefix, thinking, output, keep, output_only);
    let all = if !output_only && thinking.len() > keep {
        middle_windows(edges, thinking, keep, stride_of(keep), 0)
    } else {
        edges
    };
    if all.len() == 0 {
        let ids = tail_of(prefix + thinking + output, keep);
        seq![(ids, full_mask(ids.len()))]
    } else {
        all
    }
}

/// The supervised windows of a record, each of at most `keep` ids.
pub open spec fn supervised_windows(
    prefix: Seq<u32>,
    thinking: Seq<u32>,
    output: Seq<u32>,
    keep: int,
    output_only: bool,
) -> Seq<(Seq<u32>, Seq<u8>)> {
    let total = prefix.len() + thinking.len() + output.len();
    if total <= keep {
        seq![
            (
                prefix + thinking + output,
                context_mask(
                    if output_only {
                        (prefix.len() + thinking.len()) as int
                    } else {
                        prefix.len() as int
                    },
                    total as int,
                ),
            ),
        ]
    } else {
        long_windows(prefix, thinking, output, keep, output_only)
    }
}

fn ones(n: usize) -> (mask: Vec<u8>)
    ensures
        mask@ == full_mask(n as nat),
{
    let mut mask: Vec<u8> = Vec::new();
    let mut i: usize = 0;
    while i < n
        invariant
            i <= n,
            mask@.len() == i,
            forall|j: int| 0 <= j < i ==> #[trigger] mask@[j] == 1,
        decreases n - i,
    {
        mask.push(1);
        i += 1;
    }
    assert(mask@ =~= full_mask(n as nat));
    mask
}

fn push_packed(
    windows: &mut Vec<(Vec<u32>, Vec<u8>)>,
    context: &[u32],
    body: &[u32],
    keep: usize,
)
    ensures
        windows_view(final(windows)@) == with_packed(
            windows_view(old(windows)@),
            context@,
            body@,
            keep as int,
        ),
{
    let (ids, mask) = pack_ctx_body(context, body, keep);
    push_unique_window(windows, ids, mask);
}

fn push_middle(windows: &mut Vec<(Vec<u32>, Vec<u8>)>, thinking: &[u32], keep: usize)
    requires
        thinking@.len() > keep,
        keep > 0,
    ensures
        windows_view(final(windows)@) == middle_windows(
            windows_view(old(windows)@),
            thinking@,
            keep as int,
            stride_of(keep as int),
            0,
        ),
{
    let n: usize = thinking.len();
    let stride: usize = if keep / 2 >= 1 {
        keep / 2
    } else {
        1
    };
    let mut start: usize = stride;
    let mut extra: u32 = 0;
    let ghost goal = middle_windows(
        windows_view(windows@),
        thinking@,
        keep as int,
        stride as int,
        0,
    );
    while start < n && extra < 6
        invariant
            n == thinking@.len() > keep,
            keep > 0,
            1 <= stride <= start,
            stride == stride_of(keep as int),
            extra <= 6,
            goal == middle_windows(
                windows_view(windows@),
                thinking@,
                keep as int,
                start as int,
                extra as int,
            ),
        decreases 6 - extra,
    {
        let end: usize = if keep < n - start {
            start + keep
        } else {
            n
        };
        let ids = copy_range(thinking, end - keep, end);
        push_unique_window(windows, ids, ones(keep));
        proof {
            let ws = windows_view(windows@);
            let next = middle_windows(ws, thinking@, keep as int, start + stride, extra + 1);
            assert(goal == next);
            assert(start + stride >= n ==> next == ws && ws == middle_windows(
                ws,
                thinking@,
                keep as int,
                n as int,
                extra + 1,
            ));
        }
        start = if stride < n - start {
            start + stride
        } else {
            n
        };
        extra += 1;
    }
}

/// The supervised windows of a record, each of at most `seq_len + 1` ids.
///
/// A causal model learns only where the mask is set. For a record longer than
/// the context, the windows are contiguous runs of it: the start of the
/// thinking behind the most recent prompt, the answer behind the most recent
/// thinking, the end of the record where that window breaks the answer off, and
/// slices of a long thinking part. With `output_only` the thinking is
/// conditioned on and not learned.
pub fn encode_supervised_windows_ex(
    parts: &EncodedParts,
    seq_len: usize,
    output_only: bool,
) -> (windows: Vec<(Vec<u32>, Vec<u8>)>)
    ensures
        windows_view(windows@) == supervised_windows(
            parts.prefix@,
            parts.thinking@,
            parts.output@,
            window_size(seq_len),
            output_only,
        ),
        all_runs(windows_view(windows@), parts.prefix@ + parts.thinking@ + parts.output@),
{
    let keep: usize = seq_len.saturating_add(1);
    proof {
        law_every_window_is_contiguous(
            parts.prefix@,
            parts.thinking@,
            parts.output@,
            keep as int,
            output_only,
        );
    }
    let prefix = parts.prefix.as_slice();
    let thinking = parts.thinking.as_slice();
    let output = parts.output.as_slice();
    let both = joined(prefix, thinking);
    let total: u128 = prefix.len() as u128 + thinking.len() as u128 + output.len() as u128;
    let mut windows: Vec<(Vec<u32>, Vec<u8>)> = Vec::new();
    assert(windows_view(windows@) =~= Seq::empty());
    if total <= keep as u128 {
        let ids = joined(both.as_slice(), output);
        let context: usize = if output_only {
            both.len()
        } else {
            prefix.len()
        };
        let mask = mask_pref_sup(context, ids.len());
        windows.push((ids, mask));
        assert(windows_view(windows@) =~= supervised_windows(
            parts.prefix@,
            parts.thinking@,
            parts.output@,
            keep as int,
            output_only,
        ));
        return windows;
    }
    let first_body = if output_only || thinking.len() == 0 {
        output
    } else {
        thinking
    };
    if output_only {
        push_packed(&mut windows, both.as_slice(), first_body, keep);
    } else {
        push_packed(&mut windows, prefix, first_body, keep);
    }
    if output.len() != 0 {
        push_packed(&mut windows, both.as_slice(), output, keep);
        let all = joined(both.as_slice(), output);
        let context: usize = if output.len() < keep {
            keep - output.len()
        } else {
            0
        };
        let mask = mask_pref_sup(context, keep);
        assert(mask@ =~= end_mask(output@.len() as int, keep as int));
        push_unique_window(&mut windows, tail(all.as_slice(), keep), mask);
    }
    if !output_only && thinking.len() > keep {
        push_middle(&mut windows, thinking, keep);
    }
    if windows.len() == 0 {
        let all = joined(both.as_slice(), output);
        let ids = tail(all.as_slice(), keep);
        let mask = ones(ids.len());
        windows.push((ids, mask));
        assert(windows_view(windows@) =~= seq![(ids@, mask@)]);
    }
    windows
}

/// Ids of a window: the context and the one that is predicted last.
pub open spec fn window_size(seq_len: usize) -> int {
    if seq_len < usize::MAX {
        seq_len + 1
    } else {
        usize::MAX as int
    }
}

/// The supervised windows of a record, with thinking and output learned.
pub fn encode_supervised_windows(parts: &EncodedParts, seq_len: usize) -> (windows: Vec<
    (Vec<u32>, Vec<u8>),
>)
    ensures
        windows_view(windows@) == supervised_windows(
            parts.prefix@,
            parts.thinking@,
            parts.output@,
            window_size(seq_len),
            false,
        ),
        all_runs(windows_view(windows@), parts.prefix@ + parts.thinking@ + parts.output@),
{
    encode_supervised_windows_ex(parts, seq_len, false)
}

/// Every window of the list fits, has a mask of its own length, has something
/// to learn from, up to its last id, and no two hold the same ids.
pub open spec fn well_cut(ws: Seq<(Seq<u32>, Seq<u8>)>, keep: int) -> bool {
    &&& forall|i: int|
        0 <= i < ws.len() ==> {
            &&& 0 < (#[trigger] ws[i]).0.len() <= keep
            &&& ws[i].1.len() == ws[i].0.len()
            &&& is_supervised(ws[i].1)
            &&& ws[i].1.last() != 0
        }
    &&& forall|i: int, j: int|
        0 <= i < j < ws.len() ==> (#[trigger] ws[i]).0 != (#[trigger] ws[j]).0
}

proof fn lemma_with_window_cut(
    ws: Seq<(Seq<u32>, Seq<u8>)>,
    ids: Seq<u32>,
    mask: Seq<u8>,
    keep: int,
)
    requires
        well_cut(ws, keep),
        ids.len() <= keep,
        mask.len() == ids.len(),
        mask.len() > 0 ==> mask.last() != 0,
    ensures
        well_cut(with_window(ws, ids, mask), keep),
        with_window(ws, ids, mask).len() >= ws.len(),
{
}

proof fn lemma_packed_cut(
    ws: Seq<(Seq<u32>, Seq<u8>)>,
    context: Seq<u32>,
    body: Seq<u32>,
    keep: int,
)
    requires
        keep > 0,
        well_cut(ws, keep),
    ensures
        well_cut(with_packed(ws, context, body, keep), keep),
{
    law_windows_keep_their_targets(context, body, keep);
    lemma_with_window_cut(
        ws,
        window_ids(context, body, keep),
        window_mask(context, body, keep),
        keep,
    );
}

proof fn lemma_middle_cut(
    ws: Seq<(Seq<u32>, Seq<u8>)>,
    thinking: Seq<u32>,
    keep: int,
    start: int,
    extra: int,
)
    requires
        well_cut(ws, keep),
        0 < keep < thinking.len(),
        0 < start,
    ensures
        well_cut(middle_windows(ws, thinking, keep, start, extra), keep),
    decreases 6 - extra,
{
    if start < thinking.len() && extra < 6 {
        let end = if start + keep < thinking.len() {
            start + keep
        } else {
            thinking.len() as int
        };
        let ids = thinking.subrange(end - keep, end);
        lemma_with_window_cut(ws, ids, full_mask(keep as nat), keep);
        lemma_middle_cut(
            with_window(ws, ids, full_mask(keep as nat)),
            thinking,
            keep,
            start + stride_of(keep),
            extra + 1,
        );
    }
}

/// Whatever the lengths of its parts, a record with any ids is cut into at
/// least one window, and every window fits the context, carries a mask of its
/// length, and has tokens that the loss is taken on, its last among them; none
/// is repeated.
pub proof fn law_every_window_can_be_learned_from(
    prefix: Seq<u32>,
    thinking: Seq<u32>,
    output: Seq<u32>,
    keep: int,
    output_only: bool,
)
    requires
        keep > 0,
        prefix.len() + thinking.len() + output.len() > 0,
    ensures
        supervised_windows(prefix, thinking, output, keep, output_only).len() > 0,
        well_cut(supervised_windows(prefix, thinking, output, keep, output_only), keep),
{
    let total = prefix.len() + thinking.len() + output.len();
    let ws = supervised_windows(prefix, thinking, output, keep, output_only);
    if total <= keep {
        assert(ws[0].1[total - 1] == 1u8);
        assert(is_supervised(ws[0].1));
    } else {
        let both = prefix + thinking;
        let none = Seq::<(Seq<u32>, Seq<u8>)>::empty();
        let context = if output_only {
            both
        } else {
            prefix
        };
        let body = if output_only || thinking.len() == 0 {
            output
        } else {
            thinking
        };
        lemma_packed_cut(none, context, body, keep);
        let first = with_packed(none, context, body, keep);
        lemma_packed_cut(first, both, output, keep);
        let second = with_packed(first, both, output, keep);
        if output.len() > 0 {
            let mask = end_mask(output.len() as int, keep);
            assert(mask.last() == 1u8);
            lemma_with_window_cut(second, tail_of(both + output, keep), mask, keep);
        }
        let edges = edge_windows(prefix, thinking, output, keep, output_only);
        assert(well_cut(edges, keep));
        if thinking.len() > keep {
            lemma_middle_cut(edges, thinking, keep, stride_of(keep), 0);
        }
        let ids = tail_of(prefix + thinking + output, keep);
        assert(full_mask(ids.len())[0] == 1u8);
        assert(is_supervised(full_mask(ids.len())));
    }
}

/// The ids are a contiguous stretch of the record.
pub open spec fn is_run(record: Seq<u32>, ids: Seq<u32>) -> bool {
    exists|i: int|
        0 <= i <= record.len() - ids.len() && #[trigger] record.subrange(i, i + ids.len()) == ids
}

/// Every window of the list is a contiguous stretch of the record.
pub open spec fn all_runs(ws: Seq<(Seq<u32>, Seq<u8>)>, record: Seq<u32>) -> bool {
    forall|w: int| 0 <= w < ws.len() ==> is_run(record, (#[trigger] ws[w]).0)
}

proof fn lemma_run_at(record: Seq<u32>, ids: Seq<u32>, at: int)
    requires
        0 <= at <= record.len() - ids.len(),
        forall|k: int| 0 <= k < ids.len() ==> #[trigger] ids[k] == record[at + k],
    ensures
        is_run(record, ids),
{
    assert(record.subrange(at, at + ids.len()) =~= ids);
}

/// A window over a context and what follows it in the record is a run.
proof fn lemma_packed_run(
    ws: Seq<(Seq<u32>, Seq<u8>)>,
    context: Seq<u32>,
    body: Seq<u32>,
    rest: Seq<u32>,
    keep: int,
)
    requires
        keep > 0,
        all_runs(ws, context + body + rest),
    ensures
        all_runs(with_packed(ws, context, body, keep), context + body + rest),
{
    let part = head_of(body, body_budget(context.len() as int, keep));
    let front = tail_of(context, keep - part.len());
    lemma_run_at(
        context + body + rest,
        window_ids(context, body, keep),
        context.len() - front.len(),
    );
}

proof fn lemma_middle_runs(
    ws: Seq<(Seq<u32>, Seq<u8>)>,
    prefix: Seq<u32>,
    thinking: Seq<u32>,
    output: Seq<u32>,
    keep: int,
    start: int,
    extra: int,
)
    requires
        all_runs(ws, prefix + thinking + output),
        0 < keep < thinking.len(),
        0 < start,
    ensures
        all_runs(
            middle_windows(ws, thinking, keep, start, extra),
            prefix + thinking + output,
        ),
    decreases 6 - extra,
{
    if start < thinking.len() && extra < 6 {
        let end = if start + keep < thinking.len() {
            start + keep
        } else {
            thinking.len() as int
        };
        let ids = thinking.subrange(end - keep, end);
        lemma_run_at(prefix + thinking + output, ids, prefix.len() + end - keep);
        lemma_middle_runs(
            with_window(ws, ids, full_mask(keep as nat)),
            prefix,
            thinking,
            output,
            keep,
            start + stride_of(keep),
            extra + 1,
        );
    }
}

/// Every window is a contiguous run of the record: nothing is skipped between
/// two ids of a window.
pub proof fn law_every_window_is_contiguous(
    prefix: Seq<u32>,
    thinking: Seq<u32>,
    output: Seq<u32>,
    keep: int,
    output_only: bool,
)
    requires
        keep > 0,
    ensures
        all_runs(
            supervised_windows(prefix, thinking, output, keep, output_only),
            prefix + thinking + output,
        ),
{
    let record = prefix + thinking + output;
    if record.len() <= keep {
        lemma_run_at(record, record, 0);
    } else {
        let both = prefix + thinking;
        let none = Seq::<(Seq<u32>, Seq<u8>)>::empty();
        let nil = Seq::<u32>::empty();
        assert(both + output + nil =~= record);
        if output_only {
            lemma_packed_run(none, both, output, nil, keep);
        } else if thinking.len() == 0 {
            assert(prefix + output + nil =~= record);
            lemma_packed_run(none, prefix, output, nil, keep);
        } else {
            lemma_packed_run(none, prefix, thinking, output, keep);
        }
        let context = if output_only {
            both
        } else {
            prefix
        };
        let body = if output_only || thinking.len() == 0 {
            output
        } else {
            thinking
        };
        let first = with_packed(none, context, body, keep);
        assert(all_runs(first, record));
        lemma_packed_run(first, both, output, nil, keep);
        lemma_run_at(record, tail_of(record, keep), record.len() - keep);
        let edges = edge_windows(prefix, thinking, output, keep, output_only);
        assert(all_runs(edges, record));
        if thinking.len() > keep {
            lemma_middle_runs(edges, prefix, thinking, output, keep, stride_of(keep), 0);
        }
    }
}

/// A record that fits into a window is one window, whole, and the loss is taken
/// on all that stands behind the prompt, or, where the output alone is learned,
/// behind the thinking; on the whole record where nothing stands there.
pub proof fn law_a_short_record_is_one_window(
    prefix: Seq<u32>,
    thinking: Seq<u32>,
    output: Seq<u32>,
    keep: int,
    output_only: bool,
    i: int,
)
    requires
        prefix.len() + thinking.len() + output.len() <= keep,
        0 <= i < prefix.len() + thinking.len() + output.len(),
    ensures
        ({
            let ws = supervised_windows(prefix, thinking, output, keep, output_only);
            let learned = if output_only {
                output.len() as int
            } else {
                (thinking.len() + output.len()) as int
            };
            &&& ws.len() == 1
            &&& ws[0].0 == prefix + thinking + output
            &&& ws[0].1.len() == ws[0].0.len()
            &&& ws[0].1[i] == (if learned == 0 || i >= ws[0].0.len() - learned {
                1u8
            } else {
                0u8
            })
        }),
{
}

/// Long thinking is looked at all along: beside the windows at its edges there
/// is one for each half window, from the first half on, six of them at most,
/// and the last are those that end where the thinking ends.
pub proof fn law_long_thinking_is_cut_by_half_windows(
    prefix: Seq<u32>,
    thinking: Seq<u32>,
    output: Seq<u32>,
    keep: int,
    half: int,
)
    requires
        2 <= keep < thinking.len(),
        1 <= half <= 6,
        half * (keep / 2) < thinking.len(),
    ensures
        ({
            let ws = supervised_windows(prefix, thinking, output, keep, false);
            let start = half * (keep / 2);
            let ids = if start + keep <= thinking.len() {
                thinking.subrange(start, start + keep)
            } else {
                thinking.skip(thinking.len() - keep)
            };
            &&& ws.len() <= 9
            &&& exists|w: int| 0 <= w < ws.len() && (#[trigger] ws[w]).0 == ids
        }),
{
    let edges = edge_windows(prefix, thinking, output, keep, false);
    let ws = supervised_windows(prefix, thinking, output, keep, false);
    let stride = keep / 2;
    let start = half * stride;
    let ids = if start + keep <= thinking.len() {
        thinking.subrange(start, start + keep)
    } else {
        thinking.skip(thinking.len() - keep)
    };
    assert(start == stride + (half - 1) * stride) by (nonlinear_arith)
        requires
            start == half * stride,
    ;
    assert(edges.len() <= 3);
    lemma_middle_count(edges, thinking, keep, stride, 0);
    lemma_middle_has(edges, thinking, keep, stride, 0, half - 1);
    let all = middle_windows(edges, thinking, keep, stride, 0);
    let i = choose|i: int| 0 <= i < all.len() && (#[trigger] all[i]).0 == ids;
    assert(ws == all);
    assert(ws[i].0 == ids);
}

proof fn lemma_middle_count(
    ws: Seq<(Seq<u32>, Seq<u8>)>,
    thinking: Seq<u32>,
    keep: int,
    start: int,
    extra: int,
)
    requires
        0 <= extra <= 6,
    ensures
        middle_windows(ws, thinking, keep, start, extra).len() <= ws.len() + 6 - extra,
    decreases 6 - extra,
{
    if start < thinking.len() && extra < 6 {
        let end = if start + keep < thinking.len() {
            start + keep
        } else {
            thinking.len() as int
        };
        let more = with_window(ws, thinking.subrange(end - keep, end), full_mask(keep as nat));
        lemma_middle_count(more, thinking, keep, start + stride_of(keep), extra + 1);
    }
}

proof fn lemma_middle_has(
    ws: Seq<(Seq<u32>, Seq<u8>)>,
    thinking: Seq<u32>,
    keep: int,
    start: int,
    extra: int,
    k: int,
)
    requires
        2 <= keep < thinking.len(),
        0 < start,
        0 <= k,
        0 <= extra,
        extra + k < 6,
        start + k * (keep / 2) < thinking.len(),
    ensures
        has_ids(
            middle_windows(ws, thinking, keep, start, extra),
            if start + k * (keep / 2) + keep <= thinking.len() {
                thinking.subrange(start + k * (keep / 2), start + k * (keep / 2) + keep)
            } else {
                thinking.skip(thinking.len() - keep)
            },
        ),
    decreases k,
{
    let stride = keep / 2;
    assert(0 <= k * stride) by (nonlinear_arith)
        requires
            0 <= k,
            0 <= stride,
    ;
    let end = if start + keep < thinking.len() {
        start + keep
    } else {
        thinking.len() as int
    };
    let cut = thinking.subrange(end - keep, end);
    let more = with_window(ws, cut, full_mask(keep as nat));
    if k == 0 {
        assert(0 * stride == 0);
        assert(full_mask(keep as nat)[0] == 1u8);
        if !has_ids(ws, cut) {
            assert(more.last().0 == cut);
        }
        assert(has_ids(more, cut));
        lemma_middle_keeps(more, thinking, keep, start + stride_of(keep), extra + 1, cut);
        assert(cut =~= if start + keep <= thinking.len() {
            thinking.subrange(start, start + keep)
        } else {
            thinking.skip(thinking.len() - keep)
        });
    } else {
        assert(start + k * stride == (start + stride) + (k - 1) * stride) by (nonlinear_arith);
        lemma_middle_has(more, thinking, keep, start + stride, extra + 1, k - 1);
    }
}

proof fn lemma_middle_keeps(
    ws: Seq<(Seq<u32>, Seq<u8>)>,
    thinking: Seq<u32>,
    keep: int,
    start: int,
    extra: int,
    ids: Seq<u32>,
)
    requires
        has_ids(ws, ids),
    ensures
        has_ids(middle_windows(ws, thinking, keep, start, extra), ids),
    decreases 6 - extra,
{
    if start < thinking.len() && extra < 6 {
        let end = if start + keep < thinking.len() {
            start + keep
        } else {
            thinking.len() as int
        };
        let more = with_window(ws, thinking.subrange(end - keep, end), full_mask(keep as nat));
        let i = choose|i: int| 0 <= i < ws.len() && (#[trigger] ws[i]).0 == ids;
        assert(more[i].0 == ids);
        lemma_middle_keeps(more, thinking, keep, start + stride_of(keep), extra + 1, ids);
    }
}

/// No answer is broken off for good: where there is one, some window ends where
/// the record ends, and the loss is taken on its last id.
pub proof fn law_every_answer_is_seen_to_its_end(
    prefix: Seq<u32>,
    thinking: Seq<u32>,
    output: Seq<u32>,
    keep: int,
    output_only: bool,
)
    requires
        keep > 0,
        output.len() > 0,
    ensures
        exists|w: int|
            #![trigger supervised_windows(prefix, thinking, output, keep, output_only)[w]]
            {
                let ws = supervised_windows(prefix, thinking, output, keep, output_only);
                0 <= w < ws.len() && ws[w].0 == tail_of(prefix + thinking + output, keep)
                    && ws[w].1.len() == ws[w].0.len() && ws[w].1.last() != 0
            },
{
    let record = prefix + thinking + output;
    let ws = supervised_windows(prefix, thinking, output, keep, output_only);
    let ids = tail_of(record, keep);
    law_every_window_can_be_learned_from(prefix, thinking, output, keep, output_only);
    if record.len() <= keep {
        assert(ws[0].0 == ids);
    } else {
        let mask = end_mask(output.len() as int, keep);
        assert(mask[keep - 1] == 1u8);
        assert(is_supervised(mask));
        let edges = edge_windows(prefix, thinking, output, keep, output_only);
        assert(has_ids(edges, ids) || edges.last().0 == ids);
        if !output_only && thinking.len() > keep {
            lemma_middle_keeps(edges, thinking, keep, stride_of(keep), 0, ids);
        }
        let w = choose|w: int| 0 <= w < ws.len() && (#[trigger] ws[w]).0 == ids;
        assert(ws[w].0 == ids);
    }
}

/// The first supervised window of a record: the start of its thinking behind
/// the most recent prompt.
pub fn encode_supervised(parts: &EncodedParts, seq_len: usize) -> (window: (Vec<u32>, Vec<u8>))
    ensures
        ({
            let ws = supervised_windows(
                parts.prefix@,
                parts.thinking@,
                parts.output@,
                window_size(seq_len),
                false,
            );
            ws.len() > 0 && window_view(window) == ws[0]
        }),
{
    let mut windows = encode_supervised_windows(parts, seq_len);
    let ghost ws = windows_view(windows@);
    proof {
        let total = parts.total();
        if total > 0 {
            law_every_window_can_be_learned_from(
                parts.prefix@,
                parts.thinking@,
                parts.output@,
                window_size(seq_len),
                false,
            );
        }
    }
    assert(ws.len() == windows@.len());
    let first = windows.swap_remove(0);
    assert(window_view(first) == ws[0]);
    first
}

/// The last `n` entries, or all of them.
pub open spec fn latest<A>(s: Seq<A>, n: int) -> Seq<A> {
    if s.len() <= n {
        s
    } else {
        s.skip(s.len() - n)
    }
}

/// Ids beside their masks, as far as both go.
pub open spec fn paired(ids: Seq<u32>, mask: Seq<u8>) -> Seq<(u32, u8)> {
    Seq::new(
        if ids.len() <= mask.len() {
            ids.len()
        } else {
            mask.len()
        },
        |i: int| (ids[i], mask[i]),
    )
}

/// Compacting ring of tokens and masks over two fixed planes. What it holds is
/// one contiguous stretch, so that after [`SovereignFlashBuffer::compact`] the
/// token plane can be handed out from its first slot.
#[derive(Debug)]
pub struct SovereignFlashBuffer {
    tokens: Vec<u32>,
    masks: Vec<u8>,
    cap: usize,
    start: usize,
    len: usize,
}

impl View for SovereignFlashBuffer {
    type V = Seq<(u32, u8)>;

    closed spec fn view(&self) -> Seq<(u32, u8)> {
        Seq::new(
            self.len as nat,
            |i: int| (self.tokens@[self.start + i], self.masks@[self.start + i]),
        )
    }
}

impl SovereignFlashBuffer {
    /// The planes have the size of the ring, and the held stretch lies inside.
    pub closed spec fn wf(&self) -> bool {
        &&& self.cap > 0
        &&& self.tokens@.len() == self.cap
        &&& self.masks@.len() == self.cap
        &&& self.start + self.len <= self.cap
    }

    /// How many tokens the ring can hold.
    pub closed spec fn room(&self) -> nat {
        self.cap as nat
    }

    /// Index of the first held token in the planes.
    pub closed spec fn first(&self) -> nat {
        self.start as nat
    }

    /// The ring never holds more than it has room for.
    pub proof fn lemma_within_room(&self)
        requires
            self.wf(),
        ensures
            self@.len() <= self.room(),
            self.room() > 0,
    {
    }

    /// An empty ring of at least one slot.
    pub fn new(cap: usize) -> (ring: Self)
        ensures
            ring.wf(),
            ring@ == Seq::<(u32, u8)>::empty(),
            ring.room() == if cap == 0 {
                1
            } else {
                cap as int
            },
    {
        let cap: usize = if cap == 0 {
            1
        } else {
            cap
        };
        let ring = SovereignFlashBuffer {
            tokens: vec![0u32; cap],
            masks: vec![0u8; cap],
            cap,
            start: 0,
            len: 0,
        };
        assert(ring@ =~= Seq::empty());
        ring
    }

    pub fn len(&self) -> (n: usize)
        ensures
            n == self@.len(),
    {
        self.len
    }

    pub fn is_empty(&self) -> (empty: bool)
        ensures
            empty == (self@.len() == 0),
    {
        self.len == 0
    }

    pub fn cap(&self) -> (n: usize)
        ensures
            n == self.room(),
    {
        self.cap
    }

    /// Slides what is held to the first slot.
    pub fn compact(&mut self)
        requires
            old(self).wf(),
        ensures
            final(self).wf(),
            final(self)@ == old(self)@,
            final(self).room() == old(self).room(),
            final(self).first() == 0,
    {
        if self.start == 0 || self.len == 0 {
            self.start = 0;
            assert(self@ =~= old(self)@);
            return;
        }
        let start: usize = self.start;
        let len: usize = self.len;
        let mut i: usize = 0;
        while i < len
            invariant
                i <= len,
                0 < start,
                start + len <= self.cap,
                self.cap > 0,
                self.tokens@.len() == self.cap,
                self.masks@.len() == self.cap,
                self.cap == old(self).cap,
                self.len == len,
                self.start == start,
                forall|j: int|
                    0 <= j < i ==> #[trigger] self.tokens@[j] == old(self).tokens@[start + j],
                forall|j: int|
                    0 <= j < i ==> #[trigger] self.masks@[j] == old(self).masks@[start + j],
                forall|j: int|
                    i <= j < self.cap ==> #[trigger] self.tokens@[j] == old(self).tokens@[j],
                forall|j: int|
                    i <= j < self.cap ==> #[trigger] self.masks@[j] == old(self).masks@[j],
            decreases len - i,
        {
            let id: u32 = self.tokens[start + i];
            let mask: u8 = self.masks[start + i];
            self.tokens.set(i, id);
            self.masks.set(i, mask);
            i += 1;
        }
        self.start = 0;
        assert(self@ =~= old(self)@);
    }

    /// Zeroes `n` slots from `from` on.
    fn wipe(&mut self, from: usize, n: usize)
        requires
            old(self).wf(),
            from + n <= old(self).room(),
        ensures
            final(self).wf(),
            final(self).cap == old(self).cap,
            final(self).start == old(self).start,
            final(self).len == old(self).len,
            forall|j: int|
                0 <= j < old(self).cap && !(from <= j < from + n)
                    ==> #[trigger] final(self).tokens@[j] == old(self).tokens@[j],
            forall|j: int|
                0 <= j < old(self).cap && !(from <= j < from + n)
                    ==> #[trigger] final(self).masks@[j] == old(self).masks@[j],
            forall|j: int| from <= j < from + n ==> #[trigger] final(self).tokens@[j] == 0,
            forall|j: int| from <= j < from + n ==> #[trigger] final(self).masks@[j] == 0,
    {
        let mut i: usize = 0;
        while i < n
            invariant
                i <= n,
                from + n <= self.cap,
                self.wf(),
                self.cap == old(self).cap,
                self.start == old(self).start,
                self.len == old(self).len,
                forall|j: int|
                    0 <= j < self.cap && !(from <= j < from + i) ==> #[trigger] self.tokens@[j]
                        == old(self).tokens@[j],
                forall|j: int|
                    0 <= j < self.cap && !(from <= j < from + i) ==> #[trigger] self.masks@[j]
                        == old(self).masks@[j],
                forall|j: int| from <= j < from + i ==> #[trigger] self.tokens@[j] == 0,
                forall|j: int| from <= j < from + i ==> #[trigger] self.masks@[j] == 0,
            decreases n - i,
        {
            self.tokens.set(from + i, 0);
            self.masks.set(from + i, 0);
            i += 1;
        }
    }

    /// Forgets everything.
    pub fn clear(&mut self)
        requires
            old(self).wf(),
        ensures
            final(self).wf(),
            final(self)@ == Seq::<(u32, u8)>::empty(),
            final(self).room() == old(self).room(),
            final(self).first() == 0,
    {
        self.wipe(self.start, self.len);
        self.start = 0;
        self.len = 0;
        assert(self@ =~= Seq::empty());
    }

    /// Adds a token at the end; a full ring first lets go of its oldest.
    pub fn push(&mut self, id: u32, mask: u8)
        requires
            old(self).wf(),
        ensures
            final(self).wf(),
            final(self)@ == latest(old(self)@.push((id, mask)), old(self).room() as int),
            final(self).room() == old(self).room(),
    {
        assert(old(self)@.len() == old(self).len);
        if self.len == self.cap {
            self.drain_front(1);
            assert(self@.len() == old(self)@.len() - 1);
        }
        let ghost kept = self@;
        assert(kept.len() == self.len);
        assert(self.room() == old(self).room());
        if self.start + self.len >= self.cap {
            self.compact();
            assert(self@.len() == self.len);
        }
        let i: usize = self.start + self.len;
        self.tokens.set(i, id);
        self.masks.set(i, mask);
        self.len = self.len + 1;
        assert(self@ =~= kept.push((id, mask)));
        assert(kept.push((id, mask)) =~= latest(
            old(self)@.push((id, mask)),
            old(self).room() as int,
        ));
    }

    /// Adds tokens in order, each with its mask.
    pub fn extend(&mut self, ids: &[u32], mask: &[u8])
        requires
            old(self).wf(),
        ensures
            final(self).wf(),
            final(self)@ == latest(old(self)@ + paired(ids@, mask@), old(self).room() as int),
            final(self).room() == old(self).room(),
    {
        let n: usize = if ids.len() <= mask.len() {
            ids.len()
        } else {
            mask.len()
        };
        let ghost room = self.room() as int;
        let ghost all = paired(ids@, mask@);
        proof {
            assert(old(self)@.len() <= room);
            assert(old(self)@ + all.take(0) =~= old(self)@);
        }
        let mut i: usize = 0;
        while i < n
            invariant
                i <= n,
                n <= ids@.len(),
                n <= mask@.len(),
                n == all.len(),
                all == paired(ids@, mask@),
                self.wf(),
                self.room() == room,
                self@ == latest(old(self)@ + all.take(i as int), room),
            decreases n - i,
        {
            self.push(ids[i], mask[i]);
            proof {
                let before = old(self)@ + all.take(i as int);
                let entry = all[i as int];
                lemma_latest_push(before, entry, room);
                assert(before.push(entry) =~= old(self)@ + all.take(i + 1));
            }
            i += 1;
        }
        assert(all.take(n as int) =~= all);
    }

    /// Lets go of the oldest `n` tokens, or of all.
    pub fn drain_front(&mut self, n: usize)
        requires
            old(self).wf(),
        ensures
            final(self).wf(),
            final(self)@ == if n <= old(self)@.len() {
                old(self)@.skip(n as int)
            } else {
                Seq::empty()
            },
            final(self).room() == old(self).room(),
    {
        let n: usize = if n <= self.len {
            n
        } else {
            self.len
        };
        if n == 0 {
            assert(self@ =~= old(self)@.skip(0));
            return;
        }
        self.wipe(self.start, n);
        self.start = self.start + n;
        self.len = self.len - n;
        assert(self@ =~= old(self)@.skip(n as int));
        if self.len == 0 {
            self.start = 0;
            assert(self@ =~= old(self)@.skip(n as int));
        } else if self.start > self.cap / 2 {
            self.compact();
        }
    }

    /// Copies of up to `len` tokens and masks from place `start` on.
    pub fn window(&self, start: usize, len: usize) -> (window: (Vec<u32>, Vec<u8>))
        requires
            self.wf(),
        ensures
            window.0@.len() == window.1@.len(),
            paired(window.0@, window.1@) == self@.subrange(
                clamped(start as int, self@.len() as int),
                clamped(start + len, self@.len() as int),
            ),
    {
        let from: usize = if start <= self.len {
            start
        } else {
            self.len
        };
        let n: usize = if len <= self.len - from {
            len
        } else {
            self.len - from
        };
        let s: usize = self.start + from;
        let mut ids: Vec<u32> = Vec::new();
        let mut mask: Vec<u8> = Vec::new();
        let mut i: usize = 0;
        while i < n
            invariant
                i <= n,
                self.wf(),
                s == self.start + from,
                from + n <= self.len,
                ids@.len() == i,
                mask@.len() == i,
                forall|j: int| 0 <= j < i ==> #[trigger] ids@[j] == self@[from + j].0,
                forall|j: int| 0 <= j < i ==> #[trigger] mask@[j] == self@[from + j].1,
            decreases n - i,
        {
            ids.push(self.tokens[s + i]);
            mask.push(self.masks[s + i]);
            i += 1;
        }
        assert(paired(ids@, mask@) =~= self@.subrange(
            clamped(start as int, self@.len() as int),
            clamped(start + len, self@.len() as int),
        ));
        (ids, mask)
    }

    /// The held tokens.
    pub fn token_span(&self) -> (span: &[u32])
        requires
            self.wf(),
        ensures
            span@.len() == self@.len(),
            forall|i: int| 0 <= i < span@.len() ==> #[trigger] span@[i] == self@[i].0,
    {
        vstd::slice::slice_subrange(self.tokens.as_slice(), self.start, self.start + self.len)
    }

    /// Replaces what is held by a saved token sequence, all of it supervised.
    pub fn load_tokens(&mut self, ids: &[u32])
        requires
            old(self).wf(),
        ensures
            final(self).wf(),
            final(self)@ == latest(
                paired(ids@, full_mask(ids@.len())),
                old(self).room() as int,
            ),
            final(self).room() == old(self).room(),
            final(self).first() == 0,
    {
        self.clear();
        let mask = ones(ids.len());
        self.extend(ids, mask.as_slice());
        assert(Seq::<(u32, u8)>::empty() + paired(ids@, mask@) =~= paired(ids@, mask@));
        self.compact();
    }
}

/// `n`, held at `limit`.
pub open spec fn clamped(n: int, limit: int) -> int {
    if n <= limit {
        n
    } else {
        limit
    }
}

/// Keeping the latest after each addition is keeping the latest of all.
pub proof fn lemma_latest_push<A>(s: Seq<A>, x: A, n: int)
    requires
        n > 0,
    ensures
        latest(latest(s, n).push(x), n) == latest(s.push(x), n),
{
    assert(latest(latest(s, n).push(x), n) =~= latest(s.push(x), n));
}

/// The ring holds the latest tokens that were pushed: adding `a` and then `b`
/// is adding `a + b`, and what is let go is always the oldest.
pub proof fn law_ring_keeps_the_latest<A>(held: Seq<A>, a: Seq<A>, b: Seq<A>, room: int)
    requires
        room > 0,
    ensures
        latest(latest(held + a, room) + b, room) == latest(held + (a + b), room),
{
    assert(held + (a + b) =~= held + a + b);
    assert(latest(latest(held + a, room) + b, room) =~= latest(held + a + b, room));
}

/// The leftmost place of `pattern` in `text`.
pub open spec fn first_place(text: Seq<char>, pattern: Seq<char>) -> int {
    choose|at: int| crate::text::first_at(text, pattern, at)
}

/// `text` up to the first place of `pattern`, or all of it.
pub open spec fn text_before(text: Seq<char>, pattern: Seq<char>) -> Seq<char> {
    if crate::text::has_text(text, pattern) {
        text.take(first_place(text, pattern))
    } else {
        text
    }
}

/// What stands between the first and the second `pattern` of `text`; nothing
/// where there is none.
pub open spec fn text_behind(text: Seq<char>, pattern: Seq<char>) -> Seq<char> {
    if crate::text::has_text(text, pattern) {
        text_before(text.skip(first_place(text, pattern) + pattern.len()), pattern)
    } else {
        Seq::empty()
    }
}

/// `text` is nothing but white space.
pub open spec fn is_blank(text: Seq<char>) -> bool {
    forall|i: int| 0 <= i < text.len() ==> crate::text::is_white(#[trigger] text[i])
}

/// Nothing but white space stands behind the output tag in `text`.
pub open spec fn at_the_tag(text: Seq<char>) -> bool {
    is_blank(text_behind(text, TAG_OUTPUT@))
}

/// How many of the texts, from the first on, stop at the output tag.
pub open spec fn tag_run(texts: Seq<String>) -> int
    decreases texts.len(),
{
    if texts.len() > 0 && at_the_tag(texts[0]@) {
        1 + tag_run(texts.skip(1))
    } else {
        0
    }
}

/// A text stops at the output tag when it has none, or when nothing but white
/// space stands behind its first, up to the next.
pub proof fn law_a_text_stops_at_its_tag(text: Seq<char>, at: int, next: int)
    requires
        crate::text::first_at(text, TAG_OUTPUT@, at),
        at + TAG_OUTPUT@.len() <= next <= text.len(),
        next < text.len() ==> crate::text::occurs_at(text, TAG_OUTPUT@, next),
        forall|j: int|
            at + TAG_OUTPUT@.len() <= j < next ==> !crate::text::occurs_at(text, TAG_OUTPUT@, j),
    ensures
        at_the_tag(text) <==> forall|i: int|
            at + TAG_OUTPUT@.len() <= i < next ==> crate::text::is_white(#[trigger] text[i]),
{
    let tag = TAG_OUTPUT@;
    reveal_strlit("<|output|>");
    let from = at + tag.len();
    let chosen = first_place(text, tag);
    assert(crate::text::first_at(text, tag, chosen));
    assert(chosen == at);
    let rest = text.skip(from);
    assert forall|j: int| 0 <= j implies crate::text::occurs_at(rest, tag, j)
        == #[trigger] crate::text::occurs_at(text, tag, from + j) by {
        if j + tag.len() <= rest.len() {
            assert(rest.subrange(j, j + tag.len()) =~= text.subrange(from + j, from + j + tag.len()));
        }
    }
    assert forall|j: int| 0 <= j < next - from implies !crate::text::occurs_at(rest, tag, j) by {
        assert(!crate::text::occurs_at(text, tag, from + j));
    }
    if next < text.len() {
        assert(crate::text::occurs_at(text, tag, from + (next - from)));
        assert(crate::text::first_at(rest, tag, next - from));
        let there = first_place(rest, tag);
        assert(crate::text::first_at(rest, tag, there));
        assert(there == next - from);
    } else {
        assert forall|j: int| !crate::text::occurs_at(rest, tag, j) by {
            if 0 <= j < next - from {
            } else if 0 <= j {
                assert(j + tag.len() > rest.len());
            }
        }
    }
    let behind = text_behind(text, tag);
    assert(behind =~= text.subrange(from, next));
    if at_the_tag(text) {
        assert forall|i: int| from <= i < next implies crate::text::is_white(
            #[trigger] text[i],
        ) by {
            assert(behind[i - from] == text[i]);
        }
    }
}

/// The texts that stop at the output tag are counted from the first on, up to
/// the first that goes beyond it.
pub proof fn law_the_tag_ends_at_the_first_text_beyond_it(texts: Seq<String>)
    ensures
        0 <= tag_run(texts) <= texts.len(),
        forall|i: int| 0 <= i < tag_run(texts) ==> at_the_tag((#[trigger] texts[i])@),
        tag_run(texts) < texts.len() ==> !at_the_tag(texts[tag_run(texts)]@),
    decreases texts.len(),
{
    if texts.len() > 0 && at_the_tag(texts[0]@) {
        let rest = texts.skip(1);
        law_the_tag_ends_at_the_first_text_beyond_it(rest);
        assert forall|i: int| 0 <= i < tag_run(texts) implies at_the_tag(
            (#[trigger] texts[i])@,
        ) by {
            if i > 0 {
                assert(rest[i - 1] == texts[i]);
            }
        }
        if tag_run(texts) < texts.len() {
            assert(rest[tag_run(rest)] == texts[tag_run(texts)]);
        }
    }
}

/// There is a text for each front of the section that leaves an id behind: for
/// its first id, its first two, and so on. A section that starts with the tag
/// line, or holds nothing, is not looked into.
pub open spec fn fronts_given(output: Seq<u32>, tag: Seq<u32>, decoded: Seq<String>) -> bool {
    tag.is_prefix_of(output) || output.len() == 0 || decoded.len() == output.len() - 1
}

/// How many ids of an output section are its tag. Where the section starts with
/// the ids of the tag line, these; else as many as read back as the tag and
/// white space, and at least one. `decoded` holds what the first id of the
/// section, the first two, and so on, read back as.
pub open spec fn output_tag_ids(
    output: Seq<u32>,
    tag: Seq<u32>,
    decoded: Seq<String>,
) -> int {
    if tag.is_prefix_of(output) {
        tag.len() as int
    } else if output.len() == 0 {
        0
    } else if tag_run(decoded) > 1 {
        tag_run(decoded)
    } else {
        1
    }
}

fn place_of(text: &[char], pattern: &[char]) -> (at: Option<usize>)
    ensures
        at is Some <==> crate::text::has_text(text@, pattern@),
        at matches Some(i) ==> i == first_place(text@, pattern@) && i + pattern@.len()
            <= text@.len(),
{
    let found = find_chars(text, pattern);
    if let Some(i) = found {
        let ghost chosen = first_place(text@, pattern@);
        assert(crate::text::first_at(text@, pattern@, i as int));
        assert(crate::text::first_at(text@, pattern@, chosen));
        assert(chosen == i);
    }
    found
}

/// Whether nothing but white space stands behind the output tag in `text`.
fn stops_at_the_tag(text: &str) -> (yes: bool)
    ensures
        yes == at_the_tag(text@),
{
    let t = chars_of(text);
    let n: usize = t.len();
    let tag = chars_of(TAG_OUTPUT);
    let (from, to): (usize, usize) = match place_of(t.as_slice(), tag.as_slice()) {
        Some(at) => {
            let from: usize = at + tag.len();
            let rest = slice_subrange(t.as_slice(), from, n);
            assert(rest@ =~= t@.skip(from as int));
            match place_of(rest, tag.as_slice()) {
                Some(end) => (from, from + end),
                None => (from, n),
            }
        },
        None => (0, 0),
    };
    let ghost behind = text_behind(t@, tag@);
    assert(t@.subrange(from as int, to as int) =~= behind);
    let mut i: usize = from;
    while i < to
        invariant
            from <= i <= to <= t@.len(),
            behind == t@.subrange(from as int, to as int),
            behind == text_behind(text@, TAG_OUTPUT@),
            forall|k: int| 0 <= k < i - from ==> crate::text::is_white(#[trigger] behind[k]),
        decreases to - i,
    {
        if !white(t[i]) {
            assert(!crate::text::is_white(behind[i - from]));
            return false;
        }
        i += 1;
    }
    true
}

/// How many ids of an output section are its tag.
pub fn output_tag_len(output: &[u32], tag: &[u32], decoded: &Vec<String>) -> (n: usize)
    requires
        fronts_given(output@, tag@, decoded@),
    ensures
        n == output_tag_ids(output@, tag@, decoded@),
        n <= output@.len(),
{
    if starts_with(output, tag) {
        return tag.len();
    }
    if output.len() == 0 {
        return 0;
    }
    let mut run: usize = 0;
    assert(decoded@.skip(0) =~= decoded@);
    while run < decoded.len() && stops_at_the_tag(decoded[run].as_str())
        invariant
            run <= decoded@.len(),
            tag_run(decoded@) == run + tag_run(decoded@.skip(run as int)),
        decreases decoded@.len() - run,
    {
        assert(decoded@.skip(run as int).skip(1) =~= decoded@.skip(run + 1));
        run += 1;
    }
    if run > 1 {
        run
    } else {
        1
    }
}

fn starts_with(ids: &[u32], front: &[u32]) -> (yes: bool)
    ensures
        yes == front@.is_prefix_of(ids@),
{
    if front.len() > ids.len() {
        return false;
    }
    let mut i: usize = 0;
    while i < front.len()
        invariant
            i <= front@.len() <= ids@.len(),
            forall|k: int| 0 <= k < i ==> front@[k] == ids@[k],
        decreases front@.len() - i,
    {
        if ids[i] != front[i] {
            assert(ids@.subrange(0, front@.len() as int)[i as int] != front@[i as int]);
            return false;
        }
        i += 1;
    }
    assert(front@ =~= ids@.subrange(0, front@.len() as int));
    true
}

/// The ids of a record through its output tag and the newline behind it: what
/// a model is given when it has to answer. `tag` is the encoded tag line, and
/// `decoded` what each front of the output section reads back as.
pub fn prefix_to_output_body(parts: &EncodedParts, tag: &[u32], decoded: &Vec<String>) -> (ids: Vec<
    u32,
>)
    requires
        fronts_given(parts.output@, tag@, decoded@),
    ensures
        ids@ == parts.prefix@ + parts.thinking@ + parts.output@.take(
            output_tag_ids(parts.output@, tag@, decoded@),
        ),
{
    prefix_to_output_body_ex(parts, tag, decoded, false)
}

/// Same, for a stream that is supervised on the output only: the cut does not
/// depend on it.
pub fn prefix_to_output_body_ex(
    parts: &EncodedParts,
    tag: &[u32],
    decoded: &Vec<String>,
    _output_only: bool,
) -> (ids: Vec<u32>)
    requires
        fronts_given(parts.output@, tag@, decoded@),
    ensures
        ids@ == parts.prefix@ + parts.thinking@ + parts.output@.take(
            output_tag_ids(parts.output@, tag@, decoded@),
        ),
{
    let n: usize = output_tag_len(parts.output.as_slice(), tag, decoded);
    let cut = copy_range(parts.output.as_slice(), 0, n);
    let front = joined(parts.prefix.as_slice(), parts.thinking.as_slice());
    let ids = joined(front.as_slice(), cut.as_slice());
    assert(cut@ =~= parts.output@.take(n as int));
    ids
}

/// The tag of an output section is the tag line where the section starts with it;
/// else it reaches as far as the section reads back as the tag and white space,
/// and is one id at least.
pub proof fn law_the_tag_of_an_output_section(output: Seq<u32>, tag: Seq<u32>, decoded: Seq<String>)
    requires
        fronts_given(output, tag, decoded),
    ensures
        ({
            let n = output_tag_ids(output, tag, decoded);
            &&& 0 <= n <= output.len()
            &&& tag.is_prefix_of(output) ==> n == tag.len()
            &&& !tag.is_prefix_of(output) && output.len() > 0 ==> {
                &&& n >= 1
                &&& forall|i: int| 0 <= i < n && n > 1 ==> at_the_tag((#[trigger] decoded[i])@)
                &&& n < output.len() - 1 && at_the_tag(decoded[0]@) ==> !at_the_tag(decoded[n]@)
            }
        }),
{
    law_the_tag_ends_at_the_first_text_beyond_it(decoded);
}

/// A window holds the ids of a sequence and the one that follows it.
pub proof fn law_a_window_holds_one_id_more(seq_len: usize)
    ensures
        seq_len < usize::MAX ==> window_size(seq_len) == seq_len + 1,
        window_size(seq_len) <= usize::MAX,
        window_size(seq_len) > 0,
{
}

/// A record is its sections one after the other, each behind its tag on lines of
/// their own and without white space around it; the thinking is closed by a tag
/// of its own, and a part that is not given leaves no trace.
pub proof fn law_a_record_is_its_sections(
    system: Seq<char>,
    user: Seq<char>,
    thinking: Seq<char>,
    output: Seq<char>,
)
    ensures
        section("<|user|>"@, user) == "<|user|>"@ + "\n"@ + crate::text::trimmed(user) + "\n"@,
        thinking_section(thinking) == "<|thinking|>"@ + "\n"@ + crate::text::trimmed(thinking)
            + "\n"@ + "<|/thinking|>"@ + "\n"@,
        record_text(system, user, None, None) == section("<|system|>"@, system) + section(
            "<|user|>"@,
            user,
        ),
        record_text(system, user, Some(thinking), None) == record_text(system, user, None, None)
            + thinking_section(thinking),
        record_text(system, user, None, Some(output)) == record_text(system, user, None, None)
            + section("<|output|>"@, output),
        record_text(system, user, Some(thinking), Some(output)) == record_text(
            system,
            user,
            Some(thinking),
            None,
        ) + section("<|output|>"@, output),
{
    let none = Seq::<char>::empty();
    let head = section(TAG_SYSTEM@, system) + section(TAG_USER@, user);
    let middle = thinking_section(thinking);
    assert(head + none =~= head);
    assert(head + none + none =~= head);
    assert(head + middle + none =~= head + middle);
}

/// The window is a run of the record in which nothing before `from` is learned,
/// and everything from `sure` on is.
pub open spec fn learned_between(
    record: Seq<u32>,
    window: (Seq<u32>, Seq<u8>),
    from: int,
    sure: int,
) -> bool {
    exists|at: int|
        #![trigger record.subrange(at, at + window.0.len())]
        {
            &&& 0 <= at <= record.len() - window.0.len()
            &&& record.subrange(at, at + window.0.len()) == window.0
            &&& window.1.len() == window.0.len()
            &&& forall|i: int|
                0 <= i < window.0.len() ==> (#[trigger] window.1[i] != 0 ==> at + i >= from) && (at
                    + i >= sure ==> window.1[i] != 0)
        }
}

proof fn lemma_learned_at(
    record: Seq<u32>,
    window: (Seq<u32>, Seq<u8>),
    from: int,
    sure: int,
    at: int,
)
    requires
        0 <= at <= record.len() - window.0.len(),
        forall|k: int| 0 <= k < window.0.len() ==> #[trigger] window.0[k] == record[at + k],
        window.1.len() == window.0.len(),
        forall|i: int|
            0 <= i < window.0.len() ==> (#[trigger] window.1[i] != 0 ==> at + i >= from) && (at + i
                >= sure ==> window.1[i] != 0),
    ensures
        learned_between(record, window, from, sure),
{
    assert(record.subrange(at, at + window.0.len()) =~= window.0);
}

proof fn lemma_packed_learned(
    context: Seq<u32>,
    body: Seq<u32>,
    rest: Seq<u32>,
    keep: int,
    from: int,
    sure: int,
)
    requires
        keep > 0,
        body.len() > 0,
        from <= context.len() <= sure,
    ensures
        learned_between(
            context + body + rest,
            (window_ids(context, body, keep), window_mask(context, body, keep)),
            from,
            sure,
        ),
        window_ids(context, body, keep).len() > 0,
        is_supervised(window_mask(context, body, keep)),
{
    law_a_window_is_as_full_as_it_can_be(context, body, keep);
    law_windows_keep_their_targets(context, body, keep);
    let ids = window_ids(context, body, keep);
    let mask = window_mask(context, body, keep);
    let part = head_of(body, body_budget(context.len() as int, keep));
    let front = ids.len() - part.len();
    assert(mask[ids.len() - 1] == 1u8);
    lemma_learned_at(context + body + rest, (ids, mask), from, sure, context.len() - front);
}

proof fn lemma_middle_learned(
    ws: Seq<(Seq<u32>, Seq<u8>)>,
    prefix: Seq<u32>,
    thinking: Seq<u32>,
    output: Seq<u32>,
    keep: int,
    start: int,
    extra: int,
)
    requires
        0 < keep < thinking.len(),
        0 < start,
        forall|w: int|
            0 <= w < ws.len() ==> learned_between(
                prefix + thinking + output,
                #[trigger] ws[w],
                prefix.len() as int,
                (prefix.len() + thinking.len()) as int,
            ),
    ensures
        forall|w: int|
            0 <= w < middle_windows(ws, thinking, keep, start, extra).len() ==> learned_between(
                prefix + thinking + output,
                #[trigger] middle_windows(ws, thinking, keep, start, extra)[w],
                prefix.len() as int,
                (prefix.len() + thinking.len()) as int,
            ),
    decreases 6 - extra,
{
    if start < thinking.len() && extra < 6 {
        let end = if start + keep < thinking.len() {
            start + keep
        } else {
            thinking.len() as int
        };
        let ids = thinking.subrange(end - keep, end);
        let mask = full_mask(keep as nat);
        lemma_learned_at(
            prefix + thinking + output,
            (ids, mask),
            prefix.len() as int,
            (prefix.len() + thinking.len()) as int,
            prefix.len() + end - keep,
        );
        let more = with_window(ws, ids, mask);
        assert forall|w: int| 0 <= w < more.len() implies learned_between(
            prefix + thinking + output,
            #[trigger] more[w],
            prefix.len() as int,
            (prefix.len() + thinking.len()) as int,
        ) by {
            if w < ws.len() {
                assert(more[w] == ws[w]);
            }
        }
        lemma_middle_learned(
            more,
            prefix,
            thinking,
            output,
            keep,
            start + stride_of(keep),
            extra + 1,
        );
        assert(middle_windows(ws, thinking, keep, start, extra) == middle_windows(
            more,
            thinking,
            keep,
            start + stride_of(keep),
            extra + 1,
        ));
    }
}

/// The loss stays where it belongs: in every window of a record with an answer
/// nothing of the prompt is learned, nor of the thinking where the output alone
/// is, and all of the answer that the window holds is.
pub proof fn law_the_loss_stays_on_what_is_learned(
    prefix: Seq<u32>,
    thinking: Seq<u32>,
    output: Seq<u32>,
    keep: int,
    output_only: bool,
    w: int,
)
    requires
        keep > 0,
        output.len() > 0,
        prefix.len() + thinking.len() + output.len() > keep,
        0 <= w < supervised_windows(prefix, thinking, output, keep, output_only).len(),
    ensures
        learned_between(
            prefix + thinking + output,
            supervised_windows(prefix, thinking, output, keep, output_only)[w],
            if output_only {
                (prefix.len() + thinking.len()) as int
            } else {
                prefix.len() as int
            },
            (prefix.len() + thinking.len()) as int,
        ),
{
    let record = prefix + thinking + output;
    let both = prefix + thinking;
    let sure = both.len() as int;
    let from = if output_only {
        sure
    } else {
        prefix.len() as int
    };
    let none = Seq::<(Seq<u32>, Seq<u8>)>::empty();
    let nil = Seq::<u32>::empty();
    let context = if output_only {
        both
    } else {
        prefix
    };
    let body = if output_only || thinking.len() == 0 {
        output
    } else {
        thinking
    };
    assert(both + output + nil =~= record);
    if output_only {
        lemma_packed_learned(both, output, nil, keep, from, sure);
    } else if thinking.len() == 0 {
        assert(prefix + output + nil =~= record);
        lemma_packed_learned(prefix, output, nil, keep, from, sure);
    } else {
        lemma_packed_learned(prefix, thinking, output, keep, from, sure);
    }
    lemma_packed_learned(both, output, nil, keep, from, sure);
    let mask = end_mask(output.len() as int, keep);
    let last = tail_of(both + output, keep);
    lemma_learned_at(record, (last, mask), from, sure, record.len() - keep);
    let edges = edge_windows(prefix, thinking, output, keep, output_only);
    assert forall|i: int| 0 <= i < edges.len() implies learned_between(
        record,
        #[trigger] edges[i],
        from,
        sure,
    ) by {
        let first = with_packed(none, context, body, keep);
        let second = with_packed(first, both, output, keep);
        assert(edges == with_window(second, last, mask));
    }
    if !output_only && thinking.len() > keep {
        lemma_middle_learned(edges, prefix, thinking, output, keep, stride_of(keep), 0);
    }
    assert(mask[keep - 1] == 1u8);
    assert(is_supervised(mask));
    assert(edges.len() > 0);
    if !output_only && thinking.len() > keep {
        let i0 = edges[0].0;
        assert(has_ids(edges, i0));
        lemma_middle_keeps(edges, thinking, keep, stride_of(keep), 0, i0);
    }
}

/// The edges of a long record are seen: a window goes from its prompt into the
/// thinking, unless the output alone is learned, and one goes from what stands
/// before the answer into the answer.
pub proof fn law_the_edges_of_a_record_are_seen(
    prefix: Seq<u32>,
    thinking: Seq<u32>,
    output: Seq<u32>,
    keep: int,
    output_only: bool,
)
    requires
        keep > 0,
        output.len() > 0,
        prefix.len() + thinking.len() + output.len() > keep,
    ensures
        has_ids(
            supervised_windows(prefix, thinking, output, keep, output_only),
            window_ids(prefix + thinking, output, keep),
        ),
        !output_only && thinking.len() > 0 ==> has_ids(
            supervised_windows(prefix, thinking, output, keep, output_only),
            window_ids(prefix, thinking, keep),
        ),
{
    let both = prefix + thinking;
    let nil = Seq::<u32>::empty();
    let none = Seq::<(Seq<u32>, Seq<u8>)>::empty();
    let sure = both.len() as int;
    lemma_packed_learned(both, output, nil, keep, 0, sure);
    let context = if output_only {
        both
    } else {
        prefix
    };
    let body = if output_only || thinking.len() == 0 {
        output
    } else {
        thinking
    };
    lemma_packed_learned(context, body, nil, keep, 0, sure);
    let opening = window_ids(context, body, keep);
    let answer = window_ids(both, output, keep);
    let first = with_packed(none, context, body, keep);
    lemma_added(none, opening, window_mask(context, body, keep), opening);
    let second = with_packed(first, both, output, keep);
    lemma_added(first, answer, window_mask(both, output, keep), answer);
    lemma_added(first, answer, window_mask(both, output, keep), opening);
    let last = tail_of(both + output, keep);
    let mask = end_mask(output.len() as int, keep);
    lemma_added(second, last, mask, answer);
    lemma_added(second, last, mask, opening);
    let edges = edge_windows(prefix, thinking, output, keep, output_only);
    assert(edges == with_window(second, last, mask));
    if !output_only && thinking.len() > keep {
        lemma_middle_keeps(edges, thinking, keep, stride_of(keep), 0, answer);
        lemma_middle_keeps(edges, thinking, keep, stride_of(keep), 0, opening);
    }
}

proof fn lemma_added(
    ws: Seq<(Seq<u32>, Seq<u8>)>,
    ids: Seq<u32>,
    mask: Seq<u8>,
    other: Seq<u32>,
)
    ensures
        has_ids(ws, other) ==> has_ids(with_window(ws, ids, mask), other),
        ids.len() > 0 && is_supervised(mask) ==> has_ids(with_window(ws, ids, mask), ids),
{
    let more = with_window(ws, ids, mask);
    if has_ids(ws, other) {
        let i = choose|i: int| 0 <= i < ws.len() && (#[trigger] ws[i]).0 == other;
        assert(more[i].0 == other);
    }
    if ids.len() > 0 && is_supervised(mask) && !has_ids(ws, ids) {
        assert(more[ws.len() as int].0 == ids);
    }
}

/// The latest entries are the last ones, in their order: as many as there is room
/// for, or all of them.
pub proof fn law_the_latest_are_the_last(s: Seq<(u32, u8)>, n: int, i: int)
    requires
        0 <= n,
        0 <= i < latest(s, n).len(),
    ensures
        latest(s, n).len() == if s.len() < n {
            s.len() as int
        } else {
            n
        },
        latest(s, n)[i] == s[s.len() - latest(s, n).len() + i],
        latest(s, n).len() > 0 ==> latest(s, n).last() == s.last(),
{
}

/// Ids and masks are paired place by place.
pub proof fn law_each_id_has_its_mask(ids: Seq<u32>, mask: Seq<u8>, i: int)
    requires
        ids.len() == mask.len(),
        0 <= i < ids.len(),
    ensures
        paired(ids, mask).len() == ids.len(),
        paired(ids, mask)[i] == (ids[i], mask[i]),
{
}

} // verus!

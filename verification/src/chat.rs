//! Streaming chat: splitting a token stream into the thinking lane and the
//! output lane while structural tags may be cut anywhere between tokens.
use vstd::prelude::*;
use vstd::string::*;
use crate::data::{TAG_OUTPUT, TAG_SYSTEM, TAG_THINKING, TAG_THINK_END, TAG_USER};
use crate::text::{
    chars_of, find_chars, find_text, has_suffix, parse_number, same_text, strip_prefix, trim,
};

verus! {

/// Closing tag of the thinking lane in its markup spelling.
pub const TAG_THINK_CLOSE: &'static str = "</thinking>";

#[derive(Clone, Copy, Debug, PartialEq, Eq, Structural)]
pub enum Lane {
    Think,
    Output,
}

/// One step of painting the stream.
#[derive(Debug)]
pub enum PaintOp {
    Banner,
    Think(String),
    Divider,
    Output(String),
    Reset,
}

#[derive(Clone, Copy, Debug, PartialEq, Eq, Structural)]
pub enum TagKind {
    ThinkStart,
    ThinkEnd,
    Output,
    Other,
}

/// A painting step by the characters that it shows.
pub enum Paint {
    Banner,
    Think(Seq<char>),
    Divider,
    Output(Seq<char>),
    Reset,
}

impl View for PaintOp {
    type V = Paint;

    open spec fn view(&self) -> Paint {
        match *self {
            PaintOp::Banner => Paint::Banner,
            PaintOp::Think(s) => Paint::Think(s@),
            PaintOp::Divider => Paint::Divider,
            PaintOp::Output(s) => Paint::Output(s@),
            PaintOp::Reset => Paint::Reset,
        }
    }
}

/// The steps by the characters that they show.
pub open spec fn paints(ops: Seq<PaintOp>) -> Seq<Paint> {
    Seq::new(ops.len(), |i: int| ops[i]@)
}

/// The structural tags.
pub open spec fn tag_text(k: int) -> Seq<char> {
    if k == 0 {
        TAG_THINK_END@
    } else if k == 1 {
        TAG_THINK_CLOSE@
    } else if k == 2 {
        TAG_THINKING@
    } else if k == 3 {
        TAG_OUTPUT@
    } else if k == 4 {
        TAG_SYSTEM@
    } else {
        TAG_USER@
    }
}

/// What a structural tag does.
pub open spec fn tag_kind(k: int) -> TagKind {
    if k == 0 || k == 1 {
        TagKind::ThinkEnd
    } else if k == 2 {
        TagKind::ThinkStart
    } else if k == 3 {
        TagKind::Output
    } else {
        TagKind::Other
    }
}

/// Tag `k` stands in `text` at `at`.
pub open spec fn tag_at(text: Seq<char>, k: int, at: int) -> bool {
    0 <= k < 6 && crate::text::occurs_at(text, tag_text(k), at)
}

/// Some tag stands in `text` at `at`.
pub open spec fn any_tag_at(text: Seq<char>, at: int) -> bool {
    exists|k: int| tag_at(text, k, at)
}

/// The tag that stands in `text` at `at`.
pub open spec fn which_tag(text: Seq<char>, at: int) -> int {
    choose|k: int| tag_at(text, k, at)
}

/// Tag `k` begins with `text` and goes on.
pub open spec fn begins_tag(text: Seq<char>, k: int) -> bool {
    0 <= k < 6 && text.len() < tag_text(k).len() && tag_text(k).take(text.len() as int) == text
}

/// `text` may still grow into a tag.
pub open spec fn is_partial(text: Seq<char>) -> bool {
    exists|k: int| begins_tag(text, k)
}

/// The leftmost tag of `text` stands at `at`.
pub open spec fn first_tag_at(text: Seq<char>, at: int) -> bool {
    any_tag_at(text, at) && forall|j: int| 0 <= j < at ==> !any_tag_at(text, j)
}

/// `text` holds a tag.
pub open spec fn has_tag(text: Seq<char>) -> bool {
    exists|at: int| any_tag_at(text, at)
}

/// The end of `text` from `at` on may still grow into a tag, and no longer
/// end may.
pub open spec fn first_partial_at(text: Seq<char>, at: int) -> bool {
    &&& 0 <= at < text.len()
    &&& is_partial(text.skip(at))
    &&& forall|j: int| 0 <= j < at ==> !#[trigger] is_partial(text.skip(j))
}

/// Some end of `text` may still grow into a tag.
pub open spec fn has_partial(text: Seq<char>) -> bool {
    exists|at: int| 0 <= at < text.len() && #[trigger] is_partial(text.skip(at))
}

/// Where painting stands.
pub struct Canvas {
    pub lane: Lane,
    pub bannered: bool,
    pub divided: bool,
    pub output: Seq<char>,
}

impl Canvas {
    /// Showing the banner, where it is still due.
    pub open spec fn banner(self) -> (Canvas, Seq<Paint>) {
        if self.lane == Lane::Think && !self.bannered {
            (Canvas { bannered: true, ..self }, seq![Paint::Banner])
        } else {
            (self, Seq::empty())
        }
    }

    /// Showing `text` in the current lane.
    pub open spec fn text(self, text: Seq<char>) -> (Canvas, Seq<Paint>) {
        if text.len() == 0 {
            (self, Seq::empty())
        } else if self.lane == Lane::Think {
            (self.banner().0, self.banner().1.push(Paint::Think(text)))
        } else if !self.divided && self.bannered {
            (
                Canvas { divided: true, output: self.output + text, ..self },
                seq![Paint::Divider, Paint::Output(text)],
            )
        } else {
            (Canvas { output: self.output + text, ..self }, seq![Paint::Output(text)])
        }
    }

    /// Meeting a tag.
    pub open spec fn tag(self, kind: TagKind) -> (Canvas, Seq<Paint>) {
        if self.lane == Lane::Think && (kind == TagKind::ThinkEnd || kind == TagKind::Output) {
            let (c, ops) = self.banner();
            if c.divided {
                (Canvas { lane: Lane::Output, ..c }, ops)
            } else {
                (Canvas { lane: Lane::Output, divided: true, ..c }, ops.push(Paint::Divider))
            }
        } else if self.lane == Lane::Output && kind == TagKind::ThinkStart {
            (Canvas { lane: Lane::Think, ..self }, Seq::empty())
        } else {
            (self, Seq::empty())
        }
    }
}

/// What painting a stretch of stream leads to: the canvas, the steps, and the
/// characters that are held back because they may grow into a tag.
pub struct Painted {
    pub canvas: Canvas,
    pub ops: Seq<Paint>,
    pub rest: Seq<char>,
}

/// Painting `text`: each run up to a tag is one step; what follows the last
/// tag is shown as far as it cannot grow into a tag, or whole when the stream
/// ends (`flush`).
pub open spec fn painted(canvas: Canvas, text: Seq<char>, flush: bool) -> Painted
    decreases text.len(),
{
    if text.len() == 0 {
        Painted { canvas, ops: Seq::empty(), rest: Seq::empty() }
    } else if has_tag(text) {
        let at = choose|at: int| first_tag_at(text, at);
        let k = which_tag(text, at);
        let after = at + tag_text(k).len();
        if 0 <= at < after <= text.len() {
            let (shown, shown_ops) = canvas.text(text.take(at));
            let (tagged, tag_ops) = shown.tag(tag_kind(k));
            let more = painted(tagged, text.skip(after), flush);
            Painted { ops: shown_ops + tag_ops + more.ops, ..more }
        } else {
            Painted { canvas, ops: Seq::empty(), rest: text }
        }
    } else if !flush && has_partial(text) {
        let at = choose|at: int| first_partial_at(text, at);
        let (shown, ops) = canvas.text(text.take(at));
        Painted { canvas: shown, ops, rest: text.skip(at) }
    } else {
        let (shown, ops) = canvas.text(text);
        Painted { canvas: shown, ops, rest: Seq::empty() }
    }
}

/// Reveals the structural tags.
proof fn lemma_tags()
    ensures
        TAG_THINK_END@.len() == 13,
        TAG_THINK_CLOSE@.len() == 11,
        TAG_THINKING@.len() == 12,
        TAG_OUTPUT@.len() == 10,
        TAG_SYSTEM@.len() == 10,
        TAG_USER@.len() == 8,
        forall|k: int| #![trigger tag_text(k)] tag_text(k).len() > 0,
{
    reveal_strlit("<|/thinking|>");
    reveal_strlit("</thinking>");
    reveal_strlit("<|thinking|>");
    reveal_strlit("<|output|>");
    reveal_strlit("<|system|>");
    reveal_strlit("<|user|>");
}

/// Two tags never stand at the same place.
proof fn lemma_one_tag(text: Seq<char>, i: int, j: int, at: int)
    requires
        tag_at(text, i, at),
        tag_at(text, j, at),
    ensures
        i == j,
{
    reveal_strlit("<|/thinking|>");
    reveal_strlit("</thinking>");
    reveal_strlit("<|thinking|>");
    reveal_strlit("<|output|>");
    reveal_strlit("<|system|>");
    reveal_strlit("<|user|>");
    let a = tag_text(i);
    let b = tag_text(j);
    assert(a[1] == text[at + 1] && b[1] == text[at + 1]) by {
        assert(text.subrange(at, at + a.len())[1] == text[at + 1]);
        assert(text.subrange(at, at + b.len())[1] == text[at + 1]);
    }
    assert(a[2] == text[at + 2] && b[2] == text[at + 2]) by {
        assert(text.subrange(at, at + a.len())[2] == text[at + 2]);
        assert(text.subrange(at, at + b.len())[2] == text[at + 2]);
    }
}

/// Some tag is the leftmost one.
proof fn lemma_leftmost_tag(text: Seq<char>, at: int)
    requires
        any_tag_at(text, at),
    ensures
        exists|i: int| first_tag_at(text, i),
    decreases at,
{
    let k = choose|k: int| tag_at(text, k, at);
    assert(0 <= at);
    if !first_tag_at(text, at) {
        let j = choose|j: int| 0 <= j < at && any_tag_at(text, j);
        lemma_leftmost_tag(text, j);
    }
}

/// Some partial end is the longest one.
proof fn lemma_longest_partial(text: Seq<char>, at: int)
    requires
        0 <= at < text.len(),
        is_partial(text.skip(at)),
    ensures
        exists|i: int| first_partial_at(text, i),
    decreases at,
{
    if !first_partial_at(text, at) {
        let j = choose|j: int| 0 <= j < at && #[trigger] is_partial(text.skip(j));
        lemma_longest_partial(text, j);
    }
}

/// A tag found in a text: where it stands, its length, and what it does.
#[derive(Clone, Copy, Debug, PartialEq, Eq, Structural)]
pub struct TagHit {
    pub at: usize,
    pub len: usize,
    pub kind: TagKind,
}

/// Tag `i` stands in `text` as `hit` says.
pub open spec fn describes(text: Seq<char>, i: int, hit: TagHit) -> bool {
    tag_at(text, i, hit.at as int) && hit.len == tag_text(i).len() && hit.kind == tag_kind(i)
}

/// `best` is the leftmost of the first `k` tags in `text`.
spec fn best_of(text: Seq<char>, k: int, best: Option<TagHit>) -> bool {
    match best {
        Some(hit) => {
            &&& exists|i: int| 0 <= i < k && describes(text, i, hit)
            &&& forall|i: int, j: int| 0 <= i < k && tag_at(text, i, j) ==> j >= hit.at
        },
        None => forall|i: int, j: int| 0 <= i < k ==> !tag_at(text, i, j),
    }
}

/// Painting a text whose leftmost tag is known.
proof fn lemma_painted_tag(canvas: Canvas, text: Seq<char>, flush: bool, at: int, k: int)
    requires
        first_tag_at(text, at),
        tag_at(text, k, at),
    ensures
        ({
            let (c1, ops1) = canvas.text(text.take(at));
            let (c2, ops2) = c1.tag(tag_kind(k));
            let more = painted(c2, text.skip(at + tag_text(k).len()), flush);
            &&& painted(canvas, text, flush).ops == ops1 + ops2 + more.ops
            &&& painted(canvas, text, flush).canvas == more.canvas
            &&& painted(canvas, text, flush).rest == more.rest
        }),
{
    lemma_tags();
    assert(has_tag(text));
    let a = choose|a: int| first_tag_at(text, a);
    assert(first_tag_at(text, a));
    let i = choose|i: int| tag_at(text, i, a);
    assert(tag_at(text, i, a));
    assert(a == at);
    lemma_one_tag(text, k, which_tag(text, at), at);
}

/// Painting a text without a tag.
proof fn lemma_painted_end(canvas: Canvas, text: Seq<char>, flush: bool, held: int)
    requires
        text.len() > 0,
        !has_tag(text),
        0 <= held <= text.len(),
        flush ==> held == 0,
        !flush ==> (held == 0 <==> !has_partial(text)),
        held > 0 ==> first_partial_at(text, text.len() - held),
    ensures
        ({
            let (shown, ops) = canvas.text(text.take(text.len() - held));
            &&& painted(canvas, text, flush).ops == ops
            &&& painted(canvas, text, flush).canvas == shown
            &&& painted(canvas, text, flush).rest == text.skip(text.len() - held)
        }),
{
    if held > 0 {
        let at = choose|at: int| first_partial_at(text, at);
        assert(first_partial_at(text, at));
        assert(is_partial(text.skip(at)));
        assert(is_partial(text.skip(text.len() - held)));
        assert(at == text.len() - held);
    } else {
        assert(text.take(text.len() as int) =~= text);
        assert(text.skip(text.len() as int) =~= Seq::empty());
    }
}

fn consider(
    text: &Vec<char>,
    tag: &'static str,
    kind: TagKind,
    best: Option<TagHit>,
    Ghost(k): Ghost<int>,
) -> (chosen: Option<TagHit>)
    requires
        0 <= k < 6,
        tag@ == tag_text(k),
        kind == tag_kind(k),
        best_of(text@, k, best),
    ensures
        best_of(text@, k + 1, chosen),
{
    let pattern = chars_of(tag);
    let found = find_chars(text.as_slice(), pattern.as_slice());
    proof {
        assert forall|i: int, j: int| i == k && tag_at(text@, i, j) implies found is Some && j
            >= found->0 by {
            assert(crate::text::occurs_at(text@, pattern@, j));
            assert(crate::text::has_text(text@, pattern@));
        }
    }
    let at: usize = match found {
        Some(at) => at,
        None => {
            return best;
        },
    };
    let hit = TagHit { at, len: pattern.len(), kind };
    assert(describes(text@, k, hit));
    match best {
        None => Some(hit),
        Some(b) => if at < b.at || (at == b.at && hit.len > b.len) {
            Some(hit)
        } else {
            best
        },
    }
}

/// The leftmost structural tag.
pub fn earliest_tag(text: &Vec<char>) -> (found: Option<TagHit>)
    ensures
        found is Some <==> has_tag(text@),
        found matches Some(hit) ==> {
            &&& first_tag_at(text@, hit.at as int)
            &&& describes(text@, which_tag(text@, hit.at as int), hit)
            &&& hit.at + hit.len <= text@.len()
            &&& hit.len > 0
        },
{
    let best = consider(text, TAG_THINK_END, TagKind::ThinkEnd, None, Ghost(0));
    let best = consider(text, TAG_THINK_CLOSE, TagKind::ThinkEnd, best, Ghost(1));
    let best = consider(text, TAG_THINKING, TagKind::ThinkStart, best, Ghost(2));
    let best = consider(text, TAG_OUTPUT, TagKind::Output, best, Ghost(3));
    let best = consider(text, TAG_SYSTEM, TagKind::Other, best, Ghost(4));
    let best = consider(text, TAG_USER, TagKind::Other, best, Ghost(5));
    proof {
        lemma_tags();
        match best {
            None => {
                assert forall|at: int| !any_tag_at(text@, at) by {}
            },
            Some(hit) => {
                let i = choose|i: int| 0 <= i < 6 && describes(text@, i, hit);
                assert(any_tag_at(text@, hit.at as int));
                lemma_one_tag(text@, i, which_tag(text@, hit.at as int), hit.at as int);
                assert(has_tag(text@));
            },
        }
    }
    best
}

fn starts_as(tag: &'static str, text: &Vec<char>, at: usize, Ghost(k): Ghost<int>) -> (partial:
    bool)
    requires
        0 <= k < 6,
        tag@ == tag_text(k),
        at <= text@.len(),
    ensures
        partial == begins_tag(text@.skip(at as int), k),
{
    let t = chars_of(tag);
    let total: usize = text.len();
    let n: usize = total - at;
    if n >= t.len() {
        return false;
    }
    let mut i: usize = 0;
    while i < n
        invariant
            i <= n < t@.len(),
            at + n == total == text@.len(),
            0 <= k < 6,
            t@ == tag_text(k),
            forall|j: int| 0 <= j < i ==> t@[j] == text@[at + j],
        decreases n - i,
    {
        if t[i] != text[at + i] {
            assert(t@.take(n as int)[i as int] != text@.skip(at as int)[i as int]);
            return false;
        }
        i += 1;
    }
    assert(t@.take(n as int) =~= text@.skip(at as int));
    true
}

fn may_grow(text: &Vec<char>, at: usize) -> (partial: bool)
    requires
        at <= text@.len(),
    ensures
        partial == is_partial(text@.skip(at as int)),
{
    let a = starts_as(TAG_THINK_END, text, at, Ghost(0));
    let b = starts_as(TAG_THINK_CLOSE, text, at, Ghost(1));
    let c = starts_as(TAG_THINKING, text, at, Ghost(2));
    let d = starts_as(TAG_OUTPUT, text, at, Ghost(3));
    let e = starts_as(TAG_SYSTEM, text, at, Ghost(4));
    let f = starts_as(TAG_USER, text, at, Ghost(5));
    proof {
        let end = text@.skip(at as int);
        if is_partial(end) {
            let k = choose|k: int| begins_tag(end, k);
            assert(k == 0 || k == 1 || k == 2 || k == 3 || k == 4 || k == 5);
        }
    }
    a || b || c || d || e || f
}

/// How many characters at the end of `text` are held back because they may
/// still grow into a tag.
pub fn hold_len(text: &Vec<char>) -> (held: usize)
    ensures
        held <= text@.len(),
        held == 0 <==> !has_partial(text@),
        held > 0 ==> first_partial_at(text@, text@.len() - held),
{
    let mut i: usize = 0;
    while i < text.len()
        invariant
            i <= text@.len(),
            forall|j: int| 0 <= j < i ==> !#[trigger] is_partial(text@.skip(j)),
        decreases text@.len() - i,
    {
        if may_grow(text, i) {
            assert(has_partial(text@));
            return text.len() - i;
        }
        i += 1;
    }
    0
}

/// Splits a stream of text pieces into painting steps.
#[derive(Debug)]
pub struct PaintScan {
    /// What may yet grow into a tag.
    pub pending: String,
    /// The lane that text goes to.
    pub lane: Lane,
    /// The banner over the thinking was shown.
    pub bannered: bool,
    /// The divider before the output was shown.
    pub divided: bool,
    /// The text of the output lane so far.
    pub output_text: String,
}

proof fn lemma_paints_push(ops: Seq<PaintOp>, op: PaintOp)
    ensures
        paints(ops.push(op)) == paints(ops).push(op@),
{
    assert(paints(ops.push(op)) =~= paints(ops).push(op@));
}

fn put(ops: &mut Vec<PaintOp>, op: PaintOp)
    ensures
        paints(final(ops)@) == paints(old(ops)@).push(op@),
{
    proof {
        lemma_paints_push(ops@, op);
    }
    ops.push(op);
}

impl PaintScan {
    /// Where painting stands.
    pub open spec fn canvas(&self) -> Canvas {
        Canvas {
            lane: self.lane,
            bannered: self.bannered,
            divided: self.divided,
            output: self.output_text@,
        }
    }

    /// Characters held back because they may grow into a tag.
    pub open spec fn held(&self) -> Seq<char> {
        self.pending@
    }

    /// A scan that starts in the thinking lane or in the output lane.
    pub fn new(start_think: bool) -> (scan: Self)
        ensures
            scan.canvas() == (Canvas {
                lane: if start_think {
                    Lane::Think
                } else {
                    Lane::Output
                },
                bannered: false,
                divided: false,
                output: Seq::empty(),
            }),
            scan.held() == Seq::<char>::empty(),
    {
        PaintScan {
            pending: String::new(),
            lane: if start_think {
                Lane::Think
            } else {
                Lane::Output
            },
            bannered: false,
            divided: false,
            output_text: String::new(),
        }
    }

    /// Takes the next piece of the stream.
    pub fn feed(&mut self, piece: &str) -> (ops: Vec<PaintOp>)
        ensures
            ({
                let goal = painted(old(self).canvas(), old(self).held() + piece@, false);
                &&& paints(ops@) == goal.ops
                &&& final(self).canvas() == goal.canvas
                &&& final(self).held() == goal.rest
            }),
    {
        self.pending.append(piece);
        self.drain(false)
    }

    /// Ends the stream: what was held back is shown as it is.
    pub fn finish(&mut self) -> (ops: Vec<PaintOp>)
        ensures
            ({
                let goal = painted(old(self).canvas(), old(self).held(), true);
                &&& paints(ops@) == goal.ops
                &&& final(self).canvas() == goal.canvas
                &&& final(self).held() == goal.rest
            }),
    {
        self.drain(true)
    }

    fn drain(&mut self, flush: bool) -> (ops: Vec<PaintOp>)
        ensures
            ({
                let goal = painted(old(self).canvas(), old(self).held(), flush);
                &&& paints(ops@) == goal.ops
                &&& final(self).canvas() == goal.canvas
                &&& final(self).held() == goal.rest
            }),
    {
        let ghost goal = painted(self.canvas(), self.held(), flush);
        let mut ops: Vec<PaintOp> = Vec::new();
        assert(paints(ops@) + goal.ops =~= goal.ops);
        let mut text = chars_of(self.pending.as_str());
        loop
            invariant_except_break
                text@ == self.pending@,
                goal.ops == paints(ops@) + painted(self.canvas(), self.held(), flush).ops,
                goal.canvas == painted(self.canvas(), self.held(), flush).canvas,
                goal.rest == painted(self.canvas(), self.held(), flush).rest,
            ensures
                goal.ops == paints(ops@),
                goal.canvas == self.canvas(),
                goal.rest == self.held(),
            decreases text@.len(),
        {
            let n: usize = text.len();
            let ghost shown = paints(ops@);
            let ghost canvas = self.canvas();
            if n == 0 {
                assert(shown + Seq::<Paint>::empty() =~= shown);
                assert(self.held() =~= Seq::empty());
                break;
            }
            match earliest_tag(&text) {
                Some(hit) => {
                    proof {
                        lemma_painted_tag(
                            canvas,
                            text@,
                            flush,
                            hit.at as int,
                            which_tag(text@, hit.at as int),
                        );
                        let (c1, ops1) = canvas.text(text@.take(hit.at as int));
                        let (c2, ops2) = c1.tag(hit.kind);
                        let more = painted(c2, text@.skip(hit.at + hit.len), flush);
                        assert(shown + (ops1 + ops2 + more.ops) =~= shown + (ops1 + ops2)
                            + more.ops);
                    }
                    self.pass_tag(&text, hit, &mut ops);
                    text = chars_of(self.pending.as_str());
                },
                None => {
                    let held: usize = if flush {
                        0
                    } else {
                        hold_len(&text)
                    };
                    let shown_text = self.pending.as_str().substring_char(0, n - held).to_owned();
                    let rest = self.pending.as_str().substring_char(n - held, n).to_owned();
                    proof {
                        lemma_painted_end(canvas, text@, flush, held as int);
                        assert(shown_text@ =~= text@.take(n - held));
                        assert(rest@ =~= text@.skip(n - held));
                    }
                    self.pending = rest;
                    self.emit_text(shown_text.as_str(), &mut ops);
                    break;
                },
            }
        }
        ops
    }

    /// Shows the text before a tag, drops the tag, and follows it.
    fn pass_tag(&mut self, text: &Vec<char>, hit: TagHit, ops: &mut Vec<PaintOp>)
        requires
            text@ == old(self).held(),
            hit.at + hit.len <= text@.len(),
        ensures
            ({
                let (c1, ops1) = old(self).canvas().text(text@.take(hit.at as int));
                let (c2, ops2) = c1.tag(hit.kind);
                &&& final(self).canvas() == c2
                &&& paints(final(ops)@) == paints(old(ops)@) + (ops1 + ops2)
                &&& final(self).held() == text@.skip(hit.at + hit.len)
            }),
    {
        let n: usize = text.len();
        let prefix = self.pending.as_str().substring_char(0, hit.at).to_owned();
        let rest = self.pending.as_str().substring_char(hit.at + hit.len, n).to_owned();
        assert(prefix@ =~= text@.take(hit.at as int));
        assert(rest@ =~= text@.skip(hit.at + hit.len));
        self.pending = rest;
        let ghost (c1, ops1) = self.canvas().text(prefix@);
        self.emit_text(prefix.as_str(), ops);
        match hit.kind {
            TagKind::ThinkEnd | TagKind::Output => {
                if self.lane == Lane::Think {
                    self.close_think(ops);
                }
            },
            TagKind::ThinkStart => {
                if self.lane == Lane::Output {
                    self.lane = Lane::Think;
                }
            },
            TagKind::Other => {},
        }
        assert(paints(ops@) =~= paints(old(ops)@) + (ops1 + c1.tag(hit.kind).1));
    }

    fn close_think(&mut self, ops: &mut Vec<PaintOp>)
        requires
            old(self).canvas().lane == Lane::Think,
        ensures
            final(self).canvas() == old(self).canvas().tag(TagKind::ThinkEnd).0,
            paints(final(ops)@) == paints(old(ops)@) + old(self).canvas().tag(TagKind::ThinkEnd).1,
            final(self).held() == old(self).held(),
    {
        self.ensure_banner(ops);
        if !self.divided {
            put(ops, PaintOp::Divider);
            self.divided = true;
        }
        self.lane = Lane::Output;
        assert(paints(ops@) =~= paints(old(ops)@) + old(self).canvas().tag(TagKind::ThinkEnd).1);
    }

    fn ensure_banner(&mut self, ops: &mut Vec<PaintOp>)
        ensures
            final(self).canvas() == old(self).canvas().banner().0,
            paints(final(ops)@) == paints(old(ops)@) + old(self).canvas().banner().1,
            final(self).held() == old(self).held(),
    {
        if self.lane == Lane::Think && !self.bannered {
            put(ops, PaintOp::Banner);
            self.bannered = true;
        }
        assert(paints(ops@) =~= paints(old(ops)@) + old(self).canvas().banner().1);
    }

    fn emit_text(&mut self, text: &str, ops: &mut Vec<PaintOp>)
        ensures
            final(self).canvas() == old(self).canvas().text(text@).0,
            paints(final(ops)@) == paints(old(ops)@) + old(self).canvas().text(text@).1,
            final(self).held() == old(self).held(),
    {
        if text.is_empty() {
            assert(paints(ops@) =~= paints(old(ops)@) + old(self).canvas().text(text@).1);
            return;
        }
        match self.lane {
            Lane::Think => {
                self.ensure_banner(ops);
                put(ops, PaintOp::Think(text.to_owned()));
            },
            Lane::Output => {
                if !self.divided && self.bannered {
                    put(ops, PaintOp::Divider);
                    self.divided = true;
                }
                self.output_text.append(text);
                put(ops, PaintOp::Output(text.to_owned()));
            },
        }
        assert(paints(ops@) =~= paints(old(ops)@) + old(self).canvas().text(text@).1);
    }
}

/// A painting step, one character at a time. A character is given by its
/// scalar value.
pub enum Glyph {
    Banner,
    Think(int),
    Divider,
    Output(int),
    Reset,
}

/// Characters shown in the thinking lane.
pub open spec fn think_glyphs(s: Seq<char>) -> Seq<Glyph> {
    Seq::new(s.len(), |i: int| Glyph::Think(s[i] as int))
}

/// Characters shown in the output lane.
pub open spec fn output_glyphs(s: Seq<char>) -> Seq<Glyph> {
    Seq::new(s.len(), |i: int| Glyph::Output(s[i] as int))
}

/// One step, one character at a time.
pub open spec fn glyphs(op: Paint) -> Seq<Glyph> {
    match op {
        Paint::Banner => seq![Glyph::Banner],
        Paint::Think(s) => think_glyphs(s),
        Paint::Divider => seq![Glyph::Divider],
        Paint::Output(s) => output_glyphs(s),
        Paint::Reset => seq![Glyph::Reset],
    }
}

/// Steps, one character at a time: what the reader sees, however the text was
/// cut into steps.
pub open spec fn flat(ops: Seq<Paint>) -> Seq<Glyph>
    decreases ops.len(),
{
    if ops.len() == 0 {
        Seq::empty()
    } else {
        flat(ops.drop_last()) + glyphs(ops.last())
    }
}

proof fn lemma_flat_concat(a: Seq<Paint>, b: Seq<Paint>)
    ensures
        flat(a + b) == flat(a) + flat(b),
    decreases b.len(),
{
    if b.len() == 0 {
        assert(a + b =~= a);
        assert(flat(a) + flat(b) =~= flat(a));
    } else {
        lemma_flat_concat(a, b.drop_last());
        assert((a + b).drop_last() =~= a + b.drop_last());
        assert((a + b).last() == b.last());
        assert(flat(a + b) =~= flat(a) + flat(b));
    }
}

proof fn lemma_flat_few(a: Paint, b: Paint)
    ensures
        flat(Seq::empty()) == Seq::<Glyph>::empty(),
        flat(seq![a]) == glyphs(a),
        flat(seq![a, b]) == glyphs(a) + glyphs(b),
{
    assert(flat(Seq::<Paint>::empty()) == Seq::<Glyph>::empty());
    assert(seq![a].drop_last() =~= Seq::<Paint>::empty());
    assert(seq![a, b].drop_last() =~= seq![a]);
    assert(seq![a].last() == a);
    assert(seq![a, b].last() == b);
    assert(flat(seq![a]) =~= glyphs(a));
}

/// What painting leads to, one character at a time.
pub struct Glided {
    pub canvas: Canvas,
    pub seen: Seq<Glyph>,
    pub rest: Seq<char>,
}

/// Painting one character at a time: at each place a tag is followed, a start
/// of a tag waits for more, and any other character is shown.
pub open spec fn glided(canvas: Canvas, text: Seq<char>, flush: bool) -> Glided
    decreases text.len(),
{
    if text.len() == 0 {
        Glided { canvas, seen: Seq::empty(), rest: Seq::empty() }
    } else if any_tag_at(text, 0) {
        let k = which_tag(text, 0);
        if 0 < tag_text(k).len() <= text.len() {
            let (tagged, ops) = canvas.tag(tag_kind(k));
            let more = glided(tagged, text.skip(tag_text(k).len() as int), flush);
            Glided { seen: flat(ops) + more.seen, ..more }
        } else {
            Glided { canvas, seen: Seq::empty(), rest: text }
        }
    } else if !flush && is_partial(text) {
        Glided { canvas, seen: Seq::empty(), rest: text }
    } else {
        let (shown, ops) = canvas.text(text.take(1));
        let more = glided(shown, text.skip(1), flush);
        Glided { seen: flat(ops) + more.seen, ..more }
    }
}

/// Showing two stretches one after the other is showing them together.
proof fn lemma_text_splits(canvas: Canvas, a: Seq<char>, b: Seq<char>)
    ensures
        canvas.text(a + b).0 == canvas.text(a).0.text(b).0,
        flat(canvas.text(a + b).1) == flat(canvas.text(a).1) + flat(canvas.text(a).0.text(b).1),
{
    lemma_flat_few(Paint::Think(a), Paint::Think(b));
    lemma_flat_few(Paint::Think(a + b), Paint::Think(b));
    lemma_flat_few(Paint::Output(a), Paint::Output(b));
    lemma_flat_few(Paint::Output(a + b), Paint::Output(b));
    lemma_flat_few(Paint::Output(b), Paint::Output(b));
    lemma_flat_few(Paint::Think(b), Paint::Think(b));
    lemma_flat_few(Paint::Banner, Paint::Think(a));
    lemma_flat_few(Paint::Banner, Paint::Think(a + b));
    lemma_flat_few(Paint::Banner, Paint::Think(b));
    lemma_flat_few(Paint::Divider, Paint::Output(a));
    lemma_flat_few(Paint::Divider, Paint::Output(a + b));
    lemma_flat_few(Paint::Divider, Paint::Output(b));
    assert(think_glyphs(a + b) =~= think_glyphs(a) + think_glyphs(b));
    assert(output_glyphs(a + b) =~= output_glyphs(a) + output_glyphs(b));
    let none = Seq::<Paint>::empty();
    assert(none.push(Paint::Think(a)) =~= seq![Paint::Think(a)]);
    assert(none.push(Paint::Think(b)) =~= seq![Paint::Think(b)]);
    assert(none.push(Paint::Think(a + b)) =~= seq![Paint::Think(a + b)]);
    assert(seq![Paint::Banner].push(Paint::Think(a)) =~= seq![Paint::Banner, Paint::Think(a)]);
    assert(seq![Paint::Banner].push(Paint::Think(b)) =~= seq![Paint::Banner, Paint::Think(b)]);
    assert(seq![Paint::Banner].push(Paint::Think(a + b)) =~= seq![
        Paint::Banner,
        Paint::Think(a + b),
    ]);
    if a.len() == 0 {
        assert(a + b =~= b);
        assert(flat(canvas.text(a).1) + flat(canvas.text(b).1) =~= flat(canvas.text(b).1));
    } else if b.len() == 0 {
        assert(a + b =~= a);
        assert(flat(canvas.text(a).1) + flat(none) =~= flat(canvas.text(a).1));
    } else {
        assert(canvas.output + (a + b) =~= canvas.output + a + b);
        assert(flat(canvas.text(a + b).1) =~= flat(canvas.text(a).1) + flat(
            canvas.text(a).0.text(b).1,
        ));
    }
}

/// A text that may grow into a tag holds no tag itself.
proof fn lemma_partial_has_no_tag(text: Seq<char>)
    requires
        is_partial(text),
    ensures
        !has_tag(text),
{
    reveal_strlit("<|/thinking|>");
    reveal_strlit("</thinking>");
    reveal_strlit("<|thinking|>");
    reveal_strlit("<|output|>");
    reveal_strlit("<|system|>");
    reveal_strlit("<|user|>");
    let k = choose|k: int| begins_tag(text, k);
    let whole = tag_text(k);
    assert forall|at: int| !any_tag_at(text, at) by {
        if any_tag_at(text, at) {
            let j = choose|j: int| tag_at(text, j, at);
            let t = tag_text(j);
            let part = text.subrange(at, at + t.len());
            assert(part[0] == '<' && part[0] == text[at]);
            assert(part[1] == text[at + 1]);
            assert(part[2] == text[at + 2]);
            assert(whole.take(text.len() as int)[at] == text[at]);
            assert(whole.take(text.len() as int)[at + 1] == text[at + 1]);
            assert(whole.take(text.len() as int)[at + 2] == text[at + 2]);
            assert(whole[at] == '<');
            assert(at == 0);
            assert(k == j);
        }
    }
}

/// Painting by runs and painting by characters show the same.
proof fn lemma_runs_are_glides(canvas: Canvas, text: Seq<char>, flush: bool)
    ensures
        flat(painted(canvas, text, flush).ops) == glided(canvas, text, flush).seen,
        painted(canvas, text, flush).canvas == glided(canvas, text, flush).canvas,
        painted(canvas, text, flush).rest == glided(canvas, text, flush).rest,
    decreases text.len(),
{
    lemma_tags();
    lemma_flat_few(Paint::Banner, Paint::Banner);
    let none = Seq::<Paint>::empty();
    if text.len() == 0 {
    } else if any_tag_at(text, 0) {
        let k = which_tag(text, 0);
        assert(tag_at(text, k, 0));
        assert(first_tag_at(text, 0));
        lemma_painted_tag(canvas, text, flush, 0, k);
        let (c2, ops2) = canvas.tag(tag_kind(k));
        let after = text.skip(tag_text(k).len() as int);
        assert(text.take(0) =~= Seq::empty());
        let more = painted(c2, after, flush);
        lemma_runs_are_glides(c2, after, flush);
        assert(none + ops2 + more.ops =~= ops2 + more.ops);
        lemma_flat_concat(ops2, more.ops);
    } else if !flush && is_partial(text) {
        lemma_partial_has_no_tag(text);
        assert(text.skip(0) =~= text);
        assert(is_partial(text.skip(0)));
        assert(first_partial_at(text, 0));
        assert(has_partial(text));
        lemma_painted_end(canvas, text, flush, text.len() as int);
        assert(text.take(0) =~= Seq::empty());
    } else {
        lemma_show_first(canvas, text, flush);
        lemma_runs_are_glides(canvas.text(text.take(1)).0, text.skip(1), flush);
    }
}

/// A tag stands in a text where it stands in the text without its first
/// character, one place further on.
proof fn lemma_tag_shift(text: Seq<char>, k: int, at: int)
    requires
        text.len() > 0,
        0 <= at,
    ensures
        tag_at(text.skip(1), k, at) == tag_at(text, k, at + 1),
{
    let n = tag_text(k).len();
    if 0 <= k < 6 && at + n <= text.skip(1).len() {
        assert(text.skip(1).subrange(at, at + n) =~= text.subrange(at + 1, at + 1 + n));
    }
}

/// [`lemma_tag_shift`] for any tag.
proof fn lemma_any_tag_shift(text: Seq<char>, at: int)
    requires
        text.len() > 0,
        0 <= at,
    ensures
        any_tag_at(text.skip(1), at) == any_tag_at(text, at + 1),
{
    if any_tag_at(text.skip(1), at) {
        let k = choose|k: int| tag_at(text.skip(1), k, at);
        lemma_tag_shift(text, k, at);
    }
    let next = at + 1;
    if any_tag_at(text, next) {
        let k = choose|k: int| tag_at(text, k, next);
        lemma_tag_shift(text, k, at);
        assert(tag_at(text.skip(1), k, at));
    }
}

/// Painting by runs may show the first character by itself.
proof fn lemma_show_first(canvas: Canvas, text: Seq<char>, flush: bool)
    requires
        text.len() > 0,
        !any_tag_at(text, 0),
        flush || !is_partial(text),
    ensures
        ({
            let (shown, ops) = canvas.text(text.take(1));
            let more = painted(shown, text.skip(1), flush);
            &&& flat(painted(canvas, text, flush).ops) == flat(ops) + flat(more.ops)
            &&& painted(canvas, text, flush).canvas == more.canvas
            &&& painted(canvas, text, flush).rest == more.rest
        }),
{
    if has_tag(text) {
        lemma_show_first_before_tag(canvas, text, flush);
    } else {
        lemma_show_first_without_tag(canvas, text, flush);
    }
}

/// The leftmost tag of a text that does not start with one: where it stands
/// and which tag it is.
proof fn lemma_first_tag_of_tail(text: Seq<char>) -> (found: (int, int))
    requires
        text.len() > 0,
        !any_tag_at(text, 0),
        has_tag(text),
    ensures
        found.0 > 0,
        first_tag_at(text, found.0),
        tag_at(text, found.1, found.0),
        first_tag_at(text.skip(1), found.0 - 1),
        tag_at(text.skip(1), found.1, found.0 - 1),
{
    let tail = text.skip(1);
    let any = choose|at: int| any_tag_at(text, at);
    lemma_leftmost_tag(text, any);
    let at = choose|at: int| first_tag_at(text, at);
    let k = choose|k: int| tag_at(text, k, at);
    assert(tag_at(text, k, at));
    let before = at - 1;
    lemma_tag_shift(text, k, before);
    assert(any_tag_at(tail, before));
    assert forall|j: int| 0 <= j < before implies !any_tag_at(tail, j) by {
        lemma_any_tag_shift(text, j);
        let next = j + 1;
        assert(!any_tag_at(text, next));
    }
    (at, k)
}

/// Two rows of steps that differ in their first part only.
proof fn lemma_flat_front(a: Seq<Paint>, b: Seq<Paint>, c: Seq<Paint>, d: Seq<Paint>, e: Seq<Paint>)
    requires
        flat(a) == flat(d) + flat(e),
    ensures
        flat(a + b + c) == flat(d) + flat(e + b + c),
{
    lemma_flat_concat(a + b, c);
    lemma_flat_concat(a, b);
    lemma_flat_concat(e + b, c);
    lemma_flat_concat(e, b);
    assert(flat(a + b + c) =~= flat(d) + flat(e + b + c));
}

/// [`lemma_show_first`] for a text with a tag.
#[verifier::rlimit(40)]
#[verifier::spinoff_prover]
proof fn lemma_show_first_before_tag(canvas: Canvas, text: Seq<char>, flush: bool)
    requires
        text.len() > 0,
        !any_tag_at(text, 0),
        has_tag(text),
    ensures
        ({
            let (shown, ops) = canvas.text(text.take(1));
            let more = painted(shown, text.skip(1), flush);
            &&& flat(painted(canvas, text, flush).ops) == flat(ops) + flat(more.ops)
            &&& painted(canvas, text, flush).canvas == more.canvas
            &&& painted(canvas, text, flush).rest == more.rest
        }),
{
    let c = text.take(1);
    let tail = text.skip(1);
    let (shown, ops) = canvas.text(c);
    let (at, k) = lemma_first_tag_of_tail(text);
    let before = at - 1;
    let n = tag_text(k).len();
    lemma_painted_tag(canvas, text, flush, at, k);
    lemma_painted_tag(shown, tail, flush, before, k);
    assert(text.skip(at + n) =~= tail.skip(before + n));
    assert(text.take(at) =~= c + tail.take(before));
    lemma_text_splits(canvas, c, tail.take(before));
    let (c1, ops1) = canvas.text(text.take(at));
    let (c2, ops2) = c1.tag(tag_kind(k));
    let (d1, tail1) = shown.text(tail.take(before));
    let more = painted(c2, text.skip(at + n), flush).ops;
    lemma_flat_front(ops1, ops2, more, ops, tail1);
}

/// [`lemma_show_first`] for a text without a tag.
proof fn lemma_show_first_without_tag(canvas: Canvas, text: Seq<char>, flush: bool)
    requires
        text.len() > 0,
        !has_tag(text),
        flush || !is_partial(text),
    ensures
        ({
            let (shown, ops) = canvas.text(text.take(1));
            let more = painted(shown, text.skip(1), flush);
            &&& flat(painted(canvas, text, flush).ops) == flat(ops) + flat(more.ops)
            &&& painted(canvas, text, flush).canvas == more.canvas
            &&& painted(canvas, text, flush).rest == more.rest
        }),
{
    let c = text.take(1);
    let tail = text.skip(1);
    let (shown, ops) = canvas.text(c);
    assert forall|j: int| !any_tag_at(tail, j) by {
        if any_tag_at(tail, j) {
            let k = choose|k: int| tag_at(tail, k, j);
            assert(0 <= j);
            lemma_any_tag_shift(text, j);
        }
    }
    assert(!has_tag(tail));
    assert(text.skip(0) =~= text);
    if !flush && has_partial(text) {
        let any = choose|at: int| 0 <= at < text.len() && #[trigger] is_partial(text.skip(at));
        lemma_longest_partial(text, any);
        let at = choose|at: int| first_partial_at(text, at);
        assert(at > 0);
        let before = at - 1;
        assert(tail.skip(before) =~= text.skip(at));
        assert(is_partial(tail.skip(before)));
        assert forall|j: int| 0 <= j < before implies !#[trigger] is_partial(tail.skip(j)) by {
            assert(tail.skip(j) =~= text.skip(j + 1));
        }
        assert(first_partial_at(tail, before));
        lemma_painted_end(canvas, text, flush, text.len() - at);
        lemma_painted_end(shown, tail, flush, tail.len() - before);
        assert(text.take(at) =~= c + tail.take(before));
        lemma_text_splits(canvas, c, tail.take(before));
    } else {
        lemma_painted_end(canvas, text, flush, 0);
        assert(text.take(text.len() as int) =~= c + tail);
        assert(text.skip(text.len() as int) =~= Seq::empty());
        lemma_text_splits(canvas, c, tail);
        if tail.len() > 0 {
            if !flush && has_partial(tail) {
                let j = choose|j: int| 0 <= j < tail.len() && #[trigger] is_partial(tail.skip(j));
                assert(tail.skip(j) =~= text.skip(j + 1));
                assert(is_partial(text.skip(j + 1)));
            }
            lemma_painted_end(shown, tail, flush, 0);
            assert(tail.take(tail.len() as int) =~= tail);
            assert(tail.skip(tail.len() as int) =~= Seq::empty());
        } else {
            assert(tail =~= Seq::empty());
        }
    }
}

/// Gliding over `a` and then over what was held back and `b` is gliding over
/// `a + b`.
proof fn lemma_glides_join(canvas: Canvas, a: Seq<char>, b: Seq<char>, flush: bool)
    ensures
        ({
            let first = glided(canvas, a, false);
            let second = glided(first.canvas, first.rest + b, flush);
            let whole = glided(canvas, a + b, flush);
            &&& whole.canvas == second.canvas
            &&& whole.rest == second.rest
            &&& whole.seen == first.seen + second.seen
        }),
    decreases a.len(),
{
    lemma_tags();
    let first = glided(canvas, a, false);
    let second = glided(first.canvas, first.rest + b, flush);
    let whole = glided(canvas, a + b, flush);
    if a.len() == 0 {
        assert(a + b =~= first.rest + b);
        assert(first.seen + second.seen =~= second.seen);
    } else if any_tag_at(a, 0) {
        let k = which_tag(a, 0);
        assert(tag_at(a, k, 0));
        let n = tag_text(k).len();
        assert((a + b).subrange(0, n as int) =~= a.subrange(0, n as int));
        assert(tag_at(a + b, k, 0));
        lemma_one_tag(a + b, k, which_tag(a + b, 0), 0);
        let (tagged, ops) = canvas.tag(tag_kind(k));
        assert((a + b).skip(n as int) =~= a.skip(n as int) + b);
        lemma_glides_join(tagged, a.skip(n as int), b, flush);
        assert(whole.seen =~= first.seen + second.seen);
    } else if is_partial(a) {
        assert(first.seen + second.seen =~= second.seen);
    } else {
        assert(!any_tag_at(a + b, 0)) by {
            if any_tag_at(a + b, 0) {
                let k = choose|k: int| tag_at(a + b, k, 0);
                let n = tag_text(k).len();
                if n <= a.len() {
                    assert((a + b).subrange(0, n as int) =~= a.subrange(0, n as int));
                    assert(tag_at(a, k, 0));
                } else {
                    assert(tag_text(k).take(a.len() as int) =~= a) by {
                        assert((a + b).subrange(0, n as int).take(a.len() as int) =~= a);
                    }
                    assert(begins_tag(a, k));
                }
            }
        }
        assert(!is_partial(a + b)) by {
            if is_partial(a + b) {
                let k = choose|k: int| begins_tag(a + b, k);
                assert(tag_text(k).take(a.len() as int) =~= a) by {
                    assert(tag_text(k).take((a + b).len() as int).take(a.len() as int) =~= a);
                    assert(tag_text(k).take((a + b).len() as int).take(a.len() as int)
                        =~= tag_text(k).take(a.len() as int));
                }
                assert(begins_tag(a, k));
            }
        }
        assert((a + b).take(1) =~= a.take(1));
        assert((a + b).skip(1) =~= a.skip(1) + b);
        let shown = canvas.text(a.take(1)).0;
        lemma_glides_join(shown, a.skip(1), b, flush);
        assert(whole.seen =~= first.seen + second.seen);
    }
}

/// A stream may be cut into pieces anywhere, also inside a tag: painting `a`
/// and then `b` shows, character by character, what painting `a + b` shows,
/// and leaves the same canvas and the same characters held back.
pub proof fn law_pieces_may_be_cut_anywhere(
    canvas: Canvas,
    a: Seq<char>,
    b: Seq<char>,
    flush: bool,
)
    ensures
        ({
            let first = painted(canvas, a, false);
            let second = painted(first.canvas, first.rest + b, flush);
            let whole = painted(canvas, a + b, flush);
            &&& whole.canvas == second.canvas
            &&& whole.rest == second.rest
            &&& flat(whole.ops) == flat(first.ops) + flat(second.ops)
        }),
{
    let first = painted(canvas, a, false);
    lemma_runs_are_glides(canvas, a, false);
    lemma_runs_are_glides(first.canvas, first.rest + b, flush);
    lemma_runs_are_glides(canvas, a + b, flush);
    lemma_glides_join(canvas, a, b, flush);
}

/// The scalar values of a text.
pub open spec fn scalars(text: Seq<char>) -> Seq<int> {
    Seq::new(text.len(), |i: int| text[i] as int)
}

/// The characters that a reader sees in the output lane.
pub open spec fn output_of(seen: Seq<Glyph>) -> Seq<int>
    decreases seen.len(),
{
    if seen.len() == 0 {
        Seq::empty()
    } else {
        match seen.last() {
            Glyph::Output(c) => output_of(seen.drop_last()).push(c),
            _ => output_of(seen.drop_last()),
        }
    }
}

/// How many dividers a reader sees.
pub open spec fn dividers(seen: Seq<Glyph>) -> nat
    decreases seen.len(),
{
    if seen.len() == 0 {
        0
    } else {
        dividers(seen.drop_last()) + if seen.last() == Glyph::Divider {
            1nat
        } else {
            0nat
        }
    }
}

/// How many thinking banners a reader sees.
pub open spec fn banners(seen: Seq<Glyph>) -> nat
    decreases seen.len(),
{
    if seen.len() == 0 {
        0
    } else {
        banners(seen.drop_last()) + if seen.last() == Glyph::Banner {
            1nat
        } else {
            0nat
        }
    }
}

proof fn lemma_sums_concat(a: Seq<Glyph>, b: Seq<Glyph>)
    ensures
        output_of(a + b) == output_of(a) + output_of(b),
        dividers(a + b) == dividers(a) + dividers(b),
        banners(a + b) == banners(a) + banners(b),
    decreases b.len(),
{
    if b.len() == 0 {
        assert(a + b =~= a);
        assert(output_of(a) + output_of(b) =~= output_of(a));
    } else {
        lemma_sums_concat(a, b.drop_last());
        assert((a + b).drop_last() =~= a + b.drop_last());
        assert((a + b).last() == b.last());
        assert(output_of(a + b) =~= output_of(a) + output_of(b));
    }
}

/// One unit for a flag that is set.
pub open spec fn unit(flag: bool) -> nat {
    if flag {
        1
    } else {
        0
    }
}

/// `after` is what `before` becomes when `seen` is shown.
spec fn accounted(before: Canvas, after: Canvas, seen: Seq<Glyph>) -> bool {
    &&& scalars(after.output) == scalars(before.output) + output_of(seen)
    &&& unit(after.divided) == unit(before.divided) + dividers(seen)
    &&& unit(after.bannered) == unit(before.bannered) + banners(seen)
}

proof fn lemma_one_char_accounted(canvas: Canvas, c: Seq<char>)
    requires
        c.len() == 1,
    ensures
        accounted(canvas, canvas.text(c).0, flat(canvas.text(c).1)),
{
    let ch = c[0] as int;
    lemma_flat_few(Paint::Think(c), Paint::Think(c));
    lemma_flat_few(Paint::Output(c), Paint::Output(c));
    lemma_flat_few(Paint::Banner, Paint::Think(c));
    lemma_flat_few(Paint::Divider, Paint::Output(c));
    let none = Seq::<Paint>::empty();
    assert(none.push(Paint::Think(c)) =~= seq![Paint::Think(c)]);
    assert(seq![Paint::Banner].push(Paint::Think(c)) =~= seq![Paint::Banner, Paint::Think(c)]);
    assert(think_glyphs(c) =~= seq![Glyph::Think(ch)]);
    assert(output_glyphs(c) =~= seq![Glyph::Output(ch)]);
    lemma_few_accounted(Glyph::Think(ch));
    lemma_few_accounted(Glyph::Output(ch));
    lemma_few_accounted(Glyph::Banner);
    lemma_few_accounted(Glyph::Divider);
    lemma_sums_concat(seq![Glyph::Banner], seq![Glyph::Think(ch)]);
    lemma_sums_concat(seq![Glyph::Divider], seq![Glyph::Output(ch)]);
    assert(scalars(canvas.output + c) =~= scalars(canvas.output) + seq![ch]);
    assert(scalars(canvas.output) + Seq::<int>::empty() =~= scalars(canvas.output));
    assert(Seq::<int>::empty() + seq![ch] =~= seq![ch]);
}

proof fn lemma_few_accounted(g: Glyph)
    ensures
        output_of(seq![g]) == (match g {
            Glyph::Output(c) => seq![c],
            _ => Seq::empty(),
        }),
        dividers(seq![g]) == unit(g == Glyph::Divider),
        banners(seq![g]) == unit(g == Glyph::Banner),
{
    let none = Seq::<Glyph>::empty();
    assert(output_of(none) == Seq::<int>::empty());
    assert(dividers(none) == 0 && banners(none) == 0);
    assert(seq![g].drop_last() =~= none);
    assert(seq![g].last() == g);
    assert(output_of(seq![g]) =~= (match g {
        Glyph::Output(c) => seq![c],
        _ => Seq::empty(),
    }));
}

proof fn lemma_tag_accounted(canvas: Canvas, kind: TagKind)
    ensures
        accounted(canvas, canvas.tag(kind).0, flat(canvas.tag(kind).1)),
{
    lemma_flat_few(Paint::Banner, Paint::Divider);
    lemma_flat_few(Paint::Divider, Paint::Divider);
    let none = Seq::<Paint>::empty();
    assert(none.push(Paint::Divider) =~= seq![Paint::Divider]);
    assert(seq![Paint::Banner].push(Paint::Divider) =~= seq![Paint::Banner, Paint::Divider]);
    lemma_few_accounted(Glyph::Banner);
    lemma_few_accounted(Glyph::Divider);
    lemma_sums_concat(seq![Glyph::Banner], seq![Glyph::Divider]);
    assert(scalars(canvas.output) + Seq::<int>::empty() =~= scalars(canvas.output));
    assert(Seq::<int>::empty() + Seq::<int>::empty() =~= Seq::<int>::empty());
}

proof fn lemma_glide_accounted(canvas: Canvas, text: Seq<char>, flush: bool)
    ensures
        accounted(canvas, glided(canvas, text, flush).canvas, glided(canvas, text, flush).seen),
    decreases text.len(),
{
    let end = glided(canvas, text, flush);
    assert(scalars(canvas.output) + Seq::<int>::empty() =~= scalars(canvas.output));
    if text.len() == 0 {
    } else if any_tag_at(text, 0) {
        lemma_tags();
        let k = which_tag(text, 0);
        let (tagged, ops) = canvas.tag(tag_kind(k));
        let after = text.skip(tag_text(k).len() as int);
        lemma_tag_accounted(canvas, tag_kind(k));
        lemma_glide_accounted(tagged, after, flush);
        let more = glided(tagged, after, flush).seen;
        lemma_sums_concat(flat(ops), more);
        assert(scalars(canvas.output) + output_of(flat(ops)) + output_of(more) =~= scalars(
            canvas.output,
        ) + (
        output_of(flat(ops)) + output_of(more)));
    } else if !flush && is_partial(text) {
    } else {
        let (shown, ops) = canvas.text(text.take(1));
        lemma_one_char_accounted(canvas, text.take(1));
        lemma_glide_accounted(shown, text.skip(1), flush);
        let more = glided(shown, text.skip(1), flush).seen;
        lemma_sums_concat(flat(ops), more);
        assert(scalars(canvas.output) + output_of(flat(ops)) + output_of(more) =~= scalars(
            canvas.output,
        ) + (
        output_of(flat(ops)) + output_of(more)));
    }
}

/// Thinking never enters the output: the kept output grows by exactly the
/// characters that were shown in the output lane.
pub proof fn law_output_is_what_the_output_lane_showed(
    canvas: Canvas,
    text: Seq<char>,
    flush: bool,
)
    ensures
        scalars(painted(canvas, text, flush).canvas.output) == scalars(canvas.output) + output_of(
            flat(painted(canvas, text, flush).ops),
        ),
{
    lemma_runs_are_glides(canvas, text, flush);
    lemma_glide_accounted(canvas, text, flush);
}

/// The banner and the divider are each shown at most once, and never again
/// once they were shown.
pub proof fn law_banner_and_divider_come_once(canvas: Canvas, text: Seq<char>, flush: bool)
    ensures
        ({
            let end = painted(canvas, text, flush);
            &&& unit(canvas.divided) + dividers(flat(end.ops)) == unit(end.canvas.divided)
            &&& unit(canvas.bannered) + banners(flat(end.ops)) == unit(end.canvas.bannered)
        }),
{
    lemma_runs_are_glides(canvas, text, flush);
    lemma_glide_accounted(canvas, text, flush);
}

/// A finished stream holds nothing back.
pub proof fn law_finish_shows_everything(canvas: Canvas, text: Seq<char>)
    ensures
        painted(canvas, text, true).rest == Seq::<char>::empty(),
    decreases text.len(),
{
    lemma_runs_are_glides(canvas, text, true);
    lemma_glide_flushes(canvas, text);
}

proof fn lemma_glide_flushes(canvas: Canvas, text: Seq<char>)
    ensures
        glided(canvas, text, true).rest == Seq::<char>::empty(),
    decreases text.len(),
{
    lemma_tags();
    if text.len() == 0 {
    } else if any_tag_at(text, 0) {
        let k = which_tag(text, 0);
        assert(tag_at(text, k, 0));
        let (tagged, ops) = canvas.tag(tag_kind(k));
        lemma_glide_flushes(tagged, text.skip(tag_text(k).len() as int));
    } else {
        lemma_glide_flushes(canvas.text(text.take(1)).0, text.skip(1));
    }
}

/// Ends a colour.
pub const ANSI_RESET: &'static str = "\x1b[0m";

/// Dim and italic, for thoughts.
pub const ANSI_THINK: &'static str = "\x1b[2;3m";

/// Bold green, for the answer.
pub const ANSI_OUTPUT: &'static str = "\x1b[1;32m";

/// Stands over the thoughts.
pub const THINK_BANNER: &'static str = "[Ullis is thinking...]";

/// Stands between the thoughts and the answer.
pub const DIVIDER: &'static str = "└──";

/// Ends a line.
pub const NEWLINE: &'static str = "\n";

/// What a painting step writes to the terminal.
pub open spec fn op_text(op: Paint, color: bool) -> Seq<char> {
    match op {
        Paint::Banner => if color {
            ANSI_THINK@ + THINK_BANNER@ + NEWLINE@
        } else {
            THINK_BANNER@ + NEWLINE@
        },
        Paint::Think(s) => s,
        Paint::Output(s) => s,
        Paint::Divider => if color {
            ANSI_RESET@ + NEWLINE@ + DIVIDER@ + NEWLINE@ + ANSI_OUTPUT@
        } else {
            NEWLINE@ + DIVIDER@ + NEWLINE@
        },
        Paint::Reset => if color {
            ANSI_RESET@
        } else {
            Seq::empty()
        },
    }
}

/// What painting steps write to the terminal.
pub open spec fn ops_text(ops: Seq<Paint>, color: bool) -> Seq<char>
    decreases ops.len(),
{
    if ops.len() == 0 {
        Seq::empty()
    } else {
        ops_text(ops.drop_last(), color) + op_text(ops.last(), color)
    }
}

/// What is written before the first token of a turn: an answer without
/// thoughts starts in the colour of answers, as no divider will switch to it.
pub fn turn_opening(color: bool, think_budget: usize) -> (text: &'static str)
    ensures
        text@ == (if color && think_budget == 0 {
            ANSI_OUTPUT@
        } else {
            ""@
        }),
{
    if color && think_budget == 0 {
        ANSI_OUTPUT
    } else {
        ""
    }
}

/// What painting steps write to the terminal, with or without color.
pub fn emit_ops(color: bool, ops: &Vec<PaintOp>) -> (out: String)
    ensures
        out@ == ops_text(paints(ops@), color),
{
    let mut out = String::new();
    let mut i: usize = 0;
    assert(paints(ops@).take(0) =~= Seq::empty());
    while i < ops.len()
        invariant
            i <= ops@.len(),
            out@ == ops_text(paints(ops@).take(i as int), color),
        decreases ops@.len() - i,
    {
        let ghost before = out@;
        let ghost all = paints(ops@);
        assert(all.take(i + 1).drop_last() =~= all.take(i as int));
        assert(all.take(i + 1).last() == ops@[i as int]@);
        match &ops[i] {
            PaintOp::Banner => {
                if color {
                    out.append(ANSI_THINK);
                }
                out.append(THINK_BANNER);
                out.append(NEWLINE);
            },
            PaintOp::Think(s) => {
                out.append(s.as_str());
            },
            PaintOp::Output(s) => {
                out.append(s.as_str());
            },
            PaintOp::Divider => {
                if color {
                    out.append(ANSI_RESET);
                }
                out.append(NEWLINE);
                out.append(DIVIDER);
                out.append(NEWLINE);
                if color {
                    out.append(ANSI_OUTPUT);
                }
            },
            PaintOp::Reset => {
                if color {
                    out.append(ANSI_RESET);
                }
            },
        }
        assert(out@ =~= before + op_text(ops@[i as int]@, color));
        i += 1;
    }
    assert(paints(ops@).take(ops@.len() as int) =~= paints(ops@));
    out
}

/// Keeps the last `seq_len` ids.
pub fn trim_ctx(ctx: &mut Vec<u32>, seq_len: usize)
    ensures
        final(ctx)@ == if old(ctx)@.len() > seq_len {
            old(ctx)@.skip(old(ctx)@.len() - seq_len)
        } else {
            old(ctx)@
        },
{
    let n: usize = ctx.len();
    if n > seq_len {
        let kept = ctx.split_off(n - seq_len);
        *ctx = kept;
        assert(ctx@ =~= old(ctx)@.skip(n - seq_len));
    }
}

/// The thinking part of a turn is over: the sequence ended, or the thoughts
/// hold a closing tag.
pub open spec fn thoughts_end(token: u32, eos: u32, thoughts: Seq<char>) -> bool {
    token == eos || crate::text::has_text(thoughts, TAG_THINK_END@) || crate::text::has_text(
        thoughts,
        TAG_THINK_CLOSE@,
    )
}

/// Whether the thinking part of a turn is over after `token`.
pub fn thinking_stops(token: u32, eos: u32, thoughts: &str) -> (stop: bool)
    ensures
        stop == thoughts_end(token, eos, thoughts@),
{
    token == eos || find_text(thoughts, TAG_THINK_END).is_some() || find_text(
        thoughts,
        TAG_THINK_CLOSE,
    ).is_some()
}

/// The output part of a turn is over: the sequence ended, or more than four
/// tokens closed with an empty line.
pub open spec fn output_ends(token: u32, eos: u32, output: Seq<char>, emitted: int) -> bool {
    token == eos || (crate::text::ends_with(output, "\n\n"@) && emitted > 4)
}

/// Whether the output part of a turn is over after `token`, the
/// `emitted`-th of that part.
pub fn output_stops(token: u32, eos: u32, output: &str, emitted: usize) -> (stop: bool)
    ensures
        stop == output_ends(token, eos, output@, emitted as int),
{
    token == eos || (emitted > 4 && has_suffix(output, "\n\n"))
}

impl PaintScan {
    /// Leaves the thinking lane, when the stream is still in it.
    pub fn leave_thinking(&mut self) -> (ops: Vec<PaintOp>)
        ensures
            old(self).canvas().lane == Lane::Think ==> ({
                let goal = painted(old(self).canvas(), old(self).held() + TAG_THINK_END@, false);
                &&& paints(ops@) == goal.ops
                &&& final(self).canvas() == goal.canvas
                &&& final(self).held() == goal.rest
            }),
            old(self).canvas().lane == Lane::Output ==> {
                &&& ops@.len() == 0
                &&& final(self).canvas() == old(self).canvas()
                &&& final(self).held() == old(self).held()
            },
    {
        if self.lane == Lane::Think {
            self.feed(TAG_THINK_END)
        } else {
            Vec::new()
        }
    }
}

/// The texts whose tokens go into the context between thinking and output: the
/// closing tag, unless the thoughts hold it, and the output tag.
pub fn bridge_texts(thoughts: &str) -> (texts: Vec<String>)
    ensures
        crate::text::has_text(thoughts@, TAG_THINK_END@) ==> texts@.len() == 1 && texts@[0]@
            == TAG_OUTPUT@ + "\n"@,
        !crate::text::has_text(thoughts@, TAG_THINK_END@) ==> texts@.len() == 2 && texts@[0]@
            == TAG_THINK_END@ + "\n"@ && texts@[1]@ == TAG_OUTPUT@ + "\n"@,
{
    let mut texts: Vec<String> = Vec::new();
    if find_text(thoughts, TAG_THINK_END).is_none() {
        texts.push(TAG_THINK_END.to_owned().concat("\n"));
    }
    texts.push(TAG_OUTPUT.to_owned().concat("\n"));
    texts
}

/// How much thinking a turn may do.
#[derive(Clone, Copy, Debug, PartialEq, Eq, Structural)]
pub enum ThinkingMode {
    Low,
    Medium,
    High,
    XHigh,
}

impl ThinkingMode {
    /// The name used on the command line.
    pub open spec fn name(self) -> Seq<char> {
        match self {
            ThinkingMode::Low => "low"@,
            ThinkingMode::Medium => "medium"@,
            ThinkingMode::High => "high"@,
            ThinkingMode::XHigh => "xhigh"@,
        }
    }

    /// The name used on the command line.
    pub fn as_str(self) -> (name: &'static str)
        ensures
            name@ == self.name(),
    {
        match self {
            ThinkingMode::Low => "low",
            ThinkingMode::Medium => "medium",
            ThinkingMode::High => "high",
            ThinkingMode::XHigh => "xhigh",
        }
    }

    /// The mode of that name.
    pub fn from_name(name: &str) -> (mode: Option<ThinkingMode>)
        ensures
            mode matches Some(m) ==> m.name() == name@,
            mode is None ==> forall|m: ThinkingMode| #[trigger] m.name() != name@,
    {
        if same_text(name, "low") {
            Some(ThinkingMode::Low)
        } else if same_text(name, "medium") {
            Some(ThinkingMode::Medium)
        } else if same_text(name, "high") {
            Some(ThinkingMode::High)
        } else if same_text(name, "xhigh") {
            Some(ThinkingMode::XHigh)
        } else {
            None
        }
    }
}

/// What a line typed at the prompt asks for.
#[derive(Debug)]
pub enum Command {
    Nothing,
    Exit,
    Help,
    Clear,
    Stats,
    Thinking(String),
    System(String),
    Temperature(String),
    MaxNew(String),
    Prompt(String),
}

/// A command by its characters.
pub enum Asked {
    Nothing,
    Exit,
    Help,
    Clear,
    Stats,
    Thinking(Seq<char>),
    System(Seq<char>),
    Temperature(Seq<char>),
    MaxNew(Seq<char>),
    Prompt(Seq<char>),
}

impl View for Command {
    type V = Asked;

    open spec fn view(&self) -> Asked {
        match *self {
            Command::Nothing => Asked::Nothing,
            Command::Exit => Asked::Exit,
            Command::Help => Asked::Help,
            Command::Clear => Asked::Clear,
            Command::Stats => Asked::Stats,
            Command::Thinking(s) => Asked::Thinking(s@),
            Command::System(s) => Asked::System(s@),
            Command::Temperature(s) => Asked::Temperature(s@),
            Command::MaxNew(s) => Asked::MaxNew(s@),
            Command::Prompt(s) => Asked::Prompt(s@),
        }
    }
}

/// `raw` without the line ends at its end.
pub open spec fn without_newlines(raw: Seq<char>) -> Seq<char>
    decreases raw.len(),
{
    if raw.len() > 0 && raw.last() == '\n' {
        without_newlines(raw.drop_last())
    } else {
        raw
    }
}

/// What follows `word` in `line`, without white space around it.
pub open spec fn argument(line: Seq<char>, word: Seq<char>) -> Seq<char> {
    crate::text::trimmed(line.skip(word.len() as int))
}

/// What a line typed at the prompt asks for.
pub open spec fn asked(raw: Seq<char>) -> Asked {
    let line = crate::text::trimmed(raw);
    if line.len() == 0 {
        Asked::Nothing
    } else if line == "/exit"@ || line == "/quit"@ || line == "/q"@ {
        Asked::Exit
    } else if line == "/help"@ || line == "/?"@ {
        Asked::Help
    } else if line == "/clear"@ {
        Asked::Clear
    } else if line == "/stats"@ {
        Asked::Stats
    } else if crate::text::occurs_at(line, "/thinking"@, 0) {
        Asked::Thinking(argument(line, "/thinking"@))
    } else if crate::text::occurs_at(line, "/system"@, 0) {
        Asked::System(argument(line, "/system"@))
    } else if crate::text::occurs_at(line, "/temp"@, 0) {
        Asked::Temperature(argument(line, "/temp"@))
    } else if crate::text::occurs_at(line, "/max"@, 0) {
        Asked::MaxNew(argument(line, "/max"@))
    } else {
        Asked::Prompt(without_newlines(raw))
    }
}

fn strip_newlines(raw: &str) -> (line: &str)
    ensures
        line@ == without_newlines(raw@),
{
    let t = chars_of(raw);
    let mut end: usize = t.len();
    assert(t@.take(t@.len() as int) =~= t@);
    while end > 0 && t[end - 1] == '\n'
        invariant
            end <= t@.len(),
            without_newlines(t@) == without_newlines(t@.take(end as int)),
        decreases end,
    {
        assert(t@.take(end as int).drop_last() =~= t@.take(end - 1));
        end -= 1;
    }
    let line = raw.substring_char(0, end);
    assert(line@ =~= t@.take(end as int));
    line
}

/// What a line typed at the prompt asks for.
pub fn read_command(raw: &str) -> (command: Command)
    ensures
        command@ == asked(raw@),
{
    let line = trim(raw);
    if line.is_empty() {
        return Command::Nothing;
    }
    if same_text(line, "/exit") || same_text(line, "/quit") || same_text(line, "/q") {
        return Command::Exit;
    }
    if same_text(line, "/help") || same_text(line, "/?") {
        return Command::Help;
    }
    if same_text(line, "/clear") {
        return Command::Clear;
    }
    if same_text(line, "/stats") {
        return Command::Stats;
    }
    if let Some(rest) = strip_prefix(line, "/thinking") {
        return Command::Thinking(trim(rest).to_owned());
    }
    if let Some(rest) = strip_prefix(line, "/system") {
        return Command::System(trim(rest).to_owned());
    }
    if let Some(rest) = strip_prefix(line, "/temp") {
        return Command::Temperature(trim(rest).to_owned());
    }
    if let Some(rest) = strip_prefix(line, "/max") {
        return Command::MaxNew(trim(rest).to_owned());
    }
    Command::Prompt(strip_newlines(raw).to_owned())
}

/// What becomes of a setting that a command names.
#[derive(Debug)]
pub enum Setting<T> {
    Show,
    Change(T),
    Usage,
}

/// The token limit that `argument` asks for: at least one.
pub fn max_new_setting(argument: &str) -> (setting: Setting<usize>)
    ensures
        setting == ({
            let digits = crate::text::number_digits(argument@);
            let value = crate::text::digits_value(digits);
            if argument@.len() == 0 {
                Setting::Show
            } else if !crate::text::is_number(argument@) || value > usize::MAX {
                Setting::Usage
            } else if value == 0 {
                Setting::Change(1usize)
            } else {
                Setting::Change(value as usize)
            }
        }),
{
    if argument.is_empty() {
        return Setting::Show;
    }
    match parse_number(argument) {
        Some(n) => if n == 0 {
            Setting::Change(1)
        } else {
            Setting::Change(n)
        },
        None => Setting::Usage,
    }
}

/// The thinking mode that `argument` asks for.
pub fn thinking_setting(argument: &str) -> (setting: Setting<ThinkingMode>)
    ensures
        argument@.len() == 0 ==> setting == Setting::<ThinkingMode>::Show,
        argument@.len() > 0 ==> match setting {
            Setting::Change(m) => m.name() == argument@,
            Setting::Usage => forall|m: ThinkingMode| #[trigger] m.name() != argument@,
            Setting::Show => false,
        },
{
    if argument.is_empty() {
        return Setting::Show;
    }
    match ThinkingMode::from_name(argument) {
        Some(m) => Setting::Change(m),
        None => Setting::Usage,
    }
}

/// Text without tags is shown as it is, all of it and in the lane that the
/// stream is in: as a thought, under a banner, or as output, and the output that
/// is kept grows by it.
pub proof fn law_plain_text_is_shown_as_it_is(canvas: Canvas, text: Seq<char>)
    requires
        text.len() > 0,
        forall|at: int, k: int| !#[trigger] tag_at(text, k, at),
    ensures
        ({
            let end = painted(canvas, text, true);
            &&& end.canvas.lane == canvas.lane
            &&& end.rest.len() == 0
            &&& end.ops.last() == (if canvas.lane == Lane::Think {
                Paint::Think(text)
            } else {
                Paint::Output(text)
            })
            &&& forall|i: int|
                0 <= i < end.ops.len() - 1 ==> !(#[trigger] end.ops[i] is Think)
                    && !(end.ops[i] is Output)
            &&& canvas.lane == Lane::Think ==> end.canvas.bannered && end.canvas.output
                == canvas.output
            &&& canvas.lane == Lane::Output ==> end.canvas.output == canvas.output + text
                && end.canvas.divided == (canvas.divided || canvas.bannered)
        }),
{
    assert(!has_tag(text)) by {
        if has_tag(text) {
            let at = choose|at: int| any_tag_at(text, at);
            let k = choose|k: int| tag_at(text, k, at);
            assert(!tag_at(text, k, at));
        }
    }
}

/// A tag is never shown, and none of it is held back or kept as output: all that
/// it can bring is the banner and the divider.
pub proof fn law_tags_are_never_shown(canvas: Canvas, k: int, flush: bool, i: int)
    requires
        0 <= k < 6,
        0 <= i,
    ensures
        ({
            let end = painted(canvas, tag_text(k), flush);
            &&& end.rest.len() == 0
            &&& end.canvas.output == canvas.output
            &&& i < end.ops.len() ==> end.ops[i] == Paint::Banner || end.ops[i] == Paint::Divider
        }),
{
    lemma_one_tag_painted(canvas, k, flush);
}

/// The tags that close the thoughts, and the output tag,
/// lead from the thoughts to the output, with a divider; the thinking tag leads
/// back; the others lead nowhere.
pub proof fn law_tags_lead_from_lane_to_lane(canvas: Canvas, flush: bool)
    ensures
        painted(canvas, TAG_THINK_END@, flush).canvas.lane == Lane::Output,
        painted(canvas, TAG_THINK_CLOSE@, flush).canvas.lane == Lane::Output,
        painted(canvas, TAG_OUTPUT@, flush).canvas.lane == Lane::Output,
        painted(canvas, TAG_THINKING@, flush).canvas.lane == Lane::Think,
        painted(canvas, TAG_SYSTEM@, flush).canvas == canvas,
        painted(canvas, TAG_USER@, flush).canvas == canvas,
        canvas.lane == Lane::Think ==> {
            let end = painted(canvas, TAG_THINK_END@, flush);
            &&& end.canvas.divided
            &&& end.canvas.bannered
            &&& painted(canvas, TAG_THINK_CLOSE@, flush) == end
            &&& painted(canvas, TAG_OUTPUT@, flush) == end
        },
        canvas.lane == Lane::Output ==> painted(canvas, TAG_THINK_END@, flush).canvas == canvas,
{
    lemma_one_tag_painted(canvas, 0, flush);
    lemma_one_tag_painted(canvas, 1, flush);
    lemma_one_tag_painted(canvas, 2, flush);
    lemma_one_tag_painted(canvas, 3, flush);
    lemma_one_tag_painted(canvas, 4, flush);
    lemma_one_tag_painted(canvas, 5, flush);
}

proof fn lemma_one_tag_painted(canvas: Canvas, k: int, flush: bool)
    requires
        0 <= k < 6,
    ensures
        painted(canvas, tag_text(k), flush) == (Painted {
            canvas: canvas.tag(tag_kind(k)).0,
            ops: canvas.tag(tag_kind(k)).1,
            rest: Seq::empty(),
        }),
{
    lemma_tags();
    let text = tag_text(k);
    assert(text.subrange(0, text.len() as int) =~= text);
    assert(tag_at(text, k, 0));
    assert(any_tag_at(text, 0));
    assert(first_tag_at(text, 0));
    let at = choose|at: int| first_tag_at(text, at);
    assert(first_tag_at(text, at));
    let j = choose|j: int| tag_at(text, j, at);
    assert(at >= 0);
    assert(at == 0);
    let which = which_tag(text, 0);
    assert(tag_at(text, which, 0));
    lemma_one_tag(text, which, k, 0);
    let none = Seq::<Paint>::empty();
    let shown = canvas.text(text.take(0));
    assert(shown.0 == canvas && shown.1 == none);
    let (tagged, ops) = canvas.tag(tag_kind(k));
    let rest = text.skip(text.len() as int);
    let more = painted(tagged, rest, flush);
    assert(rest.len() == 0);
    assert(more == (Painted { canvas: tagged, ops: none, rest: Seq::empty() }));
    assert(none + ops + none =~= ops);
    assert(painted(canvas, text, flush) == (Painted { ops: none + ops + more.ops, ..more }));
}

/// Steps are written one after the other, and a text is written as it is, with
/// or without colour.
pub proof fn law_steps_are_written_in_order(
    a: Seq<Paint>,
    b: Seq<Paint>,
    text: Seq<char>,
    color: bool,
)
    ensures
        ops_text(a + b, color) == ops_text(a, color) + ops_text(b, color),
        ops_text(seq![Paint::Think(text)], color) == text,
        ops_text(seq![Paint::Output(text)], color) == text,
        ops_text(seq![Paint::Reset], false) == Seq::<char>::empty(),
    decreases b.len(),
{
    reveal_with_fuel(ops_text, 3);
    assert(seq![Paint::Think(text)].drop_last() =~= Seq::empty());
    assert(seq![Paint::Output(text)].drop_last() =~= Seq::empty());
    assert(seq![Paint::Reset].drop_last() =~= Seq::<Paint>::empty());
    assert(Seq::<char>::empty() + text =~= text);
    assert(Seq::<char>::empty() + Seq::<char>::empty() =~= Seq::<char>::empty());
    if b.len() == 0 {
        assert(a + b =~= a);
        assert(ops_text(a, color) + ops_text(b, color) =~= ops_text(a, color));
    } else {
        law_steps_are_written_in_order(a, b.drop_last(), text, color);
        assert((a + b).drop_last() =~= a + b.drop_last());
        assert((a + b).last() == b.last());
        assert(ops_text(a + b, color) =~= ops_text(a, color) + ops_text(b, color));
    }
}

/// Of a line that was typed only the line ends at its end are taken away, and
/// all of them.
pub proof fn law_only_line_ends_are_taken_away(raw: Seq<char>)
    ensures
        without_newlines(raw).len() <= raw.len(),
        without_newlines(raw) == raw.take(without_newlines(raw).len() as int),
        forall|i: int|
            without_newlines(raw).len() <= i < raw.len() ==> #[trigger] raw[i] == '\n',
        without_newlines(raw).len() > 0 ==> without_newlines(raw).last() != '\n',
    decreases raw.len(),
{
    if raw.len() > 0 && raw.last() == '\n' {
        let front = raw.drop_last();
        law_only_line_ends_are_taken_away(front);
        let n = without_newlines(front).len() as int;
        assert(front.take(n) =~= raw.take(n));
        assert forall|i: int| n <= i < raw.len() implies #[trigger] raw[i] == '\n' by {
            if i < front.len() {
                assert(front[i] == raw[i]);
            }
        }
    } else {
        assert(raw.take(raw.len() as int) =~= raw);
    }
}

/// A line that says something and does not start with a slash is a prompt, and
/// is handed on as it was typed, but for the line ends at its end; a blank line
/// asks for nothing.
pub proof fn law_a_line_without_a_slash_is_a_prompt(raw: Seq<char>)
    ensures
        crate::text::trimmed(raw).len() == 0 ==> asked(raw) == Asked::Nothing,
        crate::text::trimmed(raw).len() > 0 && crate::text::trimmed(raw)[0] != '/' ==> asked(raw)
            == Asked::Prompt(without_newlines(raw)),
{
    let line = crate::text::trimmed(raw);
    reveal_strlit("/exit");
    reveal_strlit("/quit");
    reveal_strlit("/q");
    reveal_strlit("/help");
    reveal_strlit("/?");
    reveal_strlit("/clear");
    reveal_strlit("/stats");
    reveal_strlit("/thinking");
    reveal_strlit("/system");
    reveal_strlit("/temp");
    reveal_strlit("/max");
    if line.len() > 0 && line[0] != '/' {
        assert(!crate::text::occurs_at(line, "/thinking"@, 0)) by {
            if crate::text::occurs_at(line, "/thinking"@, 0) {
                assert(line.subrange(0, "/thinking"@.len() as int)[0] == line[0]);
            }
        }
        assert(!crate::text::occurs_at(line, "/system"@, 0)) by {
            if crate::text::occurs_at(line, "/system"@, 0) {
                assert(line.subrange(0, "/system"@.len() as int)[0] == line[0]);
            }
        }
        assert(!crate::text::occurs_at(line, "/temp"@, 0)) by {
            if crate::text::occurs_at(line, "/temp"@, 0) {
                assert(line.subrange(0, "/temp"@.len() as int)[0] == line[0]);
            }
        }
        assert(!crate::text::occurs_at(line, "/max"@, 0)) by {
            if crate::text::occurs_at(line, "/max"@, 0) {
                assert(line.subrange(0, "/max"@.len() as int)[0] == line[0]);
            }
        }
    }
}

/// A turn ends with its marks: the thoughts with the end of sequence or a closing
/// tag, in either spelling; the output with the end of sequence, or with an empty
/// line behind more than four tokens.
pub proof fn law_turns_end_with_their_marks(token: u32, eos: u32, text: Seq<char>, emitted: int)
    ensures
        thoughts_end(token, eos, text) <==> {
            ||| token == eos
            ||| exists|at: int| crate::text::occurs_at(text, "<|/thinking|>"@, at)
            ||| exists|at: int| crate::text::occurs_at(text, "</thinking>"@, at)
        },
        output_ends(token, eos, text, emitted) <==> {
            ||| token == eos
            ||| emitted >= 5 && text.len() >= 2 && text[text.len() - 1] == '\n' && text[text.len()
                - 2] == '\n'
        },
{
    reveal_strlit("\n\n");
    let end = "\n\n"@;
    if text.len() >= 2 {
        let last = text.subrange(text.len() - 2, text.len() as int);
        assert(last[0] == text[text.len() - 2] && last[1] == text[text.len() - 1]);
        if text[text.len() - 1] == '\n' && text[text.len() - 2] == '\n' {
            assert(last =~= end);
        }
    }
}

/// The end of a text that may still grow into a tag begins as far left as it can:
/// there is one such place, and the end from any earlier place begins no tag.
pub proof fn law_the_open_end_is_the_longest(text: Seq<char>, at: int, other: int, k: int)
    requires
        first_partial_at(text, at),
        0 <= k < 6,
        0 <= other < text.len(),
    ensures
        exists|t: int|
            0 <= t < 6 && text.len() - at < #[trigger] tag_text(t).len() && tag_text(t).take(
                text.len() - at,
            ) == text.skip(at),
        other < at && text.len() - other < tag_text(k).len() ==> tag_text(k).take(
            text.len() - other,
        ) != text.skip(other),
        first_partial_at(text, other) ==> other == at,
{
    let t = choose|t: int| begins_tag(text.skip(at), t);
    assert(begins_tag(text.skip(at), t));
    assert(text.len() - at < tag_text(t).len());
    if other < at {
        assert(!is_partial(text.skip(other)));
        assert(!begins_tag(text.skip(other), k));
    } else if first_partial_at(text, other) && at < other {
        assert(!is_partial(text.skip(at)));
    }
}

} // verus!

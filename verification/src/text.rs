//! Text helpers shared by the markup modules: searching, comparing and
//! building strings over their characters.
use vstd::prelude::*;
use vstd::string::*;
use vstd::utf8::*;

verus! {

/// `pattern` stands in `text` at character offset `at`.
pub open spec fn occurs_at(text: Seq<char>, pattern: Seq<char>, at: int) -> bool {
    0 <= at && at + pattern.len() <= text.len() && text.subrange(at, at + pattern.len())
        == pattern
}

/// `pattern` stands somewhere in `text`.
pub open spec fn has_text(text: Seq<char>, pattern: Seq<char>) -> bool {
    exists|at: int| occurs_at(text, pattern, at)
}

/// `at` is the leftmost place where `pattern` stands in `text`.
pub open spec fn first_at(text: Seq<char>, pattern: Seq<char>, at: int) -> bool {
    occurs_at(text, pattern, at) && forall|j: int| 0 <= j < at ==> !occurs_at(text, pattern, j)
}

/// Number of bytes that `text` takes in UTF-8.
pub open spec fn byte_len(text: Seq<char>) -> nat {
    encode_utf8(text).len()
}

/// The decimal digits of `n`, most significant first.
pub open spec fn decimal(n: nat) -> Seq<char>
    decreases n,
{
    if n < 10 {
        seq![digit_char(n)]
    } else {
        decimal(n / 10).push(digit_char(n % 10))
    }
}

/// The character of one decimal digit.
pub open spec fn digit_char(d: nat) -> char {
    if d == 0 {
        '0'
    } else if d == 1 {
        '1'
    } else if d == 2 {
        '2'
    } else if d == 3 {
        '3'
    } else if d == 4 {
        '4'
    } else if d == 5 {
        '5'
    } else if d == 6 {
        '6'
    } else if d == 7 {
        '7'
    } else if d == 8 {
        '8'
    } else {
        '9'
    }
}

/// The characters of `s`, in order.
pub fn chars_of(s: &str) -> (out: Vec<char>)
    ensures
        out@ == s@,
{
    let mut out: Vec<char> = Vec::new();
    for c in it: s.chars()
        invariant
            out@ == it.seq().take(it.index() as int),
    {
        out.push(c);
    }
    out
}

/// Equality of two strings.
pub fn same_text(a: &str, b: &str) -> (same: bool)
    ensures
        same == (a@ == b@),
{
    let x = a.as_bytes();
    let y = b.as_bytes();
    proof {
        encode_utf8_decode_utf8(a@);
        encode_utf8_decode_utf8(b@);
    }
    if x.len() != y.len() {
        return false;
    }
    let mut i: usize = 0;
    while i < x.len()
        invariant
            i <= x@.len() == y@.len(),
            forall|k: int| 0 <= k < i ==> x@[k] == y@[k],
            x@ == encode_utf8(a@),
            y@ == encode_utf8(b@),
        decreases x@.len() - i,
    {
        if x[i] != y[i] {
            return false;
        }
        i += 1;
    }
    assert(x@ =~= y@);
    true
}

/// Length of `s` in UTF-8 bytes.
pub fn len_bytes(s: &str) -> (n: usize)
    ensures
        n == byte_len(s@),
{
    s.as_bytes().len()
}

/// Whether `pattern` stands in `text` at `at`.
pub fn matches_at(text: &[char], pattern: &[char], at: usize) -> (found: bool)
    requires
        at <= text@.len(),
    ensures
        found == occurs_at(text@, pattern@, at as int),
{
    let n: usize = text.len();
    if pattern.len() > n - at {
        return false;
    }
    let mut i: usize = 0;
    while i < pattern.len()
        invariant
            i <= pattern@.len(),
            at + pattern@.len() <= n == text@.len(),
            forall|k: int| 0 <= k < i ==> text@[at + k] == pattern@[k],
        decreases pattern@.len() - i,
    {
        if text[at + i] != pattern[i] {
            assert(text@.subrange(at as int, at + pattern@.len())[i as int] != pattern@[i as int]);
            return false;
        }
        i += 1;
    }
    assert(text@.subrange(at as int, at + pattern@.len()) =~= pattern@);
    true
}

/// Leftmost place of `pattern` in `text`.
pub fn find_chars(text: &[char], pattern: &[char]) -> (at: Option<usize>)
    ensures
        at is Some <==> has_text(text@, pattern@),
        at matches Some(i) ==> first_at(text@, pattern@, i as int),
{
    let mut i: usize = 0;
    while i < text.len()
        invariant
            i <= text@.len(),
            forall|j: int| 0 <= j < i ==> !occurs_at(text@, pattern@, j),
        decreases text@.len() - i,
    {
        if matches_at(text, pattern, i) {
            return Some(i);
        }
        i += 1;
    }
    if matches_at(text, pattern, i) {
        return Some(i);
    }
    None
}

/// Leftmost place of `pattern` in `text`, in characters.
pub fn find_text(text: &str, pattern: &str) -> (at: Option<usize>)
    ensures
        at is Some <==> has_text(text@, pattern@),
        at matches Some(i) ==> first_at(text@, pattern@, i as int),
{
    let t = chars_of(text);
    let p = chars_of(pattern);
    find_chars(t.as_slice(), p.as_slice())
}

fn digit_str(d: u64) -> (s: &'static str)
    requires
        d < 10,
    ensures
        s@ == seq![digit_char(d as nat)],
{
    proof {
        reveal_strlit("0");
        reveal_strlit("1");
        reveal_strlit("2");
        reveal_strlit("3");
        reveal_strlit("4");
        reveal_strlit("5");
        reveal_strlit("6");
        reveal_strlit("7");
        reveal_strlit("8");
        reveal_strlit("9");
    }
    if d == 0 {
        "0"
    } else if d == 1 {
        "1"
    } else if d == 2 {
        "2"
    } else if d == 3 {
        "3"
    } else if d == 4 {
        "4"
    } else if d == 5 {
        "5"
    } else if d == 6 {
        "6"
    } else if d == 7 {
        "7"
    } else if d == 8 {
        "8"
    } else {
        "9"
    }
}

/// Appends the decimal form of `n`.
pub fn push_decimal(out: &mut String, n: u64)
    ensures
        final(out)@ == old(out)@ + decimal(n as nat),
    decreases n,
{
    if n >= 10 {
        push_decimal(out, n / 10);
    }
    let d = digit_str(n % 10);
    out.append(d);
    assert(out@ =~= old(out)@ + decimal(n as nat));
}

/// UTF-8 encoding distributes over concatenation.
pub proof fn lemma_encode_concat(a: Seq<char>, b: Seq<char>)
    ensures
        encode_utf8(a + b) == encode_utf8(a) + encode_utf8(b),
    decreases a.len(),
{
    if a.len() == 0 {
        assert(a + b =~= b);
        assert(encode_utf8(a) + encode_utf8(b) =~= encode_utf8(b));
    } else {
        lemma_encode_concat(a.drop_first(), b);
        assert((a + b).drop_first() =~= a.drop_first() + b);
        assert((a + b)[0] == a[0]);
        assert(encode_utf8(a + b) =~= encode_utf8(a) + encode_utf8(b));
    }
}

/// The character is white space: the Unicode property `White_Space`.
pub open spec fn is_white(c: char) -> bool {
    let n = c as u32;
    ||| 0x09 <= n <= 0x0d
    ||| n == 0x20
    ||| n == 0x85
    ||| n == 0xa0
    ||| n == 0x1680
    ||| 0x2000 <= n <= 0x200a
    ||| n == 0x2028
    ||| n == 0x2029
    ||| n == 0x202f
    ||| n == 0x205f
    ||| n == 0x3000
}

/// `text` without the white space at its start.
pub open spec fn trimmed_start(text: Seq<char>) -> Seq<char>
    decreases text.len(),
{
    if text.len() > 0 && is_white(text[0]) {
        trimmed_start(text.skip(1))
    } else {
        text
    }
}

/// `text` without the white space at its end.
pub open spec fn trimmed_end(text: Seq<char>) -> Seq<char>
    decreases text.len(),
{
    if text.len() > 0 && is_white(text.last()) {
        trimmed_end(text.drop_last())
    } else {
        text
    }
}

/// `text` without the white space around it.
pub open spec fn trimmed(text: Seq<char>) -> Seq<char> {
    trimmed_end(trimmed_start(text))
}

/// Whether a character is white space.
pub fn white(c: char) -> (yes: bool)
    ensures
        yes == is_white(c),
{
    let n: u32 = c as u32;
    (0x09 <= n && n <= 0x0d) || n == 0x20 || n == 0x85 || n == 0xa0 || n == 0x1680 || (0x2000 <= n
        && n <= 0x200a) || n == 0x2028 || n == 0x2029 || n == 0x202f || n == 0x205f || n == 0x3000
}

/// `text` without the white space around it.
pub fn trim(text: &str) -> (inner: &str)
    ensures
        inner@ == trimmed(text@),
        exists|a: int, b: int|
            #![trigger text@.subrange(a, b)]
            0 <= a <= b <= text@.len() && inner@ == text@.subrange(a, b) && (forall|i: int|
                (0 <= i < a || b <= i < text@.len()) ==> is_white(#[trigger] text@[i])) && (a < b
                ==> !is_white(text@[a]) && !is_white(text@[b - 1])),
{
    let t = chars_of(text);
    let n: usize = t.len();
    let mut start: usize = 0;
    assert(t@.skip(0) =~= t@);
    while start < n && white(t[start])
        invariant
            start <= n == t@.len(),
            trimmed_start(t@) == trimmed_start(t@.skip(start as int)),
        decreases n - start,
    {
        assert(t@.skip(start as int).skip(1) =~= t@.skip(start + 1));
        start += 1;
    }
    assert(trimmed_start(t@) == t@.skip(start as int));
    let mut end: usize = n;
    assert(t@.subrange(start as int, n as int) =~= t@.skip(start as int));
    while end > start && white(t[end - 1])
        invariant
            start <= end <= n == t@.len(),
            trimmed(t@) == trimmed_end(t@.subrange(start as int, end as int)),
        decreases end - start,
    {
        assert(t@.subrange(start as int, end as int).drop_last() =~= t@.subrange(
            start as int,
            end - 1,
        ));
        end -= 1;
    }
    proof {
        let ends = law_trimming_keeps_the_middle(text@);
        assert(text@.subrange(start as int, end as int) =~= text@.subrange(ends.0, ends.1));
    }
    text.substring_char(start, end)
}

/// Trimming takes white space away, all that stands around the text, and nothing
/// else: what is left is a run of the text with white space alone before and
/// behind it, and neither starts nor ends with white space.
pub proof fn law_trimming_keeps_the_middle(text: Seq<char>) -> (ends: (int, int))
    ensures
        0 <= ends.0 <= ends.1 <= text.len(),
        trimmed(text) == text.subrange(ends.0, ends.1),
        forall|i: int| 0 <= i < ends.0 ==> is_white(#[trigger] text[i]),
        forall|i: int| ends.1 <= i < text.len() ==> is_white(#[trigger] text[i]),
        ends.0 < ends.1 ==> !is_white(text[ends.0]) && !is_white(text[ends.1 - 1]),
{
    let a = lemma_trimmed_start(text);
    let rest = text.skip(a);
    let b = lemma_trimmed_end(rest);
    assert(rest.take(b) =~= text.subrange(a, a + b));
    assert forall|i: int| a + b <= i < text.len() implies is_white(#[trigger] text[i]) by {
        assert(rest[i - a] == text[i]);
    }
    if b > 0 {
        assert(rest[0] == text[a]);
        assert(rest[b - 1] == text[a + b - 1]);
    }
    (a, a + b)
}

proof fn lemma_trimmed_start(text: Seq<char>) -> (at: int)
    ensures
        0 <= at <= text.len(),
        trimmed_start(text) == text.skip(at),
        forall|i: int| 0 <= i < at ==> is_white(#[trigger] text[i]),
        at < text.len() ==> !is_white(text[at]),
    decreases text.len(),
{
    if text.len() > 0 && is_white(text[0]) {
        let rest = text.skip(1);
        let at = lemma_trimmed_start(rest);
        assert(rest.skip(at) =~= text.skip(at + 1));
        assert forall|i: int| 0 <= i < at + 1 implies is_white(#[trigger] text[i]) by {
            if i > 0 {
                assert(rest[i - 1] == text[i]);
            }
        }
        if at < rest.len() {
            assert(rest[at] == text[at + 1]);
        }
        at + 1
    } else {
        assert(text.skip(0) =~= text);
        0
    }
}

proof fn lemma_trimmed_end(text: Seq<char>) -> (at: int)
    ensures
        0 <= at <= text.len(),
        trimmed_end(text) == text.take(at),
        forall|i: int| at <= i < text.len() ==> is_white(#[trigger] text[i]),
        at > 0 ==> !is_white(text[at - 1]),
    decreases text.len(),
{
    if text.len() > 0 && is_white(text.last()) {
        let rest = text.drop_last();
        let at = lemma_trimmed_end(rest);
        assert(rest.take(at) =~= text.take(at));
        assert forall|i: int| at <= i < text.len() implies is_white(#[trigger] text[i]) by {
            if i < rest.len() {
                assert(rest[i] == text[i]);
            }
        }
        if at > 0 {
            assert(rest[at - 1] == text[at - 1]);
        }
        at
    } else {
        assert(text.take(text.len() as int) =~= text);
        text.len() as int
    }
}

/// Whether `text` starts with `prefix`; then also what follows it.
pub fn strip_prefix<'a>(text: &'a str, prefix: &str) -> (rest: Option<&'a str>)
    ensures
        rest is Some <==> occurs_at(text@, prefix@, 0),
        rest matches Some(r) ==> r@ == text@.skip(prefix@.len() as int),
{
    let t = chars_of(text);
    let p = chars_of(prefix);
    if matches_at(t.as_slice(), p.as_slice(), 0) {
        let r = text.substring_char(p.len(), t.len());
        assert(r@ =~= text@.skip(prefix@.len() as int));
        Some(r)
    } else {
        None
    }
}

/// Whether `text` ends with `suffix`.
pub open spec fn ends_with(text: Seq<char>, suffix: Seq<char>) -> bool {
    occurs_at(text, suffix, text.len() - suffix.len())
}

/// Whether `text` ends with `suffix`.
pub fn has_suffix(text: &str, suffix: &str) -> (yes: bool)
    ensures
        yes == ends_with(text@, suffix@),
{
    let t = chars_of(text);
    let p = chars_of(suffix);
    if p.len() > t.len() {
        return false;
    }
    matches_at(t.as_slice(), p.as_slice(), t.len() - p.len())
}

/// The character is a decimal digit.
pub open spec fn is_digit(c: char) -> bool {
    '0' <= c <= '9'
}

/// The number that a row of decimal digits writes.
pub open spec fn digits_value(digits: Seq<char>) -> nat
    decreases digits.len(),
{
    if digits.len() == 0 {
        0
    } else {
        digits_value(digits.drop_last()) * 10 + (digits.last() as u32 - '0' as u32) as nat
    }
}

/// The digits of a written number: an optional plus sign does not count.
pub open spec fn number_digits(text: Seq<char>) -> Seq<char> {
    if text.len() > 0 && text[0] == '+' {
        text.skip(1)
    } else {
        text
    }
}

/// `text` writes a number: digits, with an optional plus sign before them.
pub open spec fn is_number(text: Seq<char>) -> bool {
    number_digits(text).len() > 0 && forall|i: int|
        0 <= i < number_digits(text).len() ==> is_digit(#[trigger] number_digits(text)[i])
}

/// A digit counts for itself, and a row of digits before another for as many
/// times more as there are digits behind it.
pub proof fn law_digits_count_by_their_place(front: Seq<char>, back: Seq<char>, digit: char)
    requires
        is_digit(digit),
    ensures
        digits_value(seq![digit]) == digit as int - 48,
        digits_value(front + back) == digits_value(front) * vstd::arithmetic::power::pow(
            10,
            back.len(),
        ) + digits_value(back),
    decreases back.len(),
{
    reveal_with_fuel(digits_value, 3);
    assert(seq![digit].drop_last() =~= Seq::empty());
    assert(seq![digit].last() == digit);
    reveal(vstd::arithmetic::power::pow);
    let value = digits_value(front) as int;
    if back.len() == 0 {
        assert(front + back =~= front);
        assert(vstd::arithmetic::power::pow(10, 0) == 1);
        assert(value * 1 == value);
    } else {
        law_digits_count_by_their_place(front, back.drop_last(), digit);
        assert((front + back).drop_last() =~= front + back.drop_last());
        assert((front + back).last() == back.last());
        let less = vstd::arithmetic::power::pow(10, (back.len() - 1) as nat);
        assert(vstd::arithmetic::power::pow(10, back.len()) == 10 * less);
        assert((value * less) * 10 == value * (10 * less)) by (nonlinear_arith);
    }
}

/// A number that was written is read back, and is written without a sign and
/// without a zero before it.
pub proof fn law_written_numbers_read_back(n: nat)
    ensures
        is_number(decimal(n)),
        number_digits(decimal(n)) == decimal(n),
        digits_value(decimal(n)) == n,
        decimal(n).len() > 1 ==> decimal(n)[0] != '0',
    decreases n,
{
    lemma_digits_of(n);
    assert(is_digit(decimal(n)[0]));
}

proof fn lemma_digits_of(n: nat)
    ensures
        decimal(n).len() > 0,
        forall|i: int| 0 <= i < decimal(n).len() ==> is_digit(#[trigger] decimal(n)[i]),
        digits_value(decimal(n)) == n,
        n > 0 ==> decimal(n)[0] != '0',
        n < 10 ==> decimal(n).len() == 1,
    decreases n,
{
    reveal_with_fuel(digits_value, 3);
    if n < 10 {
        assert(decimal(n).drop_last() =~= Seq::empty());
    } else {
        lemma_digits_of(n / 10);
        assert(decimal(n).drop_last() =~= decimal(n / 10));
        assert(decimal(n)[0] == decimal(n / 10)[0]);
        assert forall|i: int| 0 <= i < decimal(n).len() implies is_digit(
            #[trigger] decimal(n)[i],
        ) by {
            if i < decimal(n / 10).len() {
                assert(decimal(n)[i] == decimal(n / 10)[i]);
            }
        }
    }
}

/// The number that `text` writes, when it writes one that fits.
pub fn parse_number(text: &str) -> (number: Option<usize>)
    ensures
        number is Some <==> is_number(text@) && digits_value(number_digits(text@)) <= usize::MAX,
        number matches Some(n) ==> n == digits_value(number_digits(text@)),
{
    let t = chars_of(text);
    let start: usize = if t.len() > 0 && t[0] == '+' {
        1
    } else {
        0
    };
    let n: usize = t.len();
    let ghost digits = number_digits(text@);
    assert(digits =~= t@.skip(start as int));
    if start == n {
        return None;
    }
    let mut value: usize = 0;
    let mut wide: bool = false;
    let mut i: usize = start;
    assert(digits.take(0) =~= Seq::empty());
    while i < n
        invariant
            start <= i <= n == t@.len(),
            digits == t@.skip(start as int),
            digits == number_digits(text@),
            forall|j: int| 0 <= j < i - start ==> is_digit(#[trigger] digits[j]),
            !wide ==> value == digits_value(digits.take(i - start)),
            wide ==> digits_value(digits.take(i - start)) > usize::MAX,
        decreases n - i,
    {
        let c: char = t[i];
        assert(digits[i - start] == c);
        if !('0' <= c && c <= '9') {
            assert(!is_digit(number_digits(text@)[i - start]));
            return None;
        }
        assert(digits.take(i - start + 1).drop_last() =~= digits.take(i - start));
        let d: usize = (c as u32 - '0' as u32) as usize;
        if !wide {
            match value.checked_mul(10) {
                Some(ten) => match ten.checked_add(d) {
                    Some(v) => {
                        value = v;
                    },
                    None => {
                        wide = true;
                    },
                },
                None => {
                    wide = true;
                },
            }
        }
        i += 1;
    }
    assert(digits.take(n - start) =~= digits);
    if wide {
        None
    } else {
        Some(value)
    }
}

/// A text ends with what was put at its end, and with nothing longer than itself.
pub proof fn law_texts_end_with_their_end(a: Seq<char>, b: Seq<char>)
    ensures
        ends_with(a + b, b),
        a.len() < b.len() ==> !ends_with(a, b),
        ends_with(a, b) ==> a == a.take(a.len() - b.len()) + b,
{
    assert((a + b).subrange(a.len() as int, (a + b).len() as int) =~= b);
    if ends_with(a, b) {
        assert(a =~= a.take(a.len() - b.len()) + a.subrange(a.len() - b.len(), a.len() as int));
    }
}

/// The leftmost place of a pattern is the only one of its kind, and nothing before
/// it is the pattern.
pub proof fn law_the_leftmost_place_is_unique(
    text: Seq<char>,
    pattern: Seq<char>,
    at: int,
    other: int,
)
    requires
        first_at(text, pattern, at),
        0 <= other,
        other + pattern.len() <= text.len(),
    ensures
        text.subrange(at, at + pattern.len()) == pattern,
        other < at ==> text.subrange(other, other + pattern.len()) != pattern,
        first_at(text, pattern, other) ==> other == at,
{
    if other < at {
        assert(!occurs_at(text, pattern, other));
    }
}

/// A text is read as a number when it is digits, at least one, with at most one
/// plus sign before them.
pub proof fn law_texts_that_are_numbers(text: Seq<char>)
    ensures
        text.len() == 0 ==> !is_number(text),
        text == seq!['+'] ==> !is_number(text),
        text.len() > 0 && text[0] != '+' ==> (is_number(text) <==> forall|i: int|
            0 <= i < text.len() ==> '0' <= #[trigger] text[i] <= '9'),
        text.len() > 1 && text[0] == '+' ==> (is_number(text) <==> forall|i: int|
            1 <= i < text.len() ==> '0' <= #[trigger] text[i] <= '9'),
{
    let digits = number_digits(text);
    if text.len() > 1 && text[0] == '+' {
        if is_number(text) {
            assert forall|i: int| 1 <= i < text.len() implies '0' <= #[trigger] text[i] <= '9' by {
                assert(is_digit(digits[i - 1]));
            }
        }
        if forall|i: int| 1 <= i < text.len() ==> '0' <= #[trigger] text[i] <= '9' {
            assert forall|i: int| 0 <= i < digits.len() implies is_digit(#[trigger] digits[i]) by {
                assert(digits[i] == text[i + 1]);
            }
        }
    } else if text.len() > 0 && text[0] != '+' {
        assert(digits == text);
        if is_number(text) {
            assert forall|i: int| 0 <= i < text.len() implies '0' <= #[trigger] text[i] <= '9' by {
                assert(is_digit(digits[i]));
            }
        }
    }
}

} // verus!

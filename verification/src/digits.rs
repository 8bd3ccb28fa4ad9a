//! The digit exercises: reversing a number, and adding or subtracting two.
//!
//! An exercise is one line of text over a small alphabet. The model is scored
//! on the part of the line that it could know from what came before.
use vstd::prelude::*;
use vstd::string::*;
use crate::config::{Architecture, TrainConfig};
use crate::decode::{splitmix64, total_key};
use crate::text::{chars_of, push_decimal};

verus! {

/// Which exercise is set.
#[derive(Clone, Copy, Debug, PartialEq, Eq, Structural)]
pub enum DigitTask {
    Reverse,
    Plusminus,
}

/// The length of a reversal before padding.
pub const REVERSE_T: usize = 129;

/// The length of a sum before padding.
pub const PLUSMINUS_T: usize = 257;

/// The alphabet of the reversals.
pub const REVERSE_ALPHABET: &'static str = "0123456789,#";

/// The alphabet of the sums.
pub const PLUSMINUS_ALPHABET: &'static str = "0123456789+-=";

impl DigitTask {
    pub open spec fn letters(self) -> Seq<char> {
        match self {
            DigitTask::Reverse => REVERSE_ALPHABET@,
            DigitTask::Plusminus => PLUSMINUS_ALPHABET@,
        }
    }

    /// The alphabet of the exercise.
    pub fn alphabet(self) -> (letters: &'static str)
        ensures
            letters@ == self.letters(),
    {
        match self {
            DigitTask::Reverse => REVERSE_ALPHABET,
            DigitTask::Plusminus => PLUSMINUS_ALPHABET,
        }
    }

    pub open spec fn size(self) -> usize {
        match self {
            DigitTask::Reverse => 12,
            DigitTask::Plusminus => 13,
        }
    }

    /// How many letters the alphabet has.
    pub fn vocab(self) -> (n: usize)
        ensures
            n == self.size(),
            n == self.letters().len(),
    {
        proof {
            reveal_strlit("0123456789,#");
            reveal_strlit("0123456789+-=");
        }
        match self {
            DigitTask::Reverse => 12,
            DigitTask::Plusminus => 13,
        }
    }

    pub open spec fn steps(self) -> usize {
        match self {
            DigitTask::Reverse => REVERSE_T,
            DigitTask::Plusminus => PLUSMINUS_T,
        }
    }

    /// How long a line of the exercise is before padding.
    pub fn script_t(self) -> (n: usize)
        ensures
            n == self.steps(),
    {
        match self {
            DigitTask::Reverse => REVERSE_T,
            DigitTask::Plusminus => PLUSMINUS_T,
        }
    }

    pub open spec fn filler(self) -> u32 {
        match self {
            DigitTask::Reverse => 11,
            DigitTask::Plusminus => 12,
        }
    }

    /// What a line is filled up with: the last letter of the alphabet.
    pub fn pad(self) -> (id: u32)
        ensures
            id == self.filler(),
            id == self.letters().len() - 1,
    {
        proof {
            reveal_strlit("0123456789,#");
            reveal_strlit("0123456789+-=");
        }
        match self {
            DigitTask::Reverse => 11,
            DigitTask::Plusminus => 12,
        }
    }
}

/// `n` rounded up to a multiple of sixteen.
pub open spec fn padded(n: int) -> int {
    (n + 15) / 16 * 16
}

/// The length of a line after padding: a multiple of sixteen.
pub fn wkv_pad_len(script_t: usize) -> (len: usize)
    requires
        script_t + 15 <= usize::MAX,
    ensures
        len == padded(script_t as int),
        len >= script_t,
        len % 16 == 0,
        len < script_t + 16,
{
    (script_t + 15) / 16 * 16
}

/// Why an evaluation cannot be run.
#[derive(Clone, Copy, Debug, PartialEq, Eq, Structural)]
pub enum EvalError {
    NoDigits,
    Architecture,
    Vocabulary,
    Context,
}

/// Why an evaluation of a model cannot be run.
pub open spec fn eval_error(cfg: TrainConfig, task: DigitTask, max_digits: usize) -> Option<
    EvalError,
> {
    if max_digits == 0 {
        Some(EvalError::NoDigits)
    } else if cfg.architecture != Architecture::RosaRwkv7 {
        Some(EvalError::Architecture)
    } else if cfg.vocab_size < task.size() {
        Some(EvalError::Vocabulary)
    } else if cfg.context_len < padded(task.steps() as int) {
        Some(EvalError::Context)
    } else {
        None
    }
}

/// Checks that a model can be evaluated, and says how long a padded line is.
pub fn check_eval(cfg: &TrainConfig, task: DigitTask, max_digits: usize) -> (len: Result<
    usize,
    EvalError,
>)
    ensures
        match len {
            Ok(n) => eval_error(*cfg, task, max_digits) is None && n == padded(task.steps() as int),
            Err(e) => eval_error(*cfg, task, max_digits) == Some(e),
        },
{
    if max_digits == 0 {
        return Err(EvalError::NoDigits);
    }
    match cfg.architecture {
        Architecture::RosaRwkv7 => {},
        Architecture::Heron => return Err(EvalError::Architecture),
    }
    if cfg.vocab_size < task.vocab() {
        return Err(EvalError::Vocabulary);
    }
    let len: usize = wkv_pad_len(task.script_t());
    if cfg.context_len < len {
        return Err(EvalError::Context);
    }
    Ok(len)
}

/// Ten to the power of `n`.
pub open spec fn pow10(n: nat) -> nat
    decreases n,
{
    if n == 0 {
        1
    } else {
        10 * pow10((n - 1) as nat)
    }
}

proof fn lemma_pow10_grows(a: nat, b: nat)
    requires
        a <= b,
    ensures
        1 <= pow10(a) <= pow10(b),
    decreases b,
{
    if a < b {
        lemma_pow10_grows(a, (b - 1) as nat);
    } else if b > 0 {
        lemma_pow10_grows((b - 1) as nat, (b - 1) as nat);
    }
}

proof fn lemma_pow10_fits(n: nat)
    requires
        n <= 19,
    ensures
        pow10(n) <= 10_000_000_000_000_000_000,
        n <= 18 ==> pow10(n) <= 1_000_000_000_000_000_000,
{
    lemma_pow10_grows(n, 19);
    reveal_with_fuel(pow10, 20);
    assert(pow10(18) == 1_000_000_000_000_000_000);
    assert(pow10(19) == 10_000_000_000_000_000_000);
    if n <= 18 {
        lemma_pow10_grows(n, 18);
    }
}

fn ten_to(n: usize) -> (p: u64)
    requires
        n <= 19,
    ensures
        p == pow10(n as nat),
{
    let mut p: u64 = 1;
    for i in 0..n
        invariant
            n <= 19,
            p == pow10(i as nat),
    {
        proof {
            lemma_pow10_fits((i + 1) as nat);
        }
        p = p * 10;
    }
    p
}

/// The least number of that many digits; one digit may be a zero.
pub open spec fn least(digits: nat) -> int {
    if digits <= 1 {
        0
    } else {
        pow10((digits - 1) as nat) as int
    }
}

/// The number of that many digits that is drawn in a state of the generator.
pub open spec fn drawn(digits: nat, state: u64) -> int {
    least(digits) + crate::decode::mixed(crate::decode::mixer_step(state)) as int % (pow10(digits)
        - least(digits))
}

proof fn lemma_least(digits: nat)
    requires
        digits <= 19,
    ensures
        0 <= least(digits) < pow10(digits) <= 10_000_000_000_000_000_000,
        digits <= 18 ==> pow10(digits) <= 1_000_000_000_000_000_000,
{
    lemma_pow10_fits(digits);
    lemma_pow10_grows(0, digits);
    if digits > 1 {
        lemma_pow10_grows(0, (digits - 1) as nat);
    }
}

/// Draws a number of `digits` digits.
pub fn get_randint(digits: usize, rng: &mut u64) -> (n: u64)
    requires
        digits <= 19,
    ensures
        *final(rng) == crate::decode::mixer_step(*old(rng)),
        n == drawn(digits as nat, *old(rng)),
        least(digits as nat) <= n < pow10(digits as nat),
{
    proof {
        lemma_least(digits as nat);
    }
    let low: u64 = if digits <= 1 {
        0
    } else {
        ten_to(digits - 1)
    };
    let high: u64 = ten_to(digits);
    let word: u64 = splitmix64(rng);
    low + word % (high - low)
}

/// A signed number in decimal.
pub open spec fn signed(n: int) -> Seq<char> {
    if n < 0 {
        seq!['-'] + crate::text::decimal((-n) as nat)
    } else {
        crate::text::decimal(n as nat)
    }
}

/// The line of a reversal.
pub open spec fn reversal(n: nat) -> Seq<char> {
    crate::text::decimal(n).push(',') + crate::text::decimal(n).reverse()
}

/// The line of a sum or a difference.
pub open spec fn equation(a: nat, b: nat, plus: bool) -> Seq<char> {
    crate::text::decimal(a).push(
        if plus {
            '+'
        } else {
            '-'
        },
    ) + crate::text::decimal(b).push('=') + signed(
        if plus {
            a as int + b as int
        } else {
            a - b
        },
    )
}

/// The line of a reversal reads the same from both ends, with the comma in its
/// middle, and the number stands before the comma.
pub proof fn law_a_reversal_is_a_mirror(n: nat)
    ensures
        ({
            let line = reversal(n);
            let middle = (line.len() - 1) / 2;
            &&& line.len() == 2 * middle + 1
            &&& line[middle] == ','
            &&& forall|i: int| 0 <= i < middle ==> #[trigger] line[i] == line[2 * middle - i]
            &&& crate::text::is_number(line.take(middle))
            &&& crate::text::digits_value(line.take(middle)) == n
        }),
{
    crate::text::law_written_numbers_read_back(n);
    let digits = crate::text::decimal(n);
    let line = reversal(n);
    let middle = digits.len() as int;
    assert(line.len() == 2 * middle + 1);
    assert((line.len() - 1) / 2 == middle);
    assert(line.take(middle) =~= digits);
    assert forall|i: int| 0 <= i < middle implies #[trigger] line[i] == line[2 * middle - i] by {
        assert(line[2 * middle - i] == digits.reverse()[middle - 1 - i]);
    }
}

/// The line of a sum is true: it writes the two numbers, the sign between them,
/// and behind the equals sign what they make, with a minus sign before it where
/// that is below zero.
pub proof fn law_an_equation_is_true(a: nat, b: nat, plus: bool) -> (signs: (int, int))
    ensures
        ({
            let line = equation(a, b, plus);
            let result = line.skip(signs.1 + 1);
            &&& 0 < signs.0 < signs.1 < line.len() - 1
            &&& line[signs.0] == (if plus {
                '+'
            } else {
                '-'
            })
            &&& line[signs.1] == '='
            &&& crate::text::digits_value(line.take(signs.0)) == a
            &&& crate::text::digits_value(line.subrange(signs.0 + 1, signs.1)) == b
            &&& plus ==> crate::text::digits_value(result) == a + b
            &&& !plus && a >= b ==> crate::text::digits_value(result) == a - b
            &&& !plus && a < b ==> result[0] == '-' && crate::text::digits_value(result.skip(1))
                == b - a
        }),
{
    crate::text::law_written_numbers_read_back(a);
    crate::text::law_written_numbers_read_back(b);
    let line = equation(a, b, plus);
    let p = crate::text::decimal(a).len() as int;
    let q = p + 1 + crate::text::decimal(b).len();
    assert(line.take(p) =~= crate::text::decimal(a));
    assert(line.subrange(p + 1, q) =~= crate::text::decimal(b));
    let value = if plus {
        a as int + b as int
    } else {
        a - b
    };
    assert(line.skip(q + 1) =~= signed(value));
    if value < 0 {
        crate::text::law_written_numbers_read_back((-value) as nat);
        assert(signed(value).skip(1) =~= crate::text::decimal((-value) as nat));
    } else {
        crate::text::law_written_numbers_read_back(value as nat);
    }
    (p, q)
}

/// A number that is drawn has the digits that were asked for.
pub proof fn law_drawn_numbers_have_their_digits(digits: nat, state: u64)
    requires
        1 <= digits <= 19,
    ensures
        drawn(digits, state) >= 0,
        crate::text::decimal(drawn(digits, state) as nat).len() == digits,
{
    lemma_least(digits);
    let word = crate::decode::mixed(crate::decode::mixer_step(state)) as int;
    vstd::arithmetic::div_mod::lemma_mod_bound(word, pow10(digits) - least(digits));
    lemma_length_of(digits, drawn(digits, state) as nat);
}

proof fn lemma_length_of(digits: nat, n: nat)
    requires
        1 <= digits,
        least(digits) <= n < pow10(digits),
    ensures
        crate::text::decimal(n).len() == digits,
    decreases digits,
{
    if digits == 1 {
        assert(pow10(1) == 10) by {
            reveal_with_fuel(pow10, 2);
        }
    } else {
        lemma_pow10_grows(1, (digits - 1) as nat);
        assert(pow10(1) == 10) by {
            reveal_with_fuel(pow10, 2);
        }
        assert(n >= 10);
        if digits > 2 {
            assert(pow10((digits - 1) as nat) == 10 * pow10((digits - 2) as nat));
        }
        lemma_length_of((digits - 1) as nat, n / 10);
    }
}

/// Writes the line of a reversal.
pub fn reverse_line(n: u64) -> (line: String)
    ensures
        line@ == reversal(n as nat),
{
    let mut line: String = "".to_owned();
    proof {
        reveal_strlit("");
        reveal_strlit(",");
    }
    push_decimal(&mut line, n);
    assert(line@ =~= crate::text::decimal(n as nat));
    let digits = chars_of(line.as_str());
    let len: usize = digits.len();
    line.append(",");
    let ghost front = crate::text::decimal(n as nat).push(',');
    assert(line@ =~= front);
    let ghost back = crate::text::decimal(n as nat).reverse();
    assert(front + back.take(0) =~= front);
    let text: String = line.clone();
    let text = text.as_str();
    for i in 0..len
        invariant
            len == digits@.len(),
            digits@ == crate::text::decimal(n as nat),
            text@ == front,
            front == crate::text::decimal(n as nat).push(','),
            back == crate::text::decimal(n as nat).reverse(),
            line@ == front + back.take(i as int),
    {
        let at: usize = len - 1 - i;
        let digit = text.substring_char(at, at + 1);
        line.append(digit);
        assert(digit@ =~= seq![digits@[at as int]]);
        assert(back[i as int] == digits@[at as int]);
        assert(line@ =~= front + back.take(i + 1));
    }
    assert(back.take(len as int) =~= back);
    line
}

/// Writes the line of a sum or a difference.
pub fn plusminus_line(a: u64, b: u64, plus: bool) -> (line: String)
    requires
        a + b <= u64::MAX,
    ensures
        line@ == equation(a as nat, b as nat, plus),
{
    let mut line: String = "".to_owned();
    proof {
        reveal_strlit("");
        reveal_strlit("+");
        reveal_strlit("-");
        reveal_strlit("=");
    }
    push_decimal(&mut line, a);
    line.append(
        if plus {
            "+"
        } else {
            "-"
        },
    );
    push_decimal(&mut line, b);
    line.append("=");
    if plus {
        push_decimal(&mut line, a + b);
    } else if a >= b {
        push_decimal(&mut line, a - b);
    } else {
        line.append("-");
        push_decimal(&mut line, b - a);
    }
    assert(line@ =~= equation(a as nat, b as nat, plus));
    line
}

/// The state of the generator after `n` draws.
pub open spec fn state_after(state: u64, n: nat) -> u64
    decreases n,
{
    if n == 0 {
        state
    } else {
        crate::decode::mixer_step(state_after(state, (n - 1) as nat))
    }
}

/// The digits of the two numbers of the sum of that number, among the sums
/// whose longer number has `digits` digits.
pub open spec fn sum_digits(digits: int, i: int) -> (int, int) {
    if i <= digits {
        (i, digits)
    } else {
        (digits, 2 * digits - i)
    }
}

/// The sums go through the lengths of their numbers: every pair of lengths of
/// which the longer is `digits` comes once.
pub proof fn law_every_pair_of_lengths_comes_once(digits: int, x: int, y: int, i: int, j: int)
    requires
        1 <= x <= digits,
        1 <= y <= digits,
        x == digits || y == digits,
        1 <= i < j < 2 * digits,
    ensures
        exists|k: int| 1 <= k < 2 * digits && #[trigger] sum_digits(digits, k) == (x, y),
        sum_digits(digits, i) != sum_digits(digits, j),
{
    let k = if y == digits {
        x
    } else {
        2 * digits - y
    };
    assert(sum_digits(digits, k) == (x, y));
}

/// The sum of that number, counted from one, drawn from a state of the
/// generator.
pub open spec fn sum_line(digits: int, i: int, state: u64) -> Seq<char> {
    let first = state_after(state, (3 * (i - 1)) as nat);
    let second = state_after(state, (3 * (i - 1) + 1) as nat);
    let third = state_after(state, (3 * (i - 1) + 2) as nat);
    let (aa, bb) = sum_digits(digits, i);
    equation(
        drawn(aa as nat, first) as nat,
        drawn(bb as nat, second) as nat,
        crate::decode::mixed(crate::decode::mixer_step(third)) & 1 == 0,
    )
}

/// How many reversals are set for each number of digits.
pub const REVERSALS: usize = 10;

/// Sets the exercises for numbers of `digits` digits: ten reversals, or one
/// sum for each pair of lengths of which the longer is `digits`.
pub fn digit_lines(task: DigitTask, digits: usize, rng: &mut u64) -> (lines: Vec<String>)
    requires
        1 <= digits <= 19,
        task == DigitTask::Plusminus ==> digits <= 18,
    ensures
        match task {
            DigitTask::Reverse => {
                &&& lines@.len() == REVERSALS
                &&& lines@.len() == 10
                &&& *final(rng) == state_after(*old(rng), REVERSALS as nat)
                &&& forall|i: int|
                    0 <= i < REVERSALS ==> (#[trigger] lines@[i])@ == reversal(
                        drawn(digits as nat, state_after(*old(rng), i as nat)) as nat,
                    )
            },
            DigitTask::Plusminus => {
                &&& lines@.len() == 2 * digits - 1
                &&& *final(rng) == state_after(*old(rng), (3 * (2 * digits - 1)) as nat)
                &&& forall|i: int|
                    0 <= i < 2 * digits - 1 ==> (#[trigger] lines@[i])@ == sum_line(
                        digits as int,
                        i + 1,
                        *old(rng),
                    )
            },
        },
{
    let ghost start = *rng;
    let mut lines: Vec<String> = Vec::new();
    match task {
        DigitTask::Reverse => {
            for i in 0..REVERSALS
                invariant
                    1 <= digits <= 19,
                    lines@.len() == i,
                    *rng == state_after(start, i as nat),
                    forall|j: int|
                        0 <= j < i ==> (#[trigger] lines@[j])@ == reversal(
                            drawn(digits as nat, state_after(start, j as nat)) as nat,
                        ),
            {
                let n: u64 = get_randint(digits, rng);
                let line = reverse_line(n);
                lines.push(line);
            }
        },
        DigitTask::Plusminus => {
            let last: usize = 2 * digits;
            let mut i: usize = 1;
            assert(state_after(start, 0) == start);
            while i < last
                invariant
                    1 <= digits <= 18,
                    last == 2 * digits,
                    1 <= i <= last,
                    lines@.len() == i - 1,
                    *rng == state_after(start, (3 * (i - 1)) as nat),
                    forall|j: int|
                        0 <= j < i - 1 ==> (#[trigger] lines@[j])@ == sum_line(
                            digits as int,
                            j + 1,
                            start,
                        ),
                decreases last - i,
            {
                let (aa, bb): (usize, usize) = if i <= digits {
                    (i, digits)
                } else {
                    (digits, last - i)
                };
                let ghost k = (3 * (i - 1)) as nat;
                let a: u64 = get_randint(aa, rng);
                assert(*rng == state_after(start, k + 1));
                let b: u64 = get_randint(bb, rng);
                assert(*rng == state_after(start, k + 2));
                proof {
                    lemma_least(aa as nat);
                    lemma_least(bb as nat);
                }
                let word: u64 = splitmix64(rng);
                assert(*rng == state_after(start, k + 3));
                let line = plusminus_line(a, b, word & 1 == 0);
                lines.push(line);
                i += 1;
            }
        },
    }
    lines
}

/// The place of a letter in an alphabet; `pad` when it is not in it.
pub open spec fn letter_id(alphabet: Seq<char>, c: char, pad: u32, id: u32) -> bool {
    if alphabet.contains(c) {
        id < alphabet.len() && alphabet[id as int] == c && forall|j: int|
            0 <= j < id ==> #[trigger] alphabet[j] != c
    } else {
        id == pad
    }
}

/// The ids are those of a line, cut or filled up.
pub open spec fn encodes(ids: Seq<u32>, body: Seq<char>, alphabet: Seq<char>, pad: u32) -> bool {
    &&& forall|i: int|
        0 <= i < ids.len() && i < body.len() ==> letter_id(
            alphabet,
            body[i],
            pad,
            #[trigger] ids[i],
        )
    &&& forall|i: int| body.len() <= i < ids.len() ==> #[trigger] ids[i] == pad
}

/// Turns a line into ids, cut or filled up to `t_wkv` of them.
pub fn encode_digit_line(body: &str, alphabet: &str, pad: u32, t_wkv: usize) -> (ids: Vec<u32>)
    requires
        alphabet@.len() <= u32::MAX,
    ensures
        ids@.len() == t_wkv,
        encodes(ids@, body@, alphabet@, pad),
{
    let text = chars_of(body);
    let letters = chars_of(alphabet);
    let n: usize = text.len();
    let m: usize = letters.len();
    let mut ids: Vec<u32> = Vec::new();
    for i in 0..t_wkv
        invariant
            text@ == body@,
            letters@ == alphabet@,
            n == text@.len(),
            m == letters@.len() <= u32::MAX,
            ids@.len() == i,
            forall|j: int|
                0 <= j < i && j < body@.len() ==> letter_id(
                    alphabet@,
                    body@[j],
                    pad,
                    #[trigger] ids@[j],
                ),
            forall|j: int| body@.len() <= j < i ==> #[trigger] ids@[j] == pad,
    {
        if i >= n {
            ids.push(pad);
        } else {
            let c: char = text[i];
            let mut id: u32 = pad;
            let mut k: usize = 0;
            while k < m
                invariant_except_break
                    k <= m == letters@.len() <= u32::MAX,
                    id == pad,
                    forall|j: int| 0 <= j < k ==> #[trigger] letters@[j] != c,
                ensures
                    letter_id(letters@, c, pad, id),
                decreases m - k,
            {
                if letters[k] == c {
                    id = k as u32;
                    assert(letters@.contains(c));
                    break;
                }
                k += 1;
            }
            ids.push(id);
        }
    }
    ids
}

/// The first place from `from` on where an id stands.
pub open spec fn first_id(ids: Seq<u32>, id: u32, from: int, at: int) -> bool {
    from <= at < ids.len() && ids[at] == id && forall|j: int|
        from <= j < at ==> #[trigger] ids[j] != id
}

/// The id stands nowhere from `from` on.
pub open spec fn no_id(ids: Seq<u32>, id: u32, from: int) -> bool {
    forall|j: int| from <= j < ids.len() ==> #[trigger] ids[j] != id
}

fn find_id(ids: &[u32], id: u32, from: usize) -> (at: Option<usize>)
    requires
        from <= ids@.len(),
    ensures
        match at {
            Some(a) => first_id(ids@, id, from as int, a as int),
            None => no_id(ids@, id, from as int),
        },
{
    let n: usize = ids.len();
    let mut i: usize = from;
    while i < n
        invariant
            from <= i <= n == ids@.len(),
            forall|j: int| from <= j < i ==> #[trigger] ids@[j] != id,
        decreases n - i,
    {
        if ids[i] == id {
            return Some(i);
        }
        i += 1;
    }
    None
}

/// The part of a line that is scored. A reversal is scored from its comma to
/// its end mark, or to the end of the line when there is none; a sum from its
/// first equals sign to the next, or to the letter behind it.
pub open spec fn is_span(task: DigitTask, ids: Seq<u32>, span: (int, int)) -> bool {
    match task {
        DigitTask::Reverse => {
            &&& first_id(ids, 10, 0, span.0) || no_id(ids, 10, 0) && span.0 == 0
            &&& first_id(ids, 11, 0, span.1) || no_id(ids, 11, 0) && span.1 == ids.len() - 1
        },
        DigitTask::Plusminus => {
            &&& first_id(ids, 12, 0, span.0) || no_id(ids, 12, 0) && span.0 == 0
            &&& first_id(ids, 12, span.0 + 1, span.1) || no_id(ids, 12, span.0 + 1) && span.1
                == span.0 + 1
        },
    }
}

/// Finds the part of a line that is scored.
pub fn scored_span(task: DigitTask, ids: &[u32]) -> (span: (usize, usize))
    requires
        ids@.len() > 0,
    ensures
        is_span(task, ids@, (span.0 as int, span.1 as int)),
        span.0 < ids@.len(),
        span.1 <= ids@.len(),
{
    let n: usize = ids.len();
    match task {
        DigitTask::Reverse => {
            let from: usize = match find_id(ids, 10, 0) {
                Some(at) => at,
                None => 0,
            };
            let to: usize = match find_id(ids, 11, 0) {
                Some(at) => at,
                None => n - 1,
            };
            (from, to)
        },
        DigitTask::Plusminus => {
            let from: usize = match find_id(ids, 12, 0) {
                Some(at) => at,
                None => 0,
            };
            let to: usize = match find_id(ids, 12, from + 1) {
                Some(at) => at,
                None => from + 1,
            };
            (from, to)
        },
    }
}

proof fn lemma_letter(task: DigitTask, c: char, id: u32)
    requires
        letter_id(task.letters(), c, task.filler(), id),
    ensures
        crate::text::is_digit(c) ==> id < 10,
        task is Reverse && c == ',' ==> id == 10,
        task is Plusminus && (c == '+' || c == '-') ==> id < 12,
        task is Plusminus && c == '=' ==> id == 12,
{
    reveal_strlit("0123456789,#");
    reveal_strlit("0123456789+-=");
    let all = task.letters();
    if crate::text::is_digit(c) {
        let at = c as int - '0' as int;
        assert(0 <= at < 10);
        assert(all[at] as int == '0' as int + at);
        assert(all[at] == c);
        assert(all.contains(c));
    }
    if task is Reverse && c == ',' {
        assert(all[10] == c);
        assert(all.contains(c));
    }
    if task is Plusminus && c == '+' {
        assert(all[10] == c);
        assert(all.contains(c));
    }
    if task is Plusminus && c == '-' {
        assert(all[11] == c);
        assert(all.contains(c));
    }
    if task is Plusminus && c == '=' {
        assert(all[12] == c);
        assert(all.contains(c));
    }
}

proof fn lemma_digits(n: nat)
    ensures
        crate::text::decimal(n).len() > 0,
        forall|i: int|
            0 <= i < crate::text::decimal(n).len() ==> crate::text::is_digit(
                #[trigger] crate::text::decimal(n)[i],
            ),
{
    crate::names::lemma_decimal(n);
    let all = crate::text::decimal(n);
    assert forall|i: int| 0 <= i < all.len() implies crate::text::is_digit(#[trigger] all[i]) by {
        assert(crate::text::is_digit(crate::text::number_digits(all)[i]));
    }
}

/// A padded reversal is scored on the reversed digits and the mark behind
/// them, and on nothing of the padding.
pub proof fn law_a_reversal_is_scored_on_its_digits(n: nat, ids: Seq<u32>, span: (int, int))
    requires
        ids.len() > reversal(n).len(),
        encodes(ids, reversal(n), DigitTask::Reverse.letters(), DigitTask::Reverse.filler()),
        is_span(DigitTask::Reverse, ids, span),
    ensures
        span.0 == crate::text::decimal(n).len(),
        span.1 == reversal(n).len(),
{
    let d = crate::text::decimal(n);
    let line = reversal(n);
    let task = DigitTask::Reverse;
    lemma_digits(n);
    assert(line.len() == 2 * d.len() + 1);
    assert forall|i: int| 0 <= i < line.len() && i != d.len() implies #[trigger] ids[i] < 10 by {
        if i < d.len() {
            assert(line[i] == d[i]);
        } else {
            assert(line[i] == d.reverse()[i - d.len() - 1]);
            assert(line[i] == d[2 * d.len() - i]);
        }
        lemma_letter(task, line[i], ids[i]);
    }
    assert(line[d.len() as int] == ',');
    lemma_letter(task, ',', ids[d.len() as int]);
    assert(ids[line.len() as int] == 11);
}

/// A padded sum is scored on the digits of its result and the mark behind
/// them, and on nothing of the padding.
pub proof fn law_a_sum_is_scored_on_its_result(
    a: nat,
    b: nat,
    plus: bool,
    ids: Seq<u32>,
    span: (int, int),
)
    requires
        ids.len() > equation(a, b, plus).len(),
        encodes(
            ids,
            equation(a, b, plus),
            DigitTask::Plusminus.letters(),
            DigitTask::Plusminus.filler(),
        ),
        is_span(DigitTask::Plusminus, ids, span),
    ensures
        span.0 == crate::text::decimal(a).len() + 1 + crate::text::decimal(b).len(),
        span.1 == equation(a, b, plus).len(),
{
    let line = equation(a, b, plus);
    let task = DigitTask::Plusminus;
    let da = crate::text::decimal(a);
    let db = crate::text::decimal(b);
    let result: int = if plus {
        a as int + b as int
    } else {
        a - b
    };
    let dr = signed(result);
    lemma_digits(a);
    lemma_digits(b);
    lemma_digits(
        if result < 0 {
            (-result) as nat
        } else {
            result as nat
        },
    );
    let mid = da.len() + 1 + db.len();
    assert forall|i: int| 0 <= i < line.len() && i != mid implies #[trigger] ids[i] < 12 by {
        if i < da.len() {
            assert(line[i] == da[i]);
        } else if i == da.len() {
            assert(line[i] == '+' || line[i] == '-');
        } else if i < mid {
            assert(line[i] == db[i - da.len() - 1]);
        } else {
            assert(line[i] == dr[i - mid - 1]);
            assert(crate::text::is_digit(line[i]) || line[i] == '-');
        }
        lemma_letter(task, line[i], ids[i]);
    }
    assert(line[mid as int] == '=');
    lemma_letter(task, '=', ids[mid as int]);
    assert(ids[line.len() as int] == 12);
}

/// How many of the places from `from` to `to` were foretold rightly.
pub open spec fn right(predicted: Seq<u32>, line: Seq<u32>, from: int, to: int) -> nat
    decreases to - from,
{
    if to <= from {
        0
    } else {
        right(predicted, line, from, to - 1) + if predicted[to - 1] == line[to] {
            1nat
        } else {
            0
        }
    }
}

/// The places of a span at which the letter that follows was foretold.
pub open spec fn hits(predicted: Seq<u32>, line: Seq<u32>, from: int, to: int) -> Set<int> {
    Set::new(|at: int| from <= at < to && predicted[at] == line[at + 1])
}

/// The number right is the number of places at which the letter that follows
/// was foretold, wherever in the span they stand: a miss costs its own place
/// and no other. It is full exactly when there was no miss.
pub proof fn law_a_score_is_the_number_of_hits(
    predicted: Seq<u32>,
    line: Seq<u32>,
    from: int,
    to: int,
)
    requires
        from <= to,
    ensures
        hits(predicted, line, from, to).finite(),
        right(predicted, line, from, to) == hits(predicted, line, from, to).len(),
        right(predicted, line, from, to) == to - from <==> forall|at: int|
            from <= at < to ==> #[trigger] predicted[at] == line[at + 1],
    decreases to - from,
{
    let p = |at: int| predicted[at] == line[at + 1];
    assert(hits(predicted, line, from, to) =~= crate::counting::places(p, from, to));
    if from < to {
        law_a_score_is_the_number_of_hits(predicted, line, from, to - 1);
        assert(hits(predicted, line, from, to - 1) =~= crate::counting::places(p, from, to - 1));
        crate::counting::lemma_places_step(p, from, to);
        crate::counting::lemma_places_finite(p, from, to - 1);
        if right(predicted, line, from, to) == to - from {
            assert forall|at: int| from <= at < to implies #[trigger] predicted[at] == line[at
                + 1] by {}
        }
    } else {
        crate::counting::lemma_places_finite(p, from, to);
    }
}

/// The score of a span is the sum of the scores of its two parts, wherever it
/// is cut.
pub proof fn law_scores_add_up(
    predicted: Seq<u32>,
    line: Seq<u32>,
    from: int,
    cut: int,
    to: int,
)
    requires
        from <= cut <= to,
    ensures
        right(predicted, line, from, to) == right(predicted, line, from, cut) + right(
            predicted,
            line,
            cut,
            to,
        ),
    decreases to - cut,
{
    if cut < to {
        law_scores_add_up(predicted, line, from, cut, to - 1);
    }
}

/// Foretelling another letter at one place changes the score by that place
/// alone: it gains one where the new letter is the right one, and loses one
/// where the old letter was.
pub proof fn law_one_prediction_counts_for_one_place(
    predicted: Seq<u32>,
    line: Seq<u32>,
    from: int,
    to: int,
    at: int,
    id: u32,
)
    requires
        from <= at < to <= predicted.len(),
        0 <= from,
    ensures
        right(predicted.update(at, id), line, from, to) + (if predicted[at] == line[at + 1] {
            1int
        } else {
            0
        }) == right(predicted, line, from, to) + if id == line[at + 1] {
            1int
        } else {
            0
        },
{
    let other = predicted.update(at, id);
    law_scores_add_up(predicted, line, from, at, to);
    law_scores_add_up(predicted, line, at, at + 1, to);
    law_scores_add_up(other, line, from, at, to);
    law_scores_add_up(other, line, at, at + 1, to);
    lemma_right_agrees(predicted, other, line, from, at);
    lemma_right_agrees(predicted, other, line, at + 1, to);
    assert(right(predicted, line, at, at) == 0 && right(other, line, at, at) == 0);
}

proof fn lemma_right_agrees(a: Seq<u32>, b: Seq<u32>, line: Seq<u32>, from: int, to: int)
    requires
        forall|i: int| from <= i < to ==> a[i] == b[i],
    ensures
        right(a, line, from, to) == right(b, line, from, to),
    decreases to - from,
{
    if from < to {
        lemma_right_agrees(a, b, line, from, to - 1);
    }
}

/// Scores a line: how many places of the span were foretold rightly, and how
/// many there are.
pub fn score(predicted: &[u32], line: &[u32], from: usize, to: usize) -> (result: (usize, usize))
    requires
        to <= from || (to < line@.len() && to <= predicted@.len()),
    ensures
        result.0 == right(predicted@, line@, from as int, to as int),
        result.0 == hits(predicted@, line@, from as int, to as int).len(),
        result.1 == (if to <= from {
            0
        } else {
            to - from
        }),
        result.0 <= result.1,
{
    if to <= from {
        assert(hits(predicted@, line@, from as int, to as int) =~= Set::empty());
        return (0, 0);
    }
    proof {
        law_a_score_is_the_number_of_hits(predicted@, line@, from as int, to as int);
    }
    let mut good: usize = 0;
    let mut at: usize = from;
    while at < to
        invariant
            from <= at <= to,
            to < line@.len(),
            to <= predicted@.len(),
            good <= at - from,
            good == right(predicted@, line@, from as int, at as int),
        decreases to - at,
    {
        if predicted[at] == line[at + 1] {
            good = good + 1;
        }
        at += 1;
    }
    (good, to - from)
}

/// No letter among the first `vocab` has a higher score, and none behind it an
/// equal one.
pub open spec fn best_letter(scores: Seq<u32>, vocab: int, id: int) -> bool {
    &&& 0 <= id < vocab
    &&& id < scores.len()
    &&& forall|j: int|
        0 <= j < vocab && j < scores.len() ==> crate::decode::order_key(#[trigger] scores[j])
            <= crate::decode::order_key(scores[id])
    &&& forall|j: int|
        id < j < vocab && j < scores.len() ==> crate::decode::order_key(#[trigger] scores[j])
            < crate::decode::order_key(scores[id])
}

/// The letter with the highest score among the first `vocab`; of several the
/// last. Zero when there is none.
pub fn predicted_letter(scores: &[u32], vocab: usize) -> (id: u32)
    requires
        vocab <= u32::MAX,
    ensures
        scores@.len() == 0 || vocab == 0 ==> id == 0,
        scores@.len() > 0 && vocab > 0 ==> best_letter(scores@, vocab as int, id as int),
{
    let all: usize = scores.len();
    let n: usize = if all < vocab {
        all
    } else {
        vocab
    };
    if n == 0 {
        return 0;
    }
    let mut best: usize = 0;
    let mut best_key: i64 = total_key(scores[0]);
    for i in 1..n
        invariant
            n <= all == scores@.len(),
            n <= vocab,
            best < i,
            best < n,
            best_key == crate::decode::order_key(scores@[best as int]),
            forall|j: int|
                0 <= j < i ==> crate::decode::order_key(#[trigger] scores@[j]) <= best_key,
            forall|j: int|
                best < j < i ==> crate::decode::order_key(#[trigger] scores@[j]) < best_key,
    {
        let key: i64 = total_key(scores[i]);
        if key >= best_key {
            best = i;
            best_key = key;
        }
    }
    best as u32
}

/// The letter that is foretold at each place of a line.
pub open spec fn foretold(scores: Seq<u32>, width: int, vocab: int, at: int, id: u32) -> bool {
    let row = scores.subrange(at * width, (at + 1) * width);
    if row.len() == 0 || vocab == 0 {
        id == 0
    } else {
        best_letter(row, vocab, id as int)
    }
}

/// Scores one line: `scores` holds `width` numbers for each place of it.
/// Counts the places of the span that were foretold rightly, and all of them.
pub fn score_line(task: DigitTask, scores: &[u32], width: usize, line: &[u32]) -> (result: (
    usize,
    usize,
))
    requires
        line@.len() > 0,
        scores@.len() == line@.len() * width,
        forall|span: (int, int)| #[trigger]
            is_span(task, line@, span) ==> span.1 < line@.len(),
    ensures
        exists|span: (int, int), predicted: Seq<u32>|
            {
                &&& #[trigger] is_span(task, line@, span)
                &&& predicted.len() == line@.len()
                &&& forall|at: int|
                    0 <= at < line@.len() ==> foretold(
                        scores@,
                        width as int,
                        task.size() as int,
                        at,
                        #[trigger] predicted[at],
                    )
                &&& result.0 == #[trigger] right(predicted, line@, span.0, span.1)
                &&& result.0 == hits(predicted, line@, span.0, span.1).len()
                &&& result.1 == (if span.1 <= span.0 {
                    0
                } else {
                    span.1 - span.0
                })
            },
{
    let n: usize = line.len();
    let total: usize = scores.len();
    let vocab: usize = task.vocab();
    let mut predicted: Vec<u32> = Vec::new();
    for at in 0..n
        invariant
            n == line@.len(),
            total == scores@.len() == n * width,
            vocab == task.size(),
            predicted@.len() == at,
            forall|j: int|
                0 <= j < at ==> foretold(
                    scores@,
                    width as int,
                    task.size() as int,
                    j,
                    #[trigger] predicted@[j],
                ),
    {
        assert(0 <= at * width <= (at + 1) * width <= n * width && (at + 1) * width == at * width
            + width) by (nonlinear_arith)
            requires
                at < n,
        ;
        let row = vstd::slice::slice_subrange(scores, at * width, at * width + width);
        let id: u32 = predicted_letter(row, vocab);
        predicted.push(id);
    }
    let span = scored_span(task, line);
    proof {
        assert(is_span(task, line@, (span.0 as int, span.1 as int)));
    }
    let result = score(predicted.as_slice(), line, span.0, span.1);
    proof {
        assert(right(predicted@, line@, span.0 as int, span.1 as int) == result.0);
    }
    result
}

/// One letter is foretold: of several with the highest score the last.
pub proof fn law_one_letter_is_foretold(scores: Seq<u32>, vocab: int, a: int, b: int)
    requires
        best_letter(scores, vocab, a),
        0 <= b < vocab,
        b < scores.len(),
    ensures
        best_letter(scores, vocab, b) ==> a == b,
        crate::decode::order_key(scores[b]) <= crate::decode::order_key(scores[a]),
        b > a ==> crate::decode::order_key(scores[b]) < crate::decode::order_key(scores[a]),
{
    let key = crate::decode::order_key(scores[b]);
    if best_letter(scores, vocab, b) {
        assert(crate::decode::order_key(scores[a]) <= key);
        if b < a {
            assert(crate::decode::order_key(scores[a]) < key);
        }
    }
}

/// A model is evaluated when there are digits to ask for, it is the hybrid, its
/// vocabulary holds the letters, and its context a padded line.
pub proof fn law_models_that_are_evaluated(cfg: TrainConfig, task: DigitTask, max_digits: usize)
    ensures
        eval_error(cfg, task, max_digits) is None <==> {
            &&& max_digits > 0
            &&& cfg.architecture == Architecture::RosaRwkv7
            &&& cfg.vocab_size >= task.letters().len()
            &&& cfg.context_len >= padded(task.steps() as int)
        },
        padded(task.steps() as int) % 16 == 0,
        task.steps() <= padded(task.steps() as int) < task.steps() + 16,
        task.filler() == task.letters().len() - 1,
{
    reveal_strlit("0123456789,#");
    reveal_strlit("0123456789+-=");
}

/// Draws follow each other: drawing `a` times and then `b` times is drawing
/// `a + b` times.
pub proof fn law_draws_follow_each_other(state: u64, a: nat, b: nat)
    ensures
        state_after(state, 0) == state,
        state_after(state, 1) == crate::decode::mixer_step(state),
        state_after(state_after(state, a), b) == state_after(state, a + b),
    decreases b,
{
    reveal_with_fuel(state_after, 3);
    if b > 0 {
        law_draws_follow_each_other(state, a, (b - 1) as nat);
    }
}

/// The sums of a set are of two numbers of the lengths that are due, drawn one
/// after the other, and the sign is drawn behind them.
pub proof fn law_sums_have_the_lengths_that_are_due(digits: int, i: int, state: u64) -> (pair: (
    nat,
    nat,
    bool,
))
    requires
        1 <= digits <= 18,
        1 <= i < 2 * digits,
    ensures
        sum_line(digits, i, state) == equation(pair.0, pair.1, pair.2),
        crate::text::decimal(pair.0).len() == sum_digits(digits, i).0,
        crate::text::decimal(pair.1).len() == sum_digits(digits, i).1,
        pair.0 == drawn(sum_digits(digits, i).0 as nat, state_after(state, (3 * i - 3) as nat)),
        pair.1 == drawn(sum_digits(digits, i).1 as nat, state_after(state, (3 * i - 2) as nat)),
{
    let first = state_after(state, (3 * (i - 1)) as nat);
    let second = state_after(state, (3 * (i - 1) + 1) as nat);
    let third = state_after(state, (3 * (i - 1) + 2) as nat);
    let (aa, bb) = sum_digits(digits, i);
    law_drawn_numbers_have_their_digits(aa as nat, first);
    law_drawn_numbers_have_their_digits(bb as nat, second);
    (
        drawn(aa as nat, first) as nat,
        drawn(bb as nat, second) as nat,
        crate::decode::mixed(crate::decode::mixer_step(third)) & 1 == 0,
    )
}

/// A line without its marks is scored all the same: a reversal from its first
/// place to its last, a sum on the place behind the equals sign, or on the first
/// where it has none.
pub proof fn law_lines_without_marks(ids: Seq<u32>, span: (int, int), at: int)
    requires
        ids.len() > 0,
    ensures
        is_span(DigitTask::Reverse, ids, span) && (forall|j: int|
            0 <= j < ids.len() ==> #[trigger] ids[j] != 10 && ids[j] != 11) ==> span == (
            0int,
            ids.len() - 1,
        ),
        is_span(DigitTask::Plusminus, ids, span) && (forall|j: int|
            0 <= j < ids.len() ==> #[trigger] ids[j] != 12) ==> span == (0int, 1int),
        is_span(DigitTask::Plusminus, ids, span) && 0 <= at < ids.len() && ids[at] == 12 && (
        forall|j: int| 0 <= j < ids.len() && j != at ==> #[trigger] ids[j] != 12) ==> span == (
            at,
            at + 1,
        ),
{
}

/// What is foretold at a place is the best letter of the scores of that place.
pub proof fn law_each_place_has_its_own_scores(
    scores: Seq<u32>,
    width: int,
    vocab: int,
    at: int,
    id: u32,
    letter: int,
)
    requires
        0 <= at,
        0 < vocab,
        0 <= letter < vocab,
        letter < width,
        (at + 1) * width <= scores.len(),
        foretold(scores, width, vocab, at, id),
    ensures
        id < width,
        id < vocab,
        crate::decode::order_key(scores[at * width + letter]) <= crate::decode::order_key(
            scores[at * width + id],
        ),
{
    assert((at + 1) * width == at * width + width && 0 <= at * width) by (nonlinear_arith)
        requires
            0 <= at,
            0 < width,
    ;
    let row = scores.subrange(at * width, (at + 1) * width);
    assert(row.len() == width);
    assert(row[letter] == scores[at * width + letter]);
    assert(row[id as int] == scores[at * width + id]);
}

} // verus!

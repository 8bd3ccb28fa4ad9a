use ullis::config::{Architecture, TrainConfig};
use ullis::digits::{
    check_eval, digit_lines, encode_digit_line, get_randint, plusminus_line, predicted_letter,
    reverse_line, score, score_line, scored_span, wkv_pad_len, DigitTask, EvalError,
};

fn hybrid() -> TrainConfig {
    TrainConfig {
        architecture: Architecture::RosaRwkv7,
        vocab_size: 12,
        context_len: 144,
        ..TrainConfig::default()
    }
}

#[test]
fn lines_are_padded_to_sixteen() {
    assert_eq!(wkv_pad_len(129), 144);
    assert_eq!(wkv_pad_len(257), 272);
    assert_eq!(wkv_pad_len(16), 16);
}

#[test]
fn each_evaluation_error_has_its_cause() {
    let task = DigitTask::Reverse;
    assert_eq!(check_eval(&hybrid(), task, 8), Ok(144));
    assert_eq!(check_eval(&hybrid(), task, 0), Err(EvalError::NoDigits));
    assert_eq!(
        check_eval(&TrainConfig::default(), task, 8),
        Err(EvalError::Architecture)
    );
    assert_eq!(
        check_eval(&hybrid(), DigitTask::Plusminus, 8),
        Err(EvalError::Vocabulary)
    );
    let short = TrainConfig {
        context_len: 128,
        ..hybrid()
    };
    assert_eq!(check_eval(&short, task, 8), Err(EvalError::Context));
    let sums = TrainConfig {
        vocab_size: 13,
        context_len: 272,
        ..hybrid()
    };
    assert_eq!(check_eval(&sums, DigitTask::Plusminus, 8), Ok(272));
    let short = TrainConfig {
        context_len: 271,
        ..sums
    };
    assert_eq!(check_eval(&short, DigitTask::Plusminus, 8), Err(EvalError::Context));
}

#[test]
fn drawn_numbers_have_their_digits() {
    let mut rng = 1_u64;
    for digits in 1..=19 {
        for _ in 0..20 {
            let n = get_randint(digits, &mut rng);
            assert!(n.to_string().len() <= digits);
            if digits > 1 {
                assert_eq!(n.to_string().len(), digits);
            }
        }
    }
}

#[test]
fn exercises_are_written_out() {
    assert_eq!(reverse_line(1230), "1230,0321");
    assert_eq!(plusminus_line(12, 3, true), "12+3=15");
    assert_eq!(plusminus_line(3, 12, false), "3-12=-9");
    let mut rng = 7_u64;
    assert_eq!(digit_lines(DigitTask::Reverse, 3, &mut rng).len(), 10);
    let sums = digit_lines(DigitTask::Plusminus, 3, &mut rng);
    assert_eq!(sums.len(), 5);
    for line in sums {
        let (left, result) = line.split_once('=').unwrap();
        let at = left.find(|c| c == '+' || c == '-').unwrap();
        let a: i64 = left[..at].parse().unwrap();
        let b: i64 = left[at + 1..].parse().unwrap();
        let value = if &left[at..at + 1] == "+" { a + b } else { a - b };
        assert_eq!(result.parse::<i64>().unwrap(), value);
    }
}

#[test]
fn only_the_answer_is_scored() {
    let task = DigitTask::Reverse;
    let ids = encode_digit_line("12,21", task.alphabet(), task.pad(), 8);
    assert_eq!(ids, vec![1, 2, 10, 2, 1, 11, 11, 11]);
    assert_eq!(scored_span(task, &ids), (2, 5));
    let task = DigitTask::Plusminus;
    let ids = encode_digit_line("1+2=3", task.alphabet(), task.pad(), 8);
    assert_eq!(ids, vec![1, 10, 2, 12, 3, 12, 12, 12]);
    assert_eq!(scored_span(task, &ids), (3, 5));
    assert_eq!(score(&[0, 0, 0, 3, 9, 0, 0, 0], &ids, 3, 5), (1, 2));
    assert_eq!(score(&[], &ids, 5, 5), (0, 0));
}

#[test]
fn the_last_highest_score_is_foretold() {
    let bits: Vec<u32> = [1.0_f32, 2.0, 2.0, 9.0].iter().map(|v| v.to_bits()).collect();
    assert_eq!(predicted_letter(&bits, 3), 2);
    assert_eq!(predicted_letter(&bits, 4), 3);
    assert_eq!(predicted_letter(&[], 4), 0);
}

#[test]
fn a_perfect_model_scores_every_place() {
    let task = DigitTask::Reverse;
    let line = encode_digit_line("45,54", task.alphabet(), task.pad(), 16);
    let width = task.vocab();
    let mut scores = vec![0_u32; line.len() * width];
    for at in 0..line.len() - 1 {
        scores[at * width + line[at + 1] as usize] = 1.0_f32.to_bits();
    }
    assert_eq!(score_line(task, &scores, width, &line), (3, 3));
}

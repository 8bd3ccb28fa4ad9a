use ullis::data::{
    encode_supervised, encode_supervised_windows, encode_supervised_windows_ex, line_body,
    output_tag_len, pack_record, prefix_to_output_body, prefix_to_output_body_ex, ChatRecord,
    EncodedParts, SovereignFlashBuffer, MAX_TOKEN_BUF, TAG_OUTPUT, TAG_SYSTEM, TAG_THINKING,
    TAG_THINK_END, TAG_USER,
};
use ullis::feed::TokenFeed;
use ullis::random::rng_from_seed;

const EOS: u32 = 2;

/// One id for each tag and for each byte outside the tags.
fn encode(text: &str) -> Vec<u32> {
    let tags = [TAG_SYSTEM, TAG_USER, TAG_THINKING, TAG_THINK_END, TAG_OUTPUT];
    let mut ids = Vec::new();
    let mut at = 0;
    while at < text.len() {
        match tags.iter().position(|tag| text[at..].starts_with(tag)) {
            Some(k) => {
                ids.push(260 + k as u32);
                at += tags[k].len();
            }
            None => {
                ids.push(text.as_bytes()[at] as u32 + 4);
                at += 1;
            }
        }
    }
    ids
}

fn parts(rec: &ChatRecord) -> EncodedParts {
    let texts = rec.part_texts();
    EncodedParts::closed(
        encode(&texts.prefix),
        encode(&texts.thinking),
        encode(&texts.output),
        EOS,
    )
}

fn record(user: &str, thinking: &str, output: &str) -> ChatRecord {
    ChatRecord {
        system: "sys".into(),
        user: user.into(),
        thinking: thinking.into(),
        output: output.into(),
    }
}

#[test]
fn encode_supervised_clips_long_think_keeps_user() {
    let rec = record(
        "Write fn add that sums two i32",
        &"step ".repeat(800),
        "fn add(a: i32, b: i32) -> i32 { a + b }",
    );
    let seq = 48usize;
    let (ids, mask) = encode_supervised(&parts(&rec), seq);
    assert!(ids.len() <= seq + 1, "clipped len {}", ids.len());
    let prefix = encode(&pack_record(&rec.system, &rec.user, None, None));
    assert!(ids.len() >= prefix.len().min(seq));
    let n_pref = prefix.len().min(ids.len());
    assert!(
        mask.iter().take(n_pref).all(|&m| m == 0),
        "user prefix must be masked off so the window still conditions on it"
    );
    assert!(mask.contains(&1));
}

#[test]
fn encode_output_only_masks_thinking() {
    let rec = record("add", "long chain of thought about adding", "fn add() {}");
    let windows = encode_supervised_windows_ex(&parts(&rec), 128, true);
    let (ids, mask) = &windows[0];
    let n_think = encode(&format!(
        "{TAG_THINKING}\n{}\n{TAG_THINK_END}\n",
        rec.thinking.trim()
    ))
    .len();
    let n_pref = encode(&pack_record(&rec.system, &rec.user, None, None)).len();
    assert!(
        mask.iter().take(n_pref + n_think).all(|&m| m == 0),
        "thinking must be mask-0 in output-only mode"
    );
    assert!(mask.contains(&1), "output must be supervised");
    assert_eq!(ids.len(), mask.len());
}

#[test]
fn encode_supervised_does_not_keep_overlong_prefix() {
    let rec = record(
        &"problem statement ".repeat(400),
        &"reason ".repeat(400),
        "fn add(a: i32, b: i32) -> i32 { a + b }",
    );
    let seq = 48usize;
    let windows = encode_supervised_windows(&parts(&rec), seq);
    assert!(!windows.is_empty());
    for (ids, mask) in &windows {
        assert!(ids.len() <= seq + 1, "window len {}", ids.len());
        assert!(
            mask.iter().any(|&m| m != 0),
            "honest window must have supervised tokens"
        );
    }
    let out_ids = encode(&format!("{TAG_OUTPUT}\n{}\n", rec.output.trim()));
    let has_output = windows.iter().any(|(ids, _)| {
        ids.windows(out_ids.len()).any(|w| w == out_ids.as_slice())
            || out_ids.iter().any(|t| ids.contains(t))
    });
    assert!(has_output, "some window must include the answer");
}

#[test]
fn flash_buffer_is_contiguous() {
    let mut b = SovereignFlashBuffer::new(64);
    for i in 0..80u32 {
        b.push(i, 1);
    }
    assert_eq!(b.len(), 64);
    b.compact();
    let span = b.token_span();
    assert_eq!(span.len(), 64);
    assert_eq!(span[0], 16);
    assert_eq!(span[63], 79);
    b.drain_front(4);
    assert_eq!(b.token_span()[0], 20);
    b.clear();
    assert!(b.is_empty());
}

#[test]
fn a_record_that_fits_is_one_window_with_a_masked_prompt() {
    let parts = EncodedParts::closed(vec![10, 11], vec![12], vec![13], EOS);
    assert_eq!(parts.output.last(), Some(&EOS));
    let total = parts.prefix.len() + parts.thinking.len() + parts.output.len();
    let windows = encode_supervised_windows(&parts, total);
    assert_eq!(windows.len(), 1);
    assert_eq!(windows[0].0[..4], [10, 11, 12, 13]);
    assert_eq!(windows[0].1[..4], [0, 0, 1, 1]);
}

#[test]
fn a_record_is_packed_under_its_tags() {
    let rec = record("hi", "hm", "ho");
    let text = rec.pack();
    assert_eq!(
        text,
        "<|system|>\nsys\n<|user|>\nhi\n<|thinking|>\nhm\n<|/thinking|>\n<|output|>\nho\n"
    );
    let texts = rec.part_texts();
    assert_eq!(
        format!("{}{}{}", texts.prefix, texts.thinking, texts.output),
        text
    );
    assert!(rec.is_usable());
    let empty = ChatRecord {
        system: String::new(),
        user: String::new(),
        thinking: "only this".into(),
        output: String::new(),
    };
    assert!(!empty.is_usable());
}

#[test]
fn blank_lines_hold_no_record() {
    assert_eq!(line_body("  {}  \n"), Some("{}"));
    assert_eq!(line_body(" \n"), None);
}

#[test]
fn a_ring_forgets_its_oldest_tokens() {
    let mut ring = SovereignFlashBuffer::new(64);
    let ids: Vec<u32> = (0..100).collect();
    let mask: Vec<u8> = (0..100).map(|i| (i % 2) as u8).collect();
    ring.extend(&ids, &mask);
    assert_eq!(ring.len(), ring.cap());
    let (window, masks) = ring.window(0, 3);
    assert_eq!(window, vec![36, 37, 38]);
    assert_eq!(masks, vec![0, 1, 0]);
    ring.load_tokens(&[7, 8]);
    ring.compact();
    assert_eq!(ring.token_span(), &[7, 8]);
}

#[test]
fn the_cut_before_an_answer_ends_at_the_output_tag() {
    let parts = EncodedParts {
        prefix: vec![1, 2],
        thinking: vec![3],
        output: vec![10, 11, 12, EOS],
    };
    let none: Vec<String> = Vec::new();
    assert_eq!(
        prefix_to_output_body(&parts, &[10, 11], &none),
        vec![1, 2, 3, 10, 11]
    );
    let decoded: Vec<String> = ["<|out", "<|output|>\n", "<|output|>\n \t"]
        .iter()
        .map(|text| text.to_string())
        .collect();
    assert_eq!(output_tag_len(&parts.output, &[9], &decoded), 3);
    assert_eq!(
        prefix_to_output_body_ex(&parts, &[9], &decoded, true),
        vec![1, 2, 3, 10, 11, 12]
    );
    let cut = |texts: [&str; 3]| -> usize {
        let decoded: Vec<String> = texts.iter().map(|text| text.to_string()).collect();
        output_tag_len(&parts.output, &[9], &decoded)
    };
    assert_eq!(cut(["<|output|>yes", "<|output|>", "<|output|>"]), 1);
    assert_eq!(cut(["no tag", "<|output|>  \n", "<|output|> x"]), 2);
    assert_eq!(cut(["x<|output|> <|output|>y", "<|output|>z", "<|output|>"]), 1);
    assert_eq!(cut(["<|output|>", " <|output|> <|output|>y", "<|output|>z"]), 2);
    assert_eq!(output_tag_len(&[], &[9], &none), 0);
}

#[test]
fn next_seq_skips_unsupervised_prefix_on_long_user() {
    let rec = ChatRecord {
        system: "sys".into(),
        user: "user turn ".repeat(200),
        thinking: "think step ".repeat(200),
        output: "fn ok() {}".into(),
    };
    let mut feed = TokenFeed::new(32, MAX_TOKEN_BUF, EOS);
    feed.begin_refill();
    let mut rng = rng_from_seed(1);
    let windows = feed.add_record(&parts(&rec), &mut rng);
    assert!(!feed.wants_more());
    let seq = feed.take_seq().unwrap();
    let n_sup = seq.loss_mask.iter().filter(|&&m| m != 0).count();
    assert!(n_sup > 0, "next_seq must not return an all-zero CE mask");
    // Every further window of the record comes whole, and is learned from.
    for (ids, _) in windows.iter().skip(1) {
        let seq = feed.take_seq().unwrap();
        assert_eq!(seq.x[..ids.len() - 1], ids[..ids.len() - 1]);
        assert!(seq.loss_mask.iter().any(|&m| m != 0));
    }
    assert!(feed.wants_more());
}

#[test]
fn windows_are_contiguous_runs_of_the_record() {
    let parts = EncodedParts {
        prefix: vec![1],
        thinking: vec![2],
        output: vec![3, 4, 5, 6, 7, 9],
    };
    assert_eq!(
        encode_supervised_windows(&parts, 3),
        vec![
            (vec![1, 2], vec![0, 1]),
            (vec![1, 2, 3, 4], vec![0, 0, 1, 1]),
            (vec![5, 6, 7, 9], vec![1, 1, 1, 1]),
        ]
    );
    assert_eq!(
        encode_supervised_windows_ex(&parts, 3, true),
        vec![
            (vec![1, 2, 3, 4], vec![0, 0, 1, 1]),
            (vec![5, 6, 7, 9], vec![1, 1, 1, 1]),
        ]
    );
    let sizes: [(u32, u32, u32); 5] = [(5, 90, 7), (40, 3, 70), (0, 0, 33), (70, 0, 20), (20, 300, 40)];
    for (a, b, c) in sizes {
        let parts = EncodedParts {
            prefix: (0..a).collect(),
            thinking: (1000..1000 + b).collect(),
            output: (2000..2000 + c).collect(),
        };
        let mut record = parts.prefix.clone();
        record.extend(&parts.thinking);
        record.extend(&parts.output);
        for seq_len in [1, 7, 16, 31] {
            for output_only in [false, true] {
                let windows = encode_supervised_windows_ex(&parts, seq_len, output_only);
                assert!(!windows.is_empty());
                for (ids, mask) in &windows {
                    assert!(record.windows(ids.len()).any(|run| run == ids.as_slice()));
                    assert_eq!(ids.len(), mask.len());
                    assert!(mask.contains(&1));
                }
            }
        }
    }
}

#[test]
fn an_answer_that_is_broken_off_is_seen_to_its_end() {
    let parts = EncodedParts {
        prefix: vec![1, 2, 3, 4, 5, 6, 7, 8],
        thinking: vec![9],
        output: vec![20, 21, 22, 23, 24, 25, 26, 27],
    };
    assert_eq!(
        encode_supervised_windows(&parts, 7),
        vec![
            (vec![2, 3, 4, 5, 6, 7, 8, 9], vec![0, 0, 0, 0, 0, 0, 0, 1]),
            (vec![8, 9, 20, 21, 22, 23, 24, 25], vec![0, 0, 1, 1, 1, 1, 1, 1]),
            (vec![20, 21, 22, 23, 24, 25, 26, 27], vec![1; 8]),
        ]
    );
    let short = EncodedParts {
        prefix: vec![1, 2, 3],
        thinking: vec![9],
        output: vec![20, 21],
    };
    assert_eq!(
        encode_supervised_windows(&short, 4),
        vec![
            (vec![1, 2, 3, 9], vec![0, 0, 0, 1]),
            (vec![1, 2, 3, 9, 20], vec![0, 0, 0, 0, 1]),
            (vec![2, 3, 9, 20, 21], vec![0, 0, 0, 1, 1]),
        ]
    );
}

#[test]
fn an_answer_that_is_seen_whole_has_no_further_window() {
    let parts = EncodedParts {
        prefix: vec![1, 2, 3, 4, 5, 6, 7, 8],
        thinking: vec![9],
        output: vec![20, 21, 22],
    };
    let windows = encode_supervised_windows(&parts, 7);
    assert_eq!(windows.len(), 2);
    assert_eq!(windows[1].0, vec![5, 6, 7, 8, 9, 20, 21, 22]);
    assert_eq!(windows[1].1, vec![0, 0, 0, 0, 0, 1, 1, 1]);
}

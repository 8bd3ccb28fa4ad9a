use ullis::chat::{
    bridge_texts, earliest_tag, emit_ops, hold_len, max_new_setting, output_stops, read_command,
    thinking_setting, thinking_stops, trim_ctx, turn_opening, Command, Lane, PaintOp, PaintScan,
    Setting, TagKind, ThinkingMode, ANSI_OUTPUT, ANSI_RESET,
};

#[test]
fn split_tag_across_tokens_closes_think() {
    let mut p = PaintScan::new(true);
    let a = p.feed("check braces { } <|/");
    assert!(a.iter().any(|op| matches!(op, PaintOp::Banner)));
    assert!(a.iter().any(|op| matches!(op, PaintOp::Think(_))));
    assert!(!a.iter().any(|op| matches!(op, PaintOp::Divider)));
    let b = p.feed("thinking|>\nfn add() {}");
    assert!(b.iter().any(|op| matches!(op, PaintOp::Divider)));
    assert!(b
        .iter()
        .any(|op| matches!(op, PaintOp::Output(s) if s.contains("fn add"))));
    assert_eq!(p.lane, Lane::Output);
    assert!(p.output_text.contains("fn add() {}"));
    assert!(!a
        .iter()
        .any(|op| matches!(op, PaintOp::Think(s) if s.contains("fn add"))));
}

#[test]
fn html_think_end_also_divides() {
    let mut p = PaintScan::new(true);
    let _ = p.feed("lifetime of s: &str");
    let ops = p.feed("</thinking>\npub fn f(s: &str) -> usize { s.len() }");
    assert!(ops.iter().any(|op| matches!(op, PaintOp::Divider)));
    assert!(p.output_text.contains("pub fn f"));
}

#[test]
fn rust_generic_lt_is_not_a_tag() {
    let mut p = PaintScan::new(true);
    let ops = p.feed("Vec<i32> map");
    assert!(ops
        .iter()
        .any(|op| matches!(op, PaintOp::Think(s) if s.contains("Vec<i32>"))));
    assert!(!ops.iter().any(|op| matches!(op, PaintOp::Divider)));
    assert_eq!(p.lane, Lane::Think);
}

#[test]
fn low_mode_skips_banner() {
    let mut p = PaintScan::new(false);
    let ops = p.feed("print(1)\n");
    assert!(!ops.iter().any(|op| matches!(op, PaintOp::Banner)));
    assert!(ops.iter().any(|op| matches!(op, PaintOp::Output(_))));
}

fn shown(ops: &[PaintOp]) -> String {
    let mut out = String::new();
    for op in ops {
        match op {
            PaintOp::Banner => out.push('B'),
            PaintOp::Think(s) => out.push_str(s),
            PaintOp::Divider => out.push('D'),
            PaintOp::Output(s) => out.push_str(s),
            PaintOp::Reset => out.push('R'),
        }
    }
    out
}

#[test]
fn pieces_may_be_cut_anywhere() {
    let text = "plan <|/thinking|>answer <b> done";
    let mut whole = PaintScan::new(true);
    let mut first = shown(&whole.feed(text));
    first.push_str(&shown(&whole.finish()));
    for cut in 0..=text.len() {
        let mut scan = PaintScan::new(true);
        let mut seen = shown(&scan.feed(&text[..cut]));
        seen.push_str(&shown(&scan.feed(&text[cut..])));
        seen.push_str(&shown(&scan.finish()));
        assert_eq!(seen, first, "cut at {cut}");
        assert_eq!(scan.output_text, whole.output_text);
    }
    assert_eq!(whole.output_text, "answer <b> done");
}

#[test]
fn tags_are_found_and_half_tags_are_held() {
    let text: Vec<char> = "ab<|output|>".chars().collect();
    let hit = earliest_tag(&text).unwrap();
    assert_eq!((hit.at, hit.len), (2, 10));
    assert!(matches!(hit.kind, TagKind::Output));
    let half: Vec<char> = "ab<|out".chars().collect();
    assert!(earliest_tag(&half).is_none());
    assert_eq!(hold_len(&half), 5);
    let plain: Vec<char> = "ab".chars().collect();
    assert_eq!(hold_len(&plain), 0);
}

#[test]
fn uncoloured_ops_are_plain_text() {
    let ops = vec![PaintOp::Output("x = 1".to_string())];
    assert_eq!(emit_ops(false, &ops), "x = 1");
    assert!(emit_ops(true, &ops).contains("x = 1"));
}

#[test]
fn context_is_cut_to_its_end() {
    let mut ctx: Vec<u32> = (0..10).collect();
    trim_ctx(&mut ctx, 4);
    assert_eq!(ctx, vec![6, 7, 8, 9]);
    trim_ctx(&mut ctx, 8);
    assert_eq!(ctx, vec![6, 7, 8, 9]);
}

#[test]
fn thoughts_and_output_come_to_an_end() {
    assert!(thinking_stops(2, 2, ""));
    assert!(thinking_stops(5, 2, "so it is <|/thinking|>"));
    assert!(!thinking_stops(5, 2, "so it is"));
    assert!(output_stops(2, 2, "", 1));
}

#[test]
fn open_thoughts_are_closed_before_the_output_tag() {
    assert_eq!(
        bridge_texts("half a thought"),
        vec!["<|/thinking|>\n".to_string(), "<|output|>\n".to_string()]
    );
    assert_eq!(
        bridge_texts("done <|/thinking|>"),
        vec!["<|output|>\n".to_string()]
    );
}

#[test]
fn a_scan_can_be_told_to_leave_the_thoughts() {
    let mut scan = PaintScan::new(true);
    let _ = scan.feed("still thinking");
    let ops = scan.leave_thinking();
    assert!(ops.iter().any(|op| matches!(op, PaintOp::Divider)));
    assert_eq!(scan.lane, Lane::Output);
    assert!(scan.leave_thinking().is_empty());
}

#[test]
fn commands_are_read_from_a_line() {
    assert!(matches!(read_command("  \n"), Command::Nothing));
    assert!(matches!(read_command("/quit\n"), Command::Exit));
    assert!(matches!(read_command("/q"), Command::Exit));
    assert!(matches!(read_command("/?"), Command::Help));
    assert!(matches!(read_command("/clear"), Command::Clear));
    assert!(matches!(read_command("/stats"), Command::Stats));
    assert!(matches!(read_command("/thinking high\n"), Command::Thinking(a) if a == "high"));
    assert!(matches!(read_command("/system be kind"), Command::System(a) if a == "be kind"));
    assert!(matches!(read_command("/temp 0.7"), Command::Temperature(a) if a == "0.7"));
    assert!(matches!(read_command("/max"), Command::MaxNew(a) if a.is_empty()));
    assert!(matches!(read_command(" hello\n"), Command::Prompt(a) if a == " hello"));
}

#[test]
fn settings_are_shown_changed_or_explained() {
    assert!(matches!(max_new_setting(""), Setting::Show));
    assert!(matches!(max_new_setting("0"), Setting::Change(1)));
    assert!(matches!(max_new_setting("120"), Setting::Change(120)));
    assert!(matches!(max_new_setting("many"), Setting::Usage));
    assert!(matches!(thinking_setting(""), Setting::Show));
    assert!(matches!(
        thinking_setting("low"),
        Setting::Change(ThinkingMode::Low)
    ));
    assert!(matches!(thinking_setting("lots"), Setting::Usage));
    for mode in [
        ThinkingMode::Low,
        ThinkingMode::Medium,
        ThinkingMode::High,
        ThinkingMode::XHigh,
    ] {
        assert_eq!(ThinkingMode::from_name(mode.as_str()), Some(mode));
    }
}

#[test]
fn an_answer_without_thoughts_opens_in_its_colour() {
    assert_eq!(turn_opening(true, 0), "\x1b[1;32m");
    assert_eq!(turn_opening(true, 0), ANSI_OUTPUT);
    assert_eq!(turn_opening(true, 8), "");
    assert_eq!(turn_opening(false, 0), "");
    assert_eq!(emit_ops(true, &vec![PaintOp::Reset]), ANSI_RESET);
    assert_eq!(emit_ops(false, &vec![PaintOp::Divider]), "\n└──\n");
}

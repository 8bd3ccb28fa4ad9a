use ullis::session::{read_line, Line, ThinkingLevel};

#[test]
fn lines_ask_for_what_they_say() {
    assert_eq!(read_line("/quit"), Line::Quit);
    assert_eq!(read_line("/save"), Line::Save);
    assert_eq!(read_line("/think xhigh"), Line::Think(ThinkingLevel::Xhigh));
    assert_eq!(read_line("/think off"), Line::Think(ThinkingLevel::Off));
    assert_eq!(read_line("/think lots"), Line::UnknownLevel);
    assert_eq!(read_line("/think"), Line::Say);
    assert_eq!(read_line("/quit now"), Line::Say);
    assert_eq!(read_line("hello"), Line::Say);
}

#[test]
fn a_reply_notes_its_level() {
    assert_eq!(ThinkingLevel::Medium.requested(), "requested:Medium");
    assert_eq!(ThinkingLevel::named("low"), Some(ThinkingLevel::Low));
}

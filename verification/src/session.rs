//! A chat session: what a line typed by the user asks for.
use vstd::prelude::*;
use vstd::string::*;
use crate::text::{same_text, strip_prefix};

verus! {

/// How much thinking was asked for.
#[derive(Clone, Copy, Debug, PartialEq, Eq, Structural)]
pub enum ThinkingLevel {
    Low,
    Medium,
    High,
    Xhigh,
    Off,
}

impl ThinkingLevel {
    /// The word for the level.
    pub open spec fn word(self) -> Seq<char> {
        match self {
            ThinkingLevel::Low => "low"@,
            ThinkingLevel::Medium => "medium"@,
            ThinkingLevel::High => "high"@,
            ThinkingLevel::Xhigh => "xhigh"@,
            ThinkingLevel::Off => "off"@,
        }
    }

    /// What is noted about a reply to a request at this level.
    pub open spec fn note(self) -> Seq<char> {
        match self {
            ThinkingLevel::Low => "requested:Low"@,
            ThinkingLevel::Medium => "requested:Medium"@,
            ThinkingLevel::High => "requested:High"@,
            ThinkingLevel::Xhigh => "requested:Xhigh"@,
            ThinkingLevel::Off => "requested:Off"@,
        }
    }

    /// What is noted about a reply to a request at this level.
    pub fn requested(self) -> (text: &'static str)
        ensures
            text@ == self.note(),
    {
        match self {
            ThinkingLevel::Low => "requested:Low",
            ThinkingLevel::Medium => "requested:Medium",
            ThinkingLevel::High => "requested:High",
            ThinkingLevel::Xhigh => "requested:Xhigh",
            ThinkingLevel::Off => "requested:Off",
        }
    }

    /// The level of that word.
    pub fn named(word: &str) -> (level: Option<ThinkingLevel>)
        ensures
            match level {
                Some(l) => word@ == l.word(),
                None => forall|l: ThinkingLevel| word@ != #[trigger] l.word(),
            },
    {
        if same_text(word, "low") {
            Some(ThinkingLevel::Low)
        } else if same_text(word, "medium") {
            Some(ThinkingLevel::Medium)
        } else if same_text(word, "high") {
            Some(ThinkingLevel::High)
        } else if same_text(word, "xhigh") {
            Some(ThinkingLevel::Xhigh)
        } else if same_text(word, "off") {
            Some(ThinkingLevel::Off)
        } else {
            None
        }
    }
}

/// No two levels share a word.
pub proof fn law_levels_have_their_own_words(a: ThinkingLevel, b: ThinkingLevel)
    requires
        a.word() == b.word(),
    ensures
        a == b,
{
    reveal_strlit("low");
    reveal_strlit("medium");
    reveal_strlit("high");
    reveal_strlit("xhigh");
    reveal_strlit("off");
    assert("low"@.len() == 3 && "off"@.len() == 3 && "high"@.len() == 4 && "xhigh"@.len() == 5
        && "medium"@.len() == 6);
    assert("low"@[0] == 'l' && "off"@[0] == 'o');
    assert(a.word().len() == b.word().len());
    assert(a.word()[0] == b.word()[0]);
}

/// What a line asks for.
#[derive(Clone, Copy, Debug, PartialEq, Eq, Structural)]
pub enum Line {
    Quit,
    Save,
    Think(ThinkingLevel),
    /// A level was asked for that there is not.
    UnknownLevel,
    /// Anything else is said to the model, word for word.
    Say,
}

/// The text of a request for a level.
pub const THINK: &'static str = "/think ";

/// What a line asks for.
pub open spec fn asks(line: Seq<char>, asked: Line) -> bool {
    let request = THINK@.len() <= line.len() && line.take(THINK@.len() as int) == THINK@;
    let word = line.skip(THINK@.len() as int);
    match asked {
        Line::Quit => line == "/quit"@,
        Line::Save => line != "/quit"@ && line == "/save"@,
        Line::Think(level) => line != "/quit"@ && line != "/save"@ && request && word
            == level.word(),
        Line::UnknownLevel => line != "/quit"@ && line != "/save"@ && request && forall|
            l: ThinkingLevel,
        |
            word != #[trigger] l.word(),
        Line::Say => line != "/quit"@ && line != "/save"@ && !request,
    }
}

/// Reads a line.
pub fn read_line(line: &str) -> (asked: Line)
    ensures
        asks(line@, asked),
{
    if same_text(line, "/quit") {
        return Line::Quit;
    }
    if same_text(line, "/save") {
        return Line::Save;
    }
    match strip_prefix(line, THINK) {
        Some(word) => {
            assert(word@ =~= line@.skip(THINK@.len() as int));
            assert(line@.take(THINK@.len() as int) =~= THINK@);
            match ThinkingLevel::named(word) {
                Some(level) => Line::Think(level),
                None => Line::UnknownLevel,
            }
        },
        None => Line::Say,
    }
}

/// A line asks for one thing only.
pub proof fn law_a_line_asks_for_one_thing(line: Seq<char>, a: Line, b: Line)
    requires
        asks(line, a),
        asks(line, b),
    ensures
        a == b,
{
    match (a, b) {
        (Line::Think(x), Line::Think(y)) => {
            law_levels_have_their_own_words(x, y);
        },
        (Line::Think(x), Line::UnknownLevel) => {
            assert(line.skip(THINK@.len() as int) != x.word());
        },
        (Line::UnknownLevel, Line::Think(x)) => {
            assert(line.skip(THINK@.len() as int) != x.word());
        },
        _ => {},
    }
}

} // verus!

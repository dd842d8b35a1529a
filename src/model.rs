//! The line classifier as a pure transition: the states of a diff stream, the
//! events it produces, and the step from one line to the next state.

use vstd::prelude::*;

use crate::parse::{change_description, diff_extension, hunk_code_fragment, hunk_line_number};
use crate::text::has_prefix;

verus! {

/// Where in a diff the stream is.
#[derive(Debug, Clone, Copy, PartialEq, Eq, Structural)]
pub enum State {
    /// In the commit metadata section.
    CommitMeta,
    /// In the file metadata section, between the commit metadata and the
    /// first hunk.
    FileMeta,
    /// On a hunk header line.
    HunkMeta,
    /// In a hunk, on an unchanged line.
    HunkZero,
    /// In a hunk, on a removed line.
    HunkMinus,
    /// In a hunk, on an added line.
    HunkPlus,
    Unknown,
}

impl State {
    pub open spec fn in_hunk(self) -> bool {
        self is HunkMeta || self is HunkZero || self is HunkMinus || self is HunkPlus
    }

    /// Whether the state lies inside a hunk.
    pub fn is_in_hunk(&self) -> (r: bool)
        ensures
            r == self.in_hunk(),
    {
        match *self {
            State::HunkMeta | State::HunkZero | State::HunkMinus | State::HunkPlus => true,
            _ => false,
        }
    }
}

/// How the header of a region is drawn.
#[derive(Debug, Clone, Copy, PartialEq, Eq, Structural)]
pub enum SectionStyle {
    /// In a bordered block.
    Box,
    /// Above a single rule.
    Underline,
    /// Not at all: the raw line passes through.
    Plain,
}

/// What the classifier reads of the configuration.
#[derive(Debug, Clone, Copy, PartialEq, Eq)]
pub struct Config {
    pub commit_style: SectionStyle,
    pub file_style: SectionStyle,
    pub hunk_style: SectionStyle,
    /// The width to which body lines are padded, if any.
    pub width: Option<usize>,
}

/// An event of the output stream, as plain text.
pub enum EventView {
    CommitHeader(Seq<char>),
    FileHeader(Seq<char>, Seq<char>),
    HunkHeader(Seq<char>, Seq<char>, Seq<char>),
    Raw(Seq<char>),
    Context(Seq<char>),
    Buffered(Seq<Seq<char>>, Seq<Seq<char>>),
}

/// The state of a stream driver: its configuration, the extensions that
/// have a syntax, the current state, the pending removed and added lines,
/// and whether a syntax is selected for the current file.
pub struct DriverView {
    pub config: Config,
    pub extensions: Seq<Seq<char>>,
    pub state: State,
    pub minus: Seq<Seq<char>>,
    pub plus: Seq<Seq<char>>,
    pub syntax: bool,
}

/// A fresh driver.
pub open spec fn initial(config: Config, extensions: Seq<Seq<char>>) -> DriverView {
    DriverView {
        config,
        extensions,
        state: State::Unknown,
        minus: Seq::empty(),
        plus: Seq::empty(),
        syntax: false,
    }
}

/// Pending lines are removed lines followed by added lines, kept only while
/// the state is `HunkMinus` (removed lines alone) or `HunkPlus`; those two
/// states are reached only where a syntax is selected.
pub open spec fn buffer_wf(m: DriverView) -> bool {
    &&& (m.state is HunkMinus || m.state is HunkPlus) ==> m.syntax
    &&& !(m.state is HunkPlus) ==> m.plus.len() == 0
    &&& !(m.state is HunkMinus || m.state is HunkPlus) ==> m.minus.len() == 0
}

pub open spec fn commit_mark() -> Seq<char> {
    seq!['c', 'o', 'm', 'm', 'i', 't']
}

pub open spec fn diff_mark() -> Seq<char> {
    seq!['d', 'i', 'f', 'f', ' ', '-', '-']
}

pub open spec fn hunk_mark() -> Seq<char> {
    seq!['@', '@']
}

/// A body line with its marker replaced by a space, right-padded with spaces
/// to the width where one is set; the width counts characters. An empty line
/// stays empty, whatever the width.
pub open spec fn prepared(line: Seq<char>, width: Option<usize>) -> Seq<char> {
    if line.len() == 0 {
        Seq::empty()
    } else {
        let base = seq![' '] + line.drop_first();
        match width {
            Some(w) => if base.len() < w {
                base + Seq::new((w - base.len()) as nat, |i: int| ' ')
            } else {
                base
            },
            None => base,
        }
    }
}

/// What a flush emits: nothing where no line is pending, else one batch.
pub open spec fn flush_events(minus: Seq<Seq<char>>, plus: Seq<Seq<char>>) -> Seq<EventView> {
    if minus.len() == 0 && plus.len() == 0 {
        Seq::empty()
    } else {
        seq![EventView::Buffered(minus, plus)]
    }
}

/// Whether a syntax is known for the extension of a file-pair header.
pub open spec fn syntax_for(extensions: Seq<Seq<char>>, line: Seq<char>) -> bool {
    match diff_extension(line) {
        Some(e) => extensions.contains(e),
        None => false,
    }
}

/// `m` with its state set and its pending lines cleared.
pub open spec fn enter(m: DriverView, state: State) -> DriverView {
    DriverView { state, minus: Seq::empty(), plus: Seq::empty(), ..m }
}

/// One body line in a hunk, where a syntax is selected.
pub open spec fn body_step(m: DriverView, line: Seq<char>) -> (DriverView, Seq<EventView>) {
    let p = prepared(line, m.config.width);
    if line.len() > 0 && line[0] == '-' {
        if m.state is HunkPlus {
            (
                DriverView { state: State::HunkMinus, minus: seq![p], plus: Seq::empty(), ..m },
                flush_events(m.minus, m.plus),
            )
        } else {
            (DriverView { state: State::HunkMinus, minus: m.minus.push(p), ..m }, Seq::empty())
        }
    } else if line.len() > 0 && line[0] == '+' {
        (DriverView { state: State::HunkPlus, plus: m.plus.push(p), ..m }, Seq::empty())
    } else {
        (enter(m, State::HunkZero), flush_events(m.minus, m.plus) + seq![EventView::Context(p)])
    }
}

/// One input line: `raw` as it came, `line` with its escape sequences removed.
pub open spec fn step_spec(m: DriverView, raw: Seq<char>, line: Seq<char>) -> (
    DriverView,
    Seq<EventView>,
) {
    if has_prefix(line, commit_mark()) {
        (
            enter(m, State::CommitMeta),
            flush_events(m.minus, m.plus) + seq![
                if m.config.commit_style is Plain {
                    EventView::Raw(raw)
                } else {
                    EventView::CommitHeader(raw)
                },
            ],
        )
    } else if has_prefix(line, diff_mark()) {
        (
            DriverView { syntax: syntax_for(m.extensions, line), ..enter(m, State::FileMeta) },
            flush_events(m.minus, m.plus) + seq![
                if m.config.file_style is Plain {
                    EventView::Raw(raw)
                } else {
                    EventView::FileHeader(raw, change_description(line))
                },
            ],
        )
    } else if has_prefix(line, hunk_mark()) {
        (
            enter(m, State::HunkMeta),
            flush_events(m.minus, m.plus) + seq![
                if m.config.hunk_style is Plain {
                    EventView::Raw(raw)
                } else {
                    EventView::HunkHeader(raw, hunk_code_fragment(line), hunk_line_number(line))
                },
            ],
        )
    } else if m.state.in_hunk() && m.syntax {
        body_step(m, line)
    } else if m.state is FileMeta && !(m.config.file_style is Plain) {
        (m, Seq::empty())
    } else {
        (m, seq![EventView::Raw(raw)])
    }
}

/// The driver after the lines `ls`, each a raw line and its stripped text,
/// and the events they produced, before the final flush.
pub open spec fn run(m: DriverView, ls: Seq<(Seq<char>, Seq<char>)>) -> (
    DriverView,
    Seq<EventView>,
)
    decreases ls.len(),
{
    if ls.len() == 0 {
        (m, Seq::empty())
    } else {
        let (m1, e1) = run(m, ls.drop_last());
        let (m2, e2) = step_spec(m1, ls.last().0, ls.last().1);
        (m2, e1 + e2)
    }
}

/// Every event of a whole stream, the final flush included.
pub open spec fn run_all(m: DriverView, ls: Seq<(Seq<char>, Seq<char>)>) -> Seq<EventView> {
    let (m1, e) = run(m, ls);
    e + flush_events(m1.minus, m1.plus)
}

} // verus!

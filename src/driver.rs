//! The stream driver: it owns the current state, the hunk buffer and the
//! selected syntax, and turns each input line into output events.

use vstd::prelude::*;

use crate::model::{
    body_step, buffer_wf, commit_mark, diff_mark, flush_events, hunk_mark, initial, prepared,
    run, run_all, step_spec, syntax_for, Config, DriverView, EventView, SectionStyle, State,
};
use crate::parse::{
    get_file_change_description_from_diff_line, get_file_extension_from_diff_line,
    parse_hunk_metadata,
};
use crate::text::{begins_with, same_chars, to_chars};

verus! {

/// An event of the output stream.
#[derive(Debug)]
pub enum Emit {
    /// A commit line, to be drawn as a header.
    CommitHeader { line: String },
    /// A file-pair header line, to be drawn as its change description.
    FileHeader { line: String, description: String },
    /// A hunk header line, to be drawn as its code fragment and line number.
    HunkHeader { line: String, code_fragment: String, line_number: String },
    /// A line to be written as it came.
    Raw { line: String },
    /// An unchanged hunk line, prepared, to be painted alone.
    Context { line: String },
    /// Removed lines and the added lines that followed them, prepared, to be
    /// painted as a pair.
    Buffered { minus: Vec<String>, plus: Vec<String> },
}

pub open spec fn lines_view(v: Seq<String>) -> Seq<Seq<char>> {
    v.map_values(|s: String| s@)
}

pub open spec fn events_view(v: Seq<Emit>) -> Seq<EventView> {
    v.map_values(|e: Emit| e@)
}

impl View for Emit {
    type V = EventView;

    open spec fn view(&self) -> EventView {
        match self {
            Emit::CommitHeader { line } => EventView::CommitHeader(line@),
            Emit::FileHeader { line, description } => EventView::FileHeader(line@, description@),
            Emit::HunkHeader { line, code_fragment, line_number } => EventView::HunkHeader(
                line@,
                code_fragment@,
                line_number@,
            ),
            Emit::Raw { line } => EventView::Raw(line@),
            Emit::Context { line } => EventView::Context(line@),
            Emit::Buffered { minus, plus } => EventView::Buffered(
                lines_view(minus@),
                lines_view(plus@),
            ),
        }
    }
}

/// The removed and added lines awaiting a paired paint.
pub struct HunkBuffer {
    minus_lines: Vec<String>,
    plus_lines: Vec<String>,
}

impl HunkBuffer {
    pub closed spec fn minus(&self) -> Seq<Seq<char>> {
        lines_view(self.minus_lines@)
    }

    pub closed spec fn plus(&self) -> Seq<Seq<char>> {
        lines_view(self.plus_lines@)
    }

    /// An empty buffer.
    pub fn new() -> (r: HunkBuffer)
        ensures
            r.minus() == Seq::<Seq<char>>::empty(),
            r.plus() == Seq::<Seq<char>>::empty(),
    {
        let r = HunkBuffer { minus_lines: Vec::new(), plus_lines: Vec::new() };
        assert(r.minus() =~= Seq::<Seq<char>>::empty());
        assert(r.plus() =~= Seq::<Seq<char>>::empty());
        r
    }

    pub fn push_minus(&mut self, line: String)
        ensures
            final(self).minus() == old(self).minus().push(line@),
            final(self).plus() == old(self).plus(),
    {
        self.minus_lines.push(line);
        assert(self.minus() =~= old(self).minus().push(line@));
    }

    pub fn push_plus(&mut self, line: String)
        ensures
            final(self).minus() == old(self).minus(),
            final(self).plus() == old(self).plus().push(line@),
    {
        self.plus_lines.push(line);
        assert(self.plus() =~= old(self).plus().push(line@));
    }

    /// Hands the pending lines out as one batch and clears them. On an empty
    /// buffer it emits nothing and changes nothing.
    pub fn flush(&mut self) -> (r: Vec<Emit>)
        ensures
            events_view(r@) == flush_events(old(self).minus(), old(self).plus()),
            old(self).minus().len() == 0 && old(self).plus().len() == 0 ==> r@.len() == 0,
            final(self).minus() == Seq::<Seq<char>>::empty(),
            final(self).plus() == Seq::<Seq<char>>::empty(),
    {
        if self.minus_lines.len() == 0 && self.plus_lines.len() == 0 {
            assert(self.minus() =~= Seq::<Seq<char>>::empty());
            assert(self.plus() =~= Seq::<Seq<char>>::empty());
            assert(events_view(Seq::<Emit>::empty()) =~= Seq::<EventView>::empty());
            return Vec::new();
        }
        let mut minus: Vec<String> = Vec::new();
        let mut plus: Vec<String> = Vec::new();
        std::mem::swap(&mut minus, &mut self.minus_lines);
        std::mem::swap(&mut plus, &mut self.plus_lines);
        let r = vec![Emit::Buffered { minus, plus }];
        assert(events_view(r@) =~= flush_events(old(self).minus(), old(self).plus()));
        assert(self.minus() =~= Seq::<Seq<char>>::empty());
        assert(self.plus() =~= Seq::<Seq<char>>::empty());
        r
    }
}

/// Replaces the marker character of a body line with a space and pads the
/// line with spaces to the configured width, counted in characters. An empty
/// line is left as it is.
pub fn prepare(line: &str, config: &Config) -> (r: String)
    ensures
        r@ == prepared(line@, config.width),
{
    let n = line.unicode_len();
    if n == 0 {
        return String::new();
    }
    proof {
        reveal_strlit(" ");
    }
    let mut r = String::from_str(" ");
    r.append(line.substring_char(1, n));
    assert(r@ =~= seq![' '] + line@.drop_first());
    let ghost base = r@;
    match config.width {
        Some(w) => {
            let mut len: usize = n;
            while len < w
                invariant
                    len == r@.len(),
                    base.len() <= len,
                    len <= w || len == base.len(),
                    r@ == base + Seq::new((len - base.len()) as nat, |i: int| ' '),
                decreases w - len,
            {
                r.append(" ");
                proof {
                    reveal_strlit(" ");
                }
                assert(r@ =~= base + Seq::new((len + 1 - base.len()) as nat, |i: int| ' '));
                len = len + 1;
            }
            proof {
                if base.len() < w {
                    assert(r@ =~= base + Seq::new((w - base.len()) as nat, |i: int| ' '));
                } else {
                    assert(r@ =~= base);
                }
            }
        },
        None => {},
    }
    r
}

/// One body line in a hunk: a removed line joins the removed lines (after a
/// flush where added lines were last), an added line joins the added lines,
/// and any other line flushes the buffer and is painted alone.
pub fn paint_hunk_line(state: State, buffer: &mut HunkBuffer, line: &str, config: &Config) -> (r: (
    State,
    Vec<Emit>,
))
    ensures
        ({
            let m = DriverView {
                config: *config,
                extensions: Seq::empty(),
                state,
                minus: old(buffer).minus(),
                plus: old(buffer).plus(),
                syntax: true,
            };
            let (m1, e) = body_step(m, line@);
            &&& r.0 == m1.state
            &&& final(buffer).minus() == m1.minus
            &&& final(buffer).plus() == m1.plus
            &&& events_view(r.1@) == e
        }),
{
    let c = to_chars(line);
    if c.len() > 0 && c[0] == '-' {
        let out = if state == State::HunkPlus {
            buffer.flush()
        } else {
            Vec::new()
        };
        assert(events_view(Seq::<Emit>::empty()) =~= Seq::<EventView>::empty());
        buffer.push_minus(prepare(line, config));
        proof {
            if state is HunkPlus {
                assert(buffer.minus() =~= seq![prepared(line@, config.width)]);
            }
        }
        (State::HunkMinus, out)
    } else if c.len() > 0 && c[0] == '+' {
        buffer.push_plus(prepare(line, config));
        assert(events_view(Seq::<Emit>::empty()) =~= Seq::<EventView>::empty());
        (State::HunkPlus, Vec::new())
    } else {
        let mut out = buffer.flush();
        let ghost before = out@;
        let p = prepare(line, config);
        out.push(Emit::Context { line: p });
        assert(events_view(out@) =~= events_view(before) + seq![
            EventView::Context(prepared(line@, config.width)),
        ]);
        (State::HunkZero, out)
    }
}


/// What `console::strip_ansi_codes` leaves of a line.
pub uninterp spec fn ansi_stripped(s: Seq<char>) -> Seq<char>;

/// Relies on `console::strip_ansi_codes`: the line without its ANSI escape
/// sequences.
#[verifier::external_body]
fn strip_ansi(s: &str) -> (r: String)
    ensures
        r@ == ansi_stripped(s@),
{
    console::strip_ansi_codes(s).to_string()
}

/// Each raw line beside its text without escape sequences.
pub open spec fn stripped_lines(v: Seq<String>) -> Seq<(Seq<char>, Seq<char>)> {
    v.map_values(|s: String| (s@, ansi_stripped(s@)))
}

/// The line classifier and hunk buffer of one diff stream.
pub struct StreamDriver {
    config: Config,
    extensions: Vec<String>,
    state: State,
    buffer: HunkBuffer,
    syntax: bool,
}

impl View for StreamDriver {
    type V = DriverView;

    closed spec fn view(&self) -> DriverView {
        DriverView {
            config: self.config,
            extensions: lines_view(self.extensions@),
            state: self.state,
            minus: self.buffer.minus(),
            plus: self.buffer.plus(),
            syntax: self.syntax,
        }
    }
}

impl StreamDriver {
    /// A driver at the start of a stream; `extensions` are those for which
    /// a syntax is known.
    pub fn new(config: Config, extensions: Vec<String>) -> (r: StreamDriver)
        ensures
            r@ == initial(config, lines_view(extensions@)),
    {
        StreamDriver { config, extensions, state: State::Unknown, buffer: HunkBuffer::new(), syntax: false }
    }

    /// The current state.
    pub fn state(&self) -> (r: State)
        ensures
            r == self@.state,
    {
        self.state
    }

    /// Whether a syntax is known for the extension of a file-pair header.
    fn has_syntax(&self, line: &str) -> (r: bool)
        ensures
            r == syntax_for(self@.extensions, line@),
    {
        let x = get_file_extension_from_diff_line(line);
        match x {
            Some(e) => {
                assert(crate::parse::diff_extension(line@) == Some(e@));
                let mut i: usize = 0;
                while i < self.extensions.len()
                    invariant
                        i <= self.extensions.len(),
                        crate::parse::diff_extension(line@) == Some(e@),
                        forall|j: int| 0 <= j < i ==> self@.extensions[j] != e@,
                    decreases self.extensions.len() - i,
                {
                    if same_chars(self.extensions[i].as_str(), e) {
                        assert(self@.extensions[i as int] == self.extensions@[i as int]@);
                        assert(self@.extensions[i as int] == e@);
                        assert(self@.extensions.contains(e@));
                        return true;
                    }
                    i = i + 1;
                }
                false
            },
            None => false,
        }
    }

    /// One input line, `raw` as it came and `line` without its escape
    /// sequences: the events it produces.
    pub fn step_stripped(&mut self, raw: &str, line: &str) -> (r: Vec<Emit>)
        requires
            buffer_wf(old(self)@),
        ensures
            buffer_wf(final(self)@),
            (final(self)@, events_view(r@)) == step_spec(old(self)@, raw@, line@),
    {
        let c = to_chars(line);
        let commit = vec!['c', 'o', 'm', 'm', 'i', 't'];
        let diff = vec!['d', 'i', 'f', 'f', ' ', '-', '-'];
        let hunk = vec!['@', '@'];
        assert(commit@ =~= commit_mark());
        assert(diff@ =~= diff_mark());
        assert(hunk@ =~= hunk_mark());
        let ghost m = self@;
        if begins_with(&c, &commit) {
            let mut out = self.buffer.flush();
            self.state = State::CommitMeta;
            let ghost before = out@;
            let e = if self.config.commit_style == SectionStyle::Plain {
                Emit::Raw { line: raw.to_owned() }
            } else {
                Emit::CommitHeader { line: raw.to_owned() }
            };
            out.push(e);
            assert(events_view(out@) =~= events_view(before) + seq![e@]);
            out
        } else if begins_with(&c, &diff) {
            let mut out = self.buffer.flush();
            self.state = State::FileMeta;
            self.syntax = self.has_syntax(line);
            let ghost before = out@;
            let e = if self.config.file_style == SectionStyle::Plain {
                Emit::Raw { line: raw.to_owned() }
            } else {
                Emit::FileHeader {
                    line: raw.to_owned(),
                    description: get_file_change_description_from_diff_line(line),
                }
            };
            out.push(e);
            assert(events_view(out@) =~= events_view(before) + seq![e@]);
            out
        } else if begins_with(&c, &hunk) {
            let mut out = self.buffer.flush();
            self.state = State::HunkMeta;
            let ghost before = out@;
            let e = if self.config.hunk_style == SectionStyle::Plain {
                Emit::Raw { line: raw.to_owned() }
            } else {
                let (code_fragment, line_number) = parse_hunk_metadata(line);
                Emit::HunkHeader { line: raw.to_owned(), code_fragment, line_number }
            };
            out.push(e);
            assert(events_view(out@) =~= events_view(before) + seq![e@]);
            out
        } else if self.state.is_in_hunk() && self.syntax {
            let (s, out) = paint_hunk_line(self.state, &mut self.buffer, line, &self.config);
            self.state = s;
            out
        } else if self.state == State::FileMeta && self.config.file_style != SectionStyle::Plain {
            // The metadata lines after a file-pair header are left out when
            // the header is drawn.
            assert(events_view(Seq::<Emit>::empty()) =~= Seq::<EventView>::empty());
            Vec::new()
        } else {
            let out = vec![Emit::Raw { line: raw.to_owned() }];
            assert(events_view(out@) =~= seq![EventView::Raw(raw@)]);
            out
        }
    }

    /// One raw input line: its escape sequences are removed before it is
    /// classified, and kept where it passes through.
    pub fn step(&mut self, raw: &str) -> (r: Vec<Emit>)
        requires
            buffer_wf(old(self)@),
        ensures
            buffer_wf(final(self)@),
            (final(self)@, events_view(r@)) == step_spec(old(self)@, raw@, ansi_stripped(raw@)),
    {
        let line = strip_ansi(raw);
        self.step_stripped(raw, line.as_str())
    }

    /// The end of the stream: the pending lines are flushed.
    pub fn finish(&mut self) -> (r: Vec<Emit>)
        ensures
            events_view(r@) == flush_events(old(self)@.minus, old(self)@.plus),
            final(self)@ == (DriverView {
                minus: Seq::empty(),
                plus: Seq::empty(),
                ..old(self)@
            }),
    {
        self.buffer.flush()
    }
}

/// The events of a whole diff stream: each line classified in turn, and the
/// pending lines flushed at its end.
pub fn delta(config: Config, extensions: Vec<String>, lines: &Vec<String>) -> (r: Vec<Emit>)
    ensures
        events_view(r@) == run_all(
            initial(config, lines_view(extensions@)),
            stripped_lines(lines@),
        ),
{
    let mut driver = StreamDriver::new(config, extensions);
    let ghost m0 = driver@;
    let ghost ls = stripped_lines(lines@);
    let mut out: Vec<Emit> = Vec::new();
    let mut i: usize = 0;
    assert(ls.subrange(0, 0) =~= Seq::<(Seq<char>, Seq<char>)>::empty());
    assert(events_view(out@) =~= Seq::<EventView>::empty());
    while i < lines.len()
        invariant
            i <= lines.len(),
            ls == stripped_lines(lines@),
            buffer_wf(driver@),
            driver@ == run(m0, ls.subrange(0, i as int)).0,
            events_view(out@) == run(m0, ls.subrange(0, i as int)).1,
        decreases lines.len() - i,
    {
        let ghost before = out@;
        let mut e = driver.step(lines[i].as_str());
        let ghost ev = e@;
        out.append(&mut e);
        proof {
            assert(ls.subrange(0, i + 1).drop_last() =~= ls.subrange(0, i as int));
            assert(events_view(out@) =~= events_view(before) + events_view(ev));
        }
        i = i + 1;
    }
    assert(ls.subrange(0, lines.len() as int) =~= ls);
    let ghost before = out@;
    let mut e = driver.finish();
    let ghost ev = e@;
    out.append(&mut e);
    assert(events_view(out@) =~= events_view(before) + events_view(ev));
    out
}

} // verus!

//! Laws of the line classifier, proved over its transition.

use vstd::prelude::*;

use crate::model::{
    buffer_wf, commit_mark, diff_mark, flush_events, hunk_mark, initial, prepared, run, run_all,
    step_spec, Config, DriverView, EventView,
};
use crate::text::has_prefix;

verus! {

/// The lines that an event carries: the raw line of a header or of a
/// passed-through line, the prepared line of a context line, and the removed
/// then the added lines of a batch.
pub open spec fn event_lines(e: EventView) -> Seq<Seq<char>> {
    match e {
        EventView::CommitHeader(l) => seq![l],
        EventView::FileHeader(l, _) => seq![l],
        EventView::HunkHeader(l, _, _) => seq![l],
        EventView::Raw(l) => seq![l],
        EventView::Context(l) => seq![l],
        EventView::Buffered(m, p) => m + p,
    }
}

/// The lines that a sequence of events carries, in order.
pub open spec fn flat(es: Seq<EventView>) -> Seq<Seq<char>>
    decreases es.len(),
{
    if es.len() == 0 {
        Seq::empty()
    } else {
        flat(es.drop_last()) + event_lines(es.last())
    }
}

/// Whether a line opens a new region.
pub open spec fn is_header(line: Seq<char>) -> bool {
    has_prefix(line, commit_mark()) || has_prefix(line, diff_mark()) || has_prefix(
        line,
        hunk_mark(),
    )
}

/// What an input line becomes in the output: its raw text, or for a body
/// line of a hunk its prepared text; nothing for a metadata line after a
/// drawn file header.
pub open spec fn line_form(m: DriverView, raw: Seq<char>, line: Seq<char>) -> Seq<Seq<char>> {
    if is_header(line) {
        seq![raw]
    } else if m.state.in_hunk() && m.syntax {
        seq![prepared(line, m.config.width)]
    } else if m.state is FileMeta && !(m.config.file_style is Plain) {
        Seq::empty()
    } else {
        seq![raw]
    }
}

/// The output form of each of the lines `ls`, in order.
pub open spec fn kept(m: DriverView, ls: Seq<(Seq<char>, Seq<char>)>) -> Seq<Seq<char>>
    decreases ls.len(),
{
    if ls.len() == 0 {
        Seq::empty()
    } else {
        kept(m, ls.drop_last()) + line_form(run(m, ls.drop_last()).0, ls.last().0, ls.last().1)
    }
}

/// How many of the lines `ls` are left out.
pub open spec fn suppressed(m: DriverView, ls: Seq<(Seq<char>, Seq<char>)>) -> nat
    decreases ls.len(),
{
    if ls.len() == 0 {
        0
    } else {
        suppressed(m, ls.drop_last()) + if line_form(
            run(m, ls.drop_last()).0,
            ls.last().0,
            ls.last().1,
        ).len() == 0 {
            1nat
        } else {
            0nat
        }
    }
}

/// The pending lines of a driver, removed then added.
pub open spec fn pending(m: DriverView) -> Seq<Seq<char>> {
    m.minus + m.plus
}

proof fn lemma_flat_append(a: Seq<EventView>, b: Seq<EventView>)
    ensures
        flat(a + b) == flat(a) + flat(b),
    decreases b.len(),
{
    if b.len() == 0 {
        assert(a + b =~= a);
        assert(flat(a) + flat(b) =~= flat(a));
    } else {
        assert((a + b).drop_last() =~= a + b.drop_last());
        lemma_flat_append(a, b.drop_last());
        assert(flat(a + b) =~= flat(a) + flat(b));
    }
}

proof fn lemma_flat_one(e: EventView)
    ensures
        flat(seq![e]) == event_lines(e),
{
    assert(seq![e].drop_last() =~= Seq::<EventView>::empty());
    assert(flat(Seq::<EventView>::empty()) + event_lines(e) =~= event_lines(e));
}

proof fn lemma_flat_flush(m: Seq<Seq<char>>, p: Seq<Seq<char>>)
    ensures
        flat(flush_events(m, p)) == m + p,
{
    if m.len() == 0 && p.len() == 0 {
        assert(m + p =~= Seq::<Seq<char>>::empty());
    } else {
        lemma_flat_one(EventView::Buffered(m, p));
    }
}

proof fn lemma_flat_flush_then(m: Seq<Seq<char>>, p: Seq<Seq<char>>, e: EventView)
    ensures
        flat(flush_events(m, p) + seq![e]) == m + p + event_lines(e),
{
    lemma_flat_append(flush_events(m, p), seq![e]);
    lemma_flat_flush(m, p);
    lemma_flat_one(e);
}

/// A line that starts with `-` or `+` opens no region.
proof fn lemma_marked_not_header(line: Seq<char>)
    requires
        line.len() > 0,
        line[0] == '-' || line[0] == '+',
    ensures
        !is_header(line),
{
    if has_prefix(line, commit_mark()) {
        assert(line.subrange(0, 6)[0] == line[0]);
    }
    if has_prefix(line, diff_mark()) {
        assert(line.subrange(0, 7)[0] == line[0]);
    }
    if has_prefix(line, hunk_mark()) {
        assert(line.subrange(0, 2)[0] == line[0]);
    }
}

proof fn lemma_step(m: DriverView, raw: Seq<char>, line: Seq<char>)
    requires
        buffer_wf(m),
    ensures
        buffer_wf(step_spec(m, raw, line).0),
        step_spec(m, raw, line).0.config == m.config,
        flat(step_spec(m, raw, line).1) + pending(step_spec(m, raw, line).0) == pending(m)
            + line_form(m, raw, line),
{
    let (m1, e) = step_spec(m, raw, line);
    let f = line_form(m, raw, line);
    if is_header(line) {
        let x = e.last();
        assert(e == flush_events(m.minus, m.plus) + seq![x]);
        lemma_flat_flush_then(m.minus, m.plus, x);
        assert(pending(m1) =~= Seq::<Seq<char>>::empty());
        assert(flat(e) + pending(m1) =~= pending(m) + f);
    } else if m.state.in_hunk() && m.syntax {
        let p = prepared(line, m.config.width);
        if line.len() > 0 && line[0] == '-' {
            if m.state is HunkPlus {
                lemma_flat_flush(m.minus, m.plus);
                assert(flat(e) + pending(m1) =~= pending(m) + f);
            } else {
                assert(m.plus.len() == 0);
                assert(flat(Seq::<EventView>::empty()) =~= Seq::<Seq<char>>::empty());
                assert(flat(e) + pending(m1) =~= pending(m) + f);
            }
        } else if line.len() > 0 && line[0] == '+' {
            assert(flat(Seq::<EventView>::empty()) =~= Seq::<Seq<char>>::empty());
            assert(flat(e) + pending(m1) =~= pending(m) + f);
        } else {
            lemma_flat_flush_then(m.minus, m.plus, EventView::Context(p));
            assert(pending(m1) =~= Seq::<Seq<char>>::empty());
            assert(flat(e) + pending(m1) =~= pending(m) + f);
        }
    } else if m.state is FileMeta && !(m.config.file_style is Plain) {
        assert(flat(Seq::<EventView>::empty()) =~= Seq::<Seq<char>>::empty());
        assert(pending(m) =~= Seq::<Seq<char>>::empty());
        assert(flat(e) + pending(m1) =~= pending(m) + f);
    } else {
        lemma_flat_one(EventView::Raw(raw));
        assert(flat(e) + pending(m1) =~= pending(m) + f);
    }
}

proof fn lemma_run(m: DriverView, ls: Seq<(Seq<char>, Seq<char>)>)
    requires
        buffer_wf(m),
    ensures
        buffer_wf(run(m, ls).0),
        run(m, ls).0.config == m.config,
        flat(run(m, ls).1) + pending(run(m, ls).0) == pending(m) + kept(m, ls),
        kept(m, ls).len() + suppressed(m, ls) == ls.len(),
        m.config.file_style is Plain ==> suppressed(m, ls) == 0,
    decreases ls.len(),
{
    if ls.len() == 0 {
        assert(flat(Seq::<EventView>::empty()) =~= Seq::<Seq<char>>::empty());
        assert(pending(m) + kept(m, ls) =~= pending(m));
    } else {
        let front = ls.drop_last();
        lemma_run(m, front);
        let (m1, e1) = run(m, front);
        let (m2, e2) = step_spec(m1, ls.last().0, ls.last().1);
        lemma_step(m1, ls.last().0, ls.last().1);
        lemma_flat_append(e1, e2);
        let f = line_form(m1, ls.last().0, ls.last().1);
        assert(kept(m, ls) == kept(m, front) + f);
        assert(flat(e1 + e2) + pending(m2) =~= flat(e1) + (flat(e2) + pending(m2)));
        assert(flat(e1) + (pending(m1) + f) =~= (flat(e1) + pending(m1)) + f);
        assert((pending(m) + kept(m, front)) + f =~= pending(m) + kept(m, ls));
    }
}

/// No input line is lost, duplicated or moved: over a whole stream, the
/// lines that the events carry are, in order, the output form of each input
/// line that is not left out. Only metadata lines after a drawn file header
/// are left out, so with plain file headers every line comes out.
pub proof fn lemma_stream_lossless(config: Config, extensions: Seq<Seq<char>>, ls: Seq<(Seq<char>, Seq<char>)>)
    ensures
        flat(run_all(initial(config, extensions), ls)) == kept(initial(config, extensions), ls),
        flat(run_all(initial(config, extensions), ls)).len() == ls.len() - suppressed(
            initial(config, extensions),
            ls,
        ),
        config.file_style is Plain ==> flat(run_all(initial(config, extensions), ls)).len()
            == ls.len(),
{
    let m = initial(config, extensions);
    lemma_run(m, ls);
    let (m1, e) = run(m, ls);
    lemma_flat_append(e, flush_events(m1.minus, m1.plus));
    lemma_flat_flush(m1.minus, m1.plus);
    assert(pending(m) =~= Seq::<Seq<char>>::empty());
    assert(Seq::<Seq<char>>::empty() + kept(m, ls) =~= kept(m, ls));
}


/// The prepared text of each of the lines `ls`.
pub open spec fn prepared_all(ls: Seq<(Seq<char>, Seq<char>)>, width: Option<usize>) -> Seq<
    Seq<char>,
> {
    ls.map_values(|x: (Seq<char>, Seq<char>)| prepared(x.1, width))
}

/// Whether each of the lines `ls` begins with the marker `c`.
pub open spec fn all_marked(ls: Seq<(Seq<char>, Seq<char>)>, c: char) -> bool {
    forall|i: int| 0 <= i < ls.len() ==> (#[trigger] ls[i]).1.len() > 0 && ls[i].1[0] == c
}

proof fn lemma_run_append(
    m: DriverView,
    a: Seq<(Seq<char>, Seq<char>)>,
    b: Seq<(Seq<char>, Seq<char>)>,
)
    ensures
        run(m, a + b).0 == run(run(m, a).0, b).0,
        run(m, a + b).1 == run(m, a).1 + run(run(m, a).0, b).1,
    decreases b.len(),
{
    if b.len() == 0 {
        assert(a + b =~= a);
        assert(run(m, a).1 + Seq::<EventView>::empty() =~= run(m, a).1);
    } else {
        assert((a + b).drop_last() =~= a + b.drop_last());
        lemma_run_append(m, a, b.drop_last());
        let m1 = run(m, a).0;
        let (m2, e2) = run(m1, b.drop_last());
        let s = step_spec(m2, b.last().0, b.last().1);
        assert(run(m, a).1 + e2 + s.1 =~= run(m, a).1 + (e2 + s.1));
    }
}

proof fn lemma_prepared_append(
    a: Seq<(Seq<char>, Seq<char>)>,
    b: Seq<(Seq<char>, Seq<char>)>,
    width: Option<usize>,
)
    ensures
        prepared_all(a + b, width) == prepared_all(a, width) + prepared_all(b, width),
{
    assert(prepared_all(a + b, width) =~= prepared_all(a, width) + prepared_all(b, width));
}

proof fn lemma_run_one(m: DriverView, x: (Seq<char>, Seq<char>))
    ensures
        run(m, seq![x]) == step_spec(m, x.0, x.1),
{
    let one = seq![x];
    assert(one.drop_last() =~= Seq::<(Seq<char>, Seq<char>)>::empty());
    assert(one.last() == x);
    let r0 = run(m, one.drop_last());
    assert(r0.0 == m);
    assert(r0.1 == Seq::<EventView>::empty());
    let s = step_spec(m, x.0, x.1);
    assert(Seq::<EventView>::empty() + s.1 =~= s.1);
    assert(run(m, one).0 == s.0);
    assert(run(m, one).1 == s.1);
}

/// A run of removed lines in a hunk, where the last line was not an added
/// one, only joins the removed lines.
proof fn lemma_minus_run(m: DriverView, ms: Seq<(Seq<char>, Seq<char>)>)
    requires
        m.state.in_hunk(),
        !(m.state is HunkPlus),
        m.syntax,
        ms.len() > 0,
        all_marked(ms, '-'),
    ensures
        run(m, ms).0.state is HunkMinus,
        run(m, ms).0.minus == m.minus + prepared_all(ms, m.config.width),
        run(m, ms).0.plus == m.plus,
        run(m, ms).0.config == m.config,
        run(m, ms).0.syntax,
        run(m, ms).1 == Seq::<EventView>::empty(),
    decreases ms.len(),
{
    let front = ms.drop_last();
    let x = ms.last();
    assert(x == ms[ms.len() - 1]);
    lemma_marked_not_header(x.1);
    if front.len() > 0 {
        assert(all_marked(front, '-')) by {
            assert forall|i: int| 0 <= i < front.len() implies (#[trigger] front[i]).1.len() > 0
                && front[i].1[0] == '-' by {
                assert(front[i] == ms[i]);
            }
        }
        lemma_minus_run(m, front);
    } else {
        assert(m.minus + prepared_all(front, m.config.width) =~= m.minus);
    }
    assert(ms =~= front + seq![x]);
    lemma_prepared_append(front, seq![x], m.config.width);
    assert(prepared_all(seq![x], m.config.width) =~= seq![prepared(x.1, m.config.width)]);
    assert(run(m, ms).0.minus =~= m.minus + prepared_all(ms, m.config.width));
    assert(run(m, ms).1 =~= Seq::<EventView>::empty());
}

/// A run of added lines in a hunk only joins the added lines.
proof fn lemma_plus_run(m: DriverView, ps: Seq<(Seq<char>, Seq<char>)>)
    requires
        m.state.in_hunk(),
        m.syntax,
        ps.len() > 0,
        all_marked(ps, '+'),
    ensures
        run(m, ps).0.state is HunkPlus,
        run(m, ps).0.minus == m.minus,
        run(m, ps).0.plus == m.plus + prepared_all(ps, m.config.width),
        run(m, ps).0.config == m.config,
        run(m, ps).0.syntax,
        run(m, ps).1 == Seq::<EventView>::empty(),
    decreases ps.len(),
{
    let front = ps.drop_last();
    let x = ps.last();
    assert(x == ps[ps.len() - 1]);
    lemma_marked_not_header(x.1);
    if front.len() > 0 {
        assert(all_marked(front, '+')) by {
            assert forall|i: int| 0 <= i < front.len() implies (#[trigger] front[i]).1.len() > 0
                && front[i].1[0] == '+' by {
                assert(front[i] == ps[i]);
            }
        }
        lemma_plus_run(m, front);
    } else {
        assert(m.plus + prepared_all(front, m.config.width) =~= m.plus);
    }
    assert(ps =~= front + seq![x]);
    lemma_prepared_append(front, seq![x], m.config.width);
    assert(prepared_all(seq![x], m.config.width) =~= seq![prepared(x.1, m.config.width)]);
    assert(run(m, ps).0.plus =~= m.plus + prepared_all(ps, m.config.width));
    assert(run(m, ps).1 =~= Seq::<EventView>::empty());
}

/// A run of removed lines followed by a run of added lines, inside a hunk
/// with nothing pending, is held back whole and comes out as exactly one
/// batch when the next unchanged line arrives, followed by that line.
pub proof fn lemma_removed_then_added_one_batch(
    m: DriverView,
    ms: Seq<(Seq<char>, Seq<char>)>,
    ps: Seq<(Seq<char>, Seq<char>)>,
    c: (Seq<char>, Seq<char>),
)
    requires
        m.state is HunkMeta || m.state is HunkZero,
        m.syntax,
        m.minus.len() == 0,
        m.plus.len() == 0,
        ms.len() > 0,
        ps.len() > 0,
        all_marked(ms, '-'),
        all_marked(ps, '+'),
        !is_header(c.1),
        !(c.1.len() > 0 && (c.1[0] == '-' || c.1[0] == '+')),
    ensures
        run(m, ms + ps).1 == Seq::<EventView>::empty(),
        run(m, ms + ps + seq![c]).1 == seq![
            EventView::Buffered(prepared_all(ms, m.config.width), prepared_all(ps, m.config.width)),
            EventView::Context(prepared(c.1, m.config.width)),
        ],
{
    lemma_minus_run(m, ms);
    let m1 = run(m, ms).0;
    lemma_plus_run(m1, ps);
    lemma_run_append(m, ms, ps);
    let m2 = run(m, ms + ps).0;
    lemma_run_append(m, ms + ps, seq![c]);
    lemma_run_one(m2, c);
    assert(m.minus + prepared_all(ms, m.config.width) =~= prepared_all(ms, m.config.width));
    assert(m.plus + prepared_all(ps, m.config.width) =~= prepared_all(ps, m.config.width));
    assert(Seq::<EventView>::empty() + Seq::<EventView>::empty() =~= Seq::<EventView>::empty());
    assert(Seq::<EventView>::empty() + step_spec(m2, c.0, c.1).1 =~= step_spec(m2, c.0, c.1).1);
}

/// Removed lines, then added lines, then removed lines again, inside a hunk
/// with nothing pending: the first removed and added runs come out as one
/// batch when the second removed run begins, and that run is held back.
pub proof fn lemma_second_removed_run_flushes(
    m: DriverView,
    ms1: Seq<(Seq<char>, Seq<char>)>,
    ps: Seq<(Seq<char>, Seq<char>)>,
    ms2: Seq<(Seq<char>, Seq<char>)>,
)
    requires
        m.state is HunkMeta || m.state is HunkZero,
        m.syntax,
        m.minus.len() == 0,
        m.plus.len() == 0,
        ms1.len() > 0,
        ps.len() > 0,
        ms2.len() > 0,
        all_marked(ms1, '-'),
        all_marked(ps, '+'),
        all_marked(ms2, '-'),
    ensures
        run(m, ms1 + ps + ms2).1 == seq![
            EventView::Buffered(prepared_all(ms1, m.config.width), prepared_all(ps, m.config.width)),
        ],
        run(m, ms1 + ps + ms2).0.state is HunkMinus,
        run(m, ms1 + ps + ms2).0.minus == prepared_all(ms2, m.config.width),
        run(m, ms1 + ps + ms2).0.plus == Seq::<Seq<char>>::empty(),
{
    let w = m.config.width;
    lemma_minus_run(m, ms1);
    let m1 = run(m, ms1).0;
    lemma_plus_run(m1, ps);
    lemma_run_append(m, ms1, ps);
    let m2 = run(m, ms1 + ps).0;
    assert(m.minus + prepared_all(ms1, w) =~= prepared_all(ms1, w));
    assert(m.plus + prepared_all(ps, w) =~= prepared_all(ps, w));
    // The first line of the second removed run flushes the pair.
    let x = ms2[0];
    let rest = ms2.subrange(1, ms2.len() as int);
    assert(ms2 =~= seq![x] + rest);
    lemma_marked_not_header(x.1);
    lemma_run_one(m2, x);
    let m3 = run(m2, seq![x]).0;
    assert(m3.minus == seq![prepared(x.1, w)]);
    assert(prepared_all(seq![x], w) =~= seq![prepared(x.1, w)]);
    lemma_run_append(m2, seq![x], rest);
    if rest.len() > 0 {
        assert(all_marked(rest, '-')) by {
            assert forall|i: int| 0 <= i < rest.len() implies (#[trigger] rest[i]).1.len() > 0
                && rest[i].1[0] == '-' by {
                assert(rest[i] == ms2[i + 1]);
            }
        }
        lemma_minus_run(m3, rest);
    } else {
        assert(rest =~= Seq::<(Seq<char>, Seq<char>)>::empty());
        assert(m3.minus + prepared_all(rest, w) =~= m3.minus);
    }
    lemma_prepared_append(seq![x], rest, w);
    assert(run(m2, ms2).0.minus =~= prepared_all(ms2, w));
    lemma_run_append(m, ms1 + ps, ms2);
    assert(run(m2, ms2).1 =~= flush_events(m2.minus, m2.plus));
    assert(Seq::<EventView>::empty() + Seq::<EventView>::empty() =~= Seq::<EventView>::empty());
    assert(Seq::<EventView>::empty() + run(m2, ms2).1 =~= run(m2, ms2).1);
}

} // verus!

use delta_core::driver::{delta, prepare, paint_hunk_line, Emit, HunkBuffer, StreamDriver};
use delta_core::model::{Config, SectionStyle, State};

fn plain(width: Option<usize>) -> Config {
    Config {
        commit_style: SectionStyle::Plain,
        file_style: SectionStyle::Plain,
        hunk_style: SectionStyle::Plain,
        width,
    }
}

fn boxed() -> Config {
    Config {
        commit_style: SectionStyle::Box,
        file_style: SectionStyle::Box,
        hunk_style: SectionStyle::Underline,
        width: None,
    }
}

fn strings(v: &[&str]) -> Vec<String> {
    v.iter().map(|s| s.to_string()).collect()
}

/// The lines that the events carry, in order.
fn carried(es: &[Emit]) -> Vec<String> {
    let mut out = Vec::new();
    for e in es {
        match e {
            Emit::CommitHeader { line }
            | Emit::FileHeader { line, .. }
            | Emit::HunkHeader { line, .. }
            | Emit::Raw { line }
            | Emit::Context { line } => out.push(line.clone()),
            Emit::Buffered { minus, plus } => {
                out.extend(minus.iter().cloned());
                out.extend(plus.iter().cloned());
            }
        }
    }
    out
}

fn batches(es: &[Emit]) -> Vec<(Vec<String>, Vec<String>)> {
    es.iter()
        .filter_map(|e| match e {
            Emit::Buffered { minus, plus } => Some((minus.clone(), plus.clone())),
            _ => None,
        })
        .collect()
}

#[test]
fn end_to_end_plain_styles_keep_every_line() {
    let input = strings(&[
        "commit abc123",
        "diff --git a/x.rs b/x.rs",
        "@@ -1,2 +1,2 @@ fn f()",
        "-old",
        "+new",
        " same",
    ]);
    let out = delta(plain(None), strings(&["rs"]), &input);
    assert_eq!(
        carried(&out),
        strings(&[
            "commit abc123",
            "diff --git a/x.rs b/x.rs",
            "@@ -1,2 +1,2 @@ fn f()",
            " old",
            " new",
            " same",
        ])
    );
    assert_eq!(batches(&out), vec![(strings(&[" old"]), strings(&[" new"]))]);
}

#[test]
fn end_to_end_without_syntax_passes_lines_through() {
    let input = strings(&["commit abc123", "diff --git a/x.rs b/x.rs", "@@ -1 +1 @@", "-old", "+new"]);
    let out = delta(plain(None), Vec::new(), &input);
    assert_eq!(carried(&out), input);
    assert!(out.iter().all(|e| matches!(e, Emit::Raw { .. })));
}

#[test]
fn file_metadata_is_left_out_under_drawn_file_headers() {
    let input = strings(&[
        "diff --git a/x.rs b/x.rs",
        "index 1234..5678 100644",
        "--- a/x.rs",
        "+++ b/x.rs",
        "@@ -1 +1 @@ fn f()",
        " same",
    ]);
    let out = delta(boxed(), strings(&["rs"]), &input);
    assert_eq!(out.len(), 3);
    match &out[0] {
        Emit::FileHeader { description, .. } => assert_eq!(description, "x.rs"),
        e => panic!("unexpected {:?}", e),
    }
    match &out[1] {
        Emit::HunkHeader { code_fragment, line_number, .. } => {
            assert_eq!(code_fragment, " fn f()");
            assert_eq!(line_number, "1 ");
        }
        e => panic!("unexpected {:?}", e),
    }
    match &out[2] {
        Emit::Context { line } => assert_eq!(line, " same"),
        e => panic!("unexpected {:?}", e),
    }
}

#[test]
fn commit_header_is_drawn_under_box_style() {
    let out = delta(boxed(), Vec::new(), &strings(&["commit abc123"]));
    assert_eq!(out.len(), 1);
    assert!(matches!(&out[0], Emit::CommitHeader { line } if line == "commit abc123"));
}

#[test]
fn removed_then_added_run_is_one_batch() {
    let input = strings(&[
        "diff --git a/x.rs b/x.rs",
        "@@ -1,3 +1,3 @@",
        "-a",
        "-b",
        "+c",
        "+d",
        "+e",
        " f",
    ]);
    let out = delta(plain(None), strings(&["rs"]), &input);
    assert_eq!(batches(&out), vec![(strings(&[" a", " b"]), strings(&[" c", " d", " e"]))]);
    assert!(matches!(out.last(), Some(Emit::Context { line }) if line == " f"));
}

#[test]
fn removed_after_added_flushes_first_pair() {
    let mut d = StreamDriver::new(plain(None), strings(&["rs"]));
    d.step("diff --git a/x.rs b/x.rs");
    d.step("@@ -1 +1 @@");
    assert!(d.step("-a").is_empty());
    assert!(d.step("+b").is_empty());
    let out = d.step("-c");
    assert_eq!(batches(&out), vec![(strings(&[" a"]), strings(&[" b"]))]);
    assert_eq!(d.state(), State::HunkMinus);
    let rest = d.finish();
    assert_eq!(batches(&rest), vec![(strings(&[" c"]), Vec::new())]);
}

#[test]
fn hunk_header_flushes_pending_lines() {
    let mut d = StreamDriver::new(plain(None), strings(&["rs"]));
    d.step("diff --git a/x.rs b/x.rs");
    d.step("@@ -1 +1 @@");
    d.step("-a");
    let out = d.step("@@ -9 +9 @@");
    assert_eq!(batches(&out), vec![(strings(&[" a"]), Vec::new())]);
    assert_eq!(d.state(), State::HunkMeta);
}

#[test]
fn escape_sequences_are_removed_before_classification() {
    let mut d = StreamDriver::new(boxed(), Vec::new());
    let raw = "\u{1b}[33mcommit abc123\u{1b}[0m";
    let out = d.step(raw);
    assert_eq!(d.state(), State::CommitMeta);
    assert!(matches!(&out[0], Emit::CommitHeader { line } if line == raw));
}

#[test]
fn flushing_an_empty_buffer_does_nothing() {
    let mut b = HunkBuffer::new();
    assert!(b.flush().is_empty());
    assert!(b.flush().is_empty());
    b.push_plus(" x".to_string());
    assert_eq!(batches(&b.flush()), vec![(Vec::new(), strings(&[" x"]))]);
    assert!(b.flush().is_empty());
}

#[test]
fn prepare_replaces_marker_and_pads() {
    assert_eq!(prepare("-abc", &plain(None)), " abc");
    assert_eq!(prepare("+abc", &plain(Some(6))), " abc  ");
    assert_eq!(prepare(" abcdef", &plain(Some(3))), " abcdef");
    assert_eq!(prepare("", &plain(None)), "");
    assert_eq!(prepare("", &plain(Some(2))), "");
}

#[test]
fn paint_hunk_line_context_flushes() {
    let mut b = HunkBuffer::new();
    let (s, out) = paint_hunk_line(State::HunkZero, &mut b, "-x", &plain(None));
    assert_eq!(s, State::HunkMinus);
    assert!(out.is_empty());
    let (s, out) = paint_hunk_line(s, &mut b, "", &plain(None));
    assert_eq!(s, State::HunkZero);
    assert_eq!(carried(&out), strings(&[" x", ""]));
}

#[test]
fn state_in_hunk() {
    assert!(State::HunkMeta.is_in_hunk());
    assert!(State::HunkPlus.is_in_hunk());
    assert!(!State::FileMeta.is_in_hunk());
    assert!(!State::Unknown.is_in_hunk());
}

#[test]
fn empty_flushes_add_nothing_to_a_plain_stream() {
    let input = strings(&["commit a", "diff --git a/x.rs b/x.rs", "@@ -1 +1 @@"]);
    let out = delta(plain(None), strings(&["rs"]), &input);
    assert_eq!(out.len(), 3);
    assert!(out.iter().all(|e| matches!(e, Emit::Raw { .. })));
    assert_eq!(carried(&out), input);
}

#[test]
fn paint_hunk_line_chain_flushes_once() {
    let config = plain(None);
    let mut b = HunkBuffer::new();
    let mut state = State::HunkMeta;
    for l in ["-m1", "-m2", "+p1", "+p2", "+p3"] {
        let (s, out) = paint_hunk_line(state, &mut b, l, &config);
        assert!(out.is_empty());
        state = s;
    }
    let (s, out) = paint_hunk_line(state, &mut b, " ctx", &config);
    assert_eq!(s, State::HunkZero);
    assert_eq!(
        batches(&out),
        vec![(strings(&[" m1", " m2"]), strings(&[" p1", " p2", " p3"]))]
    );
    assert!(matches!(out.last(), Some(Emit::Context { line }) if line == " ctx"));
}

#[test]
fn empty_body_line_stays_empty_under_a_width() {
    let input = strings(&["diff --git a/x.rs b/x.rs", "@@ -1 +1 @@", ""]);
    let out = delta(plain(Some(8)), strings(&["rs"]), &input);
    assert!(matches!(out.last(), Some(Emit::Context { line }) if line.is_empty()));
}

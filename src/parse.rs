//! Parsers for the metadata lines of a unified diff: the file-pair header
//! (`diff --git a/<old> b/<new>`) and the hunk header
//! (`@@ -<old-start>,<old-count> +<new-start>,<new-count> @@ <fragment>`).
//! None of them fails: what cannot be found comes back empty or `None`.

use vstd::prelude::*;

use crate::text::{opt_chars, same_chars, split_bounds, split_by, to_chars};

verus! {

/// What `Path::file_name` gives for the path `p`, read back as text.
pub uninterp spec fn path_file_name(p: Seq<char>) -> Option<Seq<char>>;

/// The index of the last `c` in `s`, or -1 where there is none.
pub open spec fn last_index_of(s: Seq<char>, c: char) -> int
    decreases s.len(),
{
    if s.len() == 0 {
        -1
    } else if s.last() == c {
        s.len() - 1
    } else {
        last_index_of(s.drop_last(), c)
    }
}

/// The extension of a file name: what follows its last `.`, where that `.`
/// is not the name's first character.
pub open spec fn extension_of_name(f: Seq<char>) -> Option<Seq<char>> {
    let d = last_index_of(f, '.');
    if d > 0 {
        Some(f.subrange(d + 1, f.len() as int))
    } else {
        None
    }
}

/// What `Path::extension` gives for the path `p`.
pub open spec fn path_extension(p: Seq<char>) -> Option<Seq<char>> {
    match path_file_name(p) {
        Some(f) => extension_of_name(f),
        None => None,
    }
}

/// The extension of the path `p`, or its whole file name where it has no
/// extension (a `Makefile` is known by its name).
pub open spec fn file_extension(p: Seq<char>) -> Option<Seq<char>> {
    match path_extension(p) {
        Some(e) => Some(e),
        None => path_file_name(p),
    }
}

/// The space-separated fields of a line.
pub open spec fn fields(line: Seq<char>) -> Seq<Seq<char>> {
    split_by(line, seq![' '])
}

/// The path in field `k` of a file-pair header, without its two-character
/// `a/` or `b/` prefix; `None` where the field is missing or too short.
pub open spec fn path_field(line: Seq<char>, k: int) -> Option<Seq<char>> {
    if k < fields(line).len() && fields(line)[k].len() >= 2 {
        Some(fields(line)[k].subrange(2, fields(line)[k].len() as int))
    } else {
        None
    }
}

/// The old and the new path of a file-pair header.
pub open spec fn diff_paths(line: Seq<char>) -> (Option<Seq<char>>, Option<Seq<char>>) {
    (path_field(line, 2), path_field(line, 3))
}

/// The extensions of the old and the new path of a file-pair header.
pub open spec fn diff_extensions(line: Seq<char>) -> (Option<Seq<char>>, Option<Seq<char>>) {
    (
        match path_field(line, 2) {
            Some(p) => file_extension(p),
            None => None,
        },
        match path_field(line, 3) {
            Some(p) => file_extension(p),
            None => None,
        },
    )
}

/// The one extension that the two paths of a file-pair header agree on.
pub open spec fn diff_extension(line: Seq<char>) -> Option<Seq<char>> {
    match diff_extensions(line) {
        (Some(e1), Some(e2)) => if e1 == e2 {
            Some(e1)
        } else {
            None
        },
        (Some(e1), None) => Some(e1),
        (None, Some(e2)) => Some(e2),
        (None, None) => None,
    }
}

/// Relies on `std::path::Path::file_name` and `OsStr::to_str`: the last
/// component of the path, as text.
#[verifier::external_body]
fn file_name(p: &str) -> (r: Option<&str>)
    ensures
        opt_chars(r) == path_file_name(p@),
{
    std::path::Path::new(p).file_name().and_then(|n| n.to_str())
}

/// Relies on `std::path::Path::extension` and `OsStr::to_str`: what follows
/// the last `.` of the file name, unless that `.` begins the name.
#[verifier::external_body]
fn extension(p: &str) -> (r: Option<&str>)
    ensures
        opt_chars(r) == path_extension(p@),
{
    std::path::Path::new(p).extension().and_then(|e| e.to_str())
}

/// The extension of a path, or its file name where it has none.
fn get_extension(s: &str) -> (r: Option<&str>)
    ensures
        opt_chars(r) == file_extension(s@),
{
    match extension(s) {
        Some(e) => Some(e),
        None => file_name(s),
    }
}

/// The path in space-separated field `k` of `line`, without its first two
/// characters.
fn path_in_field<'a>(line: &'a str, k: usize) -> (r: Option<&'a str>)
    ensures
        opt_chars(r) == path_field(line@, k as int),
{
    let chars = to_chars(line);
    let sep = vec![' '];
    assert(sep@ =~= seq![' ']);
    let bounds = split_bounds(&chars, &sep);
    if k < bounds.len() {
        let (a, b) = bounds[k];
        proof {
            assert(chars@.subrange(a as int, b as int) == fields(line@)[k as int]);
        }
        if b - a >= 2 {
            let r = line.substring_char(a + 2, b);
            proof {
                assert(r@ =~= fields(line@)[k as int].subrange(2, (b - a) as int));
            }
            Some(r)
        } else {
            None
        }
    } else {
        None
    }
}

/// Given `diff --git a/src/main.rs b/src/main.rs`, the two paths
/// `src/main.rs` and `src/main.rs`.
fn get_file_paths_from_diff_line(line: &str) -> (r: (Option<&str>, Option<&str>))
    ensures
        (opt_chars(r.0), opt_chars(r.1)) == diff_paths(line@),
{
    (path_in_field(line, 2), path_in_field(line, 3))
}

/// Given `diff --git a/src/main.rs b/src/main.rs`, the two extensions
/// `rs` and `rs`.
fn get_file_extensions_from_diff_line(line: &str) -> (r: (Option<&str>, Option<&str>))
    ensures
        (opt_chars(r.0), opt_chars(r.1)) == diff_extensions(line@),
{
    let (p1, p2) = get_file_paths_from_diff_line(line);
    let e1 = match p1 {
        Some(p) => get_extension(p),
        None => None,
    };
    let e2 = match p2 {
        Some(p) => get_extension(p),
        None => None,
    };
    (e1, e2)
}

/// Given `diff --git a/src/main.rs b/src/main.rs`, returns `rs`: the one
/// extension consistent with both files. Where the two files' extensions
/// differ there is none.
pub fn get_file_extension_from_diff_line(line: &str) -> (r: Option<&str>)
    ensures
        opt_chars(r) == diff_extension(line@),
{
    match get_file_extensions_from_diff_line(line) {
        (Some(ext1), Some(ext2)) => {
            if same_chars(ext1, ext2) {
                Some(ext1)
            } else {
                None
            }
        },
        (Some(ext1), None) => Some(ext1),
        (None, Some(ext2)) => Some(ext2),
        (None, None) => None,
    }
}


/// The human description of the change that a file-pair header announces:
/// the path where both paths agree, `deleted: <old>` where the new path is
/// the null device, `added: <new>` where the old one is, `renamed: <old> ⟶
/// <new>` where they differ otherwise, and `?` where the paths are missing.
pub open spec fn change_description(line: Seq<char>) -> Seq<char> {
    match diff_paths(line) {
        (Some(f1), Some(f2)) => if f1 == f2 {
            f1
        } else if f2 == "/dev/null"@ {
            "deleted: "@ + f1
        } else if f1 == "/dev/null"@ {
            "added: "@ + f2
        } else {
            "renamed: "@ + f1 + " \u{27f6} "@ + f2
        },
        _ => "?"@,
    }
}

/// Given `diff --git a/src/main.rs b/src/main.rs`, returns `src/main.rs`.
pub fn get_file_change_description_from_diff_line(line: &str) -> (r: String)
    ensures
        r@ == change_description(line@),
{
    match get_file_paths_from_diff_line(line) {
        (Some(file_1), Some(file_2)) => {
            if same_chars(file_1, file_2) {
                String::from_str(file_1)
            } else if same_chars(file_2, "/dev/null") {
                let mut r = String::from_str("deleted: ");
                r.append(file_1);
                r
            } else if same_chars(file_1, "/dev/null") {
                let mut r = String::from_str("added: ");
                r.append(file_2);
                r
            } else {
                let mut r = String::from_str("renamed: ");
                r.append(file_1);
                r.append(" \u{27f6} ");
                r.append(file_2);
                r
            }
        },
        _ => String::from_str("?"),
    }
}

/// The pieces of a hunk header between its `@@` marks.
pub open spec fn hunk_pieces(line: Seq<char>) -> Seq<Seq<char>> {
    split_by(line, seq!['@', '@'])
}

/// The start line of the new file in a hunk header: what lies after the
/// first `+` and before the next `,` in the piece between the first two `@@`.
pub open spec fn hunk_line_number(line: Seq<char>) -> Seq<char> {
    let ps = hunk_pieces(line);
    if ps.len() > 1 && split_by(ps[1], seq!['+']).len() > 1 {
        split_by(split_by(ps[1], seq!['+'])[1], seq![','])[0]
    } else {
        Seq::empty()
    }
}

/// The code fragment of a hunk header: the piece after its second `@@`.
pub open spec fn hunk_code_fragment(line: Seq<char>) -> Seq<char> {
    let ps = hunk_pieces(line);
    if ps.len() > 2 {
        ps[2]
    } else {
        Seq::empty()
    }
}

/// Piece `k` of `s` split at the separator `sep`, where there is one.
fn piece<'a>(s: &'a str, sep: &Vec<char>, k: usize) -> (r: Option<&'a str>)
    requires
        sep.len() > 0,
    ensures
        r is Some <==> k < split_by(s@, sep@).len(),
        r is Some ==> r->0@ == split_by(s@, sep@)[k as int],
{
    let chars = to_chars(s);
    let bounds = split_bounds(&chars, sep);
    if k < bounds.len() {
        let (a, b) = bounds[k];
        proof {
            assert(chars@.subrange(a as int, b as int) == split_by(s@, sep@)[k as int]);
        }
        Some(s.substring_char(a, b))
    } else {
        None
    }
}

/// Given `@@ -74,15 +75,14 @@ pub fn delta(`, returns the code fragment
/// ` pub fn delta(` and the line number `75`.
pub fn parse_hunk_metadata(line: &str) -> (r: (String, String))
    ensures
        r.0@ == hunk_code_fragment(line@),
        r.1@ == hunk_line_number(line@),
{
    let at = vec!['@', '@'];
    let plus = vec!['+'];
    let comma = vec![','];
    assert(at@ =~= seq!['@', '@']);
    assert(plus@ =~= seq!['+']);
    assert(comma@ =~= seq![',']);
    let line_number = match piece(line, &at, 1) {
        Some(p1) => match piece(p1, &plus, 1) {
            Some(p2) => match piece(p2, &comma, 0) {
                Some(n) => n.to_owned(),
                None => String::new(),
            },
            None => String::new(),
        },
        None => String::new(),
    };
    let code_fragment = match piece(line, &at, 2) {
        Some(f) => f.to_owned(),
        None => String::new(),
    };
    proof {
        if hunk_pieces(line@).len() > 1 && split_by(hunk_pieces(line@)[1], seq!['+']).len() > 1 {
            crate::text::lemma_split_nonempty(
                split_by(hunk_pieces(line@)[1], seq!['+'])[1],
                seq![','],
            );
        }
    }
    (code_fragment, line_number)
}

} // verus!

//! The display sanitizer applied to remote body text before it is shown:
//! HTML comment blocks are removed, checklist lines are replaced by glyph
//! markers, and runs of three or more line breaks collapse to one blank line,
//! in that order.

use crate::text::{append_range, chars_to_string, copy_range, str_to_chars};
use vstd::prelude::*;

verus! {

// ---------------------------------------------------------------------------
// HTML comment removal
// ---------------------------------------------------------------------------
/// A comment opener `<!--` starts at `i`.
pub open spec fn opens_at(s: Seq<char>, i: int) -> bool {
    &&& 0 <= i
    &&& i + 4 <= s.len()
    &&& s[i] == '<'
    &&& s[i + 1] == '!'
    &&& s[i + 2] == '-'
    &&& s[i + 3] == '-'
}

/// A comment closer `-->` starts at `i`.
pub open spec fn closes_at(s: Seq<char>, i: int) -> bool {
    &&& 0 <= i
    &&& i + 3 <= s.len()
    &&& s[i] == '-'
    &&& s[i + 1] == '-'
    &&& s[i + 2] == '>'
}

/// Position of the first closer at or after `i`, if any.
pub open spec fn find_close(s: Seq<char>, i: int) -> Option<int>
    decreases s.len() - i,
    when 0 <= i
{
    if i + 3 > s.len() {
        None
    } else if closes_at(s, i) {
        Some(i)
    } else {
        find_close(s, i + 1)
    }
}

pub proof fn lemma_find_close(s: Seq<char>, i: int)
    requires
        0 <= i,
    ensures
        find_close(s, i) matches Some(j) ==> i <= j && closes_at(s, j),
    decreases s.len() - i,
{
    if i + 3 > s.len() {
    } else if closes_at(s, i) {
    } else {
        lemma_find_close(s, i + 1);
    }
}

/// The text from `i` on with comment blocks removed. The shortest block is
/// taken for each opener; an opener with no closer after it is kept verbatim,
/// with all that follows it.
pub open spec fn strip_from(s: Seq<char>, i: int) -> Seq<char>
    decreases s.len() - i,
    when 0 <= i
    via strip_from_decreases
{
    if i >= s.len() {
        Seq::empty()
    } else if opens_at(s, i) {
        match find_close(s, i + 4) {
            Some(j) => strip_from(s, j + 3),
            None => s.subrange(i, s.len() as int),
        }
    } else {
        seq![s[i]] + strip_from(s, i + 1)
    }
}

#[via_fn]
proof fn strip_from_decreases(s: Seq<char>, i: int) {
    if 0 <= i < s.len() && opens_at(s, i) {
        lemma_find_close(s, i + 4);
    }
}

fn opens_at_exec(t: &Vec<char>, i: usize) -> (b: bool)
    requires
        i <= t@.len(),
    ensures
        b == opens_at(t@, i as int),
{
    t.len() - i >= 4 && t[i] == '<' && t[i + 1] == '!' && t[i + 2] == '-' && t[i + 3] == '-'
}

fn closes_at_exec(t: &Vec<char>, i: usize) -> (b: bool)
    requires
        i <= t@.len(),
    ensures
        b == closes_at(t@, i as int),
{
    t.len() - i >= 3 && t[i] == '-' && t[i + 1] == '-' && t[i + 2] == '>'
}

fn find_close_exec(t: &Vec<char>, start: usize) -> (r: Option<usize>)
    requires
        start <= t@.len(),
    ensures
        match r {
            Some(j) => find_close(t@, start as int) == Some(j as int) && start <= j,
            None => find_close(t@, start as int) is None,
        },
{
    let mut i = start;
    while t.len() - i >= 3
        invariant
            start <= i <= t@.len(),
            find_close(t@, start as int) == find_close(t@, i as int),
        decreases t@.len() - i,
    {
        if closes_at_exec(t, i) {
            return Some(i);
        }
        i = i + 1;
    }
    None
}

/// Removes every HTML comment block.
pub fn strip_comments(t: &Vec<char>) -> (out: Vec<char>)
    ensures
        out@ == strip_from(t@, 0),
{
    let mut out: Vec<char> = Vec::new();
    let mut i: usize = 0;
    while i < t.len()
        invariant
            i <= t@.len(),
            out@ + strip_from(t@, i as int) == strip_from(t@, 0),
        decreases t@.len() - i,
    {
        if opens_at_exec(t, i) {
            match find_close_exec(t, i + 4) {
                Some(j) => {
                    proof {
                        lemma_find_close(t@, i + 4);
                    }
                    i = j + 3;
                },
                None => {
                    let ghost prev = out@;
                    append_range(&mut out, t, i, t.len());
                    proof {
                        assert((prev + t@.subrange(i as int, t@.len() as int)) + strip_from(
                            t@,
                            t@.len() as int,
                        ) =~= prev + (t@.subrange(i as int, t@.len() as int) + strip_from(
                            t@,
                            t@.len() as int,
                        )));
                        assert(t@.subrange(i as int, t@.len() as int) + strip_from(
                            t@,
                            t@.len() as int,
                        ) =~= strip_from(t@, i as int));
                    }
                    i = t.len();
                },
            }
        } else {
            let ghost prev = out@;
            out.push(t[i]);
            proof {
                assert(prev.push(t@[i as int]) + strip_from(t@, i + 1) =~= prev + (seq![
                    t@[i as int],
                ] + strip_from(t@, i + 1)));
            }
            i = i + 1;
        }
    }
    out
}

// ---------------------------------------------------------------------------
// Checklist markers
// ---------------------------------------------------------------------------
/// Whitespace that may precede a checklist dash inside one line: space, tab
/// or carriage return, the line-local reading of "optional leading
/// whitespace" (a line never holds a line feed).
pub open spec fn is_line_ws(c: char) -> bool {
    c == ' ' || c == '\t' || c == '\r'
}

/// End of the run of line whitespace starting at `i`.
pub open spec fn ws_end(s: Seq<char>, i: int) -> int
    decreases s.len() - i,
    when 0 <= i <= s.len()
{
    if i < s.len() && is_line_ws(s[i]) {
        ws_end(s, i + 1)
    } else {
        i
    }
}

pub proof fn lemma_ws_end(s: Seq<char>, i: int)
    requires
        0 <= i <= s.len(),
    ensures
        i <= ws_end(s, i) <= s.len(),
    decreases s.len() - i,
{
    if i < s.len() && is_line_ws(s[i]) {
        lemma_ws_end(s, i + 1);
    }
}

/// Length of a checklist prefix `ws* '-' ws+ '[' m ']'` at the start of a
/// line, if the line has one; `m` is `' '` for an empty box, `'x'` for a
/// checked one. Only the lowercase `x` marks a checked box, as the host
/// itself writes it.
pub open spec fn box_prefix_len(l: Seq<char>, m: char) -> Option<int> {
    let a = ws_end(l, 0);
    if a < l.len() && l[a] == '-' {
        let b = ws_end(l, a + 1);
        if b > a + 1 && b + 3 <= l.len() && l[b] == '[' && l[b + 1] == m && l[b + 2] == ']' {
            Some(b + 3)
        } else {
            None
        }
    } else {
        None
    }
}

/// Marker line prefix shown for an empty checkbox.
pub open spec fn blank_marker() -> Seq<char> {
    "- :white_square_button:"@
}

/// Marker line prefix shown for a checked checkbox.
pub open spec fn check_marker() -> Seq<char> {
    "- :white_check_mark:"@
}

/// One line after checklist substitution: an empty checklist item becomes the
/// empty-box marker, a checked one the check marker, keeping the rest of the
/// line; any other line is unchanged.
pub open spec fn checkbox_line(l: Seq<char>) -> Seq<char> {
    match box_prefix_len(l, ' ') {
        Some(k) => blank_marker() + l.skip(k),
        None => match box_prefix_len(l, 'x') {
            Some(k) => check_marker() + l.skip(k),
            None => l,
        },
    }
}

/// End of the line starting at `i`: the next `'\n'`, or the end of the text.
pub open spec fn line_end(s: Seq<char>, i: int) -> int
    decreases s.len() - i,
    when 0 <= i <= s.len()
{
    if i < s.len() {
        if s[i] == '\n' {
            i
        } else {
            line_end(s, i + 1)
        }
    } else {
        i
    }
}

pub proof fn lemma_line_end(s: Seq<char>, i: int)
    requires
        0 <= i <= s.len(),
    ensures
        i <= line_end(s, i) <= s.len(),
        line_end(s, i) < s.len() ==> s[line_end(s, i)] == '\n',
        forall|k: int| i <= k < line_end(s, i) ==> s[k] != '\n',
    decreases s.len() - i,
{
    if i < s.len() && s[i] != '\n' {
        lemma_line_end(s, i + 1);
    }
}

/// The checklist substitution applied to every line of the text.
pub open spec fn checkbox_from(s: Seq<char>, i: int) -> Seq<char>
    decreases s.len() - i,
    when 0 <= i <= s.len()
    via checkbox_from_decreases
{
    if i >= s.len() {
        Seq::empty()
    } else {
        let e = line_end(s, i);
        if e < s.len() {
            checkbox_line(s.subrange(i, e)) + seq!['\n'] + checkbox_from(s, e + 1)
        } else {
            checkbox_line(s.subrange(i, e))
        }
    }
}

#[via_fn]
proof fn checkbox_from_decreases(s: Seq<char>, i: int) {
    if 0 <= i < s.len() {
        lemma_line_end(s, i);
    }
}

fn ws_end_exec(t: &Vec<char>, start: usize) -> (e: usize)
    requires
        start <= t@.len(),
    ensures
        e == ws_end(t@, start as int),
        start <= e <= t@.len(),
{
    let mut i = start;
    while i < t.len() && (t[i] == ' ' || t[i] == '\t' || t[i] == '\r')
        invariant
            start <= i <= t@.len(),
            ws_end(t@, start as int) == ws_end(t@, i as int),
        decreases t@.len() - i,
    {
        i = i + 1;
    }
    i
}

fn box_prefix_exec(l: &Vec<char>, m: char) -> (r: Option<usize>)
    ensures
        match r {
            Some(k) => box_prefix_len(l@, m) == Some(k as int) && k <= l@.len(),
            None => box_prefix_len(l@, m) is None,
        },
{
    let a = ws_end_exec(l, 0);
    if a < l.len() && l[a] == '-' {
        let b = ws_end_exec(l, a + 1);
        if b > a + 1 && l.len() - b >= 3 && l[b] == '[' && l[b + 1] == m && l[b + 2] == ']' {
            Some(b + 3)
        } else {
            None
        }
    } else {
        None
    }
}

fn checkbox_line_exec(l: &Vec<char>) -> (out: Vec<char>)
    ensures
        out@ == checkbox_line(l@),
{
    match box_prefix_exec(l, ' ') {
        Some(k) => {
            let mut out = str_to_chars("- :white_square_button:");
            append_range(&mut out, l, k, l.len());
            proof {
                assert(l@.subrange(k as int, l@.len() as int) =~= l@.skip(k as int));
            }
            out
        },
        None => {
            match box_prefix_exec(l, 'x') {
                Some(k) => {
                    let mut out = str_to_chars("- :white_check_mark:");
                    append_range(&mut out, l, k, l.len());
                    proof {
                        assert(l@.subrange(k as int, l@.len() as int) =~= l@.skip(k as int));
                    }
                    out
                },
                None => copy_range(l, 0, l.len()),
            }
        },
    }
}

fn line_end_exec(t: &Vec<char>, start: usize) -> (e: usize)
    requires
        start <= t@.len(),
    ensures
        e == line_end(t@, start as int),
        start <= e <= t@.len(),
        e < t@.len() ==> t@[e as int] == '\n',
{
    let mut i = start;
    while i < t.len() && t[i] != '\n'
        invariant
            start <= i <= t@.len(),
            line_end(t@, start as int) == line_end(t@, i as int),
        decreases t@.len() - i,
    {
        i = i + 1;
    }
    i
}

/// Replaces every checklist line by its marker form.
pub fn checkbox_lines(t: &Vec<char>) -> (out: Vec<char>)
    ensures
        out@ == checkbox_from(t@, 0),
{
    let mut out: Vec<char> = Vec::new();
    let mut i: usize = 0;
    while i < t.len()
        invariant
            i <= t@.len(),
            out@ + checkbox_from(t@, i as int) == checkbox_from(t@, 0),
        decreases t@.len() - i,
    {
        let e = line_end_exec(t, i);
        let line = copy_range(t, i, e);
        let mut done = checkbox_line_exec(&line);
        let ghost prev = out@;
        if e < t.len() {
            done.push('\n');
            out.append(&mut done);
            proof {
                assert(prev + (checkbox_line(t@.subrange(i as int, e as int)).push('\n'))
                    + checkbox_from(t@, e + 1) =~= prev + (checkbox_line(
                    t@.subrange(i as int, e as int),
                ) + seq!['\n'] + checkbox_from(t@, e + 1)));
            }
            i = e + 1;
        } else {
            out.append(&mut done);
            proof {
                assert(checkbox_from(t@, e as int) =~= Seq::<char>::empty());
                assert(prev + checkbox_line(t@.subrange(i as int, e as int)) + Seq::<
                    char,
                >::empty() =~= prev + checkbox_line(t@.subrange(i as int, e as int)));
            }
            i = e;
            assert(out@ + checkbox_from(t@, i as int) =~= checkbox_from(t@, 0));
        }
    }
    out
}

// ---------------------------------------------------------------------------
// Line-break collapse
// ---------------------------------------------------------------------------
/// Length of the line-break token at `i`: `"\n"` or `"\r\n"`, else nothing.
pub open spec fn token_len(s: Seq<char>, i: int) -> int {
    if i < s.len() && s[i] == '\n' {
        1
    } else if i + 1 < s.len() && s[i] == '\r' && s[i + 1] == '\n' {
        2
    } else {
        0
    }
}

/// End of the run of line-break tokens starting at `i`.
pub open spec fn run_end(s: Seq<char>, i: int) -> int
    decreases s.len() - i,
    when 0 <= i <= s.len()
{
    if token_len(s, i) > 0 {
        run_end(s, i + token_len(s, i))
    } else {
        i
    }
}

/// Number of line-break tokens in the run starting at `i`.
pub open spec fn run_count(s: Seq<char>, i: int) -> int
    decreases s.len() - i,
    when 0 <= i <= s.len()
{
    if token_len(s, i) > 0 {
        1 + run_count(s, i + token_len(s, i))
    } else {
        0
    }
}

pub proof fn lemma_run_end(s: Seq<char>, i: int)
    requires
        0 <= i <= s.len(),
    ensures
        i <= run_end(s, i) <= s.len(),
    decreases s.len() - i,
{
    if token_len(s, i) > 0 {
        lemma_run_end(s, i + token_len(s, i));
    }
}

/// The text from `i` on with every run of three or more line-break tokens
/// replaced by one blank line; shorter runs are kept verbatim.
pub open spec fn collapse_from(s: Seq<char>, i: int) -> Seq<char>
    decreases s.len() - i,
    when 0 <= i <= s.len()
    via collapse_from_decreases
{
    if i >= s.len() {
        Seq::empty()
    } else if token_len(s, i) > 0 {
        let e = run_end(s, i);
        if run_count(s, i) >= 3 {
            seq!['\n', '\n'] + collapse_from(s, e)
        } else {
            s.subrange(i, e) + collapse_from(s, e)
        }
    } else {
        seq![s[i]] + collapse_from(s, i + 1)
    }
}

#[via_fn]
proof fn collapse_from_decreases(s: Seq<char>, i: int) {
    if 0 <= i < s.len() && token_len(s, i) > 0 {
        lemma_run_end(s, i + token_len(s, i));
    }
}

fn token_len_exec(t: &Vec<char>, i: usize) -> (l: usize)
    requires
        i <= t@.len(),
    ensures
        l == token_len(t@, i as int),
{
    if i < t.len() && t[i] == '\n' {
        1
    } else if t.len() - i >= 2 && t[i] == '\r' && t[i + 1] == '\n' {
        2
    } else {
        0
    }
}

fn run_scan(t: &Vec<char>, start: usize) -> (r: (usize, usize))
    requires
        start <= t@.len(),
    ensures
        r.0 == run_count(t@, start as int),
        r.1 == run_end(t@, start as int),
        start <= r.1 <= t@.len(),
{
    let mut i = start;
    let mut c: usize = 0;
    loop
        invariant
            start <= i <= t@.len(),
            c <= i - start,
            run_end(t@, start as int) == run_end(t@, i as int),
            run_count(t@, start as int) == c + run_count(t@, i as int),
        ensures
            start <= i <= t@.len(),
            token_len(t@, i as int) == 0,
            run_end(t@, start as int) == run_end(t@, i as int),
            run_count(t@, start as int) == c + run_count(t@, i as int),
        decreases t@.len() - i,
    {
        let l = token_len_exec(t, i);
        if l == 0 {
            break ;
        }
        let n = t.len();
        assert(i + l <= n);
        i = i + l;
        c = c + 1;
    }
    (c, i)
}

/// Collapses every run of three or more line breaks to one blank line.
pub fn collapse_newlines(t: &Vec<char>) -> (out: Vec<char>)
    ensures
        out@ == collapse_from(t@, 0),
{
    let mut out: Vec<char> = Vec::new();
    let mut i: usize = 0;
    while i < t.len()
        invariant
            i <= t@.len(),
            out@ + collapse_from(t@, i as int) == collapse_from(t@, 0),
        decreases t@.len() - i,
    {
        let l = token_len_exec(t, i);
        if l > 0 {
            let (c, e) = run_scan(t, i);
            let ghost prev = out@;
            if c >= 3 {
                out.push('\n');
                out.push('\n');
                proof {
                    assert(prev.push('\n').push('\n') =~= prev + seq!['\n', '\n']);
                    assert(prev + seq!['\n', '\n'] + collapse_from(t@, e as int) =~= prev + (seq![
                        '\n',
                        '\n',
                    ] + collapse_from(t@, e as int)));
                }
            } else {
                append_range(&mut out, t, i, e);
                proof {
                    assert(prev + t@.subrange(i as int, e as int) + collapse_from(t@, e as int)
                        =~= prev + (t@.subrange(i as int, e as int) + collapse_from(t@, e as int)));
                }
            }
            proof {
                assert(e > i) by {
                    lemma_run_end(t@, i + token_len(t@, i as int));
                }
            }
            i = e;
        } else {
            let ghost prev = out@;
            out.push(t[i]);
            proof {
                assert(prev.push(t@[i as int]) + collapse_from(t@, i + 1) =~= prev + (seq![
                    t@[i as int],
                ] + collapse_from(t@, i + 1)));
            }
            i = i + 1;
        }
    }
    out
}

// ---------------------------------------------------------------------------
// The sanitizer
// ---------------------------------------------------------------------------
/// The whole sanitizer over character sequences: comments removed, then
/// checklist lines replaced, then line-break runs collapsed.
pub open spec fn pretty_spec(s: Seq<char>) -> Seq<char> {
    collapse_from(checkbox_from(strip_from(s, 0), 0), 0)
}

// ---------------------------------------------------------------------------
// Idempotence of the sanitizer
// ---------------------------------------------------------------------------
/// No comment opener occurs anywhere in `s`.
pub open spec fn comment_free(s: Seq<char>) -> bool {
    forall|i: int| !opens_at(s, i)
}

/// No comment closer occurs anywhere in `s`: every opener, if any, is
/// unclosed, so the comment pass removes nothing.
pub open spec fn closer_free(s: Seq<char>) -> bool {
    forall|i: int| !closes_at(s, i)
}

/// No run of three or more line-break tokens occurs in `s`.
pub open spec fn no_triple(s: Seq<char>) -> bool {
    forall|i: int| 0 <= i <= s.len() ==> run_count(s, i) <= 2
}

/// Comment-free text passes the comment pass unchanged.
pub proof fn lemma_strip_identity(s: Seq<char>, i: int)
    requires
        0 <= i <= s.len(),
        comment_free(s),
    ensures
        strip_from(s, i) == s.subrange(i, s.len() as int),
    decreases s.len() - i,
{
    if i >= s.len() {
        assert(strip_from(s, i) =~= s.subrange(i, s.len() as int));
    } else {
        assert(!opens_at(s, i));
        lemma_strip_identity(s, i + 1);
        assert(seq![s[i]] + s.subrange(i + 1, s.len() as int) =~= s.subrange(i, s.len() as int));
    }
}

/// Without a closer there is none to find.
pub proof fn lemma_find_close_none(s: Seq<char>, i: int)
    requires
        0 <= i,
        closer_free(s),
    ensures
        find_close(s, i) is None,
    decreases s.len() - i,
{
    if i + 3 <= s.len() {
        assert(!closes_at(s, i));
        lemma_find_close_none(s, i + 1);
    }
}

/// Closer-free text passes the comment pass unchanged too: every opener in
/// it is unclosed and kept verbatim.
pub proof fn lemma_strip_identity_unclosed(s: Seq<char>, i: int)
    requires
        0 <= i <= s.len(),
        closer_free(s),
    ensures
        strip_from(s, i) == s.subrange(i, s.len() as int),
    decreases s.len() - i,
{
    if i >= s.len() {
        assert(strip_from(s, i) =~= s.subrange(i, s.len() as int));
    } else if opens_at(s, i) {
        lemma_find_close_none(s, i + 4);
    } else {
        lemma_strip_identity_unclosed(s, i + 1);
        assert(seq![s[i]] + s.subrange(i + 1, s.len() as int) =~= s.subrange(i, s.len() as int));
    }
}

/// Text with no long break runs passes the collapse pass unchanged.
pub proof fn lemma_collapse_identity(s: Seq<char>, i: int)
    requires
        0 <= i <= s.len(),
        no_triple(s),
    ensures
        collapse_from(s, i) == s.subrange(i, s.len() as int),
    decreases s.len() - i,
{
    if i >= s.len() {
        assert(collapse_from(s, i) =~= s.subrange(i, s.len() as int));
    } else if token_len(s, i) > 0 {
        let e = run_end(s, i);
        lemma_run_end(s, i + token_len(s, i));
        assert(run_count(s, i) <= 2);
        lemma_collapse_identity(s, e);
        assert(s.subrange(i, e) + s.subrange(e, s.len() as int) =~= s.subrange(
            i,
            s.len() as int,
        ));
    } else {
        lemma_collapse_identity(s, i + 1);
        assert(seq![s[i]] + s.subrange(i + 1, s.len() as int) =~= s.subrange(i, s.len() as int));
    }
}

/// A text without `'\n'` is one whole line.
pub proof fn lemma_line_end_no_newline(t: Seq<char>, j: int)
    requires
        0 <= j <= t.len(),
        forall|k: int| 0 <= k < t.len() ==> t[k] != '\n',
    ensures
        line_end(t, j) == t.len(),
    decreases t.len() - j,
{
    if j < t.len() {
        lemma_line_end_no_newline(t, j + 1);
    }
}

/// With a newline-free front part, the first line of `a + '\n' + b` is `a`.
pub proof fn lemma_line_end_concat(a: Seq<char>, b: Seq<char>, j: int)
    requires
        0 <= j <= a.len(),
        forall|k: int| 0 <= k < a.len() ==> a[k] != '\n',
    ensures
        line_end(a + seq!['\n'] + b, j) == a.len(),
    decreases a.len() - j,
{
    let c = a + seq!['\n'] + b;
    if j < a.len() {
        assert(c[j] == a[j]);
        lemma_line_end_concat(a, b, j + 1);
    } else {
        assert(c[j] == '\n');
    }
}

/// The checklist substitution never introduces a line break into a line.
pub proof fn lemma_checkbox_line_no_newline(l: Seq<char>)
    requires
        forall|k: int| 0 <= k < l.len() ==> l[k] != '\n',
    ensures
        forall|k: int| 0 <= k < checkbox_line(l).len() ==> checkbox_line(l)[k] != '\n',
{
    reveal_strlit("- :white_square_button:");
    reveal_strlit("- :white_check_mark:");
    let o = checkbox_line(l);
    match box_prefix_len(l, ' ') {
        Some(k) => {
            lemma_ws_end(l, 0);
            assert forall|j: int| 0 <= j < o.len() implies o[j] != '\n' by {
                if j >= blank_marker().len() {
                    assert(o[j] == l[k + j - blank_marker().len()]);
                }
            }
        },
        None => {
            match box_prefix_len(l, 'x') {
                Some(k) => {
                    lemma_ws_end(l, 0);
                    assert forall|j: int| 0 <= j < o.len() implies o[j] != '\n' by {
                        if j >= check_marker().len() {
                            assert(o[j] == l[k + j - check_marker().len()]);
                        }
                    }
                },
                None => {},
            }
        },
    }
}

/// The checklist substitution is idempotent on a single line: a rewritten
/// line is not a checklist line again.
pub proof fn lemma_checkbox_line_idempotent(l: Seq<char>)
    ensures
        checkbox_line(checkbox_line(l)) == checkbox_line(l),
{
    reveal_strlit("- :white_square_button:");
    reveal_strlit("- :white_check_mark:");
    let o = checkbox_line(l);
    if box_prefix_len(l, ' ') is Some || box_prefix_len(l, 'x') is Some {
        assert(o[0] == '-' && o[1] == ' ' && o[2] == ':');
        assert(ws_end(o, 0) == 0);
        assert(ws_end(o, 2) == 2);
        assert(ws_end(o, 1) == 2);
        assert(box_prefix_len(o, ' ') is None);
        assert(box_prefix_len(o, 'x') is None);
    }
}

/// Positions at or past `d` read the same in `s` and in `s.skip(d)`, so line
/// ends agree up to the shift.
pub proof fn lemma_line_end_shift(s: Seq<char>, d: int, j: int)
    requires
        0 <= d <= j <= s.len(),
    ensures
        line_end(s, j) == d + line_end(s.skip(d), j - d),
    decreases s.len() - j,
{
    if j < s.len() {
        assert(s.skip(d)[j - d] == s[j]);
        if s[j] != '\n' {
            lemma_line_end_shift(s, d, j + 1);
        }
    }
}

/// The checklist pass from `j` on sees only the suffix: it agrees with the
/// pass over `s.skip(d)`.
pub proof fn lemma_checkbox_shift(s: Seq<char>, d: int, j: int)
    requires
        0 <= d <= j <= s.len(),
    ensures
        checkbox_from(s, j) == checkbox_from(s.skip(d), j - d),
    decreases s.len() - j,
{
    let t = s.skip(d);
    lemma_line_end_shift(s, d, j);
    if j < s.len() {
        let e = line_end(s, j);
        lemma_line_end(s, j);
        assert(s.subrange(j, e) =~= t.subrange(j - d, e - d));
        if e < s.len() {
            lemma_checkbox_shift(s, d, e + 1);
        }
    }
}

/// The checklist pass is idempotent: applying it to its own output changes
/// nothing.
pub proof fn lemma_checkbox_idempotent(s: Seq<char>)
    ensures
        checkbox_from(checkbox_from(s, 0), 0) == checkbox_from(s, 0),
    decreases s.len(),
{
    if s.len() > 0 {
        let e = line_end(s, 0);
        lemma_line_end(s, 0);
        let l = s.subrange(0, e);
        let o = checkbox_line(l);
        lemma_checkbox_line_no_newline(l);
        lemma_checkbox_line_idempotent(l);
        if e < s.len() {
            let rest = checkbox_from(s, e + 1);
            lemma_checkbox_shift(s, e + 1, e + 1);
            lemma_checkbox_idempotent(s.skip(e + 1));
            let c = o + seq!['\n'] + rest;
            assert(checkbox_from(s, 0) == c);
            lemma_line_end_concat(o, rest, 0);
            assert(line_end(c, 0) == o.len());
            assert(c.subrange(0, o.len() as int) =~= o);
            lemma_checkbox_shift(c, o.len() as int + 1, o.len() as int + 1);
            assert(c.skip(o.len() as int + 1) =~= rest);
            assert(checkbox_from(c, 0) == checkbox_line(o) + seq!['\n'] + checkbox_from(
                rest,
                0,
            ));
            assert(checkbox_from(rest, 0) == rest);
            assert(checkbox_from(c, 0) =~= c);
        } else {
            let c = o;
            assert(checkbox_from(s, 0) == c);
            lemma_line_end_no_newline(c, 0);
            if c.len() > 0 {
                assert(c.subrange(0, c.len() as int) =~= c);
                assert(checkbox_from(c, 0) == checkbox_line(c));
            }
        }
    }
}

/// The checklist pass introduces no comment opener: its output of
/// comment-free text is comment-free.
pub proof fn lemma_checkbox_comment_free(s: Seq<char>)
    requires
        comment_free(s),
    ensures
        comment_free(checkbox_from(s, 0)),
    decreases s.len(),
{
    reveal_strlit("- :white_square_button:");
    reveal_strlit("- :white_check_mark:");
    if s.len() > 0 {
        let e = line_end(s, 0);
        lemma_line_end(s, 0);
        let l = s.subrange(0, e);
        let o = checkbox_line(l);
        assert forall|i: int| !(#[trigger] opens_at(o, i)) by {
            lemma_checkbox_line_opener(s, e, i);
        }
        if e < s.len() {
            let rest = checkbox_from(s, e + 1);
            lemma_checkbox_shift(s, e + 1, e + 1);
            assert forall|i: int| !(#[trigger] opens_at(s.skip(e + 1), i)) by {
                if opens_at(s.skip(e + 1), i) {
                    assert(s.skip(e + 1)[i] == s[i + e + 1]);
                    assert(s.skip(e + 1)[i + 1] == s[i + e + 2]);
                    assert(s.skip(e + 1)[i + 2] == s[i + e + 3]);
                    assert(s.skip(e + 1)[i + 3] == s[i + e + 4]);
                    assert(opens_at(s, i + e + 1));
                }
            }
            lemma_checkbox_comment_free(s.skip(e + 1));
            let c = o + seq!['\n'] + rest;
            assert(checkbox_from(s, 0) == c);
            assert forall|i: int| !(#[trigger] opens_at(c, i)) by {
                if opens_at(c, i) {
                    if i + 4 <= o.len() {
                        assert(c[i] == o[i]);
                        assert(c[i + 1] == o[i + 1]);
                        assert(c[i + 2] == o[i + 2]);
                        assert(c[i + 3] == o[i + 3]);
                        assert(opens_at(o, i));
                    } else if i >= o.len() + 1 {
                        assert(c[i] == rest[i - o.len() - 1]);
                        assert(c[i + 1] == rest[i - o.len()]);
                        assert(c[i + 2] == rest[i - o.len() + 1]);
                        assert(c[i + 3] == rest[i - o.len() + 2]);
                        assert(opens_at(rest, i - o.len() - 1));
                    } else {
                        assert(i <= o.len() <= i + 3);
                        assert(c[o.len() as int] == '\n');
                    }
                }
            }
        }
    }
}

/// No comment opener survives in a rewritten line: the markers hold no `<`,
/// and the rest of the line comes from comment-free text.
proof fn lemma_checkbox_line_opener(s: Seq<char>, e: int, i: int)
    requires
        comment_free(s),
        0 <= e <= s.len(),
        forall|k: int| 0 <= k < e ==> s[k] != '\n',
    ensures
        !opens_at(checkbox_line(s.subrange(0, e)), i),
{
    reveal_strlit("- :white_square_button:");
    reveal_strlit("- :white_check_mark:");
    let l = s.subrange(0, e);
    let o = checkbox_line(l);
    if opens_at(o, i) {
        match box_prefix_len(l, ' ') {
            Some(k) => {
                lemma_ws_end(l, 0);
                assert(i >= blank_marker().len()) by {
                    if i < blank_marker().len() {
                        assert(o[i] == blank_marker()[i]);
                    }
                }
                let m = blank_marker().len() as int;
                assert(o[i] == l[k + i - m]);
                assert(o[i + 1] == l[k + i - m + 1]);
                assert(o[i + 2] == l[k + i - m + 2]);
                assert(o[i + 3] == l[k + i - m + 3]);
                assert(opens_at(s, k + i - m));
            },
            None => {
                match box_prefix_len(l, 'x') {
                    Some(k) => {
                        lemma_ws_end(l, 0);
                        assert(i >= check_marker().len()) by {
                            if i < check_marker().len() {
                                assert(o[i] == check_marker()[i]);
                            }
                        }
                        let m = check_marker().len() as int;
                        assert(o[i] == l[k + i - m]);
                        assert(o[i + 1] == l[k + i - m + 1]);
                        assert(o[i + 2] == l[k + i - m + 2]);
                        assert(o[i + 3] == l[k + i - m + 3]);
                        assert(opens_at(s, k + i - m));
                    },
                    None => {
                        assert(o[i] == s[i]);
                        assert(o[i + 1] == s[i + 1]);
                        assert(o[i + 2] == s[i + 2]);
                        assert(o[i + 3] == s[i + 3]);
                        assert(opens_at(s, i));
                    },
                }
            },
        }
    }
}

/// Break tokens at or past `d` read the same in `s` and in `s.skip(d)`, so
/// run counts agree up to the shift.
pub proof fn lemma_run_count_shift(s: Seq<char>, d: int, j: int)
    requires
        0 <= d <= j <= s.len(),
    ensures
        run_count(s, j) == run_count(s.skip(d), j - d),
        token_len(s, j) == token_len(s.skip(d), j - d),
    decreases s.len() - j,
{
    let t = s.skip(d);
    if j < s.len() {
        assert(t[j - d] == s[j]);
        if j + 1 < s.len() {
            assert(t[j - d + 1] == s[j + 1]);
        }
    }
    if token_len(s, j) > 0 {
        lemma_run_count_shift(s, d, j + token_len(s, j));
    }
}

/// The checklist substitution leaves an empty line and a lone carriage
/// return unchanged.
pub proof fn lemma_checkbox_line_trivial()
    ensures
        checkbox_line(Seq::<char>::empty()) == Seq::<char>::empty(),
        checkbox_line(seq!['\r']) == seq!['\r'],
{
    assert(ws_end(Seq::<char>::empty(), 0) == 0);
    let r = seq!['\r'];
    assert(is_line_ws(r[0]));
    assert(ws_end(r, 1) == 1);
    assert(ws_end(r, 0) == 1);
}

/// The run of break tokens at the head of the text survives the checklist
/// pass unchanged: leading blank lines are not checklist lines.
pub proof fn lemma_checkbox_head_run(t: Seq<char>)
    ensures
        run_count(checkbox_from(t, 0), 0) == run_count(t, 0),
    decreases t.len(),
{
    reveal_strlit("- :white_square_button:");
    reveal_strlit("- :white_check_mark:");
    lemma_checkbox_line_trivial();
    if t.len() == 0 {
    } else {
        let e = line_end(t, 0);
        lemma_line_end(t, 0);
        let l = t.subrange(0, e);
        let o = checkbox_line(l);
        lemma_checkbox_line_no_newline(l);
        if e < t.len() {
            let rest = checkbox_from(t, e + 1);
            lemma_checkbox_shift(t, e + 1, e + 1);
            lemma_checkbox_head_run(t.skip(e + 1));
            let c = o + seq!['\n'] + rest;
            assert(checkbox_from(t, 0) == c);
            if e == 0 {
                assert(l =~= Seq::<char>::empty());
                assert(o =~= Seq::<char>::empty());
                assert(c =~= seq!['\n'] + rest);
                assert(t[0] == '\n');
                assert(c[0] == '\n');
                assert(token_len(c, 0) == 1);
                assert(token_len(t, 0) == 1);
                lemma_run_count_shift(c, 1, 1);
                assert(c.skip(1) =~= rest);
                lemma_run_count_shift(t, 1, 1);
                assert(run_count(c, 0) == 1 + run_count(rest, 0));
                assert(run_count(t, 0) == 1 + run_count(t.skip(1), 0));
            } else if e == 1 && t[0] == '\r' {
                assert(l =~= seq!['\r']);
                assert(o == seq!['\r']);
                assert(t[1] == '\n');
                assert(c[0] == '\r' && c[1] == '\n');
                assert(token_len(c, 0) == 2);
                assert(token_len(t, 0) == 2);
                lemma_run_count_shift(c, 2, 2);
                assert(c.skip(2) =~= rest);
                lemma_run_count_shift(t, 2, 2);
                assert(run_count(c, 0) == 1 + run_count(rest, 0));
                assert(run_count(t, 0) == 1 + run_count(t.skip(2), 0));
            } else {
                assert(t[0] != '\n');
                assert(token_len(t, 0) == 0) by {
                    if t[0] == '\r' && 1 < t.len() && t[1] == '\n' {
                        assert(e == 1);
                        assert(l =~= seq!['\r']);
                    }
                }
                assert(run_count(t, 0) == 0);
                assert(o.len() > 0) by {
                    if box_prefix_len(l, ' ') is None && box_prefix_len(l, 'x') is None {
                        assert(o == l);
                    }
                }
                assert(c[0] == o[0]);
                assert(token_len(c, 0) == 0) by {
                    assert(o[0] != '\n');
                    if c[0] == '\r' && 1 < c.len() && c[1] == '\n' {
                        match box_prefix_len(l, ' ') {
                            Some(k) => {
                                assert(o[0] == blank_marker()[0]);
                            },
                            None => {
                                match box_prefix_len(l, 'x') {
                                    Some(k) => {
                                        assert(o[0] == check_marker()[0]);
                                    },
                                    None => {
                                        assert(o == l);
                                        assert(l[0] == '\r');
                                        if l.len() == 1 {
                                            assert(l =~= seq!['\r']);
                                            assert(false);
                                        } else {
                                            assert(c[1] == l[1]);
                                        }
                                    },
                                }
                            },
                        }
                    }
                }
                assert(run_count(c, 0) == 0);
            }
        } else {
            assert(checkbox_from(t, 0) == o);
            assert(token_len(t, 0) == 0) by {
                if t[0] == '\r' && 1 < t.len() && t[1] == '\n' {
                    assert(false);
                }
            }
            assert(run_count(t, 0) == 0);
            if o.len() > 0 {
                assert(token_len(o, 0) == 0) by {
                    assert(o[0] != '\n');
                    if o[0] == '\r' && 1 < o.len() && o[1] == '\n' {
                        assert(false);
                    }
                }
            }
            assert(run_count(o, 0) == 0);
        }
    }
}

/// The checklist pass keeps break runs short: its output of text with no
/// long break run has none either.
pub proof fn lemma_checkbox_no_triple(s: Seq<char>)
    requires
        no_triple(s),
    ensures
        no_triple(checkbox_from(s, 0)),
    decreases s.len(),
{
    if s.len() == 0 {
        assert forall|i: int| 0 <= i <= checkbox_from(s, 0).len() implies run_count(
            checkbox_from(s, 0),
            i,
        ) <= 2 by {
            assert(checkbox_from(s, 0) == Seq::<char>::empty());
        }
    } else {
        let e = line_end(s, 0);
        lemma_line_end(s, 0);
        let l = s.subrange(0, e);
        let o = checkbox_line(l);
        lemma_checkbox_line_no_newline(l);
        if e < s.len() {
            let rest = checkbox_from(s, e + 1);
            lemma_checkbox_shift(s, e + 1, e + 1);
            let tail = s.skip(e + 1);
            assert forall|i: int| 0 <= i <= tail.len() implies run_count(tail, i) <= 2 by {
                lemma_run_count_shift(s, e + 1, i + e + 1);
            }
            lemma_checkbox_no_triple(tail);
            lemma_checkbox_head_run(tail);
            assert(run_count(rest, 0) <= 1) by {
                assert(s[e as int] == '\n');
                assert(token_len(s, e) == 1);
                assert(run_count(s, e) == 1 + run_count(s, e + 1));
                assert(run_count(s, e) <= 2);
                lemma_run_count_shift(s, e + 1, e + 1);
            }
            let c = o + seq!['\n'] + rest;
            assert(checkbox_from(s, 0) == c);
            let m = o.len() as int;
            assert forall|i: int| 0 <= i <= c.len() implies run_count(c, i) <= 2 by {
                if i >= m + 1 {
                    lemma_run_count_shift(c, m + 1, i);
                    assert(c.skip(m + 1) =~= rest);
                } else if i == m {
                    assert(c[m] == '\n');
                    assert(token_len(c, m) == 1);
                    lemma_run_count_shift(c, m + 1, m + 1);
                    assert(c.skip(m + 1) =~= rest);
                    assert(run_count(c, m) == 1 + run_count(rest, 0));
                } else {
                    assert(c[i] == o[i]);
                    assert(o[i] != '\n');
                    if c[i] == '\r' && i + 1 < c.len() && c[i + 1] == '\n' {
                        assert(i + 1 == m);
                        assert(token_len(c, i) == 2);
                        lemma_run_count_shift(c, m + 1, m + 1);
                        assert(c.skip(m + 1) =~= rest);
                        assert(run_count(c, i) == 1 + run_count(c, i + 2));
                    } else {
                        assert(token_len(c, i) == 0);
                        assert(run_count(c, i) == 0);
                    }
                }
            }
        } else {
            assert(checkbox_from(s, 0) == o);
            assert forall|i: int| 0 <= i <= o.len() implies run_count(o, i) <= 2 by {
                if i < o.len() {
                    assert(o[i] != '\n');
                    if i + 1 < o.len() {
                        assert(o[i + 1] != '\n');
                    }
                    assert(token_len(o, i) == 0);
                    assert(run_count(o, i) == 0);
                } else {
                    assert(token_len(o, i) == 0);
                    assert(run_count(o, i) == 0);
                }
            }
        }
    }
}

/// No comment closer survives in a rewritten line: the markers hold no pair
/// of dashes, and the rest of the line comes from closer-free text.
proof fn lemma_checkbox_line_closer(s: Seq<char>, e: int, i: int)
    requires
        closer_free(s),
        0 <= e <= s.len(),
        forall|k: int| 0 <= k < e ==> s[k] != '\n',
    ensures
        !closes_at(checkbox_line(s.subrange(0, e)), i),
{
    reveal_strlit("- :white_square_button:");
    reveal_strlit("- :white_check_mark:");
    assert(forall|j: int| 1 <= j < blank_marker().len() ==> #[trigger] blank_marker()[j] != '-');
    assert(forall|j: int| 1 <= j < check_marker().len() ==> #[trigger] check_marker()[j] != '-');
    let l = s.subrange(0, e);
    let o = checkbox_line(l);
    if closes_at(o, i) {
        match box_prefix_len(l, ' ') {
            Some(k) => {
                lemma_ws_end(l, 0);
                assert(i >= blank_marker().len()) by {
                    if i < blank_marker().len() {
                        assert(o[i] == blank_marker()[i]);
                        assert(i == 0);
                        assert(o[1] == blank_marker()[1]);
                    }
                }
                let m = blank_marker().len() as int;
                assert(o[i] == l[k + i - m]);
                assert(o[i + 1] == l[k + i - m + 1]);
                assert(o[i + 2] == l[k + i - m + 2]);
                assert(closes_at(s, k + i - m));
            },
            None => {
                match box_prefix_len(l, 'x') {
                    Some(k) => {
                        lemma_ws_end(l, 0);
                        assert(i >= check_marker().len()) by {
                            if i < check_marker().len() {
                                assert(o[i] == check_marker()[i]);
                                assert(i == 0);
                                assert(o[1] == check_marker()[1]);
                            }
                        }
                        let m = check_marker().len() as int;
                        assert(o[i] == l[k + i - m]);
                        assert(o[i + 1] == l[k + i - m + 1]);
                        assert(o[i + 2] == l[k + i - m + 2]);
                        assert(closes_at(s, k + i - m));
                    },
                    None => {
                        assert(o[i] == s[i]);
                        assert(o[i + 1] == s[i + 1]);
                        assert(o[i + 2] == s[i + 2]);
                        assert(closes_at(s, i));
                    },
                }
            },
        }
    }
}

/// The checklist pass introduces no comment closer either: its output of
/// closer-free text is closer-free.
pub proof fn lemma_checkbox_closer_free(s: Seq<char>)
    requires
        closer_free(s),
    ensures
        closer_free(checkbox_from(s, 0)),
    decreases s.len(),
{
    if s.len() > 0 {
        let e = line_end(s, 0);
        lemma_line_end(s, 0);
        let l = s.subrange(0, e);
        let o = checkbox_line(l);
        assert forall|i: int| !(#[trigger] closes_at(o, i)) by {
            lemma_checkbox_line_closer(s, e, i);
        }
        if e < s.len() {
            let rest = checkbox_from(s, e + 1);
            lemma_checkbox_shift(s, e + 1, e + 1);
            assert forall|i: int| !(#[trigger] closes_at(s.skip(e + 1), i)) by {
                if closes_at(s.skip(e + 1), i) {
                    assert(s.skip(e + 1)[i] == s[i + e + 1]);
                    assert(s.skip(e + 1)[i + 1] == s[i + e + 2]);
                    assert(s.skip(e + 1)[i + 2] == s[i + e + 3]);
                    assert(closes_at(s, i + e + 1));
                }
            }
            lemma_checkbox_closer_free(s.skip(e + 1));
            let c = o + seq!['\n'] + rest;
            assert(checkbox_from(s, 0) == c);
            assert forall|i: int| !(#[trigger] closes_at(c, i)) by {
                if closes_at(c, i) {
                    if i + 3 <= o.len() {
                        assert(c[i] == o[i]);
                        assert(c[i + 1] == o[i + 1]);
                        assert(c[i + 2] == o[i + 2]);
                        assert(closes_at(o, i));
                    } else if i >= o.len() + 1 {
                        assert(c[i] == rest[i - o.len() - 1]);
                        assert(c[i + 1] == rest[i - o.len()]);
                        assert(c[i + 2] == rest[i - o.len() + 1]);
                        assert(closes_at(rest, i - o.len() - 1));
                    } else {
                        assert(i <= o.len() <= i + 2);
                        assert(c[o.len() as int] == '\n');
                    }
                }
            }
        }
    }
}

/// On a single comment-free line, sanitizing is exactly the checklist
/// substitution: the matched prefix of a checklist item becomes `- ` and the
/// glyph marker with the rest of the line unchanged, and any other line is
/// kept as it is.
pub proof fn lemma_pretty_single_line(x: Seq<char>)
    requires
        comment_free(x),
        forall|k: int| 0 <= k < x.len() ==> x[k] != '\n',
    ensures
        pretty_spec(x) == checkbox_line(x),
        box_prefix_len(x, ' ') matches Some(k) ==> pretty_spec(x) == blank_marker() + x.skip(k),
        box_prefix_len(x, 'x') matches Some(k) ==> (box_prefix_len(x, ' ') is None
            ==> pretty_spec(x) == check_marker() + x.skip(k)),
{
    lemma_strip_identity(x, 0);
    assert(x.subrange(0, x.len() as int) =~= x);
    if x.len() == 0 {
        lemma_checkbox_line_trivial();
    } else {
        lemma_line_end_no_newline(x, 0);
    }
    let y = checkbox_from(x, 0);
    assert(y == checkbox_line(x));
    lemma_checkbox_line_no_newline(x);
    assert forall|i: int| 0 <= i <= y.len() implies run_count(y, i) <= 2 by {
        if i < y.len() {
            assert(y[i] != '\n');
            if i + 1 < y.len() {
                assert(y[i + 1] != '\n');
            }
        }
        assert(token_len(y, i) == 0);
        assert(run_count(y, i) == 0);
    }
    lemma_collapse_identity(y, 0);
    assert(y.subrange(0, y.len() as int) =~= y);
}

/// Sanitizing is idempotent on text already free of HTML comment blocks —
/// either no opener occurs at all, or no closer does, so that every opener
/// is unclosed and kept — and free of runs of three or more line breaks.
pub proof fn lemma_pretty_idempotent(x: Seq<char>)
    requires
        comment_free(x) || closer_free(x),
        no_triple(x),
    ensures
        pretty_spec(pretty_spec(x)) == pretty_spec(x),
{
    if comment_free(x) {
        lemma_strip_identity(x, 0);
    } else {
        lemma_strip_identity_unclosed(x, 0);
    }
    assert(x.subrange(0, x.len() as int) =~= x);
    let y = checkbox_from(x, 0);
    lemma_checkbox_no_triple(x);
    lemma_collapse_identity(y, 0);
    assert(y.subrange(0, y.len() as int) =~= y);
    assert(pretty_spec(x) == y);
    if comment_free(x) {
        lemma_checkbox_comment_free(x);
        lemma_strip_identity(y, 0);
    } else {
        lemma_checkbox_closer_free(x);
        lemma_strip_identity_unclosed(y, 0);
    }
    lemma_checkbox_idempotent(x);
    assert(pretty_spec(y) == y);
}

/// Normalizes remote body text for display.
pub fn pretty(body: &str) -> (r: String)
    ensures
        r@ == pretty_spec(body@),
{
    let chars = str_to_chars(body);
    let s1 = strip_comments(&chars);
    let s2 = checkbox_lines(&s1);
    let s3 = collapse_newlines(&s2);
    chars_to_string(&s3)
}

} // verus!

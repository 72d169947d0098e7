//! The numbered excerpt of a source file around a chunk, as the MCP
//! neighbours tool returns it.
use vstd::prelude::*;
use crate::strings::{chars_of, decimal, decimal_of, extend, extend_str, find, find_vec, join, join_vec, lines, lines_vec, slice, string_of};

verus! {

/// The most lines a window may span.
pub const MAX_WINDOW: usize = 500;

/// Lines requested when none are given.
pub const DEFAULT_WINDOW: usize = 20;

/// The window size asked for, capped.
pub open spec fn window_size(w: Option<usize>) -> nat {
    let asked: nat = match w {
        Some(x) => x as nat,
        None => DEFAULT_WINDOW as nat,
    };
    if asked < MAX_WINDOW { asked } else { MAX_WINDOW as nat }
}

/// `s` right-aligned in a field of `width` characters.
pub open spec fn pad_left(s: Seq<char>, width: nat) -> Seq<char> {
    if s.len() < width {
        Seq::new((width - s.len()) as nat, |i: int| ' ') + s
    } else {
        s
    }
}

/// One excerpt line: the 1-based line number right-aligned in five
/// columns, ` | `, and the line.
pub open spec fn numbered_line(i: nat, line: Seq<char>) -> Seq<char> {
    pad_left(decimal(i + 1), 5) + " | "@ + line
}

/// A window of lines (0-based, inclusive) around a chunk: centred on its
/// start line (clamped into the file), `window / 2` lines each side,
/// clipped at the file's ends.
pub open spec fn window_bounds(total: nat, chunk_start_line: nat, window: nat) -> (nat, nat) {
    let last: nat = (total - 1) as nat;
    let before: nat = if chunk_start_line > 0 { (chunk_start_line - 1) as nat } else { 0 };
    let anchor: nat = if before < last { before } else { last };
    let half: nat = window / 2;
    let start: nat = if anchor > half { (anchor - half) as nat } else { 0 };
    let end: nat = if anchor + half < last { anchor + half } else { last };
    (start, end)
}

/// The numbered lines `start..=end` of `ls`.
pub open spec fn numbered_lines(ls: Seq<Seq<char>>, start: nat, end: nat) -> Seq<Seq<char>> {
    Seq::new((end + 1 - start) as nat, |k: int| numbered_line((start + k) as nat, ls[start + k]))
}

/// A window of a source file: its first and last line (1-based) and the
/// numbered excerpt.
#[derive(Debug, Clone)]
pub struct SourceWindow {
    pub start_line: usize,
    pub end_line: usize,
    pub excerpt: String,
}

fn padded_number(n: usize) -> (r: Vec<char>)
    ensures
        r@ == pad_left(decimal(n as nat), 5),
{
    let d = decimal_of(n);
    if d.len() < 5 {
        let mut r: Vec<char> = Vec::new();
        let pad = 5 - d.len();
        let mut k: usize = 0;
        while k < pad
            invariant
                k <= pad,
                r@ == Seq::new(k as nat, |i: int| ' '),
            decreases pad - k,
        {
            r.push(' ');
            assert(r@ =~= Seq::new((k + 1) as nat, |i: int| ' '));
            k += 1;
        }
        extend(&mut r, &d);
        r
    } else {
        d
    }
}

fn numbered_excerpt(ls: &Vec<Vec<char>>, start: usize, end: usize) -> (r: Vec<Vec<char>>)
    requires
        start <= end < ls.len(),
    ensures
        r@.map_values(|v: Vec<char>| v@) == numbered_lines(ls@.map_values(|v: Vec<char>| v@), start as nat, end as nat),
{
    let ghost lv = ls@.map_values(|v: Vec<char>| v@);
    let mut out: Vec<Vec<char>> = Vec::new();
    let mut i = start;
    while i <= end
        invariant
            start <= i <= end + 1,
            end < ls.len(),
            lv == ls@.map_values(|v: Vec<char>| v@),
            out@.map_values(|v: Vec<char>| v@) == numbered_lines(lv, start as nat, end as nat).take(i - start),
        decreases end + 1 - i,
    {
        let mut line = padded_number(i + 1);
        extend_str(&mut line, " | ");
        extend(&mut line, &ls[i]);
        proof {
            reveal_strlit(" | ");
        }
        assert(ls@[i as int]@ == lv[i as int]);
        assert(line@ =~= numbered_line(i as nat, lv[i as int]));
        let ghost before_out = out@.map_values(|v: Vec<char>| v@);
        out.push(line);
        assert(out@.map_values(|v: Vec<char>| v@) =~= before_out.push(numbered_line(i as nat, lv[i as int])));
        assert(numbered_lines(lv, start as nat, end as nat).take(i + 1 - start) =~= numbered_lines(
            lv,
            start as nat,
            end as nat,
        ).take(i - start).push(numbered_line(i as nat, lv[i as int])));
        i += 1;
    }
    assert(numbered_lines(lv, start as nat, end as nat).take(end + 1 - start) =~= numbered_lines(
        lv,
        start as nat,
        end as nat,
    ));
    out
}

/// The window of `content` around a chunk starting at 1-based line
/// `chunk_start_line`, spanning `window` lines (default 20, at most 500);
/// `None` for a file without lines.
pub fn source_window(content: &str, chunk_start_line: usize, window: Option<usize>) -> (r: Option<SourceWindow>)
    ensures
        match r {
            None => lines(content@).len() == 0,
            Some(w) => lines(content@).len() > 0 && w.start_line > 0 && w.end_line > 0 && ((w.start_line - 1) as nat, (w.end_line - 1) as nat) == window_bounds(
                lines(content@).len(),
                chunk_start_line as nat,
                window_size(window),
            ) && w.excerpt@ == join(
                numbered_lines(lines(content@), (w.start_line - 1) as nat, (w.end_line - 1) as nat),
                "\n"@,
            ),
        },
{
    let w: usize = match window {
        Some(x) => if x < MAX_WINDOW { x } else { MAX_WINDOW },
        None => DEFAULT_WINDOW,
    };
    let ls = lines_vec(&chars_of(content));
    let total = ls.len();
    if total == 0 {
        return None;
    }
    let last = total - 1;
    let before = if chunk_start_line > 0 { chunk_start_line - 1 } else { 0 };
    let anchor = if before < last { before } else { last };
    let half = w / 2;
    let start = if anchor > half { anchor - half } else { 0 };
    let end = if half < last - anchor { anchor + half } else { last };
    let out = numbered_excerpt(&ls, start, end);
    let mut nl: Vec<char> = Vec::new();
    nl.push('\n');
    proof {
        reveal_strlit("\n");
        assert(nl@ =~= "\n"@);
    }
    let excerpt = join_vec(&out, &nl);
    Some(SourceWindow { start_line: start + 1, end_line: end + 1, excerpt: string_of(&excerpt) })
}

/// A project-prefixed path without its first component (unchanged
/// without a `/`): where a file is found when the index root was the
/// parent of the project.
pub open spec fn without_first_component(path: Seq<char>) -> Seq<char> {
    match find(path, "/"@) {
        Some(i) => path.skip(i + 1),
        None => path,
    }
}

/// The path with its first component dropped.
pub fn strip_first_component(path: &str) -> (r: String)
    ensures
        r@ == without_first_component(path@),
{
    let p = chars_of(path);
    match find_vec(&p, &chars_of("/")) {
        Some(i) => {
            proof {
                reveal_strlit("/");
                crate::strings::lemma_find(p@, "/"@);
                assert("/"@.len() == 1);
                assert(i + 1 <= p.len());
            }
            string_of(&slice(&p, i + 1, p.len()))
        },
        None => path.to_string(),
    }
}

} // verus!

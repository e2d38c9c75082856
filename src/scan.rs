//! The line-marker scanner and the reconstitution of the target file.
//!
//! The scan is a two-state automaton. A marker line for any file leaves the
//! target's span; a marker line for the target enters it; a marker line is
//! never kept; any other line is kept exactly when the scan is inside the
//! target's span.

use vstd::prelude::*;
use vstd::utf8::encode_utf8;
use crate::error::PpError;
use crate::marker::{classify, is_marker, is_target_marker};

verus! {

/// The text of each line.
pub open spec fn views(v: Seq<String>) -> Seq<Seq<char>> {
    v.map_values(|l: String| l@)
}

pub open spec fn marker_line(l: Seq<char>) -> bool {
    is_marker(encode_utf8(l))
}

pub open spec fn target_line(l: Seq<char>, t: Seq<char>) -> bool {
    is_target_marker(encode_utf8(l), encode_utf8(t))
}

/// Whether the scan is inside the span of `t` after reading `ls`: the last
/// marker line of `ls` names `t`.
pub open spec fn inside_after(ls: Seq<Seq<char>>, t: Seq<char>) -> bool
    decreases ls.len(),
{
    if ls.len() == 0 {
        false
    } else if marker_line(ls.last()) {
        target_line(ls.last(), t)
    } else {
        inside_after(ls.drop_last(), t)
    }
}

/// The lines of `ls` that the scan keeps, in order.
pub open spec fn retained(ls: Seq<Seq<char>>, t: Seq<char>) -> Seq<Seq<char>>
    decreases ls.len(),
{
    if ls.len() == 0 {
        Seq::empty()
    } else if !marker_line(ls.last()) && inside_after(ls.drop_last(), t) {
        retained(ls.drop_last(), t).push(ls.last())
    } else {
        retained(ls.drop_last(), t)
    }
}

/// Each line followed by a newline.
pub open spec fn joined(ls: Seq<Seq<char>>) -> Seq<char>
    decreases ls.len(),
{
    if ls.len() == 0 {
        Seq::empty()
    } else {
        joined(ls.drop_last()) + ls.last() + seq!['\n']
    }
}

/// Some line of `ls` is a marker for `t`.
pub open spec fn has_target_marker(ls: Seq<Seq<char>>, t: Seq<char>) -> bool {
    exists|i: int| 0 <= i < ls.len() && #[trigger] target_line(ls[i], t)
}

/// Index of the first `c` in `s`, or -1 where `s` holds none.
pub open spec fn first_index_of(s: Seq<char>, c: char) -> int
    decreases s.len(),
{
    if s.len() == 0 {
        -1
    } else if s[0] == c {
        0
    } else {
        let r = first_index_of(s.drop_first(), c);
        if r < 0 {
            -1
        } else {
            r + 1
        }
    }
}

/// A line without the `\r` of a `\r\n` ending.
pub open spec fn strip_cr(l: Seq<char>) -> Seq<char> {
    if l.len() > 0 && l.last() == '\r' {
        l.drop_last()
    } else {
        l
    }
}

/// The lines of a text: it is split at each `\n`, a `\r` just before a
/// `\n` is dropped, and a final `\n` starts no empty last line.
pub open spec fn lines_of(s: Seq<char>) -> Seq<Seq<char>>
    decreases s.len(),
{
    let i = first_index_of(s, '\n');
    if s.len() == 0 {
        Seq::empty()
    } else if 0 <= i < s.len() {
        seq![strip_cr(s.take(i))] + lines_of(s.skip(i + 1))
    } else {
        seq![s]
    }
}

/// Relies on `str::lines`, which splits at `\n` and at `\r\n`, leaves
/// the endings out, and treats a final line ending as optional.
#[verifier::external_body]
pub(crate) fn text_lines(s: &str) -> (r: Vec<String>)
    ensures
        views(r@) == lines_of(s@),
{
    s.lines().map(String::from).collect()
}

proof fn lemma_take_step(ls: Seq<Seq<char>>, i: int)
    requires
        0 <= i < ls.len(),
    ensures
        ls.take(i + 1).drop_last() == ls.take(i),
        ls.take(i + 1).last() == ls[i],
        ls.take(i + 1).len() == i + 1,
{
    assert(ls.take(i + 1).drop_last() =~= ls.take(i));
}

/// One forward pass: the kept text, and whether any marker named `target`.
fn scan_lines(target: &str, lines: &Vec<String>) -> (r: (String, bool))
    ensures
        r.0@ == joined(retained(views(lines@), target@)),
        r.1 == has_target_marker(views(lines@), target@),
{
    let t = target.as_bytes();
    let ghost ls = views(lines@);
    let mut res = String::new();
    let mut inside = false;
    let mut seen = false;
    let mut i: usize = 0;
    while i < lines.len()
        invariant
            ls == views(lines@),
            t@ == encode_utf8(target@),
            0 <= i <= lines@.len(),
            res@ == joined(retained(ls.take(i as int), target@)),
            inside == inside_after(ls.take(i as int), target@),
            seen == exists|m: int| 0 <= m < i && #[trigger] target_line(ls[m], target@),
        decreases lines@.len() - i,
    {
        let l: &str = lines[i].as_str();
        let (m, tm) = classify(l.as_bytes(), t);
        proof {
            assert(ls[i as int] == l@);
            lemma_take_step(ls, i as int);
            reveal_strlit("\n");
        }
        if m {
            inside = tm;
        } else if inside {
            res.append(l);
            res.append("\n");
            proof {
                let kept = retained(ls.take(i as int), target@);
                assert(kept.push(ls[i as int]).drop_last() =~= kept);
            }
        }
        if tm {
            seen = true;
        }
        assert(seen == exists|m: int| 0 <= m < i + 1 && #[trigger] target_line(ls[m], target@)) by {
            if tm {
                assert(target_line(ls[i as int], target@));
            }
        }
        i = i + 1;
    }
    assert(ls.take(i as int) =~= ls);
    (res, seen)
}

/// The text of the lines that the scan keeps, each followed by a newline.
pub fn process_lines(target: &str, lines: &Vec<String>) -> (r: String)
    ensures
        r@ == joined(retained(views(lines@), target@)),
{
    scan_lines(target, lines).0
}

/// As `process_lines`, but an output in which no marker names the target is
/// an error rather than an empty text.
pub fn reconstitute(target: &str, lines: &Vec<String>) -> (r: Result<String, PpError>)
    ensures
        has_target_marker(views(lines@), target@) ==> (r matches Ok(s) && s@ == joined(
            retained(views(lines@), target@),
        )),
        !has_target_marker(views(lines@), target@) ==> (r matches Err(
            PpError::NoMatchingSpan { path },
        ) && path@ == target@),
{
    let (text, seen) = scan_lines(target, lines);
    if seen {
        Ok(text)
    } else {
        Err(PpError::NoMatchingSpan { path: target.to_owned() })
    }
}

} // verus!

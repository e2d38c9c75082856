//! Laws of the scan, stated over the same spec functions as the contract of
//! `process_lines`.

use vstd::prelude::*;
use vstd::utf8::encode_utf8;
use crate::marker::{
    all_digits, is_marker, lemma_exact_origin, marker_head, marker_text, quote_free, QUOTE,
};
use crate::scan::{
    first_index_of, inside_after, joined, lines_of, marker_line, retained, strip_cr, target_line,
};

verus! {

pub open spec fn no_markers(ls: Seq<Seq<char>>) -> bool {
    forall|i: int| 0 <= i < ls.len() ==> !marker_line(#[trigger] ls[i])
}

/// The text of two runs of lines is the text of the first, then that of the
/// second.
pub proof fn lemma_joined_append(a: Seq<Seq<char>>, b: Seq<Seq<char>>)
    ensures
        joined(a + b) == joined(a) + joined(b),
    decreases b.len(),
{
    if b.len() == 0 {
        assert(a + b =~= a);
        assert(joined(a) + joined(b) =~= joined(a));
    } else {
        assert((a + b).drop_last() =~= a + b.drop_last());
        lemma_joined_append(a, b.drop_last());
        assert(joined(a + b) =~= joined(a) + joined(b));
    }
}

/// A marker line followed by lines that are no markers: after them the scan
/// is inside the target's span exactly when the marker names the target, and
/// the lines are all kept in that case and all dropped otherwise.
pub proof fn lemma_span(pre: Seq<Seq<char>>, m: Seq<char>, body: Seq<Seq<char>>, t: Seq<char>)
    requires
        marker_line(m),
        no_markers(body),
    ensures
        inside_after(pre.push(m) + body, t) == target_line(m, t),
        retained(pre.push(m) + body, t) == retained(pre, t) + (if target_line(m, t) {
            body
        } else {
            Seq::empty()
        }),
    decreases body.len(),
{
    let ls = pre.push(m) + body;
    if body.len() == 0 {
        assert(ls =~= pre.push(m));
        assert(pre.push(m).drop_last() =~= pre);
        assert(retained(pre, t) + Seq::empty() =~= retained(pre, t));
        assert(retained(pre, t) + body =~= retained(pre, t));
    } else {
        let init = body.drop_last();
        assert(ls.drop_last() =~= pre.push(m) + init);
        assert(no_markers(init)) by {
            assert forall|i: int| 0 <= i < init.len() implies !marker_line(#[trigger] init[i]) by {
                assert(init[i] == body[i]);
            }
        }
        lemma_span(pre, m, init, t);
        assert(ls.last() == body.last());
        assert(!marker_line(body[body.len() - 1]));
        if target_line(m, t) {
            assert(retained(pre, t) + init.push(body.last()) =~= retained(pre, t) + body);
            assert((retained(pre, t) + init).push(body.last()) =~= retained(pre, t) + body);
        }
    }
}

/// No line of the kept text is a marker line, whatever the output scanned.
pub proof fn lemma_markers_never_kept(ls: Seq<Seq<char>>, t: Seq<char>)
    ensures
        no_markers(retained(ls, t)),
    decreases ls.len(),
{
    if ls.len() > 0 {
        lemma_markers_never_kept(ls.drop_last(), t);
        let prev = retained(ls.drop_last(), t);
        if !marker_line(ls.last()) && inside_after(ls.drop_last(), t) {
            assert forall|i: int| 0 <= i < prev.len() + 1 implies !marker_line(
                #[trigger] prev.push(ls.last())[i],
            ) by {
                if i < prev.len() {
                    assert(prev.push(ls.last())[i] == prev[i]);
                }
            }
        }
    }
}

pub open spec fn no_target_markers(ls: Seq<Seq<char>>, t: Seq<char>) -> bool {
    forall|i: int| 0 <= i < ls.len() ==> !target_line(#[trigger] ls[i], t)
}

/// An output in which no marker names the target keeps nothing, and leaves
/// the scan outside the target's span.
pub proof fn lemma_no_target_keeps_nothing(ls: Seq<Seq<char>>, t: Seq<char>)
    requires
        no_target_markers(ls, t),
    ensures
        !inside_after(ls, t),
        retained(ls, t) == Seq::<Seq<char>>::empty(),
    decreases ls.len(),
{
    if ls.len() > 0 {
        let init = ls.drop_last();
        assert(no_target_markers(init, t)) by {
            assert forall|i: int| 0 <= i < init.len() implies !target_line(#[trigger] init[i], t) by {
                assert(init[i] == ls[i]);
            }
        }
        assert(!target_line(ls[ls.len() - 1], t));
        lemma_no_target_keeps_nothing(init, t);
    }
}

/// A file without directives comes back as it went in: when the output is a
/// preamble in which no marker names the file, then a marker naming the
/// file, then the file's own lines, the kept text is those lines, each ended
/// by a newline.
pub proof fn lemma_trivial_round_trip(
    preamble: Seq<Seq<char>>,
    m: Seq<char>,
    body: Seq<Seq<char>>,
    t: Seq<char>,
)
    requires
        no_target_markers(preamble, t),
        marker_line(m),
        target_line(m, t),
        no_markers(body),
    ensures
        joined(retained(preamble.push(m) + body, t)) == joined(body),
{
    lemma_span(preamble, m, body, t);
    lemma_no_target_keeps_nothing(preamble, t);
    assert(Seq::<Seq<char>>::empty() + body =~= body);
}

/// Spans of the target concatenate in output order: a span `a` under a
/// marker for the target, then a span `f` under a marker for another file,
/// then a span `b` under a marker for the target again, keep `a` then `b`.
pub proof fn lemma_spans_concatenate(
    m1: Seq<char>,
    a: Seq<Seq<char>>,
    mf: Seq<char>,
    f: Seq<Seq<char>>,
    m2: Seq<char>,
    b: Seq<Seq<char>>,
    t: Seq<char>,
)
    requires
        marker_line(m1),
        target_line(m1, t),
        marker_line(mf),
        !target_line(mf, t),
        marker_line(m2),
        target_line(m2, t),
        no_markers(a),
        no_markers(f),
        no_markers(b),
    ensures
        joined(retained(seq![m1] + a + seq![mf] + f + seq![m2] + b, t)) == joined(a) + joined(b),
{
    let e = Seq::<Seq<char>>::empty();
    let p1 = e.push(m1) + a;
    let p2 = p1.push(mf) + f;
    let p3 = p2.push(m2) + b;
    assert(p3 =~= seq![m1] + a + seq![mf] + f + seq![m2] + b);
    lemma_span(e, m1, a, t);
    lemma_span(p1, mf, f, t);
    lemma_span(p2, m2, b, t);
    assert(retained(e, t) + a =~= a);
    assert(retained(p1, t) + Seq::empty() =~= a);
    lemma_joined_append(a, b);
}

pub open spec fn no_newlines(ls: Seq<Seq<char>>) -> bool {
    forall|i: int, k: int|
        0 <= i < ls.len() && 0 <= k < ls[i].len() ==> #[trigger] ls[i][k] != '\n'
}

proof fn lemma_encode_append(a: Seq<char>, b: Seq<char>)
    ensures
        encode_utf8(a + b) == encode_utf8(a) + encode_utf8(b),
    decreases a.len(),
{
    if a.len() == 0 {
        assert(a + b =~= b);
        assert(encode_utf8(a) + encode_utf8(b) =~= encode_utf8(b));
    } else {
        assert((a + b)[0] == a[0]);
        assert((a + b).drop_first() =~= a.drop_first() + b);
        lemma_encode_append(a.drop_first(), b);
        assert(encode_utf8(a + b) =~= encode_utf8(a) + encode_utf8(b));
    }
}

proof fn lemma_marker_extends(s: Seq<u8>, u: Seq<u8>)
    requires
        is_marker(s),
    ensures
        is_marker(s + u),
{
    let (j, k) = choose|j: int, k: int|
        #![trigger marker_head(s, j), s[k]]
        marker_head(s, j) && j + 2 <= k < s.len() && s[k] == QUOTE;
    let su = s + u;
    assert forall|i: int| 2 <= i < j implies #[trigger] su[i] == s[i] by {}
    assert(marker_head(su, j));
    assert(marker_head(su, j) && j + 2 <= k < su.len() && su[k] == QUOTE);
}

/// Dropping a final `\r` does not make a marker of a line that is none.
proof fn lemma_strip_cr_keeps_non_marker(l: Seq<char>)
    requires
        !marker_line(l),
    ensures
        !marker_line(strip_cr(l)),
{
    if l.len() > 0 && l.last() == '\r' {
        let h = l.drop_last();
        assert(l =~= h + seq!['\r']);
        lemma_encode_append(h, seq!['\r']);
        if marker_line(h) {
            lemma_marker_extends(encode_utf8(h), encode_utf8(seq!['\r']));
        }
    }
}

proof fn lemma_first_newline(x: Seq<char>, rest: Seq<char>)
    requires
        forall|k: int| 0 <= k < x.len() ==> #[trigger] x[k] != '\n',
    ensures
        first_index_of(x + seq!['\n'] + rest, '\n') == x.len(),
    decreases x.len(),
{
    let s = x + seq!['\n'] + rest;
    if x.len() > 0 {
        let y = x.drop_first();
        assert(s.drop_first() =~= y + seq!['\n'] + rest);
        assert forall|k: int| 0 <= k < y.len() implies #[trigger] y[k] != '\n' by {
            assert(y[k] == x[k + 1]);
        }
        lemma_first_newline(y, rest);
        assert(s[0] == x[0]);
    } else {
        assert(s[0] == '\n');
    }
}

/// Splitting a joined text at its newlines gives back its lines, less any
/// final `\r`, when no line holds a newline.
proof fn lemma_lines_of_joined(ls: Seq<Seq<char>>)
    requires
        no_newlines(ls),
    ensures
        lines_of(joined(ls)) == ls.map_values(|l: Seq<char>| strip_cr(l)),
    decreases ls.len(),
{
    if ls.len() == 0 {
        assert(lines_of(joined(ls)) =~= ls.map_values(|l: Seq<char>| strip_cr(l)));
    } else {
        let x = ls[0];
        let tail = ls.drop_first();
        assert(ls =~= seq![x] + tail);
        lemma_joined_append(seq![x], tail);
        assert(seq![x].drop_last() =~= Seq::<Seq<char>>::empty());
        assert(seq![x].last() == x);
        assert(joined(Seq::<Seq<char>>::empty()) == Seq::<char>::empty());
        assert(joined(seq![x]) == joined(seq![x].drop_last()) + x + seq!['\n']);
        assert(joined(seq![x]) =~= x + seq!['\n']);
        let s = joined(ls);
        assert(s =~= x + seq!['\n'] + joined(tail));
        assert forall|k: int| 0 <= k < x.len() implies #[trigger] x[k] != '\n' by {
            assert(ls[0][k] != '\n');
        }
        lemma_first_newline(x, joined(tail));
        assert(s.take(x.len() as int) =~= x);
        assert(s.skip(x.len() as int + 1) =~= joined(tail));
        assert(no_newlines(tail)) by {
            assert forall|i: int, k: int|
                0 <= i < tail.len() && 0 <= k < tail[i].len() implies #[trigger] tail[i][k]
                != '\n' by {
                assert(tail[i] == ls[i + 1]);
            }
        }
        lemma_lines_of_joined(tail);
        assert(lines_of(s) =~= ls.map_values(|l: Seq<char>| strip_cr(l)));
    }
}

proof fn lemma_retained_no_newlines(ls: Seq<Seq<char>>, t: Seq<char>)
    requires
        no_newlines(ls),
    ensures
        no_newlines(retained(ls, t)),
    decreases ls.len(),
{
    if ls.len() > 0 {
        let init = ls.drop_last();
        assert(no_newlines(init)) by {
            assert forall|i: int, k: int|
                0 <= i < init.len() && 0 <= k < init[i].len() implies #[trigger] init[i][k]
                != '\n' by {
                assert(init[i] == ls[i]);
            }
        }
        lemma_retained_no_newlines(init, t);
        let prev = retained(init, t);
        let r = retained(ls, t);
        assert forall|i: int, k: int|
            0 <= i < r.len() && 0 <= k < r[i].len() implies #[trigger] r[i][k] != '\n' by {
            if i < prev.len() {
                assert(r[i] == prev[i]);
            } else {
                assert(r[i] == ls[ls.len() - 1]);
            }
        }
    }
}

/// No line of the kept text is a marker line: where no input line holds a
/// newline, the kept text split at its newlines holds no line that matches
/// the marker grammar.
pub proof fn lemma_result_holds_no_marker(ls: Seq<Seq<char>>, t: Seq<char>)
    requires
        no_newlines(ls),
    ensures
        forall|i: int|
            0 <= i < lines_of(joined(retained(ls, t))).len() ==> !marker_line(
                #[trigger] lines_of(joined(retained(ls, t)))[i],
            ),
{
    let r = retained(ls, t);
    lemma_markers_never_kept(ls, t);
    lemma_retained_no_newlines(ls, t);
    lemma_lines_of_joined(r);
    assert forall|i: int| 0 <= i < lines_of(joined(r)).len() implies !marker_line(
        #[trigger] lines_of(joined(r))[i],
    ) by {
        assert(!marker_line(r[i]));
        lemma_strip_cr_keeps_non_marker(r[i]);
    }
}

/// Origins are compared literally: after a marker whose origin differs in
/// any way from the target (a trailing slash, the case of a letter, a link
/// resolved or not), no line of the target's is kept. Paths hold no quote.
pub proof fn lemma_other_origin_keeps_nothing(
    m: Seq<char>,
    d: Seq<u8>,
    o: Seq<u8>,
    rest: Seq<u8>,
    body: Seq<Seq<char>>,
    t: Seq<char>,
)
    requires
        encode_utf8(m) == marker_text(d, o, rest),
        d.len() > 0,
        all_digits(d),
        quote_free(o),
        quote_free(encode_utf8(t)),
        o != encode_utf8(t),
        no_markers(body),
    ensures
        joined(retained(seq![m] + body, t)) == Seq::<char>::empty(),
{
    lemma_exact_origin(d, o, rest, encode_utf8(t));
    let e = Seq::<Seq<char>>::empty();
    assert(e.push(m) + body =~= seq![m] + body);
    lemma_span(e, m, body, t);
    assert(retained(e, t) + Seq::empty() =~= e);
}

} // verus!

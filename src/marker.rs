//! The GNU line-marker grammar: `# <digits> "<path>" <optional flags>`.
//!
//! Lines are matched as UTF-8 bytes. Every byte the grammar names is ASCII,
//! and no ASCII byte ever occurs inside the encoding of another character,
//! so byte matching is exact.

use vstd::prelude::*;

verus! {

pub const HASH: u8 = 35;

pub const SPACE: u8 = 32;

pub const QUOTE: u8 = 34;

pub open spec fn is_digit(b: u8) -> bool {
    48 <= b <= 57
}

/// `s` starts with `# `, then one or more decimal digits that end at `j`,
/// then a space and an opening quote.
pub open spec fn marker_head(s: Seq<u8>, j: int) -> bool {
    &&& 2 < j
    &&& j + 2 <= s.len()
    &&& s[0] == HASH
    &&& s[1] == SPACE
    &&& forall|k: int| 2 <= k < j ==> is_digit(#[trigger] s[k])
    &&& s[j] == SPACE
    &&& s[j + 1] == QUOTE
}

/// The line is a line marker for some origin path: after the head comes a
/// closing quote somewhere, and anything may follow it.
pub open spec fn is_marker(s: Seq<u8>) -> bool {
    exists|j: int, k: int|
        #![trigger marker_head(s, j), s[k]]
        marker_head(s, j) && j + 2 <= k < s.len() && s[k] == QUOTE
}

/// The line is a line marker whose quoted origin path is exactly `t`, byte
/// for byte: no normalisation of case, separators or links.
pub open spec fn is_target_marker(s: Seq<u8>, t: Seq<u8>) -> bool {
    exists|j: int|
        #![trigger marker_head(s, j)]
        marker_head(s, j) && j + 2 + t.len() < s.len() && s.subrange(j + 2, j + 2 + t.len()) == t
            && s[j + 2 + t.len()] == QUOTE
}

/// A marker for a given path is a marker.
pub proof fn lemma_target_marker_is_marker(s: Seq<u8>, t: Seq<u8>)
    requires
        is_target_marker(s, t),
    ensures
        is_marker(s),
{
    let j = choose|j: int|
        #![trigger marker_head(s, j)]
        marker_head(s, j) && j + 2 + t.len() < s.len() && s.subrange(j + 2, j + 2 + t.len()) == t
            && s[j + 2 + t.len()] == QUOTE;
    let k = j + 2 + t.len();
    assert(marker_head(s, j) && j + 2 <= k < s.len() && s[k] == QUOTE);
}

pub open spec fn all_digits(d: Seq<u8>) -> bool {
    forall|i: int| 0 <= i < d.len() ==> is_digit(#[trigger] d[i])
}

pub open spec fn quote_free(p: Seq<u8>) -> bool {
    forall|i: int| 0 <= i < p.len() ==> #[trigger] p[i] != QUOTE
}

/// The marker line `# <d> "<o>"<rest>`.
pub open spec fn marker_text(d: Seq<u8>, o: Seq<u8>, rest: Seq<u8>) -> Seq<u8> {
    seq![HASH, SPACE] + d + seq![SPACE, QUOTE] + o + seq![QUOTE] + rest
}

/// A path is matched literally: a marker whose origin path `o` differs from
/// the target `t` in any way (a trailing slash, the case of a letter, a link
/// not resolved) is a marker, but not one for `t`. Paths hold no quote.
pub proof fn lemma_exact_origin(d: Seq<u8>, o: Seq<u8>, rest: Seq<u8>, t: Seq<u8>)
    requires
        d.len() > 0,
        all_digits(d),
        quote_free(o),
        quote_free(t),
    ensures
        is_marker(marker_text(d, o, rest)),
        is_target_marker(marker_text(d, o, rest), t) <==> o == t,
{
    let s = marker_text(d, o, rest);
    let j: int = 2 + d.len() as int;
    assert(s.len() == j + 2 + o.len() + 1 + rest.len());
    assert forall|k: int| 2 <= k < j implies is_digit(#[trigger] s[k]) by {
        assert(s[k] == d[k - 2]);
    }
    assert(marker_head(s, j));
    assert forall|i: int| 0 <= i < o.len() implies #[trigger] s[j + 2 + i] == o[i] by {}
    assert(s[j + 2 + o.len()] == QUOTE);
    assert(s.subrange(j + 2, j + 2 + o.len()) =~= o);
    let k: int = j + 2 + o.len();
    assert(marker_head(s, j) && j + 2 <= k < s.len() && s[k] == QUOTE);
    assert forall|j2: int| #[trigger] marker_head(s, j2) implies j2 == j by {
        if j2 < j {
            assert(is_digit(s[j2]));
        } else if j2 > j {
            assert(is_digit(s[j]));
        }
    }
    if is_target_marker(s, t) {
        if t.len() < o.len() {
            assert(s[j + 2 + t.len()] == o[t.len() as int]);
        } else if t.len() > o.len() {
            assert(s.subrange(j + 2, j + 2 + t.len())[o.len() as int] == QUOTE);
        } else {
            assert(o =~= t);
        }
    }
}

/// End of the run of digits that starts at `start`.
fn digits_end(b: &[u8], start: usize) -> (j: usize)
    requires
        start <= b@.len(),
    ensures
        start <= j <= b@.len(),
        forall|k: int| start <= k < j ==> is_digit(#[trigger] b@[k]),
        j < b@.len() ==> !is_digit(b@[j as int]),
{
    let mut j = start;
    while j < b.len() && 48 <= b[j] && b[j] <= 57
        invariant
            start <= j <= b@.len(),
            forall|k: int| start <= k < j ==> is_digit(#[trigger] b@[k]),
        decreases b@.len() - j,
    {
        j = j + 1;
    }
    j
}

/// Where the head of a marker ends, if the line has one; the end is unique.
fn find_head(b: &[u8]) -> (r: Option<usize>)
    ensures
        r matches Some(j) ==> marker_head(b@, j as int),
        forall|j: int| #[trigger] marker_head(b@, j) ==> r == Some(j as usize),
{
    let s = Ghost(b@);
    if b.len() < 2 || b[0] != HASH || b[1] != SPACE {
        return None;
    }
    let j = digits_end(b, 2);
    assert forall|j2: int| #[trigger] marker_head(s@, j2) implies j2 == j as int by {
        if j2 < j {
            assert(is_digit(s@[j2]));
        } else if j2 > j {
            assert(is_digit(s@[j as int]));
        }
    }
    if j > 2 && 2 <= b.len() - j && b[j] == SPACE && b[j + 1] == QUOTE {
        Some(j)
    } else {
        None
    }
}

/// Classifies one line: whether it is a marker at all, and whether it is a
/// marker for the path `t`.
pub fn classify(b: &[u8], t: &[u8]) -> (r: (bool, bool))
    ensures
        r.0 == is_marker(b@),
        r.1 == is_target_marker(b@, t@),
{
    let s = Ghost(b@);
    let len = b.len();
    match find_head(b) {
        None => {
            assert(!is_marker(s@));
            assert(!is_target_marker(s@, t@));
            (false, false)
        },
        Some(j) => {
            assert(marker_head(s@, j as int));
            let mut k = j + 2;
            while k < len && b[k] != QUOTE
                invariant
                    len == b@.len(),
                    j + 2 <= k <= len,
                    forall|i: int| j + 2 <= i < k ==> b@[i] != QUOTE,
                decreases len - k,
            {
                k = k + 1;
            }
            let found = k < len;
            if found {
                assert(marker_head(s@, j as int) && j + 2 <= k < s@.len() && s@[k as int] == QUOTE);
            } else {
                assert(!is_marker(s@));
            }
            let n = t.len();
            let mut same = false;
            if n < len - j - 2 {
                let mut i: usize = 0;
                while i < n && b[j + 2 + i] == t[i]
                    invariant
                        len == b@.len(),
                        j + 2 + n < len,
                        n == t@.len(),
                        0 <= i <= n,
                        forall|m: int| 0 <= m < i ==> b@[j + 2 + m] == t@[m],
                    decreases n - i,
                {
                    i = i + 1;
                }
                same = i == n && b[j + 2 + n] == QUOTE;
                if i == n {
                    assert(s@.subrange(j + 2, j + 2 + n) =~= t@);
                } else {
                    assert(s@.subrange(j + 2, j + 2 + n)[i as int] != t@[i as int]);
                }
            }
            (found, same)
        },
    }
}

} // verus!

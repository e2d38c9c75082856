//! Output paths: a file whose extension marks it for preprocessing gets the
//! same path with the host language's extension.
//!
//! A path is text whose separator is `/`. Trailing separators and trailing
//! `.` components are ignored, as `std::path::Path` ignores them
//! (`d/lib.cpprs/` and `d/lib.cpprs/.` name `lib.cpprs`); a lone `.` stays.
//! The file name is what follows the last `/` that remains; its extension is
//! what follows the last `.` of the file name, provided that dot is not the
//! name's first character (`.profile` has no extension).

use vstd::prelude::*;

verus! {

/// Index of the last `c` in `s`, or -1 where `s` holds none.
pub open spec fn last_index_of(s: Seq<char>, c: char) -> int
    decreases s.len(),
{
    if s.len() == 0 {
        -1
    } else if s.last() == c {
        s.len() - 1
    } else {
        last_index_of(s.drop_last(), c)
    }
}

/// `p` ends in the component `.`, after a separator.
pub open spec fn ends_in_dot_component(p: Seq<char>) -> bool {
    p.len() >= 2 && p.last() == '.' && p[p.len() - 2] == '/'
}

/// `p` without the separators and `.` components that end it.
pub open spec fn trimmed(p: Seq<char>) -> Seq<char>
    decreases p.len(),
{
    if p.len() > 0 && p.last() == '/' {
        trimmed(p.drop_last())
    } else if ends_in_dot_component(p) {
        trimmed(p.drop_last())
    } else {
        p
    }
}

pub open spec fn name_start(p: Seq<char>) -> int {
    last_index_of(trimmed(p), '/') + 1
}

/// Everything up to and including the last `/` before the file name.
pub open spec fn dir_part(p: Seq<char>) -> Seq<char> {
    trimmed(p).subrange(0, name_start(p))
}

pub open spec fn file_name(p: Seq<char>) -> Seq<char> {
    trimmed(p).subrange(name_start(p), trimmed(p).len() as int)
}

pub open spec fn has_extension(p: Seq<char>) -> bool {
    last_index_of(file_name(p), '.') > 0
}

pub open spec fn extension(p: Seq<char>) -> Seq<char> {
    let n = file_name(p);
    n.subrange(last_index_of(n, '.') + 1, n.len() as int)
}

/// The file name without its extension and the dot before it.
pub open spec fn stem(p: Seq<char>) -> Seq<char> {
    let n = file_name(p);
    n.subrange(0, last_index_of(n, '.'))
}

/// `p` with extension `host` in place of `marker`; none where the extension
/// of `p` is not `marker`.
pub open spec fn mapped_path(p: Seq<char>, marker: Seq<char>, host: Seq<char>) -> Option<
    Seq<char>,
> {
    if has_extension(p) && extension(p) == marker {
        Some(dir_part(p) + stem(p) + seq!['.'] + host)
    } else {
        None
    }
}

pub proof fn lemma_last_index_bounds(s: Seq<char>, c: char)
    ensures
        -1 <= last_index_of(s, c) < s.len(),
        last_index_of(s, c) >= 0 ==> s[last_index_of(s, c)] == c,
        forall|i: int| last_index_of(s, c) < i < s.len() ==> #[trigger] s[i] != c,
    decreases s.len(),
{
    if s.len() > 0 && s.last() != c {
        lemma_last_index_bounds(s.drop_last(), c);
        assert forall|i: int| last_index_of(s, c) < i < s.len() implies #[trigger] s[i] != c by {
            if i < s.len() - 1 {
                assert(s[i] == s.drop_last()[i]);
            }
        }
    }
}

pub proof fn lemma_last_index_concat(a: Seq<char>, b: Seq<char>, c: char)
    ensures
        last_index_of(a + b, c) == if last_index_of(b, c) >= 0 {
            a.len() + last_index_of(b, c)
        } else {
            last_index_of(a, c)
        },
    decreases b.len(),
{
    if b.len() == 0 {
        assert(a + b =~= a);
    } else {
        assert((a + b).drop_last() =~= a + b.drop_last());
        lemma_last_index_concat(a, b.drop_last(), c);
    }
}

proof fn lemma_absent(s: Seq<char>, c: char)
    requires
        forall|i: int| 0 <= i < s.len() ==> #[trigger] s[i] != c,
    ensures
        last_index_of(s, c) == -1,
{
    lemma_last_index_bounds(s, c);
}

/// A path that already has the host extension is not mapped, and a mapped
/// path is not mapped again, where the two extensions differ and the host
/// extension holds neither a dot nor a separator.
pub proof fn lemma_mapping_not_repeated(p: Seq<char>, marker: Seq<char>, host: Seq<char>)
    requires
        marker != host,
        forall|i: int| 0 <= i < host.len() ==> #[trigger] host[i] != '.' && host[i] != '/',
    ensures
        has_extension(p) && extension(p) == host ==> mapped_path(p, marker, host) is None,
        mapped_path(p, marker, host) matches Some(q) ==> mapped_path(q, marker, host) is None,
{
    if let Some(q) = mapped_path(p, marker, host) {
        let tp = trimmed(p);
        let ns = name_start(p);
        let n = file_name(p);
        let d = last_index_of(n, '.');
        let dir = dir_part(p);
        let st = stem(p);
        let dot = seq!['.'];
        lemma_last_index_bounds(tp, '/');
        lemma_last_index_bounds(n, '.');
        assert(last_index_of(dir, '/') == ns - 1) by {
            if ns > 0 {
                assert(dir.last() == tp[ns - 1]);
                assert(dir.drop_last().len() == ns - 1);
            }
        }
        assert forall|i: int| 0 <= i < st.len() implies #[trigger] st[i] != '/' by {
            assert(st[i] == tp[ns + i]);
        }
        lemma_absent(st, '/');
        lemma_absent(host, '.');
        lemma_absent(host, '/');
        assert(last_index_of(dot, '/') == -1) by {
            assert(dot.last() == '.');
            assert(last_index_of(dot.drop_last(), '/') == -1);
        }
        assert(last_index_of(dot, '.') == 0);
        let a = dir + st + dot;
        assert(q == a + host);
        assert(q.last() != '/' && !ends_in_dot_component(q)) by {
            if host.len() > 0 {
                assert(q.last() == host[host.len() - 1]);
            } else {
                assert(q =~= a);
                assert(q[q.len() - 2] == st[st.len() - 1]);
            }
        }
        assert(trimmed(q) == q);
        lemma_last_index_concat(dir, st, '/');
        lemma_last_index_concat(dir + st, dot, '/');
        lemma_last_index_concat(a, host, '/');
        assert(name_start(q) == ns);
        assert(file_name(q) =~= st + (dot + host));
        lemma_last_index_concat(dot, host, '.');
        lemma_last_index_concat(st, dot + host, '.');
        assert(last_index_of(file_name(q), '.') == d);
        assert(extension(q) =~= host);
    }
}

/// Length of `cs` without the separators and `.` components that end it.
fn trimmed_len(cs: &Vec<char>) -> (k: usize)
    ensures
        k <= cs@.len(),
        cs@.take(k as int) == trimmed(cs@),
{
    let mut k = cs.len();
    assert(cs@.take(k as int) =~= cs@);
    while k > 0 && (cs[k - 1] == '/' || (k >= 2 && cs[k - 1] == '.' && cs[k - 2] == '/'))
        invariant
            k <= cs@.len(),
            trimmed(cs@) == trimmed(cs@.take(k as int)),
        decreases k,
    {
        assert(cs@.take(k as int).drop_last() =~= cs@.take(k - 1));
        k = k - 1;
    }
    k
}

/// Index of the last `c` among the first `end` characters of `cs`.
fn rfind(cs: &Vec<char>, end: usize, c: char) -> (r: Option<usize>)
    requires
        end <= cs@.len(),
    ensures
        match r {
            Some(i) => last_index_of(cs@.take(end as int), c) == i as int && i < end,
            None => last_index_of(cs@.take(end as int), c) == -1,
        },
{
    let mut i = end;
    let ghost s = cs@.take(end as int);
    assert(s.take(i as int) =~= s);
    while i > 0
        invariant
            i <= end <= cs@.len(),
            s == cs@.take(end as int),
            last_index_of(s, c) == last_index_of(s.take(i as int), c),
        decreases i,
    {
        assert(s.take(i as int).drop_last() =~= s.take(i - 1));
        if cs[i - 1] == c {
            return Some(i - 1);
        }
        i = i - 1;
    }
    None
}

/// The characters of `s` from `from` up to `to`.
fn chars_between(s: &str, from: usize, to: usize) -> (r: Vec<char>)
    requires
        from <= to <= s@.len(),
    ensures
        r@ == s@.subrange(from as int, to as int),
{
    let n = to;
    let mut r: Vec<char> = Vec::new();
    let mut i = from;
    while i < n
        invariant
            n <= s@.len(),
            from <= i <= n,
            r@ == s@.subrange(from as int, i as int),
        decreases n - i,
    {
        r.push(s.get_char(i));
        assert(r@ =~= s@.subrange(from as int, i + 1));
        i = i + 1;
    }
    r
}

/// `p` with extension `host` in place of `marker`, or none where `p` does
/// not have the extension `marker`.
pub fn map_path(p: &str, marker: &str, host: &str) -> (r: Option<String>)
    ensures
        r matches Some(q) ==> mapped_path(p@, marker@, host@) == Some(q@),
        r is None ==> mapped_path(p@, marker@, host@) is None,
{
    let all = chars_between(p, 0, p.unicode_len());
    assert(all@ =~= p@);
    let k = trimmed_len(&all);
    let ghost tp = trimmed(p@);
    let ns = match rfind(&all, k, '/') {
        Some(i) => i + 1,
        None => 0,
    };
    proof {
        lemma_last_index_bounds(tp, '/');
    }
    assert(ns as int == name_start(p@));
    let name = chars_between(p, ns, k);
    assert(name@ =~= file_name(p@));
    assert(name@.take(name@.len() as int) =~= name@);
    let dot = match rfind(&name, name.len(), '.') {
        Some(d) => d,
        None => return None,
    };
    if dot == 0 {
        return None;
    }
    proof {
        lemma_last_index_bounds(name@, '.');
    }
    let ext = chars_between(p, ns + dot + 1, k);
    assert(ext@ =~= name@.subrange(dot + 1, name@.len() as int));
    let m = chars_between(marker, 0, marker.unicode_len());
    assert(ext@ =~= extension(p@));
    assert(m@ =~= marker@);
    if ext.len() != m.len() {
        return None;
    }
    let mut i: usize = 0;
    while i < m.len()
        invariant
            ext@ == extension(p@),
            m@ == marker@,
            ext@.len() == m@.len(),
            0 <= i <= m@.len(),
            forall|k: int| 0 <= k < i ==> ext@[k] == m@[k],
        decreases m@.len() - i,
    {
        if ext[i] != m[i] {
            assert(extension(p@)[i as int] != marker@[i as int]);
            return None;
        }
        i = i + 1;
    }
    assert(ext@ =~= m@);
    let mut q = p.substring_char(0, ns + dot).to_owned();
    q.append(".");
    q.append(host);
    proof {
        reveal_strlit(".");
        assert(p@.subrange(0, ns + dot) =~= dir_part(p@) + stem(p@));
    }
    Some(q)
}

/// The `.rs` path for a `.cpprs` file.
pub fn as_rs(p: &str) -> (r: Option<String>)
    ensures
        r matches Some(q) ==> mapped_path(p@, "cpprs"@, "rs"@) == Some(q@),
        r is None ==> mapped_path(p@, "cpprs"@, "rs"@) is None,
{
    map_path(p, "cpprs", "rs")
}

} // verus!

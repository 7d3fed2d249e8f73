//! Verified string primitives: character vectors, searching, splitting,
//! trimming and joining, each specified over `Seq<char>`.

use vstd::prelude::*;
use vstd::string::StrSliceExecFns;

verus! {

/// Relies on `String::push`: appends the given character to the string.
pub assume_specification[ String::push ](s: &mut String, ch: char)
    ensures
        final(s)@ == old(s)@.push(ch),
;

/// Characters treated as trimmable whitespace at the ends of a field.
pub open spec fn is_ws(c: char) -> bool {
    c == ' ' || c == '\n' || c == '\t' || c == '\r'
}

pub fn ws_char(c: char) -> (r: bool)
    ensures
        r == is_ws(c),
{
    c == ' ' || c == '\n' || c == '\t' || c == '\r'
}

/// The characters of a string slice, in order.
pub fn chars_of(s: &str) -> (r: Vec<char>)
    ensures
        r@ == s@,
{
    let n: usize = s.unicode_len();
    let mut r: Vec<char> = Vec::new();
    let mut i: usize = 0;
    while i < n
        invariant
            n == s@.len(),
            i <= n,
            r@ == s@.subrange(0, i as int),
        decreases n - i,
    {
        r.push(s.get_char(i));
        i = i + 1;
        assert(r@ =~= s@.subrange(0, i as int));
    }
    assert(s@.subrange(0, n as int) =~= s@);
    r
}

/// A string holding exactly the given characters.
pub fn string_of(v: &Vec<char>) -> (r: String)
    ensures
        r@ == v@,
{
    let mut r: String = String::new();
    let mut i: usize = 0;
    while i < v.len()
        invariant
            i <= v@.len(),
            r@ == v@.subrange(0, i as int),
        decreases v@.len() - i,
    {
        r.push(v[i]);
        i = i + 1;
        assert(r@ =~= v@.subrange(0, i as int));
    }
    assert(v@.subrange(0, v@.len() as int) =~= v@);
    r
}

/// A copy of the characters of `s` from `a` (inclusive) to `b` (exclusive).
pub fn subvec(s: &Vec<char>, a: usize, b: usize) -> (r: Vec<char>)
    requires
        a <= b,
        b <= s@.len(),
    ensures
        r@ == s@.subrange(a as int, b as int),
{
    let mut r: Vec<char> = Vec::new();
    let mut i: usize = a;
    while i < b
        invariant
            a <= i <= b <= s@.len(),
            r@ == s@.subrange(a as int, i as int),
        decreases b - i,
    {
        r.push(s[i]);
        i = i + 1;
        assert(r@ =~= s@.subrange(a as int, i as int));
    }
    r
}

/// `dst` extended with the characters of `src`.
pub fn append_all(dst: &mut Vec<char>, src: &Vec<char>)
    ensures
        final(dst)@ == old(dst)@ + src@,
{
    let mut i: usize = 0;
    while i < src.len()
        invariant
            i <= src@.len(),
            dst@ == old(dst)@ + src@.subrange(0, i as int),
        decreases src@.len() - i,
    {
        dst.push(src[i]);
        i = i + 1;
        assert(dst@ =~= old(dst)@ + src@.subrange(0, i as int));
    }
    assert(old(dst)@ + src@.subrange(0, src@.len() as int) =~= old(dst)@ + src@);
}

/// The pattern `p` occurs in `s` at position `i`.
pub open spec fn matches_at(s: Seq<char>, p: Seq<char>, i: int) -> bool {
    0 <= i && i + p.len() <= s.len() && s.subrange(i, i + p.len() as int) == p
}

/// The position of the first occurrence of `p` in `s`, if any.
pub open spec fn spec_find(s: Seq<char>, p: Seq<char>) -> Option<int>
    decreases s.len(),
{
    if p.len() <= s.len() && s.subrange(0, p.len() as int) == p {
        Some(0int)
    } else if s.len() == 0 {
        None
    } else {
        match spec_find(s.skip(1), p) {
            Some(j) => Some(j + 1),
            None => None,
        }
    }
}

pub open spec fn spec_contains(s: Seq<char>, p: Seq<char>) -> bool {
    spec_find(s, p) is Some
}

/// `spec_find` returns the least position at which `p` occurs, or `None`
/// when `p` occurs nowhere in `s`.
pub proof fn lemma_find(s: Seq<char>, p: Seq<char>)
    ensures
        match spec_find(s, p) {
            Some(i) => matches_at(s, p, i) && (forall|k: int| 0 <= k < i ==> !matches_at(s, p, k)),
            None => forall|k: int| !matches_at(s, p, k),
        },
    decreases s.len(),
{
    if p.len() <= s.len() && s.subrange(0, p.len() as int) == p {
    } else if s.len() == 0 {
        assert forall|k: int| !matches_at(s, p, k) by {
            if matches_at(s, p, k) {
                assert(k == 0 && p.len() == 0);
                assert(s.subrange(0, p.len() as int) == p);
            }
        }
    } else {
        lemma_find(s.skip(1), p);
        assert forall|k: int| 1 <= k ==> (matches_at(s, p, k) == matches_at(
            s.skip(1),
            p,
            k - 1,
        )) by {
            if 1 <= k && k + p.len() <= s.len() {
                assert(s.subrange(k, k + p.len() as int) =~= s.skip(1).subrange(
                    k - 1,
                    k - 1 + p.len() as int,
                ));
            }
        }
        assert(!matches_at(s, p, 0));
        match spec_find(s.skip(1), p) {
            Some(j) => {
                assert(matches_at(s.skip(1), p, j));
                assert(matches_at(s, p, j + 1));
                assert forall|k: int| 0 <= k < j + 1 implies !matches_at(s, p, k) by {
                    if k >= 1 {
                        assert(!matches_at(s.skip(1), p, k - 1));
                    }
                }
            },
            None => {
                assert forall|k: int| !matches_at(s, p, k) by {
                    if k >= 1 {
                        assert(!matches_at(s.skip(1), p, k - 1));
                    }
                }
            },
        }
    }
}

/// The least position at which `p` occurs in `s`, or `None`.
pub fn find_sub(s: &Vec<char>, p: &Vec<char>) -> (r: Option<usize>)
    ensures
        match r {
            Some(i) => spec_find(s@, p@) == Some(i as int),
            None => spec_find(s@, p@) is None,
        },
{
    proof {
        lemma_find(s@, p@);
    }
    let n: usize = s.len();
    let m: usize = p.len();
    if m > n {
        return None;
    }
    if m == 0 {
        assert(s@.subrange(0, 0) =~= p@);
        return Some(0);
    }
    let mut i: usize = 0;
    while i <= n - m
        invariant
            1 <= m <= n == s@.len(),
            m == p@.len(),
            i <= n - m + 1,
            forall|k: int| 0 <= k < i ==> !matches_at(s@, p@, k),
        decreases n - m + 1 - i,
    {
        let mut j: usize = 0;
        let mut ok: bool = true;
        while j < m && ok
            invariant
                m <= n == s@.len(),
                m == p@.len(),
                i + m <= n,
                j <= m,
                ok ==> forall|t: int| 0 <= t < j ==> s@[i + t] == p@[t],
                !ok ==> !matches_at(s@, p@, i as int),
            decreases m - j + (if ok { 1int } else { 0int }),
        {
            if s[i + j] != p[j] {
                proof {
                    if matches_at(s@, p@, i as int) {
                        assert(s@.subrange(i as int, i + m as int)[j as int] == p@[j as int]);
                    }
                }
                ok = false;
            } else {
                j = j + 1;
            }
        }
        if ok {
            proof {
                assert(s@.subrange(i as int, i + m as int) =~= p@);
                assert(matches_at(s@, p@, i as int));
                lemma_find(s@, p@);
                match spec_find(s@, p@) {
                    Some(i0) => {
                        if i0 < i {
                            assert(!matches_at(s@, p@, i0));
                        } else if i0 > i {
                            assert(!matches_at(s@, p@, i as int));
                        }
                    },
                    None => {
                        assert(!matches_at(s@, p@, i as int));
                    },
                }
            }
            return Some(i);
        }
        i = i + 1;
    }
    proof {
        assert forall|k: int| !matches_at(s@, p@, k) by {
            if 0 <= k < i {
            } else if matches_at(s@, p@, k) {
                assert(k + m <= n);
            }
        }
        lemma_find(s@, p@);
    }
    None
}

pub fn contains_sub(s: &Vec<char>, p: &Vec<char>) -> (r: bool)
    ensures
        r == spec_contains(s@, p@),
{
    find_sub(s, p).is_some()
}

/// The segments of `s` separated by `sep`, in order; a separator at the
/// edge yields an empty segment, and `s` without a separator yields the
/// single segment `s`.
pub open spec fn spec_split(s: Seq<char>, sep: Seq<char>) -> Seq<Seq<char>>
    decreases s.len(),
        when sep.len() >= 1 via spec_split_decreases
{
    match spec_find(s, sep) {
        Some(i) => seq![s.subrange(0, i)] + spec_split(s.skip(i + sep.len() as int), sep),
        None => seq![s],
    }
}

#[via_fn]
proof fn spec_split_decreases(s: Seq<char>, sep: Seq<char>) {
    lemma_find(s, sep);
}

pub fn split_sub(s: &Vec<char>, sep: &Vec<char>) -> (r: Vec<Vec<char>>)
    requires
        sep@.len() >= 1,
    ensures
        r.deep_view() == spec_split(s@, sep@),
{
    let mut parts: Vec<Vec<char>> = Vec::new();
    let mut cur: Vec<char> = subvec(s, 0, s.len());
    let mut done: bool = false;
    assert(cur@ =~= s@);
    while !done
        invariant
            sep@.len() >= 1,
            !done ==> spec_split(s@, sep@) == parts.deep_view() + spec_split(cur@, sep@),
            done ==> parts.deep_view() == spec_split(s@, sep@),
        decreases cur@.len() + (if done { 0int } else { 1int }),
    {
        match find_sub(&cur, sep) {
            None => {
                let ghost before = parts.deep_view();
                let ghost oldcur = cur@;
                parts.push(cur);
                cur = Vec::new();
                proof {
                    assert(parts.deep_view() =~~= before + seq![oldcur]);
                    assert(spec_split(oldcur, sep@) == seq![oldcur]);
                }
                done = true;
            },
            Some(i) => {
                proof {
                    lemma_find(cur@, sep@);
                    assert(matches_at(cur@, sep@, i as int));
                    assert(i + sep@.len() <= cur@.len());
                }
                let piece = subvec(&cur, 0, i);
                let cl: usize = cur.len();
                assert(i + sep@.len() <= cl);
                let next = subvec(&cur, i + sep.len(), cl);
                let ghost before = parts.deep_view();
                let ghost oldcur = cur@;
                parts.push(piece);
                cur = next;
                proof {
                    assert(parts.deep_view() =~~= before + seq![oldcur.subrange(0, i as int)]);
                    assert(cur@ =~= oldcur.skip(i + sep@.len() as int));
                }
            },
        }
    }
    parts
}

/// A split always yields at least one segment.
pub proof fn lemma_split_nonempty(s: Seq<char>, sep: Seq<char>)
    requires
        sep.len() >= 1,
    ensures
        spec_split(s, sep).len() >= 1,
{
    match spec_find(s, sep) {
        Some(_) => {},
        None => {},
    }
}

/// Leading whitespace removed.
pub open spec fn spec_trim_start(s: Seq<char>) -> Seq<char>
    decreases s.len(),
{
    if s.len() > 0 && is_ws(s[0]) {
        spec_trim_start(s.skip(1))
    } else {
        s
    }
}

/// Trailing whitespace removed.
pub open spec fn spec_trim_end(s: Seq<char>) -> Seq<char>
    decreases s.len(),
{
    if s.len() > 0 && is_ws(s.last()) {
        spec_trim_end(s.drop_last())
    } else {
        s
    }
}

/// Whitespace removed from both ends.
pub open spec fn spec_trim(s: Seq<char>) -> Seq<char> {
    spec_trim_end(spec_trim_start(s))
}

pub fn trim_chars(s: &Vec<char>) -> (r: Vec<char>)
    ensures
        r@ == spec_trim(s@),
{
    let n: usize = s.len();
    let mut a: usize = 0;
    assert(s@.skip(0) =~= s@);
    while a < n && ws_char(s[a])
        invariant
            n == s@.len(),
            a <= n,
            spec_trim_start(s@) == spec_trim_start(s@.skip(a as int)),
        decreases n - a,
    {
        proof {
            assert(s@.skip(a as int).skip(1) =~= s@.skip(a + 1));
        }
        a = a + 1;
    }
    assert(spec_trim_start(s@) == s@.skip(a as int));
    let mut b: usize = n;
    while b > a && ws_char(s[b - 1])
        invariant
            n == s@.len(),
            a <= b <= n,
            spec_trim_end(s@.skip(a as int)) == spec_trim_end(s@.subrange(a as int, b as int)),
        decreases b,
    {
        proof {
            assert(s@.subrange(a as int, b as int).drop_last() =~= s@.subrange(
                a as int,
                b - 1 as int,
            ));
        }
        b = b - 1;
    }
    assert(spec_trim_end(s@.subrange(a as int, b as int)) == s@.subrange(a as int, b as int));
    assert(s@.skip(a as int) =~= s@.subrange(a as int, n as int));
    subvec(s, a, b)
}

/// The segments joined with `sep` between consecutive segments.
pub open spec fn spec_join(parts: Seq<Seq<char>>, sep: Seq<char>) -> Seq<char>
    decreases parts.len(),
{
    if parts.len() == 0 {
        Seq::empty()
    } else if parts.len() == 1 {
        parts[0]
    } else {
        spec_join(parts.drop_last(), sep) + sep + parts.last()
    }
}

pub fn join_with(parts: &Vec<Vec<char>>, sep: &Vec<char>) -> (r: Vec<char>)
    ensures
        r@ == spec_join(parts.deep_view(), sep@),
{
    let mut r: Vec<char> = Vec::new();
    let mut i: usize = 0;
    while i < parts.len()
        invariant
            i <= parts@.len(),
            parts.deep_view().len() == parts@.len(),
            r@ == spec_join(parts.deep_view().subrange(0, i as int), sep@),
        decreases parts@.len() - i,
    {
        if i > 0 {
            append_all(&mut r, sep);
        }
        append_all(&mut r, &parts[i]);
        i = i + 1;
        proof {
            let pv = parts.deep_view();
            assert(pv.subrange(0, i as int).drop_last() =~= pv.subrange(0, i - 1 as int));
            assert(pv.subrange(0, i as int).last() == pv[i - 1]);
            if i == 1 {
                assert(r@ =~= pv.subrange(0, 1).last());
            }
        }
    }
    assert(parts.deep_view().subrange(0, parts@.len() as int) =~= parts.deep_view());
    r
}

} // verus!

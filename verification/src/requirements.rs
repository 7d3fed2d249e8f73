//! The requirements extractor: classifies catalog note lines into
//! corequisites, prerequisites and restriction prose. A note is classified
//! by a recognized label prefix (case-insensitive, tolerant of "(s)" and
//! ":"); prerequisite and corequisite payloads are split into course-code
//! tokens on "," / ";" / the word "and"; restriction payloads are
//! concatenated verbatim with a separating space; unrecognized notes are
//! dropped without error.

use vstd::prelude::*;

use crate::model::{ReqKind, Requirement, Requirements, requirements_view};
use crate::text::{
    chars_of, string_of, subvec, find_sub, trim_chars, append_all, lemma_find,
    spec_find, spec_trim,
};
use crate::instructors::keep_nonempty;

verus! {

/// `s` starts with the label `lo`, compared case-insensitively; `up` is
/// the same label in the other case, position by position.
pub open spec fn label_matches(s: Seq<char>, lo: Seq<char>, up: Seq<char>) -> bool {
    lo.len() <= s.len() && forall|i: int|
        0 <= i < lo.len() ==> (#[trigger] s[i] == lo[i] || s[i] == up[i])
}

fn has_label(s: &Vec<char>, lo: &Vec<char>, up: &Vec<char>) -> (r: bool)
    requires
        lo@.len() == up@.len(),
    ensures
        r == label_matches(s@, lo@, up@),
{
    if lo.len() > s.len() {
        return false;
    }
    let mut i: usize = 0;
    while i < lo.len()
        invariant
            lo@.len() == up@.len(),
            lo@.len() <= s@.len(),
            i <= lo@.len(),
            forall|k: int| 0 <= k < i ==> (#[trigger] s@[k] == lo@[k] || s@[k] == up@[k]),
        decreases lo@.len() - i,
    {
        if s[i] != lo[i] && s[i] != up[i] {
            return false;
        }
        i = i + 1;
    }
    true
}

/// The payload after a recognized label of length `n`: an optional plural
/// "s", an optional "(s)", an optional ":", then trimmed.
pub open spec fn spec_after_label(t: Seq<char>, n: int) -> Seq<char> {
    let u = t.skip(n);
    let u1 = if u.len() >= 1 && (u[0] == 's' || u[0] == 'S') {
        u.skip(1)
    } else {
        u
    };
    let u2 = if u1.len() >= 3 && u1[0] == '(' && (u1[1] == 's' || u1[1] == 'S') && u1[2] == ')' {
        u1.skip(3)
    } else {
        u1
    };
    let u3 = if u2.len() >= 1 && u2[0] == ':' {
        u2.skip(1)
    } else {
        u2
    };
    spec_trim(u3)
}

/// The classification of one trimmed note line.
pub open spec fn spec_classify(note: Seq<char>) -> (ReqKind, Seq<char>) {
    let t = spec_trim(note);
    if label_matches(t, "prerequisite"@, "PREREQUISITE"@) {
        (ReqKind::Prerequisite, spec_after_label(t, "prerequisite"@.len() as int))
    } else if label_matches(t, "corequisite"@, "COREQUISITE"@) {
        (ReqKind::Corequisite, spec_after_label(t, "corequisite"@.len() as int))
    } else if label_matches(t, "restriction"@, "RESTRICTION"@) {
        (ReqKind::Restriction, spec_after_label(t, "restriction"@.len() as int))
    } else {
        (ReqKind::Unrecognized, Seq::empty())
    }
}

fn after_label(t: &Vec<char>, n: usize) -> (r: Vec<char>)
    requires
        n <= t@.len(),
    ensures
        r@ == spec_after_label(t@, n as int),
{
    let tl = t.len();
    let mut a: usize = n;
    assert(t@.skip(n as int) =~= t@.subrange(n as int, tl as int));
    if a < tl && (t[a] == 's' || t[a] == 'S') {
        a = a + 1;
    }
    if tl >= 3 && a <= tl - 3 && t[a] == '(' && (t[a + 1] == 's' || t[a + 1] == 'S') && t[a + 2]
        == ')' {
        a = a + 3;
    }
    if a < tl && t[a] == ':' {
        a = a + 1;
    }
    proof {
        let u = t@.skip(n as int);
        let u1 = if u.len() >= 1 && (u[0] == 's' || u[0] == 'S') {
            u.skip(1)
        } else {
            u
        };
        let u2 = if u1.len() >= 3 && u1[0] == '(' && (u1[1] == 's' || u1[1] == 'S') && u1[2] == ')'
            {
            u1.skip(3)
        } else {
            u1
        };
        let u3 = if u2.len() >= 1 && u2[0] == ':' {
            u2.skip(1)
        } else {
            u2
        };
        assert(u3 =~= t@.subrange(a as int, tl as int));
    }
    let tail = subvec(t, a, tl);
    trim_chars(&tail)
}

/// The earliest course-code delimiter in `s`: its position and length.
/// Delimiters are "," and ";" and the word "and" with a space on each
/// side.
pub open spec fn spec_next_delim(s: Seq<char>) -> Option<(int, int)> {
    min_delim(
        min_delim(with_len(spec_find(s, seq![',']), 1), with_len(spec_find(s, seq![';']), 1)),
        with_len(spec_find(s, " and "@), " and "@.len() as int),
    )
}

pub open spec fn with_len(p: Option<int>, l: int) -> Option<(int, int)> {
    match p {
        Some(i) => Some((i, l)),
        None => None,
    }
}

pub open spec fn min_delim(a: Option<(int, int)>, b: Option<(int, int)>) -> Option<(int, int)> {
    match (a, b) {
        (Some(x), Some(y)) => if x.0 <= y.0 {
            Some(x)
        } else {
            Some(y)
        },
        (Some(x), None) => Some(x),
        (None, Some(y)) => Some(y),
        (None, None) => None,
    }
}

/// The payload cut at every course-code delimiter, in order.
pub open spec fn spec_code_split(s: Seq<char>) -> Seq<Seq<char>>
    decreases s.len(),
        when true via spec_code_split_decreases
{
    match spec_next_delim(s) {
        Some(d) => seq![s.subrange(0, d.0)] + spec_code_split(s.skip(d.0 + d.1)),
        None => seq![s],
    }
}

#[via_fn]
proof fn spec_code_split_decreases(s: Seq<char>) {
    lemma_find(s, seq![',']);
    lemma_find(s, seq![';']);
    lemma_find(s, " and "@);
    reveal_strlit(" and ");
}

/// Each segment trimmed, in order.
pub open spec fn map_trim(parts: Seq<Seq<char>>) -> Seq<Seq<char>>
    decreases parts.len(),
{
    if parts.len() == 0 {
        Seq::empty()
    } else {
        map_trim(parts.drop_last()).push(spec_trim(parts.last()))
    }
}

/// The course-code tokens of a prerequisite or corequisite payload:
/// delimiter-separated segments, trimmed, empties dropped, source order
/// and duplicates kept.
pub open spec fn spec_codes(payload: Seq<char>) -> Seq<Seq<char>> {
    keep_nonempty(map_trim(spec_code_split(payload)))
}

fn next_delim(s: &Vec<char>) -> (r: Option<(usize, usize)>)
    ensures
        match r {
            Some(d) => spec_next_delim(s@) == Some((d.0 as int, d.1 as int)) && d.0 + d.1
                <= s@.len() && d.1 >= 1,
            None => spec_next_delim(s@) is None,
        },
{
    proof {
        reveal_strlit(" and ");
    }
    let comma: Vec<char> = vec![','];
    let semi: Vec<char> = vec![';'];
    let and_word = chars_of(" and ");
    assert(comma@ =~= seq![',']);
    assert(semi@ =~= seq![';']);
    let pc = find_sub(s, &comma);
    let ps = find_sub(s, &semi);
    let pa = find_sub(s, &and_word);
    proof {
        lemma_find(s@, seq![',']);
        lemma_find(s@, seq![';']);
        lemma_find(s@, " and "@);
    }
    let first = match (pc, ps) {
        (Some(i), Some(j)) => if i <= j {
            Some((i, 1usize))
        } else {
            Some((j, 1usize))
        },
        (Some(i), None) => Some((i, 1usize)),
        (None, Some(j)) => Some((j, 1usize)),
        (None, None) => None,
    };
    let al = and_word.len();
    match (first, pa) {
        (Some(d), Some(k)) => if d.0 <= k {
            Some(d)
        } else {
            Some((k, al))
        },
        (Some(d), None) => Some(d),
        (None, Some(k)) => Some((k, al)),
        (None, None) => None,
    }
}

fn code_split(s: &Vec<char>) -> (r: Vec<Vec<char>>)
    ensures
        r.deep_view() == spec_code_split(s@),
{
    let mut parts: Vec<Vec<char>> = Vec::new();
    let mut cur: Vec<char> = subvec(s, 0, s.len());
    let mut done: bool = false;
    assert(cur@ =~= s@);
    while !done
        invariant
            !done ==> spec_code_split(s@) =~~= parts.deep_view() + spec_code_split(cur@),
            done ==> parts.deep_view() =~~= spec_code_split(s@),
        decreases cur@.len() + (if done { 0int } else { 1int }),
    {
        match next_delim(&cur) {
            None => {
                let ghost before = parts.deep_view();
                let ghost oldcur = cur@;
                parts.push(cur);
                cur = Vec::new();
                proof {
                    assert(parts.deep_view() =~~= before + seq![oldcur]);
                    assert(spec_code_split(oldcur) == seq![oldcur]);
                }
                done = true;
            },
            Some(d) => {
                let piece = subvec(&cur, 0, d.0);
                let cl: usize = cur.len();
                let next = subvec(&cur, d.0 + d.1, cl);
                let ghost before = parts.deep_view();
                let ghost oldcur = cur@;
                parts.push(piece);
                cur = next;
                proof {
                    assert(parts.deep_view() =~~= before + seq![oldcur.subrange(0, d.0 as int)]);
                    assert(cur@ =~= oldcur.skip(d.0 + d.1));
                }
            },
        }
    }
    parts
}

/// The course-code tokens of one payload.
pub fn codes_of(payload: &Vec<char>) -> (r: Vec<String>)
    ensures
        r.deep_view() == spec_codes(payload@),
{
    let parts = code_split(payload);
    let mut out: Vec<String> = Vec::new();
    let mut i: usize = 0;
    let n = parts.len();
    proof {
        assert(parts.deep_view().subrange(0, 0) =~= Seq::<Seq<char>>::empty());
        assert(out.deep_view() =~~= keep_nonempty(map_trim(Seq::<Seq<char>>::empty())));
    }
    while i < n
        invariant
            i <= n,
            parts.deep_view().len() == n,
            out.deep_view() == keep_nonempty(map_trim(parts.deep_view().subrange(0, i as int))),
        decreases n - i,
    {
        let ghost pre = parts.deep_view().subrange(0, i as int);
        let t = trim_chars(&parts[i]);
        if t.len() > 0 {
            out.push(string_of(&t));
        }
        i = i + 1;
        proof {
            let dv = parts.deep_view();
            let cur = dv.subrange(0, i as int);
            assert(cur.drop_last() =~= pre);
            assert(cur.last() == dv[i - 1]);
            assert(dv[i - 1] == parts@[i - 1]@);
            assert(map_trim(cur) == map_trim(pre).push(spec_trim(dv[i - 1])));
            let mt = map_trim(cur);
            assert(mt.drop_last() =~= map_trim(pre));
            if t@.len() > 0 {
                assert(keep_nonempty(mt) == keep_nonempty(map_trim(pre)).push(t@));
                assert(out.deep_view() =~~= keep_nonempty(mt));
            } else {
                assert(keep_nonempty(mt) == keep_nonempty(map_trim(pre)));
            }
        }
    }
    proof {
        assert(parts.deep_view().subrange(0, n as int) =~= parts.deep_view());
    }
    out
}

/// Classify one note line into its kind and payload.
pub fn classify_note(note: &str) -> (r: Requirement)
    ensures
        r.kind == spec_classify(note@).0,
        r.payload@ == spec_classify(note@).1,
{
    let cs = chars_of(note);
    let t = trim_chars(&cs);
    let pre_lo = chars_of("prerequisite");
    let pre_up = chars_of("PREREQUISITE");
    let co_lo = chars_of("corequisite");
    let co_up = chars_of("COREQUISITE");
    let re_lo = chars_of("restriction");
    let re_up = chars_of("RESTRICTION");
    proof {
        reveal_strlit("prerequisite");
        reveal_strlit("PREREQUISITE");
        reveal_strlit("corequisite");
        reveal_strlit("COREQUISITE");
        reveal_strlit("restriction");
        reveal_strlit("RESTRICTION");
    }
    if has_label(&t, &pre_lo, &pre_up) {
        let payload = after_label(&t, pre_lo.len());
        Requirement { kind: ReqKind::Prerequisite, payload: string_of(&payload) }
    } else if has_label(&t, &co_lo, &co_up) {
        let payload = after_label(&t, co_lo.len());
        Requirement { kind: ReqKind::Corequisite, payload: string_of(&payload) }
    } else if has_label(&t, &re_lo, &re_up) {
        let payload = after_label(&t, re_lo.len());
        Requirement { kind: ReqKind::Restriction, payload: string_of(&payload) }
    } else {
        Requirement { kind: ReqKind::Unrecognized, payload: String::new() }
    }
}

/// The requirements accumulated over the notes of a page, in document
/// order.
pub open spec fn spec_requirements(notes: Seq<Seq<char>>) -> (Seq<Seq<char>>, Seq<Seq<char>>, Option<
    Seq<char>,
>)
    decreases notes.len(),
{
    if notes.len() == 0 {
        (Seq::empty(), Seq::empty(), None::<Seq<char>>)
    } else {
        let prev = spec_requirements(notes.drop_last());
        let cl = spec_classify(notes.last());
        if cl.0 is Prerequisite {
            (prev.0 + spec_codes(cl.1), prev.1, prev.2)
        } else if cl.0 is Corequisite {
            (prev.0, prev.1 + spec_codes(cl.1), prev.2)
        } else if cl.0 is Restriction {
            (
                prev.0,
                prev.1,
                match prev.2 {
                    None => Some(cl.1),
                    Some(r) => Some(r + seq![' '] + cl.1),
                },
            )
        } else {
            prev
        }
    }
}

/// Fold the classified notes into a `Requirements` value.
pub fn requirements_from_notes(notes: &Vec<String>) -> (r: Requirements)
    ensures
        requirements_view(r) == spec_requirements(notes.deep_view()),
{
    let mut pre: Vec<String> = Vec::new();
    let mut co: Vec<String> = Vec::new();
    let mut restr: Option<String> = None;
    let mut i: usize = 0;
    let n = notes.len();
    proof {
        assert(notes.deep_view().subrange(0, 0) =~= Seq::<Seq<char>>::empty());
        assert(pre.deep_view() =~~= Seq::<Seq<char>>::empty());
        assert(co.deep_view() =~~= Seq::<Seq<char>>::empty());
    }
    while i < n
        invariant
            i <= n,
            notes.deep_view().len() == n,
            notes@.len() == n,
            (
                pre.deep_view(),
                co.deep_view(),
                match restr {
                    Some(s) => Some(s@),
                    None => None,
                },
            ) == spec_requirements(notes.deep_view().subrange(0, i as int)),
        decreases n - i,
    {
        let ghost prev = spec_requirements(notes.deep_view().subrange(0, i as int));
        let req = classify_note(notes[i].as_str());
        let ghost dv = notes.deep_view();
        proof {
            assert(dv.subrange(0, i + 1).drop_last() =~= dv.subrange(0, i as int));
            assert(dv.subrange(0, i + 1).last() == dv[i as int]);
            assert(dv[i as int] == notes@[i as int]@);
        }
        match req.kind {
            ReqKind::Prerequisite => {
                let payload = chars_of(req.payload.as_str());
                let mut cs = codes_of(&payload);
                let ghost cv = cs.deep_view();
                pre.append(&mut cs);
                proof {
                    assert(pre.deep_view() =~~= prev.0 + cv);
                }
            },
            ReqKind::Corequisite => {
                let payload = chars_of(req.payload.as_str());
                let mut cs = codes_of(&payload);
                let ghost cv = cs.deep_view();
                co.append(&mut cs);
                proof {
                    assert(co.deep_view() =~~= prev.1 + cv);
                }
            },
            ReqKind::Restriction => {
                match restr {
                    None => {
                        restr = Some(req.payload);
                    },
                    Some(acc) => {
                        let mut joined = chars_of(acc.as_str());
                        joined.push(' ');
                        let p = chars_of(req.payload.as_str());
                        append_all(&mut joined, &p);
                        proof {
                            assert(joined@ =~= acc@ + seq![' '] + req.payload@);
                        }
                        restr = Some(string_of(&joined));
                    },
                }
            },
            ReqKind::Unrecognized => {},
        }
        i = i + 1;
        proof {
            assert(spec_requirements(dv.subrange(0, i as int)).0 =~~= pre.deep_view());
            assert(spec_requirements(dv.subrange(0, i as int)).1 =~~= co.deep_view());
        }
    }
    proof {
        assert(notes.deep_view().subrange(0, n as int) =~= notes.deep_view());
    }
    Requirements { prerequisites: pre, corequisites: co, restrictions: restr }
}

} // verus!

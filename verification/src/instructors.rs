//! The instructor-term associator: decodes the free-text terms paragraph
//! and instructors paragraph of a course page into (name, term) pairs.
//!
//! The terms paragraph is space-delimited with a leading label to discard;
//! re-joined and split on ", " it yields one term string per offered term.
//! The instructors paragraph, after its own leading label is discarded,
//! groups names by term with the convention "name; name; ... (Abbrev)",
//! where the abbreviation is the first word of a term string. Terms are
//! consumed in order; a term whose marker is absent yields no instructors
//! and leaves the remaining text unconsumed.

use vstd::prelude::*;

use crate::model::Instructor;
use crate::text::{
    chars_of, string_of, subvec, find_sub, split_sub, trim_chars, join_with, lemma_find,
    matches_at, spec_find, spec_split, spec_trim, spec_join,
};

verus! {

/// The segments with empty entries dropped, order kept.
pub open spec fn keep_nonempty(parts: Seq<Seq<char>>) -> Seq<Seq<char>>
    decreases parts.len(),
{
    if parts.len() == 0 {
        Seq::empty()
    } else {
        let rest = keep_nonempty(parts.drop_last());
        if parts.last().len() > 0 {
            rest.push(parts.last())
        } else {
            rest
        }
    }
}

/// The term strings encoded by a raw terms paragraph: trim, discard the
/// leading space-delimited label, drop empty tokens, re-join with single
/// spaces, split on ", ".
pub open spec fn spec_term_list(raw: Seq<char>) -> Seq<Seq<char>> {
    spec_split(
        spec_join(keep_nonempty(spec_split(spec_trim(raw), seq![' ']).skip(1)), seq![' ']),
        seq![',', ' '],
    )
}

/// The working text of a raw instructors paragraph: trim and discard the
/// leading space-delimited label, keeping the rest verbatim.
pub open spec fn spec_instr_text(raw: Seq<char>) -> Seq<char> {
    spec_join(spec_split(spec_trim(raw), seq![' ']).skip(1), seq![' '])
}

/// The first space-delimited word of a term string; the whole string when
/// it has no space.
pub open spec fn spec_first_token(s: Seq<char>) -> Seq<char> {
    match spec_find(s, seq![' ']) {
        Some(i) => s.subrange(0, i),
        None => s,
    }
}

/// The positional marker of a term: its abbreviation in parentheses.
pub open spec fn spec_marker(term: Seq<char>) -> Seq<char> {
    seq!['('] + spec_first_token(term) + seq![')']
}

/// One instructor group resolved to a display name: trimmed, split on
/// ", ", and re-joined with single spaces, preserving word order.
pub open spec fn spec_display_name(g: Seq<char>) -> Seq<char> {
    spec_join(spec_split(spec_trim(g), seq![',', ' ']), seq![' '])
}

/// The display names of all groups in a "before" segment.
pub open spec fn spec_names_raw(groups: Seq<Seq<char>>) -> Seq<Seq<char>>
    decreases groups.len(),
{
    if groups.len() == 0 {
        Seq::empty()
    } else {
        spec_names_raw(groups.drop_last()).push(spec_display_name(groups.last()))
    }
}

/// The instructor names of a "before" segment: one group per ";", each
/// resolved to a display name, empty names dropped.
pub open spec fn spec_group_names(before: Seq<char>) -> Seq<Seq<char>> {
    keep_nonempty(spec_names_raw(spec_split(before, seq![';'])))
}

/// Each name paired with the full term string.
pub open spec fn spec_pairs_for(names: Seq<Seq<char>>, term: Seq<char>) -> Seq<
    (Seq<char>, Seq<char>),
>
    decreases names.len(),
{
    if names.len() == 0 {
        Seq::empty()
    } else {
        spec_pairs_for(names.drop_last(), term).push((names.last(), term))
    }
}

/// The associator: for each term in order, when the marker "(Abbrev)"
/// occurs in the remaining text, the segment before its first occurrence
/// yields that term's instructors, and the text advances to the segment
/// between the first and second occurrence (trimmed); when the marker is
/// absent the term yields nothing and the text is left unconsumed.
pub open spec fn spec_associate(terms: Seq<Seq<char>>, text: Seq<char>) -> Seq<
    (Seq<char>, Seq<char>),
>
    decreases terms.len(),
{
    if terms.len() == 0 {
        Seq::empty()
    } else {
        let term = terms[0];
        let m = spec_marker(term);
        match spec_find(text, m) {
            Some(i) => {
                let before = text.subrange(0, i);
                let rest0 = text.skip(i + m.len() as int);
                let rest = match spec_find(rest0, m) {
                    Some(j) => rest0.subrange(0, j),
                    None => rest0,
                };
                spec_pairs_for(spec_group_names(before), term) + spec_associate(
                    terms.skip(1),
                    spec_trim(rest),
                )
            },
            None => spec_associate(terms.skip(1), text),
        }
    }
}

/// The full decoding of the two raw paragraphs.
pub open spec fn spec_instructors(terms_raw: Seq<char>, instructors_raw: Seq<char>) -> Seq<
    (Seq<char>, Seq<char>),
> {
    spec_associate(spec_term_list(terms_raw), spec_instr_text(instructors_raw))
}

/// Every segment that `keep_nonempty` keeps is non-empty.
pub proof fn lemma_keep_nonempty_sound(parts: Seq<Seq<char>>)
    ensures
        forall|j: int|
            0 <= j < keep_nonempty(parts).len() ==> (#[trigger] keep_nonempty(parts)[j]).len() > 0,
    decreases parts.len(),
{
    if parts.len() > 0 {
        lemma_keep_nonempty_sound(parts.drop_last());
        let rest = keep_nonempty(parts.drop_last());
        let whole = keep_nonempty(parts);
        if parts.last().len() > 0 {
            assert forall|j: int| 0 <= j < whole.len() implies (#[trigger] whole[j]).len() > 0 by {
                if j < rest.len() {
                    assert(whole[j] == rest[j]);
                } else {
                    assert(whole[j] == parts.last());
                }
            }
        } else {
            assert(whole == rest);
        }
    } else {
        assert(keep_nonempty(parts).len() == 0);
    }
}

/// Pairing names with a term keeps the count and the order: pair `j`
/// holds name `j` and the term.
pub proof fn lemma_pairs_for(names: Seq<Seq<char>>, term: Seq<char>)
    ensures
        spec_pairs_for(names, term).len() == names.len(),
        forall|j: int|
            0 <= j < names.len() ==> #[trigger] spec_pairs_for(names, term)[j] == (
                names[j],
                term,
            ),
    decreases names.len(),
{
    if names.len() > 0 {
        lemma_pairs_for(names.drop_last(), term);
        let whole = spec_pairs_for(names, term);
        assert forall|j: int| 0 <= j < names.len() implies #[trigger] whole[j] == (
            names[j],
            term,
        ) by {
            if j < names.len() - 1 {
                assert(whole[j] == spec_pairs_for(names.drop_last(), term)[j]);
                assert(names.drop_last()[j] == names[j]);
            }
        }
    }
}

/// Every instructor the associator yields has a non-empty name: empty
/// groups are dropped, never emitted.
pub proof fn lemma_associate_names_nonempty(terms: Seq<Seq<char>>, text: Seq<char>)
    ensures
        forall|j: int|
            0 <= j < spec_associate(terms, text).len() ==> (#[trigger] spec_associate(
                terms,
                text,
            )[j]).0.len() > 0,
    decreases terms.len(),
{
    if terms.len() > 0 {
        let term = terms[0];
        let m = spec_marker(term);
        let whole = spec_associate(terms, text);
        match spec_find(text, m) {
            Some(i) => {
                let before = text.subrange(0, i);
                let rest0 = text.skip(i + m.len() as int);
                let rest = match spec_find(rest0, m) {
                    Some(k) => rest0.subrange(0, k),
                    None => rest0,
                };
                let names = spec_group_names(before);
                let head = spec_pairs_for(names, term);
                lemma_keep_nonempty_sound(spec_names_raw(spec_split(before, seq![';'])));
                lemma_pairs_for(names, term);
                lemma_associate_names_nonempty(terms.skip(1), spec_trim(rest));
                let tail = spec_associate(terms.skip(1), spec_trim(rest));
                assert(whole == head + tail);
                assert(head.len() == names.len());
                assert forall|j: int| 0 <= j < spec_associate(terms, text).len() implies (
                #[trigger] spec_associate(terms, text)[j]).0.len() > 0 by {
                    if j < head.len() {
                        assert(whole[j] == head[j]);
                        assert(head[j] == (names[j], term));
                        assert(names[j].len() > 0);
                    } else {
                        assert(whole[j] == tail[j - head.len()]);
                        assert(tail[j - head.len()].0.len() > 0);
                    }
                }
            },
            None => {
                lemma_associate_names_nonempty(terms.skip(1), text);
                let tail = spec_associate(terms.skip(1), text);
                assert(whole == tail);
                assert forall|j: int| 0 <= j < spec_associate(terms, text).len() implies (
                #[trigger] spec_associate(terms, text)[j]).0.len() > 0 by {
                    assert(whole[j] == tail[j]);
                    assert(tail[j].0.len() > 0);
                }
            },
        }
    } else {
        assert(spec_associate(terms, text).len() == 0);
    }
}

/// The number of instructor groups the associator recovers: for each term
/// whose marker occurs, the names of its "before" segment, over the same
/// advancing text.
pub open spec fn spec_group_count(terms: Seq<Seq<char>>, text: Seq<char>) -> nat
    decreases terms.len(),
{
    if terms.len() == 0 {
        0
    } else {
        let term = terms[0];
        let m = spec_marker(term);
        match spec_find(text, m) {
            Some(i) => {
                let before = text.subrange(0, i);
                let rest0 = text.skip(i + m.len() as int);
                let rest = match spec_find(rest0, m) {
                    Some(j) => rest0.subrange(0, j),
                    None => rest0,
                };
                spec_group_names(before).len() + spec_group_count(terms.skip(1), spec_trim(rest))
            },
            None => spec_group_count(terms.skip(1), text),
        }
    }
}

/// The associator yields exactly one instructor per recoverable group.
pub proof fn lemma_associate_count(terms: Seq<Seq<char>>, text: Seq<char>)
    ensures
        spec_associate(terms, text).len() == spec_group_count(terms, text),
    decreases terms.len(),
{
    if terms.len() > 0 {
        let term = terms[0];
        let m = spec_marker(term);
        match spec_find(text, m) {
            Some(i) => {
                let before = text.subrange(0, i);
                let rest0 = text.skip(i + m.len() as int);
                let rest = match spec_find(rest0, m) {
                    Some(j) => rest0.subrange(0, j),
                    None => rest0,
                };
                lemma_pairs_for(spec_group_names(before), term);
                lemma_associate_count(terms.skip(1), spec_trim(rest));
            },
            None => {
                lemma_associate_count(terms.skip(1), text);
            },
        }
    }
}

/// The least index of `t` among `terms`; `terms.len()` when absent.
pub open spec fn term_index(terms: Seq<Seq<char>>, t: Seq<char>) -> int
    decreases terms.len(),
{
    if terms.len() == 0 {
        0
    } else if terms[0] == t {
        0
    } else {
        1 + term_index(terms.skip(1), t)
    }
}

pub proof fn lemma_term_index(terms: Seq<Seq<char>>, t: Seq<char>)
    ensures
        0 <= term_index(terms, t) <= terms.len(),
        term_index(terms, t) < terms.len() ==> terms[term_index(terms, t)] == t,
    decreases terms.len(),
{
    if terms.len() > 0 && terms[0] != t {
        lemma_term_index(terms.skip(1), t);
    }
}

/// Every pair the associator yields carries one of the given terms.
pub proof fn lemma_associate_member(terms: Seq<Seq<char>>, text: Seq<char>)
    ensures
        forall|j: int|
            0 <= j < spec_associate(terms, text).len() ==> term_index(
                terms,
                (#[trigger] spec_associate(terms, text)[j]).1,
            ) < terms.len(),
    decreases terms.len(),
{
    if terms.len() == 0 {
        assert(spec_associate(terms, text).len() == 0);
    } else {
        let term = terms[0];
        let m = spec_marker(term);
        let whole = spec_associate(terms, text);
        match spec_find(text, m) {
            Some(i) => {
                let before = text.subrange(0, i);
                let rest0 = text.skip(i + m.len() as int);
                let rest = match spec_find(rest0, m) {
                    Some(k) => rest0.subrange(0, k),
                    None => rest0,
                };
                let names = spec_group_names(before);
                let head = spec_pairs_for(names, term);
                let tail = spec_associate(terms.skip(1), spec_trim(rest));
                lemma_pairs_for(names, term);
                lemma_associate_member(terms.skip(1), spec_trim(rest));
                assert(whole == head + tail);
                assert forall|j: int| 0 <= j < whole.len() implies term_index(
                    terms,
                    (#[trigger] whole[j]).1,
                ) < terms.len() by {
                    if j < head.len() {
                        assert(whole[j] == head[j]);
                        assert(whole[j].1 == term);
                    } else {
                        let t = tail[j - head.len()].1;
                        assert(whole[j] == tail[j - head.len()]);
                        assert(term_index(terms.skip(1), t) < terms.skip(1).len());
                    }
                }
            },
            None => {
                let tail = spec_associate(terms.skip(1), text);
                lemma_associate_member(terms.skip(1), text);
                assert(whole == tail);
                assert forall|j: int| 0 <= j < whole.len() implies term_index(
                    terms,
                    (#[trigger] whole[j]).1,
                ) < terms.len() by {
                    let t = tail[j].1;
                    assert(whole[j] == tail[j]);
                    assert(term_index(terms.skip(1), t) < terms.skip(1).len());
                }
            },
        }
    }
}

/// No term string occurs twice in the paragraph.
pub open spec fn distinct_terms(terms: Seq<Seq<char>>) -> bool {
    forall|a: int, b: int| 0 <= a < b < terms.len() ==> terms[a] != terms[b]
}

/// The associator follows the terms paragraph's order: with pairwise
/// distinct term strings, every output pair carries one of the given
/// terms, and a pair of an earlier term never follows a pair of a later
/// one.
pub proof fn lemma_associate_term_order(terms: Seq<Seq<char>>, text: Seq<char>)
    requires
        distinct_terms(terms),
    ensures
        forall|j: int|
            0 <= j < spec_associate(terms, text).len() ==> term_index(
                terms,
                (#[trigger] spec_associate(terms, text)[j]).1,
            ) < terms.len(),
        forall|a: int, b: int|
            #![trigger spec_associate(terms, text)[a], spec_associate(terms, text)[b]]
            0 <= a <= b < spec_associate(terms, text).len() ==> term_index(
                terms,
                spec_associate(terms, text)[a].1,
            ) <= term_index(terms, spec_associate(terms, text)[b].1),
    decreases terms.len(),
{
    if terms.len() == 0 {
        assert(spec_associate(terms, text).len() == 0);
    } else {
        let term = terms[0];
        let m = spec_marker(term);
        let rest_terms = terms.skip(1);
        assert forall|a: int, b: int| 0 <= a < b < rest_terms.len() implies rest_terms[a]
            != rest_terms[b] by {
            assert(rest_terms[a] == terms[a + 1]);
            assert(rest_terms[b] == terms[b + 1]);
        }
        let whole = spec_associate(terms, text);
        match spec_find(text, m) {
            Some(i) => {
                let before = text.subrange(0, i);
                let rest0 = text.skip(i + m.len() as int);
                let rest = match spec_find(rest0, m) {
                    Some(k) => rest0.subrange(0, k),
                    None => rest0,
                };
                let names = spec_group_names(before);
                let head = spec_pairs_for(names, term);
                let tail = spec_associate(rest_terms, spec_trim(rest));
                lemma_pairs_for(names, term);
                lemma_associate_term_order(rest_terms, spec_trim(rest));
                assert(whole == head + tail);
                assert forall|j: int| 0 <= j < whole.len() implies term_index(
                    terms,
                    (#[trigger] whole[j]).1,
                ) < terms.len() by {
                    lemma_whole_index(terms, text, j);
                }
                assert forall|a: int, b: int|
                    #![trigger whole[a], whole[b]]
                    0 <= a <= b < whole.len() implies term_index(terms, whole[a].1) <= term_index(
                    terms,
                    whole[b].1,
                ) by {
                    lemma_whole_index(terms, text, a);
                    lemma_whole_index(terms, text, b);
                    lemma_term_index(rest_terms, whole[a].1);
                    lemma_term_index(rest_terms, whole[b].1);
                    if a >= head.len() {
                        assert(whole[a] == tail[a - head.len()]);
                        assert(whole[b] == tail[b - head.len()]);
                        assert(term_index(rest_terms, tail[a - head.len()].1) <= term_index(
                            rest_terms,
                            tail[b - head.len()].1,
                        ));
                    } else if b >= head.len() {
                        assert(term_index(terms, whole[a].1) == 0);
                        assert(term_index(terms, whole[b].1) == 1 + term_index(
                            rest_terms,
                            tail[b - head.len()].1,
                        ));
                    }
                }
            },
            None => {
                let tail = spec_associate(rest_terms, text);
                lemma_associate_term_order(rest_terms, text);
                assert(whole == tail);
                assert forall|j: int| 0 <= j < whole.len() implies term_index(
                    terms,
                    (#[trigger] whole[j]).1,
                ) < terms.len() by {
                    lemma_whole_index(terms, text, j);
                }
                assert forall|a: int, b: int|
                    #![trigger whole[a], whole[b]]
                    0 <= a <= b < whole.len() implies term_index(terms, whole[a].1) <= term_index(
                    terms,
                    whole[b].1,
                ) by {
                    lemma_whole_index(terms, text, a);
                    lemma_whole_index(terms, text, b);
                }
            },
        }
    }
}

/// For one output position, the pair's term's index among `terms`: 0 for
/// a pair of the leading term, one past its index among the remaining
/// terms otherwise.
proof fn lemma_whole_index(terms: Seq<Seq<char>>, text: Seq<char>, j: int)
    requires
        distinct_terms(terms),
        terms.len() > 0,
        0 <= j < spec_associate(terms, text).len(),
    ensures
        ({
            let term = terms[0];
            let m = spec_marker(term);
            let whole = spec_associate(terms, text);
            match spec_find(text, m) {
                Some(i) => {
                    let before = text.subrange(0, i);
                    let rest0 = text.skip(i + m.len() as int);
                    let rest = match spec_find(rest0, m) {
                        Some(k) => rest0.subrange(0, k),
                        None => rest0,
                    };
                    let head = spec_pairs_for(spec_group_names(before), term);
                    let tail = spec_associate(terms.skip(1), spec_trim(rest));
                    if j < head.len() {
                        term_index(terms, whole[j].1) == 0
                    } else {
                        term_index(terms, whole[j].1) == 1 + term_index(
                            terms.skip(1),
                            tail[j - head.len()].1,
                        ) && term_index(terms.skip(1), tail[j - head.len()].1) < terms.skip(
                            1,
                        ).len()
                    }
                },
                None => term_index(terms, whole[j].1) == 1 + term_index(
                    terms.skip(1),
                    spec_associate(terms.skip(1), text)[j].1,
                ) && term_index(terms.skip(1), spec_associate(terms.skip(1), text)[j].1)
                    < terms.skip(1).len(),
            }
        }),
    decreases terms.len(),
{
    let term = terms[0];
    let m = spec_marker(term);
    let whole = spec_associate(terms, text);
    let rest_terms = terms.skip(1);
    assert forall|a: int, b: int| 0 <= a < b < rest_terms.len() implies rest_terms[a]
        != rest_terms[b] by {
        assert(rest_terms[a] == terms[a + 1]);
        assert(rest_terms[b] == terms[b + 1]);
    }
    match spec_find(text, m) {
        Some(i) => {
            let before = text.subrange(0, i);
            let rest0 = text.skip(i + m.len() as int);
            let rest = match spec_find(rest0, m) {
                Some(k) => rest0.subrange(0, k),
                None => rest0,
            };
            let names = spec_group_names(before);
            let head = spec_pairs_for(names, term);
            let tail = spec_associate(rest_terms, spec_trim(rest));
            lemma_pairs_for(names, term);
            assert(whole == head + tail);
            if j < head.len() {
                assert(whole[j] == head[j]);
                assert(whole[j].1 == term);
            } else {
                let t = tail[j - head.len()].1;
                assert(whole[j] == tail[j - head.len()]);
                lemma_associate_member(rest_terms, spec_trim(rest));
                lemma_term_index(rest_terms, t);
                assert(rest_terms[term_index(rest_terms, t)] == t);
                assert(terms[1 + term_index(rest_terms, t)] == t);
                assert(terms[0] != t);
            }
        },
        None => {
            let tail = spec_associate(rest_terms, text);
            let t = tail[j].1;
            assert(whole == tail);
            lemma_associate_member(rest_terms, text);
            lemma_term_index(rest_terms, t);
            assert(rest_terms[term_index(rest_terms, t)] == t);
            assert(terms[1 + term_index(rest_terms, t)] == t);
            assert(terms[0] != t);
        },
    }
}

/// Discard the first token of `parts` and re-join with single spaces,
/// optionally dropping empty tokens first.
fn rejoin_after_label(parts: &Vec<Vec<char>>, drop_empty: bool) -> (r: Vec<char>)
    requires
        parts.deep_view().len() >= 1,
    ensures
        drop_empty ==> r@ == spec_join(
            keep_nonempty(parts.deep_view().skip(1)),
            seq![' '],
        ),
        !drop_empty ==> r@ == spec_join(parts.deep_view().skip(1), seq![' ']),
{
    let mut kept: Vec<Vec<char>> = Vec::new();
    let mut i: usize = 1;
    let n = parts.len();
    proof {
        assert(parts.deep_view().subrange(1, 1) =~= Seq::<Seq<char>>::empty());
        assert(kept.deep_view() =~~= Seq::<Seq<char>>::empty());
        assert(keep_nonempty(Seq::<Seq<char>>::empty()) =~= Seq::<Seq<char>>::empty());
    }
    while i < n
        invariant
            1 <= i <= n,
            parts.deep_view().len() == n,
            drop_empty ==> kept.deep_view() == keep_nonempty(
                parts.deep_view().subrange(1, i as int),
            ),
            !drop_empty ==> kept.deep_view() == parts.deep_view().subrange(1, i as int),
        decreases n - i,
    {
        let ghost pre = parts.deep_view().subrange(1, i as int);
        let p = &parts[i];
        if !drop_empty || p.len() > 0 {
            kept.push(subvec(p, 0, p.len()));
        }
        i = i + 1;
        proof {
            let dv = parts.deep_view();
            assert(dv.subrange(1, i as int).drop_last() =~= pre);
            assert(dv.subrange(1, i as int).last() == dv[i - 1]);
            assert(dv[i - 1] == parts@[i - 1].deep_view());
            assert(parts@[i - 1].deep_view() == parts@[i - 1]@);
            if drop_empty {
                assert(kept.deep_view() =~~= keep_nonempty(dv.subrange(1, i as int)));
            } else {
                assert(kept.deep_view() =~~= dv.subrange(1, i as int));
            }
        }
    }
    proof {
        let dv = parts.deep_view();
        assert(dv.subrange(1, n as int) =~= dv.skip(1));
        if n == 1 {
            assert(dv.subrange(1, 1).len() == 0);
            assert(keep_nonempty(dv.skip(1)).len() == 0);
        }
    }
    let space: Vec<char> = vec![' '];
    assert(space@ =~= seq![' ']);
    join_with(&kept, &space)
}

/// The term strings of a raw terms paragraph, in document order.
pub fn parse_term_list(terms_raw: &str) -> (r: Vec<Vec<char>>)
    ensures
        r.deep_view() == spec_term_list(terms_raw@),
{
    let cs = chars_of(terms_raw);
    let trimmed = trim_chars(&cs);
    let space: Vec<char> = vec![' '];
    assert(space@ =~= seq![' ']);
    let toks = split_sub(&trimmed, &space);
    proof {
        crate::text::lemma_split_nonempty(trimmed@, space@);
    }
    let joined = rejoin_after_label(&toks, true);
    let comma_space: Vec<char> = vec![',', ' '];
    assert(comma_space@ =~= seq![',', ' ']);
    split_sub(&joined, &comma_space)
}

/// The working instructors text of a raw instructors paragraph.
pub fn parse_instr_text(instructors_raw: &str) -> (r: Vec<char>)
    ensures
        r@ == spec_instr_text(instructors_raw@),
{
    let cs = chars_of(instructors_raw);
    let trimmed = trim_chars(&cs);
    let space: Vec<char> = vec![' '];
    assert(space@ =~= seq![' ']);
    let toks = split_sub(&trimmed, &space);
    proof {
        crate::text::lemma_split_nonempty(trimmed@, space@);
    }
    rejoin_after_label(&toks, false)
}

/// The display name of one instructor group.
fn display_name_of(g: &Vec<char>) -> (r: Vec<char>)
    ensures
        r@ == spec_display_name(g@),
{
    let trimmed = trim_chars(g);
    let comma_space: Vec<char> = vec![',', ' '];
    assert(comma_space@ =~= seq![',', ' ']);
    let parts = split_sub(&trimmed, &comma_space);
    let space: Vec<char> = vec![' '];
    assert(space@ =~= seq![' ']);
    join_with(&parts, &space)
}

/// The instructors of one "before" segment, paired with `term`.
fn pairs_of_segment(before: &Vec<char>, term: &Vec<char>) -> (r: Vec<Instructor>)
    ensures
        r.deep_view() == spec_pairs_for(spec_group_names(before@), term@),
{
    let semi: Vec<char> = vec![';'];
    assert(semi@ =~= seq![';']);
    let groups = split_sub(before, &semi);
    let mut out: Vec<Instructor> = Vec::new();
    let mut i: usize = 0;
    let n = groups.len();
    proof {
        assert(groups.deep_view().subrange(0, 0) =~= Seq::<Seq<char>>::empty());
        assert(out.deep_view() =~~= spec_pairs_for(
            keep_nonempty(spec_names_raw(Seq::<Seq<char>>::empty())),
            term@,
        ));
    }
    while i < n
        invariant
            i <= n,
            groups.deep_view().len() == n,
            groups.deep_view() == spec_split(before@, seq![';']),
            out.deep_view() == spec_pairs_for(
                keep_nonempty(spec_names_raw(groups.deep_view().subrange(0, i as int))),
                term@,
            ),
        decreases n - i,
    {
        let ghost pre = groups.deep_view().subrange(0, i as int);
        let name = display_name_of(&groups[i]);
        if name.len() > 0 {
            out.push(Instructor::new(string_of(&name), string_of(term)));
        }
        i = i + 1;
        proof {
            let dv = groups.deep_view();
            let cur = dv.subrange(0, i as int);
            assert(cur.drop_last() =~= pre);
            assert(cur.last() == dv[i - 1]);
            assert(dv[i - 1] == groups@[i - 1]@);
            assert(spec_names_raw(cur) == spec_names_raw(pre).push(spec_display_name(dv[i - 1])));
            let nr = spec_names_raw(cur);
            assert(nr.drop_last() =~= spec_names_raw(pre));
            if name@.len() > 0 {
                assert(keep_nonempty(nr) == keep_nonempty(spec_names_raw(pre)).push(name@));
                let kn = keep_nonempty(nr);
                assert(kn.drop_last() =~= keep_nonempty(spec_names_raw(pre)));
                assert(out.deep_view() =~~= spec_pairs_for(kn, term@));
            } else {
                assert(keep_nonempty(nr) == keep_nonempty(spec_names_raw(pre)));
            }
        }
    }
    proof {
        assert(groups.deep_view().subrange(0, n as int) =~= groups.deep_view());
    }
    out
}

/// The associator over already-separated term strings and working text.
fn associate(terms: &Vec<Vec<char>>, text0: Vec<char>) -> (r: Vec<Instructor>)
    ensures
        r.deep_view() == spec_associate(terms.deep_view(), text0@),
{
    let ghost tv0 = text0@;
    let mut out: Vec<Instructor> = Vec::new();
    let mut text = text0;
    let mut k: usize = 0;
    let n = terms.len();
    proof {
        assert(terms.deep_view().skip(0) =~= terms.deep_view());
    }
    while k < n
        invariant
            k <= n,
            terms.deep_view().len() == n,
            spec_associate(terms.deep_view(), tv0) =~~= out.deep_view() + spec_associate(
                terms.deep_view().skip(k as int),
                text@,
            ),
        decreases n - k,
    {
        let ghost dv = terms.deep_view();
        let ghost oldtext = text@;
        let ghost oldout = out.deep_view();
        let term = &terms[k];
        assert(dv.skip(k as int)[0] == dv[k as int]);
        assert(dv[k as int] == terms@[k as int]@);
        // build the marker "(Abbrev)"
        let space: Vec<char> = vec![' '];
        assert(space@ =~= seq![' ']);
        let abbrev = match find_sub(term, &space) {
            Some(i) => {
                proof {
                    lemma_find(term@, space@);
                }
                subvec(term, 0, i)
            },
            None => {
                proof {
                    assert(term@.subrange(0, term@.len() as int) =~= term@);
                }
                subvec(term, 0, term.len())
            },
        };
        assert(abbrev@ == spec_first_token(term@));
        let mut marker: Vec<char> = vec!['('];
        crate::text::append_all(&mut marker, &abbrev);
        marker.push(')');
        assert(marker@ =~= spec_marker(term@));
        match find_sub(&text, &marker) {
            Some(i) => {
                proof {
                    lemma_find(text@, marker@);
                    assert(matches_at(text@, marker@, i as int));
                }
                let before = subvec(&text, 0, i);
                let tl: usize = text.len();
                assert(i + marker@.len() <= tl);
                let rest0 = subvec(&text, i + marker.len(), tl);
                assert(rest0@ =~= text@.skip(i + marker@.len() as int));
                let rest = match find_sub(&rest0, &marker) {
                    Some(j) => {
                        proof {
                            lemma_find(rest0@, marker@);
                        }
                        subvec(&rest0, 0, j)
                    },
                    None => rest0,
                };
                let mut pairs = pairs_of_segment(&before, term);
                let ghost pv = pairs.deep_view();
                out.append(&mut pairs);
                text = trim_chars(&rest);
                proof {
                    assert(out.deep_view() =~~= oldout + pv);
                    assert(dv.skip(k as int).skip(1) =~= dv.skip(k + 1));
                    assert(spec_associate(dv.skip(k as int), oldtext) == pv + spec_associate(
                        dv.skip(k + 1),
                        text@,
                    ));
                }
            },
            None => {
                proof {
                    assert(dv.skip(k as int).skip(1) =~= dv.skip(k + 1));
                    assert(spec_associate(dv.skip(k as int), oldtext) == spec_associate(
                        dv.skip(k + 1),
                        text@,
                    ));
                }
            },
        }
        k = k + 1;
    }
    proof {
        assert(terms.deep_view().skip(n as int).len() == 0);
        assert(spec_associate(terms.deep_view().skip(n as int), text@).len() == 0);
        assert(out.deep_view() =~~= spec_associate(terms.deep_view(), tv0));
    }
    out
}

/// Decode the two raw paragraphs of a course page into instructors, in
/// term order and, within a term, in group order.
pub fn instructors_from_texts(terms_raw: &str, instructors_raw: &str) -> (r: Vec<Instructor>)
    ensures
        r.deep_view() == spec_instructors(terms_raw@, instructors_raw@),
{
    let terms = parse_term_list(terms_raw);
    let text = parse_instr_text(instructors_raw);
    associate(&terms, text)
}

} // verus!

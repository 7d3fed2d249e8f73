//! The listing extractor's term vocabulary and term filter: a listing
//! keeps a term only when it is a recognized term label ("Fall <year>",
//! "Winter <year>" or "Summer <year>"); anything else is dropped silently,
//! preserving the order of what remains.

use vstd::prelude::*;

use crate::model::CourseListing;
use crate::text::{chars_of, spec_find, subvec, find_sub};

verus! {

pub open spec fn is_digit(c: char) -> bool {
    '0' <= c && c <= '9'
}

/// A year is one or more decimal digits.
pub open spec fn is_year(s: Seq<char>) -> bool {
    s.len() >= 1 && forall|i: int| 0 <= i < s.len() ==> is_digit(#[trigger] s[i])
}

pub open spec fn is_season(w: Seq<char>) -> bool {
    w == "Fall"@ || w == "Winter"@ || w == "Summer"@
}

/// A recognized term label: a season word, one space, and a year.
pub open spec fn is_recognized_term(t: Seq<char>) -> bool {
    match spec_find(t, seq![' ']) {
        Some(i) => is_season(t.subrange(0, i)) && is_year(t.skip(i + 1)),
        None => false,
    }
}

pub fn chars_eq(a: &Vec<char>, b: &Vec<char>) -> (r: bool)
    ensures
        r == (a@ == b@),
{
    if a.len() != b.len() {
        return false;
    }
    let mut i: usize = 0;
    while i < a.len()
        invariant
            a@.len() == b@.len(),
            i <= a@.len(),
            forall|k: int| 0 <= k < i ==> a@[k] == b@[k],
        decreases a@.len() - i,
    {
        if a[i] != b[i] {
            return false;
        }
        i = i + 1;
    }
    proof {
        assert(a@ =~= b@);
    }
    true
}

pub fn recognized_term(t: &str) -> (r: bool)
    ensures
        r == is_recognized_term(t@),
{
    let cs = chars_of(t);
    let space: Vec<char> = vec![' '];
    assert(space@ =~= seq![' ']);
    match find_sub(&cs, &space) {
        None => false,
        Some(i) => {
            proof {
                crate::text::lemma_find(cs@, space@);
            }
            let season = subvec(&cs, 0, i);
            let fall = chars_of("Fall");
            let winter = chars_of("Winter");
            let summer = chars_of("Summer");
            let season_ok = chars_eq(&season, &fall) || chars_eq(&season, &winter) || chars_eq(
                &season,
                &summer,
            );
            if !season_ok {
                return false;
            }
            let n = cs.len();
            if i + 1 == n {
                assert(cs@.skip(i + 1).len() == 0);
                return false;
            }
            let mut j: usize = i + 1;
            while j < n
                invariant
                    i + 1 <= j <= n == cs@.len(),
                    cs@ == t@,
                    spec_find(t@, seq![' ']) == Some(i as int),
                    forall|k: int| i + 1 <= k < j ==> is_digit(#[trigger] cs@[k]),
                decreases n - j,
            {
                let c = cs[j];
                if !('0' <= c && c <= '9') {
                    proof {
                        assert(!is_digit(cs@[j as int]));
                        assert(cs@.skip(i + 1)[j - i - 1] == cs@[j as int]);
                        assert(!is_year(cs@.skip(i + 1)));
                        assert(spec_find(t@, seq![' ']) == Some(i as int));
                        assert(!is_year(t@.skip(i as int + 1)));
                        assert(!is_recognized_term(t@));
                    }
                    return false;
                }
                j = j + 1;
            }
            assert forall|k: int| 0 <= k < cs@.skip(i + 1).len() implies is_digit(
                #[trigger] cs@.skip(i + 1)[k],
            ) by {
                assert(cs@.skip(i + 1)[k] == cs@[k + i + 1]);
            }
            assert(cs@.skip(i + 1).len() >= 1);
            true
        },
    }
}

/// The recognized terms of `ts`, in source order.
pub open spec fn spec_filter_terms(ts: Seq<Seq<char>>) -> Seq<Seq<char>>
    decreases ts.len(),
{
    if ts.len() == 0 {
        Seq::empty()
    } else {
        let rest = spec_filter_terms(ts.drop_last());
        if is_recognized_term(ts.last()) {
            rest.push(ts.last())
        } else {
            rest
        }
    }
}

/// Every term that the filter keeps is recognized.
pub proof fn lemma_filter_terms_sound(ts: Seq<Seq<char>>)
    ensures
        forall|j: int|
            0 <= j < spec_filter_terms(ts).len() ==> is_recognized_term(
                #[trigger] spec_filter_terms(ts)[j],
            ),
    decreases ts.len(),
{
    if ts.len() > 0 {
        lemma_filter_terms_sound(ts.drop_last());
        let rest = spec_filter_terms(ts.drop_last());
        let whole = spec_filter_terms(ts);
        if is_recognized_term(ts.last()) {
            assert forall|j: int| 0 <= j < whole.len() implies is_recognized_term(
                #[trigger] whole[j],
            ) by {
                if j < rest.len() {
                    assert(whole[j] == rest[j]);
                } else {
                    assert(whole[j] == ts.last());
                }
            }
        } else {
            assert(whole == rest);
        }
    } else {
        assert(spec_filter_terms(ts).len() == 0);
    }
}

impl CourseListing {
    pub fn from_parts(
        department: String,
        faculty: String,
        level: String,
        terms: Vec<String>,
        url: String,
    ) -> (r: CourseListing)
        ensures
            r.department == department,
            r.faculty == faculty,
            r.level == level,
            r.terms == terms,
            r.url == url,
    {
        CourseListing { department, faculty, level, terms, url }
    }

    /// The term-filtering post-step of the listing extractor: only
    /// recognized term labels are retained, in source order; the other
    /// fields are untouched.
    pub fn filter_terms(self) -> (r: CourseListing)
        ensures
            r.department == self.department,
            r.faculty == self.faculty,
            r.level == self.level,
            r.url == self.url,
            r.terms.deep_view() == spec_filter_terms(self.terms.deep_view()),
    {
        let mut kept: Vec<String> = Vec::new();
        let mut i: usize = 0;
        let n = self.terms.len();
        while i < n
            invariant
                n == self.terms@.len(),
                i <= n,
                self.terms.deep_view().len() == n,
                kept.deep_view() == spec_filter_terms(self.terms.deep_view().subrange(0, i as int)),
            decreases n - i,
        {
            let ghost pre = self.terms.deep_view().subrange(0, i as int);
            let t = &self.terms[i];
            if recognized_term(t.as_str()) {
                kept.push(t.clone());
            }
            i = i + 1;
            proof {
                let dv = self.terms.deep_view();
                assert(dv.subrange(0, i as int).drop_last() =~= pre);
                assert(dv.subrange(0, i as int).last() == dv[i - 1]);
                assert(dv[i - 1] == self.terms@[i - 1]@);
                assert(kept.deep_view() =~~= spec_filter_terms(dv.subrange(0, i as int)));
            }
        }
        proof {
            assert(self.terms.deep_view().subrange(0, n as int) =~= self.terms.deep_view());
        }
        CourseListing {
            department: self.department,
            faculty: self.faculty,
            level: self.level,
            terms: kept,
            url: self.url,
        }
    }
}

} // verus!

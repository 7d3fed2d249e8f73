//! The three extraction entry points: listings, course pages, and
//! schedule feeds. Each parses its document once, locates fragments
//! through the structural query layer, and resolves free text through the
//! verified extractors. Every result is pinned to the named content of
//! the parsed document, so extraction is a function of the input text.

use vstd::prelude::*;
use vstd::string::StringExecFns;

use crate::instructors::{instructors_from_texts, spec_instructors};
use crate::listings::{is_recognized_term, spec_filter_terms};
use crate::model::{
    CourseListing, CoursePage, ExtractError, Instructor, Requirements, Schedule, is_missing,
    is_bad_selector, opt_str_view, requirements_view,
};
use crate::query::{
    attr_of, doc_select_all, doc_select_optional, doc_select_single, elem_select_all,
    elem_select_optional, elem_select_single, inner_html_of, parse_fragment, parse_of, doc_found,
    elem_found, elem_markup, elem_attr, valid_selector,
};
use crate::requirements::{requirements_from_notes, spec_requirements};
use crate::text::{chars_of, string_of, trim_chars, spec_trim};

verus! {

/// Extraction is a pure function of the document text: the decoded
/// instructors and the accumulated requirements depend on the raw
/// paragraphs and notes alone, so running extraction twice on identical
/// input yields identical values.
pub proof fn lemma_extraction_deterministic(
    terms_a: Seq<char>,
    instr_a: Seq<char>,
    notes_a: Seq<Seq<char>>,
    terms_b: Seq<char>,
    instr_b: Seq<char>,
    notes_b: Seq<Seq<char>>,
)
    requires
        terms_a == terms_b,
        instr_a == instr_b,
        notes_a == notes_b,
    ensures
        spec_instructors(terms_a, instr_a) == spec_instructors(terms_b, instr_b),
        spec_requirements(notes_a) == spec_requirements(notes_b),
{
}

/// The trimmed markup of the first match of `expr` under `el`.
pub open spec fn first_text(el: scraper::ElementRef<'_>, expr: Seq<char>) -> Seq<char> {
    spec_trim(elem_markup(elem_found(el, expr)[0]))
}

/// The trimmed markup of the first match of `expr` in the document.
pub open spec fn first_doc_text(html: &scraper::Html, expr: Seq<char>) -> Seq<char> {
    spec_trim(elem_markup(doc_found(html, expr)[0]))
}

/// The trimmed markup of the first match of `expr` under `el`, or nothing
/// when `expr` has no match.
pub open spec fn opt_text(el: scraper::ElementRef<'_>, expr: Seq<char>) -> Option<Seq<char>> {
    if elem_found(el, expr).len() > 0 {
        Some(first_text(el, expr))
    } else {
        None
    }
}

/// The trimmed inner markup of an element.
fn text_of(el: &scraper::ElementRef<'_>) -> (r: String)
    ensures
        r@ == spec_trim(elem_markup(*el)),
{
    let raw = inner_html_of(el);
    let cs = chars_of(raw.as_str());
    let t = trim_chars(&cs);
    string_of(&t)
}

/// Every term of the listing is a recognized term label.
pub open spec fn all_terms_recognized(l: CourseListing) -> bool {
    forall|j: int| 0 <= j < l.terms@.len() ==> is_recognized_term(#[trigger] l.terms@[j]@)
}

/// The trimmed term labels of a listing row, in document order.
pub open spec fn row_terms(row: scraper::ElementRef<'_>) -> Seq<Seq<char>> {
    elem_found(row, "span[class='views-field-terms']"@).map_values(
        |e: scraper::ElementRef<'_>| spec_trim(elem_markup(e)),
    )
}

/// The link target of a listing row.
pub open spec fn row_url(row: scraper::ElementRef<'_>) -> Option<Seq<char>> {
    elem_attr(elem_found(row, "a[class='course-link']"@)[0], "href"@)
}

/// Every required fragment of a listing row is present, and the link
/// target is non-empty.
pub open spec fn row_required_ok(row: scraper::ElementRef<'_>) -> bool {
    &&& valid_selector("span[class='views-field-department']"@)
    &&& elem_found(row, "span[class='views-field-department']"@).len() > 0
    &&& valid_selector("span[class='views-field-faculty']"@)
    &&& elem_found(row, "span[class='views-field-faculty']"@).len() > 0
    &&& valid_selector("span[class='views-field-level']"@)
    &&& elem_found(row, "span[class='views-field-level']"@).len() > 0
    &&& valid_selector("span[class='views-field-terms']"@)
    &&& valid_selector("a[class='course-link']"@)
    &&& elem_found(row, "a[class='course-link']"@).len() > 0
    &&& match row_url(row) {
        Some(u) => u.len() > 0,
        None => false,
    }
}

/// The listing holds exactly the row's content: each single field the
/// trimmed markup of its first match, the terms the recognized ones of
/// the row's term labels in order, the url the link target.
pub open spec fn listing_matches_row(l: CourseListing, row: scraper::ElementRef<'_>) -> bool {
    &&& l.department@ == first_text(row, "span[class='views-field-department']"@)
    &&& l.faculty@ == first_text(row, "span[class='views-field-faculty']"@)
    &&& l.level@ == first_text(row, "span[class='views-field-level']"@)
    &&& l.terms.deep_view() == spec_filter_terms(row_terms(row))
    &&& row_url(row) == Some(l.url@)
}

/// An error a listing row can raise: a missing required fragment or a bad
/// expression, each carrying the query.
pub open spec fn listing_row_error(e: ExtractError) -> bool {
    ||| is_missing(e, "span[class='views-field-department']"@)
    ||| is_bad_selector(e, "span[class='views-field-department']"@)
    ||| is_missing(e, "span[class='views-field-faculty']"@)
    ||| is_bad_selector(e, "span[class='views-field-faculty']"@)
    ||| is_missing(e, "span[class='views-field-level']"@)
    ||| is_bad_selector(e, "span[class='views-field-level']"@)
    ||| is_bad_selector(e, "span[class='views-field-terms']"@)
    ||| is_missing(e, "a[class='course-link']"@)
    ||| is_bad_selector(e, "a[class='course-link']"@)
    ||| is_missing(e, "href"@)
}

/// One listing row: department, faculty, level and url each through a
/// required query; terms through a many-query, in document order, then
/// filtered to the recognized vocabulary. An absent or empty link target
/// fails the row.
fn listing_from_row(row: &scraper::ElementRef<'_>) -> (r: Result<CourseListing, ExtractError>)
    ensures
        r is Ok <==> row_required_ok(*row),
        r matches Ok(l) ==> listing_matches_row(l, *row) && l.url@.len() > 0,
        r matches Err(e) ==> listing_row_error(e),
{
    let department = match elem_select_single(row, "span[class='views-field-department']") {
        Ok(el) => text_of(&el),
        Err(e) => {
            return Err(e);
        },
    };
    let faculty = match elem_select_single(row, "span[class='views-field-faculty']") {
        Ok(el) => text_of(&el),
        Err(e) => {
            return Err(e);
        },
    };
    let level = match elem_select_single(row, "span[class='views-field-level']") {
        Ok(el) => text_of(&el),
        Err(e) => {
            return Err(e);
        },
    };
    let term_els = match elem_select_all(row, "span[class='views-field-terms']") {
        Ok(els) => els,
        Err(e) => {
            return Err(e);
        },
    };
    let mut terms: Vec<String> = Vec::new();
    let mut i: usize = 0;
    proof {
        assert(terms.deep_view() =~~= row_terms(*row).subrange(0, 0));
    }
    while i < term_els.len()
        invariant
            i <= term_els@.len(),
            term_els@ == elem_found(*row, "span[class='views-field-terms']"@),
            row_terms(*row).len() == term_els@.len(),
            terms.deep_view() == row_terms(*row).subrange(0, i as int),
        decreases term_els@.len() - i,
    {
        let t = text_of(&term_els[i]);
        let ghost pre = terms.deep_view();
        terms.push(t);
        i = i + 1;
        proof {
            let rt = row_terms(*row);
            assert(rt[i - 1] == spec_trim(elem_markup(term_els@[i - 1])));
            assert(terms.deep_view() =~~= pre.push(t@));
            assert(rt.subrange(0, i as int) =~~= pre.push(t@));
        }
    }
    proof {
        assert(row_terms(*row).subrange(0, row_terms(*row).len() as int) =~= row_terms(*row));
    }
    let link = match elem_select_single(row, "a[class='course-link']") {
        Ok(el) => el,
        Err(e) => {
            return Err(e);
        },
    };
    let url = match attr_of(&link, "href") {
        Some(u) => u,
        None => {
            return Err(ExtractError::MissingFragment(String::from_str("href")));
        },
    };
    if url.as_str().unicode_len() == 0 {
        return Err(ExtractError::MissingFragment(String::from_str("href")));
    }
    Ok(CourseListing::from_parts(department, faculty, level, terms, url).filter_terms())
}

/// One filtered listing per row, in row order; the first malformed row
/// aborts the whole batch, so zero rows always yield the empty batch.
fn listings_from_rows(rows: &Vec<scraper::ElementRef<'_>>) -> (r: Result<
    Vec<CourseListing>,
    ExtractError,
>)
    ensures
        r is Ok <==> (forall|i: int| 0 <= i < rows@.len() ==> row_required_ok(#[trigger] rows@[i])),
        r matches Ok(ls) ==> ls@.len() == rows@.len() && forall|i: int|
            0 <= i < ls@.len() ==> listing_matches_row(#[trigger] ls@[i], rows@[i])
                && all_terms_recognized(ls@[i]) && ls@[i].url@.len() > 0,
        r matches Err(e) ==> listing_row_error(e),
{
    let mut out: Vec<CourseListing> = Vec::new();
    let mut i: usize = 0;
    while i < rows.len()
        invariant
            i <= rows@.len(),
            out@.len() == i,
            forall|k: int| 0 <= k < i ==> row_required_ok(#[trigger] rows@[k]),
            forall|k: int|
                0 <= k < out@.len() ==> listing_matches_row(#[trigger] out@[k], rows@[k])
                    && all_terms_recognized(out@[k]) && out@[k].url@.len() > 0,
        decreases rows@.len() - i,
    {
        let listing = match listing_from_row(&rows[i]) {
            Ok(l) => l,
            Err(e) => {
                return Err(e);
            },
        };
        proof {
            crate::listings::lemma_filter_terms_sound(row_terms(rows@[i as int]));
            assert forall|j: int| 0 <= j < listing.terms@.len() implies is_recognized_term(
                #[trigger] listing.terms@[j]@,
            ) by {
                assert(listing.terms.deep_view()[j] == listing.terms@[j]@);
            }
        }
        out.push(listing);
        i = i + 1;
    }
    Ok(out)
}

/// An error the listings call can raise.
pub open spec fn listings_error(e: ExtractError) -> bool {
    ||| is_bad_selector(e, "div[class='view-content']"@)
    ||| is_bad_selector(e, "div[class~='views-row']"@)
    ||| listing_row_error(e)
}

/// Extract the listing rows of a search-results page.
///
/// Returns `None` exactly when the listing container is absent (a valid
/// "no results" state), and `Some` with one filtered listing per row
/// otherwise — so a container with zero rows yields `Some` of the empty
/// batch; the first malformed required field aborts the whole batch with
/// an error naming the query. Every listing returned keeps only
/// recognized term labels and carries a non-empty url.
pub fn extract_course_listings(text: &str) -> (r: Result<
    Option<Vec<CourseListing>>,
    ExtractError,
>)
    ensures
        ({
            let h = parse_of(text@);
            &&& ((r matches Ok(None)) <==> valid_selector("div[class='view-content']"@)
                && doc_found(&h, "div[class='view-content']"@).len() == 0)
            &&& (r matches Ok(Some(ls)) ==> doc_found(&h, "div[class='view-content']"@).len() > 0
                && {
                let rows = elem_found(
                    doc_found(&h, "div[class='view-content']"@)[0],
                    "div[class~='views-row']"@,
                );
                &&& ls@.len() == rows.len()
                &&& forall|i: int|
                    0 <= i < ls@.len() ==> listing_matches_row(#[trigger] ls@[i], rows[i])
                        && all_terms_recognized(ls@[i]) && ls@[i].url@.len() > 0
            })
            &&& (valid_selector("div[class='view-content']"@) && valid_selector(
                "div[class~='views-row']"@,
            ) && doc_found(&h, "div[class='view-content']"@).len() > 0 && (forall|i: int|
                0 <= i < elem_found(
                    doc_found(&h, "div[class='view-content']"@)[0],
                    "div[class~='views-row']"@,
                ).len() ==> row_required_ok(
                    #[trigger] elem_found(
                        doc_found(&h, "div[class='view-content']"@)[0],
                        "div[class~='views-row']"@,
                    )[i],
                )) ==> r matches Ok(Some(_)))
            &&& (r matches Err(e) ==> listings_error(e))
        }),
{
    let html = parse_fragment(text);
    let content = match doc_select_optional(&html, "div[class='view-content']") {
        Ok(c) => c,
        Err(e) => {
            return Err(e);
        },
    };
    match content {
        None => Ok(None),
        Some(container) => {
            let rows = match elem_select_all(&container, "div[class~='views-row']") {
                Ok(rs) => rs,
                Err(e) => {
                    return Err(e);
                },
            };
            match listings_from_rows(&rows) {
                Ok(ls) => Ok(Some(ls)),
                Err(e) => Err(e),
            }
        },
    }
}

/// The catalog block's two raw paragraphs are present.
pub open spec fn instructors_required_ok(html: &scraper::Html) -> bool {
    &&& valid_selector("div[class='node node-catalog clearfix']"@)
    &&& doc_found(html, "div[class='node node-catalog clearfix']"@).len() > 0
    &&& valid_selector("p[class='catalog-terms']"@)
    &&& elem_found(
        doc_found(html, "div[class='node node-catalog clearfix']"@)[0],
        "p[class='catalog-terms']"@,
    ).len() > 0
    &&& valid_selector("p[class='catalog-instructors']"@)
    &&& elem_found(
        doc_found(html, "div[class='node node-catalog clearfix']"@)[0],
        "p[class='catalog-instructors']"@,
    ).len() > 0
}

/// The instructors decoded from the document's two raw paragraphs.
pub open spec fn instructors_of(html: &scraper::Html) -> Seq<(Seq<char>, Seq<char>)> {
    let cat = doc_found(html, "div[class='node node-catalog clearfix']"@)[0];
    spec_instructors(
        elem_markup(elem_found(cat, "p[class='catalog-terms']"@)[0]),
        elem_markup(elem_found(cat, "p[class='catalog-instructors']"@)[0]),
    )
}

/// An error the instructor extractor can raise.
pub open spec fn instructors_error(e: ExtractError) -> bool {
    ||| is_missing(e, "div[class='node node-catalog clearfix']"@)
    ||| is_bad_selector(e, "div[class='node node-catalog clearfix']"@)
    ||| is_missing(e, "p[class='catalog-terms']"@)
    ||| is_bad_selector(e, "p[class='catalog-terms']"@)
    ||| is_missing(e, "p[class='catalog-instructors']"@)
    ||| is_bad_selector(e, "p[class='catalog-instructors']"@)
}

/// Decode the instructor/term paragraphs of a parsed course page.
///
/// Locates the catalog block and its two free-text paragraphs, then
/// resolves them with the verified associator; the result is exactly the
/// associator's decoding of the two raw paragraphs, and every returned
/// instructor has a non-empty name. A missing fragment is an error
/// naming the query.
pub fn extract_course_instructors(html: &scraper::Html) -> (r: Result<Vec<Instructor>, ExtractError>)
    ensures
        r is Ok <==> instructors_required_ok(html),
        r matches Ok(insts) ==> insts.deep_view() == instructors_of(html),
        r matches Ok(insts) ==> forall|j: int|
            0 <= j < insts@.len() ==> (#[trigger] insts@[j].name@).len() > 0,
        r matches Err(e) ==> instructors_error(e),
{
    let catalog = match doc_select_single(html, "div[class='node node-catalog clearfix']") {
        Ok(el) => el,
        Err(e) => {
            return Err(e);
        },
    };
    let terms_raw = match elem_select_single(&catalog, "p[class='catalog-terms']") {
        Ok(el) => inner_html_of(&el),
        Err(e) => {
            return Err(e);
        },
    };
    let instructors_raw = match elem_select_single(&catalog, "p[class='catalog-instructors']") {
        Ok(el) => inner_html_of(&el),
        Err(e) => {
            return Err(e);
        },
    };
    let insts = instructors_from_texts(terms_raw.as_str(), instructors_raw.as_str());
    proof {
        crate::instructors::lemma_associate_names_nonempty(
            crate::instructors::spec_term_list(terms_raw@),
            crate::instructors::spec_instr_text(instructors_raw@),
        );
        assert forall|j: int| 0 <= j < insts@.len() implies (#[trigger] insts@[j].name@).len()
            > 0 by {
            assert(insts.deep_view()[j] == insts@[j].deep_view());
        }
    }
    Ok(insts)
}

/// The notes list is present with its items readable, or absent.
pub open spec fn requirements_required_ok(html: &scraper::Html) -> bool {
    &&& valid_selector("ul[class='catalog-notes']"@)
    &&& (doc_found(html, "ul[class='catalog-notes']"@).len() == 0 || valid_selector("li"@))
}

/// The trimmed note lines of the document, in document order; none when
/// the notes list is absent.
pub open spec fn note_lines(html: &scraper::Html) -> Seq<Seq<char>> {
    if doc_found(html, "ul[class='catalog-notes']"@).len() == 0 {
        Seq::empty()
    } else {
        elem_found(doc_found(html, "ul[class='catalog-notes']"@)[0], "li"@).map_values(
            |e: scraper::ElementRef<'_>| spec_trim(elem_markup(e)),
        )
    }
}

/// An error the requirements extractor can raise.
pub open spec fn requirements_error(e: ExtractError) -> bool {
    is_bad_selector(e, "ul[class='catalog-notes']"@) || is_bad_selector(e, "li"@)
}

/// Classify the catalog notes of a parsed course page.
///
/// Absence of the notes list yields the all-empty default; otherwise the
/// result is exactly the requirements accumulated over the list items'
/// trimmed lines, in document order.
pub fn extract_course_requirements(html: &scraper::Html) -> (r: Result<Requirements, ExtractError>)
    ensures
        r is Ok <==> requirements_required_ok(html),
        r matches Ok(q) ==> requirements_view(q) == spec_requirements(note_lines(html)),
        r matches Err(e) ==> requirements_error(e),
{
    let notes_list = match doc_select_optional(html, "ul[class='catalog-notes']") {
        Ok(n) => n,
        Err(e) => {
            return Err(e);
        },
    };
    match notes_list {
        None => {
            proof {
                assert(spec_requirements(note_lines(html)) == (
                    Seq::<Seq<char>>::empty(),
                    Seq::<Seq<char>>::empty(),
                    None::<Seq<char>>,
                ));
            }
            Ok(Requirements::default())
        },
        Some(list) => {
            let items = match elem_select_all(&list, "li") {
                Ok(els) => els,
                Err(e) => {
                    return Err(e);
                },
            };
            let mut notes: Vec<String> = Vec::new();
            let mut i: usize = 0;
            proof {
                assert(notes.deep_view() =~~= note_lines(html).subrange(0, 0));
            }
            while i < items.len()
                invariant
                    i <= items@.len(),
                    items@ == elem_found(doc_found(html, "ul[class='catalog-notes']"@)[0], "li"@),
                    doc_found(html, "ul[class='catalog-notes']"@).len() > 0,
                    note_lines(html).len() == items@.len(),
                    notes.deep_view() == note_lines(html).subrange(0, i as int),
                decreases items@.len() - i,
            {
                let t = text_of(&items[i]);
                let ghost pre = notes.deep_view();
                notes.push(t);
                i = i + 1;
                proof {
                    let nl = note_lines(html);
                    assert(nl[i - 1] == spec_trim(elem_markup(items@[i - 1])));
                    assert(notes.deep_view() =~~= pre.push(t@));
                    assert(nl.subrange(0, i as int) =~~= pre.push(t@));
                }
            }
            proof {
                assert(note_lines(html).subrange(0, note_lines(html).len() as int) =~= note_lines(
                    html,
                ));
            }
            Ok(requirements_from_notes(&notes))
        },
    }
}

/// Every required top-level field of a course page is present.
pub open spec fn page_required_ok(html: &scraper::Html) -> bool {
    &&& valid_selector("h1[id='page-title']"@)
    &&& doc_found(html, "h1[id='page-title']"@).len() > 0
    &&& valid_selector("span[class='catalog-credits']"@)
    &&& doc_found(html, "span[class='catalog-credits']"@).len() > 0
    &&& valid_selector("span[class='catalog-subject']"@)
    &&& doc_found(html, "span[class='catalog-subject']"@).len() > 0
    &&& valid_selector("span[class='catalog-code']"@)
    &&& doc_found(html, "span[class='catalog-code']"@).len() > 0
    &&& valid_selector("a[class='catalog-faculty-link']"@)
    &&& doc_found(html, "a[class='catalog-faculty-link']"@).len() > 0
    &&& elem_attr(doc_found(html, "a[class='catalog-faculty-link']"@)[0], "href"@) is Some
    &&& valid_selector("div[class='catalog-description']"@)
    &&& doc_found(html, "div[class='catalog-description']"@).len() > 0
    &&& instructors_required_ok(html)
    &&& requirements_required_ok(html)
}

/// The page holds exactly the document's content: each required field the
/// trimmed markup of its first match (the faculty url its link target),
/// the instructors the associator's decoding, the requirements the notes'
/// accumulation.
pub open spec fn page_matches(p: CoursePage, html: &scraper::Html) -> bool {
    &&& p.title@ == first_doc_text(html, "h1[id='page-title']"@)
    &&& p.credits@ == first_doc_text(html, "span[class='catalog-credits']"@)
    &&& p.subject@ == first_doc_text(html, "span[class='catalog-subject']"@)
    &&& p.code@ == first_doc_text(html, "span[class='catalog-code']"@)
    &&& elem_attr(doc_found(html, "a[class='catalog-faculty-link']"@)[0], "href"@) == Some(
        p.faculty_url@,
    )
    &&& p.description@ == first_doc_text(html, "div[class='catalog-description']"@)
    &&& p.instructors.deep_view() == instructors_of(html)
    &&& requirements_view(p.requirements) == spec_requirements(note_lines(html))
}

/// An error the page extractor can raise.
pub open spec fn page_error(e: ExtractError) -> bool {
    ||| is_missing(e, "h1[id='page-title']"@)
    ||| is_bad_selector(e, "h1[id='page-title']"@)
    ||| is_missing(e, "span[class='catalog-credits']"@)
    ||| is_bad_selector(e, "span[class='catalog-credits']"@)
    ||| is_missing(e, "span[class='catalog-subject']"@)
    ||| is_bad_selector(e, "span[class='catalog-subject']"@)
    ||| is_missing(e, "span[class='catalog-code']"@)
    ||| is_bad_selector(e, "span[class='catalog-code']"@)
    ||| is_missing(e, "a[class='catalog-faculty-link']"@)
    ||| is_bad_selector(e, "a[class='catalog-faculty-link']"@)
    ||| is_missing(e, "href"@)
    ||| is_missing(e, "div[class='catalog-description']"@)
    ||| is_bad_selector(e, "div[class='catalog-description']"@)
    ||| instructors_error(e)
    ||| requirements_error(e)
}

/// Extract a full course detail page: the required top-level fields, the
/// instructors, and the requirements, all pinned to the parsed document's
/// content; the first absent required field aborts the call with an error
/// naming the query.
pub fn extract_course_page(text: &str) -> (r: Result<CoursePage, ExtractError>)
    ensures
        r is Ok <==> page_required_ok(&parse_of(text@)),
        r matches Ok(p) ==> page_matches(p, &parse_of(text@)),
        r matches Ok(p) ==> forall|j: int|
            0 <= j < p.instructors@.len() ==> (#[trigger] p.instructors@[j].name@).len() > 0,
        r matches Err(e) ==> page_error(e),
{
    let html = parse_fragment(text);
    let title = match doc_select_single(&html, "h1[id='page-title']") {
        Ok(el) => text_of(&el),
        Err(e) => {
            return Err(e);
        },
    };
    let credits = match doc_select_single(&html, "span[class='catalog-credits']") {
        Ok(el) => text_of(&el),
        Err(e) => {
            return Err(e);
        },
    };
    let subject = match doc_select_single(&html, "span[class='catalog-subject']") {
        Ok(el) => text_of(&el),
        Err(e) => {
            return Err(e);
        },
    };
    let code = match doc_select_single(&html, "span[class='catalog-code']") {
        Ok(el) => text_of(&el),
        Err(e) => {
            return Err(e);
        },
    };
    let faculty_url = match doc_select_single(&html, "a[class='catalog-faculty-link']") {
        Ok(el) => match attr_of(&el, "href") {
            Some(u) => u,
            None => {
                return Err(ExtractError::MissingFragment(String::from_str("href")));
            },
        },
        Err(e) => {
            return Err(e);
        },
    };
    let description = match doc_select_single(&html, "div[class='catalog-description']") {
        Ok(el) => text_of(&el),
        Err(e) => {
            return Err(e);
        },
    };
    let instructors = match extract_course_instructors(&html) {
        Ok(insts) => insts,
        Err(e) => {
            return Err(e);
        },
    };
    let requirements = match extract_course_requirements(&html) {
        Ok(reqs) => reqs,
        Err(e) => {
            return Err(e);
        },
    };
    Ok(
        CoursePage {
            title,
            credits,
            subject,
            code,
            faculty_url,
            description,
            instructors,
            requirements,
        },
    )
}

/// The schedule fields of a block tie to its optional children.
pub open spec fn sched_matches_block(s: Schedule, block: scraper::ElementRef<'_>) -> bool {
    &&& opt_str_view(s.campus) == opt_text(block, "campus"@)
    &&& opt_str_view(s.display) == opt_text(block, "display"@)
    &&& opt_str_view(s.location) == opt_text(block, "location"@)
}

/// One schedule block: campus, display label and location each through an
/// optional query; a block with no recoverable field still yields an
/// all-empty record.
fn schedule_from_block(block: &scraper::ElementRef<'_>) -> (r: Result<Schedule, ExtractError>)
    ensures
        r is Ok <==> valid_selector("campus"@) && valid_selector("display"@) && valid_selector(
            "location"@,
        ),
        r matches Ok(s) ==> sched_matches_block(s, *block),
        r matches Err(e) ==> is_bad_selector(e, "campus"@) || is_bad_selector(e, "display"@)
            || is_bad_selector(e, "location"@),
{
    let campus = match elem_select_optional(block, "campus") {
        Ok(Some(el)) => Some(text_of(&el)),
        Ok(None) => None,
        Err(e) => {
            return Err(e);
        },
    };
    let display = match elem_select_optional(block, "display") {
        Ok(Some(el)) => Some(text_of(&el)),
        Ok(None) => None,
        Err(e) => {
            return Err(e);
        },
    };
    let location = match elem_select_optional(block, "location") {
        Ok(Some(el)) => Some(text_of(&el)),
        Ok(None) => None,
        Err(e) => {
            return Err(e);
        },
    };
    Ok(Schedule::from_parts(campus, display, location))
}

/// The feed signals an upstream failure: its errors container is present
/// and holds at least one error node.
pub open spec fn error_feed(html: &scraper::Html) -> bool {
    doc_found(html, "errors"@).len() > 0 && elem_found(
        doc_found(html, "errors"@)[0],
        "error"@,
    ).len() > 0
}

/// The schedule extractor's selector expressions are all valid.
pub open spec fn schedule_selectors_ok() -> bool {
    &&& valid_selector("errors"@)
    &&& valid_selector("error"@)
    &&& valid_selector("block"@)
    &&& valid_selector("campus"@)
    &&& valid_selector("display"@)
    &&& valid_selector("location"@)
}

/// An error the schedule extractor can raise: only a bad expression; no
/// structural absence is an error here.
pub open spec fn schedules_error(e: ExtractError) -> bool {
    ||| is_bad_selector(e, "errors"@)
    ||| is_bad_selector(e, "error"@)
    ||| is_bad_selector(e, "block"@)
    ||| is_bad_selector(e, "campus"@)
    ||| is_bad_selector(e, "display"@)
    ||| is_bad_selector(e, "location"@)
}

/// Extract the schedule blocks of an XML feed.
///
/// A feed whose errors container holds any error node describes an
/// upstream failure: the result is empty, not an error. Otherwise every
/// block node is mapped independently to a `Schedule`, one record per
/// block in document order; an absent errors container simply means no
/// error nodes. With its fixed selector expressions the call never fails
/// on a parsed feed.
pub fn extract_course_schedules(text: &str) -> (r: Result<Vec<Schedule>, ExtractError>)
    ensures
        ({
            let h = parse_of(text@);
            &&& (schedule_selectors_ok() ==> r is Ok)
            &&& (error_feed(&h) ==> (r matches Ok(v) && v@.len() == 0))
            &&& (schedule_selectors_ok() && !error_feed(&h) ==> (r matches Ok(v) && {
                let blocks = doc_found(&h, "block"@);
                &&& v@.len() == blocks.len()
                &&& forall|i: int|
                    0 <= i < v@.len() ==> sched_matches_block(#[trigger] v@[i], blocks[i])
            }))
            &&& (r matches Err(e) ==> schedules_error(e))
        }),
{
    let html = parse_fragment(text);
    let errors_container = match doc_select_optional(&html, "errors") {
        Ok(c) => c,
        Err(e) => {
            return Err(e);
        },
    };
    let error_count: usize = match errors_container {
        Some(container) => {
            match elem_select_all(&container, "error") {
                Ok(els) => els.len(),
                Err(e) => {
                    return Err(e);
                },
            }
        },
        None => 0,
    };
    if error_count > 0 {
        return Ok(Vec::new());
    }
    let block_els = match doc_select_all(&html, "block") {
        Ok(els) => els,
        Err(e) => {
            return Err(e);
        },
    };
    let mut blocks: Vec<Schedule> = Vec::new();
    let mut i: usize = 0;
    while i < block_els.len()
        invariant
            i <= block_els@.len(),
            blocks@.len() == i,
            html == parse_of(text@),
            !error_feed(&html),
            block_els@ == doc_found(&html, "block"@),
            forall|k: int|
                0 <= k < blocks@.len() ==> sched_matches_block(#[trigger] blocks@[k], block_els@[k]),
        decreases block_els@.len() - i,
    {
        let s = match schedule_from_block(&block_els[i]) {
            Ok(s) => s,
            Err(e) => {
                return Err(e);
            },
        };
        blocks.push(s);
        i = i + 1;
    }
    Ok(blocks)
}

} // verus!

//! The structural query layer: a typed three-mode contract
//! (required / optional / many) over the document tree and CSS-like
//! selectors of the `scraper` crate. Parsing and matching are
//! deterministic functions of their arguments, so their results carry
//! uninterpreted names; the selection of "first match, fail if none" and
//! "first match or nothing" is verified over the named match list.

use vstd::prelude::*;
use vstd::string::StringExecFns;

use crate::model::{ExtractError, is_missing, is_bad_selector};

verus! {

#[verifier::external_type_specification]
#[verifier::external_body]
pub struct ExHtml(scraper::Html);

#[verifier::external_type_specification]
#[verifier::external_body]
pub struct ExSelector(scraper::Selector);

#[verifier::external_type_specification]
#[verifier::external_body]
pub struct ExElementRef<'a>(scraper::ElementRef<'a>);

/// What `scraper::Selector::parse` returns on an expression: a selector
/// exactly when the expression is a valid selector group.
pub uninterp spec fn selector_of(expr: Seq<char>) -> Option<scraper::Selector>;

/// The expression is a valid selector group.
pub open spec fn valid_selector(expr: Seq<char>) -> bool {
    selector_of(expr) is Some
}

/// What `scraper::Html::parse_fragment` returns on a text.
pub uninterp spec fn parse_of(text: Seq<char>) -> scraper::Html;

/// What `scraper::Html::select` yields on a document and selector: the
/// matching elements, in tree order.
pub uninterp spec fn doc_matches(html: &scraper::Html, sel: scraper::Selector) -> Seq<
    scraper::ElementRef<'_>,
>;

/// What `scraper::ElementRef::select` yields on an element and selector:
/// the matching descendant elements, in document order.
pub uninterp spec fn elem_matches(el: scraper::ElementRef<'_>, sel: scraper::Selector) -> Seq<
    scraper::ElementRef<'_>,
>;

/// What `scraper::ElementRef::inner_html` returns on an element: its
/// children serialized back to markup.
pub uninterp spec fn elem_markup(el: scraper::ElementRef<'_>) -> Seq<char>;

/// What `scraper::ElementRef::attr` returns on an element and attribute
/// name.
pub uninterp spec fn elem_attr(el: scraper::ElementRef<'_>, name: Seq<char>) -> Option<Seq<char>>;

/// The document's match list of a selector expression; empty when the
/// expression is invalid.
pub open spec fn doc_found<'a>(html: &'a scraper::Html, expr: Seq<char>) -> Seq<
    scraper::ElementRef<'a>,
> {
    match selector_of(expr) {
        Some(sel) => doc_matches(html, sel),
        None => Seq::empty(),
    }
}

/// An element's match list of a selector expression; empty when the
/// expression is invalid.
pub open spec fn elem_found<'a>(el: scraper::ElementRef<'a>, expr: Seq<char>) -> Seq<
    scraper::ElementRef<'a>,
> {
    match selector_of(expr) {
        Some(sel) => elem_matches(el, sel),
        None => Seq::empty(),
    }
}

/// Relies on `scraper::Html::parse_fragment`: parsing never fails hard
/// and depends on the text alone; it always yields a document tree,
/// recording recoverable errors aside.
#[verifier::external_body]
pub fn parse_fragment(text: &str) -> (r: scraper::Html)
    ensures
        r == parse_of(text@),
{
    scraper::Html::parse_fragment(text)
}

/// Relies on `scraper::Selector::parse`: returns `Err` exactly on an
/// expression that is not a valid selector group, and depends on the
/// expression alone.
#[verifier::external_body]
fn parse_selector(expr: &str) -> (r: Option<scraper::Selector>)
    ensures
        r == selector_of(expr@),
{
    match scraper::Selector::parse(expr) {
        Ok(sel) => Some(sel),
        Err(_) => None,
    }
}

/// Relies on `scraper::Html::select`: the elements of the tree matching
/// the selector, in tree order, a function of document and selector
/// alone.
#[verifier::external_body]
fn select_in_doc<'a>(html: &'a scraper::Html, sel: &scraper::Selector) -> (r: Vec<
    scraper::ElementRef<'a>,
>)
    ensures
        r@ == doc_matches(html, *sel),
{
    html.select(sel).collect()
}

/// Relies on `scraper::ElementRef::select`: the descendant elements
/// matching the selector, in document order, a function of element and
/// selector alone.
#[verifier::external_body]
fn select_in_elem<'a>(el: &scraper::ElementRef<'a>, sel: &scraper::Selector) -> (r: Vec<
    scraper::ElementRef<'a>,
>)
    ensures
        r@ == elem_matches(*el, *sel),
{
    el.select(sel).collect()
}

/// Relies on `scraper::ElementRef::inner_html`: serializes the children
/// of the element back to markup; total on any element reference and a
/// function of the element alone.
#[verifier::external_body]
pub fn inner_html_of(el: &scraper::ElementRef<'_>) -> (r: String)
    ensures
        r@ == elem_markup(*el),
{
    el.inner_html()
}

/// Relies on `scraper::ElementRef::attr`: the value of the named
/// attribute, or `None` when the element does not carry it; a function of
/// element and name alone.
#[verifier::external_body]
pub fn attr_of(el: &scraper::ElementRef<'_>, name: &str) -> (r: Option<String>)
    ensures
        match r {
            Some(s) => elem_attr(*el, name@) == Some(s@),
            None => elem_attr(*el, name@) is None,
        },
{
    el.attr(name).map(str::to_owned)
}

/// Required selection over a materialized match list: the first match,
/// or a missing-fragment error carrying the query expression.
pub fn pick_single<'a>(found: Vec<scraper::ElementRef<'a>>, query: &str) -> (r: Result<
    scraper::ElementRef<'a>,
    ExtractError,
>)
    ensures
        found@.len() > 0 ==> (r matches Ok(e) && e == found@[0]),
        found@.len() == 0 ==> (r matches Err(e) && is_missing(e, query@)),
{
    let mut found = found;
    if found.len() > 0 {
        Ok(found.remove(0))
    } else {
        Err(ExtractError::MissingFragment(String::from_str(query)))
    }
}

/// Optional selection over a materialized match list: the first match,
/// or nothing; absence is not an error.
pub fn pick_optional<'a>(found: Vec<scraper::ElementRef<'a>>) -> (r: Option<
    scraper::ElementRef<'a>,
>)
    ensures
        found@.len() > 0 ==> (r matches Some(e) && e == found@[0]),
        found@.len() == 0 ==> r is None,
{
    let mut found = found;
    if found.len() > 0 {
        Some(found.remove(0))
    } else {
        None
    }
}

/// All matches of `expr` in the whole document; a bad expression is a
/// fatal configuration error carrying the expression.
pub fn doc_select_all<'a>(html: &'a scraper::Html, expr: &str) -> (r: Result<
    Vec<scraper::ElementRef<'a>>,
    ExtractError,
>)
    ensures
        r is Err <==> !valid_selector(expr@),
        r matches Err(e) ==> is_bad_selector(e, expr@),
        r matches Ok(v) ==> v@ == doc_found(html, expr@),
{
    match parse_selector(expr) {
        Some(sel) => Ok(select_in_doc(html, &sel)),
        None => Err(ExtractError::InvalidSelector(String::from_str(expr))),
    }
}

/// All matches of `expr` under `el`, in document order.
pub fn elem_select_all<'a>(el: &scraper::ElementRef<'a>, expr: &str) -> (r: Result<
    Vec<scraper::ElementRef<'a>>,
    ExtractError,
>)
    ensures
        r is Err <==> !valid_selector(expr@),
        r matches Err(e) ==> is_bad_selector(e, expr@),
        r matches Ok(v) ==> v@ == elem_found(*el, expr@),
{
    match parse_selector(expr) {
        Some(sel) => Ok(select_in_elem(el, &sel)),
        None => Err(ExtractError::InvalidSelector(String::from_str(expr))),
    }
}

/// Exactly-one-required selection in the whole document: the first
/// match; a missing-fragment error when there is none, an
/// invalid-selector error when the expression is bad, each carrying the
/// expression.
pub fn doc_select_single<'a>(html: &'a scraper::Html, expr: &str) -> (r: Result<
    scraper::ElementRef<'a>,
    ExtractError,
>)
    ensures
        r is Ok <==> valid_selector(expr@) && doc_found(html, expr@).len() > 0,
        r matches Ok(e) ==> e == doc_found(html, expr@)[0],
        !valid_selector(expr@) ==> (r matches Err(e) && is_bad_selector(e, expr@)),
        valid_selector(expr@) && doc_found(html, expr@).len() == 0 ==> (r matches Err(e)
            && is_missing(e, expr@)),
{
    match doc_select_all(html, expr) {
        Ok(found) => pick_single(found, expr),
        Err(e) => Err(e),
    }
}

/// Optional selection in the whole document: the first match or nothing;
/// only a bad expression is an error.
pub fn doc_select_optional<'a>(html: &'a scraper::Html, expr: &str) -> (r: Result<
    Option<scraper::ElementRef<'a>>,
    ExtractError,
>)
    ensures
        r is Ok <==> valid_selector(expr@),
        r matches Ok(o) ==> o == (if doc_found(html, expr@).len() > 0 {
            Some(doc_found(html, expr@)[0])
        } else {
            None::<scraper::ElementRef<'a>>
        }),
        r matches Err(e) ==> is_bad_selector(e, expr@),
{
    match doc_select_all(html, expr) {
        Ok(found) => Ok(pick_optional(found)),
        Err(e) => Err(e),
    }
}

/// Exactly-one-required selection under an element.
pub fn elem_select_single<'a>(el: &scraper::ElementRef<'a>, expr: &str) -> (r: Result<
    scraper::ElementRef<'a>,
    ExtractError,
>)
    ensures
        r is Ok <==> valid_selector(expr@) && elem_found(*el, expr@).len() > 0,
        r matches Ok(e) ==> e == elem_found(*el, expr@)[0],
        !valid_selector(expr@) ==> (r matches Err(e) && is_bad_selector(e, expr@)),
        valid_selector(expr@) && elem_found(*el, expr@).len() == 0 ==> (r matches Err(e)
            && is_missing(e, expr@)),
{
    match elem_select_all(el, expr) {
        Ok(found) => pick_single(found, expr),
        Err(e) => Err(e),
    }
}

/// Optional selection under an element.
pub fn elem_select_optional<'a>(el: &scraper::ElementRef<'a>, expr: &str) -> (r: Result<
    Option<scraper::ElementRef<'a>>,
    ExtractError,
>)
    ensures
        r is Ok <==> valid_selector(expr@),
        r matches Ok(o) ==> o == (if elem_found(*el, expr@).len() > 0 {
            Some(elem_found(*el, expr@)[0])
        } else {
            None::<scraper::ElementRef<'a>>
        }),
        r matches Err(e) ==> is_bad_selector(e, expr@),
{
    match elem_select_all(el, expr) {
        Ok(found) => Ok(pick_optional(found)),
        Err(e) => Err(e),
    }
}

} // verus!

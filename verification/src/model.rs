//! The extracted entities: listings, course pages, instructors,
//! requirements, schedule blocks, and the merged course record.

use vstd::prelude::*;

verus! {

/// Why an extraction call failed. Extraction fails fast: the first
/// structural problem aborts the whole call.
#[derive(Debug, Clone, PartialEq, Eq)]
pub enum ExtractError {
    /// A required fragment had no match; carries the query expression.
    MissingFragment(String),
    /// A structural query expression is not valid; carries the expression.
    InvalidSelector(String),
}

pub open spec fn is_missing(e: ExtractError, q: Seq<char>) -> bool {
    match e {
        ExtractError::MissingFragment(m) => m@ == q,
        _ => false,
    }
}

pub open spec fn is_bad_selector(e: ExtractError, q: Seq<char>) -> bool {
    match e {
        ExtractError::InvalidSelector(m) => m@ == q,
        _ => false,
    }
}

/// One row of a catalog search-results page.
#[derive(Debug, Clone, PartialEq, Eq)]
pub struct CourseListing {
    pub department: String,
    pub faculty: String,
    pub level: String,
    pub terms: Vec<String>,
    pub url: String,
}

/// One instructor assigned to one term. The same name against two distinct
/// terms makes two distinct entries.
#[derive(Debug, Clone, Default, PartialEq, Eq, PartialOrd, Ord, Hash)]
pub struct Instructor {
    pub name: String,
    pub term: String,
}

impl View for Instructor {
    type V = (Seq<char>, Seq<char>);

    open spec fn view(&self) -> (Seq<char>, Seq<char>) {
        (self.name@, self.term@)
    }
}

impl DeepView for Instructor {
    type V = (Seq<char>, Seq<char>);

    open spec fn deep_view(&self) -> (Seq<char>, Seq<char>) {
        (self.name@, self.term@)
    }
}

impl Instructor {
    pub fn new(name: String, term: String) -> (r: Instructor)
        ensures
            r.name == name,
            r.term == term,
    {
        Instructor { name, term }
    }
}

/// Classification tag for one catalog note.
#[derive(Debug, Clone, Copy, PartialEq, Eq)]
pub enum ReqKind {
    Prerequisite,
    Corequisite,
    Restriction,
    Unrecognized,
}

/// One classified catalog note: its kind and the payload text after the
/// recognized label.
#[derive(Debug, Clone, PartialEq, Eq)]
pub struct Requirement {
    pub kind: ReqKind,
    pub payload: String,
}

/// Aggregated prerequisite/corequisite/restriction data for a course.
#[derive(Debug, Clone, PartialEq, Eq)]
pub struct Requirements {
    pub prerequisites: Vec<String>,
    pub corequisites: Vec<String>,
    pub restrictions: Option<String>,
}

impl Default for Requirements {
    /// The all-empty requirements of a page without catalog notes.
    fn default() -> (r: Requirements)
        ensures
            r.prerequisites@.len() == 0,
            r.corequisites@.len() == 0,
            r.restrictions is None,
    {
        Requirements { prerequisites: Vec::new(), corequisites: Vec::new(), restrictions: None }
    }
}

/// The mathematical content of an optional string.
pub open spec fn opt_str_view(o: Option<String>) -> Option<Seq<char>> {
    match o {
        Some(s) => Some(s@),
        None => None,
    }
}

/// The mathematical content of a `Requirements` value.
pub open spec fn requirements_view(r: Requirements) -> (Seq<Seq<char>>, Seq<Seq<char>>, Option<
    Seq<char>,
>) {
    (r.prerequisites.deep_view(), r.corequisites.deep_view(), opt_str_view(r.restrictions))
}

/// One scheduled meeting block; every field is individually optional, and
/// a block with no recoverable field is still a record, not dropped.
#[derive(Debug, Clone, Default, PartialEq, Eq, PartialOrd, Ord, Hash)]
pub struct Schedule {
    pub campus: Option<String>,
    pub display: Option<String>,
    pub location: Option<String>,
}

impl Schedule {
    pub fn from_parts(campus: Option<String>, display: Option<String>, location: Option<String>) -> (r:
        Schedule)
        ensures
            r.campus == campus,
            r.display == display,
            r.location == location,
    {
        Schedule { campus, display, location }
    }
}

/// A full course detail page.
#[derive(Debug, Clone, PartialEq, Eq)]
pub struct CoursePage {
    pub title: String,
    pub credits: String,
    pub subject: String,
    pub code: String,
    pub faculty_url: String,
    pub description: String,
    pub instructors: Vec<Instructor>,
    pub requirements: Requirements,
}

/// The merged, persisted course record: a superset of the page, listing
/// and schedule fields. The core only produces the inputs it is merged
/// from; the merge itself happens in a collaborator outside the core.
#[derive(Debug, Clone, Default, PartialEq, Eq, PartialOrd, Ord, Hash)]
pub struct Course {
    pub id: String,
    pub title: String,
    pub credits: String,
    pub subject: String,
    pub code: String,
    pub level: String,
    pub url: String,
    pub department: String,
    pub faculty: String,
    pub faculty_url: String,
    pub terms: Vec<String>,
    pub description: String,
    pub instructors: Vec<Instructor>,
    pub prerequisites: Vec<String>,
    pub corequisites: Vec<String>,
    pub restrictions: Option<String>,
    pub schedule: Vec<Schedule>,
}

} // verus!

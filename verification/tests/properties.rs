use course_extractor::extract;
use course_extractor::instructors::instructors_from_texts;
use course_extractor::listings::recognized_term;
use course_extractor::model::{ExtractError, Instructor, ReqKind, Schedule};
use course_extractor::query;
use course_extractor::requirements::{classify_note, requirements_from_notes};
use course_extractor::user::{resolve_session_user, User};

fn pairs(insts: &[Instructor]) -> Vec<(String, String)> {
    insts.iter().map(|i| (i.name.clone(), i.term.clone())).collect()
}

#[test]
fn missing_listing_container_is_none() {
    let doc = "<div class=\"something-else\"><p>no results</p></div>";
    assert_eq!(extract::extract_course_listings(doc).unwrap(), None);
}

#[test]
fn empty_listing_container_is_some_empty() {
    let doc = "<div class=\"view-content\"></div>";
    assert_eq!(extract::extract_course_listings(doc).unwrap(), Some(vec![]));
}

#[test]
fn malformed_row_aborts_the_batch() {
    let doc = "<div class=\"view-content\">\
         <div class=\"views-row\">\
         <span class=\"views-field-department\">Mathematics</span>\
         </div>\
         </div>";
    assert!(matches!(
        extract::extract_course_listings(doc),
        Err(ExtractError::MissingFragment(_))
    ));
}

#[test]
fn invalid_selector_is_reported() {
    let html = scraper::Html::parse_fragment("<p>x</p>");
    assert!(matches!(
        query::doc_select_all(&html, "[[["),
        Err(ExtractError::InvalidSelector(_))
    ));
}

#[test]
fn extraction_is_idempotent() {
    let doc = "<div class=\"view-content\">\
         <div class=\"views-row\">\
         <span class=\"views-field-department\">Mathematics</span>\
         <span class=\"views-field-faculty\">Faculty of Science</span>\
         <span class=\"views-field-level\">Undergraduate</span>\
         <span class=\"views-field-terms\">Fall 2022</span>\
         <a class=\"course-link\" href=\"/study/2022-2023/courses/math-240\">MATH 240</a>\
         </div>\
         </div>";
    assert_eq!(
        extract::extract_course_listings(doc).unwrap(),
        extract::extract_course_listings(doc).unwrap(),
    );
    let terms = "Terms: Fall 2022";
    let insts = "Instructors: Vetta (Fall)";
    assert_eq!(
        instructors_from_texts(terms, insts),
        instructors_from_texts(terms, insts),
    );
}

#[test]
fn prerequisite_note_round_trip() {
    let reqs = requirements_from_notes(&vec!["Prerequisite: MATH 133, MATH 140".to_string()]);
    assert_eq!(reqs.prerequisites, vec!["MATH 133".to_string(), "MATH 140".to_string()]);
    assert_eq!(reqs.corequisites, Vec::<String>::new());
    assert_eq!(reqs.restrictions, None);
}

#[test]
fn corequisite_note_round_trip() {
    let reqs = requirements_from_notes(&vec!["Corequisite: MATH 133".to_string()]);
    assert_eq!(reqs.corequisites, vec!["MATH 133".to_string()]);
    assert_eq!(reqs.prerequisites, Vec::<String>::new());
}

#[test]
fn unrecognized_note_contributes_nothing() {
    let reqs = requirements_from_notes(&vec![
        "3 hours of lecture".to_string(),
        "Prerequisite: MATH 133 and MATH 140; MATH 150".to_string(),
    ]);
    assert_eq!(
        reqs.prerequisites,
        vec!["MATH 133".to_string(), "MATH 140".to_string(), "MATH 150".to_string()]
    );
    assert_eq!(reqs.corequisites, Vec::<String>::new());
    assert_eq!(reqs.restrictions, None);
}

#[test]
fn restriction_notes_concatenate_in_order() {
    let reqs = requirements_from_notes(&vec![
        "Restriction: Not open to first-year students.".to_string(),
        "Restrictions: Departmental approval required.".to_string(),
    ]);
    assert_eq!(
        reqs.restrictions,
        Some("Not open to first-year students. Departmental approval required.".to_string())
    );
}

#[test]
fn label_matching_tolerates_case_and_plural() {
    assert_eq!(classify_note("PREREQUISITES: MATH 133").kind, ReqKind::Prerequisite);
    assert_eq!(classify_note("Prerequisite(s): MATH 133").kind, ReqKind::Prerequisite);
    assert_eq!(classify_note("corequisite: MATH 133").kind, ReqKind::Corequisite);
    assert_eq!(classify_note("Restriction: closed").kind, ReqKind::Restriction);
    assert_eq!(classify_note("Offered in alternate years").kind, ReqKind::Unrecognized);
    assert_eq!(classify_note("Prerequisite(s): MATH 133").payload, "MATH 133");
}

#[test]
fn associator_scenario_two_terms() {
    let insts = instructors_from_texts(
        "Terms: Fall 2022, Winter 2023",
        "Instructors: A. Smith; B. Jones (Fall); C. Lee (Winter)",
    );
    assert_eq!(
        pairs(&insts),
        vec![
            ("A. Smith".to_string(), "Fall 2022".to_string()),
            ("B. Jones".to_string(), "Fall 2022".to_string()),
            ("C. Lee".to_string(), "Winter 2023".to_string()),
        ],
    );
}

#[test]
fn associator_scenario_shared_instructor() {
    let insts = instructors_from_texts(
        "Terms: Fall 2022, Winter 2023",
        "Instructors: Vetta; Fortier (Fall); Fortier; Macdonald (Winter)",
    );
    assert_eq!(
        pairs(&insts),
        vec![
            ("Vetta".to_string(), "Fall 2022".to_string()),
            ("Fortier".to_string(), "Fall 2022".to_string()),
            ("Fortier".to_string(), "Winter 2023".to_string()),
            ("Macdonald".to_string(), "Winter 2023".to_string()),
        ],
    );
}

#[test]
fn associator_missing_marker_yields_nothing_for_that_term() {
    let insts = instructors_from_texts(
        "Terms: Fall 2022, Winter 2023",
        "Instructors: C. Lee (Winter)",
    );
    assert_eq!(pairs(&insts), vec![("C. Lee".to_string(), "Winter 2023".to_string())]);
}

#[test]
fn associator_empty_paragraph_yields_nothing() {
    let insts = instructors_from_texts("Terms: Fall 2022", "Instructors:");
    assert_eq!(insts, Vec::<Instructor>::new());
}

#[test]
fn term_vocabulary() {
    assert!(recognized_term("Fall 2022"));
    assert!(recognized_term("Winter 2023"));
    assert!(recognized_term("Summer 2024"));
    assert!(!recognized_term("Fall"));
    assert!(!recognized_term("There are no future offerings"));
    assert!(!recognized_term("Spring 2023"));
    assert!(!recognized_term("Fall twenty22"));
}

#[test]
fn error_feed_suppresses_blocks() {
    let feed = "<errors><error>Session expired</error></errors>\
         <block><campus>Downtown</campus></block>";
    assert_eq!(extract::extract_course_schedules(feed).unwrap(), Vec::<Schedule>::new());
}

#[test]
fn block_with_only_location() {
    let feed = "<errors></errors>\
         <block><location>BRONF 422</location></block>";
    assert_eq!(
        extract::extract_course_schedules(feed).unwrap(),
        vec![Schedule { campus: None, display: None, location: Some("BRONF 422".into()) }],
    );
}

#[test]
fn feed_without_errors_container_is_not_an_error() {
    let feed = "<block><campus>Downtown</campus></block>";
    assert_eq!(
        extract::extract_course_schedules(feed).unwrap(),
        vec![Schedule { campus: Some("Downtown".into()), display: None, location: None }],
    );
}

#[test]
fn empty_block_still_yields_a_record() {
    let feed = "<errors></errors><block></block>";
    assert_eq!(
        extract::extract_course_schedules(feed).unwrap(),
        vec![Schedule { campus: None, display: None, location: None }],
    );
}

#[test]
fn end_to_end_course_page_scenario() {
    let doc = "<h1 id=\"page-title\">Discrete Structures</h1>\
         <span class=\"catalog-credits\">3</span>\
         <span class=\"catalog-subject\">MATH</span>\
         <span class=\"catalog-code\">240</span>\
         <a class=\"catalog-faculty-link\" href=\"/study/2022-2023/faculties/science\">Science</a>\
         <div class=\"catalog-description\">Discrete mathematics.</div>\
         <div class=\"node node-catalog clearfix\">\
         <p class=\"catalog-terms\">Terms: Fall 2022, Winter 2023</p>\
         <p class=\"catalog-instructors\">Instructors: Vetta; Fortier (Fall); Fortier; Macdonald (Winter)</p>\
         </div>";
    let page = extract::extract_course_page(doc).unwrap();
    assert_eq!(page.title, "Discrete Structures");
    assert_eq!(page.subject, "MATH");
    assert_eq!(page.code, "240");
    assert_eq!(
        pairs(&page.instructors),
        vec![
            ("Vetta".to_string(), "Fall 2022".to_string()),
            ("Fortier".to_string(), "Fall 2022".to_string()),
            ("Fortier".to_string(), "Winter 2023".to_string()),
            ("Macdonald".to_string(), "Winter 2023".to_string()),
        ],
    );
}

#[test]
fn missing_required_page_field_fails() {
    let doc = "<h1 id=\"page-title\">Discrete Structures</h1>";
    match extract::extract_course_page(doc) {
        Err(ExtractError::MissingFragment(q)) => {
            assert_eq!(q, "span[class='catalog-credits']");
        },
        other => panic!("expected a missing-fragment error, got {other:?}"),
    }
}

#[test]
fn user_record_and_session_resolution() {
    let u = User::new("u1", "u1@example.edu");
    assert_eq!(u.clone().id(), "u1");
    assert!(resolve_session_user(None, Some(u.clone())).is_err());
    assert!(resolve_session_user(Some("sid".to_string()), None).is_err());
    assert_eq!(
        resolve_session_user(Some("sid".to_string()), Some(u.clone())),
        Ok(u),
    );
}

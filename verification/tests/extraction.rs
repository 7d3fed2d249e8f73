use course_extractor::extract;
use course_extractor::model::{CourseListing, CoursePage, Instructor, Requirements, Schedule};

fn listing_row(department: &str, faculty: &str, level: &str, terms: &[&str], slug: &str) -> String {
    let mut row = String::from("<div class=\"views-row\">");
    row.push_str(&format!(
        "<span class=\"views-field-department\">{department}</span>"
    ));
    row.push_str(&format!("<span class=\"views-field-faculty\">{faculty}</span>"));
    row.push_str(&format!("<span class=\"views-field-level\">{level}</span>"));
    for term in terms {
        row.push_str(&format!("<span class=\"views-field-terms\">{term}</span>"));
    }
    row.push_str(&format!(
        "<a class=\"course-link\" href=\"/study/2022-2023/courses/{slug}\">{slug}</a>"
    ));
    row.push_str("</div>");
    row
}

fn listing(department: &str, faculty: &str, level: &str, terms: &[&str], slug: &str) -> CourseListing {
    CourseListing {
        department: department.into(),
        faculty: faculty.into(),
        level: level.into(),
        terms: terms.iter().map(|t| t.to_string()).collect(),
        url: format!("/study/2022-2023/courses/{slug}"),
    }
}

fn course_listings_doc() -> String {
    let agr = "Agricultural &amp; Environmental Sciences";
    let rows = [
        listing_row("Bioresource Engineering", agr, "Undergraduate", &["Fall 2022"], "aeph-120"),
        listing_row("Bioresource Engineering", agr, "Undergraduate", &["Winter 2023"], "aeph-122"),
        listing_row(
            "Institute for Aerospace Eng.",
            "Faculty of Engineering",
            "Undergraduate",
            &["Fall 2022"],
            "aero-401",
        ),
        listing_row(
            "Institute for Aerospace Eng.",
            "Faculty of Engineering",
            "Undergraduate",
            &["Winter 2023"],
            "aero-410",
        ),
        listing_row(
            "Institute for Aerospace Eng.",
            "Faculty of Engineering",
            "Undergraduate",
            &["Fall 2022"],
            "aero-460d1",
        ),
        listing_row(
            "Institute for Aerospace Eng.",
            "Faculty of Engineering",
            "Undergraduate",
            &["Winter 2023"],
            "aero-460d2",
        ),
        listing_row("Islamic Studies", "Faculty of Arts", "Undergraduate", &["Fall 2022"], "afri-200"),
        listing_row("Islamic Studies", "Faculty of Arts", "Undergraduate", &["Fall 2022"], "afri-401"),
        listing_row(
            "Islamic Studies",
            "Faculty of Arts",
            "Undergraduate",
            &["There are no future offerings"],
            "afri-480",
        ),
        listing_row("Islamic Studies", "Faculty of Arts", "Undergraduate", &["Fall 2022"], "afri-481"),
        listing_row("Islamic Studies", "Faculty of Arts", "Undergraduate", &[], "afri-499"),
        listing_row(
            "Islamic Studies",
            "Faculty of Arts",
            "Graduate, Undergraduate",
            &["Winter 2023"],
            "afri-598",
        ),
        listing_row("Agricultural Economics", agr, "Undergraduate", &["Fall 2022"], "agec-200"),
        listing_row("Agricultural Economics", agr, "Undergraduate", &["Winter 2023"], "agec-201"),
        listing_row("Agricultural Economics", agr, "Undergraduate", &["Winter 2023"], "agec-231"),
        listing_row("Agricultural Economics", agr, "Undergraduate", &["Not scheduled"], "agec-242"),
        listing_row("Agricultural Economics", agr, "Undergraduate", &["Winter 2023"], "agec-320"),
        listing_row("Natural Resource Sciences", agr, "Undergraduate", &[], "agec-330"),
        listing_row("Natural Resource Sciences", agr, "Undergraduate", &["Fall 2022"], "agec-332"),
        listing_row("Agricultural Economics", agr, "Undergraduate", &["Fall 2022"], "agec-333"),
    ];
    format!("<div class=\"view-content\">{}</div>", rows.join(""))
}

#[test]
fn extract_course_listings() {
    let agr = "Agricultural &amp; Environmental Sciences";
    assert_eq!(
        extract::extract_course_listings(&course_listings_doc())
            .unwrap()
            .unwrap(),
        vec![
            listing("Bioresource Engineering", agr, "Undergraduate", &["Fall 2022"], "aeph-120"),
            listing("Bioresource Engineering", agr, "Undergraduate", &["Winter 2023"], "aeph-122"),
            listing(
                "Institute for Aerospace Eng.",
                "Faculty of Engineering",
                "Undergraduate",
                &["Fall 2022"],
                "aero-401",
            ),
            listing(
                "Institute for Aerospace Eng.",
                "Faculty of Engineering",
                "Undergraduate",
                &["Winter 2023"],
                "aero-410",
            ),
            listing(
                "Institute for Aerospace Eng.",
                "Faculty of Engineering",
                "Undergraduate",
                &["Fall 2022"],
                "aero-460d1",
            ),
            listing(
                "Institute for Aerospace Eng.",
                "Faculty of Engineering",
                "Undergraduate",
                &["Winter 2023"],
                "aero-460d2",
            ),
            listing("Islamic Studies", "Faculty of Arts", "Undergraduate", &["Fall 2022"], "afri-200"),
            listing("Islamic Studies", "Faculty of Arts", "Undergraduate", &["Fall 2022"], "afri-401"),
            listing("Islamic Studies", "Faculty of Arts", "Undergraduate", &[], "afri-480"),
            listing("Islamic Studies", "Faculty of Arts", "Undergraduate", &["Fall 2022"], "afri-481"),
            listing("Islamic Studies", "Faculty of Arts", "Undergraduate", &[], "afri-499"),
            listing(
                "Islamic Studies",
                "Faculty of Arts",
                "Graduate, Undergraduate",
                &["Winter 2023"],
                "afri-598",
            ),
            listing("Agricultural Economics", agr, "Undergraduate", &["Fall 2022"], "agec-200"),
            listing("Agricultural Economics", agr, "Undergraduate", &["Winter 2023"], "agec-201"),
            listing("Agricultural Economics", agr, "Undergraduate", &["Winter 2023"], "agec-231"),
            listing("Agricultural Economics", agr, "Undergraduate", &[], "agec-242"),
            listing("Agricultural Economics", agr, "Undergraduate", &["Winter 2023"], "agec-320"),
            listing("Natural Resource Sciences", agr, "Undergraduate", &[], "agec-330"),
            listing("Natural Resource Sciences", agr, "Undergraduate", &["Fall 2022"], "agec-332"),
            listing("Agricultural Economics", agr, "Undergraduate", &["Fall 2022"], "agec-333"),
        ],
    );
}

const DESCRIPTION: &str = "Introduction to discrete mathematics and applications. Logical reasoning and methods of proof. Elementary number theory and cryptography  prime numbers, modular equations, RSA encryption. Combinatorics  basic enumeration, combinatorial methods, recurrence equations. Graph theory  trees, cycles, planar\ngraphs.";

const RESTRICTION: &str = "For students in any Computer Science, Computer Engineering, or Software Engineering programs. Others only with the instructor's permission. Not open to students who have taken or are taking MATH 235.";

fn course_page_doc() -> String {
    format!(
        "<h1 id=\"page-title\">Discrete Structures</h1>\
         <span class=\"catalog-credits\">3</span>\
         <span class=\"catalog-subject\">MATH</span>\
         <span class=\"catalog-code\">240</span>\
         <a class=\"catalog-faculty-link\" href=\"/study/2022-2023/faculties/science\">Science</a>\
         <div class=\"catalog-description\">{desc}</div>\
         <div class=\"node node-catalog clearfix\">\
         <p class=\"catalog-terms\">Terms: Fall 2022, Winter 2023</p>\
         <p class=\"catalog-instructors\">Instructors: Adrian Roshan Vetta; J\u{e9}r\u{f4}me Fortier (Fall) J\u{e9}r\u{f4}me Fortier; Jeremy Macdonald (Winter)</p>\
         </div>\
         <ul class=\"catalog-notes\">\
         <li>3 hours lecture</li>\
         <li>Corequisite: MATH 133</li>\
         <li>Restriction: {restr}</li>\
         </ul>",
        desc = DESCRIPTION,
        restr = RESTRICTION,
    )
}

fn expected_instructors() -> Vec<Instructor> {
    vec![
        Instructor { name: "Adrian Roshan Vetta".into(), term: "Fall 2022".into() },
        Instructor { name: "Jérôme Fortier".into(), term: "Fall 2022".into() },
        Instructor { name: "Jérôme Fortier".into(), term: "Winter 2023".into() },
        Instructor { name: "Jeremy Macdonald".into(), term: "Winter 2023".into() },
    ]
}

#[test]
fn extract_course_instructors() {
    assert_eq!(
        extract::extract_course_instructors(&scraper::Html::parse_fragment(&course_page_doc()))
            .unwrap(),
        expected_instructors(),
    );
}

#[test]
fn extract_course_requirements() {
    assert_eq!(
        extract::extract_course_requirements(&scraper::Html::parse_fragment(&course_page_doc()))
            .unwrap(),
        Requirements {
            corequisites: vec!["MATH 133".into()],
            prerequisites: Vec::new(),
            restrictions: Some(RESTRICTION.into()),
        },
    );
}

#[test]
fn extract_course_page() {
    assert_eq!(
        extract::extract_course_page(&course_page_doc()).unwrap(),
        CoursePage {
            title: "Discrete Structures".into(),
            credits: "3".into(),
            subject: "MATH".into(),
            code: "240".into(),
            faculty_url: "/study/2022-2023/faculties/science".into(),
            description: DESCRIPTION.into(),
            instructors: expected_instructors(),
            requirements: Requirements {
                corequisites: vec!["MATH 133".into()],
                prerequisites: vec![],
                restrictions: Some(RESTRICTION.into()),
            },
        },
    );
}

#[test]
fn extract_course_schedules() {
    let feed = "<errors></errors>\
         <block>\
         <campus>Downtown</campus>\
         <display>Lec 045</display>\
         <location>BRONF 422</location>\
         </block>";
    assert_eq!(
        extract::extract_course_schedules(feed).unwrap(),
        vec![Schedule {
            campus: Some("Downtown".into()),
            display: Some("Lec 045".into()),
            location: Some("BRONF 422".into()),
        }],
    );
}

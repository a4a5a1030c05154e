//! Tests of the two ingestion paths: the tabular state machine (fed with
//! plain rows and with real HTML) and the XML peer, against databases
//! built directly from the record model.

use whereisclass::htmlparser::{parse_html, parse_time};
use whereisclass::models::{Course, CourseDB, Day, Period, PeriodType, Section, TimeCode};
use whereisclass::parser::htmlparser::{
    parse_rows, try_parse_time, try_parse_time_range, CourseDBHTMLParseError, HtmlParser,
    MalformedTimeKind, RowError,
};
use whereisclass::parser::xml_parser::{parse_db, CourseDBError};
use whereisclass::parser::CourseDBParser;

fn tc(v: u16) -> TimeCode {
    TimeCode::from_u16(v).unwrap()
}

/// A row of 22 cells, the given positions filled.
fn row(cells: &[(usize, &str)]) -> Vec<String> {
    let mut r = vec![String::new(); 22];
    for (i, v) in cells {
        r[*i] = v.to_string();
    }
    r
}

fn course_row(name: &str, dept: &str, num: &str, crn: &str, days: &str, time: &str, prof: &str, loc: &str) -> Vec<String> {
    row(&[
        (1, crn),
        (2, dept),
        (3, num),
        (4, "01"),
        (7, name),
        (8, days),
        (9, time),
        (19, prof),
        (21, loc),
    ])
}

fn expected_two_period_db() -> CourseDB {
    CourseDB {
        courses: vec![Course {
            name: "Intro to Systems".to_string(),
            dept: "CSCI".to_string(),
            num: 1200,
            sections: vec![Section {
                crn: 10001,
                num: 1,
                periods: vec![
                    Period {
                        time_start: tc(1000),
                        time_end: tc(1050),
                        instructor: "Goldschmidt".to_string(),
                        days: vec![Day::Monday, Day::Wednesday],
                        location: Some("SAGE 2715".to_string()),
                        period_type: None,
                    },
                    Period {
                        time_start: tc(1400),
                        time_end: tc(1450),
                        instructor: "Goldschmidt".to_string(),
                        days: vec![Day::Monday, Day::Wednesday],
                        location: Some("SAGE 2715".to_string()),
                        period_type: None,
                    },
                ],
                notes: vec![],
            }],
        }],
    }
}

fn two_period_rows() -> Vec<Vec<String>> {
    let a = course_row(
        "Intro to Systems",
        "CSCI",
        "1200",
        "10001",
        "MW",
        "10:00 am-10:50 am",
        "Goldschmidt",
        "SAGE 2715",
    );
    let b = row(&[
        (4, "a"),
        (8, "MW"),
        (9, "2:00 pm-2:50 pm"),
        (19, "Goldschmidt"),
        (21, "SAGE 2715"),
    ]);
    vec![a, b]
}

#[test]
fn two_rows_build_one_course_one_section_two_periods() {
    let (db, diags) = parse_rows(&two_period_rows(), false).unwrap();
    assert!(diags.is_empty());
    assert_eq!(db, expected_two_period_db());
}

#[test]
fn strict_mode_agrees_on_clean_input() {
    let (db, diags) = parse_rows(&two_period_rows(), true).unwrap();
    assert!(diags.is_empty());
    assert_eq!(db, expected_two_period_db());
}

#[test]
fn header_and_empty_rows_are_passed_over() {
    let mut rows = vec![Vec::new(), row(&[(4, "H01")])];
    rows.extend(two_period_rows());
    let (db, diags) = parse_rows(&rows, false).unwrap();
    assert!(diags.is_empty());
    assert_eq!(db, expected_two_period_db());
}

#[test]
fn short_header_rows_are_skipped_not_errors() {
    // A header row of only five cells is still a header row.
    let mut short_header = vec![String::new(); 5];
    short_header[4] = "H01".to_string();
    let mut rows = vec![short_header];
    rows.extend(two_period_rows());
    let (db, diags) = parse_rows(&rows, true).unwrap();
    assert!(diags.is_empty());
    assert_eq!(db, expected_two_period_db());
}

#[test]
fn tba_days_and_times_record_no_period() {
    let rows = vec![
        course_row("A", "CSCI", "1200", "10001", "TBA", "1:00 pm-1:50 pm", "X", "R 1"),
        course_row("B", "CSCI", "1300", "10002", "MW", "TBA", "X", "R 1"),
        course_row("C", "CSCI", "1400", "10003", "", "1:00 pm-1:50 pm", "X", "R 1"),
    ];
    let (db, diags) = parse_rows(&rows, false).unwrap();
    assert!(diags.is_empty());
    assert_eq!(db.courses.len(), 3);
    for c in &db.courses {
        assert_eq!(c.sections.len(), 1);
        assert!(c.sections[0].periods.is_empty());
    }
}

#[test]
fn continuation_before_any_course_is_a_row_error() {
    let rows = vec![row(&[(4, "02"), (1, "10001")])];
    let err = parse_rows(&rows, true).unwrap_err();
    assert!(matches!(err, RowError::NoOpenCourse));
    let (db, diags) = parse_rows(&rows, false).unwrap();
    assert!(db.courses.is_empty());
    assert_eq!(diags.len(), 1);
    assert_eq!(diags[0].row, 0);
    assert!(matches!(diags[0].error, RowError::NoOpenCourse));
}

#[test]
fn period_row_before_any_section_is_a_row_error() {
    // A course row opens its own section, so force the error with a
    // course whose section creation failed on a bad registration number.
    let mut bad = course_row("A", "CSCI", "1200", "x", "MW", "1:00 pm-1:50 pm", "X", "R 1");
    bad[4] = "01".to_string();
    let per = row(&[(4, "a"), (8, "MW"), (9, "1:00 pm-1:50 pm")]);
    let rows = vec![bad, per];
    let (db, diags) = parse_rows(&rows, false).unwrap();
    assert_eq!(db.courses.len(), 1);
    assert!(db.courses[0].sections.is_empty());
    assert_eq!(diags.len(), 2);
    assert!(matches!(diags[0].error, RowError::BadCrn));
    assert!(matches!(diags[1].error, RowError::NoOpenSection));
}

#[test]
fn bad_course_number_drops_the_row() {
    let rows = vec![course_row("A", "CSCI", "12x0", "10001", "MW", "1:00 pm-1:50 pm", "X", "R 1")];
    let err = parse_rows(&rows, true).unwrap_err();
    assert!(matches!(err, RowError::BadCourseNumber));
}

#[test]
fn bad_section_number_drops_the_row() {
    let mut rows = two_period_rows();
    // A second section of the course whose marker cannot be a section index.
    rows.push(row(&[(1, "10002"), (4, "999"), (8, "MW"), (9, "3:00 pm-3:50 pm")]));
    let err = parse_rows(&rows, true).unwrap_err();
    assert!(matches!(err, RowError::BadSectionNumber));
    let (db, diags) = parse_rows(&rows, false).unwrap();
    assert_eq!(db.courses[0].sections.len(), 1);
    assert_eq!(diags.len(), 1);
}

#[test]
fn empty_marker_reads_as_a_plain_continuation_marker() {
    let mut rows = two_period_rows();
    // An empty marker cell counts as `00`: a new section with index 0.
    rows.push(row(&[(1, "10002"), (4, ""), (8, "F"), (9, "3:00 pm-3:50 pm"), (21, "R 9")]));
    let (db, diags) = parse_rows(&rows, false).unwrap();
    assert!(diags.is_empty());
    assert_eq!(db.courses[0].sections.len(), 2);
    assert_eq!(db.courses[0].sections[1].crn, 10002);
    assert_eq!(db.courses[0].sections[1].num, 0);
    assert_eq!(db.courses[0].sections[1].periods.len(), 1);
}

#[test]
fn afternoon_times_are_not_shifted_twice() {
    assert_eq!(try_parse_time("13:35 pm").unwrap().time(), 1335);
    assert_eq!(try_parse_time("12:00 pm").unwrap().time(), 1200);
    assert_eq!(try_parse_time("11:59 am").unwrap().time(), 1159);
}

#[test]
fn bad_time_range_drops_only_that_period() {
    let mut rows = two_period_rows();
    rows[1][9] = "2:00 pm".to_string();
    let (db, diags) = parse_rows(&rows, false).unwrap();
    assert_eq!(db.courses[0].sections[0].periods.len(), 1);
    assert_eq!(diags.len(), 1);
    assert!(matches!(
        diags[0].error,
        RowError::Time(CourseDBHTMLParseError::NotTwoTimes)
    ));
    let err = parse_rows(&rows, true).unwrap_err();
    assert!(matches!(err, RowError::Time(CourseDBHTMLParseError::NotTwoTimes)));
}

#[test]
fn short_rows_are_reported() {
    let rows = vec![vec![String::from("x")]];
    let (db, diags) = parse_rows(&rows, false).unwrap();
    assert!(db.courses.is_empty());
    assert_eq!(diags.len(), 1);
    assert!(matches!(diags[0].error, RowError::TooFewCells));
}

#[test]
fn instructor_text_is_normalized() {
    let rows = vec![course_row(
        "A",
        "CSCI",
        "1200",
        "10001",
        "MW",
        "1:00 pm-1:50 pm",
        "Lastname   (Primary)",
        "R 1",
    )];
    let (db, _) = parse_rows(&rows, false).unwrap();
    assert_eq!(db.courses[0].sections[0].periods[0].instructor, "LastnamePrimary)");
}

#[test]
fn blank_location_is_no_location() {
    let rows = vec![course_row("A", "CSCI", "1200", "10001", "MW", "1:00 pm-1:50 pm", "X", "  ")];
    let (db, _) = parse_rows(&rows, false).unwrap();
    assert_eq!(db.courses[0].sections[0].periods[0].location, None);
}

#[test]
fn time_tokens_parse_and_shift() {
    assert_eq!(try_parse_time("10:00 am").unwrap().time(), 1000);
    assert_eq!(try_parse_time("2:35 pm").unwrap().time(), 1435);
    assert_eq!(try_parse_time("12:35 pm").unwrap().time(), 1235);
    assert_eq!(
        try_parse_time_range("10:00 am-10:50 am").unwrap(),
        (tc(1000), tc(1050))
    );
}

#[test]
fn time_token_errors_are_told_apart() {
    assert!(matches!(
        try_parse_time("1000"),
        Err(CourseDBHTMLParseError::MalformedTime(MalformedTimeKind::MissingAMPM))
    ));
    assert!(matches!(
        try_parse_time("10:00 xm"),
        Err(CourseDBHTMLParseError::MalformedTime(MalformedTimeKind::MalformedAMPM))
    ));
    assert!(matches!(
        try_parse_time(":: am"),
        Err(CourseDBHTMLParseError::ParseIntErr)
    ));
    assert!(matches!(
        try_parse_time("6:00 am"),
        Err(CourseDBHTMLParseError::TimeCodeParseError(_))
    ));
    assert!(matches!(
        try_parse_time_range("10:00 am"),
        Err(CourseDBHTMLParseError::NotTwoTimes)
    ));
}

#[test]
fn parse_time_reads_digits_and_pm() {
    assert_eq!(parse_time("10:00 am"), 1000);
    assert_eq!(parse_time("2:50 pm"), 1450);
    assert_eq!(parse_time("12:35 pm"), 1235);
    assert_eq!(parse_time("1250"), 1250);
}

fn html_of_rows(rows: &[Vec<String>]) -> String {
    let mut s = String::from("<table>");
    for r in rows {
        s.push_str("<tr>");
        for cell in r {
            s.push_str(&format!("<td>{}</td>", cell));
        }
        s.push_str("</tr>");
    }
    s.push_str("</table>");
    s
}

#[test]
fn html_table_round_trips_through_scraper() {
    let html = html_of_rows(&two_period_rows());
    let db = parse_html(html.as_str());
    assert_eq!(db, expected_two_period_db());
}

#[test]
fn html_parser_trait_agrees() {
    let html = html_of_rows(&two_period_rows());
    let db = HtmlParser.parse(html.as_str()).unwrap();
    assert_eq!(db, expected_two_period_db());
}

fn xml_doc() -> String {
    let mut s = String::new();
    s.push_str("<CourseDB>");
    s.push_str("<COURSE name=\"Intro to Systems\" dept=\"CSCI\" num=\"1200\">");
    s.push_str("<SECTION crn=\"10001\" num=\"1\">");
    s.push_str("<PERIOD start=\"1000\" end=\"1050\" location=\"SAGE 2715\" ");
    s.push_str("type=\"LEC\" instructor=\"Goldschmidt\">");
    s.push_str("<DAY>M</DAY><DAY>W</DAY></PERIOD>");
    s.push_str("<NOTE>Meets with CSCI 2500.</NOTE>");
    s.push_str("</SECTION></COURSE></CourseDB>");
    s
}

fn expected_xml_db() -> CourseDB {
    CourseDB {
        courses: vec![Course {
            name: "Intro to Systems".to_string(),
            dept: "CSCI".to_string(),
            num: 1200,
            sections: vec![Section {
                crn: 10001,
                num: 1,
                periods: vec![Period {
                    time_start: tc(1000),
                    time_end: tc(1050),
                    instructor: "Goldschmidt".to_string(),
                    days: vec![Day::Monday, Day::Wednesday],
                    location: Some("SAGE 2715".to_string()),
                    period_type: Some(PeriodType::Lecture),
                }],
                notes: vec!["Meets with CSCI 2500.".to_string()],
            }],
        }],
    }
}

#[test]
fn xml_document_round_trips_through_roxmltree() {
    assert_eq!(parse_db(xml_doc().as_str(), false).unwrap(), expected_xml_db());
    assert_eq!(parse_db(xml_doc().as_str(), true).unwrap(), expected_xml_db());
}

#[test]
fn malformed_xml_is_its_own_error() {
    assert_eq!(
        parse_db("<not<xml", false).unwrap_err(),
        CourseDBError::MalformedDocument
    );
}

#[test]
fn xml_missing_attribute_drops_subtree_or_aborts() {
    let mut doc = String::new();
    doc.push_str("<CourseDB>");
    doc.push_str("<COURSE name=\"A\" dept=\"CSCI\" num=\"1200\">");
    doc.push_str("<SECTION crn=\"10001\" num=\"1\">");
    doc.push_str("<PERIOD end=\"1050\" instructor=\"X\">");
    doc.push_str("<DAY>M</DAY></PERIOD>");
    doc.push_str("</SECTION></COURSE></CourseDB>");
    assert_eq!(parse_db(doc.as_str(), true).unwrap_err(), CourseDBError::MissingValue);
    let db = parse_db(doc.as_str(), false).unwrap();
    assert_eq!(db.courses.len(), 1);
    assert_eq!(db.courses[0].sections.len(), 1);
    assert!(db.courses[0].sections[0].periods.is_empty());
}

#[test]
fn xml_missing_instructor_is_empty_text() {
    let mut doc = String::new();
    doc.push_str("<CourseDB>");
    doc.push_str("<COURSE name=\"A\" dept=\"CSCI\" num=\"1200\">");
    doc.push_str("<SECTION crn=\"10001\" num=\"1\">");
    doc.push_str("<PERIOD start=\"1000\" end=\"1050\">");
    doc.push_str("<DAY>M</DAY></PERIOD>");
    doc.push_str("</SECTION></COURSE></CourseDB>");
    let db = parse_db(doc.as_str(), true).unwrap();
    let period = &db.courses[0].sections[0].periods[0];
    assert_eq!(period.instructor, "");
    assert_eq!(period.days, vec![Day::Monday]);
}

#[test]
fn xml_bad_number_is_a_parsing_error() {
    let doc = "<CourseDB><COURSE name=\"A\" dept=\"CSCI\" num=\"12x0\"></COURSE></CourseDB>";
    assert_eq!(parse_db(doc, true).unwrap_err(), CourseDBError::ParsingNum);
    let db = parse_db(doc, false).unwrap();
    assert!(db.courses.is_empty());
}

#[test]
fn xml_bad_day_is_dropped_leniently() {
    let mut doc = String::new();
    doc.push_str("<CourseDB>");
    doc.push_str("<COURSE name=\"A\" dept=\"CSCI\" num=\"1200\">");
    doc.push_str("<SECTION crn=\"10001\" num=\"1\">");
    doc.push_str("<PERIOD start=\"1000\" end=\"1050\" instructor=\"X\">");
    doc.push_str("<DAY>M</DAY><DAY>Q</DAY><DAY>W</DAY></PERIOD>");
    doc.push_str("</SECTION></COURSE></CourseDB>");
    assert_eq!(parse_db(doc.as_str(), true).unwrap_err(), CourseDBError::ParsingNum);
    let db = parse_db(doc.as_str(), false).unwrap();
    assert_eq!(
        db.courses[0].sections[0].periods[0].days,
        vec![Day::Monday, Day::Wednesday]
    );
}

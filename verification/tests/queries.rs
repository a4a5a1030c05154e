//! Tests of the availability query engine: boundary-inclusive conflicts,
//! per-period occupant listing, and the sorted free-room search.

use whereisclass::actions::{FindCourseInRoomAtTime, FindEmptyRooms};
use whereisclass::models::{Course, CourseDB, Day, Period, Section, TimeCode};

fn tc(v: u16) -> TimeCode {
    TimeCode::from_u16(v).unwrap()
}

fn period(start: u16, end: u16, days: Vec<Day>, loc: &str) -> Period {
    Period {
        time_start: tc(start),
        time_end: tc(end),
        instructor: String::new(),
        days,
        location: Some(loc.to_string()),
        period_type: None,
    }
}

fn course_of(name: &str, periods: Vec<Period>) -> Course {
    Course {
        name: name.to_string(),
        dept: "CSCI".to_string(),
        num: 1200,
        sections: vec![Section { crn: 10001, num: 1, periods, notes: vec![] }],
    }
}

fn one_period_db() -> CourseDB {
    CourseDB {
        courses: vec![course_of(
            "Intro to Systems",
            vec![period(1000, 1050, vec![Day::Monday], "SAGE 2715")],
        )],
    }
}

#[test]
fn conflict_is_boundary_inclusive() {
    let db = one_period_db();
    // The period [1000, 1050] conflicts with the query point 1050 ...
    assert_eq!(
        db.find_course_in_room_at_time("SAGE 2715", tc(1050), Day::Monday).len(),
        1
    );
    // ... and with the range [1050, 1100] ...
    assert_eq!(
        db.find_course_in_room_at_time_range("SAGE 2715", tc(1050), tc(1100), Day::Monday).len(),
        1
    );
    // ... but not with [1051, 1100].
    assert_eq!(
        db.find_course_in_room_at_time_range("SAGE 2715", tc(1051), tc(1100), Day::Monday).len(),
        0
    );
}

#[test]
fn query_covering_the_period_conflicts() {
    let db = one_period_db();
    assert_eq!(
        db.find_course_in_room_at_time_range("SAGE 2715", tc(900), tc(1200), Day::Monday).len(),
        1
    );
}

#[test]
fn other_room_day_and_point_do_not_conflict() {
    let db = one_period_db();
    assert!(db.find_course_in_room_at_time("SAGE 3101", tc(1020), Day::Monday).is_empty());
    assert!(db.find_course_in_room_at_time("SAGE 2715", tc(1020), Day::Tuesday).is_empty());
    assert!(db.find_course_in_room_at_time("SAGE 2715", tc(1200), Day::Monday).is_empty());
}

#[test]
fn room_comparison_is_case_sensitive() {
    let db = one_period_db();
    assert!(db.find_course_in_room_at_time("sage 2715", tc(1020), Day::Monday).is_empty());
}

#[test]
fn one_entry_per_conflicting_period() {
    let db = CourseDB {
        courses: vec![course_of(
            "Intro to Systems",
            vec![
                period(1000, 1150, vec![Day::Monday], "SAGE 2715"),
                period(1100, 1250, vec![Day::Monday], "SAGE 2715"),
            ],
        )],
    };
    let hits = db.find_course_in_room_at_time("SAGE 2715", tc(1120), Day::Monday);
    assert_eq!(hits.len(), 2);
    assert_eq!(hits[0], hits[1]);
    assert_eq!(hits[0].name, "Intro to Systems");
}

fn three_room_db() -> CourseDB {
    CourseDB {
        courses: vec![
            course_of("A", vec![period(1000, 1050, vec![Day::Monday], "DCC 308")]),
            course_of("B", vec![period(1200, 1350, vec![Day::Monday], "SAGE 2715")]),
            course_of(
                "C",
                vec![
                    period(900, 950, vec![Day::Monday], "AE 214"),
                    period(1300, 1350, vec![Day::Tuesday], "AE 214"),
                ],
            ),
        ],
    }
}

#[test]
fn free_rooms_are_sorted_and_unique() {
    let db = three_room_db();
    // At 12:00-12:30 on Monday only SAGE 2715 is occupied.
    let free = db.find_empty_rooms(tc(1200), tc(1230), Day::Monday);
    assert_eq!(free, vec!["AE 214".to_string(), "DCC 308".to_string()]);
    // Every listed room is a recorded room, listed once, in order.
    let all = db.find_empty_rooms(tc(2000), tc(2050), Day::Friday);
    assert_eq!(
        all,
        vec!["AE 214".to_string(), "DCC 308".to_string(), "SAGE 2715".to_string()]
    );
}

#[test]
fn occupied_rooms_are_left_out() {
    let db = three_room_db();
    let free = db.find_empty_rooms(tc(900), tc(1020), Day::Monday);
    assert_eq!(free, vec!["SAGE 2715".to_string()]);
}

#[test]
fn free_rooms_scenario_includes_the_listing_room() {
    let db = CourseDB {
        courses: vec![course_of(
            "Intro to Systems",
            vec![
                period(1000, 1050, vec![Day::Monday, Day::Wednesday], "SAGE 2715"),
                period(1400, 1450, vec![Day::Monday, Day::Wednesday], "SAGE 2715"),
            ],
        )],
    };
    assert_eq!(
        db.find_course_in_room_at_time("SAGE 2715", tc(1430), Day::Monday).len(),
        1
    );
    assert!(db.find_course_in_room_at_time("SAGE 2715", tc(1200), Day::Monday).is_empty());
    let free = db.find_empty_rooms(tc(1200), tc(1230), Day::Monday);
    assert!(free.contains(&"SAGE 2715".to_string()));
}

#[test]
fn tba_locations_are_no_rooms() {
    let db = CourseDB {
        courses: vec![course_of(
            "A",
            vec![period(1000, 1050, vec![Day::Monday], "TBA")],
        )],
    };
    assert!(db.find_course_in_room_at_time("TBA", tc(1020), Day::Monday).is_empty());
    assert!(db.find_empty_rooms(tc(2000), tc(2050), Day::Friday).is_empty());
}

#[test]
fn blank_locations_are_no_rooms() {
    let db = CourseDB {
        courses: vec![course_of(
            "A",
            vec![period(1000, 1050, vec![Day::Monday], "  ")],
        )],
    };
    assert!(db.find_course_in_room_at_time("  ", tc(1020), Day::Monday).is_empty());
    assert!(db.find_empty_rooms(tc(2000), tc(2050), Day::Friday).is_empty());
}

#[test]
fn periods_without_a_room_never_occupy() {
    let mut p = period(1000, 1050, vec![Day::Monday], "unused");
    p.location = None;
    let db = CourseDB { courses: vec![course_of("A", vec![p])] };
    assert!(db.find_course_in_room_at_time("unused", tc(1020), Day::Monday).is_empty());
    assert!(db.find_empty_rooms(tc(1000), tc(1050), Day::Monday).is_empty());
}

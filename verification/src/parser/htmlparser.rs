//! Ingestion of an HTML listing table: the row-oriented state machine that
//! reconstructs the nested `CourseDB` from flat rows of text cells, and the
//! time-token parsing it depends on.
//!
//! The HTML itself is taken apart by the `scraper` crate behind one trusted
//! wrapper; everything from the flat rows onward is verified.

use vstd::prelude::*;

use crate::models::{
    Course, CourseDB, CourseDBView, CourseView, Day, PeriodView, Section, SectionView, TimeCode,
    TimeCodeError, TimeCodeParseError, TimeCodeParseErrorKind, TimeCodeParseErrorView,
    day_of_char, valid_time_code,
};
use crate::models::Period;
use crate::models::{lemma_pop_deep_view, lemma_push_deep_view, lemma_take_step};
use crate::text::{
    all_digits, count_char, dec_val, digits_of, digits_value, find_char, is_blank, is_digit_char,
    spec_replace,
};

verus! {

/// Which half of the am/pm convention a time token broke.
#[derive(Copy, Clone, Eq, PartialEq, Debug, Structural)]
pub enum MalformedTimeKind {
    /// The token has no second, am/pm word at all.
    MissingAMPM,
    /// The second word is neither `am` nor `pm`.
    MalformedAMPM,
}

/// Mathematical content of a `CourseDBHTMLParseError`.
pub enum CourseDBHTMLParseErrorView {
    NotTwoTimes,
    MalformedTime(MalformedTimeKind),
    TimeCodeParseError(TimeCodeParseErrorView),
    ParseIntErr,
}

/// Error from parsing the time-range cell of a row.
#[derive(Debug, Clone)]
pub enum CourseDBHTMLParseError {
    /// The range does not split on `-` into exactly two tokens.
    NotTwoTimes,
    /// A token does not follow the `<digits> am|pm` convention.
    MalformedTime(MalformedTimeKind),
    /// A token denotes a number that is no valid time code.
    TimeCodeParseError(TimeCodeParseError),
    /// A token holds no digits, or too many to denote a `u16`.
    ParseIntErr,
}

impl View for CourseDBHTMLParseError {
    type V = CourseDBHTMLParseErrorView;

    open spec fn view(&self) -> CourseDBHTMLParseErrorView {
        match self {
            CourseDBHTMLParseError::NotTwoTimes => CourseDBHTMLParseErrorView::NotTwoTimes,
            CourseDBHTMLParseError::MalformedTime(k) => CourseDBHTMLParseErrorView::MalformedTime(
                *k,
            ),
            CourseDBHTMLParseError::TimeCodeParseError(e) => {
                CourseDBHTMLParseErrorView::TimeCodeParseError(e@)
            },
            CourseDBHTMLParseError::ParseIntErr => CourseDBHTMLParseErrorView::ParseIntErr,
        }
    }
}

/// What one `<digits> am|pm` token denotes: the digits are read as a raw
/// `HHMM` number, shifted to the afternoon when the token says `pm` and the
/// number is still a morning one, then validated as a `TimeCode`.
pub open spec fn spec_try_parse_time(s: Seq<char>) -> Result<u16, CourseDBHTMLParseErrorView> {
    if count_char(s, ' ') != 1 {
        Err(CourseDBHTMLParseErrorView::MalformedTime(MalformedTimeKind::MissingAMPM))
    } else {
        let i = find_char(s, ' ');
        let numpart = s.take(i);
        let suffix = s.skip(i + 1);
        if suffix != "am"@ && suffix != "pm"@ {
            Err(CourseDBHTMLParseErrorView::MalformedTime(MalformedTimeKind::MalformedAMPM))
        } else {
            let ds = digits_of(numpart);
            if ds.len() == 0 || dec_val(ds) > u16::MAX {
                Err(CourseDBHTMLParseErrorView::ParseIntErr)
            } else {
                let raw = dec_val(ds) as u16;
                let shifted = if suffix == "pm"@ && raw < 1200 {
                    (raw + 1200) as u16
                } else {
                    raw
                };
                if valid_time_code(shifted) {
                    Ok(shifted)
                } else {
                    Err(
                        CourseDBHTMLParseErrorView::TimeCodeParseError(
                            TimeCodeParseErrorView {
                                input: numpart,
                                kind: TimeCodeParseErrorKind::InvalidTime(
                                    if !(crate::models::TIME_MIN <= shifted
                                        && shifted <= crate::models::TIME_MAX) {
                                        TimeCodeError::OutOfBounds
                                    } else {
                                        TimeCodeError::InvalidMinutes
                                    },
                                ),
                            },
                        ),
                    )
                }
            }
        }
    }
}

/// Parses one time token of the form `<digits> am|pm`, as
/// `spec_try_parse_time` lays it down.
pub fn try_parse_time(s: &str) -> (r: Result<TimeCode, CourseDBHTMLParseError>)
    ensures
        r is Ok <==> spec_try_parse_time(s@) is Ok,
        r matches Ok(t) ==> spec_try_parse_time(s@) == Ok::<u16, CourseDBHTMLParseErrorView>(t@)
            && t.valid(),
        r matches Err(e) ==> spec_try_parse_time(s@) == Err::<u16, CourseDBHTMLParseErrorView>(e@),
{
    let parts = match crate::text::split_once_exact(s, ' ') {
        None => {
            return Err(CourseDBHTMLParseError::MalformedTime(MalformedTimeKind::MissingAMPM));
        },
        Some(p) => p,
    };
    let numpart = parts.0;
    let suffix = parts.1;
    let is_am = crate::text::str_eq(suffix.as_str(), "am");
    let is_pm = crate::text::str_eq(suffix.as_str(), "pm");
    if !is_am && !is_pm {
        return Err(CourseDBHTMLParseError::MalformedTime(MalformedTimeKind::MalformedAMPM));
    }
    let raw64 = match digits_value(numpart.as_str()) {
        None => {
            return Err(CourseDBHTMLParseError::ParseIntErr);
        },
        Some(v) => v,
    };
    if raw64 > u16::MAX as u64 {
        return Err(CourseDBHTMLParseError::ParseIntErr);
    }
    let raw = raw64 as u16;
    let shifted: u16 = if is_pm && raw < 1200 {
        raw + 1200
    } else {
        raw
    };
    match TimeCode::from_u16(shifted) {
        Ok(t) => Ok(t),
        Err(e) => Err(
            CourseDBHTMLParseError::TimeCodeParseError(
                TimeCodeParseError::new(numpart, TimeCodeParseErrorKind::InvalidTime(e)),
            ),
        ),
    }
}

/// What the time-range cell denotes: two time tokens separated by a single
/// `-`, each read by `spec_try_parse_time`; the first failure is the
/// result.
pub open spec fn spec_try_parse_time_range(s: Seq<char>) -> Result<
    (u16, u16),
    CourseDBHTMLParseErrorView,
> {
    if count_char(s, '-') != 1 {
        Err(CourseDBHTMLParseErrorView::NotTwoTimes)
    } else {
        let i = find_char(s, '-');
        match spec_try_parse_time(s.take(i)) {
            Err(e) => Err(e),
            Ok(t1) => match spec_try_parse_time(s.skip(i + 1)) {
                Err(e) => Err(e),
                Ok(t2) => Ok((t1, t2)),
            },
        }
    }
}

/// Parses the time-range cell `<token>-<token>`, as
/// `spec_try_parse_time_range` lays it down.
pub fn try_parse_time_range(s: &str) -> (r: Result<(TimeCode, TimeCode), CourseDBHTMLParseError>)
    ensures
        r is Ok <==> spec_try_parse_time_range(s@) is Ok,
        r matches Ok(p) ==> spec_try_parse_time_range(s@) == Ok::<
            (u16, u16),
            CourseDBHTMLParseErrorView,
        >((p.0@, p.1@)) && p.0.valid() && p.1.valid(),
        r matches Err(e) ==> spec_try_parse_time_range(s@) == Err::<
            (u16, u16),
            CourseDBHTMLParseErrorView,
        >(e@),
{
    let parts = match crate::text::split_once_exact(s, '-') {
        None => {
            return Err(CourseDBHTMLParseError::NotTwoTimes);
        },
        Some(p) => p,
    };
    let t1 = match try_parse_time(parts.0.as_str()) {
        Err(e) => {
            return Err(e);
        },
        Ok(t) => t,
    };
    let t2 = match try_parse_time(parts.1.as_str()) {
        Err(e) => {
            return Err(e);
        },
        Ok(t) => t,
    };
    Ok((t1, t2))
}

/// One of the five letters a day cell may be made of.
pub open spec fn is_day_letter(c: char) -> bool {
    c == 'M' || c == 'T' || c == 'W' || c == 'R' || c == 'F'
}

/// The day-letters convention: any number of day letters, including none.
pub open spec fn all_day_letters(s: Seq<char>) -> bool {
    forall|i: int| 0 <= i < s.len() ==> is_day_letter(#[trigger] s[i])
}

/// The days a well-formed day cell denotes, one per letter, in order.
pub open spec fn days_of_cell(s: Seq<char>) -> Seq<Day> {
    s.map_values(|c: char| day_of_char(c)->Some_0)
}

/// Reads the day-letters cell: `None` for the `TBA` sentinel and for any
/// cell that strays from the day-letters convention (both mean "no
/// schedule information", not an error), the denoted days otherwise.
pub fn parse_days(cell: &str) -> (r: Option<Vec<Day>>)
    ensures
        r is Some <==> (cell@ != "TBA"@ && all_day_letters(cell@)),
        r matches Some(v) ==> v@ == days_of_cell(cell@),
{
    if crate::text::str_eq(cell, "TBA") {
        return None;
    }
    let n = cell.unicode_len();
    let mut days: Vec<Day> = Vec::new();
    let mut i: usize = 0;
    proof {
        assert(days@ =~= days_of_cell(cell@.take(0)));
    }
    while i < n
        invariant
            0 <= i <= n,
            n == cell@.len(),
            all_day_letters(cell@.take(i as int)),
            days@ == days_of_cell(cell@.take(i as int)),
        decreases n - i,
    {
        let c = cell.get_char(i);
        let d = if c == 'M' {
            Day::Monday
        } else if c == 'T' {
            Day::Tuesday
        } else if c == 'W' {
            Day::Wednesday
        } else if c == 'R' {
            Day::Thursday
        } else if c == 'F' {
            Day::Friday
        } else {
            proof {
                assert(!is_day_letter(cell@[i as int]));
            }
            return None;
        };
        days.push(d);
        i = i + 1;
        proof {
            assert(cell@.take(i as int).drop_last() =~= cell@.take(i - 1));
            assert(days_of_cell(cell@.take(i as int)) =~= days_of_cell(cell@.take(i - 1)).push(
                day_of_char(cell@[i - 1])->Some_0,
            ));
        }
    }
    proof {
        assert(cell@.take(n as int) =~= cell@);
    }
    Some(days)
}

/// How the instructor cell is cleaned: runs of three spaces collapse to
/// one, then every `" ("` pair is struck, normalizing the
/// `"Lastname   (Primary)"` artifacts of the source.
pub open spec fn normalize_instructor(s: Seq<char>) -> Seq<char> {
    spec_replace(spec_replace(s, "   "@, " "@), " ("@, ""@)
}

/// Cleans the instructor cell, as `normalize_instructor` lays it down.
fn normalize_instructor_text(s: &str) -> (r: String)
    ensures
        r@ == normalize_instructor(s@),
{
    proof {
        reveal_strlit("   ");
        reveal_strlit(" (");
    }
    let collapsed = crate::text::replace_all(s, "   ", " ");
    crate::text::replace_all(collapsed.as_str(), " (", "")
}

// The positional column layout of the tabular source: each field of the
// row is bound to one fixed cell index. A format change is an edit here,
// not in the state machine.
/// Cell index of the section registration number.
pub const COL_CRN: usize = 1;

/// Cell index of the department code.
pub const COL_DEPT: usize = 2;

/// Cell index of the course catalog number.
pub const COL_COURSE_NUM: usize = 3;

/// Cell index of the section marker (`01` opens a course, `H01` is a
/// header row, a non-digit start continues the current section).
pub const COL_SECTION_MARKER: usize = 4;

/// Cell index of the course name.
pub const COL_COURSE_NAME: usize = 7;

/// Cell index of the day letters.
pub const COL_DAYS: usize = 8;

/// Cell index of the time range.
pub const COL_TIME_RANGE: usize = 9;

/// Cell index of the instructor text.
pub const COL_INSTRUCTOR: usize = 19;

/// Cell index of the room text.
pub const COL_LOCATION: usize = 21;

/// How many leading cells a non-empty row must supply: everything up to
/// and including the time range. Later cells are optional and degrade to
/// absent values.
pub const MIN_CELLS: usize = 10;

/// Mathematical content of a `RowError`.
pub enum RowErrorView {
    TooFewCells,
    NoOpenCourse,
    NoOpenSection,
    BadCourseNumber,
    BadCrn,
    BadSectionNumber,
    Time(CourseDBHTMLParseErrorView),
}

/// Why one row of the table could not be taken in. Such an error drops
/// that row's data; in strict mode it also aborts the whole parse.
#[derive(Debug, Clone)]
pub enum RowError {
    /// A non-empty row with fewer than `MIN_CELLS` cells.
    TooFewCells,
    /// A continuation row arrived before any course was opened.
    NoOpenCourse,
    /// A period row arrived before its course had any section.
    NoOpenSection,
    /// The catalog-number cell of a course row does not read as a `u16`.
    BadCourseNumber,
    /// The registration-number cell of a section row does not read as a
    /// `u32`.
    BadCrn,
    /// The marker cell of a section row does not read as a `u8`.
    BadSectionNumber,
    /// The time-range cell of a period row is malformed.
    Time(CourseDBHTMLParseError),
}

impl View for RowError {
    type V = RowErrorView;

    open spec fn view(&self) -> RowErrorView {
        match self {
            RowError::TooFewCells => RowErrorView::TooFewCells,
            RowError::NoOpenCourse => RowErrorView::NoOpenCourse,
            RowError::NoOpenSection => RowErrorView::NoOpenSection,
            RowError::BadCourseNumber => RowErrorView::BadCourseNumber,
            RowError::BadCrn => RowErrorView::BadCrn,
            RowError::BadSectionNumber => RowErrorView::BadSectionNumber,
            RowError::Time(e) => RowErrorView::Time(e@),
        }
    }
}

/// Mathematical content of a `RowDiag`.
pub struct RowDiagView {
    pub row: int,
    pub error: RowErrorView,
}

/// One diagnostic of a lenient parse: which row was dropped, and why.
#[derive(Debug, Clone)]
pub struct RowDiag {
    /// Index of the dropped row in the row sequence.
    pub row: usize,
    /// What was wrong with it.
    pub error: RowError,
}

impl View for RowDiag {
    type V = RowDiagView;

    open spec fn view(&self) -> RowDiagView {
        RowDiagView { row: self.row as int, error: self.error@ }
    }
}

impl DeepView for RowDiag {
    type V = RowDiagView;

    open spec fn deep_view(&self) -> RowDiagView {
        self.view()
    }
}

/// The marker cell as the state machine reads it: a cell with no text
/// counts as the plain continuation marker `00`.
pub open spec fn eff_marker(m: Seq<char>) -> Seq<char> {
    if m.len() == 0 {
        "00"@
    } else {
        m
    }
}

/// Whether `s` reads as a decimal `u16`.
pub open spec fn is_u16_text(s: Seq<char>) -> bool {
    s.len() > 0 && all_digits(s) && dec_val(s) <= u16::MAX
}

/// Whether `s` reads as a decimal `u32`.
pub open spec fn is_u32_text(s: Seq<char>) -> bool {
    s.len() > 0 && all_digits(s) && dec_val(s) <= u32::MAX
}

/// Whether `s` reads as a decimal `u8`.
pub open spec fn is_u8_text(s: Seq<char>) -> bool {
    s.len() > 0 && all_digits(s) && dec_val(s) <= u8::MAX
}

/// Appends a fresh section to the course built last.
pub open spec fn push_section_spec(db: Seq<CourseView>, s: SectionView) -> Seq<CourseView>
    recommends
        db.len() > 0,
{
    db.update(
        db.len() - 1,
        CourseView {
            name: db.last().name,
            dept: db.last().dept,
            num: db.last().num,
            sections: db.last().sections.push(s),
        },
    )
}

/// Appends a period to the section built last of the course built last.
pub open spec fn push_period_spec(db: Seq<CourseView>, p: PeriodView) -> Seq<CourseView>
    recommends
        db.len() > 0,
        db.last().sections.len() > 0,
{
    let c = db.last();
    let sec = c.sections.last();
    db.update(
        db.len() - 1,
        CourseView {
            name: c.name,
            dept: c.dept,
            num: c.num,
            sections: c.sections.update(
                c.sections.len() - 1,
                SectionView {
                    crn: sec.crn,
                    num: sec.num,
                    periods: sec.periods.push(p),
                    notes: sec.notes,
                },
            ),
        },
    )
}

/// The tail of one row's processing: reading the day cell, the time
/// range, the instructor, and the room, and recording the period. A `TBA`
/// or ill-formed day cell, an empty day cell, or a `TBA` time cell mean
/// "no schedule information on this row" and record nothing.
pub open spec fn spec_period_phase(db: Seq<CourseView>, row: Seq<Seq<char>>) -> (
    Seq<CourseView>,
    Option<RowErrorView>,
)
    recommends
        row.len() >= MIN_CELLS,
        db.len() > 0,
        db.last().sections.len() > 0,
{
    let daycell = row[COL_DAYS as int];
    if daycell == "TBA"@ || !all_day_letters(daycell) {
        (db, None)
    } else if daycell.len() == 0 {
        (db, None)
    } else {
        let timecell = row[COL_TIME_RANGE as int];
        if timecell == "TBA"@ {
            (db, None)
        } else {
            match spec_try_parse_time_range(timecell) {
                Err(e) => (db, Some(RowErrorView::Time(e))),
                Ok(ts) => {
                    let instructor = if row.len() > COL_INSTRUCTOR {
                        normalize_instructor(row[COL_INSTRUCTOR as int])
                    } else {
                        Seq::empty()
                    };
                    let location = if row.len() > COL_LOCATION && !is_blank(
                        row[COL_LOCATION as int],
                    ) {
                        Some(row[COL_LOCATION as int])
                    } else {
                        None
                    };
                    let p = PeriodView {
                        time_start: ts.0,
                        time_end: ts.1,
                        instructor,
                        days: days_of_cell(daycell),
                        location,
                        period_type: None,
                    };
                    (push_period_spec(db, p), None)
                },
            }
        }
    }
}

/// The middle of one row's processing: a marker starting with a digit
/// opens a new section (registration number and section index from their
/// cells), any other marker continues the section built last, which must
/// exist.
pub open spec fn spec_section_phase(db: Seq<CourseView>, row: Seq<Seq<char>>) -> (
    Seq<CourseView>,
    Option<RowErrorView>,
)
    recommends
        row.len() >= MIN_CELLS,
        db.len() > 0,
{
    let marker = eff_marker(row[COL_SECTION_MARKER as int]);
    if is_digit_char(marker[0]) {
        if !is_u32_text(row[COL_CRN as int]) {
            (db, Some(RowErrorView::BadCrn))
        } else if !is_u8_text(marker) {
            (db, Some(RowErrorView::BadSectionNumber))
        } else {
            let s = SectionView {
                crn: dec_val(row[COL_CRN as int]) as u32,
                num: dec_val(marker) as u8,
                periods: Seq::empty(),
                notes: Seq::empty(),
            };
            spec_period_phase(push_section_spec(db, s), row)
        }
    } else {
        if db.last().sections.len() == 0 {
            (db, Some(RowErrorView::NoOpenSection))
        } else {
            spec_period_phase(db, row)
        }
    }
}

/// What one row does to the database built so far, and the error it
/// raises, if any. Empty rows and header rows do nothing; a marker of
/// `01` opens a new course (name, department and catalog number from
/// their cells) before the section and period phases run.
pub open spec fn spec_row_step(db: Seq<CourseView>, row: Seq<Seq<char>>) -> (
    Seq<CourseView>,
    Option<RowErrorView>,
) {
    if row.len() == 0 {
        (db, None)
    } else if row.len() > COL_SECTION_MARKER && eff_marker(row[COL_SECTION_MARKER as int])
        == "H01"@ {
        // A header row is passed over whole, however many cells it has.
        (db, None)
    } else if row.len() < MIN_CELLS {
        (db, Some(RowErrorView::TooFewCells))
    } else {
        let marker = eff_marker(row[COL_SECTION_MARKER as int]);
        if marker == "01"@ {
            if !is_u16_text(row[COL_COURSE_NUM as int]) {
                (db, Some(RowErrorView::BadCourseNumber))
            } else {
                let c = CourseView {
                    name: row[COL_COURSE_NAME as int],
                    dept: row[COL_DEPT as int],
                    num: dec_val(row[COL_COURSE_NUM as int]) as u16,
                    sections: Seq::empty(),
                };
                spec_section_phase(db.push(c), row)
            }
        } else if db.len() == 0 {
            (db, Some(RowErrorView::NoOpenCourse))
        } else {
            spec_section_phase(db, row)
        }
    }
}

/// What a whole row sequence builds: the rows folded through
/// `spec_row_step` in order. In strict mode the first row error is the
/// overall result; in lenient mode each is recorded as a diagnostic and
/// the parse carries on.
pub open spec fn spec_ingest(rows: Seq<Seq<Seq<char>>>, strict: bool) -> Result<
    (Seq<CourseView>, Seq<RowDiagView>),
    RowErrorView,
>
    decreases rows.len(),
{
    if rows.len() == 0 {
        Ok((Seq::empty(), Seq::empty()))
    } else {
        match spec_ingest(rows.drop_last(), strict) {
            Err(e) => Err(e),
            Ok(acc) => {
                let step = spec_row_step(acc.0, rows.last());
                match step.1 {
                    None => Ok((step.0, acc.1)),
                    Some(e) => if strict {
                        Err(e)
                    } else {
                        Ok(
                            (
                                step.0,
                                acc.1.push(RowDiagView { row: rows.len() - 1, error: e }),
                            ),
                        )
                    },
                }
            },
        }
    }
}

/// A lenient parse always yields a database.
pub proof fn lemma_ingest_lenient_ok(rows: Seq<Seq<Seq<char>>>)
    ensures
        spec_ingest(rows, false) is Ok,
    decreases rows.len(),
{
    if rows.len() > 0 {
        lemma_ingest_lenient_ok(rows.drop_last());
    }
}

/// Once the fold has failed, longer row sequences fail the same way.
proof fn lemma_ingest_err_persists(rows: Seq<Seq<Seq<char>>>, strict: bool, k: int)
    requires
        0 <= k <= rows.len(),
        spec_ingest(rows.take(k), strict) is Err,
    ensures
        spec_ingest(rows, strict) == spec_ingest(rows.take(k), strict),
    decreases rows.len() - k,
{
    if k == rows.len() {
        assert(rows.take(k) =~= rows);
    } else {
        lemma_take_step(rows, k);
        assert(spec_ingest(rows.take(k + 1), strict) == spec_ingest(rows.take(k), strict));
        lemma_ingest_err_persists(rows, strict, k + 1);
    }
}

/// Runs one row against the growing database, as `spec_row_step` lays it
/// down. Reports the row's error without touching sibling data already
/// recorded.
fn ingest_row(db: &mut CourseDB, row: &Vec<String>) -> (r: Option<RowError>)
    ensures
        final(db)@.courses == spec_row_step(old(db)@.courses, row.deep_view()).0,
        r is None <==> spec_row_step(old(db)@.courses, row.deep_view()).1 is None,
        r matches Some(e) ==> spec_row_step(old(db)@.courses, row.deep_view()).1 == Some(e@),
{
    let ghost rowv = row.deep_view();
    let ghost db0 = db@.courses;
    if row.len() == 0 {
        return None;
    }
    if row.len() > COL_SECTION_MARKER {
        proof {
            assert(rowv[COL_SECTION_MARKER as int] == row@[COL_SECTION_MARKER as int]@);
            reveal_strlit("00");
        }
        let header_cell = &row[COL_SECTION_MARKER];
        let header_marker: &str = if header_cell.unicode_len() == 0 {
            "00"
        } else {
            header_cell.as_str()
        };
        if crate::text::str_eq(header_marker, "H01") {
            return None;
        }
    }
    if row.len() < MIN_CELLS {
        return Some(RowError::TooFewCells);
    }
    proof {
        assert(rowv[COL_SECTION_MARKER as int] == row@[COL_SECTION_MARKER as int]@);
        reveal_strlit("00");
    }
    let marker_cell = &row[COL_SECTION_MARKER];
    let marker: &str = if marker_cell.unicode_len() == 0 {
        "00"
    } else {
        marker_cell.as_str()
    };
    proof {
        assert(marker@ == eff_marker(rowv[COL_SECTION_MARKER as int]));
    }
    if crate::text::str_eq(marker, "01") {
        proof {
            assert(rowv[COL_COURSE_NUM as int] == row@[COL_COURSE_NUM as int]@);
            assert(rowv[COL_COURSE_NAME as int] == row@[COL_COURSE_NAME as int]@);
            assert(rowv[COL_DEPT as int] == row@[COL_DEPT as int]@);
        }
        let num = match crate::text::parse_u16(row[COL_COURSE_NUM].as_str()) {
            None => {
                return Some(RowError::BadCourseNumber);
            },
            Some(v) => v,
        };
        let ghost cs0 = db.courses;
        let course = Course {
            name: row[COL_COURSE_NAME].clone(),
            dept: row[COL_DEPT].clone(),
            num,
            sections: Vec::new(),
        };
        let ghost cg = course;
        db.courses.push(course);
        proof {
            lemma_push_deep_view(cs0, db.courses, cg);
            assert(cg.sections.deep_view() =~= Seq::<SectionView>::empty());
            assert(db@.courses =~= db0.push(
                CourseView {
                    name: rowv[COL_COURSE_NAME as int],
                    dept: rowv[COL_DEPT as int],
                    num: dec_val(rowv[COL_COURSE_NUM as int]) as u16,
                    sections: Seq::empty(),
                },
            ));
            assert(spec_row_step(db0, rowv) == spec_section_phase(db@.courses, rowv));
            assert(db@.courses.len() > 0);
        }
    } else {
        if db.courses.len() == 0 {
            proof {
                assert(db0.len() == 0);
            }
            return Some(RowError::NoOpenCourse);
        }
        proof {
            assert(spec_row_step(db0, rowv) == spec_section_phase(db@.courses, rowv));
            assert(db@.courses.len() > 0);
        }
    }
    let ghost db1 = db@.courses;
    let c0 = marker.get_char(0);
    if 48 <= c0 as u32 && c0 as u32 <= 57 {
        proof {
            assert(is_digit_char(eff_marker(rowv[COL_SECTION_MARKER as int])[0]));
            assert(rowv[COL_CRN as int] == row@[COL_CRN as int]@);
        }
        let crn = match crate::text::parse_u32(row[COL_CRN].as_str()) {
            None => {
                return Some(RowError::BadCrn);
            },
            Some(v) => v,
        };
        let snum = match crate::text::parse_u8(marker) {
            None => {
                return Some(RowError::BadSectionNumber);
            },
            Some(v) => v,
        };
        let ghost cs_pre = db.courses;
        let mut course = match db.courses.pop() {
            Some(c) => c,
            None => {
                proof {
                    assert(false);
                }
                return None;
            },
        };
        let ghost cs_mid = db.courses;
        let ghost course_pre = course;
        let ghost secs0 = course.sections;
        let section = Section { crn, num: snum, periods: Vec::new(), notes: Vec::new() };
        let ghost sg = section;
        course.sections.push(section);
        let ghost course_new = course;
        db.courses.push(course);
        proof {
            lemma_pop_deep_view(cs_pre, cs_mid);
            lemma_push_deep_view(secs0, course_new.sections, sg);
            lemma_push_deep_view(cs_mid, db.courses, course_new);
            assert(course_pre.deep_view() == db1.last());
            assert(sg.periods.deep_view() =~= Seq::<PeriodView>::empty());
            assert(sg.notes.deep_view() =~= Seq::<Seq<char>>::empty());
            assert(sg@ == (SectionView {
                crn: dec_val(rowv[COL_CRN as int]) as u32,
                num: dec_val(eff_marker(rowv[COL_SECTION_MARKER as int])) as u8,
                periods: Seq::empty(),
                notes: Seq::empty(),
            }));
            assert(db@.courses =~= push_section_spec(db1, sg@));
            assert(spec_section_phase(db1, rowv) == spec_period_phase(db@.courses, rowv));
            assert(db@.courses.len() > 0 && db@.courses.last().sections.len() > 0);
        }
    } else {
        proof {
            assert(!is_digit_char(eff_marker(rowv[COL_SECTION_MARKER as int])[0]));
        }
        let last = db.courses.len() - 1;
        if db.courses[last].sections.len() == 0 {
            proof {
                assert(db1.last() == db.courses@[last as int].deep_view());
                assert(db1.last().sections.len() == 0);
            }
            return Some(RowError::NoOpenSection);
        }
        proof {
            assert(db1.last() == db.courses@[last as int].deep_view());
            assert(db1.last().sections.len() > 0);
            assert(spec_section_phase(db1, rowv) == spec_period_phase(db@.courses, rowv));
        }
    }
    let ghost db2 = db@.courses;
    proof {
        assert(rowv[COL_DAYS as int] == row@[COL_DAYS as int]@);
    }
    let days = match parse_days(row[COL_DAYS].as_str()) {
        None => {
            return None;
        },
        Some(d) => d,
    };
    if days.len() == 0 {
        proof {
            assert(rowv[COL_DAYS as int].len() == 0);
        }
        return None;
    }
    proof {
        assert(rowv[COL_TIME_RANGE as int] == row@[COL_TIME_RANGE as int]@);
    }
    if crate::text::str_eq(row[COL_TIME_RANGE].as_str(), "TBA") {
        return None;
    }
    let times = match try_parse_time_range(row[COL_TIME_RANGE].as_str()) {
        Err(e) => {
            return Some(RowError::Time(e));
        },
        Ok(p) => p,
    };
    let instructor = if row.len() > COL_INSTRUCTOR {
        proof {
            assert(rowv[COL_INSTRUCTOR as int] == row@[COL_INSTRUCTOR as int]@);
        }
        normalize_instructor_text(row[COL_INSTRUCTOR].as_str())
    } else {
        String::new()
    };
    let location = if row.len() > COL_LOCATION {
        proof {
            assert(rowv[COL_LOCATION as int] == row@[COL_LOCATION as int]@);
        }
        if crate::text::is_blank_str(row[COL_LOCATION].as_str()) {
            None
        } else {
            Some(row[COL_LOCATION].clone())
        }
    } else {
        None
    };
    let period = Period {
        time_start: times.0,
        time_end: times.1,
        instructor,
        days,
        location,
        period_type: None,
    };
    let ghost pg = period;
    let ghost cs_pre = db.courses;
    let mut course = match db.courses.pop() {
        Some(c) => c,
        None => {
            proof {
                assert(false);
            }
            return None;
        },
    };
    let ghost cs_mid = db.courses;
    let ghost course_pre = course;
    let ghost secs_pre = course.sections;
    let mut section = match course.sections.pop() {
        Some(s) => s,
        None => {
            proof {
                assert(course_pre.deep_view() == db2.last());
                assert(false);
            }
            return None;
        },
    };
    let ghost secs_mid = course.sections;
    let ghost section_pre = section;
    let ghost pers0 = section.periods;
    section.periods.push(period);
    let ghost section_new = section;
    course.sections.push(section);
    let ghost course_new = course;
    db.courses.push(course);
    proof {
        lemma_pop_deep_view(cs_pre, cs_mid);
        lemma_pop_deep_view(secs_pre, secs_mid);
        lemma_push_deep_view(pers0, section_new.periods, pg);
        lemma_push_deep_view(secs_mid, course_new.sections, section_new);
        lemma_push_deep_view(cs_mid, db.courses, course_new);
        assert(course_pre.deep_view() == db2.last());
        assert(section_pre.deep_view() == db2.last().sections.last());
        let specp = spec_period_phase(db2, rowv);
        assert(pg.days.deep_view() =~= pg.days@);
        assert(pg@ == (PeriodView {
            time_start: times.0@,
            time_end: times.1@,
            instructor: if rowv.len() > COL_INSTRUCTOR {
                normalize_instructor(rowv[COL_INSTRUCTOR as int])
            } else {
                Seq::empty()
            },
            days: days_of_cell(rowv[COL_DAYS as int]),
            location: if rowv.len() > COL_LOCATION && !is_blank(rowv[COL_LOCATION as int]) {
                Some(rowv[COL_LOCATION as int])
            } else {
                None
            },
            period_type: None,
        }));
        assert(course_new@.sections =~= db2.last().sections.update(
            db2.last().sections.len() - 1,
            section_new@,
        ));
        assert(db@.courses =~= push_period_spec(db2, pg@));
        assert(specp == (push_period_spec(db2, pg@), None::<RowErrorView>));
    }
    None
}

/// Transforms a sequence of table rows into a course database, as
/// `spec_ingest` lays it down: lenient mode (`strict == false`) drops each
/// offending row with a diagnostic and always yields a database; strict
/// mode stops at the first offending row and yields its error alone.
pub fn parse_rows(rows: &Vec<Vec<String>>, strict: bool) -> (r: Result<
    (CourseDB, Vec<RowDiag>),
    RowError,
>)
    ensures
        r is Ok <==> spec_ingest(rows.deep_view(), strict) is Ok,
        r matches Ok(p) ==> spec_ingest(rows.deep_view(), strict) == Ok::<
            (Seq<CourseView>, Seq<RowDiagView>),
            RowErrorView,
        >((p.0@.courses, p.1.deep_view())),
        r matches Err(e) ==> spec_ingest(rows.deep_view(), strict) == Err::<
            (Seq<CourseView>, Seq<RowDiagView>),
            RowErrorView,
        >(e@),
        !strict ==> r is Ok,
{
    let ghost rv = rows.deep_view();
    let mut db = CourseDB { courses: Vec::new() };
    let mut diags: Vec<RowDiag> = Vec::new();
    let mut i: usize = 0;
    proof {
        assert(rv.take(0) =~= Seq::<Seq<Seq<char>>>::empty());
        assert(db@.courses =~= Seq::<CourseView>::empty());
        assert(diags.deep_view() =~= Seq::<RowDiagView>::empty());
    }
    while i < rows.len()
        invariant
            0 <= i <= rows.len(),
            rv == rows.deep_view(),
            spec_ingest(rv.take(i as int), strict) == Ok::<
                (Seq<CourseView>, Seq<RowDiagView>),
                RowErrorView,
            >((db@.courses, diags.deep_view())),
        decreases rows.len() - i,
    {
        let ghost pre = db@.courses;
        let ghost diags_pre = diags.deep_view();
        proof {
            assert(rv[i as int] == rows@[i as int].deep_view());
        }
        let step = ingest_row(&mut db, &rows[i]);
        proof {
            lemma_take_step(rv, i as int);
        }
        match step {
            None => {},
            Some(err) => {
                let ghost eg = err@;
                if strict {
                    proof {
                        assert(spec_ingest(rv.take(i + 1), strict) == Err::<
                            (Seq<CourseView>, Seq<RowDiagView>),
                            RowErrorView,
                        >(eg));
                        lemma_ingest_err_persists(rv, strict, i + 1);
                    }
                    return Err(err);
                } else {
                    let ghost dpre = diags;
                    let d = RowDiag { row: i, error: err };
                    let ghost dg = d;
                    diags.push(d);
                    proof {
                        lemma_push_deep_view(dpre, diags, dg);
                        assert(diags.deep_view() =~= diags_pre.push(
                            RowDiagView { row: i as int, error: eg },
                        ));
                    }
                }
            },
        }
        i = i + 1;
        proof {
            assert(spec_ingest(rv.take(i as int), strict) == Ok::<
                (Seq<CourseView>, Seq<RowDiagView>),
                RowErrorView,
            >((db@.courses, diags.deep_view())));
        }
    }
    proof {
        assert(rv.take(rows@.len() as int) =~= rv);
    }
    Ok((db, diags))
}

/// What the tabular extraction of an HTML listing yields: for each table
/// row of the fragment, the first text of each of its cells, in order.
pub uninterp spec fn table_rows_of(s: Seq<char>) -> Seq<Seq<Seq<char>>>;

/// Relies on scraper's `Html::parse_fragment` and CSS selection: the
/// input is parsed as an HTML fragment, and for each `tr` element the
/// first text node of each of its `td` descendants is taken, an empty
/// string where a cell has none. The result depends on the input text
/// alone; `table_rows_of` names it. The two selectors are fixed literals
/// that `Selector::parse` accepts, so the `unwrap` calls cannot fail.
#[verifier::external_body]
pub(crate) fn html_table_rows(input: &str) -> (rows: Vec<Vec<String>>)
    ensures
        rows.deep_view() == table_rows_of(input@),
{
    let html = scraper::Html::parse_fragment(input);
    let tr = scraper::Selector::parse("tr").unwrap();
    let td = scraper::Selector::parse("td").unwrap();
    html.select(&tr).map(
        |row| row.select(&td).map(|cell| cell.text().next().unwrap_or("").to_string()).collect(),
    ).collect()
}

/// The courses a lenient ingestion of a row sequence yields.
pub open spec fn spec_lenient_courses(rows: Seq<Seq<Seq<char>>>) -> Seq<CourseView> {
    match spec_ingest(rows, false) {
        Ok(p) => p.0,
        Err(_) => Seq::empty(),
    }
}

/// The database a lenient parse of an HTML listing yields: newlines are
/// struck from the input before the tabular extraction runs.
pub open spec fn spec_parse_html(input: Seq<char>) -> CourseDBView {
    CourseDBView {
        courses: spec_lenient_courses(table_rows_of(spec_replace(input, "\n"@, ""@))),
    }
}

/// The lenient HTML listing-table parser.
pub struct HtmlParser;

impl crate::parser::CourseDBParser for HtmlParser {
    open spec fn parsed_db(&self, input: Seq<char>) -> Option<CourseDBView> {
        Some(spec_parse_html(input))
    }

    fn parse(&self, input: &str) -> (r: Result<CourseDB, crate::parser::CourseDBParseError>) {
        proof {
            reveal_strlit("\n");
        }
        let stripped = crate::text::replace_all(input, "\n", "");
        let rows = html_table_rows(stripped.as_str());
        proof {
            lemma_ingest_lenient_ok(rows.deep_view());
        }
        match parse_rows(&rows, false) {
            Ok(p) => Ok(p.0),
            Err(_) => {
                proof {
                    assert(false);
                }
                Err(crate::parser::CourseDBParseError::Unparseable)
            },
        }
    }
}

} // verus!

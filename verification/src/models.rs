//! The value model (`TimeCode`, `Day`) and the schedule record model
//! (`CourseDB` / `Course` / `Section` / `Period`).
//!
//! `TimeCode` enforces the military-time invariant at construction; the
//! record structs are plain data built once by ingestion and then treated
//! as read-only by the query engine.

use vstd::prelude::*;

use crate::text::{all_digits, dec_val, parse_u16};

verus! {

/// Lowest accepted time code (7:00 in `HHMM` form).
pub const TIME_MIN: u16 = 700;

/// Highest accepted time code (23:50 in `HHMM` form).
pub const TIME_MAX: u16 = 2350;

/// The `TimeCode` invariant: `HHMM` military time within the accepted
/// window, with a well-formed minutes field.
pub open spec fn valid_time_code(t: u16) -> bool {
    TIME_MIN <= t && t <= TIME_MAX && t % 100 < 60
}

/// A validated 24-hour time, stored as its `HHMM` encoding
/// (for example 1:35 PM is 1335). The numeric order of the encoding agrees
/// with the order of the times of day, so comparisons go by the raw value.
#[derive(Copy, Clone, Debug, PartialEq, Eq, Structural)]
pub struct TimeCode {
    time: u16,
}

impl View for TimeCode {
    type V = u16;

    closed spec fn view(&self) -> u16 {
        self.time
    }
}

impl DeepView for TimeCode {
    type V = u16;

    open spec fn deep_view(&self) -> u16 {
        self.view()
    }
}

/// Why a numeric value was refused as a `TimeCode`.
#[derive(Copy, Clone, Eq, PartialEq, Debug, Structural)]
pub enum TimeCodeError {
    /// Outside the accepted `[TIME_MIN, TIME_MAX]` window.
    OutOfBounds,
    /// Minutes field of 60 or more.
    InvalidMinutes,
}

/// Whether a digit string denotes a number that passes the `TimeCode`
/// validation.
pub open spec fn time_code_parse_ok(s: Seq<char>) -> bool {
    &&& s.len() > 0
    &&& all_digits(s)
    &&& dec_val(s) <= u16::MAX
    &&& valid_time_code(dec_val(s) as u16)
}

/// The error kind `TimeCode::parse` reports for a rejected input.
pub open spec fn spec_time_code_parse_err(s: Seq<char>) -> TimeCodeParseErrorKind {
    if !(s.len() > 0 && all_digits(s) && dec_val(s) <= u16::MAX) {
        TimeCodeParseErrorKind::NotANumber
    } else if !(TIME_MIN <= dec_val(s) && dec_val(s) <= TIME_MAX) {
        TimeCodeParseErrorKind::InvalidTime(TimeCodeError::OutOfBounds)
    } else {
        TimeCodeParseErrorKind::InvalidTime(TimeCodeError::InvalidMinutes)
    }
}

impl TimeCode {
    /// The invariant every constructed `TimeCode` satisfies.
    pub open spec fn valid(&self) -> bool {
        valid_time_code(self@)
    }

    /// The raw `HHMM` value.
    pub fn time(&self) -> (t: u16)
        ensures
            t == self@,
    {
        self.time
    }

    /// Internal constructor, only for values already checked to satisfy
    /// the invariant.
    fn new_checked(time: u16) -> (r: TimeCode)
        requires
            valid_time_code(time),
        ensures
            r@ == time,
    {
        TimeCode { time }
    }

    /// Validates a raw `HHMM` value: accepted exactly when it lies in
    /// `[TIME_MIN, TIME_MAX]` and its minutes field is below 60.
    pub fn from_u16(value: u16) -> (r: Result<TimeCode, TimeCodeError>)
        ensures
            valid_time_code(value) <==> r is Ok,
            r matches Ok(t) ==> t@ == value && t.valid(),
            !(TIME_MIN <= value && value <= TIME_MAX) ==> r == Err::<TimeCode, TimeCodeError>(
                TimeCodeError::OutOfBounds,
            ),
            (TIME_MIN <= value && value <= TIME_MAX && value % 100 >= 60) ==> r == Err::<
                TimeCode,
                TimeCodeError,
            >(TimeCodeError::InvalidMinutes),
    {
        if TIME_MIN <= value && value <= TIME_MAX {
            if value % 100 < 60 {
                Ok(TimeCode::new_checked(value))
            } else {
                Err(TimeCodeError::InvalidMinutes)
            }
        } else {
            Err(TimeCodeError::OutOfBounds)
        }
    }

    /// The human-readable spelling of a time code: `H:MM`, the hour bare
    /// and the minutes padded to two digits.
    pub open spec fn rendered(&self) -> Seq<char> {
        crate::text::dec_str(self@ as int / 100) + ":"@ + (if self@ % 100 < 10 {
            "0"@
        } else {
            Seq::<char>::empty()
        }) + crate::text::dec_str(self@ as int % 100)
    }

    /// Renders the time for diagnostics, as `rendered` spells it.
    pub fn to_text(&self) -> (r: String)
        ensures
            r@ == self.rendered(),
    {
        let mut s = crate::text::u16_to_dec(self.time / 100);
        s.append(":");
        if self.time % 100 < 10 {
            s.append("0");
        } else {
            proof {
                assert(s@ + Seq::<char>::empty() =~= s@);
            }
        }
        s.append(crate::text::u16_to_dec(self.time % 100).as_str());
        s
    }

    /// Reads a decimal `HHMM` string and validates it. Accepts exactly the
    /// digit strings whose value lies in `[TIME_MIN, TIME_MAX]` with a
    /// minutes field below 60.
    pub fn parse(s: &str) -> (r: Result<TimeCode, TimeCodeParseError>)
        ensures
            r is Ok <==> time_code_parse_ok(s@),
            r matches Ok(t) ==> t@ == dec_val(s@) && t.valid(),
            r matches Err(e) ==> e@.input == s@ && e@.kind == spec_time_code_parse_err(s@),
    {
        match parse_u16(s) {
            None => Err(
                TimeCodeParseError::new(s.to_owned(), TimeCodeParseErrorKind::NotANumber),
            ),
            Some(num) => match TimeCode::from_u16(num) {
                Ok(t) => Ok(t),
                Err(e) => Err(
                    TimeCodeParseError::new(s.to_owned(), TimeCodeParseErrorKind::InvalidTime(e)),
                ),
            },
        }
    }
}

/// Mathematical content of a `TimeCodeParseError`: the offending input and
/// the reason it was rejected.
pub struct TimeCodeParseErrorView {
    pub input: Seq<char>,
    pub kind: TimeCodeParseErrorKind,
}

/// Error from `TimeCode::parse`, carrying the offending input text.
#[derive(Debug, Clone, PartialEq)]
pub struct TimeCodeParseError {
    input: String,
    kind: TimeCodeParseErrorKind,
}

impl View for TimeCodeParseError {
    type V = TimeCodeParseErrorView;

    closed spec fn view(&self) -> TimeCodeParseErrorView {
        TimeCodeParseErrorView { input: self.input@, kind: self.kind }
    }
}

impl TimeCodeParseError {
    pub fn new(input: String, kind: TimeCodeParseErrorKind) -> (r: TimeCodeParseError)
        ensures
            r@.input == input@,
            r@.kind == kind,
    {
        TimeCodeParseError { input, kind }
    }

    /// The reason the input was rejected.
    pub fn kind(&self) -> (r: &TimeCodeParseErrorKind)
        ensures
            *r == self@.kind,
    {
        &self.kind
    }

    /// The rejected input text.
    pub fn input(&self) -> (r: &str)
        ensures
            r@ == self@.input,
    {
        self.input.as_str()
    }
}

/// Why a time-code string was rejected: it did not denote an unsigned
/// number at all, or it denoted one that fails the `TimeCode` invariant.
#[derive(Debug, Copy, Clone, Eq, PartialEq, Structural)]
pub enum TimeCodeParseErrorKind {
    InvalidTime(TimeCodeError),
    NotANumber,
}

/// A weekday, the only days on which periods are scheduled.
#[derive(Copy, Clone, Debug, PartialEq, Eq, Structural)]
pub enum Day {
    Monday,
    Tuesday,
    Wednesday,
    Thursday,
    Friday,
}

impl DeepView for Day {
    type V = Day;

    open spec fn deep_view(&self) -> Day {
        *self
    }
}

/// The day denoted by one character, under the two accepted spellings:
/// Monday-indexed digits `0`..`4` and letters `M`, `T`, `W`, `R`, `F`.
pub open spec fn day_of_char(c: char) -> Option<Day> {
    if c == '0' || c == 'M' {
        Some(Day::Monday)
    } else if c == '1' || c == 'T' {
        Some(Day::Tuesday)
    } else if c == '2' || c == 'W' {
        Some(Day::Wednesday)
    } else if c == '3' || c == 'R' {
        Some(Day::Thursday)
    } else if c == '4' || c == 'F' {
        Some(Day::Friday)
    } else {
        None
    }
}

/// The day denoted by a whole string: exactly the ten one-character
/// spellings are accepted.
pub open spec fn spec_parse_day(s: Seq<char>) -> Option<Day> {
    if s.len() == 1 {
        day_of_char(s[0])
    } else {
        None
    }
}

/// Error from `Day::parse`, carrying the offending input text.
#[derive(Debug, Clone, PartialEq)]
pub struct DayParseError(String);

impl View for DayParseError {
    type V = Seq<char>;

    closed spec fn view(&self) -> Seq<char> {
        self.0@
    }
}

impl DayParseError {
    /// The rejected input text.
    pub fn input(&self) -> (r: &str)
        ensures
            r@ == self@,
    {
        self.0.as_str()
    }
}

impl Day {
    /// Maps one character to its day under `day_of_char`.
    pub fn from_char(c: char) -> (r: Option<Day>)
        ensures
            r == day_of_char(c),
    {
        if c == '0' || c == 'M' {
            Some(Day::Monday)
        } else if c == '1' || c == 'T' {
            Some(Day::Tuesday)
        } else if c == '2' || c == 'W' {
            Some(Day::Wednesday)
        } else if c == '3' || c == 'R' {
            Some(Day::Thursday)
        } else if c == '4' || c == 'F' {
            Some(Day::Friday)
        } else {
            None
        }
    }

    /// Parses a day name: accepts exactly the single digits `0`..`4`
    /// (Monday-indexed) and the single letters `M`, `T`, `W`, `R`, `F`;
    /// any other input is an error carrying the offending text.
    pub fn parse(s: &str) -> (r: Result<Day, DayParseError>)
        ensures
            r is Ok <==> spec_parse_day(s@) is Some,
            r matches Ok(d) ==> spec_parse_day(s@) == Some(d),
            r matches Err(e) ==> e@ == s@,
    {
        let n = s.unicode_len();
        if n == 1 {
            match Day::from_char(s.get_char(0)) {
                Some(d) => Ok(d),
                None => Err(DayParseError(s.to_owned())),
            }
        } else {
            Err(DayParseError(s.to_owned()))
        }
    }
}

/// Mathematical content of a `PeriodType`.
pub enum PeriodTypeView {
    Lecture,
    Recitation,
    Lab,
    Test,
    Other(Seq<char>),
}

/// The kind of meeting a period is: lecture, recitation, lab, test, or
/// any other designation, kept verbatim.
#[derive(Debug, PartialEq)]
pub enum PeriodType {
    Lecture,
    Recitation,
    Lab,
    Test,
    Other(String),
}

impl View for PeriodType {
    type V = PeriodTypeView;

    open spec fn view(&self) -> PeriodTypeView {
        match self {
            PeriodType::Lecture => PeriodTypeView::Lecture,
            PeriodType::Recitation => PeriodTypeView::Recitation,
            PeriodType::Lab => PeriodTypeView::Lab,
            PeriodType::Test => PeriodTypeView::Test,
            PeriodType::Other(s) => PeriodTypeView::Other(s@),
        }
    }
}

impl DeepView for PeriodType {
    type V = PeriodTypeView;

    open spec fn deep_view(&self) -> PeriodTypeView {
        self.view()
    }
}

impl Clone for PeriodType {
    fn clone(&self) -> (res: Self)
        ensures
            res@ == self@,
    {
        match self {
            PeriodType::Lecture => PeriodType::Lecture,
            PeriodType::Recitation => PeriodType::Recitation,
            PeriodType::Lab => PeriodType::Lab,
            PeriodType::Test => PeriodType::Test,
            PeriodType::Other(s) => PeriodType::Other(s.clone()),
        }
    }
}

/// The period type a designation code denotes: the three-letter codes of
/// the source map to the named kinds, anything else is kept verbatim.
pub open spec fn spec_parse_period_type(s: Seq<char>) -> PeriodTypeView {
    if s == "LEC"@ {
        PeriodTypeView::Lecture
    } else if s == "REC"@ {
        PeriodTypeView::Recitation
    } else if s == "LAB"@ {
        PeriodTypeView::Lab
    } else if s == "TST"@ {
        PeriodTypeView::Test
    } else {
        PeriodTypeView::Other(s)
    }
}

impl PeriodType {
    /// Reads a period-type designation code.
    pub fn parse(s: &str) -> (r: PeriodType)
        ensures
            r@ == spec_parse_period_type(s@),
    {
        if crate::text::str_eq(s, "LEC") {
            PeriodType::Lecture
        } else if crate::text::str_eq(s, "REC") {
            PeriodType::Recitation
        } else if crate::text::str_eq(s, "LAB") {
            PeriodType::Lab
        } else if crate::text::str_eq(s, "TST") {
            PeriodType::Test
        } else {
            PeriodType::Other(s.to_owned())
        }
    }
}

/// Mathematical content of a `Period`.
pub struct PeriodView {
    pub time_start: u16,
    pub time_end: u16,
    pub instructor: Seq<char>,
    pub days: Seq<Day>,
    pub location: Option<Seq<char>>,
    pub period_type: Option<PeriodTypeView>,
}

/// One recurring weekly meeting block of a section: a time range, the days
/// it recurs on, and optionally a room, an instructor, and a meeting kind.
#[derive(Debug, PartialEq)]
pub struct Period {
    /// Start of the meeting, inclusive.
    pub time_start: TimeCode,
    /// End of the meeting, inclusive.
    pub time_end: TimeCode,
    /// Primary instructor, normalized text; empty when unknown.
    pub instructor: String,
    /// The days of the week the meeting recurs on.
    pub days: Vec<Day>,
    /// The room, when one is assigned.
    pub location: Option<String>,
    /// The kind of meeting, when known.
    pub period_type: Option<PeriodType>,
}

impl View for Period {
    type V = PeriodView;

    open spec fn view(&self) -> PeriodView {
        PeriodView {
            time_start: self.time_start@,
            time_end: self.time_end@,
            instructor: self.instructor@,
            days: self.days.deep_view(),
            location: self.location.deep_view(),
            period_type: self.period_type.deep_view(),
        }
    }
}

impl DeepView for Period {
    type V = PeriodView;

    open spec fn deep_view(&self) -> PeriodView {
        self.view()
    }
}

impl Clone for Period {
    fn clone(&self) -> (res: Self)
        ensures
            res@ == self@,
    {
        let res = Period {
            time_start: self.time_start,
            time_end: self.time_end,
            instructor: self.instructor.clone(),
            days: self.days.clone(),
            location: clone_opt_string(&self.location),
            period_type: clone_opt_period_type(&self.period_type),
        };
        proof {
            assert(res.days.deep_view() =~= self.days.deep_view());
        }
        res
    }
}

/// Duplicates an optional room name, preserving its content.
fn clone_opt_string(s: &Option<String>) -> (res: Option<String>)
    ensures
        res.deep_view() == s.deep_view(),
{
    match s {
        Some(v) => Some(v.clone()),
        None => None,
    }
}

/// Duplicates an optional period type, preserving its content.
fn clone_opt_period_type(s: &Option<PeriodType>) -> (res: Option<PeriodType>)
    ensures
        res.deep_view() == s.deep_view(),
{
    match s {
        Some(v) => Some(v.clone()),
        None => None,
    }
}

/// Mathematical content of a `Section`.
pub struct SectionView {
    pub crn: u32,
    pub num: u8,
    pub periods: Seq<PeriodView>,
    pub notes: Seq<Seq<char>>,
}

/// One offered section of a course: its registration number, per-course
/// index, meeting periods, and free-text notes.
#[derive(Debug, PartialEq)]
pub struct Section {
    /// Course registration number, unique within one ingested record.
    pub crn: u32,
    /// The index of the section within its course.
    pub num: u8,
    /// The periods the section meets.
    pub periods: Vec<Period>,
    /// Notes applying to this section.
    pub notes: Vec<String>,
}

impl View for Section {
    type V = SectionView;

    open spec fn view(&self) -> SectionView {
        SectionView {
            crn: self.crn,
            num: self.num,
            periods: self.periods.deep_view(),
            notes: self.notes.deep_view(),
        }
    }
}

impl DeepView for Section {
    type V = SectionView;

    open spec fn deep_view(&self) -> SectionView {
        self.view()
    }
}

impl Clone for Section {
    fn clone(&self) -> (res: Self)
        ensures
            res@ == self@,
    {
        let res = Section {
            crn: self.crn,
            num: self.num,
            periods: clone_periods(&self.periods),
            notes: clone_strings(&self.notes),
        };
        res
    }
}

/// Pushing onto a `Vec` appends the element's deep view to the `Vec`'s
/// deep view.
pub proof fn lemma_push_deep_view<T: DeepView>(pre: Vec<T>, post: Vec<T>, x: T)
    requires
        post@ == pre@.push(x),
    ensures
        post.deep_view() =~= pre.deep_view().push(x.deep_view()),
{
    assert forall|j: int| 0 <= j < post.deep_view().len() implies post.deep_view()[j]
        == pre.deep_view().push(x.deep_view())[j] by {
        if j < pre@.len() {
            assert(post@[j] == pre@[j]);
            assert(pre.deep_view()[j] == pre@[j].deep_view());
        } else {
            assert(post@[j] == x);
        }
    }
}

/// Stepping a prefix: taking one more element splits off exactly that
/// element.
pub proof fn lemma_take_step<A>(s: Seq<A>, i: int)
    requires
        0 <= i < s.len(),
    ensures
        s.take(i + 1).drop_last() =~= s.take(i),
        s.take(i + 1).last() == s[i],
{
}

/// Popping from a `Vec` drops the last element of its deep view.
pub proof fn lemma_pop_deep_view<T: DeepView>(pre: Vec<T>, post: Vec<T>)
    requires
        pre@.len() > 0,
        post@ == pre@.subrange(0, pre@.len() - 1),
    ensures
        post.deep_view() =~= pre.deep_view().drop_last(),
        pre.deep_view().len() > 0,
    {
    assert forall|j: int| 0 <= j < post.deep_view().len() implies post.deep_view()[j]
        == pre.deep_view().drop_last()[j] by {
        assert(post@[j] == pre@[j]);
        assert(pre.deep_view()[j] == pre@[j].deep_view());
    }
}

/// Duplicates a period list, preserving its content.
fn clone_periods(v: &Vec<Period>) -> (res: Vec<Period>)
    ensures
        res.deep_view() == v.deep_view(),
{
    let mut res: Vec<Period> = Vec::new();
    let mut i: usize = 0;
    while i < v.len()
        invariant
            0 <= i <= v.len(),
            res.deep_view() =~= v.deep_view().take(i as int),
        decreases v.len() - i,
    {
        let ghost res0 = res;
        let x = v[i].clone();
        let ghost xg = x;
        res.push(x);
        i = i + 1;
        proof {
            lemma_push_deep_view(res0, res, xg);
            assert(v.deep_view()[i - 1] == v@[i - 1].deep_view());
            assert(res.deep_view() =~= v.deep_view().take(i as int));
        }
    }
    proof {
        assert(v.deep_view().take(v.len() as int) =~= v.deep_view());
    }
    res
}

/// Duplicates a list of strings, preserving its content.
fn clone_strings(v: &Vec<String>) -> (res: Vec<String>)
    ensures
        res.deep_view() == v.deep_view(),
{
    let mut res: Vec<String> = Vec::new();
    let mut i: usize = 0;
    while i < v.len()
        invariant
            0 <= i <= v.len(),
            res.deep_view() =~= v.deep_view().take(i as int),
        decreases v.len() - i,
    {
        let ghost res0 = res;
        let x = v[i].clone();
        let ghost xg = x;
        res.push(x);
        i = i + 1;
        proof {
            lemma_push_deep_view(res0, res, xg);
            assert(v.deep_view()[i - 1] == v@[i - 1].deep_view());
            assert(res.deep_view() =~= v.deep_view().take(i as int));
        }
    }
    proof {
        assert(v.deep_view().take(v.len() as int) =~= v.deep_view());
    }
    res
}

/// Mathematical content of a `Course`.
pub struct CourseView {
    pub name: Seq<char>,
    pub dept: Seq<char>,
    pub num: u16,
    pub sections: Seq<SectionView>,
}

/// One course of the catalog: its title, department code, catalog number,
/// and offered sections.
#[derive(Debug, PartialEq)]
pub struct Course {
    /// The course name / title.
    pub name: String,
    /// The department the course belongs to.
    pub dept: String,
    /// The catalog number of the course.
    pub num: u16,
    /// The sections this course offers.
    pub sections: Vec<Section>,
}

impl View for Course {
    type V = CourseView;

    open spec fn view(&self) -> CourseView {
        CourseView {
            name: self.name@,
            dept: self.dept@,
            num: self.num,
            sections: self.sections.deep_view(),
        }
    }
}

impl DeepView for Course {
    type V = CourseView;

    open spec fn deep_view(&self) -> CourseView {
        self.view()
    }
}

impl Clone for Course {
    fn clone(&self) -> (res: Self)
        ensures
            res@ == self@,
    {
        Course {
            name: self.name.clone(),
            dept: self.dept.clone(),
            num: self.num,
            sections: clone_sections(&self.sections),
        }
    }
}

/// Duplicates a section list, preserving its content.
fn clone_sections(v: &Vec<Section>) -> (res: Vec<Section>)
    ensures
        res.deep_view() == v.deep_view(),
{
    let mut res: Vec<Section> = Vec::new();
    let mut i: usize = 0;
    while i < v.len()
        invariant
            0 <= i <= v.len(),
            res.deep_view() =~= v.deep_view().take(i as int),
        decreases v.len() - i,
    {
        let ghost res0 = res;
        let x = v[i].clone();
        let ghost xg = x;
        res.push(x);
        i = i + 1;
        proof {
            lemma_push_deep_view(res0, res, xg);
            assert(v.deep_view()[i - 1] == v@[i - 1].deep_view());
            assert(res.deep_view() =~= v.deep_view().take(i as int));
        }
    }
    proof {
        assert(v.deep_view().take(v.len() as int) =~= v.deep_view());
    }
    res
}

/// Mathematical content of a `CourseDB`.
pub struct CourseDBView {
    pub courses: Seq<CourseView>,
}

/// A database of courses: the root of the schedule record, built once by
/// ingestion and then only read.
#[derive(Debug, PartialEq)]
pub struct CourseDB {
    /// The courses in the database.
    pub courses: Vec<Course>,
}

impl View for CourseDB {
    type V = CourseDBView;

    open spec fn view(&self) -> CourseDBView {
        CourseDBView { courses: self.courses.deep_view() }
    }
}

impl DeepView for CourseDB {
    type V = CourseDBView;

    open spec fn deep_view(&self) -> CourseDBView {
        self.view()
    }
}

impl Clone for CourseDB {
    fn clone(&self) -> (res: Self)
        ensures
            res@ == self@,
    {
        let mut courses: Vec<Course> = Vec::new();
        let mut i: usize = 0;
        while i < self.courses.len()
            invariant
                0 <= i <= self.courses.len(),
                courses.deep_view() =~= self.courses.deep_view().take(i as int),
            decreases self.courses.len() - i,
        {
            let ghost courses0 = courses;
            let x = self.courses[i].clone();
            let ghost xg = x;
            courses.push(x);
            i = i + 1;
            proof {
                lemma_push_deep_view(courses0, courses, xg);
                assert(self.courses.deep_view()[i - 1] == self.courses@[i - 1].deep_view());
                assert(courses.deep_view() =~= self.courses.deep_view().take(i as int));
            }
        }
        proof {
            assert(self.courses.deep_view().take(self.courses.len() as int)
                =~= self.courses.deep_view());
        }
        CourseDB { courses }
    }
}

} // verus!

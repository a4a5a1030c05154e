//! Ingestion of an XML schedule dump: the document arrives as a flat,
//! depth-annotated list of elements from one trusted wrapper over
//! `roxmltree`, and a verified pass reconstructs the same nested
//! `CourseDB` the tabular path builds, under the same strict/lenient
//! policy.
//!
//! The expected shape is `COURSE` elements (attributes `name`, `dept`,
//! `num`) holding `SECTION` elements (`crn`, `num`) holding `PERIOD`
//! elements (`start`, `end`, optional `location`, `type` and
//! `instructor`) with `DAY` children, beside `NOTE` children of the
//! sections. Anything else is a stray subtree and is passed over.

use vstd::prelude::*;

use crate::models::{
    Course, CourseDB, CourseView, Day, Period, PeriodType, PeriodView, Section, SectionView,
    spec_parse_day, spec_parse_period_type, valid_time_code,
};
use crate::models::{lemma_pop_deep_view, lemma_push_deep_view};
use crate::parser::htmlparser::{push_period_spec, push_section_spec};
use crate::text::{all_digits, dec_val};

verus! {

/// Why a node of the document could not be taken in.
#[derive(Debug, Copy, Clone, PartialEq, Eq, Structural)]
pub enum CourseDBError {
    /// A numeric field does not read as the number it should be.
    ParsingNum,
    /// A required attribute or text is absent or ill-formed.
    MissingValue,
    /// The input is no well-formed XML document at all.
    MalformedDocument,
}

/// One attribute of an element: its name and its value.
#[derive(Debug, Clone, PartialEq)]
pub struct XmlAttr {
    pub name: String,
    pub value: String,
}

impl View for XmlAttr {
    type V = (Seq<char>, Seq<char>);

    open spec fn view(&self) -> (Seq<char>, Seq<char>) {
        (self.name@, self.value@)
    }
}

impl DeepView for XmlAttr {
    type V = (Seq<char>, Seq<char>);

    open spec fn deep_view(&self) -> (Seq<char>, Seq<char>) {
        self.view()
    }
}

/// Mathematical content of a `FlatXmlNode`.
pub struct FlatXmlNodeView {
    pub depth: int,
    pub tag: Seq<char>,
    pub attrs: Seq<(Seq<char>, Seq<char>)>,
    pub text: Option<Seq<char>>,
}

/// One element of the document, as the flat extraction delivers it: its
/// nesting depth, tag name, attributes, and first text child, in document
/// order.
#[derive(Debug, Clone, PartialEq)]
pub struct FlatXmlNode {
    /// Nesting depth; children carry the parent's depth plus one.
    pub depth: usize,
    /// The element's tag name.
    pub tag: String,
    /// The element's attributes, in document order.
    pub attrs: Vec<XmlAttr>,
    /// The element's first text child, when it has one.
    pub text: Option<String>,
}

impl View for FlatXmlNode {
    type V = FlatXmlNodeView;

    open spec fn view(&self) -> FlatXmlNodeView {
        FlatXmlNodeView {
            depth: self.depth as int,
            tag: self.tag@,
            attrs: self.attrs.deep_view(),
            text: self.text.deep_view(),
        }
    }
}

impl DeepView for FlatXmlNode {
    type V = FlatXmlNodeView;

    open spec fn deep_view(&self) -> FlatXmlNodeView {
        self.view()
    }
}

/// The value of the first attribute named `name`, as `roxmltree` answers
/// an attribute lookup.
pub open spec fn attr_of(attrs: Seq<(Seq<char>, Seq<char>)>, name: Seq<char>) -> Option<Seq<char>>
    decreases attrs.len(),
{
    if attrs.len() == 0 {
        None
    } else if attrs[0].0 == name {
        Some(attrs[0].1)
    } else {
        attr_of(attrs.drop_first(), name)
    }
}

/// Looks up an attribute by name.
fn attr_value(attrs: &Vec<XmlAttr>, name: &str) -> (r: Option<String>)
    ensures
        r.deep_view() == attr_of(attrs.deep_view(), name@),
{
    let mut i: usize = 0;
    proof {
        assert(attrs.deep_view().skip(0) =~= attrs.deep_view());
    }
    while i < attrs.len()
        invariant
            0 <= i <= attrs.len(),
            attr_of(attrs.deep_view(), name@) == attr_of(
                attrs.deep_view().skip(i as int),
                name@,
            ),
        decreases attrs.len() - i,
    {
        proof {
            let tail = attrs.deep_view().skip(i as int);
            assert(tail[0] == attrs.deep_view()[i as int]);
            assert(attrs.deep_view()[i as int] == attrs@[i as int].deep_view());
            assert(tail.drop_first() =~= attrs.deep_view().skip(i + 1));
        }
        if crate::text::str_eq(attrs[i].name.as_str(), name) {
            return Some(attrs[i].value.clone());
        }
        i = i + 1;
    }
    proof {
        assert(attrs.deep_view().skip(attrs@.len() as int) =~= Seq::<(Seq<char>, Seq<char>)>::empty());
    }
    None
}

/// What the attributes of a `COURSE` element denote: required `name` and
/// `dept` texts and a required `num` that reads as a `u16`.
pub open spec fn spec_parse_course(attrs: Seq<(Seq<char>, Seq<char>)>) -> Result<
    CourseView,
    CourseDBError,
> {
    match attr_of(attrs, "name"@) {
        None => Err(CourseDBError::MissingValue),
        Some(name) => match attr_of(attrs, "dept"@) {
            None => Err(CourseDBError::MissingValue),
            Some(dept) => match attr_of(attrs, "num"@) {
                None => Err(CourseDBError::MissingValue),
                Some(numt) => if !(numt.len() > 0 && all_digits(numt) && dec_val(numt)
                    <= u16::MAX) {
                    Err(CourseDBError::ParsingNum)
                } else {
                    Ok(
                        CourseView {
                            name,
                            dept,
                            num: dec_val(numt) as u16,
                            sections: Seq::empty(),
                        },
                    )
                },
            },
        },
    }
}

/// Reads a `COURSE` element's attributes into an empty course.
fn parse_course(attrs: &Vec<XmlAttr>) -> (r: Result<Course, CourseDBError>)
    ensures
        r is Ok <==> spec_parse_course(attrs.deep_view()) is Ok,
        r matches Ok(c) ==> spec_parse_course(attrs.deep_view()) == Ok::<CourseView, CourseDBError>(
            c@,
        ),
        r matches Err(e) ==> spec_parse_course(attrs.deep_view()) == Err::<
            CourseView,
            CourseDBError,
        >(e),
{
    let name = match attr_value(attrs, "name") {
        None => {
            return Err(CourseDBError::MissingValue);
        },
        Some(v) => v,
    };
    let dept = match attr_value(attrs, "dept") {
        None => {
            return Err(CourseDBError::MissingValue);
        },
        Some(v) => v,
    };
    let numt = match attr_value(attrs, "num") {
        None => {
            return Err(CourseDBError::MissingValue);
        },
        Some(v) => v,
    };
    let num = match crate::text::parse_u16(numt.as_str()) {
        None => {
            return Err(CourseDBError::ParsingNum);
        },
        Some(v) => v,
    };
    let c = Course { name, dept, num, sections: Vec::new() };
    proof {
        assert(c.sections.deep_view() =~= Seq::<SectionView>::empty());
    }
    Ok(c)
}

/// What the attributes of a `SECTION` element denote: a required `crn`
/// that reads as a `u32` and a required `num` that reads as a `u8`.
pub open spec fn spec_parse_section(attrs: Seq<(Seq<char>, Seq<char>)>) -> Result<
    SectionView,
    CourseDBError,
> {
    match attr_of(attrs, "crn"@) {
        None => Err(CourseDBError::MissingValue),
        Some(crnt) => if !(crnt.len() > 0 && all_digits(crnt) && dec_val(crnt) <= u32::MAX) {
            Err(CourseDBError::ParsingNum)
        } else {
            match attr_of(attrs, "num"@) {
                None => Err(CourseDBError::MissingValue),
                Some(numt) => if !(numt.len() > 0 && all_digits(numt) && dec_val(numt)
                    <= u8::MAX) {
                    Err(CourseDBError::ParsingNum)
                } else {
                    Ok(
                        SectionView {
                            crn: dec_val(crnt) as u32,
                            num: dec_val(numt) as u8,
                            periods: Seq::empty(),
                            notes: Seq::empty(),
                        },
                    )
                },
            }
        },
    }
}

/// Reads a `SECTION` element's attributes into an empty section.
fn parse_section(attrs: &Vec<XmlAttr>) -> (r: Result<Section, CourseDBError>)
    ensures
        r is Ok <==> spec_parse_section(attrs.deep_view()) is Ok,
        r matches Ok(s) ==> spec_parse_section(attrs.deep_view()) == Ok::<
            SectionView,
            CourseDBError,
        >(s@),
        r matches Err(e) ==> spec_parse_section(attrs.deep_view()) == Err::<
            SectionView,
            CourseDBError,
        >(e),
{
    let crnt = match attr_value(attrs, "crn") {
        None => {
            return Err(CourseDBError::MissingValue);
        },
        Some(v) => v,
    };
    let crn = match crate::text::parse_u32(crnt.as_str()) {
        None => {
            return Err(CourseDBError::ParsingNum);
        },
        Some(v) => v,
    };
    let numt = match attr_value(attrs, "num") {
        None => {
            return Err(CourseDBError::MissingValue);
        },
        Some(v) => v,
    };
    let num = match crate::text::parse_u8(numt.as_str()) {
        None => {
            return Err(CourseDBError::ParsingNum);
        },
        Some(v) => v,
    };
    let s = Section { crn, num, periods: Vec::new(), notes: Vec::new() };
    proof {
        assert(s.periods.deep_view() =~= Seq::<PeriodView>::empty());
        assert(s.notes.deep_view() =~= Seq::<Seq<char>>::empty());
    }
    Ok(s)
}

/// Whether a time attribute passes the digits-only screen and then the
/// `TimeCode` validation.
pub open spec fn xml_time_ok(t: Seq<char>) -> bool {
    &&& t.len() > 0
    &&& all_digits(t)
    &&& dec_val(t) <= u16::MAX
    &&& valid_time_code(dec_val(t) as u16)
}

/// What the attributes of a `PERIOD` element denote: required `start` and
/// `end` times (digits only, then validated as time codes), and optional
/// `instructor`, `location` and `type`; an absent instructor is empty
/// text. The period's days arrive afterwards as `DAY` children.
pub open spec fn spec_parse_period(attrs: Seq<(Seq<char>, Seq<char>)>) -> Result<
    PeriodView,
    CourseDBError,
> {
    match attr_of(attrs, "start"@) {
        None => Err(CourseDBError::MissingValue),
        Some(st) => match attr_of(attrs, "end"@) {
            None => Err(CourseDBError::MissingValue),
            Some(en) => if !(st.len() > 0 && all_digits(st)) || !(en.len() > 0 && all_digits(en)) {
                Err(CourseDBError::MissingValue)
            } else if !xml_time_ok(st) || !xml_time_ok(en) {
                Err(CourseDBError::ParsingNum)
            } else {
                Ok(
                    PeriodView {
                        time_start: dec_val(st) as u16,
                        time_end: dec_val(en) as u16,
                        instructor: match attr_of(attrs, "instructor"@) {
                            None => Seq::empty(),
                            Some(inst) => inst,
                        },
                        days: Seq::empty(),
                        location: attr_of(attrs, "location"@),
                        period_type: match attr_of(attrs, "type"@) {
                            None => None,
                            Some(t) => Some(spec_parse_period_type(t)),
                        },
                    },
                )
            },
        },
    }
}

/// Reads a `PERIOD` element's attributes into a period with no days yet.
fn parse_period(attrs: &Vec<XmlAttr>) -> (r: Result<Period, CourseDBError>)
    ensures
        r is Ok <==> spec_parse_period(attrs.deep_view()) is Ok,
        r matches Ok(p) ==> spec_parse_period(attrs.deep_view()) == Ok::<PeriodView, CourseDBError>(
            p@,
        ),
        r matches Err(e) ==> spec_parse_period(attrs.deep_view()) == Err::<
            PeriodView,
            CourseDBError,
        >(e),
{
    let st = match attr_value(attrs, "start") {
        None => {
            return Err(CourseDBError::MissingValue);
        },
        Some(v) => v,
    };
    let en = match attr_value(attrs, "end") {
        None => {
            return Err(CourseDBError::MissingValue);
        },
        Some(v) => v,
    };
    if !all_digits_str(st.as_str()) || !all_digits_str(en.as_str()) {
        return Err(CourseDBError::MissingValue);
    }
    let time_start = match crate::text::parse_u16(st.as_str()) {
        None => {
            return Err(CourseDBError::ParsingNum);
        },
        Some(v) => match crate::models::TimeCode::from_u16(v) {
            Err(_) => {
                return Err(CourseDBError::ParsingNum);
            },
            Ok(t) => t,
        },
    };
    let time_end = match crate::text::parse_u16(en.as_str()) {
        None => {
            return Err(CourseDBError::ParsingNum);
        },
        Some(v) => match crate::models::TimeCode::from_u16(v) {
            Err(_) => {
                return Err(CourseDBError::ParsingNum);
            },
            Ok(t) => t,
        },
    };
    let instructor = match attr_value(attrs, "instructor") {
        None => String::new(),
        Some(v) => v,
    };
    let location = attr_value(attrs, "location");
    let period_type = match attr_value(attrs, "type") {
        None => None,
        Some(t) => Some(PeriodType::parse(t.as_str())),
    };
    let p = Period {
        time_start,
        time_end,
        instructor,
        days: Vec::new(),
        location,
        period_type,
    };
    proof {
        assert(p.days.deep_view() =~= Seq::<Day>::empty());
    }
    Ok(p)
}

/// Whether every character of `s` is a decimal digit and `s` is not
/// empty, the screen the time attributes pass first.
fn all_digits_str(s: &str) -> (r: bool)
    ensures
        r == (s@.len() > 0 && all_digits(s@)),
{
    let n = s.unicode_len();
    if n == 0 {
        return false;
    }
    let mut i: usize = 0;
    while i < n
        invariant
            0 <= i <= n,
            n == s@.len(),
            all_digits(s@.take(i as int)),
        decreases n - i,
    {
        let cv = s.get_char(i) as u32;
        if cv < 48 || cv > 57 {
            proof {
                assert(!crate::text::is_digit_char(s@[i as int]));
            }
            return false;
        }
        proof {
            assert(s@.take(i + 1 as int).drop_last() =~= s@.take(i as int));
            assert(s@.take(i + 1 as int).last() == s@[i as int]);
        }
        i = i + 1;
    }
    proof {
        assert(s@.take(n as int) =~= s@);
    }
    true
}

/// What the text of a `DAY` element denotes: a required text that reads
/// as a day name.
pub open spec fn spec_parse_xml_day(text: Option<Seq<char>>) -> Result<Day, CourseDBError> {
    match text {
        None => Err(CourseDBError::MissingValue),
        Some(t) => match spec_parse_day(t) {
            None => Err(CourseDBError::ParsingNum),
            Some(d) => Ok(d),
        },
    }
}

/// Reads a `DAY` element's text.
fn parse_day(text: &Option<String>) -> (r: Result<Day, CourseDBError>)
    ensures
        r is Ok <==> spec_parse_xml_day(text.deep_view()) is Ok,
        r matches Ok(d) ==> spec_parse_xml_day(text.deep_view()) == Ok::<Day, CourseDBError>(d),
        r matches Err(e) ==> spec_parse_xml_day(text.deep_view()) == Err::<Day, CourseDBError>(e),
{
    match text {
        None => Err(CourseDBError::MissingValue),
        Some(t) => match Day::parse(t.as_str()) {
            Err(_) => Err(CourseDBError::ParsingNum),
            Ok(d) => Ok(d),
        },
    }
}

/// What the text of a `NOTE` element denotes: its required text, verbatim.
pub open spec fn spec_parse_note(text: Option<Seq<char>>) -> Result<Seq<char>, CourseDBError> {
    match text {
        None => Err(CourseDBError::MissingValue),
        Some(t) => Ok(t),
    }
}

/// Reads a `NOTE` element's text.
fn parse_note(text: &Option<String>) -> (r: Result<String, CourseDBError>)
    ensures
        r is Ok <==> spec_parse_note(text.deep_view()) is Ok,
        r matches Ok(s) ==> spec_parse_note(text.deep_view()) == Ok::<Seq<char>, CourseDBError>(s@),
        r matches Err(e) ==> spec_parse_note(text.deep_view()) == Err::<Seq<char>, CourseDBError>(
            e,
        ),
{
    match text {
        None => Err(CourseDBError::MissingValue),
        Some(t) => Ok(t.clone()),
    }
}

/// Appends a note to the section built last of the course built last.
pub open spec fn push_note_spec(db: Seq<CourseView>, note: Seq<char>) -> Seq<CourseView>
    recommends
        db.len() > 0,
        db.last().sections.len() > 0,
{
    let c = db.last();
    let sec = c.sections.last();
    db.update(
        db.len() - 1,
        CourseView {
            name: c.name,
            dept: c.dept,
            num: c.num,
            sections: c.sections.update(
                c.sections.len() - 1,
                SectionView {
                    crn: sec.crn,
                    num: sec.num,
                    periods: sec.periods,
                    notes: sec.notes.push(note),
                },
            ),
        },
    )
}

/// Appends a day to the period built last of the section built last of
/// the course built last.
pub open spec fn push_day_spec(db: Seq<CourseView>, d: Day) -> Seq<CourseView>
    recommends
        db.len() > 0,
        db.last().sections.len() > 0,
        db.last().sections.last().periods.len() > 0,
{
    let c = db.last();
    let sec = c.sections.last();
    let per = sec.periods.last();
    db.update(
        db.len() - 1,
        CourseView {
            name: c.name,
            dept: c.dept,
            num: c.num,
            sections: c.sections.update(
                c.sections.len() - 1,
                SectionView {
                    crn: sec.crn,
                    num: sec.num,
                    periods: sec.periods.update(
                        sec.periods.len() - 1,
                        PeriodView {
                            time_start: per.time_start,
                            time_end: per.time_end,
                            instructor: per.instructor,
                            days: per.days.push(d),
                            location: per.location,
                            period_type: per.period_type,
                        },
                    ),
                    notes: sec.notes,
                },
            ),
        },
    )
}

/// The mathematical value of the subtree-skip marker.
pub open spec fn skip_view(s: Option<usize>) -> Option<int> {
    match s {
        None => None,
        Some(d) => Some(d as int),
    }
}

/// What one element does to the database built so far: the returned
/// triple is the new database, the new subtree-skip marker, and the error
/// the element raised, if any. `base` is the root element's depth; the
/// four levels below it are course, section, period-or-note, and day.
/// An element inside a skipped subtree, a stray tag, and a stray depth
/// all leave the database alone; a failed element drops its whole
/// subtree.
pub open spec fn spec_xml_step(
    courses: Seq<CourseView>,
    skip: Option<int>,
    node: FlatXmlNodeView,
    base: int,
) -> (Seq<CourseView>, Option<int>, Option<CourseDBError>) {
    if skip matches Some(dd) && node.depth > dd {
        (courses, skip, None)
    } else if node.depth == base + 1 {
        if node.tag == "COURSE"@ {
            match spec_parse_course(node.attrs) {
                Ok(c) => (courses.push(c), None, None),
                Err(e) => (courses, Some(base + 1), Some(e)),
            }
        } else {
            (courses, Some(base + 1), None)
        }
    } else if node.depth == base + 2 {
        if node.tag == "SECTION"@ && courses.len() > 0 {
            match spec_parse_section(node.attrs) {
                Ok(s) => (push_section_spec(courses, s), None, None),
                Err(e) => (courses, Some(base + 2), Some(e)),
            }
        } else {
            (courses, Some(base + 2), None)
        }
    } else if node.depth == base + 3 {
        if node.tag == "PERIOD"@ && courses.len() > 0 && courses.last().sections.len() > 0 {
            match spec_parse_period(node.attrs) {
                Ok(p) => (push_period_spec(courses, p), None, None),
                Err(e) => (courses, Some(base + 3), Some(e)),
            }
        } else if node.tag == "NOTE"@ && courses.len() > 0 && courses.last().sections.len() > 0 {
            match spec_parse_note(node.text) {
                Ok(t) => (push_note_spec(courses, t), None, None),
                Err(e) => (courses, Some(base + 3), Some(e)),
            }
        } else {
            (courses, Some(base + 3), None)
        }
    } else if node.depth == base + 4 {
        if node.tag == "DAY"@ && courses.len() > 0 && courses.last().sections.len() > 0
            && courses.last().sections.last().periods.len() > 0 {
            match spec_parse_xml_day(node.text) {
                Ok(d) => (push_day_spec(courses, d), None, None),
                Err(e) => (courses, None, Some(e)),
            }
        } else {
            (courses, Some(base + 4), None)
        }
    } else {
        (courses, Some(node.depth), None)
    }
}

/// Mathematical content of an `XmlDiag`.
pub struct XmlDiagView {
    pub node: int,
    pub error: CourseDBError,
}

/// One diagnostic of a lenient parse: which element was dropped, and why.
#[derive(Debug, Clone, PartialEq)]
pub struct XmlDiag {
    /// Index of the dropped element in the flat element list.
    pub node: usize,
    /// What was wrong with it.
    pub error: CourseDBError,
}

impl View for XmlDiag {
    type V = XmlDiagView;

    open spec fn view(&self) -> XmlDiagView {
        XmlDiagView { node: self.node as int, error: self.error }
    }
}

impl DeepView for XmlDiag {
    type V = XmlDiagView;

    open spec fn deep_view(&self) -> XmlDiagView {
        self.view()
    }
}

/// The state after the first `k` elements: element 0 is the root and only
/// sets the base depth; the elements after it run through
/// `spec_xml_step`. Strict mode stops at the first error; lenient mode
/// records a diagnostic and carries on.
pub open spec fn spec_xml_fold(nodes: Seq<FlatXmlNodeView>, k: int, strict: bool) -> Result<
    (Seq<CourseView>, Seq<XmlDiagView>, Option<int>),
    CourseDBError,
>
    decreases k,
{
    if k <= 1 {
        Ok((Seq::empty(), Seq::empty(), None))
    } else {
        match spec_xml_fold(nodes, k - 1, strict) {
            Err(e) => Err(e),
            Ok(st) => {
                let step = spec_xml_step(st.0, st.2, nodes[k - 1], nodes[0].depth);
                match step.2 {
                    None => Ok((step.0, st.1, step.1)),
                    Some(e) => if strict {
                        Err(e)
                    } else {
                        Ok(
                            (
                                step.0,
                                st.1.push(XmlDiagView { node: k - 1, error: e }),
                                step.1,
                            ),
                        )
                    },
                }
            },
        }
    }
}

/// What a whole flat element list builds.
pub open spec fn spec_xml_ingest(nodes: Seq<FlatXmlNodeView>, strict: bool) -> Result<
    (Seq<CourseView>, Seq<XmlDiagView>),
    CourseDBError,
> {
    match spec_xml_fold(nodes, nodes.len() as int, strict) {
        Err(e) => Err(e),
        Ok(st) => Ok((st.0, st.1)),
    }
}

/// A lenient parse of any element list yields a database.
pub proof fn lemma_xml_lenient_ok(nodes: Seq<FlatXmlNodeView>, k: int)
    ensures
        spec_xml_fold(nodes, k, false) is Ok,
    decreases k,
{
    if k > 1 {
        lemma_xml_lenient_ok(nodes, k - 1);
    }
}

/// Once the fold has failed, longer prefixes fail the same way.
proof fn lemma_xml_err_persists(nodes: Seq<FlatXmlNodeView>, strict: bool, k: int, m: int)
    requires
        1 <= k <= m,
        spec_xml_fold(nodes, k, strict) is Err,
    ensures
        spec_xml_fold(nodes, m, strict) == spec_xml_fold(nodes, k, strict),
    decreases m - k,
{
    if k < m {
        assert(spec_xml_fold(nodes, k + 1, strict) == spec_xml_fold(nodes, k, strict));
        lemma_xml_err_persists(nodes, strict, k + 1, m);
    }
}

/// Runs one element against the growing database, as `spec_xml_step` lays
/// it down.
fn xml_step(
    db: &mut CourseDB,
    skip: &mut Option<usize>,
    node: &FlatXmlNode,
    base: usize,
) -> (r: Option<CourseDBError>)
    ensures
        ({
            let step = spec_xml_step(old(db)@.courses, skip_view(*old(skip)), node@, base as int);
            &&& final(db)@.courses == step.0
            &&& skip_view(*final(skip)) == step.1
            &&& (r is None <==> step.2 is None)
            &&& (r matches Some(e) ==> step.2 == Some(e))
        }),
{
    let ghost db0 = db@.courses;
    let ghost nv = node@;
    match *skip {
        Some(dd) if node.depth > dd => {
            return None;
        },
        _ => {},
    }
    let d = node.depth;
    if d > base && d - base == 1 {
        if crate::text::str_eq(node.tag.as_str(), "COURSE") {
            match parse_course(&node.attrs) {
                Ok(c) => {
                    let ghost cs0 = db.courses;
                    let ghost cg = c;
                    db.courses.push(c);
                    *skip = None;
                    proof {
                        lemma_push_deep_view(cs0, db.courses, cg);
                        assert(db@.courses =~= db0.push(cg@));
                    }
                    None
                },
                Err(e) => {
                    *skip = Some(base + 1);
                    Some(e)
                },
            }
        } else {
            *skip = Some(base + 1);
            None
        }
    } else if d > base && d - base == 2 {
        if crate::text::str_eq(node.tag.as_str(), "SECTION") && db.courses.len() > 0 {
            match parse_section(&node.attrs) {
                Ok(s) => {
                    let ghost cs_pre = db.courses;
                    let mut course = match db.courses.pop() {
                        Some(c) => c,
                        None => {
                            proof {
                                assert(false);
                            }
                            return None;
                        },
                    };
                    let ghost cs_mid = db.courses;
                    let ghost course_pre = course;
                    let ghost secs0 = course.sections;
                    let ghost sg = s;
                    course.sections.push(s);
                    let ghost course_new = course;
                    db.courses.push(course);
                    *skip = None;
                    proof {
                        lemma_pop_deep_view(cs_pre, cs_mid);
                        lemma_push_deep_view(secs0, course_new.sections, sg);
                        lemma_push_deep_view(cs_mid, db.courses, course_new);
                        assert(course_pre.deep_view() == db0.last());
                        assert(db@.courses =~= push_section_spec(db0, sg@));
                    }
                    None
                },
                Err(e) => {
                    *skip = Some(base + 2);
                    Some(e)
                },
            }
        } else {
            *skip = Some(base + 2);
            None
        }
    } else if d > base && d - base == 3 {
        let is_period = crate::text::str_eq(node.tag.as_str(), "PERIOD");
        let is_note = crate::text::str_eq(node.tag.as_str(), "NOTE");
        let mut has_section = false;
        if db.courses.len() > 0 {
            let lc = db.courses.len() - 1;
            if db.courses[lc].sections.len() > 0 {
                has_section = true;
            }
            proof {
                assert(db0.last() == db.courses@[lc as int].deep_view());
            }
        }
        if is_period && has_section {
            match parse_period(&node.attrs) {
                Ok(p) => {
                    let ghost pg = p;
                    let ghost cs_pre = db.courses;
                    let mut course = match db.courses.pop() {
                        Some(c) => c,
                        None => {
                            proof {
                                assert(false);
                            }
                            return None;
                        },
                    };
                    let ghost cs_mid = db.courses;
                    let ghost course_pre = course;
                    let ghost secs_pre = course.sections;
                    let mut section = match course.sections.pop() {
                        Some(s) => s,
                        None => {
                            proof {
                                assert(course_pre.deep_view() == db0.last());
                                assert(false);
                            }
                            return None;
                        },
                    };
                    let ghost secs_mid = course.sections;
                    let ghost section_pre = section;
                    let ghost pers0 = section.periods;
                    section.periods.push(p);
                    let ghost section_new = section;
                    course.sections.push(section);
                    let ghost course_new = course;
                    db.courses.push(course);
                    *skip = None;
                    proof {
                        lemma_pop_deep_view(cs_pre, cs_mid);
                        lemma_pop_deep_view(secs_pre, secs_mid);
                        lemma_push_deep_view(pers0, section_new.periods, pg);
                        lemma_push_deep_view(secs_mid, course_new.sections, section_new);
                        lemma_push_deep_view(cs_mid, db.courses, course_new);
                        assert(course_pre.deep_view() == db0.last());
                        assert(section_pre.deep_view() == db0.last().sections.last());
                        assert(course_new@.sections =~= db0.last().sections.update(
                            db0.last().sections.len() - 1,
                            section_new@,
                        ));
                        assert(db@.courses =~= push_period_spec(db0, pg@));
                    }
                    None
                },
                Err(e) => {
                    *skip = Some(base + 3);
                    Some(e)
                },
            }
        } else if is_note && has_section {
            match parse_note(&node.text) {
                Ok(t) => {
                    let ghost tg = t;
                    let ghost cs_pre = db.courses;
                    let mut course = match db.courses.pop() {
                        Some(c) => c,
                        None => {
                            proof {
                                assert(false);
                            }
                            return None;
                        },
                    };
                    let ghost cs_mid = db.courses;
                    let ghost course_pre = course;
                    let ghost secs_pre = course.sections;
                    let mut section = match course.sections.pop() {
                        Some(s) => s,
                        None => {
                            proof {
                                assert(course_pre.deep_view() == db0.last());
                                assert(false);
                            }
                            return None;
                        },
                    };
                    let ghost secs_mid = course.sections;
                    let ghost section_pre = section;
                    let ghost notes0 = section.notes;
                    section.notes.push(t);
                    let ghost section_new = section;
                    course.sections.push(section);
                    let ghost course_new = course;
                    db.courses.push(course);
                    *skip = None;
                    proof {
                        lemma_pop_deep_view(cs_pre, cs_mid);
                        lemma_pop_deep_view(secs_pre, secs_mid);
                        lemma_push_deep_view(notes0, section_new.notes, tg);
                        lemma_push_deep_view(secs_mid, course_new.sections, section_new);
                        lemma_push_deep_view(cs_mid, db.courses, course_new);
                        assert(course_pre.deep_view() == db0.last());
                        assert(section_pre.deep_view() == db0.last().sections.last());
                        assert(course_new@.sections =~= db0.last().sections.update(
                            db0.last().sections.len() - 1,
                            section_new@,
                        ));
                        assert(db@.courses =~= push_note_spec(db0, tg@));
                    }
                    None
                },
                Err(e) => {
                    *skip = Some(base + 3);
                    Some(e)
                },
            }
        } else {
            *skip = Some(base + 3);
            None
        }
    } else if d > base && d - base == 4 {
        let is_day = crate::text::str_eq(node.tag.as_str(), "DAY");
        let mut has_period = false;
        if db.courses.len() > 0 {
            let lc = db.courses.len() - 1;
            proof {
                assert(db0.last() == db.courses@[lc as int].deep_view());
            }
            if db.courses[lc].sections.len() > 0 {
                let ls = db.courses[lc].sections.len() - 1;
                proof {
                    assert(db0.last().sections.last() == db.courses@[lc as int].sections@[
                        ls as int].deep_view());
                }
                if db.courses[lc].sections[ls].periods.len() > 0 {
                    has_period = true;
                }
            }
        }
        if is_day && has_period {
            match parse_day(&node.text) {
                Ok(day) => {
                    let ghost cs_pre = db.courses;
                    let mut course = match db.courses.pop() {
                        Some(c) => c,
                        None => {
                            proof {
                                assert(false);
                            }
                            return None;
                        },
                    };
                    let ghost cs_mid = db.courses;
                    let ghost course_pre = course;
                    let ghost secs_pre = course.sections;
                    let mut section = match course.sections.pop() {
                        Some(s) => s,
                        None => {
                            proof {
                                assert(course_pre.deep_view() == db0.last());
                                assert(false);
                            }
                            return None;
                        },
                    };
                    let ghost secs_mid = course.sections;
                    let ghost section_pre = section;
                    let ghost pers_pre = section.periods;
                    let mut period = match section.periods.pop() {
                        Some(p) => p,
                        None => {
                            proof {
                                assert(course_pre.deep_view() == db0.last());
                                assert(section_pre.deep_view() == db0.last().sections.last());
                                assert(false);
                            }
                            return None;
                        },
                    };
                    let ghost pers_mid = section.periods;
                    let ghost period_pre = period;
                    period.days.push(day);
                    let ghost period_new = period;
                    section.periods.push(period);
                    let ghost section_new = section;
                    course.sections.push(section);
                    let ghost course_new = course;
                    db.courses.push(course);
                    *skip = None;
                    proof {
                        lemma_pop_deep_view(cs_pre, cs_mid);
                        lemma_pop_deep_view(secs_pre, secs_mid);
                        lemma_pop_deep_view(pers_pre, pers_mid);
                        lemma_push_deep_view(pers_mid, section_new.periods, period_new);
                        lemma_push_deep_view(secs_mid, course_new.sections, section_new);
                        lemma_push_deep_view(cs_mid, db.courses, course_new);
                        assert(course_pre.deep_view() == db0.last());
                        assert(section_pre.deep_view() == db0.last().sections.last());
                        assert(period_pre.deep_view() == db0.last().sections.last().periods.last());
                        assert(period_new.days.deep_view() =~= period_new.days@);
                        assert(period_pre.days.deep_view() =~= period_pre.days@);
                        assert(period_new@ == (PeriodView {
                            time_start: period_pre@.time_start,
                            time_end: period_pre@.time_end,
                            instructor: period_pre@.instructor,
                            days: period_pre@.days.push(day),
                            location: period_pre@.location,
                            period_type: period_pre@.period_type,
                        }));
                        assert(section_new@.periods =~= db0.last().sections.last().periods.update(
                            db0.last().sections.last().periods.len() - 1,
                            period_new@,
                        ));
                        assert(course_new@.sections =~= db0.last().sections.update(
                            db0.last().sections.len() - 1,
                            section_new@,
                        ));
                        assert(db@.courses =~= push_day_spec(db0, day));
                    }
                    None
                },
                Err(e) => {
                    *skip = None;
                    Some(e)
                },
            }
        } else {
            *skip = Some(base + 4);
            None
        }
    } else {
        *skip = Some(node.depth);
        None
    }
}

/// Reconstructs a course database from the flat element list of one
/// document, as `spec_xml_ingest` lays it down: lenient mode drops each
/// offending element's subtree with a diagnostic and always yields a
/// database; strict mode stops at the first offending element.
pub fn parse_xml_nodes(nodes: &Vec<FlatXmlNode>, strict: bool) -> (r: Result<
    (CourseDB, Vec<XmlDiag>),
    CourseDBError,
>)
    ensures
        r is Ok <==> spec_xml_ingest(nodes.deep_view(), strict) is Ok,
        r matches Ok(p) ==> spec_xml_ingest(nodes.deep_view(), strict) == Ok::<
            (Seq<CourseView>, Seq<XmlDiagView>),
            CourseDBError,
        >((p.0@.courses, p.1.deep_view())),
        r matches Err(e) ==> spec_xml_ingest(nodes.deep_view(), strict) == Err::<
            (Seq<CourseView>, Seq<XmlDiagView>),
            CourseDBError,
        >(e),
        !strict ==> r is Ok,
{
    let ghost nv = nodes.deep_view();
    let mut db = CourseDB { courses: Vec::new() };
    let mut diags: Vec<XmlDiag> = Vec::new();
    let mut skip: Option<usize> = None;
    proof {
        assert(db@.courses =~= Seq::<CourseView>::empty());
        assert(diags.deep_view() =~= Seq::<XmlDiagView>::empty());
        lemma_xml_lenient_ok(nv, nv.len() as int);
    }
    if nodes.len() == 0 {
        return Ok((db, diags));
    }
    let base = nodes[0].depth;
    proof {
        assert(nv[0] == nodes@[0].deep_view());
    }
    let mut i: usize = 1;
    while i < nodes.len()
        invariant
            1 <= i <= nodes.len(),
            nv == nodes.deep_view(),
            nv.len() == nodes.len(),
            base as int == nv[0].depth,
            spec_xml_fold(nv, i as int, strict) == Ok::<
                (Seq<CourseView>, Seq<XmlDiagView>, Option<int>),
                CourseDBError,
            >((db@.courses, diags.deep_view(), skip_view(skip))),
        decreases nodes.len() - i,
    {
        proof {
            assert(nv[i as int] == nodes@[i as int].deep_view());
        }
        let step = xml_step(&mut db, &mut skip, &nodes[i], base);
        match step {
            None => {},
            Some(err) => {
                if strict {
                    proof {
                        lemma_xml_err_persists(nv, strict, i + 1, nv.len() as int);
                    }
                    return Err(err);
                } else {
                    let ghost dpre = diags;
                    let dg = XmlDiag { node: i, error: err };
                    let ghost dgg = dg;
                    diags.push(dg);
                    proof {
                        lemma_push_deep_view(dpre, diags, dgg);
                        assert(diags.deep_view() =~= dpre.deep_view().push(
                            XmlDiagView { node: i as int, error: err },
                        ));
                    }
                }
            },
        }
        i = i + 1;
    }
    Ok((db, diags))
}

/// Everything the schedule logic reads of one XML document: for each
/// element, in document order starting at the root element, its nesting
/// depth, tag name, attributes, and first text child; or nothing, for
/// text that is no well-formed document.
pub uninterp spec fn xml_nodes_of(s: Seq<char>) -> Option<Seq<FlatXmlNodeView>>;

/// Relies on roxmltree's `Document::parse` and node accessors: the
/// document's element nodes are flattened in document order, each with
/// its `ancestors` count as depth, its tag name, its attributes, and its
/// first text child. The result depends on the input text alone;
/// `xml_nodes_of` names it. A parse failure yields `None`.
#[verifier::external_body]
fn xml_flat_nodes(input: &str) -> (r: Option<Vec<FlatXmlNode>>)
    ensures
        r.deep_view() == xml_nodes_of(input@),
{
    let doc = match roxmltree::Document::parse(input) {
        Ok(d) => d,
        Err(_) => return None,
    };
    Some(doc.root_element().descendants().filter(|n| n.is_element()).map(|n| FlatXmlNode {
        depth: n.ancestors().count(),
        tag: n.tag_name().name().to_string(),
        attrs: n.attributes().map(|a| XmlAttr {
            name: a.name().to_string(),
            value: a.value().to_string(),
        }).collect(),
        text: n.text().map(|t| t.to_string()),
    }).collect())
}

/// Parses an XML schedule dump into a course database: the document is
/// flattened by `xml_flat_nodes` and reconstructed by `parse_xml_nodes`
/// under the chosen strictness. Text that is no well-formed document is
/// its own error.
pub fn parse_db(xml: &str, strict: bool) -> (r: Result<CourseDB, CourseDBError>)
    ensures
        xml_nodes_of(xml@) is None ==> r == Err::<CourseDB, CourseDBError>(
            CourseDBError::MalformedDocument,
        ),
        xml_nodes_of(xml@) matches Some(ns) ==> match spec_xml_ingest(ns, strict) {
            Ok(p) => r matches Ok(db) && db@.courses == p.0,
            Err(e) => r == Err::<CourseDB, CourseDBError>(e),
        },
        xml_nodes_of(xml@) is Some && !strict ==> r is Ok,
{
    let nodes = match xml_flat_nodes(xml) {
        None => {
            return Err(CourseDBError::MalformedDocument);
        },
        Some(ns) => ns,
    };
    match parse_xml_nodes(&nodes, strict) {
        Ok(p) => Ok(p.0),
        Err(e) => Err(e),
    }
}

} // verus!

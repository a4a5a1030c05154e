//! The availability query engine: point and range occupancy queries and
//! the free-room search, all read-only over a populated `CourseDB`.

use vstd::prelude::*;

use crate::models::{Course, CourseDB, CourseView, Day, PeriodView, SectionView, TimeCode};
use crate::models::{lemma_push_deep_view, lemma_take_step};
use crate::text::lex_lt;

verus! {

/// The interval-overlap rule between a period's closed interval
/// `[p_start, p_end]` and a queried closed interval `[t_start, t_end]`:
/// the query start falls inside the period, the query end falls inside the
/// period, or the query covers the period. Equality at an endpoint counts
/// as a conflict.
pub open spec fn times_conflict(p_start: u16, p_end: u16, t_start: u16, t_end: u16) -> bool {
    ||| (p_start <= t_start && p_end >= t_start)
    ||| (p_start <= t_end && p_end >= t_end)
    ||| (t_start <= p_start && t_end >= p_end)
}

/// For well-formed intervals the three disjuncts say exactly that the two
/// closed intervals overlap.
pub proof fn lemma_times_conflict_iff_overlap(p_start: u16, p_end: u16, t_start: u16, t_end: u16)
    requires
        p_start <= p_end,
        t_start <= t_end,
    ensures
        times_conflict(p_start, p_end, t_start, t_end) <==> (p_start <= t_end && p_end
            >= t_start),
{
}

/// Location text that names a real room: the `TBA` sentinel and empty or
/// whitespace-only text count as "no room".
pub open spec fn usable_room(loc: Seq<char>) -> bool {
    loc != "TBA"@ && !crate::text::is_blank(loc)
}

/// Whether one period occupies `room` against the queried range: the
/// period must name exactly that room (a real room, not the `TBA`
/// sentinel or blank text), recur on the queried day, and its time
/// interval must overlap the queried one.
pub open spec fn period_conflicts(
    p: PeriodView,
    room: Seq<char>,
    t_start: u16,
    t_end: u16,
    day: Day,
) -> bool {
    &&& p.location == Some(room)
    &&& usable_room(room)
    &&& p.days.contains(day)
    &&& times_conflict(p.time_start, p.time_end, t_start, t_end)
}

/// How many of the periods conflict with the query.
pub open spec fn period_hits(
    ps: Seq<PeriodView>,
    room: Seq<char>,
    t_start: u16,
    t_end: u16,
    day: Day,
) -> nat
    decreases ps.len(),
{
    if ps.len() == 0 {
        0
    } else {
        period_hits(ps.drop_last(), room, t_start, t_end, day) + if period_conflicts(
            ps.last(),
            room,
            t_start,
            t_end,
            day,
        ) {
            1nat
        } else {
            0nat
        }
    }
}

/// How many periods across the sections conflict with the query.
pub open spec fn section_list_hits(
    ss: Seq<SectionView>,
    room: Seq<char>,
    t_start: u16,
    t_end: u16,
    day: Day,
) -> nat
    decreases ss.len(),
{
    if ss.len() == 0 {
        0
    } else {
        section_list_hits(ss.drop_last(), room, t_start, t_end, day) + period_hits(
            ss.last().periods,
            room,
            t_start,
            t_end,
            day,
        )
    }
}

/// `n` copies of one course.
pub open spec fn repeated(c: CourseView, n: nat) -> Seq<CourseView> {
    Seq::new(n, |k: int| c)
}

/// The occupant list for a query: the courses in database order, each
/// listed once for every one of its periods that conflicts. A course with
/// several conflicting periods therefore appears several times; the count
/// is part of the answer.
pub open spec fn occupants(
    cs: Seq<CourseView>,
    room: Seq<char>,
    t_start: u16,
    t_end: u16,
    day: Day,
) -> Seq<CourseView>
    decreases cs.len(),
{
    if cs.len() == 0 {
        Seq::empty()
    } else {
        occupants(cs.drop_last(), room, t_start, t_end, day) + repeated(
            cs.last(),
            section_list_hits(cs.last().sections, room, t_start, t_end, day),
        )
    }
}

/// Whether no period of the database occupies `room` in the queried range.
pub open spec fn room_is_free(
    db: crate::models::CourseDBView,
    room: Seq<char>,
    t_start: u16,
    t_end: u16,
    day: Day,
) -> bool {
    occupants(db.courses, room, t_start, t_end, day).len() == 0
}

/// Whether `v` lists `d`.
fn days_contain(v: &Vec<Day>, d: Day) -> (r: bool)
    ensures
        r == v.deep_view().contains(d),
{
    let mut i: usize = 0;
    while i < v.len()
        invariant
            0 <= i <= v.len(),
            forall|j: int| 0 <= j < i ==> v@[j] != d,
        decreases v.len() - i,
    {
        if v[i] == d {
            proof {
                assert(v.deep_view()[i as int] == d);
                assert(v.deep_view().contains(d));
            }
            return true;
        }
        i = i + 1;
    }
    proof {
        assert forall|j: int| 0 <= j < v.deep_view().len() implies v.deep_view()[j] != d by {
            assert(v.deep_view()[j] == v@[j]);
        }
        assert(!v.deep_view().contains(d));
    }
    false
}

/// Decides the conflict predicate for one period.
fn period_conflict_check(
    p: &crate::models::Period,
    room: &str,
    t_start: TimeCode,
    t_end: TimeCode,
    day: Day,
) -> (r: bool)
    ensures
        r == period_conflicts(p@, room@, t_start@, t_end@, day),
{
    match &p.location {
        None => false,
        Some(loc) => {
            let ps = p.time_start.time();
            let pe = p.time_end.time();
            let qs = t_start.time();
            let qe = t_end.time();
            let time_start_between = ps <= qs && pe >= qs;
            let time_end_between = ps <= qe && pe >= qe;
            let time_covers = qs <= ps && qe >= pe;
            let conflict = time_start_between || time_end_between || time_covers;
            conflict && crate::text::str_eq(loc.as_str(), room) && room_names_a_room(loc.as_str())
                && days_contain(&p.days, day)
        },
    }
}

/// Whether location text names a real room under `usable_room`.
fn room_names_a_room(loc: &str) -> (r: bool)
    ensures
        r == usable_room(loc@),
{
    !crate::text::str_eq(loc, "TBA") && !crate::text::is_blank_str(loc)
}

/// An extension trait for finding which courses occupy a room.
pub trait FindCourseInRoomAtTime {
    /// The occupant list this implementation answers with.
    spec fn occupant_courses(&self, room: Seq<char>, t_start: u16, t_end: u16, day: Day) -> Seq<
        CourseView,
    >;

    /// Find the courses in a room at a given time instant: the range query
    /// with both ends at `time`.
    fn find_course_in_room_at_time(&self, room: &str, time: TimeCode, day: Day) -> (r: Vec<Course>)
        ensures
            r.deep_view() == self.occupant_courses(room@, time@, time@, day),
    ;

    /// Find the courses in a room over a given closed time range, one
    /// entry per conflicting period.
    fn find_course_in_room_at_time_range(
        &self,
        room: &str,
        time_start: TimeCode,
        time_end: TimeCode,
        day: Day,
    ) -> (r: Vec<Course>)
        ensures
            r.deep_view() == self.occupant_courses(room@, time_start@, time_end@, day),
    ;
}

impl FindCourseInRoomAtTime for CourseDB {
    open spec fn occupant_courses(&self, room: Seq<char>, t_start: u16, t_end: u16, day: Day) -> Seq<
        CourseView,
    > {
        occupants(self@.courses, room, t_start, t_end, day)
    }

    fn find_course_in_room_at_time(&self, room: &str, time: TimeCode, day: Day) -> (r: Vec<Course>)
    {
        self.find_course_in_room_at_time_range(room, time, time, day)
    }

    fn find_course_in_room_at_time_range(
        &self,
        room: &str,
        time_start: TimeCode,
        time_end: TimeCode,
        day: Day,
    ) -> (r: Vec<Course>) {
        let ghost roomv = room@;
        let ghost t1 = time_start@;
        let ghost t2 = time_end@;
        let ghost courses_v = self.courses.deep_view();
        let mut clash: Vec<Course> = Vec::new();
        let mut ci: usize = 0;
        proof {
            assert(courses_v.take(0) =~= Seq::<CourseView>::empty());
        }
        while ci < self.courses.len()
            invariant
                0 <= ci <= self.courses.len(),
                courses_v == self.courses.deep_view(),
                clash.deep_view() == occupants(courses_v.take(ci as int), roomv, t1, t2, day),
                roomv == room@,
                t1 == time_start@,
                t2 == time_end@,
            decreases self.courses.len() - ci,
        {
            let course = &self.courses[ci];
            let ghost cv = courses_v[ci as int];
            proof {
                assert(courses_v[ci as int] == self.courses@[ci as int].deep_view());
            }
            let ghost base = clash.deep_view();
            let mut si: usize = 0;
            proof {
                assert(cv.sections.take(0) =~= Seq::<SectionView>::empty());
                assert(repeated(cv, 0) =~= Seq::<CourseView>::empty());
                assert(base + Seq::<CourseView>::empty() =~= base);
            }
            while si < course.sections.len()
                invariant
                    0 <= si <= course.sections.len(),
                    course == &self.courses@[ci as int],
                    cv == course.deep_view(),
                    clash.deep_view() == base + repeated(
                        cv,
                        section_list_hits(cv.sections.take(si as int), roomv, t1, t2, day),
                    ),
                    roomv == room@,
                    t1 == time_start@,
                    t2 == time_end@,
                decreases course.sections.len() - si,
            {
                let section = &course.sections[si];
                let ghost sv = cv.sections[si as int];
                proof {
                    assert(cv.sections[si as int] == course.sections@[si as int].deep_view());
                }
                let mut pi: usize = 0;
                proof {
                    assert(sv.periods.take(0) =~= Seq::<PeriodView>::empty());
                }
                while pi < section.periods.len()
                    invariant
                        0 <= pi <= section.periods.len(),
                        section == &course.sections@[si as int],
                        sv == section.deep_view(),
                        0 <= si < course.sections.len(),
                        cv == course.deep_view(),
                        sv == cv.sections[si as int],
                        clash.deep_view() == base + repeated(
                            cv,
                            (section_list_hits(cv.sections.take(si as int), roomv, t1, t2, day)
                                + period_hits(sv.periods.take(pi as int), roomv, t1, t2, day))
                                as nat,
                        ),
                        roomv == room@,
                        t1 == time_start@,
                        t2 == time_end@,
                    decreases section.periods.len() - pi,
                {
                    let period = &section.periods[pi];
                    proof {
                        assert(sv.periods[pi as int] == section.periods@[pi as int].deep_view());
                    }
                    let ghost n0 = (section_list_hits(cv.sections.take(si as int), roomv, t1, t2, day)
                        + period_hits(sv.periods.take(pi as int), roomv, t1, t2, day)) as nat;
                    if period_conflict_check(period, room, time_start, time_end, day) {
                        let ghost clash0 = clash;
                        let cc = course.clone();
                        let ghost ccg = cc;
                        clash.push(cc);
                        proof {
                            lemma_push_deep_view(clash0, clash, ccg);
                            assert(ccg.deep_view() == cv);
                            assert(repeated(cv, n0 + 1) =~= repeated(cv, n0).push(cv));
                            assert((base + repeated(cv, n0)).push(cv) =~= base + repeated(
                                cv,
                                n0 + 1,
                            ));
                        }
                    }
                    pi = pi + 1;
                    proof {
                        lemma_take_step(sv.periods, pi - 1);
                        assert(period_hits(sv.periods.take(pi as int), roomv, t1, t2, day)
                            == period_hits(sv.periods.take(pi - 1), roomv, t1, t2, day)
                            + if period_conflicts(sv.periods[pi - 1], roomv, t1, t2, day) {
                            1nat
                        } else {
                            0nat
                        });
                    }
                }
                si = si + 1;
                proof {
                    assert(sv.periods.take(sv.periods.len() as int) =~= sv.periods);
                    lemma_take_step(cv.sections, si - 1);
                    assert(section_list_hits(cv.sections.take(si as int), roomv, t1, t2, day)
                        == section_list_hits(cv.sections.take(si - 1), roomv, t1, t2, day)
                        + period_hits(sv.periods, roomv, t1, t2, day));
                }
            }
            ci = ci + 1;
            proof {
                assert(cv.sections.take(cv.sections.len() as int) =~= cv.sections);
                lemma_take_step(courses_v, ci - 1);
                assert(occupants(courses_v.take(ci as int), roomv, t1, t2, day) == occupants(
                    courses_v.take(ci - 1),
                    roomv,
                    t1,
                    t2,
                    day,
                ) + repeated(cv, section_list_hits(cv.sections, roomv, t1, t2, day)));
            }
        }
        proof {
            assert(courses_v.take(self.courses.len() as int) =~= courses_v);
        }
        clash
    }
}

/// The real rooms named by a list of periods: `TBA` and blank location
/// text are no rooms.
pub open spec fn period_rooms(ps: Seq<PeriodView>) -> Set<Seq<char>>
    decreases ps.len(),
{
    if ps.len() == 0 {
        Set::empty()
    } else {
        period_rooms(ps.drop_last()).union(
            match ps.last().location {
                Some(l) => if usable_room(l) {
                    Set::empty().insert(l)
                } else {
                    Set::empty()
                },
                None => Set::empty(),
            },
        )
    }
}

/// The rooms named anywhere in a list of sections.
pub open spec fn section_rooms(ss: Seq<SectionView>) -> Set<Seq<char>>
    decreases ss.len(),
{
    if ss.len() == 0 {
        Set::empty()
    } else {
        section_rooms(ss.drop_last()).union(period_rooms(ss.last().periods))
    }
}

/// The rooms named anywhere in a list of courses.
pub open spec fn course_rooms(cs: Seq<CourseView>) -> Set<Seq<char>>
    decreases cs.len(),
{
    if cs.len() == 0 {
        Set::empty()
    } else {
        course_rooms(cs.drop_last()).union(section_rooms(cs.last().sections))
    }
}

/// Every distinct room name recorded in any period of the database.
pub open spec fn db_rooms(db: crate::models::CourseDBView) -> Set<Seq<char>> {
    course_rooms(db.courses)
}

/// Strictly ascending lexicographic order: sorted, with no duplicates.
pub open spec fn strictly_sorted(s: Seq<Seq<char>>) -> bool {
    forall|i: int, j: int| 0 <= i < j < s.len() ==> lex_lt(s[i], s[j])
}

/// Inserts `s` into the strictly sorted list `v`, keeping it strictly
/// sorted; inserting an element already present leaves the list unchanged.
fn insert_sorted_unique(v: &mut Vec<String>, s: String)
    requires
        strictly_sorted(old(v).deep_view()),
    ensures
        strictly_sorted(final(v).deep_view()),
        final(v).deep_view().to_set() == old(v).deep_view().to_set().insert(s@),
{
    let ghost dv0 = v.deep_view();
    let mut i: usize = 0;
    while i < v.len() && crate::text::str_lt(v[i].as_str(), s.as_str())
        invariant
            0 <= i <= v.len(),
            v@ == old(v)@,
            dv0 == v.deep_view(),
            strictly_sorted(dv0),
            forall|j: int| 0 <= j < i ==> lex_lt(#[trigger] dv0[j], s@),
        decreases v.len() - i,
    {
        proof {
            assert(dv0[i as int] == v@[i as int]@);
        }
        i = i + 1;
    }
    proof {
        assert(i < v@.len() ==> dv0[i as int] == v@[i as int]@);
    }
    if i < v.len() && crate::text::str_eq(v[i].as_str(), s.as_str()) {
        proof {
            assert(dv0[i as int] == s@);
            assert(dv0.contains(s@));
            assert(v.deep_view().to_set() =~= dv0.to_set().insert(s@));
        }
    } else {
        proof {
            if i < v@.len() {
                crate::text::lemma_lex_lt_trichotomy(dv0[i as int], s@);
            }
        }
        let ghost vpre = *v;
        v.insert(i, s);
        proof {
            let dv1 = v.deep_view();
            vpre@.insert_ensures(i as int, s);
            assert forall|x: int| 0 <= x < dv1.len() implies dv1[x] == (if x < i {
                dv0[x]
            } else if x == i {
                s@
            } else {
                dv0[x - 1]
            }) by {
                assert(dv1[x] == v@[x]@);
                if x < i {
                    assert(v@[x] == vpre@[x]);
                    assert(dv0[x] == vpre@[x]@);
                } else if x > i {
                    assert(v@[x] == vpre@[x - 1]);
                    assert(dv0[x - 1] == vpre@[x - 1]@);
                }
            }
            assert forall|a: int, b: int| 0 <= a < b < dv1.len() implies lex_lt(
                dv1[a],
                dv1[b],
            ) by {
                if b < i {
                    assert(lex_lt(dv0[a], dv0[b]));
                } else if b == i {
                    assert(lex_lt(dv0[a], s@));
                } else if a < i {
                    // dv1[a] == dv0[a], dv1[b] == dv0[b - 1], and a < i <= b - 1
                    assert(lex_lt(dv0[a], dv0[b - 1]));
                } else if a == i {
                    // dv1[a] == s@, dv1[b] == dv0[b-1], i <= b-1
                    assert(lex_lt(s@, dv0[i as int]));
                    if b - 1 > i {
                        crate::text::lemma_lex_lt_transitive(s@, dv0[i as int], dv0[b - 1]);
                    }
                } else {
                    assert(lex_lt(dv0[a - 1], dv0[b - 1]));
                }
            }
            assert(dv1.to_set() =~= dv0.to_set().insert(s@)) by {
                assert forall|x: Seq<char>| dv1.to_set().contains(x) implies dv0.to_set().insert(
                    s@,
                ).contains(x) by {
                    let k = choose|k: int| 0 <= k < dv1.len() && dv1[k] == x;
                    if k < i {
                        assert(dv0.contains(x));
                    } else if k > i {
                        assert(dv0[k - 1] == x);
                        assert(dv0.contains(x));
                    }
                }
                assert forall|x: Seq<char>| dv0.to_set().insert(s@).contains(x) implies dv1.to_set().contains(
                    x,
                ) by {
                    if x == s@ {
                        assert(dv1[i as int] == x);
                        assert(dv1.contains(x));
                    } else {
                        let k = choose|k: int| 0 <= k < dv0.len() && dv0[k] == x;
                        if k < i {
                            assert(dv1[k] == x);
                        } else {
                            assert(dv1[k + 1] == x);
                        }
                        assert(dv1.contains(x));
                    }
                }
            }
        }
    }
}

/// An extension trait for finding the rooms that are free over a time
/// range.
pub trait FindEmptyRooms {
    /// The set of room names recorded anywhere in the schedule.
    spec fn all_rooms(&self) -> Set<Seq<char>>;

    /// Whether nothing occupies `room` over the queried range.
    spec fn room_free(&self, room: Seq<char>, t_start: u16, t_end: u16, day: Day) -> bool;

    /// Find the rooms that are free for the whole queried range: exactly
    /// the recorded rooms with no conflicting period, sorted ascending,
    /// each listed once.
    fn find_empty_rooms(&self, time_start: TimeCode, time_end: TimeCode, day: Day) -> (r: Vec<
        String,
    >)
        ensures
            strictly_sorted(r.deep_view()),
            forall|k: int, l: int|
                0 <= k < l < r.deep_view().len() ==> r.deep_view()[k] != r.deep_view()[l],
            forall|k: int|
                0 <= k < r.deep_view().len() ==> self.all_rooms().contains(#[trigger] r.deep_view()[k]),
            forall|k: int|
                0 <= k < r.deep_view().len() ==> self.room_free(
                    #[trigger] r.deep_view()[k],
                    time_start@,
                    time_end@,
                    day,
                ),
            forall|room: Seq<char>|
                self.all_rooms().contains(room) && self.room_free(room, time_start@, time_end@, day)
                    ==> r.deep_view().contains(room),
    ;
}

impl FindEmptyRooms for CourseDB {
    open spec fn all_rooms(&self) -> Set<Seq<char>> {
        db_rooms(self@)
    }

    open spec fn room_free(&self, room: Seq<char>, t_start: u16, t_end: u16, day: Day) -> bool {
        room_is_free(self@, room, t_start, t_end, day)
    }

    fn find_empty_rooms(&self, time_start: TimeCode, time_end: TimeCode, day: Day) -> (r: Vec<
        String,
    >) {
        let ghost courses_v = self.courses.deep_view();
        let mut rooms: Vec<String> = Vec::new();
        let mut ci: usize = 0;
        proof {
            assert(courses_v.take(0) =~= Seq::<CourseView>::empty());
            assert(rooms.deep_view().to_set() =~= Set::<Seq<char>>::empty());
        }
        while ci < self.courses.len()
            invariant
                0 <= ci <= self.courses.len(),
                courses_v == self.courses.deep_view(),
                strictly_sorted(rooms.deep_view()),
                rooms.deep_view().to_set() == course_rooms(courses_v.take(ci as int)),
            decreases self.courses.len() - ci,
        {
            let course = &self.courses[ci];
            let ghost cv = courses_v[ci as int];
            proof {
                assert(courses_v[ci as int] == self.courses@[ci as int].deep_view());
            }
            let mut si: usize = 0;
            proof {
                assert(cv.sections.take(0) =~= Seq::<SectionView>::empty());
                assert(course_rooms(courses_v.take(ci as int)).union(Set::empty())
                    =~= course_rooms(courses_v.take(ci as int)));
            }
            while si < course.sections.len()
                invariant
                    0 <= si <= course.sections.len(),
                    course == &self.courses@[ci as int],
                    cv == course.deep_view(),
                    strictly_sorted(rooms.deep_view()),
                    rooms.deep_view().to_set() == course_rooms(courses_v.take(ci as int)).union(
                        section_rooms(cv.sections.take(si as int)),
                    ),
                decreases course.sections.len() - si,
            {
                let section = &course.sections[si];
                let ghost sv = cv.sections[si as int];
                proof {
                    assert(cv.sections[si as int] == course.sections@[si as int].deep_view());
                }
                let mut pi: usize = 0;
                proof {
                    assert(sv.periods.take(0) =~= Seq::<PeriodView>::empty());
                    assert(course_rooms(courses_v.take(ci as int)).union(
                        section_rooms(cv.sections.take(si as int)),
                    ).union(Set::empty()) =~= course_rooms(courses_v.take(ci as int)).union(
                        section_rooms(cv.sections.take(si as int)),
                    ));
                }
                while pi < section.periods.len()
                    invariant
                        0 <= pi <= section.periods.len(),
                        section == &course.sections@[si as int],
                        sv == section.deep_view(),
                        strictly_sorted(rooms.deep_view()),
                        rooms.deep_view().to_set() == course_rooms(courses_v.take(ci as int)).union(
                            section_rooms(cv.sections.take(si as int)),
                        ).union(period_rooms(sv.periods.take(pi as int))),
                    decreases section.periods.len() - pi,
                {
                    let period = &section.periods[pi];
                    proof {
                        assert(sv.periods[pi as int] == section.periods@[pi as int].deep_view());
                    }
                    let ghost pre_set = rooms.deep_view().to_set();
                    match &period.location {
                        Some(loc) if room_names_a_room(loc.as_str()) => {
                            insert_sorted_unique(&mut rooms, loc.clone());
                            proof {
                                assert(rooms.deep_view().to_set() =~= pre_set.union(
                                    Set::empty().insert(loc@),
                                ));
                            }
                        },
                        _ => {
                            proof {
                                assert(pre_set.union(Set::empty()) =~= pre_set);
                            }
                        },
                    }
                    pi = pi + 1;
                    proof {
                        lemma_take_step(sv.periods, pi - 1);
                        assert(period_rooms(sv.periods.take(pi as int)) == period_rooms(
                            sv.periods.take(pi - 1),
                        ).union(
                            match sv.periods[pi - 1].location {
                                Some(l) => if usable_room(l) {
                                    Set::empty().insert(l)
                                } else {
                                    Set::empty()
                                },
                                None => Set::empty(),
                            },
                        ));
                        assert(rooms.deep_view().to_set() =~= course_rooms(
                            courses_v.take(ci as int),
                        ).union(section_rooms(cv.sections.take(si as int))).union(
                            period_rooms(sv.periods.take(pi as int)),
                        ));
                    }
                }
                si = si + 1;
                proof {
                    assert(sv.periods.take(sv.periods.len() as int) =~= sv.periods);
                    lemma_take_step(cv.sections, si - 1);
                    assert(section_rooms(cv.sections.take(si as int)) == section_rooms(
                        cv.sections.take(si - 1),
                    ).union(period_rooms(sv.periods)));
                    assert(rooms.deep_view().to_set() =~= course_rooms(
                        courses_v.take(ci as int),
                    ).union(section_rooms(cv.sections.take(si as int))));
                }
            }
            ci = ci + 1;
            proof {
                assert(cv.sections.take(cv.sections.len() as int) =~= cv.sections);
                lemma_take_step(courses_v, ci - 1);
                assert(course_rooms(courses_v.take(ci as int)) == course_rooms(
                    courses_v.take(ci - 1),
                ).union(section_rooms(cv.sections)));
                assert(rooms.deep_view().to_set() =~= course_rooms(courses_v.take(ci as int)));
            }
        }
        proof {
            assert(courses_v.take(self.courses.len() as int) =~= courses_v);
        }
        // Keep exactly the recorded rooms with no occupants in the range.
        let mut out: Vec<String> = Vec::new();
        let mut i: usize = 0;
        while i < rooms.len()
            invariant
                0 <= i <= rooms.len(),
                strictly_sorted(rooms.deep_view()),
                rooms.deep_view().to_set() == db_rooms(self@),
                strictly_sorted(out.deep_view()),
                forall|k: int|
                    0 <= k < out.deep_view().len() ==> exists|j: int|
                        0 <= j < i && #[trigger] out.deep_view()[k] == rooms.deep_view()[j],
                forall|k: int|
                    0 <= k < out.deep_view().len() ==> room_is_free(
                        self@,
                        #[trigger] out.deep_view()[k],
                        time_start@,
                        time_end@,
                        day,
                    ),
                forall|j: int|
                    0 <= j < i && room_is_free(
                        self@,
                        #[trigger] rooms.deep_view()[j],
                        time_start@,
                        time_end@,
                        day,
                    ) ==> out.deep_view().contains(rooms.deep_view()[j]),
            decreases rooms.len() - i,
        {
            let room = &rooms[i];
            proof {
                assert(rooms.deep_view()[i as int] == rooms@[i as int]@);
            }
            let found = self.find_course_in_room_at_time_range(
                room.as_str(),
                time_start,
                time_end,
                day,
            );
            let ghost out0 = out;
            if found.len() == 0 {
                let rc = room.clone();
                let ghost rg = rc;
                out.push(rc);
                proof {
                    lemma_push_deep_view(out0, out, rg);
                    assert(rg@ == rooms.deep_view()[i as int]);
                    assert forall|a: int, b: int|
                        0 <= a < b < out.deep_view().len() implies lex_lt(
                        out.deep_view()[a],
                        out.deep_view()[b],
                    ) by {
                        if b == out.deep_view().len() - 1 {
                            let j = choose|j: int|
                                0 <= j < i && out0.deep_view()[a] == rooms.deep_view()[j];
                            assert(lex_lt(rooms.deep_view()[j], rooms.deep_view()[i as int]));
                        }
                    }
                    assert forall|j: int|
                        0 <= j <= i && room_is_free(
                            self@,
                            #[trigger] rooms.deep_view()[j],
                            time_start@,
                            time_end@,
                            day,
                        ) implies out.deep_view().contains(rooms.deep_view()[j]) by {
                        if j < i as int {
                            assert(out0.deep_view().contains(rooms.deep_view()[j]));
                            let k = choose|k: int|
                                0 <= k < out0.deep_view().len() && out0.deep_view()[k]
                                    == rooms.deep_view()[j];
                            assert(out.deep_view()[k] == rooms.deep_view()[j]);
                            assert(out.deep_view().contains(rooms.deep_view()[j]));
                        } else {
                            assert(out.deep_view()[out.deep_view().len() - 1]
                                == rooms.deep_view()[j]);
                            assert(out.deep_view().contains(rooms.deep_view()[j]));
                        }
                    }
                }
            } else {
                proof {
                    assert(found.deep_view().len() == found@.len());
                    assert(!room_is_free(
                        self@,
                        rooms.deep_view()[i as int],
                        time_start@,
                        time_end@,
                        day,
                    ));
                    assert forall|j: int|
                        0 <= j <= i && room_is_free(
                            self@,
                            #[trigger] rooms.deep_view()[j],
                            time_start@,
                            time_end@,
                            day,
                        ) implies out.deep_view().contains(rooms.deep_view()[j]) by {
                        if j < i as int {
                            assert(out.deep_view().contains(rooms.deep_view()[j]));
                        }
                    }
                }
            }
            i = i + 1;
        }
        proof {
            assert forall|k: int, l: int|
                0 <= k < l < out.deep_view().len() implies out.deep_view()[k]
                != out.deep_view()[l] by {
                crate::text::lemma_lex_lt_trichotomy(out.deep_view()[k], out.deep_view()[l]);
            }
            assert forall|k: int|
                0 <= k < out.deep_view().len() implies db_rooms(self@).contains(
                #[trigger] out.deep_view()[k],
            ) by {
                let j = choose|j: int|
                    0 <= j < i && out.deep_view()[k] == rooms.deep_view()[j];
                assert(rooms.deep_view().contains(out.deep_view()[k]));
                assert(rooms.deep_view().to_set().contains(out.deep_view()[k]));
            }
            assert forall|room: Seq<char>|
                db_rooms(self@).contains(room) && room_is_free(
                    self@,
                    room,
                    time_start@,
                    time_end@,
                    day,
                ) implies out.deep_view().contains(room) by {
                assert(rooms.deep_view().to_set().contains(room));
                assert(rooms.deep_view().contains(room));
                let j = choose|j: int|
                    0 <= j < rooms.deep_view().len() && rooms.deep_view()[j] == room;
                assert(out.deep_view().contains(rooms.deep_view()[j]));
            }
        }
        out
    }
}

} // verus!

//! The regular schedule and its overlay: where the table only says that a
//! lesson runs "as scheduled", the lesson is looked up here by weekday, group,
//! slot and week parity.

use crate::date::Weekday;
use crate::text::{chars_eq, chars_of};
use crate::timetable::{clone_opt, opt_view, or_else, Lesson, LessonData, Num};
use vstd::prelude::*;

verus! {

/// What a lesson of the regular schedule says.
pub ghost struct DefaultLessonData {
    pub num: Num,
    pub name: Seq<char>,
    pub is_even: Option<bool>,
    pub subgroup: Option<u8>,
    pub teacher: Option<Seq<char>>,
    pub classroom: Option<Seq<char>>,
}

/// A lesson of the regular schedule. Where `is_even` is set, the lesson runs
/// only in weeks of that parity.
#[derive(Debug, PartialEq, Eq)]
pub struct DefaultLesson {
    pub num: Num,
    pub name: String,
    pub is_even: Option<bool>,
    pub subgroup: Option<u8>,
    pub teacher: Option<String>,
    pub classroom: Option<String>,
}

impl View for DefaultLesson {
    type V = DefaultLessonData;

    open spec fn view(&self) -> DefaultLessonData {
        DefaultLessonData {
            num: self.num,
            name: self.name@,
            is_even: self.is_even,
            subgroup: self.subgroup,
            teacher: opt_view(self.teacher),
            classroom: opt_view(self.classroom),
        }
    }
}

/// The values of a run of regular lessons.
pub open spec fn default_lesson_views(lessons: Seq<DefaultLesson>) -> Seq<DefaultLessonData> {
    Seq::new(lessons.len(), |k: int| lessons[k]@)
}

/// What the regular schedule holds for one group on one weekday.
pub ghost struct DefaultGroupData {
    pub name: Seq<char>,
    pub lessons: Seq<DefaultLessonData>,
}

/// The regular lessons of one group on one weekday.
#[derive(Debug, PartialEq, Eq)]
pub struct DefaultGroup {
    pub name: String,
    pub lessons: Vec<DefaultLesson>,
}

impl View for DefaultGroup {
    type V = DefaultGroupData;

    open spec fn view(&self) -> DefaultGroupData {
        DefaultGroupData { name: self.name@, lessons: default_lesson_views(self.lessons@) }
    }
}

/// The values of a run of regular groups.
pub open spec fn default_group_views(groups: Seq<DefaultGroup>) -> Seq<DefaultGroupData> {
    Seq::new(groups.len(), |k: int| groups[k]@)
}

/// What the regular schedule holds for one weekday.
pub ghost struct DefaultDayData {
    pub day: Weekday,
    pub groups: Seq<DefaultGroupData>,
}

/// The regular schedule of one weekday.
#[derive(Debug, PartialEq, Eq)]
pub struct DefaultDay {
    pub day: Weekday,
    pub groups: Vec<DefaultGroup>,
}

impl View for DefaultDay {
    type V = DefaultDayData;

    open spec fn view(&self) -> DefaultDayData {
        DefaultDayData { day: self.day, groups: default_group_views(self.groups@) }
    }
}

/// The values of a run of regular days.
pub open spec fn default_day_views(days: Seq<DefaultDay>) -> Seq<DefaultDayData> {
    Seq::new(days.len(), |k: int| days[k]@)
}

/// The first day at or after `i` that is the given weekday.
pub open spec fn find_day(days: Seq<DefaultDayData>, weekday: Weekday, i: int) -> Option<
    DefaultDayData,
>
    decreases days.len() - i,
{
    if i < 0 || i >= days.len() {
        None
    } else if days[i].day == weekday {
        Some(days[i])
    } else {
        find_day(days, weekday, i + 1)
    }
}

/// The first group at or after `i` with the given name.
pub open spec fn find_group(groups: Seq<DefaultGroupData>, name: Seq<char>, i: int) -> Option<
    DefaultGroupData,
>
    decreases groups.len() - i,
{
    if i < 0 || i >= groups.len() {
        None
    } else if groups[i].name == name {
        Some(groups[i])
    } else {
        find_group(groups, name, i + 1)
    }
}

/// The regular lesson is the one of the given slot in a week of the given
/// parity.
pub open spec fn applies(l: DefaultLessonData, num: Num, is_even: bool) -> bool {
    l.num == num && (l.is_even.is_none() || l.is_even == Some(is_even))
}

/// The first lesson at or after `i` that applies.
pub open spec fn find_lesson(lessons: Seq<DefaultLessonData>, num: Num, is_even: bool, i: int)
    -> Option<DefaultLessonData>
    decreases lessons.len() - i,
{
    if i < 0 || i >= lessons.len() {
        None
    } else if applies(lessons[i], num, is_even) {
        Some(lessons[i])
    } else {
        find_lesson(lessons, num, is_even, i + 1)
    }
}

/// The regular lesson of a group in a slot: in the first day of the given
/// weekday, in its first group of the given name, the first lesson of that
/// slot that runs in a week of the given parity.
pub open spec fn default_lesson(
    days: Seq<DefaultDayData>,
    weekday: Weekday,
    group: Seq<char>,
    num: Num,
    is_even: bool,
) -> Option<DefaultLessonData> {
    match find_day(days, weekday, 0) {
        Some(d) => match find_group(d.groups, group, 0) {
            Some(g) => find_lesson(g.lessons, num, is_even, 0),
            None => None,
        },
        None => None,
    }
}

/// The regular lesson as a lesson of the given slot.
pub open spec fn as_lesson(d: DefaultLessonData, num: Num) -> LessonData {
    LessonData {
        num,
        name: d.name,
        subgroup: d.subgroup,
        teacher: d.teacher,
        classroom: d.classroom,
    }
}

/// A lesson with the regular lesson laid over it: name, subgroup and teacher
/// are the regular ones; the classroom is the lesson's own where it has one.
pub open spec fn overlaid(l: LessonData, d: DefaultLessonData) -> LessonData {
    LessonData {
        num: l.num,
        name: d.name,
        subgroup: d.subgroup,
        teacher: d.teacher,
        classroom: or_else(l.classroom, d.classroom),
    }
}

/// The lesson name says that the regular schedule holds.
pub open spec fn is_regular(name: Seq<char>) -> bool {
    name == "По расписанию"@ || name == "по расписанию"@
}

/// The lesson name announces a day of independent work.
pub open spec fn is_self_study(name: Seq<char>) -> bool {
    name == "День самостоятельной работы"@
}

/// The lesson that a parsed lesson of a group stands for: where its name
/// refers to the regular schedule and that holds a lesson for the slot, the
/// regular lesson laid over it; otherwise the lesson as it is.
pub open spec fn resolved(
    l: LessonData,
    group: Seq<char>,
    days: Seq<DefaultDayData>,
    weekday: Weekday,
    is_even: bool,
) -> LessonData {
    if is_regular(l.name) {
        match default_lesson(days, weekday, group, l.num, is_even) {
            Some(d) => overlaid(l, d),
            None => l,
        }
    } else {
        l
    }
}

/// A day of independent work is never replaced by the regular schedule.
pub proof fn lemma_self_study_kept(
    l: LessonData,
    group: Seq<char>,
    days: Seq<DefaultDayData>,
    weekday: Weekday,
    is_even: bool,
)
    requires
        is_self_study(l.name),
    ensures
        resolved(l, group, days, weekday, is_even) == l,
{
    reveal_strlit("День самостоятельной работы");
    reveal_strlit("По расписанию");
    reveal_strlit("по расписанию");
    assert(l.name.len() == 27);
}

/// A classroom that the table states survives the overlay; every other
/// field but the slot comes from the regular lesson.
pub proof fn lemma_overlay_keeps_classroom(
    l: LessonData,
    group: Seq<char>,
    days: Seq<DefaultDayData>,
    weekday: Weekday,
    is_even: bool,
)
    requires
        is_regular(l.name),
        default_lesson(days, weekday, group, l.num, is_even).is_some(),
    ensures
        ({
            let d = default_lesson(days, weekday, group, l.num, is_even).unwrap();
            let r = resolved(l, group, days, weekday, is_even);
            &&& r.num == l.num
            &&& r.name == d.name
            &&& r.teacher == d.teacher
            &&& r.subgroup == d.subgroup
            &&& l.classroom.is_some() ==> r.classroom == l.classroom
            &&& l.classroom.is_none() ==> r.classroom == d.classroom
        }),
{
}

fn lookup_day(days: &Vec<DefaultDay>, weekday: Weekday) -> (r: Option<&DefaultDay>)
    ensures
        match r {
            Some(d) => find_day(default_day_views(days@), weekday, 0) == Some(d@),
            None => find_day(default_day_views(days@), weekday, 0).is_none(),
        },
{
    let ghost model = default_day_views(days@);
    let mut i: usize = 0;
    while i < days.len()
        invariant
            i <= days.len(),
            model == default_day_views(days@),
            find_day(model, weekday, 0) == find_day(model, weekday, i as int),
        decreases days.len() - i,
    {
        assert(model[i as int] == days@[i as int]@);
        if days[i].day == weekday {
            return Some(&days[i]);
        }
        i = i + 1;
    }
    None
}

fn lookup_group<'a>(groups: &'a Vec<DefaultGroup>, name: &String) -> (r: Option<&'a DefaultGroup>)
    ensures
        match r {
            Some(g) => find_group(default_group_views(groups@), name@, 0) == Some(g@),
            None => find_group(default_group_views(groups@), name@, 0).is_none(),
        },
{
    let ghost model = default_group_views(groups@);
    let mut i: usize = 0;
    while i < groups.len()
        invariant
            i <= groups.len(),
            model == default_group_views(groups@),
            find_group(model, name@, 0) == find_group(model, name@, i as int),
        decreases groups.len() - i,
    {
        assert(model[i as int] == groups@[i as int]@);
        if groups[i].name == *name {
            return Some(&groups[i]);
        }
        i = i + 1;
    }
    None
}

fn lookup_lesson(lessons: &Vec<DefaultLesson>, num: Num, is_even: bool) -> (r: Option<
    &DefaultLesson,
>)
    ensures
        match r {
            Some(l) => find_lesson(default_lesson_views(lessons@), num, is_even, 0) == Some(l@),
            None => find_lesson(default_lesson_views(lessons@), num, is_even, 0).is_none(),
        },
{
    let ghost model = default_lesson_views(lessons@);
    let mut i: usize = 0;
    while i < lessons.len()
        invariant
            i <= lessons.len(),
            model == default_lesson_views(lessons@),
            find_lesson(model, num, is_even, 0) == find_lesson(model, num, is_even, i as int),
        decreases lessons.len() - i,
    {
        assert(model[i as int] == lessons@[i as int]@);
        let l = &lessons[i];
        let parity_fits = match l.is_even {
            Some(e) => e == is_even,
            None => true,
        };
        if l.num == num && parity_fits {
            return Some(l);
        }
        i = i + 1;
    }
    None
}

/// The regular schedule of a group on a weekday: the first group of that
/// name in the first day of that weekday.
pub fn default_for<'a>(days: &'a Vec<DefaultDay>, weekday: Weekday, group_name: &str) -> (r:
    Option<&'a DefaultGroup>)
    ensures
        match r {
            Some(g) => match find_day(default_day_views(days@), weekday, 0) {
                Some(d) => find_group(d.groups, group_name@, 0) == Some(g@),
                None => false,
            },
            None => match find_day(default_day_views(days@), weekday, 0) {
                Some(d) => find_group(d.groups, group_name@, 0).is_none(),
                None => true,
            },
        },
{
    let name = group_name.to_owned();
    match lookup_day(days, weekday) {
        Some(d) => lookup_group(&d.groups, &name),
        None => None,
    }
}

fn lookup<'a>(
    days: &'a Vec<DefaultDay>,
    weekday: Weekday,
    group_name: &str,
    num: Num,
    is_even: bool,
) -> (r: Option<&'a DefaultLesson>)
    ensures
        match r {
            Some(l) => default_lesson(default_day_views(days@), weekday, group_name@, num, is_even)
                == Some(l@),
            None => default_lesson(
                default_day_views(days@),
                weekday,
                group_name@,
                num,
                is_even,
            ).is_none(),
        },
{
    match default_for(days, weekday, group_name) {
        Some(g) => lookup_lesson(&g.lessons, num, is_even),
        None => None,
    }
}

/// Looks the regular lesson of a group in a slot up, for the given weekday
/// and week parity, and returns it as a lesson of that slot. `None` where
/// the regular schedule holds no such lesson.
pub fn replace(
    num: Num,
    group_name: &str,
    weekday: Weekday,
    is_even: bool,
    days: &Vec<DefaultDay>,
) -> (r: Option<Lesson>)
    ensures
        match default_lesson(default_day_views(days@), weekday, group_name@, num, is_even) {
            Some(d) => r.is_some() && r.unwrap()@ == as_lesson(d, num),
            None => r.is_none(),
        },
{
    match lookup(days, weekday, group_name, num, is_even) {
        Some(l) => Some(
            Lesson {
                num,
                name: l.name.clone(),
                subgroup: l.subgroup,
                teacher: clone_opt(&l.teacher),
                classroom: clone_opt(&l.classroom),
            },
        ),
        None => None,
    }
}

/// Lays the regular lesson of the slot over a lesson, where the regular
/// schedule holds one; the lesson's own classroom stays where it has one.
pub fn try_replace(
    lesson: &mut Lesson,
    group_name: &str,
    weekday: Weekday,
    is_even: bool,
    days: &Vec<DefaultDay>,
)
    ensures
        final(lesson)@ == match default_lesson(
            default_day_views(days@),
            weekday,
            group_name@,
            old(lesson)@.num,
            is_even,
        ) {
            Some(d) => overlaid(old(lesson)@, d),
            None => old(lesson)@,
        },
{
    match lookup(days, weekday, group_name, lesson.num, is_even) {
        Some(l) => {
            lesson.name = l.name.clone();
            lesson.subgroup = l.subgroup;
            lesson.teacher = clone_opt(&l.teacher);
            if lesson.classroom.is_none() {
                lesson.classroom = clone_opt(&l.classroom);
            }
        },
        None => {},
    }
}

/// Whether a lesson name refers to the regular schedule.
pub fn names_regular(name: &str) -> (r: bool)
    ensures
        r == is_regular(name@),
{
    let chars = chars_of(name);
    let upper = chars_of("По расписанию");
    let lower = chars_of("по расписанию");
    chars_eq(&chars, &upper) || chars_eq(&chars, &lower)
}

/// Lays the regular schedule over a lesson whose name refers to it; any
/// other lesson stays as it is.
pub fn try_replace_if_need(
    group_name: &str,
    lesson: &mut Lesson,
    weekday: Weekday,
    is_even: bool,
    days: &Vec<DefaultDay>,
)
    ensures
        final(lesson)@ == resolved(
            old(lesson)@,
            group_name@,
            default_day_views(days@),
            weekday,
            is_even,
        ),
{
    if names_regular(lesson.name.as_str()) {
        try_replace(lesson, group_name, weekday, is_even, days)
    }
}

/// The short English name of a weekday.
pub open spec fn weekday_label(day: Weekday) -> Seq<char> {
    match day {
        Weekday::Mon => "Mon"@,
        Weekday::Tue => "Tue"@,
        Weekday::Wed => "Wed"@,
        Weekday::Thu => "Thu"@,
        Weekday::Fri => "Fri"@,
        Weekday::Sat => "Sat"@,
        Weekday::Sun => "Sun"@,
    }
}

/// The names of the first `k` groups, written one after the other.
pub open spec fn names_joined(groups: Seq<DefaultGroupData>, k: int) -> Seq<char>
    decreases k,
{
    if k <= 0 || k > groups.len() {
        Seq::empty()
    } else {
        names_joined(groups, k - 1) + groups[k - 1].name
    }
}

/// The line that tells which groups a day of the regular schedule holds:
/// the weekday's label, a colon and a space, then the groups' names.
pub open spec fn day_summary(day: DefaultDayData) -> Seq<char> {
    weekday_label(day.day) + ": "@ + names_joined(day.groups, day.groups.len() as int)
}

fn summary_of(day: &DefaultDay) -> (out: String)
    ensures
        out@ == day_summary(day@),
{
    let mut out = match day.day {
        Weekday::Mon => "Mon".to_owned(),
        Weekday::Tue => "Tue".to_owned(),
        Weekday::Wed => "Wed".to_owned(),
        Weekday::Thu => "Thu".to_owned(),
        Weekday::Fri => "Fri".to_owned(),
        Weekday::Sat => "Sat".to_owned(),
        Weekday::Sun => "Sun".to_owned(),
    };
    out.append(": ");
    let ghost head = out@;
    let ghost model = day@.groups;
    let mut k: usize = 0;
    assert(head + Seq::<char>::empty() == head);
    while k < day.groups.len()
        invariant
            k <= day.groups.len(),
            model == day@.groups,
            out@ == head + names_joined(model, k as int),
        decreases day.groups.len() - k,
    {
        assert(model[k as int] == day.groups@[k as int]@);
        out.append(day.groups[k].name.as_str());
        assert(out@ == head + names_joined(model, k + 1));
        k = k + 1;
    }
    out
}

/// Goes through the loaded regular schedule and tells, day by day, which
/// groups it holds: one line for each day.
pub fn warmup_defaults(days: &Vec<DefaultDay>) -> (out: Vec<String>)
    ensures
        out@.len() == days@.len(),
        forall|k: int| 0 <= k < days@.len() ==> (#[trigger] out@[k])@ == day_summary(days@[k]@),
{
    let mut out: Vec<String> = Vec::new();
    let mut i: usize = 0;
    while i < days.len()
        invariant
            i <= days.len(),
            out@.len() == i,
            forall|k: int| 0 <= k < i ==> (#[trigger] out@[k])@ == day_summary(days@[k]@),
        decreases days.len() - i,
    {
        out.push(summary_of(&days[i]));
        i = i + 1;
    }
    out
}

/// The lessons with the regular schedule laid over each that refers to it.
pub open spec fn resolved_all(
    lessons: Seq<LessonData>,
    group: Seq<char>,
    days: Seq<DefaultDayData>,
    weekday: Weekday,
    is_even: bool,
) -> Seq<LessonData> {
    Seq::new(lessons.len(), |k: int| resolved(lessons[k], group, days, weekday, is_even))
}

fn replace_in(
    lessons: &Vec<Lesson>,
    group_name: &str,
    weekday: Weekday,
    is_even: bool,
    days: &Vec<DefaultDay>,
) -> (out: Vec<Lesson>)
    ensures
        crate::timetable::lesson_views(out@) == resolved_all(
            crate::timetable::lesson_views(lessons@),
            group_name@,
            default_day_views(days@),
            weekday,
            is_even,
        ),
{
    let mut out: Vec<Lesson> = Vec::new();
    let mut i: usize = 0;
    while i < lessons.len()
        invariant
            i <= lessons.len(),
            out@.len() == i,
            forall|k: int|
                0 <= k < i ==> (#[trigger] out@[k])@ == resolved(
                    lessons@[k]@,
                    group_name@,
                    default_day_views(days@),
                    weekday,
                    is_even,
                ),
        decreases lessons.len() - i,
    {
        let mut lesson = lessons[i].clone();
        try_replace_if_need(group_name, &mut lesson, weekday, is_even, days);
        out.push(lesson);
        i = i + 1;
    }
    assert(crate::timetable::lesson_views(out@) =~= resolved_all(
        crate::timetable::lesson_views(lessons@),
        group_name@,
        default_day_views(days@),
        weekday,
        is_even,
    ));
    out
}

/// Lays the regular schedule over every lesson of every group that refers
/// to it, and works the groups' fingerprints out anew.
pub fn replace_all(
    groups: &mut Vec<crate::timetable::Group>,
    weekday: Weekday,
    is_even: bool,
    days: &Vec<DefaultDay>,
)
    ensures
        final(groups)@.len() == old(groups)@.len(),
        forall|k: int|
            0 <= k < old(groups)@.len() ==> {
                &&& (#[trigger] final(groups)@[k])@.name == old(groups)@[k]@.name
                &&& final(groups)@[k]@.lessons == resolved_all(
                    old(groups)@[k]@.lessons,
                    old(groups)@[k]@.name,
                    default_day_views(days@),
                    weekday,
                    is_even,
                )
                &&& final(groups)@[k].wf()
            },
{
    let ghost start = groups@;
    let mut fresh: Vec<crate::timetable::Group> = Vec::new();
    let mut i: usize = 0;
    while i < groups.len()
        invariant
            i <= groups.len(),
            groups@ == start,
            fresh@.len() == i,
            forall|k: int|
                0 <= k < i ==> {
                    &&& (#[trigger] fresh@[k])@.name == start[k]@.name
                    &&& fresh@[k]@.lessons == resolved_all(
                        start[k]@.lessons,
                        start[k]@.name,
                        default_day_views(days@),
                        weekday,
                        is_even,
                    )
                    &&& fresh@[k].wf()
                },
        decreases groups.len() - i,
    {
        let lessons = replace_in(
            &groups[i].lessons,
            groups[i].name.as_str(),
            weekday,
            is_even,
            days,
        );
        let mut group = crate::timetable::Group {
            uid: String::new(),
            name: groups[i].name.clone(),
            lessons,
        };
        group.uid = crate::digest::Uid::uid(&group);
        fresh.push(group);
        i = i + 1;
    }
    *groups = fresh;
}

} // verus!

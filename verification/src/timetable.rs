//! The timetable's data: lesson numbers, lessons and groups, each with the
//! mathematical value that the contracts of this library speak of.

use vstd::prelude::*;

verus! {

/// The number of a lesson slot within the day.
#[derive(Debug, Clone, Copy, PartialEq, Eq, Structural)]
pub enum Num {
    /// A slot that the timetable states.
    Actual(u8),
    /// A slot that the timetable leaves to the row above.
    Previous,
    /// No slot at all.
    Absent,
}

impl Num {
    /// Whether a slot is stated.
    pub open spec fn spec_is_some(&self) -> bool {
        self is Actual
    }

    /// Whether a slot is stated.
    #[verifier::when_used_as_spec(spec_is_some)]
    pub fn is_some(&self) -> (r: bool)
        ensures
            r == (self is Actual),
    {
        match self {
            Num::Actual(_) => true,
            _ => false,
        }
    }

    /// Whether no slot is known.
    pub fn is_none(&self) -> (r: bool)
        ensures
            r == (self is Absent),
    {
        match self {
            Num::Absent => true,
            _ => false,
        }
    }

    /// The place of a number in the order of lessons: stated slots by their
    /// number, then slots left open, then missing ones.
    pub open spec fn rank(&self) -> int {
        match self {
            Num::Actual(n) => *n as int,
            Num::Previous => 256,
            Num::Absent => 257,
        }
    }

    /// The place of the number in the order of lessons.
    pub fn order_key(&self) -> (r: u16)
        ensures
            r as int == self.rank(),
    {
        match self {
            Num::Actual(n) => *n as u16,
            Num::Previous => 256,
            Num::Absent => 257,
        }
    }

    /// The text of a number as the timetable shows it.
    pub open spec fn text(&self) -> Seq<char> {
        match self {
            Num::Actual(n) => crate::text::decimal_text(*n as nat),
            Num::Previous => seq!['?'],
            Num::Absent => seq!['Н', 'е', 'т'],
        }
    }

    /// The number as the timetable shows it.
    pub fn to_text(&self) -> (r: String)
        ensures
            r@ == self.text(),
    {
        let mut out: Vec<char> = Vec::new();
        match self {
            Num::Actual(n) => {
                out = crate::text::decimal_chars(*n as u32);
            },
            Num::Previous => {
                out.push('?');
            },
            Num::Absent => {
                out.push('Н');
                out.push('е');
                out.push('т');
            },
        }
        crate::text::string_of(&out)
    }
}

impl Default for Num {
    fn default() -> (r: Num)
        ensures
            r == Num::Absent,
    {
        Num::Absent
    }
}

/// The value of an optional text.
pub open spec fn opt_view(o: Option<String>) -> Option<Seq<char>> {
    match o {
        Some(s) => Some(s@),
        None => None,
    }
}

/// The text of an optional field, empty where the field is absent.
pub open spec fn or_empty(o: Option<Seq<char>>) -> Seq<char> {
    match o {
        Some(s) => s,
        None => Seq::empty(),
    }
}

/// A copy of an optional text.
pub fn clone_opt(o: &Option<String>) -> (r: Option<String>)
    ensures
        r == *o,
{
    match o {
        Some(s) => Some(s.clone()),
        None => None,
    }
}

/// What a lesson says.
pub ghost struct LessonData {
    pub num: Num,
    pub name: Seq<char>,
    pub subgroup: Option<u8>,
    pub teacher: Option<Seq<char>>,
    pub classroom: Option<Seq<char>>,
}

/// One lesson of a group's day.
#[derive(Debug, PartialEq, Eq)]
pub struct Lesson {
    pub num: Num,
    pub name: String,
    pub subgroup: Option<u8>,
    pub teacher: Option<String>,
    pub classroom: Option<String>,
}

impl View for Lesson {
    type V = LessonData;

    open spec fn view(&self) -> LessonData {
        LessonData {
            num: self.num,
            name: self.name@,
            subgroup: self.subgroup,
            teacher: opt_view(self.teacher),
            classroom: opt_view(self.classroom),
        }
    }
}

impl Clone for Lesson {
    fn clone(&self) -> (r: Lesson)
        ensures
            r == *self,
    {
        Lesson {
            num: self.num,
            name: self.name.clone(),
            subgroup: self.subgroup,
            teacher: clone_opt(&self.teacher),
            classroom: clone_opt(&self.classroom),
        }
    }
}

/// The values of a run of lessons.
pub open spec fn lesson_views(lessons: Seq<Lesson>) -> Seq<LessonData> {
    Seq::new(lessons.len(), |k: int| lessons[k]@)
}

/// A copy of a run of lessons.
pub fn clone_lessons(lessons: &Vec<Lesson>) -> (r: Vec<Lesson>)
    ensures
        r@ == lessons@,
{
    let mut out: Vec<Lesson> = Vec::new();
    let mut i: usize = 0;
    while i < lessons.len()
        invariant
            i <= lessons.len(),
            out@ == lessons@.subrange(0, i as int),
        decreases lessons.len() - i,
    {
        out.push(lessons[i].clone());
        i = i + 1;
    }
    assert(lessons@.subrange(0, lessons.len() as int) == lessons@);
    out
}

/// What a group holds.
pub ghost struct GroupData {
    pub uid: Seq<char>,
    pub name: Seq<char>,
    pub lessons: Seq<LessonData>,
}

/// A student group with its lessons of the day.
#[derive(Debug, PartialEq, Eq)]
pub struct Group {
    pub uid: String,
    pub name: String,
    pub lessons: Vec<Lesson>,
}

impl View for Group {
    type V = GroupData;

    open spec fn view(&self) -> GroupData {
        GroupData { uid: self.uid@, name: self.name@, lessons: lesson_views(self.lessons@) }
    }
}

impl Clone for Group {
    fn clone(&self) -> (r: Group)
        ensures
            r@ == self@,
            r.lessons@ == self.lessons@,
    {
        Group {
            uid: self.uid.clone(),
            name: self.name.clone(),
            lessons: clone_lessons(&self.lessons),
        }
    }
}

/// The values of a run of groups.
pub open spec fn group_views(groups: Seq<Group>) -> Seq<GroupData> {
    Seq::new(groups.len(), |k: int| groups[k]@)
}

/// The first of two optional values that is present.
pub open spec fn or_else<T>(a: Option<T>, b: Option<T>) -> Option<T> {
    match a {
        Some(_) => a,
        None => b,
    }
}

} // verus!

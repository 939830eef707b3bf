//! The assembler: from the flat list of lesson entries to the tracked
//! groups, each with its lessons in ascending slot order and its
//! fingerprint.

use crate::date::Weekday;
use crate::default::{default_day_views, resolved, try_replace_if_need, DefaultDay, DefaultDayData};
use crate::digest::{group_uid, Uid};
use crate::reconcile::{entry_views, EntryData, LessonEntry};
use crate::text::{chars_of, eq_ignoring_case, same_ignoring_case, texts};
use crate::timetable::{clone_opt, group_views, lesson_views, Group, GroupData, Lesson, LessonData, Num};
use vstd::prelude::*;

verus! {

/// The lesson name says that there is no lesson, in whatever case it is
/// written.
pub open spec fn is_no_lesson(name: Seq<char>) -> bool {
    same_ignoring_case(name, "Нет"@)
}

/// The slot is a stated number above zero.
pub open spec fn is_real_slot(num: Num) -> bool {
    match num {
        Num::Actual(n) => n > 0,
        _ => false,
    }
}

/// The entry is a lesson: it has a real slot, and its name does not say
/// that there is none.
pub open spec fn keeps(e: EntryData) -> bool {
    is_real_slot(e.slot_number) && !is_no_lesson(e.name)
}

/// The lesson that an entry states by itself.
pub open spec fn own_lesson(e: EntryData) -> LessonData {
    LessonData {
        num: e.slot_number,
        name: e.name,
        subgroup: e.subgroup,
        teacher: e.teacher,
        classroom: e.classroom,
    }
}

/// The lesson that an entry stands for, with the regular schedule laid over
/// it where its name refers to that.
pub open spec fn lesson_of(
    e: EntryData,
    days: Seq<DefaultDayData>,
    weekday: Weekday,
    is_even: bool,
) -> LessonData {
    resolved(own_lesson(e), e.group_name, days, weekday, is_even)
}

/// The lessons of the group `name` among the entries, in the entries' order.
pub open spec fn lessons_for(
    entries: Seq<EntryData>,
    name: Seq<char>,
    days: Seq<DefaultDayData>,
    weekday: Weekday,
    is_even: bool,
) -> Seq<LessonData>
    decreases entries.len(),
{
    if entries.len() == 0 {
        Seq::empty()
    } else {
        let head = lessons_for(entries.drop_last(), name, days, weekday, is_even);
        let e = entries.last();
        if e.group_name == name && keeps(e) {
            head.push(lesson_of(e, days, weekday, is_even))
        } else {
            head
        }
    }
}

/// Where a lesson goes into a run of lessons in slot order: behind the last
/// lesson whose slot is not above its own.
pub open spec fn insert_at(s: Seq<LessonData>, l: LessonData) -> int
    decreases s.len(),
{
    if s.len() == 0 || s.last().num.rank() <= l.num.rank() {
        s.len() as int
    } else {
        insert_at(s.drop_last(), l)
    }
}

/// The lessons in ascending slot order, lessons of one slot in the order
/// they came in.
pub open spec fn sorted_by_slot(s: Seq<LessonData>) -> Seq<LessonData>
    decreases s.len(),
{
    if s.len() == 0 {
        Seq::empty()
    } else {
        let head = sorted_by_slot(s.drop_last());
        head.insert(insert_at(head, s.last()), s.last())
    }
}

/// The slots of the lessons never go down.
pub open spec fn ascending(s: Seq<LessonData>) -> bool {
    forall|i: int, j: int| 0 <= i < j < s.len() ==> s[i].num.rank() <= s[j].num.rank()
}

/// The place where a lesson goes in lies behind every lesson whose slot is
/// not above its own and before every lesson whose slot is.
pub proof fn lemma_insert_at_bounds(s: Seq<LessonData>, l: LessonData)
    ensures
        0 <= insert_at(s, l) <= s.len(),
        forall|k: int| insert_at(s, l) <= k < s.len() ==> s[k].num.rank() > l.num.rank(),
        insert_at(s, l) > 0 ==> s[insert_at(s, l) - 1].num.rank() <= l.num.rank(),
    decreases s.len(),
{
    if s.len() > 0 && s.last().num.rank() > l.num.rank() {
        let head = s.drop_last();
        lemma_insert_at_bounds(head, l);
        assert forall|k: int| insert_at(s, l) <= k < s.len() implies s[k].num.rank()
            > l.num.rank() by {
            if k < head.len() {
                assert(s[k] == head[k]);
            }
        }
    }
}

/// Sorting gives the same lessons, each as often as before, in ascending
/// slot order.
pub proof fn lemma_sorted_by_slot(s: Seq<LessonData>)
    ensures
        ascending(sorted_by_slot(s)),
        sorted_by_slot(s).len() == s.len(),
        sorted_by_slot(s).to_multiset() == s.to_multiset(),
    decreases s.len(),
{
    if s.len() == 0 {
        assert(sorted_by_slot(s) == s);
    } else {
        let head = sorted_by_slot(s.drop_last());
        let l = s.last();
        let p = insert_at(head, l);
        lemma_sorted_by_slot(s.drop_last());
        lemma_insert_at_bounds(head, l);
        let out = head.insert(p, l);
        assert forall|i: int, j: int| 0 <= i < j < out.len() implies out[i].num.rank()
            <= out[j].num.rank() by {
            if j < p {
                assert(out[i] == head[i] && out[j] == head[j]);
            } else if j == p {
                assert(out[i] == head[i]);
                if p > 0 {
                    assert(head[i].num.rank() <= head[p - 1].num.rank()) by {
                        if i < p - 1 {
                        }
                    }
                }
            } else if i < p {
                assert(out[i] == head[i] && out[j] == head[j - 1]);
            } else if i == p {
                assert(out[j] == head[j - 1]);
            } else {
                assert(out[i] == head[i - 1] && out[j] == head[j - 1]);
            }
        }
        vstd::seq_lib::to_multiset_insert(head, p, l);
        assert(s == s.drop_last().push(l));
        vstd::seq_lib::to_multiset_build(s.drop_last(), l);
    }
}

/// An entry without a real slot, or with a name that says there is no
/// lesson, gives no lesson to any group.
pub proof fn lemma_dropped_entry_gives_nothing(
    entries: Seq<EntryData>,
    e: EntryData,
    name: Seq<char>,
    days: Seq<DefaultDayData>,
    weekday: Weekday,
    is_even: bool,
)
    requires
        !is_real_slot(e.slot_number) || is_no_lesson(e.name),
    ensures
        lessons_for(entries.push(e), name, days, weekday, is_even) == lessons_for(
            entries,
            name,
            days,
            weekday,
            is_even,
        ),
{
    assert(entries.push(e).drop_last() == entries);
}

/// Every lesson of a group has a real slot.
pub proof fn lemma_lessons_have_real_slots(
    entries: Seq<EntryData>,
    name: Seq<char>,
    days: Seq<DefaultDayData>,
    weekday: Weekday,
    is_even: bool,
)
    ensures
        forall|k: int|
            0 <= k < lessons_for(entries, name, days, weekday, is_even).len() ==> is_real_slot(
                (#[trigger] lessons_for(entries, name, days, weekday, is_even)[k]).num,
            ),
    decreases entries.len(),
{
    if entries.len() > 0 {
        lemma_lessons_have_real_slots(entries.drop_last(), name, days, weekday, is_even);
    }
}

/// The name at `i` does not stand earlier in the list.
pub open spec fn is_first(names: Seq<Seq<char>>, i: int) -> bool {
    forall|j: int| 0 <= j < i ==> #[trigger] names[j] != names[i]
}

/// The group of the given name as the entries state it.
pub open spec fn group_for(
    entries: Seq<EntryData>,
    name: Seq<char>,
    days: Seq<DefaultDayData>,
    weekday: Weekday,
    is_even: bool,
) -> GroupData {
    let lessons = sorted_by_slot(lessons_for(entries, name, days, weekday, is_even));
    GroupData { uid: group_uid(name, lessons), name, lessons }
}

/// The groups of the first `k` tracked names: one for each name that the
/// entries hold a lesson for, in the names' order, a repeated name counted
/// once.
pub open spec fn assembled(
    entries: Seq<EntryData>,
    group_names: Seq<Seq<char>>,
    k: int,
    days: Seq<DefaultDayData>,
    weekday: Weekday,
    is_even: bool,
) -> Seq<GroupData>
    decreases k,
{
    if k <= 0 || k > group_names.len() {
        Seq::empty()
    } else {
        let head = assembled(entries, group_names, k - 1, days, weekday, is_even);
        let name = group_names[k - 1];
        if is_first(group_names, k - 1) && lessons_for(entries, name, days, weekday, is_even).len()
            > 0 {
            head.push(group_for(entries, name, days, weekday, is_even))
        } else {
            head
        }
    }
}

/// The groups that the entries state, for the tracked names.
pub open spec fn groups_of(
    entries: Seq<EntryData>,
    group_names: Seq<Seq<char>>,
    days: Seq<DefaultDayData>,
    weekday: Weekday,
    is_even: bool,
) -> Seq<GroupData> {
    assembled(entries, group_names, group_names.len() as int, days, weekday, is_even)
}

/// The group is as an assembled group must be: it holds at least one
/// lesson, its lessons stand in ascending slot order, each has a real slot,
/// and its fingerprint is that of its name and lessons.
pub open spec fn sound_group(group: GroupData) -> bool {
    &&& group.lessons.len() > 0
    &&& ascending(group.lessons)
    &&& group.uid == group_uid(group.name, group.lessons)
    &&& forall|i: int| 0 <= i < group.lessons.len() ==> is_real_slot((#[trigger] group.lessons[i]).num)
}

/// The groups are as assembled groups must be: each is sound and named by
/// one of the names, and no two have the same name.
pub open spec fn well_assembled(groups: Seq<GroupData>, names: Seq<Seq<char>>) -> bool {
    &&& forall|g: int|
        0 <= g < groups.len() ==> sound_group(#[trigger] groups[g]) && names.contains(
            groups[g].name,
        )
    &&& forall|a: int, b: int|
        0 <= a < b < groups.len() ==> (#[trigger] groups[a]).name != (#[trigger] groups[b]).name
}

/// The group of a name that the entries hold a lesson for is sound.
pub proof fn lemma_group_for_is_sound(
    entries: Seq<EntryData>,
    name: Seq<char>,
    days: Seq<DefaultDayData>,
    weekday: Weekday,
    is_even: bool,
)
    requires
        lessons_for(entries, name, days, weekday, is_even).len() > 0,
    ensures
        sound_group(group_for(entries, name, days, weekday, is_even)),
{
    let raw = lessons_for(entries, name, days, weekday, is_even);
    lemma_sorted_by_slot(raw);
    lemma_lessons_have_real_slots(entries, name, days, weekday, is_even);
    let sorted = sorted_by_slot(raw);
    assert forall|i: int| 0 <= i < sorted.len() implies is_real_slot((#[trigger] sorted[i]).num) by {
        assert(sorted.to_multiset().count(sorted[i]) > 0) by {
            vstd::seq_lib::to_multiset_contains(sorted, sorted[i]);
        }
        assert(raw.contains(sorted[i])) by {
            vstd::seq_lib::to_multiset_contains(raw, sorted[i]);
        }
    }
}

/// The groups of the first `k` names are well assembled, each named by one
/// of these `k` names.
pub proof fn lemma_assembled_groups(
    entries: Seq<EntryData>,
    group_names: Seq<Seq<char>>,
    k: int,
    days: Seq<DefaultDayData>,
    weekday: Weekday,
    is_even: bool,
)
    requires
        0 <= k <= group_names.len(),
    ensures
        well_assembled(
            assembled(entries, group_names, k, days, weekday, is_even),
            group_names.subrange(0, k),
        ),
    decreases k,
{
    let out = assembled(entries, group_names, k, days, weekday, is_even);
    let known = group_names.subrange(0, k);
    if k > 0 {
        lemma_assembled_groups(entries, group_names, k - 1, days, weekday, is_even);
        let head = assembled(entries, group_names, k - 1, days, weekday, is_even);
        let before = group_names.subrange(0, k - 1);
        let name = group_names[k - 1];
        assert(known[k - 1] == name);
        assert forall|g: int| 0 <= g < head.len() implies known.contains(
            (#[trigger] head[g]).name,
        ) by {
            let w = choose|w: int| 0 <= w < before.len() && before[w] == head[g].name;
            assert(known[w] == head[g].name);
        }
        if is_first(group_names, k - 1) && lessons_for(entries, name, days, weekday, is_even).len()
            > 0 {
            lemma_group_for_is_sound(entries, name, days, weekday, is_even);
            assert forall|g: int| 0 <= g < out.len() implies sound_group(#[trigger] out[g])
                && known.contains(out[g].name) by {
                if g < head.len() {
                    assert(out[g] == head[g]);
                }
            }
            assert forall|a: int, b: int| 0 <= a < b < out.len() implies (#[trigger] out[a]).name
                != (#[trigger] out[b]).name by {
                if b < head.len() {
                    assert(out[a] == head[a] && out[b] == head[b]);
                } else {
                    assert(out[a] == head[a]);
                    let w = choose|w: int| 0 <= w < before.len() && before[w] == head[a].name;
                    assert(group_names[w] != group_names[k - 1]);
                }
            }
        }
    }
}

/// The groups that the entries state are well assembled.
pub proof fn lemma_groups_are_well_assembled(
    entries: Seq<EntryData>,
    group_names: Seq<Seq<char>>,
    days: Seq<DefaultDayData>,
    weekday: Weekday,
    is_even: bool,
)
    ensures
        well_assembled(groups_of(entries, group_names, days, weekday, is_even), group_names),
{
    lemma_assembled_groups(
        entries,
        group_names,
        group_names.len() as int,
        days,
        weekday,
        is_even,
    );
    assert(group_names.subrange(0, group_names.len() as int) == group_names);
}

/// Whether a lesson name says that there is no lesson.
pub fn names_no_lesson(name: &str) -> (r: bool)
    ensures
        r == is_no_lesson(name@),
{
    let chars = chars_of(name);
    let none = chars_of("Нет");
    eq_ignoring_case(&chars, &none)
}

fn entry_is_kept(e: &LessonEntry) -> (r: bool)
    ensures
        r == keeps(e@),
{
    let has_slot = match e.slot_number {
        Num::Actual(n) => n > 0,
        _ => false,
    };
    has_slot && !names_no_lesson(e.name.as_str())
}

/// The lesson that an entry stands for: the entry's own data, or, where its
/// name refers to the regular schedule and that holds a lesson for the
/// slot, the regular lesson with the entry's classroom if it has one.
pub fn replace_or_clone(
    entry: &LessonEntry,
    weekday: Weekday,
    is_even: bool,
    days: &Vec<DefaultDay>,
) -> (r: Lesson)
    ensures
        r@ == lesson_of(entry@, default_day_views(days@), weekday, is_even),
{
    let mut lesson = Lesson {
        num: entry.slot_number,
        name: entry.name.clone(),
        subgroup: entry.subgroup,
        teacher: clone_opt(&entry.teacher),
        classroom: clone_opt(&entry.classroom),
    };
    try_replace_if_need(entry.group_name.as_str(), &mut lesson, weekday, is_even, days);
    lesson
}

fn collect_lessons(
    entries: &Vec<LessonEntry>,
    name: &String,
    weekday: Weekday,
    is_even: bool,
    days: &Vec<DefaultDay>,
) -> (out: Vec<Lesson>)
    ensures
        lesson_views(out@) == lessons_for(
            entry_views(entries@),
            name@,
            default_day_views(days@),
            weekday,
            is_even,
        ),
{
    let ghost model = entry_views(entries@);
    let ghost dd = default_day_views(days@);
    let mut out: Vec<Lesson> = Vec::new();
    let mut i: usize = 0;
    assert(model.subrange(0, 0) == Seq::<EntryData>::empty());
    assert(lesson_views(out@) == Seq::<LessonData>::empty());
    while i < entries.len()
        invariant
            i <= entries.len(),
            model == entry_views(entries@),
            dd == default_day_views(days@),
            lesson_views(out@) == lessons_for(
                model.subrange(0, i as int),
                name@,
                dd,
                weekday,
                is_even,
            ),
        decreases entries.len() - i,
    {
        proof {
            let p = model.subrange(0, i + 1);
            assert(p.drop_last() == model.subrange(0, i as int));
            assert(p.last() == entries@[i as int]@);
        }
        let e = &entries[i];
        if e.group_name == *name && entry_is_kept(e) {
            let ghost before = out@;
            let lesson = replace_or_clone(e, weekday, is_even, days);
            out.push(lesson);
            assert(lesson_views(out@) == lesson_views(before).push(lesson@));
        }
        i = i + 1;
    }
    assert(model.subrange(0, entries.len() as int) == model);
    out
}

/// Puts lessons into ascending slot order; lessons of one slot stay in the
/// order they came in.
pub fn sort_lessons(lessons: &Vec<Lesson>) -> (out: Vec<Lesson>)
    ensures
        lesson_views(out@) == sorted_by_slot(lesson_views(lessons@)),
{
    let ghost model = lesson_views(lessons@);
    let mut out: Vec<Lesson> = Vec::new();
    let mut i: usize = 0;
    assert(model.subrange(0, 0) == Seq::<LessonData>::empty());
    assert(lesson_views(out@) == Seq::<LessonData>::empty());
    while i < lessons.len()
        invariant
            i <= lessons.len(),
            model == lesson_views(lessons@),
            out@.len() == i,
            lesson_views(out@) == sorted_by_slot(model.subrange(0, i as int)),
        decreases lessons.len() - i,
    {
        proof {
            let p = model.subrange(0, i + 1);
            assert(p.drop_last() == model.subrange(0, i as int));
            assert(p.last() == lessons@[i as int]@);
        }
        let lesson = lessons[i].clone();
        let key = lesson.num.order_key();
        let ghost head = lesson_views(out@);
        let mut j: usize = out.len();
        assert(head.subrange(0, j as int) == head);
        while j > 0 && out[j - 1].num.order_key() > key
            invariant
                j <= out.len(),
                head == lesson_views(out@),
                key as int == lesson@.num.rank(),
                insert_at(head, lesson@) == insert_at(head.subrange(0, j as int), lesson@),
            decreases j,
        {
            proof {
                let q = head.subrange(0, j as int);
                assert(q.last() == out@[j - 1]@);
                assert(q.drop_last() == head.subrange(0, j - 1));
            }
            j = j - 1;
        }
        proof {
            let q = head.subrange(0, j as int);
            if j > 0 {
                assert(q.last() == out@[j - 1]@);
            }
            assert(insert_at(q, lesson@) == j);
        }
        let ghost before = out@;
        out.insert(j, lesson);
        assert(lesson_views(out@) =~= lesson_views(before).insert(j as int, lesson@));
        i = i + 1;
    }
    assert(model.subrange(0, lessons.len() as int) == model);
    out
}

fn name_is_first(group_names: &Vec<String>, i: usize) -> (r: bool)
    requires
        i < group_names.len(),
    ensures
        r == is_first(texts(group_names@), i as int),
{
    let ghost names = texts(group_names@);
    let mut j: usize = 0;
    while j < i
        invariant
            j <= i,
            i < group_names.len(),
            names == texts(group_names@),
            forall|k: int| 0 <= k < j ==> #[trigger] names[k] != names[i as int],
        decreases i - j,
    {
        assert(names[j as int] == group_names@[j as int]@);
        assert(names[i as int] == group_names@[i as int]@);
        if group_names[j] == group_names[i] {
            return false;
        }
        j = j + 1;
    }
    true
}

/// Assembles the groups of a day: for each tracked name, in the list's
/// order, the lessons that the entries hold for it, with the regular
/// schedule laid over those that refer to it, in ascending slot order, and
/// the group's fingerprint. Entries without a real slot or with a name that
/// says "no lesson" are dropped, as are entries of groups that are not
/// tracked; a tracked name without a lesson gives no group.
pub fn map_lessons_to_groups(
    entries: &Vec<LessonEntry>,
    group_names: &Vec<String>,
    weekday: Weekday,
    is_even: bool,
    days: &Vec<DefaultDay>,
) -> (out: Vec<Group>)
    ensures
        group_views(out@) == groups_of(
            entry_views(entries@),
            texts(group_names@),
            default_day_views(days@),
            weekday,
            is_even,
        ),
        forall|g: int| 0 <= g < out@.len() ==> (#[trigger] out@[g]).wf(),
        well_assembled(group_views(out@), texts(group_names@)),
{
    let ghost model = entry_views(entries@);
    let ghost names = texts(group_names@);
    let ghost dd = default_day_views(days@);
    let mut out: Vec<Group> = Vec::new();
    let mut k: usize = 0;
    assert(group_views(out@) == Seq::<GroupData>::empty());
    while k < group_names.len()
        invariant
            k <= group_names.len(),
            model == entry_views(entries@),
            names == texts(group_names@),
            dd == default_day_views(days@),
            group_views(out@) == assembled(model, names, k as int, dd, weekday, is_even),
            forall|g: int| 0 <= g < out@.len() ==> (#[trigger] out@[g]).wf(),
        decreases group_names.len() - k,
    {
        assert(names[k as int] == group_names@[k as int]@);
        if name_is_first(group_names, k) {
            let found = collect_lessons(entries, &group_names[k], weekday, is_even, days);
            if found.len() > 0 {
                let lessons = sort_lessons(&found);
                let mut group = Group {
                    uid: String::new(),
                    name: group_names[k].clone(),
                    lessons,
                };
                group.uid = group.uid();
                let ghost before = out@;
                out.push(group);
                assert(group_views(out@) == group_views(before).push(group@));
            }
        }
        k = k + 1;
    }
    proof {
        lemma_groups_are_well_assembled(model, names, dd, weekday, is_even);
    }
    out
}

/// One empty group for each name, in the names' order.
pub fn make_groups(names: &Vec<String>) -> (out: Vec<Group>)
    ensures
        out@.len() == names@.len(),
        forall|k: int|
            0 <= k < out@.len() ==> {
                &&& (#[trigger] out@[k])@.name == names@[k]@
                &&& out@[k]@.lessons == Seq::<LessonData>::empty()
                &&& out@[k].wf()
            },
{
    let mut out: Vec<Group> = Vec::new();
    let mut i: usize = 0;
    while i < names.len()
        invariant
            i <= names.len(),
            out@.len() == i,
            forall|k: int|
                0 <= k < i ==> {
                    &&& (#[trigger] out@[k])@.name == names@[k]@
                    &&& out@[k]@.lessons == Seq::<LessonData>::empty()
                    &&& out@[k].wf()
                },
        decreases names.len() - i,
    {
        out.push(Group::new(names[i].clone()));
        i = i + 1;
    }
    out
}

/// The names of a run of groups.
pub open spec fn group_names(groups: Seq<GroupData>) -> Seq<Seq<char>> {
    Seq::new(groups.len(), |k: int| groups[k].name)
}

/// The lessons that the entries add to group `k`: those that they hold for
/// its name, if no earlier group has that name; none otherwise.
pub open spec fn assigned(
    entries: Seq<EntryData>,
    groups: Seq<GroupData>,
    k: int,
    days: Seq<DefaultDayData>,
    weekday: Weekday,
    is_even: bool,
) -> Seq<LessonData> {
    if is_first(group_names(groups), k) {
        lessons_for(entries, groups[k].name, days, weekday, is_even)
    } else {
        Seq::empty()
    }
}

fn group_is_first(groups: &Vec<Group>, i: usize) -> (r: bool)
    requires
        i < groups.len(),
    ensures
        r == is_first(group_names(group_views(groups@)), i as int),
{
    let ghost names = group_names(group_views(groups@));
    let mut j: usize = 0;
    while j < i
        invariant
            j <= i,
            i < groups.len(),
            names == group_names(group_views(groups@)),
            forall|k: int| 0 <= k < j ==> #[trigger] names[k] != names[i as int],
        decreases i - j,
    {
        assert(names[j as int] == groups@[j as int]@.name);
        assert(names[i as int] == groups@[i as int]@.name);
        if groups[j].name == groups[i].name {
            return false;
        }
        j = j + 1;
    }
    true
}

/// Hands the entries out to the groups: each entry that is a lesson goes,
/// with the regular schedule laid over it where its name refers to that, to
/// the first group of its name, behind the lessons that the group holds
/// already and in the entries' order. Entries of other groups are dropped.
/// The groups' fingerprints are worked out anew.
pub fn assign_lessons_to_groups(
    entries: &Vec<LessonEntry>,
    groups: &mut Vec<Group>,
    weekday: Weekday,
    is_even: bool,
    days: &Vec<DefaultDay>,
)
    ensures
        final(groups)@.len() == old(groups)@.len(),
        forall|k: int|
            0 <= k < old(groups)@.len() ==> {
                &&& (#[trigger] final(groups)@[k])@.name == old(groups)@[k]@.name
                &&& final(groups)@[k]@.lessons == old(groups)@[k]@.lessons + assigned(
                    entry_views(entries@),
                    group_views(old(groups)@),
                    k,
                    default_day_views(days@),
                    weekday,
                    is_even,
                )
                &&& final(groups)@[k].wf()
            },
{
    let ghost start = groups@;
    let ghost model = entry_views(entries@);
    let ghost dd = default_day_views(days@);
    let mut fresh: Vec<Group> = Vec::new();
    let mut i: usize = 0;
    while i < groups.len()
        invariant
            i <= groups.len(),
            groups@ == start,
            model == entry_views(entries@),
            dd == default_day_views(days@),
            fresh@.len() == i,
            forall|k: int|
                0 <= k < i ==> {
                    &&& (#[trigger] fresh@[k])@.name == start[k]@.name
                    &&& fresh@[k]@.lessons == start[k]@.lessons + assigned(
                        model,
                        group_views(start),
                        k,
                        dd,
                        weekday,
                        is_even,
                    )
                    &&& fresh@[k].wf()
                },
        decreases groups.len() - i,
    {
        assert(group_views(start)[i as int] == start[i as int]@);
        let mut lessons = crate::timetable::clone_lessons(&groups[i].lessons);
        let ghost own = lesson_views(lessons@);
        assert(own == start[i as int]@.lessons);
        if group_is_first(groups, i) {
            let mut found = collect_lessons(entries, &groups[i].name, weekday, is_even, days);
            let ghost added = lesson_views(found@);
            lessons.append(&mut found);
            assert(lesson_views(lessons@) =~= own + added);
        } else {
            assert(own + Seq::<LessonData>::empty() == own);
        }
        let mut group = Group { uid: String::new(), name: groups[i].name.clone(), lessons };
        group.uid = group.uid();
        fresh.push(group);
        i = i + 1;
    }
    *groups = fresh;
}

} // verus!

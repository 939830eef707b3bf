use maiq_parser::assemble::{map_lessons_to_groups, names_no_lesson, replace_or_clone, sort_lessons};
use maiq_parser::default::{names_regular, replace, try_replace, try_replace_if_need};
use maiq_parser::reconcile::LessonEntry;
use maiq_parser::{
    default_for, warmup_defaults, DefaultDay, DefaultGroup, DefaultLesson, Group, Lesson, Num, Uid,
    Weekday,
};

fn entry(group: &str, slot: Num, name: &str, classroom: Option<&str>) -> LessonEntry {
    LessonEntry {
        group_name: group.to_string(),
        slot_number: slot,
        name: name.to_string(),
        subgroup: None,
        teacher: None,
        classroom: classroom.map(|c| c.to_string()),
    }
}

fn regular(num: u8, name: &str, is_even: Option<bool>, classroom: Option<&str>) -> DefaultLesson {
    DefaultLesson {
        num: Num::Actual(num),
        name: name.to_string(),
        is_even,
        subgroup: Some(2),
        teacher: Some("Петров П.П.".to_string()),
        classroom: classroom.map(|c| c.to_string()),
    }
}

fn schedule() -> Vec<DefaultDay> {
    vec![
        DefaultDay {
            day: Weekday::Mon,
            groups: vec![
                DefaultGroup {
                    name: "G".to_string(),
                    lessons: vec![
                        regular(3, "History", None, Some("101")),
                        regular(4, "Even", Some(true), None),
                        regular(4, "Odd", Some(false), None),
                        regular(3, "Shadowed", None, None),
                    ],
                },
                DefaultGroup { name: "H".to_string(), lessons: vec![regular(1, "Chemistry", None, None)] },
            ],
        },
        DefaultDay {
            day: Weekday::Tue,
            groups: vec![DefaultGroup { name: "G".to_string(), lessons: vec![regular(3, "Tuesday", None, None)] }],
        },
    ]
}

fn names(list: &[&str]) -> Vec<String> {
    list.iter().map(|n| n.to_string()).collect()
}

#[test]
fn placeholder_resolves_to_the_regular_lesson() {
    let e = entry("G", Num::Actual(3), "По расписанию", None);
    let l = replace_or_clone(&e, Weekday::Mon, false, &schedule());
    assert_eq!(
        l,
        Lesson {
            num: Num::Actual(3),
            name: "History".to_string(),
            subgroup: Some(2),
            teacher: Some("Петров П.П.".to_string()),
            classroom: Some("101".to_string()),
        }
    );
}

#[test]
fn parsed_classroom_wins_over_the_regular_one() {
    let e = entry("G", Num::Actual(3), "По расписанию", Some("305"));
    let l = replace_or_clone(&e, Weekday::Mon, false, &schedule());
    assert_eq!(l.name, "History");
    assert_eq!(l.classroom.as_deref(), Some("305"));
}

#[test]
fn placeholder_without_regular_lesson_stays() {
    let e = entry("G", Num::Actual(5), "по расписанию", Some("305"));
    let l = replace_or_clone(&e, Weekday::Mon, false, &schedule());
    assert_eq!(l.name, "по расписанию");
    assert_eq!(l.classroom.as_deref(), Some("305"));
    let other_day = replace_or_clone(&entry("G", Num::Actual(3), "По расписанию", None), Weekday::Wed, false, &schedule());
    assert_eq!(other_day.name, "По расписанию");
    let other_group = replace_or_clone(&entry("X", Num::Actual(3), "По расписанию", None), Weekday::Mon, false, &schedule());
    assert_eq!(other_group.name, "По расписанию");
}

#[test]
fn lesson_with_its_own_name_is_not_replaced() {
    let e = entry("G", Num::Actual(3), "Право", None);
    let l = replace_or_clone(&e, Weekday::Mon, false, &schedule());
    assert_eq!(l.name, "Право");
    assert_eq!(l.teacher, None);
    let study = entry("G", Num::Actual(3), "День самостоятельной работы", None);
    let l = replace_or_clone(&study, Weekday::Mon, false, &schedule());
    assert_eq!(l.name, "День самостоятельной работы");
    assert_eq!(l.num, Num::Actual(3));
    assert_eq!(l.subgroup, None);
}

#[test]
fn lookup_goes_by_weekday_group_slot_and_parity() {
    let days = schedule();
    assert_eq!(replace(Num::Actual(3), "G", Weekday::Mon, true, &days).unwrap().name, "History");
    assert_eq!(replace(Num::Actual(4), "G", Weekday::Mon, true, &days).unwrap().name, "Even");
    assert_eq!(replace(Num::Actual(4), "G", Weekday::Mon, false, &days).unwrap().name, "Odd");
    assert_eq!(replace(Num::Actual(3), "G", Weekday::Tue, false, &days).unwrap().name, "Tuesday");
    assert_eq!(replace(Num::Actual(1), "H", Weekday::Mon, false, &days).unwrap().name, "Chemistry");
    assert_eq!(replace(Num::Actual(1), "G", Weekday::Mon, false, &days), None);
    assert_eq!(replace(Num::Actual(3), "G", Weekday::Sun, false, &days), None);
    assert_eq!(replace(Num::Actual(3), "Z", Weekday::Mon, false, &days), None);
    assert_eq!(replace(Num::Absent, "G", Weekday::Mon, false, &days), None);
}

#[test]
fn try_replace_lays_the_regular_lesson_over() {
    let days = schedule();
    let mut l = Lesson { num: Num::Actual(3), name: "x".to_string(), subgroup: None, teacher: None, classroom: Some("9".to_string()) };
    try_replace(&mut l, "G", Weekday::Mon, false, &days);
    assert_eq!(l.name, "History");
    assert_eq!(l.subgroup, Some(2));
    assert_eq!(l.classroom.as_deref(), Some("9"));
    let mut kept = Lesson { num: Num::Actual(3), name: "x".to_string(), subgroup: None, teacher: None, classroom: None };
    try_replace_if_need("G", &mut kept, Weekday::Mon, false, &days);
    assert_eq!(kept.name, "x");
    let mut swapped = Lesson { num: Num::Actual(3), name: "По расписанию".to_string(), subgroup: None, teacher: None, classroom: None };
    try_replace_if_need("G", &mut swapped, Weekday::Mon, false, &days);
    assert_eq!(swapped.name, "History");
    assert_eq!(swapped.classroom.as_deref(), Some("101"));
}

#[test]
fn placeholder_names() {
    assert!(names_regular("По расписанию"));
    assert!(names_regular("по расписанию"));
    assert!(!names_regular("ПО РАСПИСАНИЮ"));
    assert!(!names_regular("По расписанию "));
    assert!(names_no_lesson("Нет"));
    assert!(names_no_lesson("нет"));
    assert!(names_no_lesson("НЕТ"));
    assert!(!names_no_lesson("Нет."));
    assert!(!names_no_lesson(""));
}

#[test]
fn slot_zero_and_no_lesson_never_become_lessons() {
    let entries = vec![
        entry("G", Num::Actual(0), "Math", None),
        entry("G", Num::Absent, "Math", None),
        entry("G", Num::Previous, "Math", None),
        entry("G", Num::Actual(2), "Нет", None),
        entry("G", Num::Actual(2), "нет", None),
    ];
    let groups = map_lessons_to_groups(&entries, &names(&["G"]), Weekday::Mon, false, &schedule());
    assert!(groups.is_empty());
    let mut more = entries;
    more.push(entry("G", Num::Actual(1), "Math", None));
    let groups = map_lessons_to_groups(&more, &names(&["G"]), Weekday::Mon, false, &schedule());
    assert_eq!(groups.len(), 1);
    assert_eq!(groups[0].lessons.len(), 1);
    assert_eq!(groups[0].lessons[0].name, "Math");
}

#[test]
fn groups_follow_the_watched_names() {
    let entries = vec![
        entry("B", Num::Actual(2), "b2", None),
        entry("A", Num::Actual(3), "a3", None),
        entry("C", Num::Actual(1), "c1", None),
        entry("A", Num::Actual(1), "a1", None),
        entry("B", Num::Actual(2), "b2 again", None),
        entry("A", Num::Actual(3), "a3 again", None),
    ];
    let groups = map_lessons_to_groups(&entries, &names(&["A", "X", "B", "A"]), Weekday::Mon, false, &vec![]);
    assert_eq!(groups.len(), 2);
    assert_eq!(groups[0].name, "A");
    assert_eq!(
        groups[0].lessons.iter().map(|l| l.name.as_str()).collect::<Vec<_>>(),
        vec!["a1", "a3", "a3 again"]
    );
    assert_eq!(groups[1].name, "B");
    assert_eq!(
        groups[1].lessons.iter().map(|l| l.name.as_str()).collect::<Vec<_>>(),
        vec!["b2", "b2 again"]
    );
    for g in &groups {
        assert_eq!(g.uid, g.uid());
        assert_eq!(g.uid.chars().count(), 10);
    }
}

#[test]
fn overlay_happens_while_assembling() {
    let entries = vec![
        entry("G", Num::Actual(4), "По расписанию", None),
        entry("G", Num::Actual(3), "По расписанию", Some("305")),
    ];
    let groups = map_lessons_to_groups(&entries, &names(&["G"]), Weekday::Mon, true, &schedule());
    assert_eq!(groups.len(), 1);
    let lessons = &groups[0].lessons;
    assert_eq!(lessons[0].name, "History");
    assert_eq!(lessons[0].classroom.as_deref(), Some("305"));
    assert_eq!(lessons[1].name, "Even");
}

#[test]
fn sorting_is_stable_and_ascending() {
    let l = |n: Num, name: &str| Lesson { num: n, name: name.to_string(), subgroup: None, teacher: None, classroom: None };
    let sorted = sort_lessons(&vec![
        l(Num::Actual(3), "a"),
        l(Num::Absent, "b"),
        l(Num::Actual(1), "c"),
        l(Num::Previous, "d"),
        l(Num::Actual(3), "e"),
        l(Num::Actual(1), "f"),
    ]);
    assert_eq!(sorted.iter().map(|x| x.name.as_str()).collect::<Vec<_>>(), vec!["c", "f", "a", "e", "d", "b"]);
    assert!(sort_lessons(&vec![]).is_empty());
}

#[test]
fn regular_schedule_of_a_group() {
    let days = schedule();
    assert_eq!(default_for(&days, Weekday::Mon, "H").unwrap().lessons[0].name, "Chemistry");
    assert_eq!(default_for(&days, Weekday::Tue, "G").unwrap().lessons[0].name, "Tuesday");
    assert!(default_for(&days, Weekday::Tue, "H").is_none());
    assert!(default_for(&days, Weekday::Fri, "G").is_none());
}

#[test]
fn warmup_tells_the_groups_of_each_day() {
    assert_eq!(warmup_defaults(&schedule()), vec!["Mon: GH", "Tue: G"]);
    assert!(warmup_defaults(&vec![]).is_empty());
}

#[test]
fn new_group_is_empty_and_fingerprinted() {
    let g = Group::new("Ит1-22".to_string());
    assert_eq!(g.name, "Ит1-22");
    assert!(g.lessons.is_empty());
    assert_eq!(g.uid, g.uid());
}

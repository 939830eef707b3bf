use maiq_parser::assemble::{assign_lessons_to_groups, make_groups};
use maiq_parser::default::replace_all;
use maiq_parser::reconcile::LessonEntry;
use maiq_parser::table::{into_text, text_of};
use maiq_parser::{DefaultDay, DefaultGroup, DefaultLesson, Group, Lesson, Num, Uid, Weekday};

fn entry(group: &str, slot: u8, name: &str) -> LessonEntry {
    LessonEntry {
        group_name: group.to_string(),
        slot_number: Num::Actual(slot),
        name: name.to_string(),
        subgroup: None,
        teacher: None,
        classroom: None,
    }
}

fn lesson(slot: u8, name: &str) -> Lesson {
    Lesson { num: Num::Actual(slot), name: name.to_string(), subgroup: None, teacher: None, classroom: None }
}

fn schedule() -> Vec<DefaultDay> {
    vec![DefaultDay {
        day: Weekday::Fri,
        groups: vec![DefaultGroup {
            name: "A".to_string(),
            lessons: vec![DefaultLesson {
                num: Num::Actual(2),
                name: "Химия".to_string(),
                is_even: None,
                subgroup: None,
                teacher: None,
                classroom: Some("4".to_string()),
            }],
        }],
    }]
}

fn names(groups: &[Group]) -> Vec<Vec<String>> {
    groups.iter().map(|g| g.lessons.iter().map(|l| l.name.clone()).collect()).collect()
}

#[test]
fn groups_are_made_empty() {
    let groups = make_groups(&vec!["A".to_string(), "B".to_string(), "A".to_string()]);
    assert_eq!(groups.len(), 3);
    assert_eq!(groups[0].name, "A");
    assert_eq!(groups[1].name, "B");
    assert_eq!(groups[2].name, "A");
    for g in &groups {
        assert!(g.lessons.is_empty());
        assert_eq!(g.uid, g.uid());
    }
    assert!(make_groups(&vec![]).is_empty());
}

#[test]
fn entries_go_to_the_first_group_of_their_name() {
    let mut groups = make_groups(&vec!["A".to_string(), "B".to_string(), "A".to_string()]);
    groups[1].lessons.push(lesson(9, "old"));
    let entries = vec![
        entry("B", 2, "b2"),
        entry("A", 3, "a3"),
        entry("C", 1, "c1"),
        entry("A", 0, "a0"),
        entry("A", 1, "Нет"),
        entry("A", 2, "По расписанию"),
        entry("B", 1, "b1"),
    ];
    assign_lessons_to_groups(&entries, &mut groups, Weekday::Fri, false, &schedule());
    assert_eq!(
        names(&groups),
        vec![
            vec!["a3".to_string(), "Химия".to_string()],
            vec!["old".to_string(), "b2".to_string(), "b1".to_string()],
            vec![],
        ]
    );
    assert_eq!(groups[0].lessons[1].classroom.as_deref(), Some("4"));
    for g in &groups {
        assert_eq!(g.uid, g.uid());
    }
}

#[test]
fn regular_schedule_is_laid_over_all_groups() {
    let mut a = Group::new("A".to_string());
    a.lessons = vec![lesson(2, "По расписанию"), lesson(3, "По расписанию"), lesson(2, "Право")];
    let mut b = Group::new("B".to_string());
    b.lessons = vec![lesson(2, "по расписанию")];
    let mut groups = vec![a, b];
    replace_all(&mut groups, Weekday::Fri, true, &schedule());
    assert_eq!(
        names(&groups),
        vec![
            vec!["Химия".to_string(), "По расписанию".to_string(), "Право".to_string()],
            vec!["по расписанию".to_string()],
        ]
    );
    assert_eq!(groups[0].uid, groups[0].uid());
    assert_eq!(groups[1].uid, groups[1].uid());
    let mut other_day = vec![Group::new("A".to_string())];
    other_day[0].lessons = vec![lesson(2, "По расписанию")];
    replace_all(&mut other_day, Weekday::Mon, true, &schedule());
    assert_eq!(other_day[0].lessons[0].name, "По расписанию");
}

#[test]
fn markup_becomes_a_clean_line() {
    assert_eq!(into_text("<b>a</b>  b\n<i> c </i>"), "a b c");
    assert_eq!(into_text("  Право,&nbsp;Сидоров  "), "Право, Сидоров");
    assert_eq!(into_text("<td><p>1,2</p></td>"), "1,2");
    assert_eq!(into_text(""), "");
    assert_eq!(into_text("<br>"), "");
    assert_eq!(
        text_of(&vec![Some(" a".to_string()), None, Some("b  ".to_string()), Some("c".to_string())]),
        "ab c"
    );
    assert_eq!(text_of(&vec![]), "");
}

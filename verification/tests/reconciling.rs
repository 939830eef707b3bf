use maiq_parser::reconcile::{
    parse_lesson, parse_num, parse_slot, reconcile, repair_nums, Cursor, LessonEntry,
};
use maiq_parser::row::{parse_row, TokenizedRow};
use maiq_parser::Num;

fn tokens(cells: &[&str]) -> TokenizedRow {
    parse_row(&cells.iter().map(|c| c.to_string()).collect())
}

fn chars(s: &str) -> Vec<char> {
    s.chars().collect()
}

fn brief(entries: &[LessonEntry]) -> Vec<(String, Num, String)> {
    entries.iter().map(|e| (e.group_name.clone(), e.slot_number, e.name.clone())).collect()
}

#[test]
fn row_with_only_a_name_is_carried_forward() {
    let rows = vec![tokens(&["Ит1-22", "1", "Math"]), tokens(&["Physics"])];
    let entries = reconcile(&rows);
    assert_eq!(
        brief(&entries),
        vec![
            ("Ит1-22".to_string(), Num::Actual(1), "Math".to_string()),
            ("Ит1-22".to_string(), Num::Actual(1), "Physics".to_string()),
        ]
    );
}

#[test]
fn slot_list_expands_to_one_entry_per_slot() {
    let rows = vec![tokens(&["Ит1-22", "1,2,3", "Lab, Иванов И.И.", "12"])];
    let entries = reconcile(&rows);
    assert_eq!(entries.len(), 3);
    for (k, e) in entries.iter().enumerate() {
        assert_eq!(e.group_name, "Ит1-22");
        assert_eq!(e.slot_number, Num::Actual(k as u8 + 1));
        assert_eq!(e.name, "Lab");
        assert_eq!(e.teacher.as_deref(), Some("Иванов И.И."));
        assert_eq!(e.classroom.as_deref(), Some("12"));
        assert_eq!(e.subgroup, None);
    }
}

#[test]
fn one_row_gives_two_lessons_for_two_slots() {
    let rows = vec![tokens(&["Ит1-22", "1,2", "Высшая математика, Иванов И.И.", "305"])];
    let entries = reconcile(&rows);
    assert_eq!(
        entries,
        vec![
            LessonEntry {
                group_name: "Ит1-22".to_string(),
                slot_number: Num::Actual(1),
                name: "Высшая математика".to_string(),
                subgroup: None,
                teacher: Some("Иванов И.И.".to_string()),
                classroom: Some("305".to_string()),
            },
            LessonEntry {
                group_name: "Ит1-22".to_string(),
                slot_number: Num::Actual(2),
                name: "Высшая математика".to_string(),
                subgroup: None,
                teacher: Some("Иванов И.И.".to_string()),
                classroom: Some("305".to_string()),
            },
        ]
    );
}

#[test]
fn rows_before_any_group_are_dropped() {
    let rows = vec![tokens(&["Расписание"]), tokens(&["1", "Math"]), tokens(&["Ит1-22", "2", "Право"])];
    let entries = reconcile(&rows);
    assert_eq!(brief(&entries), vec![("Ит1-22".to_string(), Num::Actual(2), "Право".to_string())]);
}

#[test]
fn blank_row_changes_nothing() {
    let mut cursor = Cursor::new();
    let first = parse_lesson(&tokens(&["Ит1-22", "2", "Право"]), &mut cursor);
    assert_eq!(first.len(), 1);
    let before = Cursor {
        group_name: cursor.group_name.clone(),
        subgroup: cursor.subgroup,
        slots: cursor.slots.clone(),
        lesson_name: cursor.lesson_name.clone(),
    };
    let none = parse_lesson(&tokens(&[]), &mut cursor);
    assert!(none.is_empty());
    assert_eq!(cursor, before);
}

#[test]
fn new_group_carries_slots_subgroup_and_name() {
    let mut cursor = Cursor::new();
    parse_lesson(&tokens(&["Ит1-22 1", "2,3", "Право"]), &mut cursor);
    assert_eq!(cursor.subgroup, Some(1));
    assert_eq!(cursor.slots, vec![Num::Actual(2), Num::Actual(3)]);
    let next = parse_lesson(&tokens(&["Ис3-21"]), &mut cursor);
    assert_eq!(
        brief(&next),
        vec![
            ("Ис3-21".to_string(), Num::Actual(2), "Право".to_string()),
            ("Ис3-21".to_string(), Num::Actual(3), "Право".to_string()),
        ]
    );
    assert_eq!(cursor.group_name.as_deref(), Some("Ис3-21"));
    assert_eq!(cursor.subgroup, Some(1));
    assert_eq!(cursor.slots, vec![Num::Actual(2), Num::Actual(3)]);
    assert_eq!(cursor.lesson_name.as_deref(), Some("Право"));
    let named = parse_lesson(&tokens(&["Са1-20", "История, Сидоров С.С."]), &mut cursor);
    assert_eq!(
        brief(&named),
        vec![
            ("Са1-20".to_string(), Num::Actual(2), "История".to_string()),
            ("Са1-20".to_string(), Num::Actual(3), "История".to_string()),
        ]
    );
}

#[test]
fn same_group_again_keeps_what_was_carried() {
    let mut cursor = Cursor::new();
    parse_lesson(&tokens(&["Ит1-22 1", "2,3", "Право"]), &mut cursor);
    let again = parse_lesson(&tokens(&["Ит1-22", "История, Сидоров С.С."]), &mut cursor);
    assert_eq!(
        brief(&again),
        vec![
            ("Ит1-22".to_string(), Num::Actual(2), "История".to_string()),
            ("Ит1-22".to_string(), Num::Actual(3), "История".to_string()),
        ]
    );
    assert_eq!(again[0].subgroup, Some(1));
    assert_eq!(again[0].teacher.as_deref(), Some("Сидоров С.С."));
}

#[test]
fn teacher_and_classroom_are_not_carried() {
    let rows = vec![tokens(&["Ит1-22", "1", "Math, Иванов И.И.", "305"]), tokens(&["Physics"])];
    let entries = reconcile(&rows);
    assert_eq!(entries[1].teacher, None);
    assert_eq!(entries[1].classroom, None);
}

#[test]
fn slot_items_that_state_no_number_take_the_slot_before() {
    assert_eq!(parse_num("1,2,3", Num::Absent), vec![Num::Actual(1), Num::Actual(2), Num::Actual(3)]);
    assert_eq!(parse_num("1,x,3", Num::Absent), vec![Num::Actual(1), Num::Actual(1), Num::Actual(3)]);
    assert_eq!(parse_num("x,3", Num::Actual(5)), vec![Num::Actual(5), Num::Actual(3)]);
    assert_eq!(parse_num("x", Num::Absent), vec![Num::Absent]);
    assert_eq!(parse_num("", Num::Actual(4)), vec![Num::Actual(4)]);
    assert_eq!(parse_num("1,2,3(1ч)", Num::Absent), vec![Num::Actual(1), Num::Actual(2), Num::Actual(3)]);
    assert_eq!(parse_num(" 2 , 4 ", Num::Absent), vec![Num::Actual(2), Num::Actual(4)]);
    assert_eq!(parse_num("0", Num::Actual(4)), vec![Num::Actual(0)]);
    assert_eq!(parse_num("300", Num::Actual(4)), vec![Num::Actual(4)]);
}

#[test]
fn slot_of_an_item_is_its_leading_number() {
    assert_eq!(parse_slot(&chars("3")), Some(3));
    assert_eq!(parse_slot(&chars(" 3(1ч)")), Some(3));
    assert_eq!(parse_slot(&chars("(1ч)")), None);
    assert_eq!(parse_slot(&chars("")), None);
    assert_eq!(parse_slot(&chars("255")), Some(255));
    assert_eq!(parse_slot(&chars("256")), None);
}

#[test]
fn row_without_known_slots_gives_no_entry() {
    let rows = vec![tokens(&["Ит1-22", "Право"])];
    assert!(reconcile(&rows).is_empty());
}

#[test]
fn slots_left_open_are_filled_from_the_slot_before() {
    let mut nums = vec![
        Num::Previous,
        Num::Actual(2),
        Num::Previous,
        Num::Previous,
        Num::Absent,
        Num::Previous,
        Num::Actual(0),
    ];
    repair_nums(&mut nums, Num::Actual(7));
    assert_eq!(
        nums,
        vec![
            Num::Actual(7),
            Num::Actual(2),
            Num::Actual(2),
            Num::Actual(2),
            Num::Absent,
            Num::Absent,
            Num::Actual(0),
        ]
    );
    let mut first = vec![Num::Previous, Num::Previous];
    repair_nums(&mut first, Num::Absent);
    assert_eq!(first, vec![Num::Absent, Num::Absent]);
    let mut none: Vec<Num> = vec![];
    repair_nums(&mut none, Num::Actual(1));
    assert!(none.is_empty());
}

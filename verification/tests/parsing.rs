use maiq_parser::row::is_num;
use maiq_parser::{distinct, Date, Group, Lesson, Num, Snapshot};

#[test]
fn __test_is_num() {
    assert!(is_num("1,2,3"));
    assert!(is_num("1,2,3(1ч)"));
    assert!(!is_num("Информационные технологии, Иванов И.Л."));
    assert!(is_num(""));
}

#[test]
fn different_group_lessons() {
    let lesson = Lesson {
        num: Num::Actual(1),
        name: "123".into(),
        subgroup: None,
        teacher: None,
        classroom: None,
    };
    let date = Date::new(2024, 9, 2).unwrap();
    let mut group = Group::new("Group".into());
    group.lessons = vec![lesson.clone()];
    let mut snapshot_1 = Snapshot::new(vec![group.clone()], date, 1_725_235_200);

    group.lessons = vec![Lesson { name: "3333".into(), ..lesson }];

    let mut snapshot_2 = Snapshot::new(vec![group], date, 1_725_235_200);

    println!("{:?}", snapshot_1);
    snapshot_1.refresh();
    snapshot_2.refresh();
    assert_eq!(
        vec!["Group".to_string()],
        distinct(Some(&snapshot_1), Some(&snapshot_2), &vec!["Group".to_string()])
    )
}

use maiq_parser::digest::bytes_as_str;
use maiq_parser::{distinct, Date, Group, Lesson, Num, Snapshot, Uid};
use sha2::{Digest, Sha256};

fn lesson() -> Lesson {
    Lesson {
        num: Num::Actual(2),
        name: "Право".to_string(),
        subgroup: Some(1),
        teacher: Some("Сидоров С.С.".to_string()),
        classroom: Some("305".to_string()),
    }
}

fn group(lessons: Vec<Lesson>) -> Group {
    let mut g = Group::new("Ит1-22".to_string());
    g.lessons = lessons;
    g.uid = g.uid();
    g
}

const CLOCK: i64 = 1_725_235_200;

fn date() -> Date {
    Date::new(2024, 9, 2).unwrap()
}

fn digest(bytes: &[u8]) -> [u8; 32] {
    Sha256::digest(bytes).into()
}

#[test]
fn digest_is_sha256_of_the_content() {
    assert_eq!(Num::Actual(7).uid_bytes(), digest(&[1, 7]));
    assert_eq!(Num::Previous.uid_bytes(), digest(&[2, 0]));
    assert_eq!(Num::Absent.uid_bytes(), digest(&[0, 0]));
    let mut bytes = Vec::new();
    bytes.extend_from_slice("305".as_bytes());
    bytes.extend_from_slice("Сидоров С.С.".as_bytes());
    bytes.extend_from_slice("Право".as_bytes());
    bytes.extend_from_slice(&[1, 1, 2]);
    assert_eq!(lesson().uid_bytes(), digest(&bytes));
    let mut whole = Vec::new();
    whole.extend_from_slice("Ит1-22".as_bytes());
    whole.extend_from_slice(&bytes);
    whole.extend_from_slice(&bytes);
    assert_eq!(group(vec![lesson(), lesson()]).uid_bytes(), digest(&whole));
    let mut both = whole.clone();
    both.extend_from_slice("Ит1-22".as_bytes());
    assert_eq!(
        Snapshot::new(vec![group(vec![lesson(), lesson()]), group(vec![])], date(), CLOCK).uid_bytes(),
        digest(&both)
    );
}

#[test]
fn digest_of_nothing_is_the_known_one() {
    let empty = Snapshot::new(vec![], date(), CLOCK);
    let known: [u8; 32] = [
        0xe3, 0xb0, 0xc4, 0x42, 0x98, 0xfc, 0x1c, 0x14, 0x9a, 0xfb, 0xf4, 0xc8, 0x99, 0x6f, 0xb9,
        0x24, 0x27, 0xae, 0x41, 0xe4, 0x64, 0x9b, 0x93, 0x4c, 0xa4, 0x95, 0x99, 0x1b, 0x78, 0x52,
        0xb8, 0x55,
    ];
    assert_eq!(empty.uid_bytes(), known);
    assert_eq!(empty.uid, bytes_as_str(&known));
}

#[test]
fn identifier_folds_three_bytes_into_one_character() {
    assert_eq!(bytes_as_str(&[]), "");
    assert_eq!(bytes_as_str(&[1, 2]), "");
    assert_eq!(bytes_as_str(&[0, 0, 0]), "0");
    assert_eq!(bytes_as_str(&[1, 2, 4]), "7");
    assert_eq!(bytes_as_str(&[10, 0, 0]), "a");
    assert_eq!(bytes_as_str(&[35, 0, 0, 36, 0, 0]), "z0");
    assert_eq!(bytes_as_str(&[255, 0, 0, 9]), "3");
    assert_eq!(bytes_as_str(&[0xf0, 0x0f, 0x00, 1, 1, 1, 7, 7]), "31");
    let uid = lesson().uid();
    assert_eq!(uid.chars().count(), 10);
    assert!(uid.chars().all(|c| c.is_ascii_digit() || c.is_ascii_lowercase()));
    assert_eq!(uid, bytes_as_str(&lesson().uid_bytes()));
}

#[test]
fn fingerprint_is_stable() {
    let a = group(vec![lesson()]);
    let b = group(vec![lesson()]);
    assert_eq!(a.uid(), a.uid());
    assert_eq!(a.uid(), b.uid());
    assert_eq!(a.uid_bytes(), b.uid_bytes());
    assert_eq!(a.uid, a.clone().uid());
}

#[test]
fn fingerprint_changes_with_any_field() {
    let base = group(vec![lesson(), lesson()]).uid_bytes();
    let changed = [
        Lesson { classroom: Some("306".to_string()), ..lesson() },
        Lesson { classroom: None, ..lesson() },
        Lesson { teacher: Some("Сидоров С.".to_string()), ..lesson() },
        Lesson { teacher: None, ..lesson() },
        Lesson { name: "право".to_string(), ..lesson() },
        Lesson { subgroup: Some(2), ..lesson() },
        Lesson { subgroup: None, ..lesson() },
        Lesson { num: Num::Actual(3), ..lesson() },
        Lesson { num: Num::Absent, ..lesson() },
        Lesson { num: Num::Previous, ..lesson() },
    ];
    for l in changed {
        assert_ne!(group(vec![lesson(), l.clone()]).uid_bytes(), base);
        assert_ne!(group(vec![l, lesson()]).uid_bytes(), base);
    }
    assert_ne!(Num::Actual(0).uid_bytes(), Num::Absent.uid_bytes());
}

#[test]
fn absent_subgroup_counts_as_zero() {
    let none = Lesson { subgroup: None, ..lesson() };
    let zero = Lesson { subgroup: Some(0), ..lesson() };
    assert_eq!(none.uid_bytes(), zero.uid_bytes());
    let blank = Lesson { classroom: Some(String::new()), ..lesson() };
    let absent = Lesson { classroom: None, ..lesson() };
    assert_eq!(blank.uid_bytes(), absent.uid_bytes());
}

#[test]
fn nothing_to_compare_gives_nothing() {
    let names = vec!["Ит1-22".to_string(), "Ис3-21".to_string()];
    assert!(distinct(None, None, &names).is_empty());
}

#[test]
fn without_a_previous_snapshot_every_name_is_new() {
    let names = vec!["Ит1-22".to_string(), "Ис3-21".to_string()];
    let s = Snapshot::new(vec![group(vec![lesson()])], date(), CLOCK);
    assert_eq!(distinct(None, Some(&s), &names), names);
}

#[test]
fn a_missing_new_snapshot_is_no_change() {
    let names = vec!["Ит1-22".to_string(), "Ис3-21".to_string()];
    let s = Snapshot::new(vec![group(vec![lesson()])], date(), CLOCK);
    assert!(distinct(Some(&s), None, &names).is_empty());
}

#[test]
fn same_content_read_at_another_time_is_no_change() {
    let names = vec!["Ит1-22".to_string(), "Ис3-21".to_string()];
    let a = Snapshot::at(vec![group(vec![lesson()])], date(), 100);
    let b = Snapshot::at(vec![group(vec![lesson()])], date(), 999_999);
    assert_eq!(a.uid, b.uid);
    assert!(distinct(Some(&a), Some(&b), &names).is_empty());
    assert!(distinct(Some(&a), Some(&a), &names).is_empty());
}

#[test]
fn groups_that_appear_vanish_or_change_are_reported() {
    let names: Vec<String> = ["A", "B", "C", "D", "E"].iter().map(|n| n.to_string()).collect();
    let named = |name: &str, lessons: Vec<Lesson>| {
        let mut g = Group::new(name.to_string());
        g.lessons = lessons;
        g.uid = g.uid();
        g
    };
    let other = Lesson { name: "История".to_string(), ..lesson() };
    let previous = Snapshot::new(
        vec![named("A", vec![lesson()]), named("B", vec![lesson()]), named("C", vec![lesson()]), named("F", vec![lesson()])],
        date(),
        CLOCK,
    );
    let new = Snapshot::new(
        vec![named("A", vec![lesson()]), named("B", vec![other]), named("D", vec![lesson()]), named("F", vec![])],
        date(),
        CLOCK,
    );
    assert_eq!(distinct(Some(&previous), Some(&new), &names), vec!["B", "C", "D"]);
    assert_eq!(distinct(Some(&new), Some(&previous), &names), vec!["B", "C", "D"]);
    assert!(distinct(Some(&previous), Some(&new), &vec![]).is_empty());
}

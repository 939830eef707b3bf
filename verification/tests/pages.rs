use maiq_parser::parser::{parse, parse_snapshot, snapshot_from_page};
use maiq_parser::table::{get_inner_text, parse_html, parse_table, pick_last, table_of, table_rows};
use maiq_parser::{
    Date, DefaultDay, DefaultGroup, DefaultLesson, Group, Lesson, Num, ParserError, Snapshot, Table,
    Uid, Weekday,
};

fn page() -> String {
    let head = "<html><body><table><tr><td>menu</td></tr></table>";
    let rows = [
        "<tr><td colspan=\"4\"><b>2&nbsp;сентября   2024</b>\n Понедельник (знаменатель)</td></tr>",
        "<tr><td>Группа</td><td>№</td><td>Дисциплина, преподаватель</td><td>Ауд.</td></tr>",
        "<tr><td>Ит1-22</td><td>1,2</td><td>Высшая математика, Иванов И.И.</td><td>305</td></tr>",
        "<tr><td> </td><td>&nbsp;</td></tr>",
        "<tr><td>3</td><td>По расписанию</td><td>7</td></tr>",
        "<tr><td>Ис3-21 2п/г</td><td>0</td><td>Классный час</td></tr>",
        "<tr><td>4</td><td>Нет</td></tr>",
        "<tr><td>Са1-20</td><td>2</td><td>Физика, Петров П.П.</td><td>12</td></tr>",
        "<tr><td>1</td><td>&quot;История&quot;</td></tr>",
    ];
    format!("{}<p>x</p><table>{}</table></body></html>", head, rows.join("\n"))
}

fn names() -> Vec<String> {
    vec!["Са1-20".to_string(), "Ит1-22".to_string(), "Ис3-21".to_string()]
}

fn schedule() -> Vec<DefaultDay> {
    vec![DefaultDay {
        day: Weekday::Mon,
        groups: vec![DefaultGroup {
            name: "Ит1-22".to_string(),
            lessons: vec![DefaultLesson {
                num: Num::Actual(3),
                name: "History".to_string(),
                is_even: Some(true),
                subgroup: None,
                teacher: Some("Сидоров С.С.".to_string()),
                classroom: Some("101".to_string()),
            }],
        }],
    }]
}

const CLOCK: i64 = 1_725_235_200;

fn fallback() -> Date {
    Date::new(2023, 5, 10).unwrap()
}

fn strings(cells: &[&str]) -> Vec<String> {
    cells.iter().map(|c| c.to_string()).collect()
}

#[test]
fn last_table_of_the_page_is_read() {
    let table = parse_html(&page()).unwrap();
    assert_eq!(
        table.rows,
        vec![
            strings(&["2 сентября 2024 Понедельник (знаменатель)"]),
            strings(&["Группа", "№", "Дисциплина, преподаватель", "Ауд."]),
            strings(&["Ит1-22", "1,2", "Высшая математика, Иванов И.И.", "305"]),
            strings(&["3", "По расписанию", "7"]),
            strings(&["Ис3-21 2п/г", "0", "Классный час"]),
            strings(&["4", "Нет"]),
            strings(&["Са1-20", "2", "Физика, Петров П.П.", "12"]),
            strings(&["1", "\"История\""]),
        ]
    );
}

#[test]
fn page_without_table_is_not_published() {
    assert_eq!(parse_html("<html><body><p>скоро</p></body></html>"), Err(ParserError::NoTable));
    assert_eq!(parse_html(""), Err(ParserError::NoTable));
    assert_eq!(
        parse("<p>скоро</p>", fallback(), &names(), &schedule(), CLOCK).unwrap_err(),
        ParserError::NoTable
    );
}

#[test]
fn table_without_rows_is_empty() {
    assert_eq!(parse_html("<table></table>"), Ok(Table { rows: vec![] }));
    assert_eq!(parse_table(""), Ok(vec![]));
    assert_eq!(
        parse("<table></table>", fallback(), &names(), &schedule(), CLOCK).unwrap_err(),
        ParserError::NoTable
    );
    assert_eq!(
        parse_snapshot(&Table { rows: vec![] }, fallback(), &names(), &schedule(), CLOCK).unwrap_err(),
        ParserError::NoTable
    );
}

#[test]
fn rows_of_a_table() {
    assert_eq!(
        parse_table("<tr><td> a \n b </td><td></td><td><i>c</i></td></tr><tr><td> </td></tr>"),
        Ok(vec![strings(&["a b", "c"])])
    );
}

#[test]
fn node_texts_become_cells() {
    assert_eq!(get_inner_text(&Some("  a \n b ".to_string())), Some("a b".to_string()));
    assert_eq!(get_inner_text(&Some("&nbsp;".to_string())), Some(String::new()));
    assert_eq!(get_inner_text(&Some("   ".to_string())), None);
    assert_eq!(get_inner_text(&Some(String::new())), None);
    assert_eq!(get_inner_text(&None), None);
    let raw = vec![
        vec![Some(" a ".to_string()), None, Some("b\tc".to_string())],
        vec![None, Some(" ".to_string())],
        vec![Some("&nbsp;".to_string())],
        vec![],
        vec![Some("&nbsp;".to_string()), Some("d".to_string())],
    ];
    assert_eq!(table_rows(&raw), vec![strings(&["a", "b c"]), strings(&["", "d"])]);
}

#[test]
fn last_of_the_found() {
    assert_eq!(pick_last(Some(vec![1, 2, 3])), Some(3));
    assert_eq!(pick_last(Some(Vec::<u8>::new())), None);
    assert_eq!(pick_last::<u8>(None), None);
}

#[test]
fn page_becomes_a_snapshot() {
    let s = parse(&page(), fallback(), &names(), &schedule(), CLOCK).unwrap();
    assert_eq!(s.date, Date { year: 2024, month: 9, day: 2 });
    assert_eq!(s.parsed_date, CLOCK + 10800);
    assert!(s.is_week_even);
    assert!(s.is_even());
    assert_eq!(s.groups.len(), 2);
    let physics = Lesson {
        num: Num::Actual(2),
        name: "Физика".to_string(),
        subgroup: Some(2),
        teacher: Some("Петров П.П.".to_string()),
        classroom: Some("12".to_string()),
    };
    let history = Lesson {
        num: Num::Actual(1),
        name: "\"История\"".to_string(),
        subgroup: Some(2),
        teacher: None,
        classroom: None,
    };
    assert_eq!(s.groups[0].name, "Са1-20");
    assert_eq!(s.groups[0].lessons, vec![history, physics]);
    let math = |n: u8| Lesson {
        num: Num::Actual(n),
        name: "Высшая математика".to_string(),
        subgroup: None,
        teacher: Some("Иванов И.И.".to_string()),
        classroom: Some("305".to_string()),
    };
    let regular = Lesson {
        num: Num::Actual(3),
        name: "History".to_string(),
        subgroup: None,
        teacher: Some("Сидоров С.С.".to_string()),
        classroom: Some("7".to_string()),
    };
    assert_eq!(s.groups[1].name, "Ит1-22");
    assert_eq!(s.groups[1].lessons, vec![math(1), math(2), regular]);
    for g in &s.groups {
        assert_eq!(g.uid, g.uid());
    }
    assert_eq!(s.uid, s.uid());
    assert!(s.group("Ис3-21").is_none());
}

#[test]
fn table_without_date_takes_the_fallback() {
    let table = Table {
        rows: vec![
            strings(&["Расписание занятий"]),
            strings(&["Группа", "№"]),
            strings(&["Ит1-22", "3", "По расписанию"]),
        ],
    };
    let monday = Date::new(2024, 9, 9).unwrap();
    let s = parse_snapshot(&table, monday, &names(), &schedule(), CLOCK).unwrap();
    assert_eq!(s.date, monday);
    assert!(!s.is_week_even);
    assert_eq!(s.groups[0].lessons[0].name, "По расписанию");
    let even_monday = Date::new(2024, 9, 2).unwrap();
    let s = parse_snapshot(&table, even_monday, &names(), &schedule(), CLOCK).unwrap();
    assert_eq!(s.groups[0].lessons[0].name, "History");
    assert_eq!(s.groups[0].lessons[0].classroom.as_deref(), Some("101"));
}

#[test]
fn second_row_is_passed_over() {
    let table = Table {
        rows: vec![
            strings(&["5 мая"]),
            strings(&["Ит1-22", "1", "Право"]),
            strings(&["2", "История"]),
        ],
    };
    let s = parse_snapshot(&table, fallback(), &names(), &schedule(), CLOCK).unwrap();
    assert_eq!(s.date, Date { year: 2023, month: 5, day: 5 });
    assert!(s.groups.is_empty());
    let only_header = Table { rows: vec![strings(&["5 мая"])] };
    let s = parse_snapshot(&only_header, fallback(), &names(), &schedule(), CLOCK).unwrap();
    assert!(s.groups.is_empty());
    assert_eq!(s.uid, Snapshot::new(vec![], fallback(), CLOCK).uid);
}

#[test]
fn date_may_stand_in_a_later_header_cell() {
    let table = Table {
        rows: vec![strings(&["Расписание", "на 6 мая 2024"]), strings(&["x"])],
    };
    let s = parse_snapshot(&table, fallback(), &names(), &schedule(), CLOCK).unwrap();
    assert_eq!(s.date, Date { year: 2024, month: 5, day: 6 });
}

#[test]
fn transport_errors_pass_through() {
    let r = snapshot_from_page(Err("timed out".to_string()), fallback(), &names(), &schedule(), CLOCK);
    assert_eq!(r.unwrap_err(), ParserError::NetworkError("timed out".to_string()));
    let ok = snapshot_from_page(Ok(page()), fallback(), &names(), &schedule(), CLOCK).unwrap();
    assert_eq!(ok.groups.len(), 2);
    let none = snapshot_from_page(Ok("<p></p>".to_string()), fallback(), &names(), &schedule(), CLOCK);
    assert_eq!(none.unwrap_err(), ParserError::NoTable);
}

#[test]
fn errors_in_words() {
    assert_eq!(ParserError::NoTable.message(), "HTML Table not found");
    assert_eq!(
        ParserError::Unknown("x".to_string()).message(),
        "An unknown error occured: x"
    );
    assert_eq!(
        ParserError::NetworkError("down".to_string()).message(),
        "An reqwest error occured: down"
    );
}

#[test]
fn snapshot_finds_its_groups() {
    let g = |name: &str, lesson: &str| {
        let mut g = Group::new(name.to_string());
        g.lessons = vec![Lesson {
            num: Num::Actual(1),
            name: lesson.to_string(),
            subgroup: None,
            teacher: None,
            classroom: None,
        }];
        g
    };
    let date = Date::new(2024, 9, 2).unwrap();
    let mut s = Snapshot::at(vec![g("A", "a"), g("B", "b"), g("A", "second")], date, 1000);
    assert_eq!(s.parsed_date, 1000);
    assert_eq!(s.group("A").unwrap().lessons[0].name, "a");
    assert_eq!(s.group("B").unwrap().lessons[0].name, "b");
    assert!(s.group("C").is_none());
    assert_eq!(s.group_cloned("B").unwrap(), s.groups[1]);
    assert!(s.group_cloned("").is_none());
    let tiny = s.tiny("B");
    assert_eq!(tiny.uid, s.uid);
    assert_eq!(tiny.date, date);
    assert_eq!(tiny.parsed_date, 1000);
    assert_eq!(tiny.group.unwrap().name, "B");
    assert!(s.tiny("none").group.is_none());
    assert_eq!(s.age_at(1500), 500);
    assert_eq!(s.age_at(500), -500);
    assert_eq!(s.age_at(i64::MIN), i64::MIN);
    assert_eq!(s.age(1500 - 10800), 500);
    assert_eq!(s.age(0), 9800);
    let stale = s.groups[0].uid.clone();
    let uid = s.uid.clone();
    s.refresh();
    assert_ne!(s.groups[0].uid, stale);
    assert_eq!(s.groups[0].uid, s.groups[0].uid());
    assert_eq!(s.uid, uid);
    assert_eq!(s.groups[2].lessons[0].name, "second");
}

#[test]
fn numbers_of_lessons() {
    assert!(Num::Actual(0).is_some());
    assert!(!Num::Previous.is_some());
    assert!(!Num::Absent.is_some());
    assert!(Num::Absent.is_none());
    assert!(!Num::Actual(1).is_none());
    assert_eq!(Num::default(), Num::Absent);
    assert_eq!(Num::Actual(12).to_text(), "12");
    assert_eq!(Num::Actual(0).to_text(), "0");
    assert_eq!(Num::Previous.to_text(), "?");
    assert_eq!(Num::Absent.to_text(), "Нет");
    assert_eq!(Num::Actual(255).order_key(), 255);
    assert_eq!(Num::Previous.order_key(), 256);
    assert_eq!(Num::Absent.order_key(), 257);
}

#[test]
fn table_without_any_day_is_an_error() {
    let no_day = Date { year: 2024, month: 2, day: 30 };
    let undated = Table { rows: vec![strings(&["Расписание занятий"]), strings(&["x"])] };
    assert!(matches!(
        parse_snapshot(&undated, no_day, &names(), &schedule(), CLOCK),
        Err(ParserError::Unknown(_))
    ));
    let page = "<table><tr><td>Расписание</td></tr></table>";
    assert!(matches!(
        parse(page, no_day, &names(), &schedule(), CLOCK),
        Err(ParserError::Unknown(_))
    ));
    let dated = Table { rows: vec![strings(&["на 5 мая"])] };
    let s = parse_snapshot(&dated, no_day, &names(), &schedule(), CLOCK).unwrap();
    assert_eq!(s.date, Date { year: 2024, month: 5, day: 5 });
    assert_eq!(
        parse_snapshot(&Table { rows: vec![] }, no_day, &names(), &schedule(), CLOCK).unwrap_err(),
        ParserError::NoTable
    );
}

#[test]
fn table_comes_from_the_markup_inside_it() {
    assert!(matches!(table_of(None), Err(ParserError::Unknown(_))));
    assert_eq!(table_of(Some(String::new())), Ok(Table { rows: vec![] }));
    assert_eq!(
        table_of(Some("<tr><td>a</td><td> b  c </td></tr><tr><td></td></tr>".to_string())),
        Ok(Table { rows: vec![strings(&["a", "b c"])] })
    );
}

#[test]
fn rows_come_in_the_order_of_the_page() {
    let page = "<table><tr><td>1</td></tr></table>\
                <table class=\"x\" id=\"y\"><tr><td>2</td><td>3</td></tr><tr><th>4</th></tr></table>";
    assert_eq!(
        parse_html(page),
        Ok(Table { rows: vec![strings(&["2", "3"]), strings(&["4"])] })
    );
    assert_eq!(
        parse_table("<tr><td>x</td></tr><p>skip</p><tr><td>y</td></tr>"),
        Ok(vec![strings(&["x"]), strings(&["y"])])
    );
}

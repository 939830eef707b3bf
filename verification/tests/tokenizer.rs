use maiq_parser::normalize::normalize;
use maiq_parser::row::{parse_row, TokenizedRow};
use maiq_parser::text::{chars_of, string_of, trim_chars};

fn row(cells: &[&str]) -> TokenizedRow {
    parse_row(&cells.iter().map(|c| c.to_string()).collect())
}

fn chars(s: &str) -> Vec<char> {
    s.chars().collect()
}

#[test]
fn full_row_gives_all_fields() {
    let r = row(&["Ит1-22", "1,2", "Высшая математика, Иванов И.И.", "305"]);
    assert_eq!(r.group_name.as_deref(), Some("Ит1-22"));
    assert_eq!(r.subgroup, None);
    assert_eq!(r.slot_spec.as_deref(), Some("1,2"));
    assert_eq!(r.lesson_name.as_deref(), Some("Высшая математика"));
    assert_eq!(r.teacher.as_deref(), Some("Иванов И.И."));
    assert_eq!(r.classroom.as_deref(), Some("305"));
}

#[test]
fn group_cell_with_subgroup() {
    let r = row(&["Ис3-21 2п/г", "3", "Физика"]);
    assert_eq!(r.group_name.as_deref(), Some("Ис3-21"));
    assert_eq!(r.subgroup, Some(2));
    assert_eq!(r.slot_spec.as_deref(), Some("3"));
    assert_eq!(r.lesson_name.as_deref(), Some("Физика"));
    assert_eq!(r.teacher, None);
    assert_eq!(r.classroom, None);
}

#[test]
fn subgroup_that_is_no_number_is_absent() {
    let r = row(&["Ис3-21 первая", "3", "Физика"]);
    assert_eq!(r.group_name.as_deref(), Some("Ис3-21"));
    assert_eq!(r.subgroup, None);
    let r = row(&["Ис3-21 300", "3", "Физика"]);
    assert_eq!(r.subgroup, None);
}

#[test]
fn row_without_group_and_slots() {
    let r = row(&["Физика, Петров П.П.", "12"]);
    assert_eq!(r.group_name, None);
    assert_eq!(r.subgroup, None);
    assert_eq!(r.slot_spec, None);
    assert_eq!(r.lesson_name.as_deref(), Some("Физика"));
    assert_eq!(r.teacher.as_deref(), Some("Петров П.П."));
    assert_eq!(r.classroom.as_deref(), Some("12"));
}

#[test]
fn row_without_cells_is_blank() {
    let blank = TokenizedRow {
        group_name: None,
        subgroup: None,
        slot_spec: None,
        lesson_name: None,
        teacher: None,
        classroom: None,
    };
    assert_eq!(row(&[]), blank);
    assert_eq!(row(&["", ""]), blank);
}

#[test]
fn empty_cells_are_passed_over() {
    let r = row(&["", "Ит1-22", "", "4", "", "История", ""]);
    assert_eq!(r.group_name.as_deref(), Some("Ит1-22"));
    assert_eq!(r.slot_spec.as_deref(), Some("4"));
    assert_eq!(r.lesson_name.as_deref(), Some("История"));
    assert_eq!(r.classroom, None);
}

#[test]
fn name_splits_at_last_comma() {
    let r = row(&["Ит1-22", "1", "Право, экономика, Сидоров С.С.", "7"]);
    assert_eq!(r.lesson_name.as_deref(), Some("Право, экономика"));
    assert_eq!(r.teacher.as_deref(), Some("Сидоров С.С."));
}

#[test]
fn blank_teacher_is_absent() {
    let r = row(&["Ит1-22", "1", "Право, "]);
    assert_eq!(r.lesson_name.as_deref(), Some("Право"));
    assert_eq!(r.teacher, None);
}

#[test]
fn slot_list_with_hour_count_is_a_slot_list() {
    let r = row(&["Ит1-22", "1,2,3(1ч)", "Практика"]);
    assert_eq!(r.slot_spec.as_deref(), Some("1,2,3(1ч)"));
    assert_eq!(r.lesson_name.as_deref(), Some("Практика"));
}

#[test]
fn group_code_needs_letter_digit_dash_two_digits() {
    assert_eq!(row(&["Ит1-2", "1", "Право"]).group_name, None);
    assert_eq!(row(&["It1-22", "1", "Право"]).group_name, None);
    assert_eq!(row(&["И1-22", "1", "Право"]).group_name.as_deref(), Some("И1-22"));
}

#[test]
fn blank_classroom_is_absent() {
    let r = row(&["Ит1-22", "1", "Право", " "]);
    assert_eq!(r.classroom, None);
}

#[test]
fn normalize_collapses_white_space() {
    assert_eq!(normalize("  a \n\t b  ".to_string()), "a b");
    assert_eq!(normalize("a\nb".to_string()), "a b");
    assert_eq!(normalize("a\u{a0}\u{a0}b".to_string()), "a b");
}

#[test]
fn normalize_writes_entities_out() {
    assert_eq!(normalize("a&nbsp;b".to_string()), "a b");
    assert_eq!(normalize("&quot;Право&quot;".to_string()), "\"Право\"");
    assert_eq!(normalize("a&nbsp;&nbsp; b".to_string()), "a b");
    assert_eq!(normalize("a&amp;b".to_string()), "a&amp;b");
}

#[test]
fn normalize_of_blank_is_empty() {
    assert_eq!(normalize("".to_string()), "");
    assert_eq!(normalize(" \n\t ".to_string()), "");
    assert_eq!(normalize("&nbsp;".to_string()), "");
}

#[test]
fn trim_drops_white_space_at_both_ends() {
    assert_eq!(trim_chars(&chars("  ab c \n")), chars("ab c"));
    assert_eq!(trim_chars(&chars("   ")), chars(""));
    assert_eq!(trim_chars(&chars("")), chars(""));
}

#[test]
fn chars_and_strings_convert_both_ways() {
    assert_eq!(chars_of("Ит1-22"), chars("Ит1-22"));
    assert_eq!(string_of(&chars("Ит1-22")), "Ит1-22");
    assert_eq!(string_of(&chars_of("")), "");
}

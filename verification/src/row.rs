//! The row tokenizer: from the cell texts of one table row to the up to six
//! fields that they state, absent where the row leaves them out.

use crate::text::{
    chars_of, find_last, is_ascii_digit, is_digit, last_index_of, parse_number, parse_u8, replace_chars,
    replaced, slice_of, split, split_chars, string_of, texts, trim, trim_chars, views,
};
use crate::timetable::opt_view;
use vstd::prelude::*;

verus! {

/// A letter of the Russian alphabet's main block, capital or small.
pub open spec fn is_cyrillic(c: char) -> bool {
    0x410 <= c as u32 <= 0x44f
}

/// A group code starts at `i`: a Cyrillic letter, a digit, a dash and two
/// digits.
pub open spec fn code_at(s: Seq<char>, i: int) -> bool {
    &&& 0 <= i
    &&& i + 5 <= s.len()
    &&& is_cyrillic(s[i])
    &&& is_digit(s[i + 1])
    &&& s[i + 2] == '-'
    &&& is_digit(s[i + 3])
    &&& is_digit(s[i + 4])
}

/// The text holds a group code: one or two Cyrillic letters, a digit, a dash
/// and two digits, anywhere in it. (A code with two letters holds one with
/// one letter, so the second letter needs no clause.)
pub open spec fn has_group_code(s: Seq<char>) -> bool {
    exists|i: int| code_at(s, i)
}

/// Whether a cell text holds a group code.
pub fn is_group_name(s: &Vec<char>) -> (r: bool)
    ensures
        r == has_group_code(s@),
{
    let n: usize = s.len();
    if n < 5 {
        return false;
    }
    let mut i: usize = 0;
    while i <= n - 5
        invariant
            n == s.len(),
            n >= 5,
            i <= n,
            forall|k: int| 0 <= k < i ==> !code_at(s@, k),
        decreases n - i,
    {
        let a: u32 = s[i] as u32;
        if 0x410 <= a && a <= 0x44f && is_ascii_digit(s[i + 1]) && s[i + 2] == '-'
            && is_ascii_digit(s[i + 3]) && is_ascii_digit(s[i + 4]) {
            assert(code_at(s@, i as int));
            return true;
        }
        i = i + 1;
    }
    false
}

/// A character that a list of slot numbers may hold: a digit, or one of the
/// marks of an hour-count note.
pub open spec fn is_slot_char(c: char) -> bool {
    is_digit(c) || c == '(' || c == ')' || c == ',' || c == '.' || c == 'ч' || c == ' '
}

/// The text reads as a list of slot numbers: digits and commas, with
/// bracketed hour counts allowed.
pub open spec fn is_slot_list(s: Seq<char>) -> bool {
    forall|k: int| 0 <= k < s.len() ==> is_slot_char(#[trigger] s[k])
}

/// Whether a cell text, given as characters, reads as a list of slot
/// numbers.
pub fn is_num_chars(s: &Vec<char>) -> (r: bool)
    ensures
        r == is_slot_list(s@),
{
    let mut i: usize = 0;
    while i < s.len()
        invariant
            i <= s.len(),
            forall|k: int| 0 <= k < i ==> is_slot_char(#[trigger] s@[k]),
        decreases s.len() - i,
    {
        let c = s[i];
        if !(is_ascii_digit(c) || c == '(' || c == ')' || c == ',' || c == '.' || c == 'ч' || c
            == ' ') {
            return false;
        }
        i = i + 1;
    }
    true
}

/// Whether a cell text reads as a list of slot numbers.
pub fn is_num(raw: &str) -> (r: bool)
    ensures
        r == is_slot_list(raw@),
{
    let chars = chars_of(raw);
    is_num_chars(&chars)
}

/// The mark that a subgroup's number may carry.
pub open spec fn subgroup_mark() -> Seq<char> {
    seq!['п', '/', 'г']
}

/// The subgroup that a word states: its number once the subgroup mark is
/// taken out, where that is a number up to 255.
pub open spec fn subgroup_of(word: Seq<char>) -> Option<u8> {
    match parse_number(trim(replaced(word, subgroup_mark(), Seq::empty())), 255) {
        Some(n) => Some(n as u8),
        None => None,
    }
}

/// The group's name in a group cell: its first word, where it is not empty.
pub open spec fn group_name_of(cell: Seq<char>) -> Option<Seq<char>> {
    let words = split(cell, ' ');
    if words[0].len() > 0 {
        Some(words[0])
    } else {
        None
    }
}

/// The subgroup in a group cell: what its second word states.
pub open spec fn group_subgroup_of(cell: Seq<char>) -> Option<u8> {
    let words = split(cell, ' ');
    if words.len() >= 2 {
        subgroup_of(words[1])
    } else {
        None
    }
}

/// Splits a group cell into the group's name and the subgroup's number.
pub fn split_group_name(raw: &Vec<char>) -> (r: (Option<String>, Option<u8>))
    ensures
        opt_view(r.0) == group_name_of(raw@),
        r.1 == group_subgroup_of(raw@),
{
    let words = split_chars(raw, ' ');
    proof {
        assert(views(words@)[0] == words@[0]@);
    }
    let name = if words[0].len() > 0 {
        Some(string_of(&words[0]))
    } else {
        None
    };
    let subgroup = if words.len() >= 2 {
        proof {
            assert(views(words@)[1] == words@[1]@);
        }
        let mut mark: Vec<char> = Vec::new();
        mark.push('п');
        mark.push('/');
        mark.push('г');
        assert(mark@ == subgroup_mark());
        let bare = replace_chars(&words[1], &mark, &Vec::new());
        let bare = trim_chars(&bare);
        parse_u8(&bare)
    } else {
        None
    };
    (name, subgroup)
}

/// The lesson's name in a "name, teacher" cell: what stands before the last
/// comma, without white space around it; in a cell without a comma, the
/// whole cell as it stands, unless the cell is empty.
pub open spec fn lesson_name_of(cell: Seq<char>) -> Option<Seq<char>> {
    let k = last_index_of(cell, ',', cell.len() as int);
    if k >= 0 {
        Some(trim(cell.subrange(0, k)))
    } else if cell.len() > 0 {
        Some(cell)
    } else {
        None
    }
}

/// The teacher in a "name, teacher" cell: what follows the last comma,
/// without white space around it, where anything is left.
pub open spec fn teacher_of(cell: Seq<char>) -> Option<Seq<char>> {
    let k = last_index_of(cell, ',', cell.len() as int);
    if k >= 0 && trim(cell.subrange(k + 1, cell.len() as int)).len() > 0 {
        Some(trim(cell.subrange(k + 1, cell.len() as int)))
    } else {
        None
    }
}

/// Splits a "name, teacher" cell at its last comma. A cell without a comma
/// is the lesson's name as a whole.
pub fn split_teacher(raw: &Vec<char>) -> (r: (Option<String>, Option<String>))
    ensures
        opt_view(r.0) == lesson_name_of(raw@),
        opt_view(r.1) == teacher_of(raw@),
{
    match find_last(raw, ',') {
        Some(k) => {
            let head = slice_of(raw, 0, k);
            let tail = slice_of(raw, k + 1, raw.len());
            let name = trim_chars(&head);
            let teacher = trim_chars(&tail);
            let teacher = if teacher.len() > 0 {
                Some(string_of(&teacher))
            } else {
                None
            };
            (Some(string_of(&name)), teacher)
        },
        None => {
            if raw.len() > 0 {
                (Some(string_of(raw)), None)
            } else {
                (None, None)
            }
        },
    }
}

/// The classroom that a cell states: its text, unless it is blank.
pub open spec fn classroom_of(cell: Seq<char>) -> Option<Seq<char>> {
    if trim(cell).len() > 0 {
        Some(cell)
    } else {
        None
    }
}

/// The cells that hold any text, in their order.
pub open spec fn filled(cells: Seq<Seq<char>>) -> Seq<Seq<char>>
    decreases cells.len(),
{
    if cells.len() == 0 {
        Seq::empty()
    } else if cells.last().len() > 0 {
        filled(cells.drop_last()).push(cells.last())
    } else {
        filled(cells.drop_last())
    }
}

/// What a row states.
pub ghost struct RowData {
    pub group_name: Option<Seq<char>>,
    pub subgroup: Option<u8>,
    pub slot_spec: Option<Seq<char>>,
    pub lesson_name: Option<Seq<char>>,
    pub teacher: Option<Seq<char>>,
    pub classroom: Option<Seq<char>>,
}

impl RowData {
    /// The row states nothing at all.
    pub open spec fn is_blank(self) -> bool {
        &&& self.group_name.is_none()
        &&& self.subgroup.is_none()
        &&& self.slot_spec.is_none()
        &&& self.lesson_name.is_none()
        &&& self.teacher.is_none()
        &&& self.classroom.is_none()
    }
}

/// The fields of one table row.
#[derive(Debug, PartialEq, Eq)]
pub struct TokenizedRow {
    pub group_name: Option<String>,
    pub subgroup: Option<u8>,
    pub slot_spec: Option<String>,
    pub lesson_name: Option<String>,
    pub teacher: Option<String>,
    pub classroom: Option<String>,
}

impl View for TokenizedRow {
    type V = RowData;

    open spec fn view(&self) -> RowData {
        RowData {
            group_name: opt_view(self.group_name),
            subgroup: self.subgroup,
            slot_spec: opt_view(self.slot_spec),
            lesson_name: opt_view(self.lesson_name),
            teacher: opt_view(self.teacher),
            classroom: opt_view(self.classroom),
        }
    }
}

/// How many leading cells the group takes: one if the first cell holds a
/// group code.
pub open spec fn group_cells(cells: Seq<Seq<char>>) -> int {
    if cells.len() > 0 && has_group_code(cells[0]) {
        1
    } else {
        0
    }
}

/// How many cells the group and the slot list take together.
pub open spec fn head_cells(cells: Seq<Seq<char>>) -> int {
    let g = group_cells(cells);
    if cells.len() > g && is_slot_list(cells[g]) {
        g + 1
    } else {
        g
    }
}

/// The fields that a row of non-empty cells states: first a group cell if
/// the first cell holds a group code, then a slot list if the next cell
/// reads as one, then the "name, teacher" cell, then the classroom.
pub open spec fn tokenize(cells: Seq<Seq<char>>) -> RowData {
    let g = group_cells(cells);
    let h = head_cells(cells);
    RowData {
        group_name: if g == 1 {
            group_name_of(cells[0])
        } else {
            None
        },
        subgroup: if g == 1 {
            group_subgroup_of(cells[0])
        } else {
            None
        },
        slot_spec: if h > g {
            Some(cells[g])
        } else {
            None
        },
        lesson_name: if cells.len() > h {
            lesson_name_of(cells[h])
        } else {
            None
        },
        teacher: if cells.len() > h {
            teacher_of(cells[h])
        } else {
            None
        },
        classroom: if cells.len() > h + 1 {
            classroom_of(cells[h + 1])
        } else {
            None
        },
    }
}

/// A row without any filled cell states nothing.
pub proof fn lemma_empty_row_is_blank(cells: Seq<Seq<char>>)
    requires
        filled(cells).len() == 0,
    ensures
        tokenize(filled(cells)).is_blank(),
{
}

/// The filled cells of a row, as characters.
fn filled_cells(cells: &Vec<String>) -> (out: Vec<Vec<char>>)
    ensures
        views(out@) == filled(texts(cells@)),
{
    let mut out: Vec<Vec<char>> = Vec::new();
    let mut i: usize = 0;
    assert(texts(cells@).subrange(0, 0) == Seq::<Seq<char>>::empty());
    assert(views(out@) == Seq::<Seq<char>>::empty());
    while i < cells.len()
        invariant
            i <= cells.len(),
            views(out@) == filled(texts(cells@).subrange(0, i as int)),
        decreases cells.len() - i,
    {
        let cell = chars_of(cells[i].as_str());
        proof {
            let p = texts(cells@).subrange(0, i + 1);
            assert(p.drop_last() == texts(cells@).subrange(0, i as int));
            assert(p.last() == cell@);
        }
        if cell.len() > 0 {
            let ghost before = out@;
            out.push(cell);
            assert(views(out@) == views(before).push(cell@));
        }
        i = i + 1;
    }
    assert(texts(cells@).subrange(0, cells.len() as int) == texts(cells@));
    out
}

/// Reads the fields of one table row off its cell texts. Empty cells are
/// passed over; a row without any filled cell states nothing.
pub fn parse_row(cells: &Vec<String>) -> (row: TokenizedRow)
    ensures
        row@ == tokenize(filled(texts(cells@))),
{
    let cells = filled_cells(cells);
    let ghost model = views(cells@);
    let mut row = TokenizedRow {
        group_name: None,
        subgroup: None,
        slot_spec: None,
        lesson_name: None,
        teacher: None,
        classroom: None,
    };
    let mut pos: usize = 0;
    if cells.len() > 0 {
        assert(model[0] == cells@[0]@);
        if is_group_name(&cells[0]) {
            let (name, subgroup) = split_group_name(&cells[0]);
            row.group_name = name;
            row.subgroup = subgroup;
            pos = 1;
        }
    }
    assert(pos as int == group_cells(model));
    if pos < cells.len() {
        assert(model[pos as int] == cells@[pos as int]@);
        if is_num_chars(&cells[pos]) {
            row.slot_spec = Some(string_of(&cells[pos]));
            pos = pos + 1;
        }
    }
    assert(pos as int == head_cells(model));
    if pos < cells.len() {
        assert(model[pos as int] == cells@[pos as int]@);
        let (name, teacher) = split_teacher(&cells[pos]);
        row.lesson_name = name;
        row.teacher = teacher;
        pos = pos + 1;
        if pos < cells.len() {
            assert(model[pos as int] == cells@[pos as int]@);
            if trim_chars(&cells[pos]).len() > 0 {
                row.classroom = Some(string_of(&cells[pos]));
            }
        }
    }
    row
}

} // verus!

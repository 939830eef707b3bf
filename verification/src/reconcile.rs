//! The carry-forward engine: walks the tokenized rows from top to bottom,
//! fills what a row leaves out from the rows above it, and states one lesson
//! entry for each slot number of a row.

use crate::row::{RowData, TokenizedRow};
use crate::text::{
    chars_of, is_ascii_digit, is_digit, parse_number, parse_u8, slice_of, split, split_chars, trim,
    trim_chars, views,
};
use crate::timetable::{clone_opt, opt_view, or_else, Num};
use vstd::prelude::*;

verus! {

/// End of the run of digits that starts at `i`.
pub open spec fn digits_end(s: Seq<char>, i: int) -> int
    decreases s.len() - i,
{
    if 0 <= i < s.len() && is_digit(s[i]) {
        digits_end(s, i + 1)
    } else {
        i
    }
}

/// The slot number that one item of a slot list states: the number that it
/// starts with, once white space around it is dropped, where that is a number
/// up to 255. What follows the digits (an hour count in brackets) is passed
/// over.
pub open spec fn slot_in(token: Seq<char>) -> Option<u8> {
    let t = trim(token);
    match parse_number(t.subrange(0, digits_end(t, 0)), 255) {
        Some(n) => Some(n as u8),
        None => None,
    }
}

/// The slot that one item of a slot list states by itself: its number, or
/// "as before" where it states none.
pub open spec fn stated_slot(token: Seq<char>) -> Num {
    match slot_in(token) {
        Some(n) => Num::Actual(n),
        None => Num::Previous,
    }
}

/// The slots that the items of a slot list state by themselves.
pub open spec fn stated_slots(tokens: Seq<Seq<char>>) -> Seq<Num> {
    Seq::new(tokens.len(), |k: int| stated_slot(tokens[k]))
}

/// The last slot of a list, or none where the list is empty.
pub open spec fn last_slot(slots: Seq<Num>) -> Num {
    if slots.len() > 0 {
        slots.last()
    } else {
        Num::Absent
    }
}

/// The slots with every "as before" filled in: it takes the slot that
/// stands before it once that is filled in, the first one the slot `last`.
pub open spec fn repaired(nums: Seq<Num>, last: Num) -> Seq<Num>
    decreases nums.len(),
{
    if nums.len() == 0 {
        Seq::empty()
    } else {
        let head = repaired(nums.drop_last(), last);
        let before = if head.len() > 0 {
            head.last()
        } else {
            last
        };
        head.push(
            if nums.last() is Previous {
                before
            } else {
                nums.last()
            },
        )
    }
}

/// The slots that the items of a slot list stand for, one for each item,
/// where `last` is the slot known before the list: an item that states no
/// number takes the slot before it.
pub open spec fn resolve_slots(tokens: Seq<Seq<char>>, last: Num) -> Seq<Num> {
    repaired(stated_slots(tokens), last)
}

/// Repair keeps the number of slots, leaves stated slots as they are, and
/// gives each "as before" the slot before it.
pub proof fn lemma_repaired(nums: Seq<Num>, last: Num)
    ensures
        repaired(nums, last).len() == nums.len(),
        forall|k: int|
            0 <= k < nums.len() ==> #[trigger] repaired(nums, last)[k] == if !(nums[k]
                is Previous) {
                nums[k]
            } else if k > 0 {
                repaired(nums, last)[k - 1]
            } else {
                last
            },
    decreases nums.len(),
{
    if nums.len() > 0 {
        let head = nums.drop_last();
        lemma_repaired(head, last);
        let out = repaired(nums, last);
        assert forall|k: int| 0 <= k < nums.len() implies #[trigger] out[k] == if !(nums[k]
            is Previous) {
            nums[k]
        } else if k > 0 {
            out[k - 1]
        } else {
            last
        } by {
            if k < head.len() {
                assert(out[k] == repaired(head, last)[k]);
                assert(head[k] == nums[k]);
                if k > 0 {
                    assert(out[k - 1] == repaired(head, last)[k - 1]);
                }
            }
        }
    }
}

/// Every item of a slot list gives one slot.
pub proof fn lemma_resolve_slots_len(tokens: Seq<Seq<char>>, last: Num)
    ensures
        resolve_slots(tokens, last).len() == tokens.len(),
{
    lemma_repaired(stated_slots(tokens), last);
}

/// What the engine remembers of the rows above.
pub ghost struct CursorData {
    pub group_name: Option<Seq<char>>,
    pub subgroup: Option<u8>,
    pub slots: Seq<Num>,
    pub lesson_name: Option<Seq<char>>,
}

/// The cursor before the first row: nothing is known.
pub open spec fn start() -> CursorData {
    CursorData { group_name: None, subgroup: None, slots: Seq::empty(), lesson_name: None }
}

/// The carry state that a row meets: the cursor with the row's group where
/// the row names one. Subgroup, slots and lesson name are carried on
/// whatever group the row names.
pub open spec fn carried(c: CursorData, r: RowData) -> CursorData {
    CursorData {
        group_name: or_else(r.group_name, c.group_name),
        subgroup: c.subgroup,
        slots: c.slots,
        lesson_name: c.lesson_name,
    }
}

/// The cursor after a row. A row that states nothing, or whose group is
/// known neither from itself nor from the rows above, leaves it as it was.
pub open spec fn next_cursor(c: CursorData, r: RowData) -> CursorData {
    let b = carried(c, r);
    if r.is_blank() || b.group_name.is_none() {
        c
    } else {
        CursorData {
            group_name: b.group_name,
            subgroup: or_else(r.subgroup, b.subgroup),
            slots: match r.slot_spec {
                Some(t) => resolve_slots(split(t, ','), last_slot(b.slots)),
                None => b.slots,
            },
            lesson_name: or_else(r.lesson_name, b.lesson_name),
        }
    }
}

/// What a lesson entry says.
pub ghost struct EntryData {
    pub group_name: Seq<char>,
    pub slot_number: Num,
    pub name: Seq<char>,
    pub subgroup: Option<u8>,
    pub teacher: Option<Seq<char>>,
    pub classroom: Option<Seq<char>>,
}

/// The row yields entries: it states something, and its group and its
/// lesson's name are known from itself or from the rows above.
pub open spec fn yields(c: CursorData, r: RowData) -> bool {
    let n = next_cursor(c, r);
    !r.is_blank() && carried(c, r).group_name.is_some() && n.lesson_name.is_some()
}

/// The entries of a row: one for each of its slots, all with the row's
/// group, subgroup and lesson name as resolved, and with the row's own
/// teacher and classroom.
pub open spec fn row_entries(c: CursorData, r: RowData) -> Seq<EntryData> {
    let n = next_cursor(c, r);
    if yields(c, r) {
        Seq::new(
            n.slots.len(),
            |k: int|
                EntryData {
                    group_name: n.group_name.unwrap(),
                    slot_number: n.slots[k],
                    name: n.lesson_name.unwrap(),
                    subgroup: n.subgroup,
                    teacher: r.teacher,
                    classroom: r.classroom,
                },
        )
    } else {
        Seq::empty()
    }
}

/// The cursor after a run of rows.
pub open spec fn cursor_after(rows: Seq<RowData>) -> CursorData
    decreases rows.len(),
{
    if rows.len() == 0 {
        start()
    } else {
        next_cursor(cursor_after(rows.drop_last()), rows.last())
    }
}

/// The entries of a run of rows: those of each row, in the rows' order, each
/// row resolved against the cursor that the rows above it leave.
pub open spec fn entries_of(rows: Seq<RowData>) -> Seq<EntryData>
    decreases rows.len(),
{
    if rows.len() == 0 {
        Seq::empty()
    } else {
        entries_of(rows.drop_last()) + row_entries(cursor_after(rows.drop_last()), rows.last())
    }
}

/// The carry cursor.
#[derive(Debug, PartialEq, Eq)]
pub struct Cursor {
    pub group_name: Option<String>,
    pub subgroup: Option<u8>,
    pub slots: Vec<Num>,
    pub lesson_name: Option<String>,
}

impl View for Cursor {
    type V = CursorData;

    open spec fn view(&self) -> CursorData {
        CursorData {
            group_name: opt_view(self.group_name),
            subgroup: self.subgroup,
            slots: self.slots@,
            lesson_name: opt_view(self.lesson_name),
        }
    }
}

impl Cursor {
    /// The cursor before the first row.
    pub fn new() -> (c: Cursor)
        ensures
            c@ == start(),
    {
        Cursor { group_name: None, subgroup: None, slots: Vec::new(), lesson_name: None }
    }
}

/// One lesson of one group in one slot, as the table states it.
#[derive(Debug, PartialEq, Eq)]
pub struct LessonEntry {
    pub group_name: String,
    pub slot_number: Num,
    pub name: String,
    pub subgroup: Option<u8>,
    pub teacher: Option<String>,
    pub classroom: Option<String>,
}

impl View for LessonEntry {
    type V = EntryData;

    open spec fn view(&self) -> EntryData {
        EntryData {
            group_name: self.group_name@,
            slot_number: self.slot_number,
            name: self.name@,
            subgroup: self.subgroup,
            teacher: opt_view(self.teacher),
            classroom: opt_view(self.classroom),
        }
    }
}

/// The values of a run of entries.
pub open spec fn entry_views(entries: Seq<LessonEntry>) -> Seq<EntryData> {
    Seq::new(entries.len(), |k: int| entries[k]@)
}

/// The values of a run of rows.
pub open spec fn row_views(rows: Seq<TokenizedRow>) -> Seq<RowData> {
    Seq::new(rows.len(), |k: int| rows[k]@)
}

/// The slot number that one item of a slot list states, if any.
pub fn parse_slot(token: &Vec<char>) -> (r: Option<u8>)
    ensures
        r == slot_in(token@),
{
    let t = trim_chars(token);
    let mut k: usize = 0;
    while k < t.len() && is_ascii_digit(t[k])
        invariant
            k <= t.len(),
            digits_end(t@, 0) == digits_end(t@, k as int),
        decreases t.len() - k,
    {
        k = k + 1;
    }
    let digits = slice_of(&t, 0, k);
    parse_u8(&digits)
}

/// Fills every "as before" of a run of slots in: it takes the slot that
/// stands before it, the first one the slot `last`.
pub fn repair_nums(nums: &mut Vec<Num>, last: Num)
    ensures
        final(nums)@ == repaired(old(nums)@, last),
{
    let ghost start = nums@;
    let mut before = last;
    let mut i: usize = 0;
    assert(start.subrange(0, 0) == Seq::<Num>::empty());
    assert(nums@.subrange(0, 0) == Seq::<Num>::empty());
    while i < nums.len()
        invariant
            i <= nums.len(),
            nums@.len() == start.len(),
            nums@.subrange(0, i as int) == repaired(start.subrange(0, i as int), last),
            forall|k: int| i <= k < nums@.len() ==> nums@[k] == start[k],
            before == if i > 0 {
                nums@[i - 1]
            } else {
                last
            },
        decreases nums.len() - i,
    {
        let ghost done = nums@.subrange(0, i as int);
        proof {
            let p = start.subrange(0, i + 1);
            assert(p.drop_last() == start.subrange(0, i as int));
            assert(p.last() == start[i as int]);
            if i > 0 {
                assert(done.last() == nums@[i - 1]);
            }
        }
        match nums[i] {
            Num::Previous => {
                nums.set(i, before);
            },
            _ => {},
        }
        before = nums[i];
        assert(nums@.subrange(0, i + 1) == done.push(nums@[i as int]));
        i = i + 1;
    }
    assert(nums@.subrange(0, nums.len() as int) == nums@);
    assert(start.subrange(0, start.len() as int) == start);
}

/// The slots that a slot list stands for, where `last` is the slot known
/// before it.
pub fn parse_num(spec: &str, last: Num) -> (out: Vec<Num>)
    ensures
        out@ == resolve_slots(split(spec@, ','), last),
{
    let chars = chars_of(spec);
    let tokens = split_chars(&chars, ',');
    let ghost model = views(tokens@);
    let mut out: Vec<Num> = Vec::new();
    let mut i: usize = 0;
    while i < tokens.len()
        invariant
            i <= tokens.len(),
            model == views(tokens@),
            out@.len() == i,
            forall|k: int| 0 <= k < i ==> #[trigger] out@[k] == stated_slot(model[k]),
        decreases tokens.len() - i,
    {
        assert(model[i as int] == tokens@[i as int]@);
        out.push(
            match parse_slot(&tokens[i]) {
                Some(n) => Num::Actual(n),
                None => Num::Previous,
            },
        );
        i = i + 1;
    }
    assert(out@ =~= stated_slots(model));
    repair_nums(&mut out, last);
    out
}

fn row_is_blank(row: &TokenizedRow) -> (r: bool)
    ensures
        r == row@.is_blank(),
{
    row.group_name.is_none() && row.subgroup.is_none() && row.slot_spec.is_none()
        && row.lesson_name.is_none() && row.teacher.is_none() && row.classroom.is_none()
}

/// One step of the carry-forward engine: resolves a row against the cursor,
/// moves the cursor on, and returns the row's entries, one for each of its
/// slot numbers.
pub fn parse_lesson(row: &TokenizedRow, cursor: &mut Cursor) -> (out: Vec<LessonEntry>)
    ensures
        final(cursor)@ == next_cursor(old(cursor)@, row@),
        entry_views(out@) == row_entries(old(cursor)@, row@),
{
    let mut out: Vec<LessonEntry> = Vec::new();
    let ghost c0 = cursor@;
    assert(entry_views(out@) == Seq::<EntryData>::empty());
    if row_is_blank(row) {
        return out;
    }
    if row.group_name.is_some() {
        cursor.group_name = clone_opt(&row.group_name);
    }
    assert(cursor@ == carried(c0, row@));
    if cursor.group_name.is_none() {
        return out;
    }
    if row.subgroup.is_some() {
        cursor.subgroup = row.subgroup;
    }
    match &row.slot_spec {
        Some(t) => {
            let last = if cursor.slots.len() > 0 {
                cursor.slots[cursor.slots.len() - 1]
            } else {
                Num::Absent
            };
            cursor.slots = parse_num(t.as_str(), last);
        },
        None => {},
    }
    if row.lesson_name.is_some() {
        cursor.lesson_name = clone_opt(&row.lesson_name);
    }
    assert(cursor@ == next_cursor(c0, row@));
    let group = match &cursor.group_name {
        Some(g) => g,
        None => {
            return out;
        },
    };
    let name = match &cursor.lesson_name {
        Some(n) => n,
        None => {
            return out;
        },
    };
    let mut k: usize = 0;
    while k < cursor.slots.len()
        invariant
            k <= cursor.slots.len(),
            cursor@ == next_cursor(c0, row@),
            yields(c0, row@),
            cursor.group_name == Some(*group),
            cursor.lesson_name == Some(*name),
            out@.len() == k,
            forall|j: int| 0 <= j < k ==> (#[trigger] out@[j])@ == row_entries(c0, row@)[j],
        decreases cursor.slots.len() - k,
    {
        out.push(
            LessonEntry {
                group_name: group.clone(),
                slot_number: cursor.slots[k],
                name: name.clone(),
                subgroup: cursor.subgroup,
                teacher: clone_opt(&row.teacher),
                classroom: clone_opt(&row.classroom),
            },
        );
        k = k + 1;
    }
    assert(entry_views(out@) =~= row_entries(c0, row@));
    out
}

/// Runs the carry-forward engine over the rows of a table, from a cursor
/// that knows nothing, and returns the entries of all rows in order.
pub fn reconcile(rows: &Vec<TokenizedRow>) -> (out: Vec<LessonEntry>)
    ensures
        entry_views(out@) == entries_of(row_views(rows@)),
{
    let mut cursor = Cursor::new();
    let mut out: Vec<LessonEntry> = Vec::new();
    let ghost model = row_views(rows@);
    let mut i: usize = 0;
    assert(model.subrange(0, 0) == Seq::<RowData>::empty());
    assert(entry_views(out@) == Seq::<EntryData>::empty());
    while i < rows.len()
        invariant
            i <= rows.len(),
            model == row_views(rows@),
            cursor@ == cursor_after(model.subrange(0, i as int)),
            entry_views(out@) == entries_of(model.subrange(0, i as int)),
        decreases rows.len() - i,
    {
        proof {
            let p = model.subrange(0, i + 1);
            assert(p.drop_last() == model.subrange(0, i as int));
            assert(p.last() == rows@[i as int]@);
        }
        let ghost before = out@;
        let mut found = parse_lesson(&rows[i], &mut cursor);
        let ghost added = found@;
        out.append(&mut found);
        assert(entry_views(out@) =~= entry_views(before) + entry_views(added));
        i = i + 1;
    }
    assert(model.subrange(0, rows.len() as int) == model);
    out
}

/// Carry-forward: a row that states a lesson name and neither group nor
/// slots is not dropped where the rows above name a group. It gives one
/// entry for each slot of the cursor, each in the cursor's group, with the
/// row's lesson name, teacher and classroom.
pub proof fn lemma_carry_forward(c: CursorData, r: RowData)
    requires
        c.group_name.is_some(),
        r.group_name.is_none(),
        r.slot_spec.is_none(),
        r.lesson_name.is_some(),
    ensures
        row_entries(c, r).len() == c.slots.len(),
        forall|k: int|
            0 <= k < c.slots.len() ==> {
                let e = #[trigger] row_entries(c, r)[k];
                &&& e.group_name == c.group_name.unwrap()
                &&& e.slot_number == c.slots[k]
                &&& e.name == r.lesson_name.unwrap()
                &&& e.teacher == r.teacher
                &&& e.classroom == r.classroom
            },
        next_cursor(c, r).group_name == c.group_name,
        next_cursor(c, r).slots == c.slots,
{
}

/// Multi-slot expansion: a row with a slot list gives, where it gives
/// entries at all, exactly one entry for each item of the list, in the
/// list's order, all with the same group, subgroup, name, teacher and
/// classroom.
pub proof fn lemma_multi_slot(c: CursorData, r: RowData)
    requires
        yields(c, r),
        r.slot_spec.is_some(),
    ensures
        row_entries(c, r).len() == split(r.slot_spec.unwrap(), ',').len(),
        forall|k: int|
            0 <= k < row_entries(c, r).len() ==> {
                let e = #[trigger] row_entries(c, r)[k];
                &&& e.slot_number == resolve_slots(
                    split(r.slot_spec.unwrap(), ','),
                    last_slot(carried(c, r).slots),
                )[k]
                &&& e.group_name == row_entries(c, r)[0].group_name
                &&& e.subgroup == row_entries(c, r)[0].subgroup
                &&& e.name == row_entries(c, r)[0].name
                &&& e.teacher == r.teacher
                &&& e.classroom == r.classroom
            },
{
    lemma_resolve_slots_len(split(r.slot_spec.unwrap(), ','), last_slot(carried(c, r).slots));
}

/// In a slot list, an item that starts with a number up to 255 stands for
/// that number, whatever slot came before it.
pub proof fn lemma_stated_slot_wins(tokens: Seq<Seq<char>>, last: Num, k: int)
    requires
        0 <= k < tokens.len(),
        slot_in(tokens[k]).is_some(),
    ensures
        resolve_slots(tokens, last)[k] == Num::Actual(slot_in(tokens[k]).unwrap()),
{
    lemma_repaired(stated_slots(tokens), last);
}

/// A row that states nothing gives no entry and leaves the cursor as it
/// was.
pub proof fn lemma_blank_row(c: CursorData, r: RowData)
    requires
        r.is_blank(),
    ensures
        row_entries(c, r) == Seq::<EntryData>::empty(),
        next_cursor(c, r) == c,
{
}

/// A row whose group is known neither from itself nor from the rows above
/// gives no entry and leaves the cursor as it was.
pub proof fn lemma_ungroupable_row(c: CursorData, r: RowData)
    requires
        c.group_name.is_none(),
        r.group_name.is_none(),
    ensures
        row_entries(c, r) == Seq::<EntryData>::empty(),
        next_cursor(c, r) == c,
{
}

/// A row that names a group, the cursor's own or another, keeps what was
/// carried: subgroup, slots and lesson name stay as they were until the row
/// states its own.
pub proof fn lemma_group_keeps_carry(c: CursorData, r: RowData)
    requires
        r.group_name.is_some(),
    ensures
        carried(c, r).group_name == r.group_name,
        carried(c, r).subgroup == c.subgroup,
        carried(c, r).slots == c.slots,
        carried(c, r).lesson_name == c.lesson_name,
        r.group_name == c.group_name ==> carried(c, r) == c,
        r.slot_spec.is_none() ==> next_cursor(c, r).slots == c.slots,
{
}

} // verus!

//! The way from a page, or from the cell texts of its table, to the
//! snapshot of the day.

use crate::assemble::{groups_of, map_lessons_to_groups, well_assembled};
use crate::date::{clock_at, header_date, parse_date, Date};
use crate::default::{default_day_views, DefaultDay, DefaultDayData};
use crate::error::ParserError;
use crate::reconcile::{entries_of, reconcile, row_views};
use crate::row::{filled, parse_row, tokenize, RowData, TokenizedRow};
use crate::snapshot::Snapshot;
use crate::text::texts;
use crate::table::{clean_rows, fits, has_table, parse_html, read_from, row_texts, Table};
use crate::timetable::GroupData;
use vstd::prelude::*;

verus! {

/// The first date that the cells of a header row state, from cell `i` on.
pub open spec fn row_date(cells: Seq<Seq<char>>, i: int, reference: i32) -> Option<Date>
    decreases cells.len() - i,
{
    if i < 0 || i >= cells.len() {
        None
    } else {
        match header_date(cells[i], reference) {
            Some(d) => Some(d),
            None => row_date(cells, i + 1, reference),
        }
    }
}

/// The day that a table describes: the date that its first row states, or
/// the fallback where that row states none.
pub open spec fn table_date(rows: Seq<Seq<Seq<char>>>, fallback: Date) -> Date {
    if rows.len() > 0 {
        match row_date(rows[0], 0, fallback.year) {
            Some(d) => d,
            None => fallback,
        }
    } else {
        fallback
    }
}

/// The fields of the lesson rows of a table: its rows from the third on,
/// tokenized. The first row is the header, the second is passed over.
pub open spec fn body_rows(rows: Seq<Seq<Seq<char>>>) -> Seq<RowData> {
    Seq::new(
        if rows.len() > 2 {
            (rows.len() - 2) as nat
        } else {
            0
        },
        |k: int| tokenize(filled(rows[k + 2])),
    )
}

/// The groups that a table states for the watched names.
pub open spec fn table_groups(
    rows: Seq<Seq<Seq<char>>>,
    fallback: Date,
    names: Seq<Seq<char>>,
    days: Seq<DefaultDayData>,
) -> Seq<GroupData> {
    let date = table_date(rows, fallback);
    groups_of(entries_of(body_rows(rows)), names, days, date.weekday_spec(), date.week_is_even())
}

/// The table has a day: it has a header row, and that row states a date or
/// the fallback is a day that exists.
pub open spec fn dated(rows: Seq<Seq<Seq<char>>>, fallback: Date) -> bool {
    rows.len() > 0 && (row_date(rows[0], 0, fallback.year).is_some() || fallback.valid())
}

/// The snapshot is the one that the rows state: the table has a day, the
/// snapshot's day is the table's, its week parity is that of the day, its
/// groups are the table's, well assembled, and its fingerprints are those
/// of its content.
pub open spec fn states(
    rows: Seq<Seq<Seq<char>>>,
    fallback: Date,
    names: Seq<Seq<char>>,
    days: Seq<DefaultDayData>,
    s: Snapshot,
) -> bool {
    &&& dated(rows, fallback)
    &&& s.date == table_date(rows, fallback)
    &&& s.date.valid()
    &&& s.is_week_even == s.date.week_is_even()
    &&& s@.groups == table_groups(rows, fallback, names, days)
    &&& well_assembled(s@.groups, names)
    &&& s.wf()
}

/// A date that a header row states exists.
pub proof fn lemma_row_date_valid(cells: Seq<Seq<char>>, i: int, reference: i32)
    ensures
        row_date(cells, i, reference).is_some() ==> row_date(cells, i, reference).unwrap().valid(),
    decreases cells.len() - i,
{
    if 0 <= i < cells.len() {
        match header_date(cells[i], reference) {
            Some(d) => {
                crate::date::lemma_header_date_valid(
                    crate::text::split(cells[i], ' '),
                    0,
                    reference,
                );
            },
            None => {
                lemma_row_date_valid(cells, i + 1, reference);
            },
        }
    }
}

fn header_row_date(cells: &Vec<String>, reference: &Date) -> (r: Option<Date>)
    ensures
        r == row_date(texts(cells@), 0, reference.year),
        r.is_some() ==> r.unwrap().valid(),
{
    let ghost model = texts(cells@);
    let mut i: usize = 0;
    while i < cells.len()
        invariant
            i <= cells.len(),
            model == texts(cells@),
            row_date(model, 0, reference.year) == row_date(model, i as int, reference.year),
        decreases cells.len() - i,
    {
        assert(model[i as int] == cells@[i as int]@);
        match parse_date(cells[i].as_str(), reference) {
            Some(d) => {
                return Some(d);
            },
            None => {},
        }
        i = i + 1;
    }
    None
}

fn tokenize_body(rows: &Vec<Vec<String>>) -> (out: Vec<TokenizedRow>)
    ensures
        row_views(out@) == body_rows(row_texts(rows@)),
{
    let ghost model = row_texts(rows@);
    let mut out: Vec<TokenizedRow> = Vec::new();
    let mut i: usize = 2;
    while i < rows.len()
        invariant
            2 <= i,
            i <= rows.len() || i == 2,
            model == row_texts(rows@),
            out@.len() == i - 2,
            forall|k: int| 0 <= k < out@.len() ==> (#[trigger] out@[k])@ == body_rows(model)[k],
        decreases rows.len() - i,
    {
        assert(model[i as int] == texts(rows@[i as int]@));
        out.push(parse_row(&rows[i]));
        i = i + 1;
    }
    assert(row_views(out@) =~= body_rows(model));
    out
}

/// The result is what the rows of a table come to when the machine's clock
/// shows `machine`: the snapshot that they state, read at that time;
/// `NoTable` for a table without rows; `Unknown` for a table without a day.
pub open spec fn built_from(
    rows: Seq<Seq<Seq<char>>>,
    fallback: Date,
    names: Seq<Seq<char>>,
    days: Seq<DefaultDayData>,
    machine: i64,
    r: Result<Snapshot, ParserError>,
) -> bool {
    match r {
        Ok(s) => states(rows, fallback, names, days, s) && s.parsed_date as int == clock_at(
            machine as int,
        ),
        Err(e) => if rows.len() == 0 {
            e is NoTable
        } else {
            !dated(rows, fallback) && e is Unknown
        },
    }
}

/// The result is what the reading of a table comes to: for a table, what
/// its rows come to; for a failure to read one, that failure.
pub open spec fn snapshot_of(
    t: Result<Table, ParserError>,
    fallback: Date,
    names: Seq<Seq<char>>,
    days: Seq<DefaultDayData>,
    machine: i64,
    r: Result<Snapshot, ParserError>,
) -> bool {
    match t {
        Ok(table) => built_from(row_texts(table.rows@), fallback, names, days, machine, r),
        Err(e) => r is Err && r->Err_0 == e,
    }
}

/// The result is what a page comes to: `Unknown` for a page that is too
/// long for a tree; `NoTable` for a page without a table; otherwise what
/// the reading of the markup inside the page's last table comes to,
/// whatever form the outside crate gives that markup.
pub open spec fn page_read(
    html: Seq<char>,
    fallback: Date,
    names: Seq<Seq<char>>,
    days: Seq<DefaultDayData>,
    machine: i64,
    r: Result<Snapshot, ParserError>,
) -> bool {
    &&& !fits(html) ==> r is Err && r->Err_0 is Unknown
    &&& fits(html) && !has_table(html) ==> r is Err && r->Err_0 is NoTable
    &&& fits(html) && has_table(html) ==> exists|
        inner: Option<Seq<char>>,
        t: Result<Table, ParserError>,
    |
        #[trigger] read_from(inner, t) && (t is Ok ==> clean_rows(row_texts(t->Ok_0.rows@)))
            && snapshot_of(t, fallback, names, days, machine, r)
}

/// Builds the snapshot that a table states: its day from the header row,
/// or else the fallback date; its groups from the rows after the second,
/// tokenized, carried forward and assembled for the watched names, with the
/// regular schedule of the day's weekday and week parity laid over lessons
/// that refer to it; read when the machine's clock shows the UNIX time
/// `machine`. A table without rows gives `NoTable`; a table whose header
/// states no date, with a fallback that is no existing day, gives
/// `Unknown`.
pub fn parse_snapshot(
    table: &Table,
    fallback_date: Date,
    names: &Vec<String>,
    days: &Vec<DefaultDay>,
    machine: i64,
) -> (r: Result<Snapshot, ParserError>)
    ensures
        built_from(
            row_texts(table.rows@),
            fallback_date,
            texts(names@),
            default_day_views(days@),
            machine,
            r,
        ),
{
    if table.rows.len() == 0 {
        return Err(ParserError::NoTable);
    }
    let ghost model = row_texts(table.rows@);
    assert(model[0] == texts(table.rows@[0]@));
    let date = match header_row_date(&table.rows[0], &fallback_date) {
        Some(d) => d,
        None => {
            if !fallback_date.is_valid() {
                return Err(ParserError::Unknown("the table states no date".to_owned()));
            }
            fallback_date
        },
    };
    let rows = tokenize_body(&table.rows);
    let entries = reconcile(&rows);
    let groups = map_lessons_to_groups(
        &entries,
        names,
        date.weekday(),
        crate::date::is_week_even(&date),
        days,
    );
    let s = Snapshot::new(groups, date, machine);
    Ok(s)
}

/// Reads the snapshot of the day off a page, when the machine's clock shows
/// the UNIX time `machine`. A page that is too long for a tree gives
/// `Unknown`; a page without a table gives `NoTable`; otherwise the result
/// is what `parse_snapshot` makes of the rows of the page's last table.
pub fn parse(
    html: &str,
    possible_date: Date,
    names: &Vec<String>,
    days: &Vec<DefaultDay>,
    machine: i64,
) -> (r: Result<Snapshot, ParserError>)
    ensures
        page_read(
            html@,
            possible_date,
            texts(names@),
            default_day_views(days@),
            machine,
            r,
        ),
{
    let t = parse_html(html);
    let ghost read = t;
    let r = match t {
        Ok(table) => parse_snapshot(&table, possible_date, names, days, machine),
        Err(e) => Err(e),
    };
    proof {
        if fits(html@) && has_table(html@) {
            let inner = choose|inner: Option<Seq<char>>| #[trigger] read_from(inner, read);
            assert(read_from(inner, read) && (read is Ok ==> clean_rows(
                row_texts(read->Ok_0.rows@),
            )) && snapshot_of(
                read,
                possible_date,
                texts(names@),
                default_day_views(days@),
                machine,
                r,
            ));
        }
    }
    r
}

/// What a fetch of a page comes to: a transport error is handed on as it
/// is; a page is read as `parse` reads it.
pub fn snapshot_from_page(
    fetched: Result<String, String>,
    possible_date: Date,
    names: &Vec<String>,
    days: &Vec<DefaultDay>,
    machine: i64,
) -> (r: Result<Snapshot, ParserError>)
    ensures
        match fetched {
            Ok(html) => page_read(
                html@,
                possible_date,
                texts(names@),
                default_day_views(days@),
                machine,
                r,
            ),
            Err(why) => r is Err && r->Err_0 == ParserError::NetworkError(why),
        },
{
    match fetched {
        Ok(html) => parse(html.as_str(), possible_date, names, days, machine),
        Err(why) => Err(ParserError::NetworkError(why)),
    }
}

} // verus!

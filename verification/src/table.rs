//! From a page to the cell texts of its timetable: the last table of the
//! page, row by row, each cell cleaned, rows without any text left out.

use crate::error::ParserError;
use crate::normalize::{is_clean, lemma_normalized_is_clean, normalize_chars, normalized};
use crate::text::{chars_of, string_of, texts, trim, trim_chars};
use crate::timetable::opt_view;
use vstd::prelude::*;

verus! {

/// `tl::VDom`: the tree of a parsed page.
#[verifier::external_type_specification]
#[verifier::external_body]
pub struct ExVDom<'a>(tl::VDom<'a>);

/// `tl::ParseError`: why a page could not be parsed.
#[verifier::external_type_specification]
#[verifier::external_body]
pub struct ExParseError(tl::ParseError);

/// The markup that a tree was parsed from.
pub uninterp spec fn dom_source(dom: tl::VDom<'_>) -> Seq<char>;

/// The nodes of the tree of a markup that a selector picks, by their
/// numbers in the tree and in the tree's order; none for a selector that
/// cannot be read.
pub uninterp spec fn selected_nodes(html: Seq<char>, selector: Seq<char>) -> Option<Seq<u32>>;

/// The direct children of a node of the tree of a markup, by their numbers;
/// none for a number that the tree does not know or a node that is no tag.
pub uninterp spec fn node_children(html: Seq<char>, node: u32) -> Option<Seq<u32>>;

/// The text inside a node of the tree of a markup, without markup; none for
/// a number that the tree does not know.
pub uninterp spec fn node_text(html: Seq<char>, node: u32) -> Option<Seq<char>>;

/// The topmost nodes of the tree of a markup, by their numbers.
pub uninterp spec fn top_nodes(html: Seq<char>) -> Seq<u32>;

/// The markup is short enough for a tree: its UTF-8 form has at most
/// 4294967295 bytes.
pub open spec fn fits(html: Seq<char>) -> bool {
    vstd::utf8::encode_utf8(html).len() <= 0xffff_ffff
}

/// The numbers of an optional run of nodes.
pub open spec fn opt_numbers(found: Option<Vec<u32>>) -> Option<Seq<u32>> {
    match found {
        Some(v) => Some(v@),
        None => None,
    }
}

/// `tl::parse` with the default options: the tree of a markup. It fails,
/// with the crate's error, exactly for a markup whose length does not fit
/// in 32 bits; a tree that comes back is the tree of that markup.
#[verifier::external_body]
fn tl_parse<'a>(html: &'a str) -> (r: Result<tl::VDom<'a>, tl::ParseError>)
    ensures
        r is Ok <==> fits(html@),
        r is Ok ==> dom_source(r->Ok_0) == html@,
{
    tl::parse(html, tl::ParserOptions::default())
}

/// `tl::VDom::query_selector`, each handle turned into its number by
/// `tl::NodeHandle::get_inner`: the nodes of a tree that a selector picks,
/// or `None` for a selector that the crate cannot read.
#[verifier::external_body]
fn tl_select(dom: &tl::VDom, selector: &str) -> (r: Option<Vec<u32>>)
    ensures
        opt_numbers(r) == selected_nodes(dom_source(*dom), selector@),
{
    match dom.query_selector(selector) {
        Some(found) => Some(found.map(|h| h.get_inner()).collect()),
        None => None,
    }
}

/// `tl::NodeHandle::get`, then `tl::Node::inner_html`: the markup inside a
/// node, or `None` for a number that the tree does not know. Nothing is
/// promised of the markup: the crate writes the attributes of tags in an
/// order that it does not fix.
#[verifier::external_body]
fn tl_inner_html(dom: &tl::VDom, node: u32) -> Option<String> {
    match tl::NodeHandle::new(node).get(dom.parser()) {
        Some(n) => Some(n.inner_html(dom.parser()).into_owned()),
        None => None,
    }
}

/// `tl::NodeHandle::get`, then `tl::Node::children` and
/// `tl::Children::top`, each handle turned into its number: the direct
/// children of a node, or `None` for a number that the tree does not know
/// or a node that is no tag.
#[verifier::external_body]
fn tl_children(dom: &tl::VDom, node: u32) -> (r: Option<Vec<u32>>)
    ensures
        opt_numbers(r) == node_children(dom_source(*dom), node),
{
    match tl::NodeHandle::new(node).get(dom.parser()) {
        Some(n) => match n.children() {
            Some(c) => Some(c.top().iter().map(|h| h.get_inner()).collect()),
            None => None,
        },
        None => None,
    }
}

/// `tl::NodeHandle::get`, then `tl::Node::inner_text`: the text inside a
/// node without its markup, or `None` for a number that the tree does not
/// know.
#[verifier::external_body]
fn tl_inner_text(dom: &tl::VDom, node: u32) -> (r: Option<String>)
    ensures
        opt_view(r) == node_text(dom_source(*dom), node),
{
    match tl::NodeHandle::new(node).get(dom.parser()) {
        Some(n) => Some(n.inner_text(dom.parser()).into_owned()),
        None => None,
    }
}

/// The cell texts of a table, row by row.
#[derive(Debug, PartialEq, Eq)]
pub struct Table {
    pub rows: Vec<Vec<String>>,
}

/// The cell that a node's text gives: the text cleaned, without white space
/// around it; none where the node has no text or white space only.
pub open spec fn cell_of(raw: Option<Seq<char>>) -> Option<Seq<char>> {
    match raw {
        Some(t) => if trim(t).len() > 0 {
            Some(normalized(trim(t)))
        } else {
            None
        },
        None => None,
    }
}

/// The cells of a row, from the texts of the row's nodes in order.
pub open spec fn row_of(raw: Seq<Option<Seq<char>>>) -> Seq<Seq<char>>
    decreases raw.len(),
{
    if raw.len() == 0 {
        Seq::empty()
    } else {
        let head = row_of(raw.drop_last());
        match cell_of(raw.last()) {
            Some(c) => head.push(c),
            None => head,
        }
    }
}

/// The row holds a cell with text.
pub open spec fn has_text(row: Seq<Seq<char>>) -> bool {
    exists|k: int| 0 <= k < row.len() && (#[trigger] row[k]).len() > 0
}

/// The rows of a table, from the texts of the nodes of each row: the cells
/// of each row, rows without any text left out.
pub open spec fn rows_of(raw: Seq<Seq<Option<Seq<char>>>>) -> Seq<Seq<Seq<char>>>
    decreases raw.len(),
{
    if raw.len() == 0 {
        Seq::empty()
    } else {
        let head = rows_of(raw.drop_last());
        let row = row_of(raw.last());
        if has_text(row) {
            head.push(row)
        } else {
            head
        }
    }
}

/// Every cell of the row is a single clean line.
pub open spec fn clean_row(row: Seq<Seq<char>>) -> bool {
    forall|k: int| 0 <= k < row.len() ==> is_clean(#[trigger] row[k])
}

/// Every row holds a cell with text, and every cell is a single clean
/// line.
pub open spec fn clean_rows(rows: Seq<Seq<Seq<char>>>) -> bool {
    forall|k: int| 0 <= k < rows.len() ==> has_text(#[trigger] rows[k]) && clean_row(rows[k])
}

/// Every cell of a row is a single clean line.
pub proof fn lemma_row_is_clean(raw: Seq<Option<Seq<char>>>)
    ensures
        clean_row(row_of(raw)),
    decreases raw.len(),
{
    if raw.len() > 0 {
        lemma_row_is_clean(raw.drop_last());
        let head = row_of(raw.drop_last());
        match cell_of(raw.last()) {
            Some(c) => {
                lemma_normalized_is_clean(trim(raw.last().unwrap()));
                let out = head.push(c);
                assert forall|k: int| 0 <= k < out.len() implies is_clean(#[trigger] out[k]) by {
                    if k < head.len() {
                        assert(out[k] == head[k]);
                    }
                }
            },
            None => {},
        }
    }
}

/// The rows of a table each hold a cell with text, and all their cells are
/// single clean lines.
pub proof fn lemma_rows_are_clean(raw: Seq<Seq<Option<Seq<char>>>>)
    ensures
        clean_rows(rows_of(raw)),
    decreases raw.len(),
{
    if raw.len() > 0 {
        lemma_rows_are_clean(raw.drop_last());
        lemma_row_is_clean(raw.last());
        let head = rows_of(raw.drop_last());
        let out = rows_of(raw);
        assert forall|k: int| 0 <= k < out.len() implies has_text(#[trigger] out[k]) && clean_row(
            out[k],
        ) by {
            if k < head.len() {
                assert(out[k] == head[k]);
            }
        }
    }
}

/// The texts of the nodes of one row.
pub open spec fn node_texts(row: Seq<Option<String>>) -> Seq<Option<Seq<char>>> {
    Seq::new(row.len(), |k: int| opt_view(row[k]))
}

/// The texts of the nodes of a table.
pub open spec fn table_texts(raw: Seq<Vec<Option<String>>>) -> Seq<Seq<Option<Seq<char>>>> {
    Seq::new(raw.len(), |k: int| node_texts(raw[k]@))
}

/// The texts of cleaned rows.
pub open spec fn row_texts(rows: Seq<Vec<String>>) -> Seq<Seq<Seq<char>>> {
    Seq::new(rows.len(), |k: int| texts(rows[k]@))
}

/// The cell that a node's text gives, if any.
pub fn get_inner_text(raw: &Option<String>) -> (r: Option<String>)
    ensures
        opt_view(r) == cell_of(opt_view(*raw)),
{
    match raw {
        Some(t) => {
            let bare = trim_chars(&chars_of(t.as_str()));
            if bare.len() > 0 {
                Some(string_of(&normalize_chars(&bare)))
            } else {
                None
            }
        },
        None => None,
    }
}

fn clean_cells(raw: &Vec<Option<String>>) -> (out: Vec<String>)
    ensures
        texts(out@) == row_of(node_texts(raw@)),
{
    let ghost model = node_texts(raw@);
    let mut out: Vec<String> = Vec::new();
    let mut i: usize = 0;
    assert(model.subrange(0, 0) == Seq::<Option<Seq<char>>>::empty());
    assert(texts(out@) == Seq::<Seq<char>>::empty());
    while i < raw.len()
        invariant
            i <= raw.len(),
            model == node_texts(raw@),
            texts(out@) == row_of(model.subrange(0, i as int)),
        decreases raw.len() - i,
    {
        proof {
            let p = model.subrange(0, i + 1);
            assert(p.drop_last() == model.subrange(0, i as int));
            assert(p.last() == opt_view(raw@[i as int]));
        }
        match get_inner_text(&raw[i]) {
            Some(c) => {
                let ghost before = out@;
                out.push(c);
                assert(texts(out@) == texts(before).push(c@));
            },
            None => {},
        }
        i = i + 1;
    }
    assert(model.subrange(0, raw.len() as int) == model);
    out
}

fn row_has_text(row: &Vec<String>) -> (r: bool)
    ensures
        r == has_text(texts(row@)),
{
    let ghost model = texts(row@);
    let mut i: usize = 0;
    while i < row.len()
        invariant
            i <= row.len(),
            model == texts(row@),
            forall|k: int| 0 <= k < i ==> (#[trigger] model[k]).len() == 0,
        decreases row.len() - i,
    {
        assert(model[i as int] == row@[i as int]@);
        if row[i].as_str().unicode_len() > 0 {
            return true;
        }
        i = i + 1;
    }
    false
}

/// Turns the texts of the nodes of a table's rows into the table's cells:
/// each text without white space around it and cleaned, nodes without text
/// passed over, rows without any text left out.
pub fn table_rows(raw: &Vec<Vec<Option<String>>>) -> (out: Vec<Vec<String>>)
    ensures
        row_texts(out@) == rows_of(table_texts(raw@)),
        clean_rows(row_texts(out@)),
{
    let ghost model = table_texts(raw@);
    let mut out: Vec<Vec<String>> = Vec::new();
    let mut i: usize = 0;
    assert(model.subrange(0, 0) == Seq::<Seq<Option<Seq<char>>>>::empty());
    assert(row_texts(out@) == Seq::<Seq<Seq<char>>>::empty());
    while i < raw.len()
        invariant
            i <= raw.len(),
            model == table_texts(raw@),
            row_texts(out@) == rows_of(model.subrange(0, i as int)),
        decreases raw.len() - i,
    {
        proof {
            let p = model.subrange(0, i + 1);
            assert(p.drop_last() == model.subrange(0, i as int));
            assert(p.last() == node_texts(raw@[i as int]@));
        }
        let row = clean_cells(&raw[i]);
        if row_has_text(&row) {
            let ghost before = out@;
            let ghost cells = texts(row@);
            out.push(row);
            assert(row_texts(out@) == row_texts(before).push(cells));
        }
        i = i + 1;
    }
    assert(model.subrange(0, raw.len() as int) == model);
    proof {
        lemma_rows_are_clean(model);
    }
    out
}

/// The last of the nodes found, if any was found.
pub fn pick_last<T: Copy>(found: Option<Vec<T>>) -> (r: Option<T>)
    ensures
        match found {
            Some(v) => if v@.len() > 0 {
                r == Some(v@.last())
            } else {
                r.is_none()
            },
            None => r.is_none(),
        },
{
    match found {
        Some(v) => {
            if v.len() > 0 {
                Some(v[v.len() - 1])
            } else {
                None
            }
        },
        None => None,
    }
}

/// The texts of the nodes of a row of the tree of a markup: those of the
/// direct children of the row's node, in order; none for a row that has no
/// children to show.
pub open spec fn row_nodes(html: Seq<char>, row: u32) -> Seq<Option<Seq<char>>> {
    match node_children(html, row) {
        Some(cells) => Seq::new(cells.len(), |k: int| node_text(html, cells[k])),
        None => Seq::empty(),
    }
}

/// The texts of the nodes of the given rows of the tree of a markup.
pub open spec fn rows_nodes(html: Seq<char>, rows: Seq<u32>) -> Seq<Seq<Option<Seq<char>>>> {
    Seq::new(rows.len(), |i: int| row_nodes(html, rows[i]))
}

/// The rows that the markup inside a table states: for each `tr` node of
/// its tree, in the tree's order, the cells that the texts of the node's
/// direct children give, rows without any text left out. None for a markup
/// that is too long for a tree.
pub open spec fn markup_rows(html: Seq<char>) -> Option<Seq<Seq<Seq<char>>>> {
    if fits(html) {
        match selected_nodes(html, "tr"@) {
            Some(rows) => Some(rows_of(rows_nodes(html, rows))),
            None => None,
        }
    } else {
        None
    }
}

fn row_nodes_of(dom: &tl::VDom, row: u32) -> (out: Vec<Option<String>>)
    ensures
        node_texts(out@) == row_nodes(dom_source(*dom), row),
{
    let mut out: Vec<Option<String>> = Vec::new();
    match tl_children(dom, row) {
        Some(cells) => {
            let mut k: usize = 0;
            while k < cells.len()
                invariant
                    k <= cells.len(),
                    out@.len() == k,
                    forall|j: int|
                        0 <= j < k ==> opt_view(#[trigger] out@[j]) == node_text(
                            dom_source(*dom),
                            cells@[j],
                        ),
                decreases cells.len() - k,
            {
                out.push(tl_inner_text(dom, cells[k]));
                k = k + 1;
            }
            assert(node_texts(out@) =~= row_nodes(dom_source(*dom), row));
        },
        None => {
            assert(node_texts(out@) =~= row_nodes(dom_source(*dom), row));
        },
    }
    out
}

fn rows_nodes_of(dom: &tl::VDom, rows: &Vec<u32>) -> (out: Vec<Vec<Option<String>>>)
    ensures
        table_texts(out@) == rows_nodes(dom_source(*dom), rows@),
{
    let mut out: Vec<Vec<Option<String>>> = Vec::new();
    let mut i: usize = 0;
    while i < rows.len()
        invariant
            i <= rows.len(),
            out@.len() == i,
            forall|j: int|
                0 <= j < i ==> node_texts((#[trigger] out@[j])@) == row_nodes(
                    dom_source(*dom),
                    rows@[j],
                ),
        decreases rows.len() - i,
    {
        out.push(row_nodes_of(dom, rows[i]));
        i = i + 1;
    }
    assert(table_texts(out@) =~= rows_nodes(dom_source(*dom), rows@));
    out
}

/// Reads the rows of a table off the markup inside it: the cells of each
/// `tr` node of the markup's tree, rows without any text left out. Each row
/// that comes back holds a cell with text, and every cell is a single clean
/// line. A markup that is too long for a tree gives `Unknown`.
pub fn parse_table(html: &str) -> (r: Result<Vec<Vec<String>>, ParserError>)
    ensures
        match r {
            Ok(rows) => markup_rows(html@) == Some(row_texts(rows@)) && clean_rows(
                row_texts(rows@),
            ),
            Err(e) => markup_rows(html@).is_none() && e is Unknown,
        },
{
    let dom = match tl_parse(html) {
        Ok(d) => d,
        Err(_) => {
            return Err(ParserError::Unknown("the table is too long to read".to_owned()));
        },
    };
    let trs = match tl_select(&dom, "tr") {
        Some(t) => t,
        None => {
            return Err(ParserError::Unknown("Unable to select `tr`".to_owned()));
        },
    };
    let raw = rows_nodes_of(&dom, &trs);
    Ok(table_rows(&raw))
}

/// The result is what the markup inside a table comes to: the rows that
/// the markup states; `Unknown` where it states none, or where the outside
/// crate hands no markup back.
pub open spec fn read_from(inner: Option<Seq<char>>, r: Result<Table, ParserError>) -> bool {
    match inner {
        Some(s) => match r {
            Ok(table) => markup_rows(s) == Some(row_texts(table.rows@)),
            Err(e) => markup_rows(s).is_none() && e is Unknown,
        },
        None => r is Err && r->Err_0 is Unknown,
    }
}

/// Reads a table off the markup inside it, where there is any.
pub fn table_of(inner: Option<String>) -> (r: Result<Table, ParserError>)
    ensures
        read_from(opt_view(inner), r),
        r is Ok ==> clean_rows(row_texts(r->Ok_0.rows@)),
{
    match inner {
        Some(s) => match parse_table(s.as_str()) {
            Ok(rows) => Ok(Table { rows }),
            Err(e) => Err(e),
        },
        None => Err(ParserError::Unknown("the table cannot be read".to_owned())),
    }
}

/// The page has a table: the selector `table` picks at least one node of
/// its tree.
pub open spec fn has_table(html: Seq<char>) -> bool {
    match selected_nodes(html, "table"@) {
        Some(tables) => tables.len() > 0,
        None => false,
    }
}

/// Reads the timetable off a page: the rows of the last table of the page.
/// A page that is too long for a tree gives `Unknown`; a page without a
/// table gives `NoTable`, and only such a page does; otherwise the result
/// is what the markup inside the last table comes to, whatever form the
/// outside crate gives that markup. Each row that comes back holds a cell
/// with text, and every cell is a single clean line.
pub fn parse_html(html: &str) -> (r: Result<Table, ParserError>)
    ensures
        !fits(html@) ==> r is Err && r->Err_0 is Unknown,
        fits(html@) && !has_table(html@) ==> r is Err && r->Err_0 is NoTable,
        fits(html@) && has_table(html@) ==> exists|inner: Option<Seq<char>>|
            #[trigger] read_from(inner, r),
        r is Err && r->Err_0 is NoTable ==> fits(html@) && !has_table(html@),
        r is Ok ==> clean_rows(row_texts(r->Ok_0.rows@)),
{
    let dom = match tl_parse(html) {
        Ok(d) => d,
        Err(_) => {
            return Err(ParserError::Unknown("the page is too long to read".to_owned()));
        },
    };
    let table = match pick_last(tl_select(&dom, "table")) {
        Some(t) => t,
        None => {
            return Err(ParserError::NoTable);
        },
    };
    let inner = tl_inner_html(&dom, table);
    let ghost markup = opt_view(inner);
    let r = table_of(inner);
    assert(read_from(markup, r));
    r
}

/// The texts one after the other, absent ones passed over.
pub open spec fn joined(parts: Seq<Option<Seq<char>>>) -> Seq<char>
    decreases parts.len(),
{
    if parts.len() == 0 {
        Seq::empty()
    } else {
        joined(parts.drop_last()) + crate::timetable::or_empty(parts.last())
    }
}

/// The clean text of the given pieces of text, taken together.
pub fn text_of(parts: &Vec<Option<String>>) -> (out: String)
    ensures
        out@ == normalized(joined(node_texts(parts@))),
        is_clean(out@),
{
    let ghost model = node_texts(parts@);
    let mut all: Vec<char> = Vec::new();
    let mut i: usize = 0;
    assert(model.subrange(0, 0) == Seq::<Option<Seq<char>>>::empty());
    while i < parts.len()
        invariant
            i <= parts.len(),
            model == node_texts(parts@),
            all@ == joined(model.subrange(0, i as int)),
        decreases parts.len() - i,
    {
        proof {
            let p = model.subrange(0, i + 1);
            assert(p.drop_last() == model.subrange(0, i as int));
            assert(p.last() == opt_view(parts@[i as int]));
        }
        match &parts[i] {
            Some(t) => {
                let mut piece = chars_of(t.as_str());
                all.append(&mut piece);
            },
            None => {
                assert(all@ + Seq::<char>::empty() == all@);
            },
        }
        i = i + 1;
    }
    assert(model.subrange(0, parts.len() as int) == model);
    proof {
        lemma_normalized_is_clean(all@);
    }
    string_of(&normalize_chars(&all))
}

/// `tl::VDom::children`, each handle turned into its number: the topmost
/// nodes of a tree.
#[verifier::external_body]
fn tl_top(dom: &tl::VDom) -> (r: Vec<u32>)
    ensures
        r@ == top_nodes(dom_source(*dom)),
{
    dom.children().iter().map(|h| h.get_inner()).collect()
}

/// The texts of the topmost nodes of the tree of a markup, in order; none
/// for a markup that is too long for a tree.
pub open spec fn top_texts(html: Seq<char>) -> Seq<Option<Seq<char>>> {
    if fits(html) {
        Seq::new(top_nodes(html).len(), |k: int| node_text(html, top_nodes(html)[k]))
    } else {
        Seq::empty()
    }
}

/// The text of a piece of markup without the markup, as a single clean
/// line: the texts of the topmost nodes of its tree, one after the other,
/// cleaned. A markup that is too long for a tree gives the empty text.
pub fn into_text(html: &str) -> (out: String)
    ensures
        out@ == normalized(joined(top_texts(html@))),
        is_clean(out@),
{
    let mut parts: Vec<Option<String>> = Vec::new();
    match tl_parse(html) {
        Ok(dom) => {
            let nodes = tl_top(&dom);
            let mut i: usize = 0;
            while i < nodes.len()
                invariant
                    i <= nodes.len(),
                    fits(html@),
                    dom_source(dom) == html@,
                    nodes@ == top_nodes(html@),
                    parts@.len() == i,
                    forall|j: int|
                        0 <= j < i ==> opt_view(#[trigger] parts@[j]) == node_text(
                            html@,
                            nodes@[j],
                        ),
                decreases nodes.len() - i,
            {
                parts.push(tl_inner_text(&dom, nodes[i]));
                i = i + 1;
            }
            assert(node_texts(parts@) =~= top_texts(html@));
        },
        Err(_) => {
            assert(node_texts(parts@) =~= top_texts(html@));
        },
    }
    text_of(&parts)
}

} // verus!

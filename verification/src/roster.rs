use std::collections::HashSet;
use vstd::prelude::*;
use crate::html::{
    document_matches, element_matches, element_text, first_text, parsable, parse_document,
    parse_selector, parsed_document, parsed_selector, select_in_document, select_in_element,
    MAX_PAGE_BYTES,
};
use crate::text::{parse_u32, parsed_u32};

verus! {

/// The mathematical value of a [`RosterEntry`].
pub ghost struct EntryModel {
    pub student_id: u32,
    pub name: Seq<char>,
}

/// One member as the roster page lists them in the current scrape.
#[derive(Debug, PartialEq, Eq)]
pub struct RosterEntry {
    pub student_id: u32,
    pub name: String,
}

impl View for RosterEntry {
    type V = EntryModel;

    open spec fn view(&self) -> EntryModel {
        EntryModel { student_id: self.student_id, name: self.name@ }
    }
}

impl Clone for RosterEntry {
    fn clone(&self) -> (copy: Self)
        ensures
            copy@ == self@,
    {
        RosterEntry { student_id: self.student_id, name: self.name.clone() }
    }
}

/// What one good response gave: the roster, and the number of table rows that were
/// skipped because they gave no entry.
#[derive(Debug, PartialEq, Eq)]
pub struct Scrape {
    pub entries: Vec<RosterEntry>,
    pub skipped: usize,
}

/// The values of a sequence of entries, in order.
pub open spec fn entry_models(entries: Seq<RosterEntry>) -> Seq<EntryModel> {
    entries.map_values(|e: RosterEntry| e@)
}

/// Some entry of the scrape carries `student_id`.
pub open spec fn listed(entries: Seq<EntryModel>, student_id: u32) -> bool {
    exists|i: int| 0 <= i < entries.len() && (#[trigger] entries[i]).student_id == student_id
}

/// The identifiers that a scrape lists, as a set.
pub fn listed_ids(entries: &Vec<RosterEntry>) -> (ids: HashSet<u32>)
    ensures
        forall|id: u32| ids@.contains(id) <==> listed(entry_models(entries@), id),
{
    broadcast use vstd::std_specs::hash::group_hash_axioms;

    let ghost scrape = entry_models(entries@);
    let mut ids: HashSet<u32> = HashSet::new();
    let mut i: usize = 0;
    while i < entries.len()
        invariant
            i <= entries@.len(),
            scrape == entry_models(entries@),
            forall|id: u32| ids@.contains(id) <==> listed(scrape.take(i as int), id),
        decreases entries@.len() - i,
    {
        let ghost seen = scrape.take(i as int);
        let ghost next = scrape.take(i + 1);
        let ghost known = ids@;
        ids.insert(entries[i].student_id);
        proof {
            assert(next[i as int].student_id == entries@[i as int].student_id);
            assert forall|id: u32| ids@.contains(id) <==> listed(next, id) by {
                if listed(next, id) {
                    let j = choose|j: int|
                        0 <= j < next.len() && (#[trigger] next[j]).student_id == id;
                    if j < i {
                        assert(seen[j].student_id == id);
                    }
                }
                if known.contains(id) {
                    let j = choose|j: int|
                        0 <= j < seen.len() && (#[trigger] seen[j]).student_id == id;
                    assert(next[j].student_id == id);
                }
            }
        }
        i = i + 1;
    }
    assert(scrape.take(i as int) =~= scrape);
    ids
}

/// Where the rows of the roster table stand in the page.
pub const ROW_SELECTOR: &'static str = "#group-member-list-datatable > tbody > tr";

/// Where the data cells stand below a row.
pub const CELL_SELECTOR: &'static str = "td";

/// The leading data cells of one table row: for each cell the first text in it, if it
/// holds any.
#[derive(Debug, PartialEq, Eq)]
pub struct TableRow {
    pub cells: Vec<Option<String>>,
}

/// The value of a cell: its text, if it holds any.
pub open spec fn cell_model(cell: Option<String>) -> Option<Seq<char>> {
    match cell {
        Some(text) => Some(text@),
        None => None,
    }
}

impl View for TableRow {
    type V = Seq<Option<Seq<char>>>;

    open spec fn view(&self) -> Seq<Option<Seq<char>>> {
        self.cells@.map_values(|cell: Option<String>| cell_model(cell))
    }
}

/// The values of a sequence of rows, in order.
pub open spec fn row_models(rows: Seq<TableRow>) -> Seq<Seq<Option<Seq<char>>>> {
    rows.map_values(|row: TableRow| row@)
}

/// The entry that one row gives. A row gives none where it has fewer than two cells
/// that hold text, or where the text of its first cell does not write a non-negative
/// integer of 32 bits.
pub open spec fn entry_of(cells: Seq<Option<Seq<char>>>) -> Option<EntryModel> {
    if cells.len() >= 2 && cells[0] is Some && cells[1] is Some && parsed_u32(cells[0]->0) is Some {
        Some(EntryModel { student_id: parsed_u32(cells[0]->0)->0, name: cells[1]->0 })
    } else {
        None
    }
}

/// The entries that a sequence of rows gives, in row order; rows that give none are
/// passed over.
pub open spec fn entries_of(rows: Seq<Seq<Option<Seq<char>>>>) -> Seq<EntryModel> {
    rows.filter_map(|cells: Seq<Option<Seq<char>>>| entry_of(cells))
}

/// Rows that give no entry are the only difference between rows and entries.
pub proof fn lemma_entries_bounded(rows: Seq<Seq<Option<Seq<char>>>>)
    ensures
        entries_of(rows).len() <= rows.len(),
    decreases rows.len(),
{
    if rows.len() > 0 {
        lemma_entries_bounded(rows.drop_last());
    }
}

/// Reading two runs of rows one after the other gives the entries of the first run,
/// then those of the second.
pub proof fn lemma_entries_concat(
    first: Seq<Seq<Option<Seq<char>>>>,
    second: Seq<Seq<Option<Seq<char>>>>,
)
    ensures
        entries_of(first + second) == entries_of(first) + entries_of(second),
    decreases second.len(),
{
    if second.len() == 0 {
        assert(first + second =~= first);
        assert(entries_of(first) + entries_of(second) =~= entries_of(first));
    } else {
        lemma_entries_concat(first, second.drop_last());
        assert((first + second).drop_last() =~= first + second.drop_last());
        assert((first + second).last() == second.last());
        match entry_of(second.last()) {
            Some(e) => {
                assert(entries_of(first + second) =~= entries_of(first) + entries_of(second));
            },
            None => {},
        }
    }
}

/// Where every row gives an entry, the roster has one entry for each row, in row order.
pub proof fn lemma_good_rows_all_read(rows: Seq<Seq<Option<Seq<char>>>>)
    requires
        forall|i: int| 0 <= i < rows.len() ==> entry_of(#[trigger] rows[i]) is Some,
    ensures
        entries_of(rows).len() == rows.len(),
        forall|i: int| 0 <= i < rows.len() ==> Some(#[trigger] entries_of(rows)[i]) == entry_of(rows[i]),
    decreases rows.len(),
{
    if rows.len() > 0 {
        let init = rows.drop_last();
        assert forall|i: int| 0 <= i < init.len() implies entry_of(#[trigger] init[i]) is Some by {
            assert(init[i] == rows[i]);
        }
        lemma_good_rows_all_read(init);
        assert(rows[rows.len() - 1] == rows.last());
        assert forall|i: int| 0 <= i < rows.len() implies Some(#[trigger] entries_of(rows)[i])
            == entry_of(rows[i]) by {
            if i < init.len() {
                assert(entries_of(rows)[i] == entries_of(init)[i]);
                assert(init[i] == rows[i]);
            }
        }
    }
}

/// A row that gives no entry does not disturb the others: put among rows at any place,
/// it leaves the roster as it is without it. A row with fewer than two cells is such a
/// row. So where every other row gives an entry, the roster has one entry for each of
/// them, in row order.
pub proof fn lemma_skipped_row_changes_nothing(
    rows: Seq<Seq<Option<Seq<char>>>>,
    at: int,
    skipped: Seq<Option<Seq<char>>>,
)
    requires
        0 <= at <= rows.len(),
        skipped.len() < 2 || entry_of(skipped) is None,
    ensures
        entries_of(rows.insert(at, skipped)) == entries_of(rows),
        (forall|i: int| 0 <= i < rows.len() ==> entry_of(#[trigger] rows[i]) is Some) ==> {
            &&& entries_of(rows.insert(at, skipped)).len() == rows.len()
            &&& forall|i: int|
                0 <= i < rows.len() ==> Some(#[trigger] entries_of(rows.insert(at, skipped))[i])
                    == entry_of(rows[i])
        },
{
    let before = rows.take(at);
    let after = rows.skip(at);
    let one = seq![skipped];
    assert(one.drop_last() =~= Seq::<Seq<Option<Seq<char>>>>::empty());
    assert(one.last() == skipped);
    assert(entry_of(skipped) is None);
    assert(entries_of(one.drop_last()) =~= Seq::<EntryModel>::empty());
    assert(entries_of(one) =~= Seq::<EntryModel>::empty());
    lemma_entries_concat(before, one);
    lemma_entries_concat(before + one, after);
    lemma_entries_concat(before, after);
    assert(rows.insert(at, skipped) =~= before + one + after);
    assert(before + after =~= rows);
    assert(entries_of(before) + entries_of(one) =~= entries_of(before));
    if forall|i: int| 0 <= i < rows.len() ==> entry_of(#[trigger] rows[i]) is Some {
        lemma_good_rows_all_read(rows);
    }
}

/// The leading cells of one row element: the text of each of the first two data cells
/// below it.
pub open spec fn leading_cells(row: scraper::ElementRef<'_>, cell: scraper::Selector) -> Seq<
    Option<Seq<char>>,
> {
    let found = element_matches(row, cell);
    Seq::new(
        if found.len() < 2 {
            found.len()
        } else {
            2
        },
        |i: int| first_text(found[i]),
    )
}

/// The rows of the roster table in a page, each with its leading cells. A page without
/// the table has none.
pub open spec fn table_rows(html: Seq<char>) -> Seq<Seq<Option<Seq<char>>>> {
    match (parsed_selector(ROW_SELECTOR@), parsed_selector(CELL_SELECTOR@)) {
        (Some(row), Some(cell)) => document_matches(parsed_document(html), row).map_values(
            |tr: scraper::ElementRef<'static>| leading_cells(tr, cell),
        ),
        _ => Seq::empty(),
    }
}

/// The roster that a page holds.
pub open spec fn extracted(html: Seq<char>) -> Seq<EntryModel> {
    entries_of(table_rows(html))
}

/// Reads the entry that one row gives, if it gives one.
pub fn entry_from_row(row: &TableRow) -> (entry: Option<RosterEntry>)
    ensures
        entry is Some == entry_of(row@) is Some,
        entry matches Some(e) ==> entry_of(row@) == Some(e@),
{
    if row.cells.len() < 2 {
        return None;
    }
    assert(row@[0] == cell_model(row.cells@[0]));
    assert(row@[1] == cell_model(row.cells@[1]));
    match (&row.cells[0], &row.cells[1]) {
        (Some(id_text), Some(name)) => match parse_u32(id_text.as_str()) {
            Some(student_id) => Some(RosterEntry { student_id, name: name.clone() }),
            None => None,
        },
        _ => None,
    }
}

/// Reads the roster from table rows: one entry for each row that gives one, in row
/// order. A row that gives none is skipped, and the rows after it are still read.
pub fn entries_from_rows(rows: &Vec<TableRow>) -> (entries: Vec<RosterEntry>)
    ensures
        entry_models(entries@) == entries_of(row_models(rows@)),
{
    let mut entries: Vec<RosterEntry> = Vec::new();
    let mut i: usize = 0;
    assert(row_models(rows@).take(0) =~= Seq::empty());
    assert(entry_models(entries@) =~= entries_of(row_models(rows@).take(0)));
    while i < rows.len()
        invariant
            i <= rows@.len(),
            entry_models(entries@) == entries_of(row_models(rows@).take(i as int)),
        decreases rows@.len() - i,
    {
        let ghost seen = row_models(rows@).take(i + 1);
        let ghost before = entry_models(entries@);
        proof {
            assert(seen.drop_last() =~= row_models(rows@).take(i as int));
            assert(seen.last() == rows@[i as int]@);
        }
        match entry_from_row(&rows[i]) {
            Some(entry) => {
                entries.push(entry);
                assert(entry_models(entries@) =~= before + seq![entry@]);
            },
            None => {},
        }
        i = i + 1;
    }
    assert(row_models(rows@).take(i as int) =~= row_models(rows@));
    entries
}

/// Reads the leading cells of one row element.
fn read_cells(row: &scraper::ElementRef<'_>, cell: &scraper::Selector) -> (cells: Vec<
    Option<String>,
>)
    ensures
        cells@.map_values(|c: Option<String>| cell_model(c)) == leading_cells(*row, *cell),
{
    let found = select_in_element(row, cell);
    let mut cells: Vec<Option<String>> = Vec::new();
    let mut k: usize = 0;
    while k < found.len() && k < 2
        invariant
            k <= 2,
            k <= found@.len(),
            cells@.len() == k,
            forall|j: int| 0 <= j < k ==> cell_model(#[trigger] cells@[j]) == first_text(found@[j]),
        decreases 2 - k,
    {
        let text = element_text(&found[k]);
        cells.push(text);
        k = k + 1;
    }
    assert(cells@.map_values(|c: Option<String>| cell_model(c)) =~= leading_cells(*row, *cell));
    cells
}

/// Locates the roster table in a page and reads the leading cells of each of its rows,
/// in the order in which the selector yields them. A page too long to be parsed is not
/// read at all.
pub fn read_rows(html: &str) -> (rows: Option<Vec<TableRow>>)
    ensures
        match rows {
            Some(found) => parsable(html@) && row_models(found@) == table_rows(html@),
            None => !parsable(html@),
        },
{
    if html.as_bytes().len() > MAX_PAGE_BYTES {
        return None;
    }
    let row_selector = parse_selector(ROW_SELECTOR);
    let cell_selector = parse_selector(CELL_SELECTOR);
    let mut rows: Vec<TableRow> = Vec::new();
    match (row_selector, cell_selector) {
        (Some(row), Some(cell)) => {
            let document = parse_document(html);
            let found = select_in_document(&document, &row);
            let mut i: usize = 0;
            while i < found.len()
                invariant
                    i <= found@.len(),
                    rows@.len() == i,
                    forall|j: int|
                        0 <= j < i ==> (#[trigger] rows@[j])@ == leading_cells(found@[j], cell),
                decreases found@.len() - i,
            {
                let cells = read_cells(&found[i], &cell);
                rows.push(TableRow { cells });
                i = i + 1;
            }
            assert(row_models(rows@) =~= table_rows(html@));
        },
        _ => {
            assert(row_models(rows@) =~= table_rows(html@));
        },
    }
    Some(rows)
}

/// Reads the roster from a page: the entries of the roster table in the order in which
/// the selector yields its rows, without the rows that give none. A page without the
/// table gives an empty roster. A page too long to be parsed gives nothing.
pub fn extract(html: &str) -> (entries: Option<Vec<RosterEntry>>)
    ensures
        match entries {
            Some(found) => parsable(html@) && entry_models(found@) == extracted(html@),
            None => !parsable(html@),
        },
{
    match read_rows(html) {
        Some(rows) => Some(entries_from_rows(&rows)),
        None => None,
    }
}

} // verus!

//! Standings read from the rows of an HTML table.

use vstd::prelude::*;
use vstd::string::*;
use crate::html::{row_texts, select_cells, selected_cells};
use crate::stats::{record_of, records, texts, TeamStats, FIELD_COUNT};
use crate::text::{trim, trimmed};

verus! {

/// Why no standings could be read.
#[derive(Debug, Clone, Copy, PartialEq, Eq, Structural)]
pub enum TableError {
    /// One of the two selectors was not accepted as a selector.
    SelectorRejected,
}

/// The selector of the rows that hold standings.
pub open spec fn row_selector() -> Seq<char> {
    "tr.tableContents"@
}

/// The selector of the cells of a row.
pub open spec fn cell_selector() -> Seq<char> {
    "td"@
}

/// Each cell without the white space at its ends.
pub open spec fn trimmed_cells(cells: Seq<Seq<char>>) -> Seq<Seq<char>> {
    Seq::new(cells.len(), |i: int| trimmed(cells[i]))
}

/// Whether a row has the cells of an entry.
pub open spec fn well_formed(row: Seq<Seq<char>>) -> bool {
    row.len() >= FIELD_COUNT
}

/// The entry that a row gives: its first twelve cells, trimmed, where it has
/// twelve or more.
pub open spec fn entry(row: Seq<Seq<char>>) -> Option<Seq<Seq<char>>> {
    record_of(trimmed_cells(row))
}

/// The entries that the rows give, in the order of the rows. A row of fewer
/// than twelve cells gives nothing.
pub open spec fn accepted(rows: Seq<Seq<Seq<char>>>) -> Seq<Seq<Seq<char>>> {
    rows.filter_map(|row: Seq<Seq<char>>| entry(row))
}

/// The places of the well-formed rows among `rows`, in rising order.
pub open spec fn kept(rows: Seq<Seq<Seq<char>>>) -> Seq<int>
    decreases rows.len(),
{
    if rows.len() == 0 {
        Seq::empty()
    } else if well_formed(rows.last()) {
        kept(rows.drop_last()).push(rows.len() - 1)
    } else {
        kept(rows.drop_last())
    }
}

/// The cells of a row, each trimmed.
pub fn trim_cells(cells: &Vec<String>) -> (out: Vec<String>)
    ensures
        texts(out@) == trimmed_cells(texts(cells@)),
{
    let mut out: Vec<String> = Vec::new();
    let mut i: usize = 0;
    while i < cells.len()
        invariant
            i <= cells.len(),
            out@.len() == i,
            forall|k: int| 0 <= k < i ==> (#[trigger] out@[k])@ == trimmed(cells@[k]@),
        decreases cells.len() - i,
    {
        let cell = String::from_str(trim(cells[i].as_str()));
        out.push(cell);
        i = i + 1;
    }
    assert(texts(out@) =~= trimmed_cells(texts(cells@)));
    out
}

/// The standings that a table of cell texts holds: one entry for each row of
/// twelve or more cells, in the order of the rows.
pub fn collect_rows(rows: &Vec<Vec<String>>) -> (teams: Vec<TeamStats>)
    ensures
        records(teams@) == accepted(row_texts(rows@)),
{
    let ghost all = row_texts(rows@);
    let mut teams: Vec<TeamStats> = Vec::new();
    let mut i: usize = 0;
    assert(records(teams@) =~= accepted(all.subrange(0, 0)));
    while i < rows.len()
        invariant
            i <= rows.len(),
            all == row_texts(rows@),
            records(teams@) == accepted(all.subrange(0, i as int)),
        decreases rows.len() - i,
    {
        let cells = trim_cells(&rows[i]);
        let ghost before = teams@;
        let found = TeamStats::from_cells(&cells);
        proof {
            let done = all.subrange(0, i + 1);
            assert(done.drop_last() =~= all.subrange(0, i as int));
            assert(done.last() == texts(rows@[i as int]@));
        }
        match found {
            Some(team) => {
                teams.push(team);
                assert(records(teams@) =~= records(before) + seq![team@]);
            },
            None => {},
        }
        i = i + 1;
    }
    assert(all.subrange(0, i as int) =~= all);
    teams
}

/// Reads the standings from an HTML document, with the rows and the cells
/// found by the two selectors given: every element that `rows` matches is a
/// row, every element beneath it that `cells` matches a cell, and every row of
/// twelve or more cells an entry.
pub fn parse_table(html: &str, rows: &str, cells: &str) -> (out: Result<
    Vec<TeamStats>,
    TableError,
>)
    ensures
        match selected_cells(html@, rows@, cells@) {
            Some(found) => out is Ok && records(out->Ok_0@) == accepted(found),
            None => out == Err::<Vec<TeamStats>, TableError>(TableError::SelectorRejected),
        },
{
    match select_cells(html, rows, cells) {
        Some(found) => Ok(collect_rows(&found)),
        None => Err(TableError::SelectorRejected),
    }
}

/// Reads the standings from an HTML document: every `tr` element of class
/// `tableContents` is a row, every `td` element beneath it a cell, and every
/// row of twelve or more cells an entry. A document without such rows gives
/// no entries.
pub fn parse_volleyball_table(html: &str) -> (out: Result<Vec<TeamStats>, TableError>)
    ensures
        match selected_cells(html@, row_selector(), cell_selector()) {
            Some(rows) => out is Ok && records(out->Ok_0@) == accepted(rows),
            None => out == Err::<Vec<TeamStats>, TableError>(TableError::SelectorRejected),
        },
{
    parse_table(html, "tr.tableContents", "td")
}

/// As many entries are read as there are well-formed rows: a table of `n`
/// rows with twelve or more cells and `m` shorter rows gives `n` entries.
pub proof fn lemma_accepted_count(rows: Seq<Seq<Seq<char>>>)
    ensures
        accepted(rows).len() == rows.filter(|row: Seq<Seq<char>>| well_formed(row)).len(),
        accepted(rows).len() + rows.filter(|row: Seq<Seq<char>>| !well_formed(row)).len()
            == rows.len(),
    decreases rows.len(),
{
    reveal(Seq::filter);
    if rows.len() > 0 {
        lemma_accepted_count(rows.drop_last());
    }
}

/// The entries come in the order of their rows. The `k`-th entry is read from
/// the `k`-th well-formed row, whose place is `kept(rows)[k]`; the places
/// rise, and no well-formed row is left out.
pub proof fn lemma_accepted_in_order(rows: Seq<Seq<Seq<char>>>)
    ensures
        accepted(rows).len() == kept(rows).len(),
        forall|k: int|
            0 <= k < kept(rows).len() ==> {
                let at = #[trigger] kept(rows)[k];
                &&& 0 <= at < rows.len()
                &&& well_formed(rows[at])
                &&& Some(accepted(rows)[k]) == entry(rows[at])
            },
        forall|a: int, b: int|
            0 <= a < b < kept(rows).len() ==> #[trigger] kept(rows)[a] < #[trigger] kept(rows)[b],
        forall|i: int|
            0 <= i < rows.len() && well_formed(#[trigger] rows[i]) ==> kept(rows).contains(i),
    decreases rows.len(),
{
    if rows.len() > 0 {
        let init = rows.drop_last();
        lemma_accepted_in_order(init);
        assert forall|i: int| 0 <= i < rows.len() && well_formed(
            #[trigger] rows[i],
        ) implies kept(rows).contains(i) by {
            if i < init.len() {
                assert(init[i] == rows[i]);
                let k = choose|k: int| 0 <= k < kept(init).len() && kept(init)[k] == i;
                assert(kept(rows)[k] == i);
            } else {
                assert(kept(rows)[kept(rows).len() - 1] == i);
            }
        }
    }
}

} // verus!

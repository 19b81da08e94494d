//! What the tables need of an HTML document: the text of the cells of its
//! rows. The parsing and the matching of selectors are the work of the
//! `scraper` crate and are trusted, not verified.

use vstd::prelude::*;
use crate::stats::texts;

verus! {

/// The texts that `scraper` finds in the document `html`. The document is
/// parsed as HTML5, which accepts every input. Each element that matches the
/// selector `rows` gives one entry, in the order in which `Html::select`
/// yields the elements, which is that in which the parser made them. The
/// entry holds, for each of that element's descendants that match the
/// selector `cells`, in document order, the text nodes beneath it run
/// together. `None` where either selector is not a selector group that
/// `scraper` accepts.
pub uninterp spec fn selected_cells(html: Seq<char>, rows: Seq<char>, cells: Seq<char>) -> Option<
    Seq<Seq<Seq<char>>>,
>;

/// The texts that the rows hold.
pub open spec fn row_texts(rows: Seq<Vec<String>>) -> Seq<Seq<Seq<char>>> {
    Seq::new(rows.len(), |i: int| texts(rows[i]@))
}

/// Calls `Selector::parse` on each selector, `Html::parse_document` on the
/// document, `Html::select` for the rows, `ElementRef::select` for the cells
/// beneath each row, and `ElementRef::text` for the text of each cell. All of
/// them depend on their arguments alone, so the result is named by
/// `selected_cells`; nothing more is claimed of it.
#[verifier::external_body]
pub(crate) fn select_cells(html: &str, rows: &str, cells: &str) -> (found: Option<
    Vec<Vec<String>>,
>)
    ensures
        match found {
            Some(table) => selected_cells(html@, rows@, cells@) == Some(row_texts(table@)),
            None => selected_cells(html@, rows@, cells@) is None,
        },
{
    let rows = scraper::Selector::parse(rows).ok()?;
    let cells = scraper::Selector::parse(cells).ok()?;
    let document = scraper::Html::parse_document(html);
    let texts = |row: scraper::ElementRef| row.select(&cells).map(|cell| cell.text().collect()).collect();
    Some(document.select(&rows).map(texts).collect())
}

} // verus!

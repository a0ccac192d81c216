//! What holds of the parser as a whole.

use vstd::prelude::*;
use crate::df::Df;
use crate::line::{is_row, lemma_row_of_spaced, record_of, DfLine, Record};
use crate::number::{decimal, lemma_number_is_unbroken, lemma_parse_decimal};
use crate::text::{
    joined, lemma_accepted_all, lemma_accepted_concat, lemma_accepted_none,
    lemma_records_of_joined, unbroken,
};
use crate::tokens::{is_blank, is_word, spaced, well_spaced};

verus! {

/// The six fields of a row that gives the two sizes by their digits.
pub open spec fn row_fields(
    filesystem: Seq<char>,
    total: u64,
    used: u64,
    available: Seq<char>,
    percent: Seq<char>,
    mounted: Seq<char>,
) -> Seq<Seq<char>> {
    seq![filesystem, decimal(total as nat), decimal(used as nat), available, percent, mounted]
}

/// A line that holds a filesystem, the total and the used size in decimal digits, two
/// more fields and a mount point, with whitespace between them and possibly around
/// them, is read as the row with that filesystem, these sizes and that mount point.
/// What the fourth and the fifth field hold makes no difference.
pub proof fn law_well_formed_line(
    line: &str,
    row: Option<DfLine>,
    filesystem: Seq<char>,
    total: u64,
    used: u64,
    available: Seq<char>,
    percent: Seq<char>,
    mounted: Seq<char>,
    gaps: Seq<Seq<char>>,
)
    requires
        call_ensures(DfLine::from_str, (line,), row),
        is_word(filesystem),
        is_word(available),
        is_word(percent),
        is_word(mounted),
        gaps.len() == 7,
        forall|i: int| 0 <= i < 7 ==> is_blank(#[trigger] gaps[i]),
        forall|i: int| 0 < i < 6 ==> (#[trigger] gaps[i]).len() > 0,
        line@ == spaced(row_fields(filesystem, total, used, available, percent, mounted), gaps),
    ensures
        row matches Some(found) && found@ == (Record { filesystem, mounted, total, used }),
{
    let words = row_fields(filesystem, total, used, available, percent, mounted);
    lemma_parse_decimal(total);
    lemma_parse_decimal(used);
    lemma_number_is_unbroken(words[1]);
    lemma_number_is_unbroken(words[2]);
    lemma_row_of_spaced(words, gaps);
}

/// A text made of lines that are not rows, followed by lines that are rows, is read
/// as a table with one row for each of the latter, in their order. So a message of
/// the command and the header in front of the rows leave no trace in the table.
pub proof fn law_rows_after_preamble(
    text: &str,
    df: Df,
    preamble: Seq<Seq<char>>,
    rows: Seq<Seq<char>>,
)
    requires
        call_ensures(Df::from, (text,), df),
        text@ == joined(preamble + rows),
        unbroken(preamble + rows),
        forall|i: int| 0 <= i < preamble.len() ==> !is_row(#[trigger] preamble[i]),
        forall|i: int| 0 <= i < rows.len() ==> is_row(#[trigger] rows[i]),
    ensures
        df@.len() == rows.len(),
        forall|i: int| 0 <= i < rows.len() ==> df@[i] == record_of(#[trigger] rows[i]),
{
    lemma_records_of_joined(preamble + rows);
    lemma_accepted_concat(preamble, rows);
    lemma_accepted_none(preamble);
    lemma_accepted_all(rows);
}

/// Reading the same text twice gives two tables that agree row by row.
pub proof fn law_same_text_same_table(text: &str, first: Df, second: Df)
    requires
        call_ensures(Df::from, (text,), first),
        call_ensures(Df::from, (text,), second),
    ensures
        first@.len() == second@.len(),
        forall|i: int| 0 <= i < first@.len() ==> first@[i] == second@[i],
{
}

} // verus!

//! The whole output of the command: its lines, and the records that they hold.

use vstd::prelude::*;
use crate::chars::CharClass;
use crate::line::{is_row, parse_line, record_of, Record};
use crate::scan::{all_in, lemma_run_len_is, run_len};

verus! {

/// The lines of `text`: what stands between its line feeds. A text without a line
/// feed is one line, and a text that ends in a line feed ends in an empty line.
pub open spec fn lines(text: Seq<char>) -> Seq<Seq<char>>
    decreases text.len(),
{
    let n = run_len(text, CharClass::Line) as int;
    if n >= text.len() {
        seq![text]
    } else {
        seq![text.take(n)] + lines(text.skip(n + 1))
    }
}

/// The text made of `lines` with one line feed between each two of them.
pub open spec fn joined(lines: Seq<Seq<char>>) -> Seq<char>
    decreases lines.len(),
{
    if lines.len() == 0 {
        Seq::empty()
    } else if lines.len() == 1 {
        lines[0]
    } else {
        lines[0] + seq!['\n'] + joined(lines.drop_first())
    }
}

/// Whether none of `lines` holds a line feed.
pub open spec fn unbroken(lines: Seq<Seq<char>>) -> bool {
    forall|i: int| 0 <= i < lines.len() ==> all_in(#[trigger] lines[i], CharClass::Line)
}

/// Lines joined by line feeds come apart into the same lines.
pub proof fn lemma_lines_of_joined(parts: Seq<Seq<char>>)
    requires
        parts.len() > 0,
        unbroken(parts),
    ensures
        lines(joined(parts)) == parts,
    decreases parts.len(),
{
    let text = joined(parts);
    let first = parts[0];
    assert(text.take(first.len() as int) =~= first);
    lemma_run_len_is(text, CharClass::Line, first.len() as int);
    if parts.len() == 1 {
        assert(seq![text] =~= parts);
    } else {
        let later = parts.drop_first();
        assert forall|i: int| 0 <= i < later.len() implies all_in(
            #[trigger] later[i],
            CharClass::Line,
        ) by {
            assert(later[i] == parts[i + 1]);
        }
        lemma_lines_of_joined(later);
        assert(text.skip(first.len() as int + 1) =~= joined(later));
        assert(seq![first] + later =~= parts);
    }
}

/// The records of the lines that are rows of the table, in the order of the lines.
pub open spec fn accepted(lines: Seq<Seq<char>>) -> Seq<Record> {
    lines.filter_map(|line: Seq<char>| parse_line(line))
}

/// The records that `text` holds, in the order in which they stand in it.
pub open spec fn records(text: Seq<char>) -> Seq<Record> {
    accepted(lines(text))
}

/// The records of a text made of lines joined by line feeds are those of the lines
/// that are rows, in the order of the lines.
pub proof fn lemma_records_of_joined(parts: Seq<Seq<char>>)
    requires
        unbroken(parts),
    ensures
        records(joined(parts)) == accepted(parts),
{
    if parts.len() > 0 {
        lemma_lines_of_joined(parts);
    } else {
        let nothing = Seq::<char>::empty();
        lemma_accepted_single(nothing);
        lemma_run_len_is(nothing, CharClass::Space, 0);
        assert(nothing.skip(0) =~= nothing);
    }
}

/// What one line adds to the records.
pub open spec fn accepted_one(line: Seq<char>) -> Seq<Record> {
    match parse_line(line) {
        Some(record) => seq![record],
        None => Seq::empty(),
    }
}

/// The records of two runs of lines, one after the other, are the records of the
/// first followed by those of the second.
pub proof fn lemma_accepted_concat(first: Seq<Seq<char>>, second: Seq<Seq<char>>)
    ensures
        accepted(first + second) == accepted(first) + accepted(second),
    decreases second.len(),
{
    if second.len() == 0 {
        assert(first + second =~= first);
    } else {
        assert((first + second).drop_last() =~= first + second.drop_last());
        lemma_accepted_concat(first, second.drop_last());
    }
}

/// Lines of which none is a row hold no record.
pub proof fn lemma_accepted_none(lines: Seq<Seq<char>>)
    requires
        forall|i: int| 0 <= i < lines.len() ==> !is_row(#[trigger] lines[i]),
    ensures
        accepted(lines) == Seq::<Record>::empty(),
    decreases lines.len(),
{
    if lines.len() > 0 {
        lemma_accepted_none(lines.drop_last());
    }
}

/// Lines that are all rows hold one record each.
pub proof fn lemma_accepted_all(lines: Seq<Seq<char>>)
    requires
        forall|i: int| 0 <= i < lines.len() ==> is_row(#[trigger] lines[i]),
    ensures
        accepted(lines).len() == lines.len(),
        forall|i: int| 0 <= i < lines.len() ==> accepted(lines)[i] == record_of(#[trigger] lines[i]),
    decreases lines.len(),
{
    if lines.len() > 0 {
        let earlier = lines.drop_last();
        lemma_accepted_all(earlier);
        assert(is_row(lines[lines.len() - 1]));
        assert forall|i: int| 0 <= i < lines.len() implies accepted(lines)[i] == record_of(
            #[trigger] lines[i],
        ) by {
            if i < earlier.len() {
                assert(lines[i] == earlier[i]);
            }
        }
    }
}

/// A single line holds its own record or none.
pub proof fn lemma_accepted_single(line: Seq<char>)
    ensures
        accepted(seq![line]) == accepted_one(line),
{
    reveal_with_fuel(Seq::filter_map, 2);
}

} // verus!

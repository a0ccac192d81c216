//! One row of the table: its model, and the parser that reads it from a line.

use vstd::prelude::*;
use vstd::string::StrSliceExecFns;
use crate::chars::collect_chars;
use crate::number::{parse_u64, read_u64};
use crate::tokens::{
    is_word, lemma_tokens_are_words, lemma_tokens_of_spaced, next_token, spaced, tokens,
    well_spaced,
};

verus! {

/// The number of fields that a row must have.
pub const FIELDS: usize = 6;

/// What a row says: the model of a `DfLine`.
pub struct Record {
    /// Filesystem
    pub filesystem: Seq<char>,
    /// Mount point
    pub mounted: Seq<char>,
    /// Total size
    pub total: u64,
    /// Used size
    pub used: u64,
}

/// A line of the `df` command
#[derive(Debug)]
pub struct DfLine {
    /// Filesystem
    pub filesystem: String,
    /// Mount point
    pub mounted: String,
    /// Total size
    pub total: u64,
    /// Used size
    pub used: u64,
}

impl View for DfLine {
    type V = Record;

    open spec fn view(&self) -> Record {
        Record {
            filesystem: self.filesystem@,
            mounted: self.mounted@,
            total: self.total,
            used: self.used,
        }
    }
}

impl Record {
    /// Whether the names in the record are tokens: not empty, and free of whitespace.
    pub open spec fn well_formed(self) -> bool {
        is_word(self.filesystem) && is_word(self.mounted)
    }
}

/// Whether a line is a row of the table.
///
/// A row has at least six whitespace-delimited fields: filesystem, total, used,
/// available, use percentage and mount point. Total and used must be unsigned 64-bit
/// decimal numbers; the fourth and fifth field only have to be there, and whatever
/// follows the sixth is ignored.
pub open spec fn is_row(line: Seq<char>) -> bool {
    let fields = tokens(line);
    &&& fields.len() >= FIELDS
    &&& parse_u64(fields[1]) is Some
    &&& parse_u64(fields[2]) is Some
}

/// What a row says: its first field is the filesystem, its second and third are the
/// total and the used size, and its sixth is the mount point.
pub open spec fn record_of(line: Seq<char>) -> Record
    recommends
        is_row(line),
{
    let fields = tokens(line);
    Record {
        filesystem: fields[0],
        mounted: fields[5],
        total: parse_u64(fields[1]).unwrap(),
        used: parse_u64(fields[2]).unwrap(),
    }
}

/// The record that a line holds: that of a row, and none for any other line.
pub open spec fn parse_line(line: Seq<char>) -> Option<Record> {
    if is_row(line) {
        Some(record_of(line))
    } else {
        None
    }
}

/// A line made of six or more words that whitespace keeps apart, the second and the
/// third of them numbers, is a row: its record holds the first word, the two numbers
/// and the sixth word.
pub proof fn lemma_row_of_spaced(words: Seq<Seq<char>>, gaps: Seq<Seq<char>>)
    requires
        well_spaced(words, gaps),
        words.len() >= FIELDS,
        parse_u64(words[1]) is Some,
        parse_u64(words[2]) is Some,
    ensures
        is_row(spaced(words, gaps)),
        record_of(spaced(words, gaps)) == (Record {
            filesystem: words[0],
            mounted: words[5],
            total: parse_u64(words[1]).unwrap(),
            used: parse_u64(words[2]).unwrap(),
        }),
{
    lemma_tokens_of_spaced(words, gaps);
}

/// The model of an optional row.
pub open spec fn view_of(line: Option<DfLine>) -> Option<Record> {
    match line {
        Some(line) => Some(line@),
        None => None,
    }
}

/// The bounds of the first `count` tokens of `chars[from..to]`, if it has that many.
pub fn leading_tokens(chars: &Vec<char>, from: usize, to: usize, count: usize) -> (found: Option<
    Vec<(usize, usize)>,
>)
    requires
        from <= to <= chars.len(),
    ensures
        found is Some <==> tokens(chars@.subrange(from as int, to as int)).len() >= count,
        found matches Some(bounds) ==> {
            &&& bounds.len() == count
            &&& forall|k: int|
                0 <= k < count ==> {
                    &&& from <= (#[trigger] bounds[k]).0 <= bounds[k].1 <= to
                    &&& tokens(chars@.subrange(from as int, to as int))[k] == chars@.subrange(
                        bounds[k].0 as int,
                        bounds[k].1 as int,
                    )
                }
        },
{
    let ghost all = tokens(chars@.subrange(from as int, to as int));
    let mut bounds: Vec<(usize, usize)> = Vec::new();
    let mut at: usize = from;
    while bounds.len() < count
        invariant
            from <= at <= to <= chars.len(),
            all == tokens(chars@.subrange(from as int, to as int)),
            bounds.len() <= count,
            bounds.len() <= all.len(),
            all.skip(bounds.len() as int) == tokens(chars@.subrange(at as int, to as int)),
            forall|k: int|
                0 <= k < bounds.len() ==> {
                    &&& from <= (#[trigger] bounds[k]).0 <= bounds[k].1 <= to
                    &&& all[k] == chars@.subrange(bounds[k].0 as int, bounds[k].1 as int)
                },
        decreases count - bounds.len(),
    {
        let ghost rest = all.skip(bounds.len() as int);
        match next_token(chars, at, to) {
            Some((start, end)) => {
                assert(rest[0] == chars@.subrange(start as int, end as int));
                assert(rest.skip(1) =~= tokens(chars@.subrange(end as int, to as int)));
                assert(all.skip(bounds.len() + 1) =~= rest.skip(1));
                bounds.push((start, end));
                at = end;
            },
            None => {
                assert(rest.len() == 0);
                return None;
            },
        }
    }
    Some(bounds)
}

impl DfLine {
    /// Reads one line of the table: gives the row that the line holds, and nothing
    /// for a line that is not a row.
    pub fn from_str(s: &str) -> (row: Option<DfLine>)
        ensures
            view_of(row) == parse_line(s@),
            tokens(s@).len() < FIELDS ==> row is None,
            tokens(s@).len() > 1 && parse_u64(tokens(s@)[1]) is None ==> row is None,
            tokens(s@).len() > 2 && parse_u64(tokens(s@)[2]) is None ==> row is None,
            is_row(s@) ==> (row matches Some(found) && found@ == record_of(s@)),
            row matches Some(found) ==> found@.well_formed(),
    {
        let chars = collect_chars(s);
        assert(chars@.subrange(0, chars.len() as int) =~= s@);
        DfLine::from_chars(s, &chars, 0, chars.len())
    }

    /// Reads the line `text[from..to]`, where `chars` holds the characters of `text`.
    pub fn from_chars(text: &str, chars: &Vec<char>, from: usize, to: usize) -> (row: Option<
        DfLine,
    >)
        requires
            chars@ == text@,
            from <= to <= chars.len(),
        ensures
            view_of(row) == parse_line(text@.subrange(from as int, to as int)),
            row matches Some(found) ==> found@.well_formed(),
    {
        proof {
            lemma_tokens_are_words(text@.subrange(from as int, to as int));
        }
        let bounds = match leading_tokens(chars, from, to, FIELDS) {
            Some(bounds) => bounds,
            None => {
                return None;
            },
        };
        let total = match read_u64(chars, bounds[1].0, bounds[1].1) {
            Some(total) => total,
            None => {
                return None;
            },
        };
        let used = match read_u64(chars, bounds[2].0, bounds[2].1) {
            Some(used) => used,
            None => {
                return None;
            },
        };
        let filesystem = text.substring_char(bounds[0].0, bounds[0].1).to_owned();
        let mounted = text.substring_char(bounds[5].0, bounds[5].1).to_owned();
        Some(DfLine { filesystem, mounted, total, used })
    }
}

} // verus!

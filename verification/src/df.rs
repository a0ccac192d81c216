//! The parsed table, and the lookups on it.

use vstd::prelude::*;
use crate::chars::{collect_chars, CharClass};
use crate::line::{DfLine, Record};
use crate::scan::scan;
use crate::text::{lemma_accepted_concat, lemma_accepted_single, lines, records};

verus! {

/// `df` command representation
#[derive(Debug)]
pub struct Df(pub Vec<DfLine>);

/// The records that a run of rows stands for.
pub open spec fn models(rows: Seq<DfLine>) -> Seq<Record> {
    rows.map_values(|row: DfLine| row@)
}

impl View for Df {
    type V = Seq<Record>;

    open spec fn view(&self) -> Seq<Record> {
        models(self.0@)
    }
}

/// Whether two strings hold the same text.
pub fn same_text(a: &str, b: &str) -> (same: bool)
    ensures
        same == (a@ == b@),
{
    broadcast use vstd::utf8::encode_utf8_decode_utf8;

    let x = a.as_bytes();
    let y = b.as_bytes();
    if x.len() != y.len() {
        return false;
    }
    let mut i: usize = 0;
    while i < x.len()
        invariant
            i <= x.len() == y.len(),
            x@.take(i as int) == y@.take(i as int),
            x@ == vstd::utf8::encode_utf8(a@),
            y@ == vstd::utf8::encode_utf8(b@),
        decreases x.len() - i,
    {
        if x[i] != y[i] {
            return false;
        }
        assert(x@.take(i + 1) =~= x@.take(i as int).push(x@[i as int]));
        assert(y@.take(i + 1) =~= y@.take(i as int).push(y@[i as int]));
        i += 1;
    }
    assert(x@ =~= x@.take(i as int));
    assert(y@ =~= y@.take(i as int));
    assert(vstd::utf8::decode_utf8(x@) == a@);
    assert(vstd::utf8::decode_utf8(y@) == b@);
    true
}

impl Df {
    /// Whether row `i` is the first one whose filesystem is `key`.
    pub open spec fn first_by_filesystem(&self, key: Seq<char>, i: int) -> bool {
        &&& 0 <= i < self@.len()
        &&& self@[i].filesystem == key
        &&& forall|j: int| 0 <= j < i ==> (#[trigger] self@[j]).filesystem != key
    }

    /// Whether row `i` is the first one whose mount point is `key`.
    pub open spec fn first_by_mount(&self, key: Seq<char>, i: int) -> bool {
        &&& 0 <= i < self@.len()
        &&& self@[i].mounted == key
        &&& forall|j: int| 0 <= j < i ==> (#[trigger] self@[j]).mounted != key
    }

    /// Returns a [`DfLine`] by filesystem
    pub fn get_by_filesystem(&self, filesystem: &str) -> (found: Option<&DfLine>)
        ensures
            match found {
                Some(row) => exists|i: int|
                    self.first_by_filesystem(filesystem@, i) && *row == self.0[i],
                None => forall|i: int|
                    0 <= i < self@.len() ==> (#[trigger] self@[i]).filesystem != filesystem@,
            },
    {
        let mut i: usize = 0;
        while i < self.0.len()
            invariant
                i <= self.0.len(),
                forall|j: int| 0 <= j < i ==> (#[trigger] self@[j]).filesystem != filesystem@,
            decreases self.0.len() - i,
        {
            if same_text(self.0[i].filesystem.as_str(), filesystem) {
                assert(self.first_by_filesystem(filesystem@, i as int));
                return Some(&self.0[i]);
            }
            i += 1;
        }
        None
    }

    /// Returns a [`DfLine`] by mount point
    pub fn get_by_mount(&self, mounted: &str) -> (found: Option<&DfLine>)
        ensures
            match found {
                Some(row) => exists|i: int| self.first_by_mount(mounted@, i) && *row == self.0[i],
                None => forall|i: int|
                    0 <= i < self@.len() ==> (#[trigger] self@[i]).mounted != mounted@,
            },
    {
        let mut i: usize = 0;
        while i < self.0.len()
            invariant
                i <= self.0.len(),
                forall|j: int| 0 <= j < i ==> (#[trigger] self@[j]).mounted != mounted@,
            decreases self.0.len() - i,
        {
            if same_text(self.0[i].mounted.as_str(), mounted) {
                assert(self.first_by_mount(mounted@, i as int));
                return Some(&self.0[i]);
            }
            i += 1;
        }
        None
    }
}

impl<'a> From<&'a str> for Df {
    /// Reads the output of the command: keeps, in order, the rows of the table, and
    /// drops every other line.
    fn from(value: &'a str) -> (df: Df)
        ensures
            df@ == records(value@),
            forall|i: int| 0 <= i < df@.len() ==> (#[trigger] df@[i]).well_formed(),
    {
        let chars = collect_chars(value);
        let n = chars.len();
        let mut rows: Vec<DfLine> = Vec::new();
        let mut from: usize = 0;
        assert(value@.skip(0) =~= value@);
        assert(models(rows@) + records(value@) =~= records(value@));
        loop
            invariant_except_break
                chars@ == value@,
                from <= n == chars.len(),
                records(value@) == models(rows@) + records(value@.skip(from as int)),
            invariant
                forall|i: int| 0 <= i < rows.len() ==> (#[trigger] rows[i])@.well_formed(),
            ensures
                models(rows@) == records(value@),
            decreases n - from,
        {
            let to = scan(&chars, from, n, CharClass::Line);
            let row = DfLine::from_chars(value, &chars, from, to);
            proof {
                let rest = value@.skip(from as int);
                assert(rest =~= chars@.subrange(from as int, n as int));
                assert(rest.take(to - from) =~= value@.subrange(from as int, to as int));
                lemma_accepted_single(rest.take(to - from));
                if to < n {
                    assert(rest.skip(to - from + 1) =~= value@.skip(to + 1));
                    lemma_accepted_concat(seq![rest.take(to - from)], lines(value@.skip(to + 1)));
                }
            }
            let ghost before = rows@;
            match row {
                Some(row) => {
                    rows.push(row);
                    assert(models(rows@) =~= models(before) + seq![row@]);
                },
                None => {},
            }
            if to == n {
                break ;
            }
            from = to + 1;
        }
        Df(rows)
    }
}

impl<'a> vstd::std_specs::convert::FromSpecImpl<&'a str> for Df {
    open spec fn obeys_from_spec() -> bool {
        false
    }

    open spec fn from_spec(value: &'a str) -> Df {
        choose|df: Df| df@ == records(value@)
    }
}

} // verus!

//! Parser for the table printed by the Linux `df` command.
//!
//! To get the sizes in bytes, run `df` with the `-B1` argument: `/bin/df -B1`.
//!
//! A [`Df`] is built from the captured output with `Df::from`, and holds one
//! [`DfLine`] for every row of the table, in the order of the output. Lines that are
//! not rows (the header, messages of the command) are left out.

pub mod chars;
pub mod df;
pub mod laws;
pub mod line;
pub mod number;
pub mod scan;
pub mod text;
pub mod tokens;

pub use df::Df;
pub use line::DfLine;

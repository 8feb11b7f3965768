//! The rows of a usage report.

use vstd::prelude::*;
use crate::size::{format_size, has_size_shape, size_text};

verus! {

/// What kind of row an entry is. It decides the glyph in front of the name.
#[derive(Clone, Copy, Debug, PartialEq, Eq, Structural)]
pub enum Marker {
    /// A subdirectory of the target.
    Directory,
    /// A regular file of the target.
    File,
    /// The summary row.
    Total,
}

/// The name of the summary row.
pub open spec fn total_name() -> Seq<char> {
    "Total"@
}

/// The glyph cell of a marker: a folder glyph or a file glyph, each followed
/// by a space, and nothing for the summary row.
pub open spec fn glyph_text(marker: Marker) -> Seq<char> {
    match marker {
        Marker::Directory => "\u{f115} "@,
        Marker::File => "\u{f15b} "@,
        Marker::Total => ""@,
    }
}

impl Marker {
    /// The text of the glyph cell.
    pub fn glyph(self) -> (text: &'static str)
        ensures
            text@ == glyph_text(self),
    {
        match self {
            Marker::Directory => "\u{f115} ",
            Marker::File => "\u{f15b} ",
            Marker::Total => "",
        }
    }
}

/// The text that stands for a name that cannot be written as text.
pub open spec fn unreadable_name() -> Seq<char> {
    "???"@
}

/// The name under which a child is shown: its own where it can be written as
/// text (`Some`), and three question marks where it cannot (`None`).
pub fn shown_name(name: Option<String>) -> (text: String)
    ensures
        text@ == (match name {
            Some(n) => n@,
            None => unreadable_name(),
        }),
{
    match name {
        Some(n) => n,
        None => "???".to_owned(),
    }
}

/// The mathematical content of one row.
pub struct Row {
    pub size: nat,
    pub name: Seq<char>,
    pub marker: Marker,
}

/// One row of a report: an immediate child of the target with its size in
/// bytes, or the summary.
#[derive(Debug)]
pub struct PathData {
    pub size: u64,
    pub name: String,
    pub marker: Marker,
}

impl View for PathData {
    type V = Row;

    open spec fn view(&self) -> Row {
        Row { size: self.size as nat, name: self.name@, marker: self.marker }
    }
}

/// The rows that a sequence of entries stands for.
pub open spec fn rows(entries: Seq<PathData>) -> Seq<Row> {
    Seq::new(entries.len(), |i: int| entries[i]@)
}

impl PathData {
    /// The entry's size as shown to a reader.
    pub fn get_human_readable_size(&self) -> (text: String)
        ensures
            text@ == size_text(self@.size),
            has_size_shape(text@),
    {
        format_size(self.size)
    }
}

} // verus!

//! Column configuration: the declarative description of the output table.
//!
//! Each column has a title and one source: a path extraction with an
//! optional default, a literal text, or an intrinsic value derived from
//! the document's identity rather than its content.

use vstd::prelude::*;
use crate::xml_path::PathType;

verus! {

/// A value derived from document metadata; currently only the document's
/// identity string.
#[derive(Debug)]
pub enum Intrinsic {
    FilePath,
}

/// The source of one column's value.
#[derive(Debug)]
pub enum ColumnType {
    /// Evaluate a mode-tagged path against the document; when it fails
    /// and a default is present, the default is used instead.
    ExtractXmlPath { path: PathType, default: Option<String> },
    /// A constant text, the same for every document.
    Text { text: String },
    /// A value derived from the document's identity.
    Intrinsic { intrinsic: Intrinsic },
}

/// One output column: its title and its source.
#[derive(Debug)]
pub struct CsvColumn {
    pub title: String,
    pub column_type: ColumnType,
}

/// The whole configuration: the output columns in order; that order is
/// the order of the fields in every emitted row.
#[derive(Debug)]
pub struct Config {
    pub csv_columns: Vec<CsvColumn>,
}

impl Config {
    /// The column titles, in configuration order: the header row.
    pub fn titles(&self) -> (r: Vec<String>)
        ensures
            r@.len() == self.csv_columns@.len(),
            forall|j: int|
                0 <= j < r@.len() ==> (#[trigger] r@[j])@ == self.csv_columns@[j].title@,
    {
        let n: usize = self.csv_columns.len();
        let mut r: Vec<String> = Vec::new();
        let mut k: usize = 0;
        while k < n
            invariant
                0 <= k <= n,
                n == self.csv_columns@.len(),
                r@.len() == k,
                forall|j: int|
                    0 <= j < k ==> (#[trigger] r@[j])@ == self.csv_columns@[j].title@,
            decreases n - k,
        {
            r.push(self.csv_columns[k].title.clone());
            k = k + 1;
        }
        r
    }
}

} // verus!

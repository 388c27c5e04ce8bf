//! The column resolver: from a column specification and a document to
//! the final cell value, with the default-fallback policy.

use vstd::prelude::*;
use crate::config::{ColumnType, Config, CsvColumn, Intrinsic};
use crate::xml_path::PathType;
use crate::xml_tree::{extract_spec, extract_from_xml, ExtractionError, ExtractionErrorView, XmlElement};

verus! {

/// An extraction failure that no default recovered, annotated with the
/// offending document's identity and the column's title.
#[derive(Debug)]
pub struct ResolveError {
    pub doc_identity: String,
    pub column_title: String,
    pub error: ExtractionError,
}

/// Mathematical model of an unrecovered failure.
pub struct ResolveErrorView {
    pub doc_identity: Seq<char>,
    pub column_title: Seq<char>,
    pub error: ExtractionErrorView,
}

impl View for ResolveError {
    type V = ResolveErrorView;

    open spec fn view(&self) -> ResolveErrorView {
        ResolveErrorView {
            doc_identity: self.doc_identity@,
            column_title: self.column_title@,
            error: self.error@,
        }
    }
}

/// What resolution yields for one column: the extracted value on
/// success; on an extraction failure the default when one is present,
/// the failure itself otherwise. A literal column always yields its
/// text, and the identity intrinsic always yields the document's
/// identity string.
pub open spec fn resolve_spec(
    column: CsvColumn,
    doc: XmlElement,
    doc_identity: Seq<char>,
) -> Result<Seq<char>, ResolveErrorView> {
    match column.column_type {
        ColumnType::ExtractXmlPath { path, default } => match extract_spec(doc, path) {
            Ok(v) => Ok(v),
            Err(e) => match default {
                Option::Some(d) => Ok(d@),
                Option::None => Err(
                    ResolveErrorView {
                        doc_identity: doc_identity,
                        column_title: column.title@,
                        error: e,
                    },
                ),
            },
        },
        ColumnType::Text { text } => Ok(text@),
        ColumnType::Intrinsic { intrinsic } => Ok(doc_identity),
    }
}

/// Whenever extraction fails and the column carries a default, the
/// column resolves to the default: the failure is fully suppressed,
/// whatever its kind.
pub proof fn lemma_default_recovers(
    column: CsvColumn,
    doc: XmlElement,
    doc_identity: Seq<char>,
    path: PathType,
    d: String,
)
    requires
        column.column_type == (ColumnType::ExtractXmlPath {
            path: path,
            default: Option::Some(d),
        }),
        extract_spec(doc, path) is Err,
    ensures
        resolve_spec(column, doc, doc_identity) == Result::<Seq<char>, ResolveErrorView>::Ok(d@),
{
}

/// A literal column always resolves to its text: the document and its
/// identity never change the value.
pub proof fn lemma_literal_constant(
    column: CsvColumn,
    text: String,
    doc1: XmlElement,
    id1: Seq<char>,
    doc2: XmlElement,
    id2: Seq<char>,
)
    requires
        column.column_type == (ColumnType::Text { text: text }),
    ensures
        resolve_spec(column, doc1, id1) == Result::<Seq<char>, ResolveErrorView>::Ok(text@),
        resolve_spec(column, doc1, id1) == resolve_spec(column, doc2, id2),
{
}

/// An intrinsic column resolves to the document's identity string,
/// unchanged, whatever the document's content.
pub proof fn lemma_intrinsic_identity(
    column: CsvColumn,
    kind: Intrinsic,
    doc: XmlElement,
    doc_identity: Seq<char>,
)
    requires
        column.column_type == (ColumnType::Intrinsic { intrinsic: kind }),
    ensures
        resolve_spec(column, doc, doc_identity) == Result::<Seq<char>, ResolveErrorView>::Ok(
            doc_identity,
        ),
{
}

/// Resolves one column against one document, exactly as `resolve_spec`
/// states.
pub fn resolve_column(column: &CsvColumn, doc: &XmlElement, doc_identity: &str) -> (r: Result<
    String,
    ResolveError,
>)
    ensures
        match r {
            Ok(s) => resolve_spec(*column, *doc, doc_identity@) == Result::<
                Seq<char>,
                ResolveErrorView,
            >::Ok(s@),
            Err(e) => resolve_spec(*column, *doc, doc_identity@) == Result::<
                Seq<char>,
                ResolveErrorView,
            >::Err(e@),
        },
{
    match &column.column_type {
        ColumnType::ExtractXmlPath { path, default } => {
            match extract_from_xml(doc, path) {
                Ok(v) => Ok(v),
                Err(e) => match default {
                    Some(d) => Ok(d.clone()),
                    None => Err(
                        ResolveError {
                            doc_identity: doc_identity.to_owned(),
                            column_title: column.title.clone(),
                            error: e,
                        },
                    ),
                },
            }
        },
        ColumnType::Text { text } => Ok(text.clone()),
        ColumnType::Intrinsic { intrinsic: _ } => Ok(doc_identity.to_owned()),
    }
}

/// Resolves every column of the configuration against one document, in
/// configuration order. Yields the full row, or the first unrecovered
/// failure; no partial row is handed out.
pub fn resolve_row(config: &Config, doc: &XmlElement, doc_identity: &str) -> (r: Result<
    Vec<String>,
    ResolveError,
>)
    ensures
        match r {
            Ok(row) => row@.len() == config.csv_columns@.len() && forall|j: int|
                0 <= j < row@.len() ==> resolve_spec(
                    config.csv_columns@[j],
                    *doc,
                    doc_identity@,
                ) == Result::<Seq<char>, ResolveErrorView>::Ok((#[trigger] row@[j])@),
            Err(e) => exists|j: int|
                0 <= j < config.csv_columns@.len() && resolve_spec(
                    #[trigger] config.csv_columns@[j],
                    *doc,
                    doc_identity@,
                ) == Result::<Seq<char>, ResolveErrorView>::Err(e@) && (forall|k: int|
                    0 <= k < j ==> resolve_spec(
                        #[trigger] config.csv_columns@[k],
                        *doc,
                        doc_identity@,
                    ) is Ok),
        },
{
    let n: usize = config.csv_columns.len();
    let mut row: Vec<String> = Vec::new();
    let mut k: usize = 0;
    while k < n
        invariant
            0 <= k <= n,
            n == config.csv_columns@.len(),
            row@.len() == k,
            forall|j: int|
                0 <= j < k ==> resolve_spec(config.csv_columns@[j], *doc, doc_identity@)
                    == Result::<Seq<char>, ResolveErrorView>::Ok((#[trigger] row@[j])@),
        decreases n - k,
    {
        match resolve_column(&config.csv_columns[k], doc, doc_identity) {
            Ok(v) => {
                row.push(v);
            },
            Err(e) => {
                proof {
                    assert forall|j: int|
                        0 <= j < k implies resolve_spec(
                        #[trigger] config.csv_columns@[j],
                        *doc,
                        doc_identity@,
                    ) is Ok by {
                        assert(resolve_spec(config.csv_columns@[j], *doc, doc_identity@)
                            == Result::<Seq<char>, ResolveErrorView>::Ok(row@[j]@));
                    }
                    assert(resolve_spec(config.csv_columns@[k as int], *doc, doc_identity@)
                        == Result::<Seq<char>, ResolveErrorView>::Err(e@));
                }
                return Err(e);
            },
        }
        k = k + 1;
    }
    Ok(row)
}

} // verus!

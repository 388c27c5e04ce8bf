//! Turns tree-structured documents into tabular rows.
//!
//! The heart of the crate is a small path-expression language: a dotted
//! string such as `"item.1.id"` is parsed into typed segments, and an
//! evaluation engine walks a document tree with one of three extraction
//! modes (text content, child count, attribute value). A column resolver
//! turns a column specification plus a document into the final cell value,
//! applying the default-fallback policy.

pub mod config;
pub mod digits;
pub mod resolve;
pub mod xml_path;
pub mod xml_tree;

use vstd::prelude::*;

verus! {

/// Checks a path string handed in on the command line: the caller reports
/// whether the path exists on disk, and this function builds the accepted
/// value or the diagnostic message.
pub fn verify_path_parser(s: &str, exists: bool) -> (r: Result<String, String>)
    ensures
        exists ==> (r matches Ok(p) && p@ == s@),
        !exists ==> (r matches Err(m) && m@ == "Path: '"@ + s@ + "' doesn't exist"@),
{
    if exists {
        Ok(s.to_owned())
    } else {
        let mut m = String::new();
        m.append("Path: '");
        m.append(s);
        m.append("' doesn't exist");
        Err(m)
    }
}

/// The output file used when no other is chosen.
pub fn get_default_save_path() -> (r: String)
    ensures
        r@ == "output.csv"@,
{
    String::from_str("output.csv")
}

} // verus!

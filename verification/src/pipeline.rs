//! The whole pass from tabular text to a report.

use crate::aggregator::group;
use crate::grouping::grouping;
use crate::loader::{csv_rows, load, loaded, ParseError, ParseErrorView};
use crate::renderer::{document, render};
use vstd::prelude::*;

verus! {

/// The report for a reader's outcome: the document of the grouping of the
/// catalog that was loaded, or the reason why no catalog was.
pub open spec fn report_of(table: Result<Seq<Seq<Seq<char>>>, Seq<char>>) -> Result<
    Seq<char>,
    ParseErrorView,
> {
    match loaded(table) {
        Ok(catalog) => Ok(document(grouping(catalog))),
        Err(error) => Err(error),
    }
}

/// The model of what the pass returns.
pub open spec fn report_view(outcome: Result<String, ParseError>) -> Result<
    Seq<char>,
    ParseErrorView,
> {
    match outcome {
        Ok(report) => Ok(report@),
        Err(error) => Err(error@),
    }
}

/// Loads a catalog from comma-separated text, groups it and renders the
/// report. No report is produced from an input that does not load.
pub fn build_report(data: &[u8]) -> (outcome: Result<String, ParseError>)
    ensures
        report_view(outcome) == report_of(csv_rows(data@)),
{
    match load(data) {
        Ok(catalog) => Ok(render(&group(catalog))),
        Err(error) => Err(error),
    }
}

} // verus!

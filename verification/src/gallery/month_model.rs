use vstd::prelude::*;
use crate::util::time::{format_month_label, month_label};
use crate::gallery::ui_data::MonthEntryData;

verus! {

/// One entry of the month scroller: a month and the row of its header.
#[derive(Debug, Clone)]
pub struct MonthEntry {
    pub year: i32,
    pub month: i32,
    pub label: String,
    pub row_index: usize,
}

impl MonthEntry {
    /// The entry for (year, month), labelled as "Jan 2024", whose header is
    /// the row `row_index`.
    pub fn new(year: i32, month: i32, row_index: usize) -> (e: MonthEntry)
        ensures
            e.year == year,
            e.month == month,
            e.label@ == month_label(year, month),
            e.row_index == row_index,
    {
        MonthEntry { year, month, label: format_month_label(year, month), row_index }
    }
}

/// The entry as the month scroller receives it; the row index is narrowed to
/// an `i32` as the interface's integers are.
pub fn to_slint(entry: &MonthEntry) -> (r: MonthEntryData)
    ensures
        r.label@ == entry.label@,
        r.year == entry.year,
        r.month == entry.month,
        r.row_index == entry.row_index as i32,
{
    MonthEntryData {
        label: entry.label.clone(),
        year: entry.year,
        month: entry.month,
        row_index: entry.row_index as i32,
    }
}

} // verus!

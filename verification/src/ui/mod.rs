//! What the user interface shows and copies.
use vstd::prelude::*;

use crate::data::LlmCostEntry;

use self::clipboard::{entry_views, tsv_text};

pub mod clipboard;

verus! {

/// The full pricing table, with its column titles, as tab-separated values.
pub fn build_table_tsv(entries: &[LlmCostEntry]) -> (tsv: String)
    ensures
        tsv@ == tsv_text(entry_views(entries@)),
{
    clipboard::build_tsv(entries)
}

} // verus!

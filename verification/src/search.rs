//! How a note came to be among the results of a search.

use vstd::prelude::*;

verus! {

/// The way in which a note matched a search.
#[derive(Debug, Clone, Copy, PartialEq, Eq, Structural)]
pub enum MatchType {
    TitleExact,
    TitleFuzzy,
    ContentExact,
    ContentFuzzy,
    Tag,
    Regex,
    DateRange,
    TagCombination,
}

} // verus!

//! Gacha records as the history table holds them, and the results handed
//! back to the front end.
use vstd::prelude::*;

verus! {

/// One pull of the warp (wish) history.
#[derive(Debug, Clone, PartialEq, Eq)]
pub struct GachaRecord {
    pub id: i64,
    pub game_kind: String,
    pub item_name: String,
    pub item_type: String,
    pub star_rating: i32,
    pub record_date: String,
    pub is_won: bool,
    pub banner_type: String,
}

/// One page of records and the number of records that match the filters.
#[derive(Debug, Clone, PartialEq, Eq)]
pub struct GachaRecordsResponse {
    pub records: Vec<GachaRecord>,
    pub total: i64,
}

/// How many records an import stored, and how many inputs it skipped.
#[derive(Debug, Clone, Copy, PartialEq, Eq)]
pub struct GachaImportResult {
    pub imported: usize,
    pub duplicates: usize,
}

} // verus!

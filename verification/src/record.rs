//! The catalog entry and its mathematical model.

use vstd::prelude::*;

verus! {

/// One catalog entry. Every field is free-form display text; none is optional.
#[derive(Clone, Debug, PartialEq, Eq)]
pub struct Record {
    pub title: String,
    pub category: String,
    pub rating: String,
    pub actors: String,
    pub aspect: String,
    pub format: String,
}

/// What a [`Record`] stands for in contracts: its six texts as sequences of
/// characters.
pub struct RecordView {
    pub title: Seq<char>,
    pub category: Seq<char>,
    pub rating: Seq<char>,
    pub actors: Seq<char>,
    pub aspect: Seq<char>,
    pub format: Seq<char>,
}

impl View for Record {
    type V = RecordView;

    open spec fn view(&self) -> RecordView {
        RecordView {
            title: self.title@,
            category: self.category@,
            rating: self.rating@,
            actors: self.actors@,
            aspect: self.aspect@,
            format: self.format@,
        }
    }
}

/// The model of a sequence of records, entry by entry.
pub open spec fn records_view(records: Seq<Record>) -> Seq<RecordView> {
    records.map_values(|r: Record| r@)
}

impl Record {
    /// Builds a record from its six texts.
    pub fn new(
        title: &str,
        category: &str,
        rating: &str,
        actors: &str,
        aspect: &str,
        format: &str,
    ) -> (record: Record)
        ensures
            record@ == (RecordView {
                title: title@,
                category: category@,
                rating: rating@,
                actors: actors@,
                aspect: aspect@,
                format: format@,
            }),
    {
        Record {
            title: title.to_owned(),
            category: category.to_owned(),
            rating: rating.to_owned(),
            actors: actors.to_owned(),
            aspect: aspect.to_owned(),
            format: format.to_owned(),
        }
    }
}

} // verus!

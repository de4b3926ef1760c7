//! Grouping a catalog by category and fixing the display order.

use crate::grouping::{
    grouping, grouping_is_unique, grouping_of_nothing, in_category_order, in_title_order,
    is_grouping_of, lemma_count_insert, lemma_count_update, lemma_file_in_section, lemma_not_le,
    lemma_nothing_to_group, lemma_open_section, lemma_tail_follows, record_count,
    section_well_formed, well_formed, SectionView,
};
use crate::record::{records_view, Record, RecordView};
use crate::text::{
    ordinal_le, ordinal_le_antisymmetric, ordinal_le_transitive, ordinal_lt, ordinal_str_le,
};
use vstd::prelude::*;

verus! {

/// One section of a grouped catalog.
#[derive(Debug)]
pub struct Section {
    category: String,
    records: Vec<Record>,
}

impl View for Section {
    type V = SectionView;

    closed spec fn view(&self) -> SectionView {
        SectionView { category: self.category@, records: records_view(self.records@) }
    }
}

impl Section {
    /// The category that the section is headed by.
    pub fn category(&self) -> (category: &String)
        ensures
            category@ == self@.category,
    {
        &self.category
    }

    /// The records of the section, in display order.
    pub fn records(&self) -> (records: &Vec<Record>)
        ensures
            records_view(records@) == self@.records,
    {
        &self.records
    }
}

/// A catalog partitioned by category, with the order of categories and the
/// order of records within each category fixed.
#[derive(Debug)]
pub struct GroupedCatalog {
    sections: Vec<Section>,
}

impl View for GroupedCatalog {
    type V = Seq<SectionView>;

    closed spec fn view(&self) -> Seq<SectionView> {
        self.sections@.map_values(|s: Section| s@)
    }
}

impl GroupedCatalog {
    /// What holds of every grouped catalog: its sections are well formed.
    #[verifier::type_invariant]
    spec fn sections_are_well_formed(&self) -> bool {
        well_formed(self@)
    }

    /// The number of sections.
    pub fn len(&self) -> (n: usize)
        ensures
            n == self@.len(),
            well_formed(self@),
    {
        proof {
            use_type_invariant(self);
        }
        self.sections.len()
    }

    /// The section at position `i` in display order.
    pub fn section(&self, i: usize) -> (section: &Section)
        requires
            i < self@.len(),
        ensures
            section@ == self@[i as int],
            section_well_formed(section@),
    {
        proof {
            use_type_invariant(self);
            assert(section_well_formed(self@[i as int]));
        }
        &self.sections[i]
    }
}

/// The position of the first section whose category does not come strictly
/// before `category`.
fn section_position(sections: &Vec<Section>, category: &String) -> (i: usize)
    requires
        in_category_order(sections@.map_values(|s: Section| s@)),
    ensures
        i <= sections.len(),
        forall|k: int| 0 <= k < i ==> ordinal_lt(#[trigger] sections[k]@.category, category@),
        forall|k: int|
            i <= k < sections.len() ==> ordinal_le(category@, #[trigger] sections[k]@.category),
{
    let ghost model = sections@.map_values(|s: Section| s@);
    let mut i: usize = 0;
    while i < sections.len()
        invariant
            i <= sections.len(),
            model == sections@.map_values(|s: Section| s@),
            in_category_order(model),
            forall|k: int| 0 <= k < i ==> ordinal_lt(#[trigger] sections[k]@.category, category@),
        decreases sections.len() - i,
    {
        if ordinal_str_le(category.as_str(), sections[i].category.as_str()) {
            proof {
                assert forall|k: int| i <= k < sections.len() implies ordinal_le(
                    category@,
                    #[trigger] sections[k]@.category,
                ) by {
                    assert(model[i as int] == sections[i as int]@);
                    assert(model[k] == sections[k]@);
                    if i < k {
                        assert(ordinal_lt(model[i as int].category, model[k].category));
                        ordinal_le_transitive(
                            category@,
                            sections[i as int]@.category,
                            sections[k]@.category,
                        );
                    }
                }
            }
            return i;
        }
        proof {
            lemma_not_le(category@, sections[i as int]@.category);
        }
        i += 1;
    }
    i
}

/// The position behind the last record whose title does not come after
/// `title`.
fn record_position(records: &Vec<Record>, title: &String) -> (p: usize)
    requires
        in_title_order(records_view(records@)),
    ensures
        p <= records.len(),
        forall|k: int| 0 <= k < p ==> ordinal_le(#[trigger] records[k]@.title, title@),
        forall|k: int| p <= k < records.len() ==> ordinal_lt(title@, #[trigger] records[k]@.title),
{
    let ghost model = records_view(records@);
    let mut p: usize = 0;
    while p < records.len()
        invariant
            p <= records.len(),
            model == records_view(records@),
            in_title_order(model),
            forall|k: int| 0 <= k < p ==> ordinal_le(#[trigger] records[k]@.title, title@),
        decreases records.len() - p,
    {
        if !ordinal_str_le(records[p].title.as_str(), title.as_str()) {
            proof {
                lemma_not_le(records[p as int]@.title, title@);
                assert(model[p as int] == records[p as int]@);
                lemma_tail_follows(model, p as int, title@);
                assert forall|k: int| p <= k < records.len() implies ordinal_lt(
                    title@,
                    #[trigger] records[k]@.title,
                ) by {
                    assert(model[k] == records[k]@);
                }
            }
            return p;
        }
        p += 1;
    }
    p
}

/// Files one more record into a grouping.
fn file_record(
    sections: &mut Vec<Section>,
    record: Record,
    Ghost(catalog): Ghost<Seq<RecordView>>,
)
    requires
        is_grouping_of(old(sections)@.map_values(|s: Section| s@), catalog),
    ensures
        is_grouping_of(final(sections)@.map_values(|s: Section| s@), catalog.push(record@)),
        record_count(final(sections)@.map_values(|s: Section| s@)) == record_count(
            old(sections)@.map_values(|s: Section| s@),
        ) + 1,
{
    let ghost before = sections@.map_values(|s: Section| s@);
    let i = section_position(sections, &record.category);
    proof {
        assert forall|k: int| 0 <= k < sections.len() implies before[k]
            == #[trigger] sections[k]@ by {}
    }
    if i < sections.len() && sections[i].category == record.category {
        proof {
            assert(sections[i as int]@ == before[i as int]);
            assert(section_well_formed(before[i as int]));
        }
        let p = record_position(&sections[i].records, &record.title);
        let ghost old_records = records_view(sections[i as int].records@);
        proof {
            assert forall|k: int| 0 <= k < sections[i as int].records.len() implies old_records[k]
                == #[trigger] sections[i as int].records[k]@ by {}
            lemma_file_in_section(before, catalog, i as int, p as int, record@);
            lemma_count_update(
                before,
                i as int,
                SectionView {
                    category: record@.category,
                    records: old_records.insert(p as int, record@),
                },
            );
        }
        let ghost x = record@;
        sections[i].records.insert(p, record);
        proof {
            assert(records_view(sections[i as int].records@) =~= old_records.insert(p as int, x));
            assert(sections@.map_values(|s: Section| s@) =~= before.update(
                i as int,
                SectionView { category: x.category, records: old_records.insert(p as int, x) },
            ));
        }
    } else {
        proof {
            assert forall|k: int| i <= k < sections.len() implies ordinal_lt(
                record@.category,
                #[trigger] before[k].category,
            ) by {
                assert(before[k] == sections[k]@);
                if k == i {
                    assert(sections[k]@.category != record@.category);
                } else {
                    assert(ordinal_lt(before[i as int].category, before[k].category));
                    assert(before[i as int] == sections[i as int]@);
                    ordinal_le_transitive(
                        record@.category,
                        before[i as int].category,
                        before[k].category,
                    );
                    if record@.category == before[k].category {
                        ordinal_le_antisymmetric(before[i as int].category, before[k].category);
                    }
                }
            }
            assert forall|k: int| 0 <= k < i implies ordinal_lt(
                #[trigger] before[k].category,
                record@.category,
            ) by {
                assert(before[k] == sections[k]@);
            }
            lemma_open_section(before, catalog, i as int, record@);
            lemma_count_insert(
                before,
                i as int,
                SectionView { category: record@.category, records: seq![record@] },
            );
        }
        let ghost x = record@;
        let mut records: Vec<Record> = Vec::new();
        let category = record.category.clone();
        records.push(record);
        proof {
            assert(records_view(records@) =~= seq![x]);
        }
        sections.insert(i, Section { category, records });
        proof {
            assert(sections@.map_values(|s: Section| s@) =~= before.insert(
                i as int,
                SectionView { category: x.category, records: seq![x] },
            ));
        }
    }
}

/// Groups a catalog by category.
///
/// The sections come out with their categories in strictly ascending ordinal
/// order. Within a section the records stand in ascending ordinal order of
/// title, and records with equal titles keep the order that they had in the
/// catalog. Nothing is merged or dropped: a section lists, for each title,
/// exactly the catalog's records of its category with that title, so the
/// sections together hold as many records as the catalog.
pub fn group(catalog: Vec<Record>) -> (grouped: GroupedCatalog)
    ensures
        well_formed(grouped@),
        is_grouping_of(grouped@, records_view(catalog@)),
        grouped@ == grouping(records_view(catalog@)),
        record_count(grouped@) == catalog@.len(),
        catalog@.len() == 0 ==> grouped@.len() == 0,
{
    let ghost whole = records_view(catalog@);
    let mut sections: Vec<Section> = Vec::new();
    proof {
        assert(sections@.map_values(|s: Section| s@) =~= Seq::<SectionView>::empty());
        lemma_nothing_to_group();
    }
    let ghost entries = catalog@;
    for record in it: catalog
        invariant
            it.seq() == entries,
            whole == records_view(entries),
            is_grouping_of(sections@.map_values(|s: Section| s@), whole.take(it.index() as int)),
            record_count(sections@.map_values(|s: Section| s@)) == it.index(),
    {
        proof {
            assert(whole.take(it.index() + 1) =~= whole.take(it.index() as int).push(record@));
        }
        file_record(&mut sections, record, Ghost(whole.take(it.index() as int)));
    }
    proof {
        assert(whole.take(whole.len() as int) =~= whole);
        let model = sections@.map_values(|s: Section| s@);
        grouping_is_unique(model, grouping(whole), whole);
        if catalog@.len() == 0 {
            assert(whole =~= Seq::<RecordView>::empty());
            grouping_of_nothing(model);
        }
    }
    GroupedCatalog { sections }
}

} // verus!

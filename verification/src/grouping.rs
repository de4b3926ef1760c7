//! What it is for sections to be the grouping of a catalog, and why a
//! catalog has only one.

use crate::record::RecordView;
use crate::text::{
    ordinal_le, ordinal_le_antisymmetric, ordinal_le_reflexive, ordinal_le_total,
    ordinal_le_transitive, ordinal_lt,
};
use vstd::prelude::*;

verus! {

/// The model of one section of a grouped catalog: a category and the records
/// filed under it, in display order.
pub struct SectionView {
    pub category: Seq<char>,
    pub records: Seq<RecordView>,
}

/// Titles never descend from one record to the next. Equal titles may repeat.
pub open spec fn in_title_order(records: Seq<RecordView>) -> bool {
    forall|i: int, j: int|
        0 <= i < j < records.len() ==> ordinal_le(
            #[trigger] records[i].title,
            #[trigger] records[j].title,
        )
}

/// Categories strictly ascend from one section to the next, so none repeats.
pub open spec fn in_category_order(sections: Seq<SectionView>) -> bool {
    forall|i: int, j: int|
        0 <= i < j < sections.len() ==> ordinal_lt(
            #[trigger] sections[i].category,
            #[trigger] sections[j].category,
        )
}

/// A section holds at least one record, each of its records carries the
/// section's category, and its records stand in title order.
pub open spec fn section_well_formed(section: SectionView) -> bool {
    &&& section.records.len() > 0
    &&& in_title_order(section.records)
    &&& forall|k: int|
        0 <= k < section.records.len() ==> (#[trigger] section.records[k]).category
            == section.category
}

/// The invariant of a grouped catalog: categories in strictly ascending
/// order, every section well formed.
pub open spec fn well_formed(sections: Seq<SectionView>) -> bool {
    &&& in_category_order(sections)
    &&& forall|i: int| 0 <= i < sections.len() ==> section_well_formed(#[trigger] sections[i])
}

/// Some section carries `category`.
pub open spec fn has_category(sections: Seq<SectionView>, category: Seq<char>) -> bool {
    exists|i: int| 0 <= i < sections.len() && (#[trigger] sections[i]).category == category
}

/// The records of `catalog` whose category is `category`, in catalog order.
pub open spec fn filed_under(catalog: Seq<RecordView>, category: Seq<char>) -> Seq<RecordView> {
    catalog.filter(|r: RecordView| r.category == category)
}

/// The records among `records` whose title is `title`, in their given order.
pub open spec fn titled(records: Seq<RecordView>, title: Seq<char>) -> Seq<RecordView> {
    records.filter(|r: RecordView| r.title == title)
}

/// `sections` is the grouping of `catalog`: it is well formed, every category
/// that occurs in the catalog has its section, and for every title a section
/// lists exactly the catalog's records of that category and title, in the
/// order in which the catalog has them.
///
/// Together with title order this fixes each section as the stable sort by
/// title of the catalog's records of its category.
pub open spec fn is_grouping_of(sections: Seq<SectionView>, catalog: Seq<RecordView>) -> bool {
    &&& well_formed(sections)
    &&& forall|k: int|
        0 <= k < catalog.len() ==> has_category(sections, (#[trigger] catalog[k]).category)
    &&& forall|i: int, title: Seq<char>|
        0 <= i < sections.len() ==> #[trigger] titled(sections[i].records, title) == titled(
            filed_under(catalog, sections[i].category),
            title,
        )
}

/// Filtering a sequence with one element inserted: the parts before and after
/// the insertion point are filtered as before, and the new element is kept
/// between them when it passes.
proof fn lemma_filter_insert<A>(s: Seq<A>, p: int, x: A, pred: spec_fn(A) -> bool)
    requires
        0 <= p <= s.len(),
    ensures
        s.filter(pred) == s.subrange(0, p).filter(pred) + s.subrange(p, s.len() as int).filter(
            pred,
        ),
        s.insert(p, x).filter(pred) == s.subrange(0, p).filter(pred) + (if pred(x) {
            seq![x]
        } else {
            Seq::<A>::empty()
        }) + s.subrange(p, s.len() as int).filter(pred),
{
    let front = s.subrange(0, p);
    let back = s.subrange(p, s.len() as int);
    assert(s =~= front + back);
    Seq::filter_distributes_over_add(front, back, pred);
    Seq::filter_distributes_over_add(front.push(x), back, pred);
    front.lemma_filter_push(x, pred);
    assert(front.filter(pred).push(x) =~= front.filter(pred) + seq![x]);
    assert(front.filter(pred) =~= front.filter(pred) + Seq::<A>::empty());
}

/// A sequence none of whose elements passes is filtered to nothing.
proof fn lemma_filter_none<A>(s: Seq<A>, pred: spec_fn(A) -> bool)
    requires
        forall|k: int| 0 <= k < s.len() ==> !pred(#[trigger] s[k]),
    ensures
        s.filter(pred) == Seq::<A>::empty(),
{
    assert(s.all(|x: A| !pred(x)));
    s.lemma_all_neg_filter_empty(pred);
    assert(s.filter(pred) =~= Seq::<A>::empty());
}

/// Strict ordinal order is transitive.
proof fn lemma_lt_transitive(a: Seq<char>, b: Seq<char>, c: Seq<char>)
    requires
        ordinal_lt(a, b),
        ordinal_le(b, c),
    ensures
        ordinal_lt(a, c),
{
    ordinal_le_transitive(a, b, c);
    if a == c {
        ordinal_le_antisymmetric(a, b);
    }
}

/// Where `later` is not ordered before or equal to `earlier`, `earlier` comes
/// strictly first.
pub(crate) proof fn lemma_not_le(later: Seq<char>, earlier: Seq<char>)
    requires
        !ordinal_le(later, earlier),
    ensures
        ordinal_lt(earlier, later),
{
    ordinal_le_total(later, earlier);
    ordinal_le_reflexive(earlier);
}

/// The number of records that the sections hold together.
pub open spec fn record_count(sections: Seq<SectionView>) -> nat
    decreases sections.len(),
{
    if sections.len() == 0 {
        0
    } else {
        record_count(sections.drop_last()) + sections.last().records.len()
    }
}

/// Replacing a section changes the count by the difference in its length.
pub(crate) proof fn lemma_count_update(sections: Seq<SectionView>, i: int, section: SectionView)
    requires
        0 <= i < sections.len(),
    ensures
        record_count(sections.update(i, section)) + sections[i].records.len() == record_count(
            sections,
        ) + section.records.len(),
    decreases sections.len(),
{
    let changed = sections.update(i, section);
    if i == sections.len() - 1 {
        assert(changed.drop_last() =~= sections.drop_last());
    } else {
        assert(changed.drop_last() =~= sections.drop_last().update(i, section));
        lemma_count_update(sections.drop_last(), i, section);
    }
}

/// Inserting a section adds its length to the count.
pub(crate) proof fn lemma_count_insert(sections: Seq<SectionView>, i: int, section: SectionView)
    requires
        0 <= i <= sections.len(),
    ensures
        record_count(sections.insert(i, section)) == record_count(sections)
            + section.records.len(),
    decreases sections.len(),
{
    let grown = sections.insert(i, section);
    if i == sections.len() {
        assert(grown.drop_last() =~= sections);
    } else {
        assert(grown.drop_last() =~= sections.drop_last().insert(i, section));
        assert(grown.last() == sections.last());
        lemma_count_insert(sections.drop_last(), i, section);
    }
}

/// In a sequence in title order, every record from position `p` on comes
/// strictly after `title` once the record at `p` does.
pub(crate) proof fn lemma_tail_follows(records: Seq<RecordView>, p: int, title: Seq<char>)
    requires
        in_title_order(records),
        0 <= p < records.len(),
        ordinal_lt(title, records[p].title),
    ensures
        forall|k: int| p <= k < records.len() ==> ordinal_lt(title, #[trigger] records[k].title),
{
    assert forall|k: int| p <= k < records.len() implies ordinal_lt(
        title,
        #[trigger] records[k].title,
    ) by {
        if p < k {
            lemma_lt_transitive(title, records[p].title, records[k].title);
        }
    }
}

/// Filing a record into the section of its category, behind the records whose
/// title does not come after its own and before those whose title does, gives
/// the grouping of the catalog extended by that record.
pub(crate) proof fn lemma_file_in_section(
    sections: Seq<SectionView>,
    catalog: Seq<RecordView>,
    i: int,
    p: int,
    x: RecordView,
)
    requires
        is_grouping_of(sections, catalog),
        0 <= i < sections.len(),
        sections[i].category == x.category,
        0 <= p <= sections[i].records.len(),
        forall|k: int| 0 <= k < p ==> ordinal_le(#[trigger] sections[i].records[k].title, x.title),
        forall|k: int|
            p <= k < sections[i].records.len() ==> ordinal_lt(
                x.title,
                #[trigger] sections[i].records[k].title,
            ),
    ensures
        is_grouping_of(
            sections.update(
                i,
                SectionView { category: x.category, records: sections[i].records.insert(p, x) },
            ),
            catalog.push(x),
        ),
{
    let old_records = sections[i].records;
    let new_records = old_records.insert(p, x);
    let new_section = SectionView { category: x.category, records: new_records };
    let new_sections = sections.update(i, new_section);
    let new_catalog = catalog.push(x);
    old_records.insert_ensures(p, x);

    assert(in_title_order(new_records)) by {
        assert forall|a: int, b: int| 0 <= a < b < new_records.len() implies ordinal_le(
            #[trigger] new_records[a].title,
            #[trigger] new_records[b].title,
        ) by {
            if b < p {
                assert(new_records[a] == old_records[a] && new_records[b] == old_records[b]);
            } else if b == p {
                assert(new_records[a] == old_records[a]);
            } else if a < p {
                assert(new_records[a] == old_records[a]);
                assert(new_records[b] == old_records[b - 1]);
                ordinal_le_transitive(new_records[a].title, x.title, new_records[b].title);
            } else if a == p {
                assert(new_records[b] == old_records[b - 1]);
            } else {
                assert(new_records[a] == old_records[a - 1]);
                assert(new_records[b] == old_records[b - 1]);
            }
        }
    }
    assert(section_well_formed(new_section)) by {
        assert forall|k: int| 0 <= k < new_records.len() implies (
        #[trigger] new_records[k]).category == x.category by {
            if k < p {
                assert(new_records[k] == old_records[k]);
            } else if k > p {
                assert(new_records[k] == old_records[k - 1]);
            }
        }
    }
    assert(well_formed(new_sections)) by {
        assert forall|a: int, b: int| 0 <= a < b < new_sections.len() implies ordinal_lt(
            #[trigger] new_sections[a].category,
            #[trigger] new_sections[b].category,
        ) by {
            assert(new_sections[a].category == sections[a].category);
            assert(new_sections[b].category == sections[b].category);
        }
        assert forall|a: int| 0 <= a < new_sections.len() implies section_well_formed(
            #[trigger] new_sections[a],
        ) by {
            if a != i {
                assert(new_sections[a] == sections[a]);
            }
        }
    }
    assert forall|k: int| 0 <= k < new_catalog.len() implies has_category(
        new_sections,
        (#[trigger] new_catalog[k]).category,
    ) by {
        if k < catalog.len() {
            assert(new_catalog[k] == catalog[k]);
            let w = choose|w: int|
                0 <= w < sections.len() && (#[trigger] sections[w]).category
                    == catalog[k].category;
            assert(new_sections[w].category == catalog[k].category);
        } else {
            assert(new_sections[i].category == x.category);
        }
    }
    assert forall|a: int, title: Seq<char>| 0 <= a < new_sections.len() implies #[trigger] titled(
        new_sections[a].records,
        title,
    ) == titled(filed_under(new_catalog, new_sections[a].category), title) by {
        let category = sections[a].category;
        assert(new_sections[a].category == category);
        assert(titled(sections[a].records, title) == titled(filed_under(catalog, category), title));
        catalog.lemma_filter_push(x, |r: RecordView| r.category == category);
        if a != i {
            assert(new_sections[a] == sections[a]);
            assert(category != x.category) by {
                if a < i {
                    assert(ordinal_lt(sections[a].category, sections[i].category));
                } else {
                    assert(ordinal_lt(sections[i].category, sections[a].category));
                }
            }
        } else {
            let kept = filed_under(catalog, category);
            assert(filed_under(new_catalog, category) == kept.push(x));
            kept.lemma_filter_push(x, |r: RecordView| r.title == title);
            lemma_filter_insert(old_records, p, x, |r: RecordView| r.title == title);
            let back = old_records.subrange(p, old_records.len() as int);
            if title == x.title {
                assert forall|k: int| 0 <= k < back.len() implies !(#[trigger] back[k].title
                    == title) by {
                    assert(back[k] == old_records[p + k]);
                    assert(ordinal_lt(x.title, old_records[p + k].title));
                }
                lemma_filter_none(back, |r: RecordView| r.title == title);
                let front = old_records.subrange(0, p).filter(|r: RecordView| r.title == title);
                assert(titled(old_records, title) =~= front);
                assert(titled(new_records, title) =~= front.push(x));
            } else {
                let front = old_records.subrange(0, p).filter(|r: RecordView| r.title == title);
                let rest = back.filter(|r: RecordView| r.title == title);
                assert(titled(new_records, title) =~= front + rest);
            }
        }
    }
}

/// Opening a section for a record whose category no section carries yet, at
/// the place that keeps the categories ascending, gives the grouping of the
/// catalog extended by that record.
pub(crate) proof fn lemma_open_section(
    sections: Seq<SectionView>,
    catalog: Seq<RecordView>,
    i: int,
    x: RecordView,
)
    requires
        is_grouping_of(sections, catalog),
        0 <= i <= sections.len(),
        forall|k: int| 0 <= k < i ==> ordinal_lt(#[trigger] sections[k].category, x.category),
        forall|k: int|
            i <= k < sections.len() ==> ordinal_lt(x.category, #[trigger] sections[k].category),
    ensures
        is_grouping_of(
            sections.insert(i, SectionView { category: x.category, records: seq![x] }),
            catalog.push(x),
        ),
{
    let new_section = SectionView { category: x.category, records: seq![x] };
    let new_sections = sections.insert(i, new_section);
    let new_catalog = catalog.push(x);
    sections.insert_ensures(i, new_section);

    assert forall|a: int| 0 <= a < new_sections.len() implies (a < i ==> new_sections[a]
        == sections[a]) && (a > i ==> #[trigger] new_sections[a] == sections[a - 1]) by {}
    assert(well_formed(new_sections)) by {
        assert forall|a: int, b: int| 0 <= a < b < new_sections.len() implies ordinal_lt(
            #[trigger] new_sections[a].category,
            #[trigger] new_sections[b].category,
        ) by {
            if b < i {
                assert(ordinal_lt(sections[a].category, sections[b].category));
            } else if b == i {
                assert(ordinal_lt(sections[a].category, x.category));
            } else if a < i {
                assert(ordinal_lt(sections[a].category, x.category));
                assert(ordinal_lt(x.category, sections[b - 1].category));
                lemma_lt_transitive(sections[a].category, x.category, sections[b - 1].category);
            } else if a == i {
                assert(ordinal_lt(x.category, sections[b - 1].category));
            } else {
                assert(ordinal_lt(sections[a - 1].category, sections[b - 1].category));
            }
        }
        assert forall|a: int| 0 <= a < new_sections.len() implies section_well_formed(
            #[trigger] new_sections[a],
        ) by {
            if a < i {
                assert(section_well_formed(sections[a]));
            } else if a > i {
                assert(section_well_formed(sections[a - 1]));
            }
        }
    }
    assert forall|k: int| 0 <= k < new_catalog.len() implies has_category(
        new_sections,
        (#[trigger] new_catalog[k]).category,
    ) by {
        if k < catalog.len() {
            assert(new_catalog[k] == catalog[k]);
            let w = choose|w: int|
                0 <= w < sections.len() && (#[trigger] sections[w]).category
                    == catalog[k].category;
            if w < i {
                assert(new_sections[w].category == catalog[k].category);
            } else {
                assert(new_sections[w + 1].category == catalog[k].category);
            }
        } else {
            assert(new_sections[i].category == x.category);
        }
    }
    assert forall|a: int, title: Seq<char>| 0 <= a < new_sections.len() implies #[trigger] titled(
        new_sections[a].records,
        title,
    ) == titled(filed_under(new_catalog, new_sections[a].category), title) by {
        let category = new_sections[a].category;
        catalog.lemma_filter_push(x, |r: RecordView| r.category == category);
        if a < i {
            assert(ordinal_lt(sections[a].category, x.category));
            assert(titled(sections[a].records, title) == titled(
                filed_under(catalog, sections[a].category),
                title,
            ));
        } else if a > i {
            assert(ordinal_lt(x.category, sections[a - 1].category));
            assert(titled(sections[a - 1].records, title) == titled(
                filed_under(catalog, sections[a - 1].category),
                title,
            ));
        } else {
            assert forall|k: int| 0 <= k < catalog.len() implies !((#[trigger] catalog[k]).category
                == x.category) by {
                if catalog[k].category == x.category {
                    let w = choose|w: int|
                        0 <= w < sections.len() && (#[trigger] sections[w]).category
                            == catalog[k].category;
                    if w < i {
                        assert(ordinal_lt(sections[w].category, x.category));
                    } else {
                        assert(ordinal_lt(x.category, sections[w].category));
                    }
                }
            }
            lemma_filter_none(catalog, |r: RecordView| r.category == x.category);
            assert(filed_under(new_catalog, x.category) =~= seq![x]);
            assert(new_sections[a].records == seq![x]);
        }
    }
}

/// A record of a sequence occurs among the records of its own title.
proof fn lemma_titled_holds(records: Seq<RecordView>, k: int)
    requires
        0 <= k < records.len(),
    ensures
        titled(records, records[k].title).contains(records[k]),
{
    records.lemma_filter_contains(|r: RecordView| r.title == records[k].title, k);
}

/// Taking the last record away takes it from the records of its title and
/// leaves those of every other title as they were.
proof fn lemma_titled_drop_last(records: Seq<RecordView>, title: Seq<char>)
    requires
        records.len() > 0,
    ensures
        titled(records, title) == if records.last().title == title {
            titled(records.drop_last(), title).push(records.last())
        } else {
            titled(records.drop_last(), title)
        },
{
    assert(records =~= records.drop_last().push(records.last()));
    records.drop_last().lemma_filter_push(records.last(), |r: RecordView| r.title == title);
}

/// No two sequences in title order list the same records under every title.
proof fn lemma_title_order_unique(r: Seq<RecordView>, s: Seq<RecordView>)
    requires
        in_title_order(r),
        in_title_order(s),
        forall|title: Seq<char>| #[trigger] titled(r, title) == titled(s, title),
    ensures
        r == s,
    decreases r.len(),
{
    if r.len() == 0 || s.len() == 0 {
        if r.len() > 0 {
            lemma_titled_holds(r, 0);
            lemma_filter_none(s, |x: RecordView| x.title == r[0].title);
            assert(titled(r, r[0].title) == titled(s, r[0].title));
        }
        if s.len() > 0 {
            lemma_titled_holds(s, 0);
            lemma_filter_none(r, |x: RecordView| x.title == s[0].title);
            assert(titled(r, s[0].title) == titled(s, s[0].title));
        }
        assert(r =~= s);
    } else {
        let x = r.last();
        let y = s.last();
        assert(ordinal_le(x.title, y.title)) by {
            lemma_titled_holds(r, r.len() - 1);
            assert(titled(r, x.title) == titled(s, x.title));
            s.lemma_filter_contains_rev(|v: RecordView| v.title == x.title, x);
            let j = choose|j: int| 0 <= j < s.len() && s[j] == x;
            if j < s.len() - 1 {
                assert(ordinal_le(s[j].title, s[s.len() - 1].title));
            } else {
                ordinal_le_reflexive(x.title);
            }
        }
        assert(ordinal_le(y.title, x.title)) by {
            lemma_titled_holds(s, s.len() - 1);
            assert(titled(r, y.title) == titled(s, y.title));
            r.lemma_filter_contains_rev(|v: RecordView| v.title == y.title, y);
            let j = choose|j: int| 0 <= j < r.len() && r[j] == y;
            if j < r.len() - 1 {
                assert(ordinal_le(r[j].title, r[r.len() - 1].title));
            } else {
                ordinal_le_reflexive(y.title);
            }
        }
        ordinal_le_antisymmetric(x.title, y.title);
        lemma_titled_drop_last(r, x.title);
        lemma_titled_drop_last(s, x.title);
        assert(titled(r, x.title) == titled(s, x.title));
        assert(x == y) by {
            assert(titled(r.drop_last(), x.title).push(x).last() == x);
            assert(titled(s.drop_last(), x.title).push(y).last() == y);
        }
        assert forall|title: Seq<char>| #[trigger]
            titled(r.drop_last(), title) == titled(s.drop_last(), title) by {
            lemma_titled_drop_last(r, title);
            lemma_titled_drop_last(s, title);
            assert(titled(r, title) == titled(s, title));
            if title == x.title {
                assert(titled(r.drop_last(), title) =~= titled(r.drop_last(), title).push(
                    x,
                ).drop_last());
                assert(titled(s.drop_last(), title) =~= titled(s.drop_last(), title).push(
                    x,
                ).drop_last());
            }
        }
        assert(in_title_order(r.drop_last())) by {
            assert forall|i: int, j: int| 0 <= i < j < r.drop_last().len() implies ordinal_le(
                #[trigger] r.drop_last()[i].title,
                #[trigger] r.drop_last()[j].title,
            ) by {
                assert(ordinal_le(r[i].title, r[j].title));
            }
        }
        assert(in_title_order(s.drop_last())) by {
            assert forall|i: int, j: int| 0 <= i < j < s.drop_last().len() implies ordinal_le(
                #[trigger] s.drop_last()[i].title,
                #[trigger] s.drop_last()[j].title,
            ) by {
                assert(ordinal_le(s[i].title, s[j].title));
            }
        }
        lemma_title_order_unique(r.drop_last(), s.drop_last());
        assert(r =~= r.drop_last().push(x));
        assert(s =~= s.drop_last().push(y));
    }
}

/// A well-formed sequence of sections without its last section is well
/// formed, and carries the categories of the whole but the last one's.
proof fn lemma_well_formed_drop_last(sections: Seq<SectionView>)
    requires
        well_formed(sections),
        sections.len() > 0,
    ensures
        well_formed(sections.drop_last()),
        forall|category: Seq<char>| #[trigger]
            has_category(sections.drop_last(), category) <==> has_category(sections, category)
                && category != sections.last().category,
{
    let front = sections.drop_last();
    assert forall|i: int, j: int| 0 <= i < j < front.len() implies ordinal_lt(
        #[trigger] front[i].category,
        #[trigger] front[j].category,
    ) by {
        assert(ordinal_lt(sections[i].category, sections[j].category));
    }
    assert forall|i: int| 0 <= i < front.len() implies section_well_formed(#[trigger] front[i]) by {
        assert(section_well_formed(sections[i]));
    }
    assert forall|category: Seq<char>| #[trigger]
        has_category(front, category) <==> has_category(sections, category) && category
            != sections.last().category by {
        if has_category(front, category) {
            let i = choose|i: int| 0 <= i < front.len() && (#[trigger] front[i]).category
                == category;
            assert(sections[i].category == category);
            assert(ordinal_lt(sections[i].category, sections[sections.len() - 1].category));
        }
        if has_category(sections, category) && category != sections.last().category {
            let i = choose|i: int| 0 <= i < sections.len() && (#[trigger] sections[i]).category
                == category;
            assert(front[i].category == category);
        }
    }
}

/// Two well-formed sequences of sections that carry the same categories and
/// list, for every category and title, the same records are the same.
proof fn lemma_sections_unique(a: Seq<SectionView>, b: Seq<SectionView>)
    requires
        well_formed(a),
        well_formed(b),
        forall|category: Seq<char>| #[trigger]
            has_category(a, category) <==> has_category(b, category),
        forall|i: int, j: int, title: Seq<char>|
            0 <= i < a.len() && 0 <= j < b.len() && a[i].category == b[j].category
                ==> #[trigger] titled(a[i].records, title) == #[trigger] titled(
                b[j].records,
                title,
            ),
    ensures
        a == b,
    decreases a.len(),
{
    if a.len() == 0 || b.len() == 0 {
        if a.len() > 0 {
            assert(a[0].category == a[0].category);
            assert(has_category(a, a[0].category));
            assert(has_category(b, a[0].category));
        }
        if b.len() > 0 {
            assert(b[0].category == b[0].category);
            assert(has_category(b, b[0].category));
            assert(has_category(a, b[0].category));
        }
        assert(a =~= b);
    } else {
        let m = a.len() - 1;
        let n = b.len() - 1;
        let x = a[m];
        let y = b[n];
        assert(ordinal_le(x.category, y.category)) by {
            assert(a[m].category == x.category);
            assert(has_category(a, x.category));
            assert(has_category(b, x.category));
            let j = choose|j: int| 0 <= j < b.len() && (#[trigger] b[j]).category == x.category;
            if j < n {
                assert(ordinal_lt(b[j].category, b[n].category));
            } else {
                ordinal_le_reflexive(x.category);
            }
        }
        assert(ordinal_le(y.category, x.category)) by {
            assert(b[n].category == y.category);
            assert(has_category(b, y.category));
            assert(has_category(a, y.category));
            let j = choose|j: int| 0 <= j < a.len() && (#[trigger] a[j]).category == y.category;
            if j < m {
                assert(ordinal_lt(a[j].category, a[m].category));
            } else {
                ordinal_le_reflexive(y.category);
            }
        }
        ordinal_le_antisymmetric(x.category, y.category);
        assert(section_well_formed(a[m]) && section_well_formed(b[n]));
        assert forall|title: Seq<char>| #[trigger]
            titled(x.records, title) == titled(y.records, title) by {
            assert(titled(a[m].records, title) == titled(b[n].records, title));
        }
        lemma_title_order_unique(x.records, y.records);
        assert(x == y);
        lemma_well_formed_drop_last(a);
        lemma_well_formed_drop_last(b);
        let front_a = a.drop_last();
        let front_b = b.drop_last();
        assert forall|i: int, j: int, title: Seq<char>|
            0 <= i < front_a.len() && 0 <= j < front_b.len() && front_a[i].category
                == front_b[j].category implies #[trigger] titled(front_a[i].records, title)
            == #[trigger] titled(front_b[j].records, title) by {
            assert(titled(a[i].records, title) == titled(b[j].records, title));
        }
        lemma_sections_unique(front_a, front_b);
        assert(a =~= a.drop_last().push(x));
        assert(b =~= b.drop_last().push(y));
    }
}

/// A category that a grouping has a section for occurs in the catalog.
proof fn lemma_category_occurs(sections: Seq<SectionView>, catalog: Seq<RecordView>, i: int)
    requires
        is_grouping_of(sections, catalog),
        0 <= i < sections.len(),
    ensures
        exists|k: int|
            0 <= k < catalog.len() && (#[trigger] catalog[k]).category == sections[i].category,
{
    let category = sections[i].category;
    let records = sections[i].records;
    assert(section_well_formed(sections[i]));
    let title = records[0].title;
    lemma_titled_holds(records, 0);
    assert(titled(records, title) == titled(filed_under(catalog, category), title));
    let filed = filed_under(catalog, category);
    filed.lemma_filter_contains_rev(|r: RecordView| r.title == title, records[0]);
    catalog.lemma_filter_contains_rev(|r: RecordView| r.category == category, records[0]);
    let k = choose|k: int| 0 <= k < catalog.len() && catalog[k] == records[0];
    assert(records[0].category == category);
    assert(catalog[k].category == category);
}

/// A catalog has one grouping and no other.
pub proof fn grouping_is_unique(
    a: Seq<SectionView>,
    b: Seq<SectionView>,
    catalog: Seq<RecordView>,
)
    requires
        is_grouping_of(a, catalog),
        is_grouping_of(b, catalog),
    ensures
        a == b,
{
    assert forall|category: Seq<char>| #[trigger]
        has_category(a, category) <==> has_category(b, category) by {
        if has_category(a, category) {
            let i = choose|i: int| 0 <= i < a.len() && (#[trigger] a[i]).category == category;
            lemma_category_occurs(a, catalog, i);
            let k = choose|k: int| 0 <= k < catalog.len() && (#[trigger] catalog[k]).category
                == category;
            assert(has_category(b, catalog[k].category));
        }
        if has_category(b, category) {
            let i = choose|i: int| 0 <= i < b.len() && (#[trigger] b[i]).category == category;
            lemma_category_occurs(b, catalog, i);
            let k = choose|k: int| 0 <= k < catalog.len() && (#[trigger] catalog[k]).category
                == category;
            assert(has_category(a, catalog[k].category));
        }
    }
    assert forall|i: int, j: int, title: Seq<char>|
        0 <= i < a.len() && 0 <= j < b.len() && a[i].category == b[j].category
        implies #[trigger] titled(a[i].records, title) == #[trigger] titled(
        b[j].records,
        title,
    ) by {
        assert(titled(a[i].records, title) == titled(filed_under(catalog, a[i].category), title));
        assert(titled(b[j].records, title) == titled(filed_under(catalog, b[j].category), title));
    }
    lemma_sections_unique(a, b);
}

/// The grouping of a catalog: its records partitioned by category, the
/// categories in strictly ascending ordinal order, the records of each
/// category in ascending ordinal order of title, and records with equal
/// titles in the order in which the catalog has them.
pub open spec fn grouping(catalog: Seq<RecordView>) -> Seq<SectionView> {
    choose|sections: Seq<SectionView>| is_grouping_of(sections, catalog)
}

/// No sections are the grouping of an empty catalog.
pub(crate) proof fn lemma_nothing_to_group()
    ensures
        is_grouping_of(Seq::<SectionView>::empty(), Seq::<RecordView>::empty()),
{
}

/// The grouping of an empty catalog has no section.
pub proof fn grouping_of_nothing(sections: Seq<SectionView>)
    requires
        is_grouping_of(sections, Seq::<RecordView>::empty()),
    ensures
        sections == Seq::<SectionView>::empty(),
{
    if sections.len() > 0 {
        lemma_category_occurs(sections, Seq::<RecordView>::empty(), 0);
    }
    assert(sections =~= Seq::<SectionView>::empty());
}

} // verus!

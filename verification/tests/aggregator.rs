use catalog_report::aggregator::{group, GroupedCatalog};
use catalog_report::record::Record;

fn entry(title: &str, category: &str, rating: &str) -> Record {
    Record::new(title, category, rating, "", "", "")
}

fn categories(grouped: &GroupedCatalog) -> Vec<String> {
    (0..grouped.len()).map(|i| grouped.section(i).category().clone()).collect()
}

fn titles(grouped: &GroupedCatalog, i: usize) -> Vec<String> {
    grouped.section(i).records().iter().map(|r| r.title.clone()).collect()
}

#[test]
fn empty_catalog_groups_to_nothing() {
    let grouped = group(vec![]);
    assert_eq!(grouped.len(), 0);
}

#[test]
fn categories_come_out_in_ordinal_order() {
    let grouped = group(vec![
        entry("Alien", "Horror", "R"),
        entry("Bambi", "Drama", "G"),
        entry("Zootopia", "Comedy", "PG"),
    ]);
    assert_eq!(categories(&grouped), vec!["Comedy", "Drama", "Horror"]);
    assert_eq!(titles(&grouped, 0), vec!["Zootopia"]);
    assert_eq!(titles(&grouped, 1), vec!["Bambi"]);
    assert_eq!(titles(&grouped, 2), vec!["Alien"]);
}

#[test]
fn titles_come_out_in_ordinal_order_within_a_category() {
    let grouped = group(vec![
        entry("The Thing", "Horror", "R"),
        entry("Up", "Family", "PG"),
        entry("Alien", "Horror", "R"),
        entry("Psycho", "Horror", "R"),
        entry("Bambi", "Family", "G"),
    ]);
    assert_eq!(categories(&grouped), vec!["Family", "Horror"]);
    assert_eq!(titles(&grouped, 0), vec!["Bambi", "Up"]);
    assert_eq!(titles(&grouped, 1), vec!["Alien", "Psycho", "The Thing"]);
}

#[test]
fn the_first_record_of_a_category_is_kept() {
    let grouped = group(vec![entry("Alien", "Horror", "R")]);
    assert_eq!(grouped.len(), 1);
    assert_eq!(grouped.section(0).records().len(), 1);
    assert_eq!(grouped.section(0).records()[0], entry("Alien", "Horror", "R"));
}

#[test]
fn equal_titles_keep_their_input_order() {
    let grouped = group(vec![
        entry("Aliens", "Horror", "first"),
        entry("Alien", "Horror", "only"),
        entry("Aliens", "Horror", "second"),
        entry("Aliens", "Horror", "third"),
    ]);
    assert_eq!(grouped.len(), 1);
    let ratings: Vec<&str> =
        grouped.section(0).records().iter().map(|r| r.rating.as_str()).collect();
    assert_eq!(ratings, vec!["only", "first", "second", "third"]);
}

#[test]
fn order_is_by_code_point_not_by_alphabet() {
    let grouped = group(vec![
        entry("apple", "b", ""),
        entry("Zebra", "b", ""),
        entry("\u{e9}clair", "b", ""),
        entry("zoo", "b", ""),
        entry("Apple", "a", ""),
        entry("", "B", ""),
    ]);
    assert_eq!(categories(&grouped), vec!["B", "a", "b"]);
    assert_eq!(titles(&grouped, 2), vec!["Zebra", "apple", "zoo", "\u{e9}clair"]);
}

#[test]
fn a_title_comes_after_its_prefixes() {
    let grouped = group(vec![
        entry("Aliens", "Horror", ""),
        entry("Alien 3", "Horror", ""),
        entry("Alien", "Horror", ""),
    ]);
    assert_eq!(titles(&grouped, 0), vec!["Alien", "Alien 3", "Aliens"]);
}

#[test]
fn every_record_is_filed_once() {
    let catalog: Vec<Record> = (0..40)
        .map(|i| entry(&format!("t{}", (i * 7) % 11), &format!("c{}", (i * 5) % 6), &format!("{}", i)))
        .collect();
    let grouped = group(catalog.clone());
    let mut filed = 0;
    for i in 0..grouped.len() {
        let section = grouped.section(i);
        assert!(!section.records().is_empty());
        if i > 0 {
            assert!(grouped.section(i - 1).category() < section.category());
        }
        let records = section.records();
        for k in 0..records.len() {
            assert_eq!(&records[k].category, section.category());
            if k > 0 {
                assert!(records[k - 1].title <= records[k].title);
                if records[k - 1].title == records[k].title {
                    let a: usize = records[k - 1].rating.parse().unwrap();
                    let b: usize = records[k].rating.parse().unwrap();
                    assert!(a < b);
                }
            }
            assert!(catalog.contains(&records[k]));
        }
        filed += records.len();
    }
    assert_eq!(filed, catalog.len());
}

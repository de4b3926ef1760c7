use catalog_report::loader::{catalog_from_rows, load, Column, ParseError};
use catalog_report::record::Record;

fn row(fields: &[&str]) -> Vec<String> {
    fields.iter().map(|f| f.to_string()).collect()
}

const HEADER: &str = "title,category,rating,actors,aspect,format\n";

#[test]
fn load_reads_rows_in_input_order() {
    let text = format!(
        "{}Alien,Horror,R,Sigourney Weaver,2.35:1,DVD\nBambi,Drama,G,Donnie Dunagan,1.37:1,VHS\n",
        HEADER
    );
    let catalog = load(text.as_bytes()).unwrap();
    assert_eq!(
        catalog,
        vec![
            Record::new("Alien", "Horror", "R", "Sigourney Weaver", "2.35:1", "DVD"),
            Record::new("Bambi", "Drama", "G", "Donnie Dunagan", "1.37:1", "VHS"),
        ]
    );
}

#[test]
fn load_matches_columns_by_name_and_ignores_others() {
    let text = "format,year,title,actors,rating,aspect,category\n\
                DVD,1979,Alien,Sigourney Weaver,R,2.35:1,Horror\n";
    let catalog = load(text.as_bytes()).unwrap();
    assert_eq!(
        catalog,
        vec![Record::new("Alien", "Horror", "R", "Sigourney Weaver", "2.35:1", "DVD")]
    );
}

#[test]
fn load_splits_quoted_fields_as_csv_does() {
    let text = format!(
        "{}\"Good, the Bad and the Ugly, The\",Western,R,\"Clint \"\"Blondie\"\" Eastwood\",2.35:1,DVD\n",
        HEADER
    );
    let catalog = load(text.as_bytes()).unwrap();
    assert_eq!(catalog.len(), 1);
    assert_eq!(catalog[0].title, "Good, the Bad and the Ugly, The");
    assert_eq!(catalog[0].actors, "Clint \"Blondie\" Eastwood");
    assert_eq!(catalog[0].category, "Western");
}

#[test]
fn load_accepts_a_header_without_rows() {
    assert_eq!(load(HEADER.as_bytes()), Ok(vec![]));
}

#[test]
fn load_keeps_empty_values() {
    let text = format!("{}Alien,Horror,,,,\n", HEADER);
    assert_eq!(
        load(text.as_bytes()),
        Ok(vec![Record::new("Alien", "Horror", "", "", "", "")])
    );
}

#[test]
fn load_of_empty_input_has_no_header() {
    assert_eq!(load(b""), Err(ParseError::MissingHeader));
}

#[test]
fn load_fails_when_header_lacks_title() {
    let text = "category,rating,actors,aspect,format\nHorror,R,Sigourney Weaver,2.35:1,DVD\n";
    assert_eq!(
        load(text.as_bytes()),
        Err(ParseError::MissingColumn { column: Column::Title })
    );
}

#[test]
fn load_fails_when_header_lacks_category() {
    let text = "title,rating,actors,aspect,format\n";
    assert_eq!(
        load(text.as_bytes()),
        Err(ParseError::MissingColumn { column: Column::Category })
    );
}

#[test]
fn load_fails_when_header_lacks_rating() {
    let text = "title,category,actors,aspect,format\n";
    assert_eq!(
        load(text.as_bytes()),
        Err(ParseError::MissingColumn { column: Column::Rating })
    );
}

#[test]
fn load_fails_when_header_lacks_actors() {
    let text = "title,category,rating,aspect,format\n";
    assert_eq!(
        load(text.as_bytes()),
        Err(ParseError::MissingColumn { column: Column::Actors })
    );
}

#[test]
fn load_fails_when_header_lacks_aspect() {
    let text = "title,category,rating,actors,format\n";
    assert_eq!(
        load(text.as_bytes()),
        Err(ParseError::MissingColumn { column: Column::Aspect })
    );
}

#[test]
fn load_fails_when_header_lacks_format() {
    let text = "title,category,rating,actors,aspect\n";
    assert_eq!(
        load(text.as_bytes()),
        Err(ParseError::MissingColumn { column: Column::Format })
    );
}

#[test]
fn load_reports_the_first_missing_column_in_fixed_order() {
    let text = "format,aspect,title\n";
    assert_eq!(
        load(text.as_bytes()),
        Err(ParseError::MissingColumn { column: Column::Category })
    );
}

#[test]
fn load_matches_header_names_exactly() {
    let text = "Title,category,rating,actors,aspect,format\n";
    assert_eq!(
        load(text.as_bytes()),
        Err(ParseError::MissingColumn { column: Column::Title })
    );
}

#[test]
fn load_fails_on_a_row_of_another_length() {
    let text = format!(
        "{}Alien,Horror,R,Sigourney Weaver,2.35:1,DVD\nBambi,Drama,G,Donnie Dunagan,1.37:1\n",
        HEADER
    );
    assert_eq!(
        load(text.as_bytes()),
        Err(ParseError::Undecodable {
            message: "CSV error: record 2 (line: 3, byte: 86): found record with 5 fields, \
                      but the previous record has 6 fields"
                .to_string()
        })
    );
}

#[test]
fn load_fails_on_text_that_is_not_utf8() {
    let mut data = HEADER.as_bytes().to_vec();
    data.extend_from_slice(b"Alien,Horror,R,\xff\xfe,2.35:1,DVD\n");
    match load(&data) {
        Err(ParseError::Undecodable { message }) => {
            assert!(message.starts_with("CSV parse error: record 1 "));
            assert!(message.contains("invalid utf-8"));
        }
        other => panic!("unexpected outcome: {:?}", other),
    }
}

#[test]
fn load_fails_on_a_row_under_a_repeated_column() {
    let text = "title,category,rating,actors,aspect,format,rating\n\
                Alien,Horror,R,Sigourney Weaver,2.35:1,DVD,PG\n";
    assert_eq!(
        load(text.as_bytes()),
        Err(ParseError::DuplicateField { row: 1, column: Column::Rating })
    );
}

#[test]
fn load_accepts_a_repeated_column_without_rows() {
    let text = "title,category,rating,actors,aspect,format,rating\n";
    assert_eq!(load(text.as_bytes()), Ok(vec![]));
}

#[test]
fn rows_without_header_give_no_catalog() {
    assert_eq!(catalog_from_rows(&vec![]), Err(ParseError::MissingHeader));
}

#[test]
fn rows_decode_by_header_position() {
    let rows = vec![
        row(&["category", "title", "rating", "actors", "aspect", "format"]),
        row(&["Comedy", "Zootopia", "PG", "Ginnifer Goodwin", "2.39:1", "Blu-ray"]),
        row(&["Drama", "Bambi", "G", "Donnie Dunagan", "1.37:1", "VHS"]),
    ];
    assert_eq!(
        catalog_from_rows(&rows),
        Ok(vec![
            Record::new("Zootopia", "Comedy", "PG", "Ginnifer Goodwin", "2.39:1", "Blu-ray"),
            Record::new("Bambi", "Drama", "G", "Donnie Dunagan", "1.37:1", "VHS"),
        ])
    );
}

#[test]
fn a_short_row_misses_its_field() {
    let rows = vec![
        row(&["title", "category", "rating", "actors", "aspect", "format"]),
        row(&["Alien", "Horror", "R", "Sigourney Weaver", "2.35:1", "DVD"]),
        row(&["Bambi", "Drama", "G", "Donnie Dunagan"]),
        row(&["Zootopia"]),
    ];
    assert_eq!(
        catalog_from_rows(&rows),
        Err(ParseError::MissingField { row: 2, column: Column::Aspect })
    );
}

#[test]
fn a_short_row_is_fine_when_only_ignored_columns_are_cut() {
    let rows = vec![
        row(&["title", "category", "rating", "actors", "aspect", "format", "notes"]),
        row(&["Alien", "Horror", "R", "Sigourney Weaver", "2.35:1", "DVD"]),
    ];
    assert_eq!(
        catalog_from_rows(&rows),
        Ok(vec![Record::new("Alien", "Horror", "R", "Sigourney Weaver", "2.35:1", "DVD")])
    );
}

#[test]
fn the_first_repeated_column_in_fixed_order_is_reported() {
    let rows = vec![
        row(&["format", "title", "category", "rating", "actors", "aspect", "format", "title"]),
        row(&["DVD", "Alien", "Horror", "R", "Sigourney Weaver", "2.35:1", "VHS", "Aliens"]),
    ];
    assert_eq!(
        catalog_from_rows(&rows),
        Err(ParseError::DuplicateField { row: 1, column: Column::Title })
    );
}

#[test]
fn column_labels_are_the_header_names() {
    assert_eq!(Column::Title.label(), "title");
    assert_eq!(Column::Category.label(), "category");
    assert_eq!(Column::Rating.label(), "rating");
    assert_eq!(Column::Actors.label(), "actors");
    assert_eq!(Column::Aspect.label(), "aspect");
    assert_eq!(Column::Format.label(), "format");
}

#[test]
fn messages_name_what_went_wrong() {
    assert_eq!(ParseError::MissingHeader.message(), "the input has no header row");
    assert_eq!(
        ParseError::MissingColumn { column: Column::Aspect }.message(),
        "the header row has no column `aspect`"
    );
    assert_eq!(
        ParseError::DuplicateField { row: 1, column: Column::Rating }.message(),
        "row 1: the header row names column `rating` more than once"
    );
    assert_eq!(
        ParseError::MissingField { row: 120, column: Column::Format }.message(),
        "row 120: no value for column `format`"
    );
    assert_eq!(
        ParseError::Undecodable { message: "CSV error".to_string() }.message(),
        "CSV error"
    );
}

use catalog_report::aggregator::group;
use catalog_report::record::Record;
use catalog_report::renderer::{escape, render, STYLE_SHEET, TITLE};
use horrorshow::Template;

const OPENING: &str = "<html><head><style>body{font-family:sans-serif;margin:2em}h1{text-align:center}h2{margin-top:1.5em}table{border-collapse:collapse;width:100%}th,td{border:1px solid #999;padding:4px 8px;text-align:left}th{background:#eee}</style><meta charset=\"UTF-8\"></head><body><h1 align=\"center\">The Goldberg's Video Collection</h1>";
const TABLE_HEAD: &str =
    "<tr><th>Title</th><th>Rating</th><th>Actors</th><th>Aspect</th><th>Format</th></tr>";

#[test]
fn empty_catalog_renders_heading_and_no_section() {
    let report = render(&group(vec![]));
    assert_eq!(report, format!("{}</body></html>", OPENING));
    assert!(report.contains("<h1 align=\"center\">The Goldberg's Video Collection</h1>"));
    assert!(!report.contains("<h2>"));
    assert!(!report.contains("<table>"));
}

#[test]
fn the_opening_embeds_style_sheet_and_title() {
    assert_eq!(
        OPENING,
        format!(
            "<html><head><style>{}</style><meta charset=\"UTF-8\"></head><body><h1 align=\"center\">{}</h1>",
            STYLE_SHEET, TITLE
        )
    );
}

#[test]
fn one_record_renders_one_section_with_one_row() {
    let report = render(&group(vec![Record::new(
        "Alien",
        "Horror",
        "R",
        "Sigourney Weaver",
        "2.35:1",
        "DVD",
    )]));
    assert_eq!(
        report,
        format!(
            "{}<h2>Category: Horror</h2><table>{}<tr><td>Alien</td><td>R</td><td>Sigourney Weaver</td><td>2.35:1</td><td>DVD</td></tr></table></body></html>",
            OPENING, TABLE_HEAD
        )
    );
}

#[test]
fn sections_and_rows_follow_the_grouped_order() {
    let report = render(&group(vec![
        Record::new("Up", "Family", "PG", "a", "b", "c"),
        Record::new("Alien", "Horror", "R", "d", "e", "f"),
        Record::new("Bambi", "Family", "G", "g", "h", "i"),
    ]));
    assert_eq!(
        report,
        format!(
            "{o}<h2>Category: Family</h2><table>{h}<tr><td>Bambi</td><td>G</td><td>g</td><td>h</td><td>i</td></tr><tr><td>Up</td><td>PG</td><td>a</td><td>b</td><td>c</td></tr></table><h2>Category: Horror</h2><table>{h}<tr><td>Alien</td><td>R</td><td>d</td><td>e</td><td>f</td></tr></table></body></html>",
            o = OPENING,
            h = TABLE_HEAD
        )
    );
}

#[test]
fn rows_of_equal_titles_keep_their_input_order() {
    let report = render(&group(vec![
        Record::new("Aliens", "Horror", "A", "", "", ""),
        Record::new("Aliens", "Horror", "B", "", "", ""),
    ]));
    let a = report.find("<td>A</td>").unwrap();
    let b = report.find("<td>B</td>").unwrap();
    assert!(a < b);
    assert_eq!(report.matches("<td>Aliens</td>").count(), 2);
}

#[test]
fn values_are_escaped() {
    let report = render(&group(vec![Record::new(
        "Fast & Furious",
        "<Action>",
        "\"R\"",
        "a<b>c",
        "1 > 0",
        "<script>alert(1)</script>",
    )]));
    assert!(report.contains("<h2>Category: &lt;Action&gt;</h2>"));
    assert!(report.contains(
        "<tr><td>Fast &amp; Furious</td><td>&quot;R&quot;</td><td>a&lt;b&gt;c</td><td>1 &gt; 0</td><td>&lt;script&gt;alert(1)&lt;/script&gt;</td></tr>"
    ));
    assert!(!report.contains("<script>"));
    assert!(!report.contains("Fast & Furious"));
}

#[test]
fn escape_replaces_the_four_characters() {
    assert_eq!(escape(""), "");
    assert_eq!(escape("plain text, 100%"), "plain text, 100%");
    assert_eq!(escape("&"), "&amp;");
    assert_eq!(escape("<"), "&lt;");
    assert_eq!(escape(">"), "&gt;");
    assert_eq!(escape("\""), "&quot;");
    assert_eq!(escape("it's"), "it's");
    assert_eq!(escape("&amp;"), "&amp;amp;");
    assert_eq!(escape("a<b & \"c\">d"), "a&lt;b &amp; &quot;c&quot;&gt;d");
    assert_eq!(escape("caf\u{e9} <\u{1f3ac}>"), "caf\u{e9} &lt;\u{1f3ac}&gt;");
}

#[test]
fn escape_agrees_with_horrorshow() {
    let samples = [
        "",
        "Alien",
        "Fast & Furious",
        "<b>bold</b>",
        "say \"hi\"",
        "it's > that & < this",
        "&&<<>>\"\"''",
        "caf\u{e9} \u{1f3ac} & more",
    ];
    for sample in samples {
        assert_eq!(escape(sample), Template::into_string(sample).unwrap());
    }
}

#[test]
fn rendering_twice_gives_the_same_report() {
    let catalog = vec![
        Record::new("Up", "Family", "PG", "a", "b", "c"),
        Record::new("Alien", "Horror", "R", "d", "e", "f"),
    ];
    let first = render(&group(catalog.clone()));
    let second = render(&group(catalog));
    assert_eq!(first, second);
    let grouped = group(vec![Record::new("Up", "Family", "PG", "a", "b", "c")]);
    assert_eq!(render(&grouped), render(&grouped));
}

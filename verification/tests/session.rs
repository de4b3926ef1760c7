use catalog_report::loader::{Column, ParseError};
use catalog_report::pipeline::build_report;
use catalog_report::session::{local_path, Session};

const GOOD: &[u8] =
    b"title,category,rating,actors,aspect,format\nAlien,Horror,R,Sigourney Weaver,2.35:1,DVD\n";
const BAD: &[u8] = b"title,category,rating,actors,aspect\nAlien,Horror,R,Sigourney Weaver,2.35:1\n";

#[test]
fn build_report_runs_the_whole_pass() {
    let report = build_report(GOOD).unwrap();
    assert!(report.starts_with("<html><head><style>"));
    assert!(report.ends_with(
        "<h2>Category: Horror</h2><table><tr><th>Title</th><th>Rating</th><th>Actors</th><th>Aspect</th><th>Format</th></tr><tr><td>Alien</td><td>R</td><td>Sigourney Weaver</td><td>2.35:1</td><td>DVD</td></tr></table></body></html>"
    ));
}

#[test]
fn build_report_gives_no_report_for_a_bad_input() {
    assert_eq!(
        build_report(BAD),
        Err(ParseError::MissingColumn { column: Column::Format })
    );
}

#[test]
fn a_new_session_is_empty() {
    let session = Session::new();
    assert_eq!(session.report(), "");
    assert!(!session.has_error());
    assert_eq!(session.error_message(), "");
    let session = Session::default();
    assert_eq!(session.report(), "");
    assert!(!session.has_error());
    assert_eq!(session.error_message(), "");
}

#[test]
fn opening_a_good_source_keeps_its_report() {
    let mut session = Session::new();
    assert!(session.open(GOOD));
    assert_eq!(session.report(), &build_report(GOOD).unwrap());
    assert!(!session.has_error());
    assert_eq!(session.error_message(), "");
}

#[test]
fn opening_a_bad_source_raises_the_error() {
    let mut session = Session::new();
    assert!(!session.open(BAD));
    assert!(session.has_error());
    assert_eq!(session.error_message(), "the header row has no column `format`");
    assert_eq!(session.report(), "");
}

#[test]
fn a_failure_leaves_the_report_and_a_success_leaves_the_error() {
    let mut session = Session::new();
    assert!(session.open(GOOD));
    let report = session.report().clone();
    assert!(!session.open(b""));
    assert_eq!(session.report(), &report);
    assert!(session.has_error());
    assert_eq!(session.error_message(), "the input has no header row");
    assert!(session.open(GOOD));
    assert!(session.has_error());
    assert_eq!(session.error_message(), "the input has no header row");
}

#[test]
fn an_unreadable_source_is_recorded() {
    let mut session = Session::new();
    assert!(!session.open_failed("No such file or directory (os error 2)"));
    assert!(session.has_error());
    assert_eq!(session.error_message(), "No such file or directory (os error 2)");
    assert_eq!(session.report(), "");
}

#[test]
fn local_path_strips_the_file_scheme() {
    assert_eq!(local_path("file:///home/me/movies.csv"), "/home/me/movies.csv");
    assert_eq!(local_path("file://"), "");
    assert_eq!(local_path("/home/me/movies.csv"), "/home/me/movies.csv");
    assert_eq!(local_path("movies.csv"), "movies.csv");
    assert_eq!(local_path("file:/x"), "file:/x");
    assert_eq!(local_path(""), "");
    assert_eq!(local_path("FILE:///x"), "FILE:///x");
    assert_eq!(local_path("file:///vid\u{e9}os/\u{1f3ac}.csv"), "/vid\u{e9}os/\u{1f3ac}.csv");
}

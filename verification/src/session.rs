//! The state that an interactive front end shows and the commands that
//! change it.

use crate::loader::{csv_rows, message_text};
use crate::pipeline::{build_report, report_of};
use crate::text::same_text;
use vstd::prelude::*;
use vstd::string::StrSliceExecFns;

verus! {

/// What a front end holds between commands: the report that was last opened,
/// and the error flag and message of the last failure.
pub struct Session {
    report: String,
    has_error: bool,
    error_message: String,
}

/// The model of a [`Session`].
pub struct SessionView {
    pub report: Seq<char>,
    pub has_error: bool,
    pub error_message: Seq<char>,
}

impl View for Session {
    type V = SessionView;

    closed spec fn view(&self) -> SessionView {
        SessionView {
            report: self.report@,
            has_error: self.has_error,
            error_message: self.error_message@,
        }
    }
}

/// The state after an attempt to open a source. A report that was built
/// replaces the one held and leaves the error state alone. A failure raises
/// the error flag and sets the message, and leaves the report alone.
pub open spec fn after_open(before: SessionView, outcome: Result<Seq<char>, Seq<char>>)
    -> SessionView {
    match outcome {
        Ok(report) => SessionView { report, ..before },
        Err(message) => SessionView { has_error: true, error_message: message, ..before },
    }
}

/// The path that a location names: what follows `file://` where the location
/// begins with it, and the location itself where it does not.
pub open spec fn path_of(location: Seq<char>) -> Seq<char> {
    if location.len() >= 7 && location.subrange(0, 7) == "file://"@ {
        location.subrange(7, location.len() as int)
    } else {
        location
    }
}

/// Strips the `file://` scheme from a location that a file dialog hands out.
pub fn local_path(location: &str) -> (path: &str)
    ensures
        path@ == path_of(location@),
{
    let n = location.unicode_len();
    if n >= 7 && same_text(location.substring_char(0, 7), "file://") {
        location.substring_char(7, n)
    } else {
        location
    }
}

impl Default for Session {
    /// A session with no report and no error.
    fn default() -> (session: Session)
        ensures
            session@ == (SessionView {
                report: Seq::empty(),
                has_error: false,
                error_message: Seq::empty(),
            }),
    {
        Session::new()
    }
}

impl Session {
    /// A session with no report and no error.
    pub fn new() -> (session: Session)
        ensures
            session@ == (SessionView {
                report: Seq::empty(),
                has_error: false,
                error_message: Seq::empty(),
            }),
    {
        Session { report: String::new(), has_error: false, error_message: String::new() }
    }

    /// Opens a source that was read into memory: builds its report and keeps
    /// it. Returns whether a report was built; where none was, the error flag
    /// is raised and the message says why.
    pub fn open(&mut self, data: &[u8]) -> (opened: bool)
        ensures
            opened == (report_of(csv_rows(data@)) is Ok),
            final(self)@ == after_open(
                old(self)@,
                match report_of(csv_rows(data@)) {
                    Ok(report) => Ok(report),
                    Err(error) => Err(message_text(error)),
                },
            ),
    {
        match build_report(data) {
            Ok(report) => {
                self.report = report;
                true
            },
            Err(error) => {
                self.error_message = error.message();
                self.has_error = true;
                false
            },
        }
    }

    /// Records that a source could not be read at all. Raises the error flag,
    /// sets the message to `reason` and returns `false`, as a failed
    /// [`Session::open`] does.
    pub fn open_failed(&mut self, reason: &str) -> (opened: bool)
        ensures
            !opened,
            final(self)@ == after_open(old(self)@, Err(reason@)),
    {
        self.error_message = reason.to_owned();
        self.has_error = true;
        false
    }

    /// The report that was last opened; empty before the first.
    pub fn report(&self) -> (report: &String)
        ensures
            report@ == self@.report,
    {
        &self.report
    }

    /// Whether an attempt to open a source has failed.
    pub fn has_error(&self) -> (flag: bool)
        ensures
            flag == self@.has_error,
    {
        self.has_error
    }

    /// The message of the last failure; empty before the first.
    pub fn error_message(&self) -> (message: &String)
        ensures
            message@ == self@.error_message,
    {
        &self.error_message
    }
}

} // verus!

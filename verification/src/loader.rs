//! Decoding tabular text into a catalog.

use crate::record::{records_view, Record, RecordView};
use crate::text::{append_decimal, decimal, same_text};
use vstd::prelude::*;
use vstd::string::StringExecFns;

verus! {

/// The six columns that every input must provide, in their fixed order.
#[derive(Clone, Copy, Debug, PartialEq, Eq, Structural)]
pub enum Column {
    Title,
    Category,
    Rating,
    Actors,
    Aspect,
    Format,
}

impl Column {
    /// The name by which a header row refers to the column.
    pub open spec fn name(self) -> Seq<char> {
        match self {
            Column::Title => "title"@,
            Column::Category => "category"@,
            Column::Rating => "rating"@,
            Column::Actors => "actors"@,
            Column::Aspect => "aspect"@,
            Column::Format => "format"@,
        }
    }

    /// The name by which a header row refers to the column.
    pub fn label(self) -> (label: &'static str)
        ensures
            label@ == self.name(),
    {
        match self {
            Column::Title => "title",
            Column::Category => "category",
            Column::Rating => "rating",
            Column::Actors => "actors",
            Column::Aspect => "aspect",
            Column::Format => "format",
        }
    }
}

/// Why an input could not be turned into a catalog.
#[derive(Clone, Debug, PartialEq, Eq)]
pub enum ParseError {
    /// The input is not well-formed tabular text. `message` is the reader's
    /// diagnostic, which names the offending record.
    Undecodable { message: String },
    /// The input holds no header row.
    MissingHeader,
    /// The header row does not name a required column.
    MissingColumn { column: Column },
    /// The header row names a required column more than once, so a row gives
    /// it two values. `row` counts data rows from 1.
    DuplicateField { row: usize, column: Column },
    /// A row ends before the position of a required column. `row` counts data
    /// rows from 1.
    MissingField { row: usize, column: Column },
}

/// The model of a [`ParseError`].
pub enum ParseErrorView {
    Undecodable { message: Seq<char> },
    MissingHeader,
    MissingColumn { column: Column },
    DuplicateField { row: nat, column: Column },
    MissingField { row: nat, column: Column },
}

impl View for ParseError {
    type V = ParseErrorView;

    open spec fn view(&self) -> ParseErrorView {
        match *self {
            ParseError::Undecodable { message } => ParseErrorView::Undecodable {
                message: message@,
            },
            ParseError::MissingHeader => ParseErrorView::MissingHeader,
            ParseError::MissingColumn { column } => ParseErrorView::MissingColumn { column },
            ParseError::DuplicateField { row, column } => ParseErrorView::DuplicateField {
                row: row as nat,
                column,
            },
            ParseError::MissingField { row, column } => ParseErrorView::MissingField {
                row: row as nat,
                column,
            },
        }
    }
}

/// The text by which an error is reported to a reader.
pub open spec fn message_text(error: ParseErrorView) -> Seq<char> {
    match error {
        ParseErrorView::Undecodable { message } => message,
        ParseErrorView::MissingHeader => "the input has no header row"@,
        ParseErrorView::MissingColumn { column } => "the header row has no column `"@
            + column.name() + "`"@,
        ParseErrorView::DuplicateField { row, column } => "row "@ + decimal(row)
            + ": the header row names column `"@ + column.name() + "` more than once"@,
        ParseErrorView::MissingField { row, column } => "row "@ + decimal(row)
            + ": no value for column `"@ + column.name() + "`"@,
    }
}

impl ParseError {
    /// The text by which the error is reported to a reader. It names the row
    /// where the error belongs to one.
    pub fn message(&self) -> (text: String)
        ensures
            text@ == message_text(self@),
    {
        match self {
            ParseError::Undecodable { message } => message.clone(),
            ParseError::MissingHeader => String::from_str("the input has no header row"),
            ParseError::MissingColumn { column } => {
                let mut text = String::from_str("the header row has no column `");
                text.append(column.label());
                text.append("`");
                text
            },
            ParseError::DuplicateField { row, column } => {
                let mut text = String::from_str("row ");
                append_decimal(&mut text, *row);
                text.append(": the header row names column `");
                text.append(column.label());
                text.append("` more than once");
                text
            },
            ParseError::MissingField { row, column } => {
                let mut text = String::from_str("row ");
                append_decimal(&mut text, *row);
                text.append(": no value for column `");
                text.append(column.label());
                text.append("`");
                text
            },
        }
    }
}

/// The model of what loading returns: a catalog or the reason there is none.
pub open spec fn outcome_view(outcome: Result<Vec<Record>, ParseError>) -> Result<
    Seq<RecordView>,
    ParseErrorView,
> {
    match outcome {
        Ok(catalog) => Ok(records_view(catalog@)),
        Err(error) => Err(error@),
    }
}

/// The first column, in the fixed order, of which `holds` is true.
pub open spec fn first_column(holds: spec_fn(Column) -> bool) -> Option<Column> {
    if holds(Column::Title) {
        Some(Column::Title)
    } else if holds(Column::Category) {
        Some(Column::Category)
    } else if holds(Column::Rating) {
        Some(Column::Rating)
    } else if holds(Column::Actors) {
        Some(Column::Actors)
    } else if holds(Column::Aspect) {
        Some(Column::Aspect)
    } else if holds(Column::Format) {
        Some(Column::Format)
    } else {
        None
    }
}

/// `name` stands at position `i` of `header` and nowhere before it.
pub open spec fn is_first_at(header: Seq<Seq<char>>, name: Seq<char>, i: int) -> bool {
    &&& 0 <= i < header.len()
    &&& header[i] == name
    &&& forall|j: int| 0 <= j < i ==> header[j] != name
}

/// The position at which `header` first holds `name`.
pub open spec fn position(header: Seq<Seq<char>>, name: Seq<char>) -> int {
    choose|i: int| is_first_at(header, name, i)
}

/// `header` holds `name` at two positions or more.
pub open spec fn repeats(header: Seq<Seq<char>>, name: Seq<char>) -> bool {
    exists|i: int, j: int| 0 <= i < j < header.len() && header[i] == name && header[j] == name
}

/// What one data row decodes to under `header`. Columns are matched by exact
/// name, and columns that the header names besides the required six are
/// ignored. `number` counts data rows from 1.
pub open spec fn row_outcome(header: Seq<Seq<char>>, row: Seq<Seq<char>>, number: nat) -> Result<
    RecordView,
    ParseErrorView,
> {
    match first_column(|c: Column| repeats(header, c.name())) {
        Some(column) => Err(ParseErrorView::DuplicateField { row: number, column }),
        None => match first_column(|c: Column| position(header, c.name()) >= row.len()) {
            Some(column) => Err(ParseErrorView::MissingField { row: number, column }),
            None => Ok(
                RecordView {
                    title: row[position(header, Column::Title.name())],
                    category: row[position(header, Column::Category.name())],
                    rating: row[position(header, Column::Rating.name())],
                    actors: row[position(header, Column::Actors.name())],
                    aspect: row[position(header, Column::Aspect.name())],
                    format: row[position(header, Column::Format.name())],
                },
            ),
        },
    }
}

/// What the data rows `rows` decode to under `header`: the records in row
/// order, or the error of the first row that does not decode.
pub open spec fn rows_outcome(header: Seq<Seq<char>>, rows: Seq<Seq<Seq<char>>>) -> Result<
    Seq<RecordView>,
    ParseErrorView,
>
    decreases rows.len(),
{
    if rows.len() == 0 {
        Ok(Seq::empty())
    } else {
        match rows_outcome(header, rows.drop_last()) {
            Err(error) => Err(error),
            Ok(records) => match row_outcome(header, rows.last(), rows.len()) {
                Err(error) => Err(error),
                Ok(record) => Ok(records.push(record)),
            },
        }
    }
}

/// The catalog that a table stands for. The first row is the header; every
/// later row is one record. A table without a header row, or whose header
/// lacks one of the six required columns, stands for none, and neither does
/// one with a row that does not decode.
pub open spec fn catalog_of(rows: Seq<Seq<Seq<char>>>) -> Result<Seq<RecordView>, ParseErrorView> {
    if rows.len() == 0 {
        Err(ParseErrorView::MissingHeader)
    } else {
        match first_column(|c: Column| !rows[0].contains(c.name())) {
            Some(column) => Err(ParseErrorView::MissingColumn { column }),
            None => rows_outcome(rows[0], rows.drop_first()),
        }
    }
}


/// Where a header first names a column, and whether it names it again.
#[derive(Clone, Copy)]
struct Placement {
    at: usize,
    again: bool,
}

/// Looks a column up in a header row.
fn locate(header: &Vec<String>, column: Column) -> (found: Option<Placement>)
    ensures
        found is None <==> !header.deep_view().contains(column.name()),
        found matches Some(place) ==> {
            &&& is_first_at(header.deep_view(), column.name(), place.at as int)
            &&& place.at as int == position(header.deep_view(), column.name())
            &&& place.again == repeats(header.deep_view(), column.name())
        },
{
    let label = column.label();
    let ghost names = header.deep_view();
    let ghost name = column.name();
    let mut found: Option<Placement> = None;
    let mut i: usize = 0;
    while i < header.len()
        invariant
            i <= header.len(),
            names == header.deep_view(),
            name == column.name(),
            label@ == name,
            found is None <==> forall|j: int| 0 <= j < i ==> names[j] != name,
            found matches Some(place) ==> {
                &&& place.at < i
                &&& is_first_at(names, name, place.at as int)
                &&& place.again <==> exists|j: int| place.at < j < i && names[j] == name
            },
        decreases header.len() - i,
    {
        assert(names[i as int] == header[i as int]@);
        if same_text(header[i].as_str(), label) {
            found =
            match found {
                None => Some(Placement { at: i, again: false }),
                Some(place) => Some(Placement { at: place.at, again: true }),
            };
        }
        i += 1;
    }
    proof {
        match found {
            None => {
                assert(!names.contains(name));
            },
            Some(place) => {
                assert(names.contains(name));
                assert(place.at as int == position(names, name));
                if place.again {
                    let j = choose|j: int| place.at < j < header.len() && names[j] == name;
                    assert(0 <= (place.at as int) < j < names.len() && names[place.at as int]
                        == name && names[j] == name);
                }
                if repeats(names, name) {
                    let (a, b) = choose|a: int, b: int|
                        0 <= a < b < names.len() && names[a] == name && names[b] == name;
                    assert(place.at <= a);
                    assert(place.at < b < header.len() && names[b] == name);
                }
            },
        }
    }
    found
}

/// The positions of the six columns in a header row that names them all, and
/// the first column that the header names twice, if there is one.
struct Layout {
    title: usize,
    category: usize,
    rating: usize,
    actors: usize,
    aspect: usize,
    format: usize,
    repeated: Option<Column>,
}

impl Layout {
    /// The layout is the one that `header` gives.
    spec fn reads(&self, header: Seq<Seq<char>>) -> bool {
        &&& self.title as int == position(header, Column::Title.name())
        &&& self.category as int == position(header, Column::Category.name())
        &&& self.rating as int == position(header, Column::Rating.name())
        &&& self.actors as int == position(header, Column::Actors.name())
        &&& self.aspect as int == position(header, Column::Aspect.name())
        &&& self.format as int == position(header, Column::Format.name())
        &&& self.repeated == first_column(|c: Column| repeats(header, c.name()))
    }
}

/// Reads the layout of a table off its header row.
fn read_header(header: &Vec<String>) -> (outcome: Result<Layout, Column>)
    ensures
        match outcome {
            Ok(layout) => first_column(|c: Column| !header.deep_view().contains(c.name()))
                is None && layout.reads(header.deep_view()),
            Err(column) => first_column(|c: Column| !header.deep_view().contains(c.name()))
                == Some(column),
        },
{
    let title = match locate(header, Column::Title) {
        Some(place) => place,
        None => {
            return Err(Column::Title);
        },
    };
    let category = match locate(header, Column::Category) {
        Some(place) => place,
        None => {
            return Err(Column::Category);
        },
    };
    let rating = match locate(header, Column::Rating) {
        Some(place) => place,
        None => {
            return Err(Column::Rating);
        },
    };
    let actors = match locate(header, Column::Actors) {
        Some(place) => place,
        None => {
            return Err(Column::Actors);
        },
    };
    let aspect = match locate(header, Column::Aspect) {
        Some(place) => place,
        None => {
            return Err(Column::Aspect);
        },
    };
    let format = match locate(header, Column::Format) {
        Some(place) => place,
        None => {
            return Err(Column::Format);
        },
    };
    let repeated = if title.again {
        Some(Column::Title)
    } else if category.again {
        Some(Column::Category)
    } else if rating.again {
        Some(Column::Rating)
    } else if actors.again {
        Some(Column::Actors)
    } else if aspect.again {
        Some(Column::Aspect)
    } else if format.again {
        Some(Column::Format)
    } else {
        None
    };
    Ok(
        Layout {
            title: title.at,
            category: category.at,
            rating: rating.at,
            actors: actors.at,
            aspect: aspect.at,
            format: format.at,
            repeated,
        },
    )
}

/// Decodes one data row under a layout.
fn read_row(layout: &Layout, row: &Vec<String>, number: usize, Ghost(header): Ghost<
    Seq<Seq<char>>,
>) -> (outcome: Result<Record, ParseError>)
    requires
        layout.reads(header),
    ensures
        match outcome {
            Ok(record) => row_outcome(header, row.deep_view(), number as nat) == Ok::<
                RecordView,
                ParseErrorView,
            >(record@),
            Err(error) => row_outcome(header, row.deep_view(), number as nat) == Err::<
                RecordView,
                ParseErrorView,
            >(error@),
        },
{
    if let Some(column) = layout.repeated {
        return Err(ParseError::DuplicateField { row: number, column });
    }
    let width = row.len();
    if layout.title >= width {
        return Err(ParseError::MissingField { row: number, column: Column::Title });
    }
    if layout.category >= width {
        return Err(ParseError::MissingField { row: number, column: Column::Category });
    }
    if layout.rating >= width {
        return Err(ParseError::MissingField { row: number, column: Column::Rating });
    }
    if layout.actors >= width {
        return Err(ParseError::MissingField { row: number, column: Column::Actors });
    }
    if layout.aspect >= width {
        return Err(ParseError::MissingField { row: number, column: Column::Aspect });
    }
    if layout.format >= width {
        return Err(ParseError::MissingField { row: number, column: Column::Format });
    }
    Ok(
        Record {
            title: row[layout.title].clone(),
            category: row[layout.category].clone(),
            rating: row[layout.rating].clone(),
            actors: row[layout.actors].clone(),
            aspect: row[layout.aspect].clone(),
            format: row[layout.format].clone(),
        },
    )
}

/// Turns a table, given row by row and field by field, into a catalog.
///
/// The first row is the header. It must name each of `title`, `category`,
/// `rating`, `actors`, `aspect` and `format`; what else it names is ignored.
/// Every later row becomes one record, in row order. The first row that does
/// not decode ends the load with its error, and no catalog is returned.
pub fn catalog_from_rows(rows: &Vec<Vec<String>>) -> (outcome: Result<Vec<Record>, ParseError>)
    ensures
        outcome_view(outcome) == catalog_of(rows.deep_view()),
{
    let ghost table = rows.deep_view();
    if rows.len() == 0 {
        return Err(ParseError::MissingHeader);
    }
    assert(table[0] == rows[0].deep_view());
    let layout = match read_header(&rows[0]) {
        Ok(layout) => layout,
        Err(column) => {
            return Err(ParseError::MissingColumn { column });
        },
    };
    let ghost header = table[0];
    let ghost body = table.drop_first();
    let mut catalog: Vec<Record> = Vec::new();
    let mut k: usize = 1;
    proof {
        assert(body.take(0) =~= Seq::<Seq<Seq<char>>>::empty());
        assert(records_view(catalog@) =~= Seq::<RecordView>::empty());
    }
    while k < rows.len()
        invariant
            1 <= k <= rows.len(),
            table == rows.deep_view(),
            header == table[0],
            body == table.drop_first(),
            catalog_of(table) == rows_outcome(header, body),
            layout.reads(header),
            rows_outcome(header, body.take(k - 1)) == Ok::<Seq<RecordView>, ParseErrorView>(
                records_view(catalog@),
            ),
        decreases rows.len() - k,
    {
        proof {
            assert(body.take(k as int).drop_last() =~= body.take(k - 1));
            assert(body.take(k as int).last() == rows[k as int].deep_view());
        }
        match read_row(&layout, &rows[k], k, Ghost(header)) {
            Ok(record) => {
                proof {
                    assert(records_view(catalog@.push(record)) =~= records_view(catalog@).push(
                        record@,
                    ));
                }
                catalog.push(record);
            },
            Err(error) => {
                proof {
                    assert(rows_outcome(header, body.take(k as int)) == Err::<
                        Seq<RecordView>,
                        ParseErrorView,
                    >(error@));
                    lemma_error_stays(header, body, k as int);
                }
                return Err(error);
            },
        }
        k += 1;
    }
    proof {
        assert(body.take(k - 1) =~= body);
    }
    Ok(catalog)
}

/// Once the first `k` data rows fail to decode, so does every longer run of
/// them, with the same error.
proof fn lemma_error_stays(header: Seq<Seq<char>>, rows: Seq<Seq<Seq<char>>>, k: int)
    requires
        0 <= k <= rows.len(),
        rows_outcome(header, rows.take(k)) is Err,
    ensures
        rows_outcome(header, rows) == rows_outcome(header, rows.take(k)),
    decreases rows.len() - k,
{
    if k < rows.len() {
        assert(rows.take(k + 1).drop_last() =~= rows.take(k));
        lemma_error_stays(header, rows, k + 1);
    } else {
        assert(rows.take(k) =~= rows);
    }
}

/// What the `csv` crate's reader makes of `data` when it is set to hand out
/// the header row like any other record: the records in order, each as the
/// texts of its fields, or the text of the error that ended the reading.
pub uninterp spec fn csv_rows(data: Seq<u8>) -> Result<Seq<Seq<Seq<char>>>, Seq<char>>;

/// Reads `data` with `csv::Reader`, built by `csv::ReaderBuilder` with
/// `has_headers(false)` and otherwise default settings, through
/// `into_records`. The contract only gives the outcome its name,
/// [`csv_rows`]: the records up to the end of the input, or the `Display` text
/// of the first `csv::Error`. Reading from memory, the crate fails on a record
/// whose number of fields differs from the first record's and on a field that
/// is not UTF-8.
#[verifier::external_body]
fn read_rows(data: &[u8]) -> (outcome: Result<Vec<Vec<String>>, String>)
    ensures
        match outcome {
            Ok(rows) => csv_rows(data@) == Ok::<Seq<Seq<Seq<char>>>, Seq<char>>(rows.deep_view()),
            Err(message) => csv_rows(data@) == Err::<Seq<Seq<Seq<char>>>, Seq<char>>(message@),
        },
{
    csv::ReaderBuilder::new()
        .has_headers(false)
        .from_reader(data)
        .into_records()
        .map(|record| match record {
            Ok(fields) => Ok(fields.iter().map(String::from).collect()),
            Err(error) => Err(error.to_string()),
        })
        .collect()
}

/// What loading makes of a reader's outcome: the catalog of the table that
/// was read, or the reader's failure passed on.
pub open spec fn loaded(table: Result<Seq<Seq<Seq<char>>>, Seq<char>>) -> Result<
    Seq<RecordView>,
    ParseErrorView,
> {
    match table {
        Ok(rows) => catalog_of(rows),
        Err(message) => Err(ParseErrorView::Undecodable { message }),
    }
}

/// Loads a catalog from comma-separated text.
///
/// The text is split into rows by the `csv` crate and the rows are decoded by
/// [`catalog_from_rows`]. The load is all or nothing: text that the reader
/// rejects, a missing header, a header without one of the six columns or a
/// single bad row gives an error and no catalog.
pub fn load(data: &[u8]) -> (outcome: Result<Vec<Record>, ParseError>)
    ensures
        outcome_view(outcome) == loaded(csv_rows(data@)),
{
    match read_rows(data) {
        Ok(rows) => catalog_from_rows(&rows),
        Err(message) => Err(ParseError::Undecodable { message }),
    }
}

/// A table whose header row lacks any of the six required columns loads as an
/// error and never as a catalog, whatever its rows hold.
pub proof fn header_must_name_every_column(rows: Seq<Seq<Seq<char>>>, column: Column)
    requires
        rows.len() > 0,
        !rows[0].contains(column.name()),
    ensures
        catalog_of(rows) matches Err(ParseErrorView::MissingColumn { .. }),
        loaded(Ok(rows)) matches Err(ParseErrorView::MissingColumn { .. }),
{
}

} // verus!

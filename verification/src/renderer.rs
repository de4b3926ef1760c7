//! Rendering a grouped catalog as a self-contained HTML document.

use crate::aggregator::{GroupedCatalog, Section};
use crate::grouping::SectionView;
use crate::record::{records_view, Record, RecordView};
use vstd::prelude::*;
use vstd::string::StringExecFns;

verus! {

/// The style sheet that every report embeds.
pub const STYLE_SHEET: &'static str =
    "body{font-family:sans-serif;margin:2em}h1{text-align:center}h2{margin-top:1.5em}table{border-collapse:collapse;width:100%}th,td{border:1px solid #999;padding:4px 8px;text-align:left}th{background:#eee}";

/// The heading that every report carries.
pub const TITLE: &'static str = "The Goldberg's Video Collection";

/// What stands for one character of a value in markup: the character itself,
/// or its entity where the character would be read as markup.
pub open spec fn escaped_char(c: char) -> Seq<char> {
    if c == '&' {
        "&amp;"@
    } else if c == '"' {
        "&quot;"@
    } else if c == '<' {
        "&lt;"@
    } else if c == '>' {
        "&gt;"@
    } else {
        seq![c]
    }
}

/// A value with each of its characters escaped for markup.
pub open spec fn escaped(text: Seq<char>) -> Seq<char>
    decreases text.len(),
{
    if text.len() == 0 {
        Seq::empty()
    } else {
        escaped(text.drop_last()) + escaped_char(text.last())
    }
}

/// One table cell holding a value.
pub open spec fn cell_markup(value: Seq<char>) -> Seq<char> {
    "<td>"@ + escaped(value) + "</td>"@
}

/// One table row for a record: title, rating, actors, aspect and format. The
/// category is the section's heading and is not repeated.
pub open spec fn row_markup(record: RecordView) -> Seq<char> {
    "<tr>"@ + cell_markup(record.title) + cell_markup(record.rating) + cell_markup(record.actors)
        + cell_markup(record.aspect) + cell_markup(record.format) + "</tr>"@
}

/// The rows of a sequence of records, one after the other.
pub open spec fn rows_markup(records: Seq<RecordView>) -> Seq<char>
    decreases records.len(),
{
    if records.len() == 0 {
        Seq::empty()
    } else {
        rows_markup(records.drop_last()) + row_markup(records.last())
    }
}

/// One section: a subheading that names the category, and a table with a
/// header row and one row per record.
pub open spec fn section_markup(section: SectionView) -> Seq<char> {
    "<h2>Category: "@ + escaped(section.category) + "</h2><table>"@
        + "<tr><th>Title</th><th>Rating</th><th>Actors</th><th>Aspect</th><th>Format</th></tr>"@
        + rows_markup(section.records) + "</table>"@
}

/// The sections of a grouped catalog, one after the other.
pub open spec fn sections_markup(sections: Seq<SectionView>) -> Seq<char>
    decreases sections.len(),
{
    if sections.len() == 0 {
        Seq::empty()
    } else {
        sections_markup(sections.drop_last()) + section_markup(sections.last())
    }
}

/// What every document begins with: the head, with the style sheet and the
/// declaration of the character encoding, and the heading.
pub open spec fn opening() -> Seq<char> {
    "<html><head><style>"@ + STYLE_SHEET@ + "</style><meta charset=\"UTF-8\"></head><body>"@
        + "<h1 align=\"center\">"@ + TITLE@ + "</h1>"@
}

/// What every document ends with.
pub open spec fn closing() -> Seq<char> {
    "</body></html>"@
}

/// The document for a grouped catalog.
pub open spec fn document(sections: Seq<SectionView>) -> Seq<char> {
    opening() + sections_markup(sections) + closing()
}

/// One of the four entities that escaping writes.
pub open spec fn is_entity(text: Seq<char>) -> bool {
    text == "&amp;"@ || text == "&quot;"@ || text == "&lt;"@ || text == "&gt;"@
}

/// An entity begins at position `i` of `text`.
pub open spec fn entity_at(text: Seq<char>, i: int) -> bool {
    exists|n: int| 0 < n && i + n <= text.len() && is_entity(#[trigger] text.subrange(i, i + n))
}

/// No character of `text` would be read as markup: none is `<`, `>` or `"`,
/// and every `&` begins an entity.
pub open spec fn inert(text: Seq<char>) -> bool {
    forall|i: int|
        0 <= i < text.len() ==> {
            let c = #[trigger] text[i];
            c != '<' && c != '>' && c != '"' && (c == '&' ==> entity_at(text, i))
        }
}

/// An escaped value is never read as markup, whatever the value holds.
pub proof fn escaped_is_inert(text: Seq<char>)
    ensures
        inert(escaped(text)),
    decreases text.len(),
{
    if text.len() > 0 {
        let front = escaped(text.drop_last());
        let piece = escaped_char(text.last());
        let whole = escaped(text);
        escaped_is_inert(text.drop_last());
        reveal_strlit("&amp;");
        reveal_strlit("&quot;");
        reveal_strlit("&lt;");
        reveal_strlit("&gt;");
        assert forall|i: int| 0 <= i < whole.len() implies {
            let c = #[trigger] whole[i];
            c != '<' && c != '>' && c != '"' && (c == '&' ==> entity_at(whole, i))
        } by {
            if i < front.len() {
                assert(whole[i] == front[i]);
                if front[i] == '&' {
                    let n = choose|n: int|
                        0 < n && i + n <= front.len() && is_entity(
                            #[trigger] front.subrange(i, i + n),
                        );
                    assert(whole.subrange(i, i + n) =~= front.subrange(i, i + n));
                }
            } else {
                assert(whole[i] == piece[i - front.len()]);
                if whole[i] == '&' {
                    assert(i == front.len());
                    assert(whole.subrange(i, i + piece.len()) =~= piece);
                }
            }
        }
    }
}

/// A table cell is its value escaped between the cell's tags, so what a value
/// holds never reaches the document as markup.
pub proof fn cell_holds_value_escaped(value: Seq<char>)
    ensures
        cell_markup(value) == "<td>"@ + escaped(value) + "</td>"@,
        inert(escaped(value)),
{
    escaped_is_inert(value);
}

/// Rendering depends on the grouped catalog alone: catalogs with the same
/// sections have the same document.
pub proof fn render_is_deterministic(a: GroupedCatalog, b: GroupedCatalog)
    requires
        a@ == b@,
    ensures
        document(a@) == document(b@),
{
}

/// The document of a catalog without sections is the opening, with the
/// heading, directly followed by the closing.
pub proof fn empty_document()
    ensures
        document(Seq::<SectionView>::empty()) == opening() + closing(),
{
    assert(opening() + sections_markup(Seq::<SectionView>::empty()) =~= opening());
}

/// Appends a value, escaped for markup.
fn append_escaped(out: &mut String, text: &str)
    ensures
        final(out)@ == old(out)@ + escaped(text@),
{
    let ghost before = out@;
    proof {
        assert(text@.take(0) =~= Seq::<char>::empty());
        assert(before + escaped(text@.take(0)) =~= before);
    }
    for c in it: text.chars()
        invariant
            it.seq() == text@,
            out@ == before + escaped(text@.take(it.index() as int)),
    {
        proof {
            let next = text@.take(it.index() + 1);
            assert(next.drop_last() =~= text@.take(it.index() as int));
            assert(next.last() == c);
            assert(before + escaped(next) =~= before + escaped(text@.take(it.index() as int))
                + escaped_char(c));
            assert(out@.push(c) =~= out@ + seq![c]);
        }
        if c == '&' {
            out.append("&amp;");
        } else if c == '"' {
            out.append("&quot;");
        } else if c == '<' {
            out.append("&lt;");
        } else if c == '>' {
            out.append("&gt;");
        } else {
            out.push(c);
        }
    }
    proof {
        assert(text@.take(text@.len() as int) =~= text@);
    }
}

/// Escapes a value for markup: `&`, `"`, `<` and `>` become entities, every
/// other character stays as it is.
pub fn escape(text: &str) -> (markup: String)
    ensures
        markup@ == escaped(text@),
{
    let mut out = String::new();
    append_escaped(&mut out, text);
    assert(out@ =~= escaped(text@));
    out
}

/// Appends one table cell.
fn append_cell(out: &mut String, value: &str)
    ensures
        final(out)@ == old(out)@ + cell_markup(value@),
{
    let ghost before = out@;
    out.append("<td>");
    append_escaped(out, value);
    out.append("</td>");
    assert(out@ =~= before + cell_markup(value@));
}

/// Appends the table row of one record.
fn append_row(out: &mut String, record: &Record)
    ensures
        final(out)@ == old(out)@ + row_markup(record@),
{
    let ghost before = out@;
    out.append("<tr>");
    append_cell(out, record.title.as_str());
    append_cell(out, record.rating.as_str());
    append_cell(out, record.actors.as_str());
    append_cell(out, record.aspect.as_str());
    append_cell(out, record.format.as_str());
    out.append("</tr>");
    assert(out@ =~= before + row_markup(record@));
}

/// Appends one section.
fn append_section(out: &mut String, section: &Section)
    ensures
        final(out)@ == old(out)@ + section_markup(section@),
{
    let ghost before = out@;
    out.append("<h2>Category: ");
    append_escaped(out, section.category().as_str());
    out.append("</h2><table>");
    out.append("<tr><th>Title</th><th>Rating</th><th>Actors</th><th>Aspect</th><th>Format</th></tr>");
    let records = section.records();
    let ghost head = out@;
    let ghost entries = records_view(records@);
    assert(entries.take(0) =~= Seq::<RecordView>::empty());
    let mut k: usize = 0;
    while k < records.len()
        invariant
            k <= records.len(),
            entries == records_view(records@),
            out@ == head + rows_markup(entries.take(k as int)),
        decreases records.len() - k,
    {
        proof {
            assert(entries.take(k + 1).drop_last() =~= entries.take(k as int));
            assert(entries.take(k + 1).last() == records[k as int]@);
        }
        append_row(out, &records[k]);
        k += 1;
        assert(out@ =~= head + rows_markup(entries.take(k as int)));
    }
    assert(entries.take(k as int) =~= entries);
    out.append("</table>");
    assert(out@ =~= before + section_markup(section@));
}

/// Renders a grouped catalog as a complete HTML document.
///
/// The document holds the head with the embedded style sheet, the heading,
/// and one section per category in the catalog's order, each with one table
/// row per record in the section's order. Every value taken from the catalog
/// is escaped. The result depends on the catalog alone.
pub fn render(grouped: &GroupedCatalog) -> (report: String)
    ensures
        report@ == document(grouped@),
{
    let mut out = String::new();
    out.append("<html><head><style>");
    out.append(STYLE_SHEET);
    out.append("</style><meta charset=\"UTF-8\"></head><body>");
    out.append("<h1 align=\"center\">");
    out.append(TITLE);
    out.append("</h1>");
    assert(out@ =~= opening());
    assert(grouped@.take(0) =~= Seq::<SectionView>::empty());
    let mut i: usize = 0;
    while i < grouped.len()
        invariant
            i <= grouped@.len(),
            out@ == opening() + sections_markup(grouped@.take(i as int)),
        decreases grouped@.len() - i,
    {
        proof {
            assert(grouped@.take(i + 1).drop_last() =~= grouped@.take(i as int));
            assert(grouped@.take(i + 1).last() == grouped@[i as int]);
        }
        append_section(&mut out, grouped.section(i));
        i += 1;
        assert(out@ =~= opening() + sections_markup(grouped@.take(i as int)));
    }
    assert(grouped@.take(i as int) =~= grouped@);
    out.append("</body></html>");
    out
}

} // verus!

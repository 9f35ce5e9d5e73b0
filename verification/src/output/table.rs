//! The line-count report as a table, with its summary lines.
use vstd::prelude::*;
use vstd::string::*;
use comfy_table::{Cell, Table};
use crate::code_loc::report::CodeLocReport;
use crate::code_loc::types::LocMetrics;
use crate::fmt::{dec, u64_str, usize_str};
use crate::text::split_on;
use super::timing::{elapsed_line, render_elapsed_line};

verus! {

#[verifier::external_type_specification]
#[verifier::external_body]
pub struct ExTable(comfy_table::Table);

#[verifier::external_type_specification]
#[verifier::external_body]
pub struct ExCell(comfy_table::Cell);

/// The lines a cell holds (`Cell::new` splits its text at `\n`).
pub uninterp spec fn cell_lines(c: Cell) -> Seq<Seq<char>>;

/// Whether a cell is set to right alignment.
pub uninterp spec fn cell_right_aligned(c: Cell) -> bool;

/// A cell as plain values: its lines and whether it is right-aligned.
pub open spec fn cell_view(c: Cell) -> (Seq<Seq<char>>, bool) {
    (cell_lines(c), cell_right_aligned(c))
}

/// Cells as plain values.
pub open spec fn cells_view(v: Seq<Cell>) -> Seq<(Seq<Seq<char>>, bool)> {
    v.map_values(|c: Cell| cell_view(c))
}

/// The rows a table holds, in order, each a sequence of cells.
pub uninterp spec fn table_rows(t: Table) -> Seq<Seq<(Seq<Seq<char>>, bool)>>;

/// The header row a table holds, if it has one (see `table_has_header`).
pub uninterp spec fn table_header(t: Table) -> Seq<(Seq<Seq<char>>, bool)>;

/// Whether a table has a header row.
pub uninterp spec fn table_has_header(t: Table) -> bool;

/// `comfy_table::Table::new`: a table with no header and no rows.
#[verifier::external_body]
fn table_new() -> (r: Table)
    ensures
        table_rows(r) == Seq::<Seq<(Seq<Seq<char>>, bool)>>::empty(),
        !table_has_header(r),
{
    Table::new()
}

/// `Table::load_preset` with `presets::UTF8_FULL_CONDENSED`: the borders;
/// header and rows stay.
#[verifier::external_body]
fn table_load_condensed_preset(t: &mut Table)
    ensures
        table_rows(*final(t)) == table_rows(*old(t)),
        table_header(*final(t)) == table_header(*old(t)),
        table_has_header(*final(t)) == table_has_header(*old(t)),
{
    t.load_preset(comfy_table::presets::UTF8_FULL_CONDENSED);
}

/// `Table::apply_modifier` with `modifiers::UTF8_ROUND_CORNERS`; header and
/// rows stay.
#[verifier::external_body]
fn table_round_corners(t: &mut Table)
    ensures
        table_rows(*final(t)) == table_rows(*old(t)),
        table_header(*final(t)) == table_header(*old(t)),
        table_has_header(*final(t)) == table_has_header(*old(t)),
{
    t.apply_modifier(comfy_table::modifiers::UTF8_ROUND_CORNERS);
}

/// `Table::set_content_arrangement` with `ContentArrangement::Dynamic`:
/// columns fit the terminal's width where there is a terminal; header and
/// rows stay.
#[verifier::external_body]
fn table_dynamic_arrangement(t: &mut Table)
    ensures
        table_rows(*final(t)) == table_rows(*old(t)),
        table_header(*final(t)) == table_header(*old(t)),
        table_has_header(*final(t)) == table_has_header(*old(t)),
{
    t.set_content_arrangement(comfy_table::ContentArrangement::Dynamic);
}

/// `Table::set_header`: the cells become the header; rows stay.
#[verifier::external_body]
fn table_set_header(t: &mut Table, cells: Vec<Cell>)
    ensures
        table_rows(*final(t)) == table_rows(*old(t)),
        table_header(*final(t)) == cells_view(cells@),
        table_has_header(*final(t)),
{
    t.set_header(cells);
}

/// `Table::add_row`: the cells become a new last row; the header stays.
#[verifier::external_body]
fn table_add_row(t: &mut Table, cells: Vec<Cell>)
    ensures
        table_rows(*final(t)) == table_rows(*old(t)).push(cells_view(cells@)),
        table_header(*final(t)) == table_header(*old(t)),
        table_has_header(*final(t)) == table_has_header(*old(t)),
{
    t.add_row(cells);
}

/// `Cell::new` on a text: the text's lines, no alignment set.
#[verifier::external_body]
fn cell_new(text: &str) -> (r: Cell)
    ensures
        cell_lines(r) == split_on(text@, '\n'),
        !cell_right_aligned(r),
{
    Cell::new(text)
}

/// `Cell::set_alignment` with `CellAlignment::Right`; the lines stay.
#[verifier::external_body]
fn cell_align_right(c: Cell) -> (r: Cell)
    ensures
        cell_lines(r) == cell_lines(c),
        cell_right_aligned(r),
{
    c.set_alignment(comfy_table::CellAlignment::Right)
}

/// The table written out (its `Display`). Its layout depends on the width
/// of the terminal, if any, so nothing is claimed of the text.
#[verifier::external_body]
fn table_render(t: &Table) -> String {
    t.to_string()
}

/// A right-aligned cell of a text.
fn right_cell(text: &str) -> (r: Cell)
    ensures
        cell_view(r) == (split_on(text@, '\n'), true),
{
    cell_align_right(cell_new(text))
}

/// A left-aligned and a right-aligned cell of a text, as plain values.
pub open spec fn left_view(text: Seq<char>) -> (Seq<Seq<char>>, bool) {
    (split_on(text, '\n'), false)
}

pub open spec fn right_view(text: Seq<char>) -> (Seq<Seq<char>>, bool) {
    (split_on(text, '\n'), true)
}

/// The row of a label and its metrics: the label, then code, comment and
/// empty lines and size in bytes, right-aligned.
pub open spec fn metric_row_view(label: Seq<char>, m: LocMetrics) -> Seq<(Seq<Seq<char>>, bool)> {
    seq![
        left_view(label),
        right_view(dec(m.code_lines as nat)),
        right_view(dec(m.comment_lines as nat)),
        right_view(dec(m.empty_lines as nat)),
        right_view(dec(m.size_bytes as nat)),
    ]
}

fn metric_row(label: &str, m: &LocMetrics) -> (r: Vec<Cell>)
    ensures
        cells_view(r@) == metric_row_view(label@, *m),
{
    let mut row: Vec<Cell> = Vec::new();
    row.push(cell_new(label));
    row.push(right_cell(u64_str(m.code_lines).as_str()));
    row.push(right_cell(u64_str(m.comment_lines).as_str()));
    row.push(right_cell(u64_str(m.empty_lines).as_str()));
    row.push(right_cell(u64_str(m.size_bytes).as_str()));
    assert(cells_view(row@) =~= metric_row_view(label@, *m));
    row
}

/// The header of the language table.
pub open spec fn report_header_view() -> Seq<(Seq<Seq<char>>, bool)> {
    seq![left_view("Language"@), right_view("Code"@), right_view("Comment"@), right_view("Empty"@), right_view("Size (bytes)"@)]
}

/// The rows of the language table: one per language, then the totals.
pub open spec fn report_rows_view(report: CodeLocReport) -> Seq<Seq<(Seq<Seq<char>>, bool)>> {
    report.by_language@.map_values(|l: crate::code_loc::types::LanguageLoc| metric_row_view(l.language@, l.metrics))
        .push(metric_row_view("Totals"@, report.totals))
}

/// The table of languages: a header, one row per language, and a totals
/// row, numbers right-aligned.
pub fn build_report_table(report: &CodeLocReport) -> (r: Table)
    ensures
        table_has_header(r),
        table_header(r) == report_header_view(),
        table_rows(r) == report_rows_view(*report),
{
    let mut table = table_new();
    table_load_condensed_preset(&mut table);
    table_round_corners(&mut table);
    table_dynamic_arrangement(&mut table);
    let mut header: Vec<Cell> = Vec::new();
    header.push(cell_new("Language"));
    header.push(right_cell("Code"));
    header.push(right_cell("Comment"));
    header.push(right_cell("Empty"));
    header.push(right_cell("Size (bytes)"));
    assert(cells_view(header@) =~= report_header_view());
    table_set_header(&mut table, header);
    let ghost rows = report.by_language@.map_values(|l: crate::code_loc::types::LanguageLoc| metric_row_view(l.language@, l.metrics));
    let mut i: usize = 0;
    while i < report.by_language.len()
        invariant
            i <= report.by_language@.len(),
            rows == report.by_language@.map_values(|l: crate::code_loc::types::LanguageLoc| metric_row_view(l.language@, l.metrics)),
            table_has_header(table),
            table_header(table) == report_header_view(),
            table_rows(table) == rows.take(i as int),
        decreases report.by_language@.len() - i,
    {
        let l = &report.by_language[i];
        table_add_row(&mut table, metric_row(l.language, &l.metrics));
        assert(rows.take(i + 1) =~= rows.take(i as int).push(rows[i as int]));
        i = i + 1;
    }
    assert(rows.take(i as int) =~= rows);
    table_add_row(&mut table, metric_row("Totals", &report.totals));
    table
}

/// The one-line summary of the totals.
pub open spec fn totals_line(r: CodeLocReport) -> Seq<char> {
    "Totals: code="@ + dec(r.totals.code_lines as nat) + " comment="@ + dec(r.totals.comment_lines as nat)
        + " empty="@ + dec(r.totals.empty_lines as nat) + " size_bytes="@ + dec(r.totals.size_bytes as nat)
        + " files_scanned="@ + dec(r.files_scanned as nat) + " languages_detected="@ + dec(r.languages_detected as nat)
}

/// The report around a rendering `table` of its table.
pub open spec fn report_text(r: CodeLocReport, table: Seq<char>) -> Seq<char> {
    "Scanning: "@ + r.base_path@ + "\n"@ + "\n"@ + table + "\n"@
        + "Files scanned: "@ + dec(r.files_scanned as nat) + "\n"@
        + "Languages detected: "@ + dec(r.languages_detected as nat) + "\n"@
        + elapsed_line(r.elapsed_nanos as nat) + "\n"@
        + totals_line(r) + "\n"@
}

/// `text` is the report `r` around some rendering of its table.
pub open spec fn is_report_text(text: Seq<char>, r: CodeLocReport) -> bool {
    exists|table: Seq<char>| text == report_text(r, table)
}

fn write_totals_line(out: &mut String, r: &CodeLocReport)
    ensures
        final(out)@ == old(out)@ + totals_line(*r),
{
    let ghost start = out@;
    out.append("Totals: code=");
    out.append(u64_str(r.totals.code_lines).as_str());
    out.append(" comment=");
    out.append(u64_str(r.totals.comment_lines).as_str());
    out.append(" empty=");
    out.append(u64_str(r.totals.empty_lines).as_str());
    out.append(" size_bytes=");
    out.append(u64_str(r.totals.size_bytes).as_str());
    out.append(" files_scanned=");
    out.append(u64_str(r.files_scanned).as_str());
    out.append(" languages_detected=");
    out.append(usize_str(r.languages_detected).as_str());
    assert(out@ =~= start + totals_line(*r));
}

/// The line-count report: the scanned path, the table of languages, the
/// numbers of files and languages, the elapsed time and the totals.
pub fn render_report_table(report: &CodeLocReport) -> (r: String)
    ensures
        is_report_text(r@, *report),
{
    let table = build_report_table(report);
    let rendered = table_render(&table);
    let mut out = "Scanning: ".to_owned();
    out.append(report.base_path.as_str());
    out.append("\n");
    out.append("\n");
    out.append(rendered.as_str());
    out.append("\n");
    out.append("Files scanned: ");
    out.append(u64_str(report.files_scanned).as_str());
    out.append("\n");
    out.append("Languages detected: ");
    out.append(usize_str(report.languages_detected).as_str());
    out.append("\n");
    out.append(render_elapsed_line(report.elapsed_nanos).as_str());
    out.append("\n");
    write_totals_line(&mut out, report);
    out.append("\n");
    assert(out@ =~= report_text(*report, rendered@));
    out
}

} // verus!

//! Rendering a context pack as Markdown.
use vstd::prelude::*;
use vstd::string::*;
use crate::fmt::{dec, u64_str};
use crate::graph::render::{lemma_rows_step, rows};
use crate::paths::{join_seq, last_part, last_segment, rsplit_once, rsplit_once_spec, views};
use crate::text::{chars_of, push_char, str_eq};
use super::candidate::ascii_upper;
use super::types::{files_of_group, ContextFile, ContextGroupKind, ContextGroupSummary, ContextLanguageSummary, ContextMetadata, ContextReport};

verus! {

/// `yes` or `no`.
pub open spec fn yes_no_spec(b: bool) -> Seq<char> {
    if b { "yes"@ } else { "no"@ }
}

/// `yes` or `no`.
pub fn yes_no(b: bool) -> (r: &'static str)
    ensures
        r@ == yes_no_spec(b),
{
    if b { "yes" } else { "no" }
}

/// The focus paths in backquotes, joined by `, `; `none` when there are none.
pub open spec fn focus_text(paths: Seq<String>) -> Seq<char> {
    if paths.len() == 0 {
        "none"@
    } else {
        join_seq(views(paths).map_values(|p: Seq<char>| "`"@ + p + "`"@), ", "@)
    }
}

/// The focus paths as shown in the metadata.
#[verifier::rlimit(30)]
pub fn format_focus_paths(paths: &Vec<String>) -> (r: String)
    ensures
        r@ == focus_text(paths@),
{
    if paths.len() == 0 {
        return "none".to_owned();
    }
    let mut quoted: Vec<String> = Vec::new();
    let mut i: usize = 0;
    while i < paths.len()
        invariant
            i <= paths@.len(),
            views(quoted@) == views(paths@.take(i as int)).map_values(|p: Seq<char>| "`"@ + p + "`"@),
        decreases paths@.len() - i,
    {
        let mut q = "`".to_owned();
        q.append(paths[i].as_str());
        q.append("`");
        let ghost before = views(quoted@);
        quoted.push(q);
        assert(views(quoted@) =~= before.push("`"@ + paths@[i as int]@ + "`"@));
        i = i + 1;
        assert(views(paths@.take(i as int)).map_values(|p: Seq<char>| "`"@ + p + "`"@) =~= before.push("`"@ + paths@[i - 1]@ + "`"@));
    }
    assert(paths@.take(i as int) =~= paths@);
    crate::paths::join_strings(&quoted, ", ")
}

/// The extension of the file name, in lower case, or the empty text.
pub open spec fn fence_spec(path: Seq<char>) -> Seq<char> {
    let name = last_segment(path, '/');
    match rsplit_once_spec(name, '.') {
        Some(p) => if p.0.len() > 0 && name != ".."@ {
            p.1.map_values(|c: char| if 'A' <= c && c <= 'Z' { ((c as u8) + 32) as char } else { c })
        } else {
            Seq::empty()
        },
        None => Seq::empty(),
    }
}

/// The fence language of a file: its extension in lower case.
#[verifier::rlimit(30)]
pub fn fence_language(path: &str) -> (r: String)
    ensures
        r@ == fence_spec(path@),
{
    let name = last_part(path, '/');
    match rsplit_once(name.as_str(), '.') {
        Some(p) => {
            if p.0.unicode_len() > 0 && !str_eq(name.as_str(), "..") {
                let v = chars_of(p.1.as_str());
                let mut out = String::new();
                let mut i: usize = 0;
                while i < v.len()
                    invariant
                        i <= v@.len(),
                        out@ == v@.take(i as int).map_values(|c: char| if 'A' <= c && c <= 'Z' { ((c as u8) + 32) as char } else { c }),
                    decreases v@.len() - i,
                {
                    let c = v[i];
                    let d = if 'A' <= c && c <= 'Z' { ((c as u8) + 32) as char } else { c };
                    push_char(&mut out, d);
                    i = i + 1;
                    assert(out@ =~= v@.take(i as int).map_values(|c: char| if 'A' <= c && c <= 'Z' { ((c as u8) + 32) as char } else { c }));
                }
                assert(v@.take(i as int) =~= v@);
                out
            } else {
                String::new()
            }
        },
        None => String::new(),
    }
}

pub open spec fn row(field: Seq<char>, value: Seq<char>) -> Seq<char> {
    "| "@ + field + " | "@ + value + " |\n"@
}

/// The rows for the Git changes of a pack, when it was built from a diff.
pub open spec fn diff_rows(m: ContextMetadata) -> Seq<char> {
    match m.diff {
        Some(d) => row("Diff spec"@, "`"@ + d.spec@ + "`"@)
            + row("Changed files detected"@, dec(d.changed_files_detected as nat))
            + row("Changed files in scope"@, dec(d.changed_files_in_scope as nat)),
        None => Seq::empty(),
    }
}

/// The metadata table.
pub open spec fn metadata_spec(m: ContextMetadata) -> Seq<char> {
    "## Metadata\n"@ + "| Field | Value |\n"@ + "| --- | --- |\n"@
    + row("Base path"@, "`"@ + m.base_path@ + "`"@)
    + row("Focus paths"@, focus_text(m.focus_paths@))
    + diff_rows(m)
    + row("Budget tokens"@, dec(m.budget_tokens as nat))
    + row("Metadata budget tokens"@, dec(m.metadata_budget_tokens as nat))
    + row("Excerpt budget tokens"@, dec(m.excerpt_budget_tokens as nat))
    + row("Estimated total tokens"@, dec(m.estimated_tokens as nat))
    + row("Estimated metadata tokens"@, dec(m.estimated_metadata_tokens as nat))
    + row("Estimated excerpt tokens"@, dec(m.estimated_excerpt_tokens as nat))
    + row("Files considered"@, dec(m.files_considered as nat))
    + row("Files selected"@, dec(m.files_selected as nat))
    + row("Truncated files"@, dec(m.truncated_files as nat))
}

/// Appends a table row.
pub fn write_metadata_row(out: &mut String, field: &str, value: &str)
    ensures
        final(out)@ == old(out)@ + row(field@, value@),
{
    out.append("| ");
    out.append(field);
    out.append(" | ");
    out.append(value);
    out.append(" |\n");
}

/// Appends the metadata table.
#[verifier::rlimit(40)]
pub fn write_metadata(out: &mut String, m: &ContextMetadata)
    ensures
        final(out)@ == old(out)@ + metadata_spec(*m),
{
    let ghost start = out@;
    out.append("## Metadata\n");
    out.append("| Field | Value |\n");
    out.append("| --- | --- |\n");
    let mut base = "`".to_owned();
    base.append(m.base_path.as_str());
    base.append("`");
    write_metadata_row(out, "Base path", base.as_str());
    write_metadata_row(out, "Focus paths", format_focus_paths(&m.focus_paths).as_str());
    let ghost mid = out@;
    match &m.diff {
        Some(d) => {
            let mut spec = "`".to_owned();
            spec.append(d.spec.as_str());
            spec.append("`");
            write_metadata_row(out, "Diff spec", spec.as_str());
            write_metadata_row(out, "Changed files detected", u64_str(d.changed_files_detected).as_str());
            write_metadata_row(out, "Changed files in scope", u64_str(d.changed_files_in_scope).as_str());
        },
        None => {},
    }
    assert(out@ =~= mid + diff_rows(*m));
    write_metadata_row(out, "Budget tokens", u64_str(m.budget_tokens).as_str());
    write_metadata_row(out, "Metadata budget tokens", u64_str(m.metadata_budget_tokens).as_str());
    write_metadata_row(out, "Excerpt budget tokens", u64_str(m.excerpt_budget_tokens).as_str());
    write_metadata_row(out, "Estimated total tokens", u64_str(m.estimated_tokens).as_str());
    write_metadata_row(out, "Estimated metadata tokens", u64_str(m.estimated_metadata_tokens).as_str());
    write_metadata_row(out, "Estimated excerpt tokens", u64_str(m.estimated_excerpt_tokens).as_str());
    write_metadata_row(out, "Files considered", u64_str(m.files_considered).as_str());
    write_metadata_row(out, "Files selected", u64_str(m.files_selected).as_str());
    write_metadata_row(out, "Truncated files", u64_str(m.truncated_files).as_str());
    assert(out@ =~= start + metadata_spec(*m));
}

pub open spec fn language_row() -> spec_fn(ContextLanguageSummary) -> Seq<char> {
    |l: ContextLanguageSummary| "| "@ + l.language@ + " | "@ + dec(l.files as nat) + " | "@ + dec(l.size_bytes as nat) + " |\n"@
}

/// The dominant-languages section.
pub open spec fn languages_spec(langs: Seq<ContextLanguageSummary>) -> Seq<char> {
    "## Dominant Languages\n"@ + if langs.len() == 0 {
        "No recognized languages were found.\n"@
    } else {
        "| Language | Files | Size (bytes) |\n"@ + "| --- | ---: | ---: |\n"@ + rows(langs, language_row())
    }
}

/// Appends the dominant-languages section.
#[verifier::rlimit(30)]
pub fn write_dominant_languages(out: &mut String, langs: &Vec<ContextLanguageSummary>)
    ensures
        final(out)@ == old(out)@ + languages_spec(langs@),
{
    let ghost start = out@;
    out.append("## Dominant Languages\n");
    if langs.len() == 0 {
        out.append("No recognized languages were found.\n");
        assert(out@ =~= start + languages_spec(langs@));
        return;
    }
    out.append("| Language | Files | Size (bytes) |\n");
    out.append("| --- | ---: | ---: |\n");
    let ghost r0 = out@;
    let mut i: usize = 0;
    while i < langs.len()
        invariant
            i <= langs@.len(),
            out@ == r0 + rows(langs@.take(i as int), language_row()),
        decreases langs@.len() - i,
    {
        proof { lemma_rows_step(langs@, i as int, language_row()); }
        let ghost before = out@;
        out.append("| ");
        out.append(langs[i].language.as_str());
        out.append(" | ");
        out.append(u64_str(langs[i].files).as_str());
        out.append(" | ");
        out.append(u64_str(langs[i].size_bytes).as_str());
        out.append(" |\n");
        assert(out@ =~= before + (language_row())(langs@[i as int]));
        i = i + 1;
    }
    assert(langs@.take(i as int) =~= langs@);
    assert(out@ =~= start + languages_spec(langs@));
}

pub open spec fn group_row() -> spec_fn(ContextGroupSummary) -> Seq<char> {
    |g: ContextGroupSummary| "| "@ + g.label@ + " | "@ + dec(g.files as nat) + " | "@ + dec(g.estimated_tokens as nat) + " | "@ + dec(g.truncated_files as nat) + " |\n"@
}

/// The file-groups table.
pub open spec fn group_summaries_spec(groups: Seq<ContextGroupSummary>) -> Seq<char> {
    "## File Groups\n"@ + if groups.len() == 0 {
        "No files fit within the current context budget.\n"@
    } else {
        "| Group | Files | Tokens | Truncated |\n"@ + "| --- | ---: | ---: | ---: |\n"@ + rows(groups, group_row())
    }
}

/// Appends the file-groups table.
#[verifier::rlimit(30)]
pub fn write_group_summaries(out: &mut String, groups: &Vec<ContextGroupSummary>)
    ensures
        final(out)@ == old(out)@ + group_summaries_spec(groups@),
{
    let ghost start = out@;
    out.append("## File Groups\n");
    if groups.len() == 0 {
        out.append("No files fit within the current context budget.\n");
        assert(out@ =~= start + group_summaries_spec(groups@));
        return;
    }
    out.append("| Group | Files | Tokens | Truncated |\n");
    out.append("| --- | ---: | ---: | ---: |\n");
    let ghost r0 = out@;
    let mut i: usize = 0;
    while i < groups.len()
        invariant
            i <= groups@.len(),
            out@ == r0 + rows(groups@.take(i as int), group_row()),
        decreases groups@.len() - i,
    {
        proof { lemma_rows_step(groups@, i as int, group_row()); }
        let ghost before = out@;
        let g = &groups[i];
        out.append("| ");
        out.append(g.label);
        out.append(" | ");
        out.append(u64_str(g.files).as_str());
        out.append(" | ");
        out.append(u64_str(g.estimated_tokens).as_str());
        out.append(" | ");
        out.append(u64_str(g.truncated_files).as_str());
        out.append(" |\n");
        assert(out@ =~= before + (group_row())(groups@[i as int]));
        i = i + 1;
    }
    assert(groups@.take(i as int) =~= groups@);
    assert(out@ =~= start + group_summaries_spec(groups@));
}

pub open spec fn language_or_unknown(l: Option<String>) -> Seq<char> {
    match l {
        Some(s) => s@,
        None => "unknown"@,
    }
}

fn push_language(out: &mut String, l: &Option<String>)
    ensures
        final(out)@ == old(out)@ + language_or_unknown(*l),
{
    match l {
        Some(s) => out.append(s.as_str()),
        None => out.append("unknown"),
    }
}

pub open spec fn file_row() -> spec_fn(ContextFile) -> Seq<char> {
    |f: ContextFile| "| `"@ + f.relative_path@ + "` | "@ + language_or_unknown(f.language) + " | "@
        + f.selection_class.spec_as_str() + " | "@ + dec(f.size_bytes as nat) + " | "@
        + dec(f.estimated_tokens as nat) + " | "@ + yes_no_spec(f.truncated) + " |\n"@
}

/// The first facts of an excerpt: path, group, language, reason.
pub open spec fn excerpt_facts_a(f: ContextFile, g: ContextGroupKind) -> Seq<char> {
    "### File: `"@ + f.relative_path@ + "`\n"@
    + "- Group: "@ + g.spec_label() + "\n"@
    + "- Language: "@ + language_or_unknown(f.language) + "\n"@
    + "- Reason: "@ + f.selection_class.spec_as_str() + "\n"@
}

/// The other facts of an excerpt: size, tokens, truncation, lines.
pub open spec fn excerpt_facts_b(f: ContextFile) -> Seq<char> {
    "- Size: "@ + dec(f.size_bytes as nat) + " bytes\n"@
    + "- Estimated tokens: "@ + dec(f.estimated_tokens as nat) + "\n"@
    + "- Truncated: "@ + yes_no_spec(f.truncated) + "\n"@
    + "- Lines: "@ + dec(f.excerpt.line_start as nat) + "-"@ + dec(f.excerpt.line_end as nat) + "\n"@
    + "\n"@
}

/// The facts line block of an excerpt.
pub open spec fn excerpt_facts(f: ContextFile, g: ContextGroupKind) -> Seq<char> {
    excerpt_facts_a(f, g) + excerpt_facts_b(f)
}

/// The fenced text of an excerpt.
pub open spec fn excerpt_body(f: ContextFile) -> Seq<char> {
    let fence = fence_spec(f.relative_path@);
    (if fence.len() == 0 { "````\n"@ } else { "````"@ + fence + "\n"@ })
    + f.excerpt.content@ + "\n"@
    + "````\n"@
}

/// The excerpt of one file: its facts, then its text in a fenced block.
pub open spec fn excerpt_spec(f: ContextFile, g: ContextGroupKind) -> Seq<char> {
    excerpt_facts(f, g) + excerpt_body(f)
}

fn write_excerpt_facts_a(out: &mut String, f: &ContextFile, g: ContextGroupKind)
    ensures
        final(out)@ == old(out)@ + excerpt_facts_a(*f, g),
{
    let ghost start = out@;
    out.append("### File: `");
    out.append(f.relative_path.as_str());
    out.append("`\n");
    out.append("- Group: ");
    out.append(g.label());
    out.append("\n");
    out.append("- Language: ");
    push_language(out, &f.language);
    out.append("\n");
    out.append("- Reason: ");
    out.append(f.selection_class.as_str());
    out.append("\n");
    assert(out@ =~= start + excerpt_facts_a(*f, g));
}

fn write_excerpt_facts_b(out: &mut String, f: &ContextFile)
    ensures
        final(out)@ == old(out)@ + excerpt_facts_b(*f),
{
    let ghost start = out@;
    out.append("- Size: ");
    out.append(u64_str(f.size_bytes).as_str());
    out.append(" bytes\n");
    out.append("- Estimated tokens: ");
    out.append(u64_str(f.estimated_tokens).as_str());
    out.append("\n");
    out.append("- Truncated: ");
    out.append(yes_no(f.truncated));
    out.append("\n");
    out.append("- Lines: ");
    out.append(u64_str(f.excerpt.line_start).as_str());
    out.append("-");
    out.append(u64_str(f.excerpt.line_end).as_str());
    out.append("\n");
    out.append("\n");
    assert(out@ =~= start + excerpt_facts_b(*f));
}

fn write_excerpt_facts(out: &mut String, f: &ContextFile, g: ContextGroupKind)
    ensures
        final(out)@ == old(out)@ + excerpt_facts(*f, g),
{
    let ghost start = out@;
    write_excerpt_facts_a(out, f, g);
    write_excerpt_facts_b(out, f);
    assert(out@ =~= start + excerpt_facts(*f, g));
}

fn write_excerpt_body(out: &mut String, f: &ContextFile)
    ensures
        final(out)@ == old(out)@ + excerpt_body(*f),
{
    let ghost start = out@;
    let fence = fence_language(f.relative_path.as_str());
    if fence.unicode_len() == 0 {
        out.append("````\n");
    } else {
        out.append("````");
        out.append(fence.as_str());
        out.append("\n");
    }
    out.append(f.excerpt.content.as_str());
    out.append("\n");
    out.append("````\n");
    assert(out@ =~= start + excerpt_body(*f));
}

/// Appends the excerpt of one file.
pub fn write_excerpt(out: &mut String, f: &ContextFile, g: ContextGroupKind)
    ensures
        final(out)@ == old(out)@ + excerpt_spec(*f, g),
{
    let ghost start = out@;
    write_excerpt_facts(out, f, g);
    write_excerpt_body(out, f);
    assert(out@ =~= start + excerpt_spec(*f, g));
}

/// The section of one group: heading, totals, the file table, then each
/// file's excerpt after a blank line.
pub open spec fn group_section_spec(files: Seq<ContextFile>, g: ContextGroupSummary) -> Seq<char> {
    let gf = files_of_group(files, g.group);
    group_heading(g)
    + rows(gf, file_row())
    + rows(gf, |f: ContextFile| "\n"@ + excerpt_spec(f, g.group))
}

fn push_file_row(out: &mut String, f: &ContextFile)
    ensures
        final(out)@ == old(out)@ + (file_row())(*f),
{
    let ghost start = out@;
    out.append("| `");
    out.append(f.relative_path.as_str());
    out.append("` | ");
    push_language(out, &f.language);
    out.append(" | ");
    out.append(f.selection_class.as_str());
    out.append(" | ");
    out.append(u64_str(f.size_bytes).as_str());
    out.append(" | ");
    out.append(u64_str(f.estimated_tokens).as_str());
    out.append(" | ");
    out.append(yes_no(f.truncated));
    out.append(" |\n");
    assert(out@ =~= start + (file_row())(*f));
}

pub open spec fn group_heading(g: ContextGroupSummary) -> Seq<char> {
    "## "@ + g.label@ + "\n"@
    + "_"@ + dec(g.files as nat) + " files, "@ + dec(g.estimated_tokens as nat) + " estimated tokens, "@ + dec(g.truncated_files as nat) + " truncated_\n"@
    + "\n"@
    + "| Path | Language | Reason | Size (bytes) | Tokens | Truncated |\n"@ + "| --- | --- | --- | ---: | ---: | --- |\n"@
}

fn write_group_heading(out: &mut String, g: &ContextGroupSummary)
    ensures
        final(out)@ == old(out)@ + group_heading(*g),
{
    let ghost start = out@;
    out.append("## ");
    out.append(g.label);
    out.append("\n");
    out.append("_");
    out.append(u64_str(g.files).as_str());
    out.append(" files, ");
    out.append(u64_str(g.estimated_tokens).as_str());
    out.append(" estimated tokens, ");
    out.append(u64_str(g.truncated_files).as_str());
    out.append(" truncated_\n");
    out.append("\n");
    out.append("| Path | Language | Reason | Size (bytes) | Tokens | Truncated |\n");
    out.append("| --- | --- | --- | ---: | ---: | --- |\n");
    assert(out@ =~= start + group_heading(*g));
}

#[verifier::rlimit(30)]
fn write_file_rows(out: &mut String, group_files: &Vec<&ContextFile>, Ghost(gf): Ghost<Seq<ContextFile>>)
    requires
        group_files@.map_values(|f: &ContextFile| *f) == gf,
    ensures
        final(out)@ == old(out)@ + rows(gf, file_row()),
{
    let ghost head = out@;
    let mut i: usize = 0;
    while i < group_files.len()
        invariant
            i <= group_files@.len(),
            group_files@.map_values(|f: &ContextFile| *f) == gf,
            out@ == head + rows(gf.take(i as int), file_row()),
        decreases group_files@.len() - i,
    {
        proof { lemma_rows_step(gf, i as int, file_row()); }
        assert(*group_files@[i as int] == gf[i as int]);
        push_file_row(out, group_files[i]);
        i = i + 1;
    }
    assert(gf.take(i as int) =~= gf);
}

#[verifier::rlimit(30)]
fn write_excerpts(out: &mut String, group_files: &Vec<&ContextFile>, g: ContextGroupKind, Ghost(gf): Ghost<Seq<ContextFile>>)
    requires
        group_files@.map_values(|f: &ContextFile| *f) == gf,
    ensures
        final(out)@ == old(out)@ + rows(gf, |f: ContextFile| "\n"@ + excerpt_spec(f, g)),
{
    let ghost mid = out@;
    let ghost ex = |f: ContextFile| "\n"@ + excerpt_spec(f, g);
    let mut k: usize = 0;
    while k < group_files.len()
        invariant
            k <= group_files@.len(),
            group_files@.map_values(|f: &ContextFile| *f) == gf,
            ex == (|f: ContextFile| "\n"@ + excerpt_spec(f, g)),
            out@ == mid + rows(gf.take(k as int), ex),
        decreases group_files@.len() - k,
    {
        proof { lemma_rows_step(gf, k as int, ex); }
        assert(*group_files@[k as int] == gf[k as int]);
        let ghost before = out@;
        out.append("\n");
        write_excerpt(out, group_files[k], g);
        assert(out@ =~= before + ex(gf[k as int]));
        k = k + 1;
    }
    assert(gf.take(k as int) =~= gf);
}

/// Appends the section of one group.
pub fn write_group_section(out: &mut String, report: &ContextReport, g: &ContextGroupSummary)
    ensures
        final(out)@ == old(out)@ + group_section_spec(report.files@, *g),
{
    let ghost start = out@;
    write_group_heading(out, g);
    let group_files = report.files_in_group(g.group);
    let ghost gf = files_of_group(report.files@, g.group);
    write_file_rows(out, &group_files, Ghost(gf));
    write_excerpts(out, &group_files, g.group, Ghost(gf));
    assert(out@ =~= start + group_section_spec(report.files@, *g));
}

/// The whole pack as Markdown.
pub open spec fn context_markdown_spec(r: ContextReport) -> Seq<char> {
    "# Sephera Context Pack\n"@ + "\n"@
    + metadata_spec(r.metadata) + "\n"@
    + languages_spec(r.dominant_languages@) + "\n"@
    + group_summaries_spec(r.groups@)
    + rows(r.groups@, |g: ContextGroupSummary| "\n"@ + group_section_spec(r.files@, g))
}

/// Renders a context pack as Markdown.
#[verifier::rlimit(30)]
pub fn render_context_markdown(report: &ContextReport) -> (out: String)
    ensures
        out@ == context_markdown_spec(*report),
{
    let mut out = String::new();
    out.append("# Sephera Context Pack\n");
    out.append("\n");
    write_metadata(&mut out, &report.metadata);
    out.append("\n");
    write_dominant_languages(&mut out, &report.dominant_languages);
    out.append("\n");
    write_group_summaries(&mut out, &report.groups);
    let ghost head = out@;
    let ghost sec = |g: ContextGroupSummary| "\n"@ + group_section_spec(report.files@, g);
    let mut i: usize = 0;
    while i < report.groups.len()
        invariant
            i <= report.groups@.len(),
            sec == (|g: ContextGroupSummary| "\n"@ + group_section_spec(report.files@, g)),
            out@ == head + rows(report.groups@.take(i as int), sec),
        decreases report.groups@.len() - i,
    {
        proof { lemma_rows_step(report.groups@, i as int, sec); }
        let ghost before = out@;
        out.append("\n");
        write_group_section(&mut out, report, &report.groups[i]);
        assert(out@ =~= before + sec(report.groups@[i as int]));
        i = i + 1;
    }
    assert(report.groups@.take(i as int) =~= report.groups@);
    assert(out@ =~= context_markdown_spec(*report));
    out
}

} // verus!

use sephera::code_loc::ignore::IgnoreMatcher;
use sephera::code_loc::report::{build_loc_report, sum_by_language, CodeLocReport};
use sephera::code_loc::scanner::scan_content;
use sephera::code_loc::types::{LanguageLoc, LocMetrics};
use sephera::config::{
    CommentStyle,
    builtin_languages, c_style, html_style, language_for_path, lisp_style, no_comment, python_style,
    shell_style, sql_style,
};
use sephera::output::table::{build_report_table, render_report_table};
use sephera::output::timing::render_elapsed_line;

fn assert_metrics(metrics: LocMetrics, code_lines: u64, comment_lines: u64, empty_lines: u64, size_bytes: u64) {
    assert_eq!(metrics, LocMetrics { code_lines, comment_lines, empty_lines, size_bytes });
}

#[test]
fn counts_c_style_comment_only_lines() {
    let metrics = scan_content(b"/* comment */\n", c_style());
    assert_metrics(metrics, 0, 1, 0, 0);
}

#[test]
fn counts_mixed_code_and_comment_lines_as_code() {
    let metrics = scan_content(b"let value = 1; /* comment */\n", c_style());
    assert_metrics(metrics, 1, 0, 0, 0);
}

#[test]
fn counts_block_comment_then_code_on_following_line() {
    let metrics = scan_content(b"/* comment\n*/ let value = 1;\n", c_style());
    assert_metrics(metrics, 1, 1, 0, 0);
}

#[test]
fn supports_nested_block_comments() {
    let metrics = scan_content(b"/* outer\n/* inner */\nclosing */\nlet value = 1;\n", c_style());
    assert_metrics(metrics, 1, 3, 0, 0);
}

#[test]
fn supports_shell_python_sql_html_and_lisp_styles() {
    let shell_metrics = scan_content(b"# comment\nvalue\n", shell_style());
    let python_metrics = scan_content(b"\"\"\"comment\"\"\"\nvalue = 1\n", python_style());
    let sql_metrics = scan_content(b"-- comment\nSELECT 1;\n", sql_style());
    let html_metrics = scan_content(b"<!-- comment -->\n<div></div>\n", html_style());
    let lisp_metrics = scan_content(b"; comment\n(value)\n", lisp_style());

    assert_metrics(shell_metrics, 1, 1, 0, 0);
    assert_metrics(python_metrics, 1, 1, 0, 0);
    assert_metrics(sql_metrics, 1, 1, 0, 0);
    assert_metrics(html_metrics, 1, 1, 0, 0);
    assert_metrics(lisp_metrics, 1, 1, 0, 0);
}

#[test]
fn counts_commentless_formats_with_crlf_and_without_trailing_newline() {
    let metrics = scan_content(b"{\r\n\r\n}\r\nfinal", no_comment());
    assert_metrics(metrics, 3, 0, 1, 0);
}

#[test]
fn treats_whitespace_inside_block_comment_as_empty() {
    let metrics = scan_content(b"/*\n   \n*/\n", c_style());
    assert_metrics(metrics, 0, 2, 1, 0);
}

#[test]
fn ignore_matcher_supports_glob_and_regex() {
    let patterns = vec!["*.rs".to_owned(), "target|node_modules".to_owned()];
    let matcher = IgnoreMatcher::from_patterns(&patterns).unwrap();

    assert!(matcher.is_ignored("src/main.rs"));
    assert!(matcher.is_ignored("target/generated.c"));
    assert!(!matcher.is_ignored("src/main.py"));
}

#[test]
fn invalid_regex_pattern_is_rejected() {
    let patterns = vec!["(".to_owned()];
    assert!(IgnoreMatcher::from_patterns(&patterns).is_err());
}

#[test]
fn invalid_patterns_name_the_pattern_and_its_kind() {
    let bad_regex = IgnoreMatcher::from_patterns(&vec!["(".to_owned()]).unwrap_err();
    assert!(bad_regex.starts_with("invalid regex ignore pattern `(`: "));
    let bad_glob = IgnoreMatcher::from_patterns(&vec!["[a".to_owned()]).unwrap_err();
    assert!(bad_glob.starts_with("invalid glob ignore pattern `[a`: "));
}

#[test]
fn globs_match_file_names_and_regexes_match_paths() {
    let matcher = IgnoreMatcher::from_patterns(&vec!["main.*".to_owned(), "^docs/".to_owned()]).unwrap();
    assert!(matcher.is_ignored("deep/nested/main.go"));
    assert!(matcher.is_ignored("docs/guide.md"));
    assert!(!matcher.is_ignored("src/docs/guide.md"));
    assert!(!matcher.is_ignored("src/lib.rs"));
    let empty = IgnoreMatcher::empty();
    assert!(!empty.is_ignored("anything.rs"));
}

#[test]
fn resolves_regular_extension_lookup() {
    let (_, language) = language_for_path("src/main.rs").unwrap();
    assert_eq!(language.name, "Rust");
    assert_eq!(language.extensions, &[".rs"]);
}

#[test]
fn resolves_exact_file_names() {
    let (_, makefile) = language_for_path("Makefile").unwrap();
    let (_, vim_rc) = language_for_path(".vimrc").unwrap();

    assert_eq!(makefile.name, "Makefile");
    assert_eq!(vim_rc.name, "Vim Script");
}

#[test]
fn skips_unsupported_files() {
    assert!(language_for_path("README").is_none());
}

#[test]
fn extension_lookup_ignores_case_and_exact_names_win() {
    let (index, language) = language_for_path("lib/CORE.PY").unwrap();
    assert_eq!(language.name, "Python");
    assert_eq!(builtin_languages()[index].name, "Python");
    let (_, cmake) = language_for_path("build/CMakeLists.txt").unwrap();
    assert_eq!(cmake.name, "CMake");
    assert!(language_for_path("notes.unknownext").is_none());
}

#[test]
fn builtin_table_is_in_alphabetical_order() {
    let table = builtin_languages();
    for pair in table.windows(2) {
        assert!(pair[0].name < pair[1].name, "{} before {}", pair[0].name, pair[1].name);
    }
}

fn metrics(code_lines: u64, comment_lines: u64, empty_lines: u64, size_bytes: u64) -> LocMetrics {
    LocMetrics { code_lines, comment_lines, empty_lines, size_bytes }
}

#[test]
fn render_report_table_includes_headers_and_totals() {
    let report = CodeLocReport {
        base_path: String::from("demo"),
        by_language: vec![
            LanguageLoc { language: "Rust", metrics: metrics(10, 3, 2, 128) },
            LanguageLoc { language: "Python", metrics: metrics(7, 1, 1, 96) },
        ],
        totals: metrics(17, 4, 3, 224),
        files_scanned: 2,
        languages_detected: 2,
        elapsed_nanos: 12_000_000,
    };

    let rendered = render_report_table(&report);

    assert!(rendered.contains("Scanning: demo"));
    assert!(rendered.contains("Language"));
    assert!(rendered.contains("Size (bytes)"));
    assert!(rendered.contains("Totals"));
    assert!(rendered.contains("Files scanned: 2"));
    assert!(rendered.contains("Languages detected: 2"));
    assert!(rendered.contains("Elapsed: 12.000 ms (0.012000 s)"));
    assert!(rendered.contains(
        "Totals: code=17 comment=4 empty=3 size_bytes=224 files_scanned=2 languages_detected=2"
    ));
}

#[test]
fn report_orders_languages_and_sums_totals() {
    let table = builtin_languages();
    let mut per_language = vec![LocMetrics::zero(); table.len()];
    let rust = table.iter().position(|l| l.name == "Rust").unwrap();
    let python = table.iter().position(|l| l.name == "Python").unwrap();
    let go = table.iter().position(|l| l.name == "Go").unwrap();
    per_language[rust] = metrics(5, 1, 0, 60);
    per_language[python] = metrics(5, 2, 0, 70);
    per_language[go] = metrics(9, 0, 0, 90);
    let report = build_loc_report(String::from("."), &table, &per_language, 3, 0);

    let names: Vec<&str> = report.by_language.iter().map(|l| l.language).collect();
    assert_eq!(names, vec!["Go", "Python", "Rust"]);
    assert_eq!(report.totals, metrics(19, 3, 0, 220));
    assert_eq!(report.languages_detected, 3);
    assert_eq!(report.files_scanned, 3);
    let row_sum = report.by_language.iter().fold(0, |acc, l| acc + l.metrics.code_lines);
    assert_eq!(row_sum, report.totals.code_lines);
}

#[test]
fn report_of_empty_tree_lists_nothing() {
    let table = builtin_languages();
    let per_language = vec![LocMetrics::zero(); table.len()];
    let report = build_loc_report(String::from("empty"), &table, &per_language, 0, 5);
    assert!(report.by_language.is_empty());
    assert_eq!(report.totals, LocMetrics::zero());
    assert_eq!(report.languages_detected, 0);
}

#[test]
fn every_line_is_counted_once() {
    let text = b"// a\nfn x() {}\n\n/* b\n c */\n";
    let m = scan_content(text, c_style());
    assert_eq!(m.code_lines + m.comment_lines + m.empty_lines, 5);
}

#[test]
fn elapsed_line_uses_microseconds_and_nanoseconds() {
    assert_eq!(render_elapsed_line(1_500), "Elapsed: 1.500 us (0.000002 s)");
    assert_eq!(render_elapsed_line(999), "Elapsed: 999 ns (0.000001 s)");
    assert_eq!(render_elapsed_line(0), "Elapsed: 0 ns (0.000000 s)");
}

#[test]
fn supports_full_builtin_language_table() {
    assert_eq!(builtin_languages().len(), 103);
}

#[test]
fn sums_scanned_files_per_language() {
    let a = LocMetrics { code_lines: 3, comment_lines: 1, empty_lines: 0, size_bytes: 40 };
    let b = LocMetrics { code_lines: 2, comment_lines: 0, empty_lines: 5, size_bytes: 10 };
    let c = LocMetrics { code_lines: 7, comment_lines: 2, empty_lines: 1, size_bytes: 90 };
    let sums = sum_by_language(3, &vec![(0, a), (2, b), (0, c)]).expect("sums fit");
    assert_eq!(sums.len(), 3);
    assert_metrics(sums[0], 10, 3, 1, 130);
    assert_metrics(sums[1], 0, 0, 0, 0);
    assert_metrics(sums[2], 2, 0, 5, 10);
}

#[test]
fn sum_by_language_reports_overflow() {
    let big = LocMetrics { code_lines: u64::MAX, comment_lines: 0, empty_lines: 0, size_bytes: 0 };
    let one = LocMetrics { code_lines: 1, comment_lines: 0, empty_lines: 0, size_bytes: 0 };
    assert_eq!(sum_by_language(2, &vec![(1, big), (1, one)]), None);
    assert!(sum_by_language(2, &vec![(0, big), (1, one)]).is_some());
}

#[test]
fn report_table_has_a_row_per_language_and_totals() {
    let report = CodeLocReport {
        base_path: String::from("demo"),
        by_language: vec![LanguageLoc { language: "Rust", metrics: metrics(10, 3, 2, 128) }],
        totals: metrics(10, 3, 2, 128),
        files_scanned: 1,
        languages_detected: 1,
        elapsed_nanos: 0,
    };
    let table = build_report_table(&report);
    let header: Vec<String> = table.header().expect("header").cell_iter().map(|c| c.content()).collect();
    assert_eq!(header, vec!["Language", "Code", "Comment", "Empty", "Size (bytes)"]);
    assert_eq!(table.row_count(), 2);
    let rows: Vec<Vec<String>> = table.row_iter().map(|r| r.cell_iter().map(|c| c.content()).collect()).collect();
    assert_eq!(rows[0], vec!["Rust", "10", "3", "2", "128"]);
    assert_eq!(rows[1], vec!["Totals", "10", "3", "2", "128"]);
}

#[test]
fn empty_line_comment_marker_makes_every_written_line_a_comment() {
    let style = CommentStyle {
        single_line: Some(""),
        multi_line_start: None,
        multi_line_end: None,
    };
    assert_metrics(scan_content(b"code\n  \nmore", &style), 0, 2, 1, 0);
}

#[test]
fn empty_block_end_closes_at_once() {
    let style = CommentStyle {
        single_line: None,
        multi_line_start: Some("/*"),
        multi_line_end: Some(""),
    };
    assert_metrics(scan_content(b"/* x\ny\n/*\n", &style), 2, 1, 0, 0);
}

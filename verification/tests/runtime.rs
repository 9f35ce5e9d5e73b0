use sephera::args::{context_command_input, ContextArgs, ContextCompress, ContextFormat};
use sephera::context::focus::{resolve_focus, sort_focuses};
use sephera::context::candidate::FocusKind;
use sephera::output::profiles::render_available_profiles;
use sephera::output::timing::render_elapsed_line;
use sephera::runtime::budget::{parse_config_budget, parse_token_budget, parse_u64, IntErrorKind, TokenBudgetValue};
use sephera::runtime::diff::{
    change_sources, git_args, is_in_scope, parse_name_status_output, path_relative_to_scope, scope_within_repo,
    select_changed_paths, changed_path_set, nul_separated_paths, ChangeSource, DiffSpec,
};
use sephera::runtime::profiles::{
    comma_separated_profiles, convert_context_config, display_config_path, list_profiles, merge_context_sources,
    remote_output_relative, resolve_relative_path, validate_compression_mode, validate_context_format,
    AvailableContextProfiles, ContextCommandInput, ContextOptions, ContextToml, LoadedContextSection, LoadedSepheraConfig,
    ProfileToml, SepheraToml,
};
use sephera::runtime::source::{
    is_scp_style_git_url, parse_remote_source, plan_source, render_tree_display_url, strip_trailing_git_suffix,
    strip_trailing_slash, tree_ref_candidates, ParsedRemoteSource, SourceLocation, SourcePlan, SourceRequest,
    TreeHostingStyle,
};

#[test]
fn renders_elapsed_line_in_seconds() {
    let rendered = render_elapsed_line(1_234_000_000);
    assert_eq!(rendered, "Elapsed: 1.234 s (1.234000 s)");
}

#[test]
fn renders_elapsed_line_in_milliseconds() {
    let rendered = render_elapsed_line(12_345_000);
    assert_eq!(rendered, "Elapsed: 12.345 ms (0.012345 s)");
}

#[test]
fn renders_profile_list_with_source_path() {
    let rendered = render_available_profiles(&AvailableContextProfiles {
        source_path: Some(String::from("/repo/.sephera.toml")),
        profiles: vec![String::from("debug"), String::from("review")],
    });

    assert!(rendered.contains("Config: /repo/.sephera.toml"));
    assert!(rendered.contains("Profiles:"));
    assert!(rendered.contains("debug\nreview"));
}

#[test]
fn renders_missing_config_message() {
    let rendered = render_available_profiles(&AvailableContextProfiles { source_path: None, profiles: Vec::new() });
    assert_eq!(rendered, "No `.sephera.toml` file found for the selected path.");
}

#[test]
fn renders_config_without_profiles() {
    let rendered = render_available_profiles(&AvailableContextProfiles {
        source_path: Some(String::from("/repo/.sephera.toml")),
        profiles: Vec::new(),
    });
    assert_eq!(rendered, "Config: /repo/.sephera.toml\nNo context profiles defined.");
}

#[test]
fn parses_builtin_diff_keywords() {
    assert_eq!(DiffSpec::parse("working-tree", false).unwrap(), DiffSpec::WorkingTree);
    assert_eq!(DiffSpec::parse("staged", false).unwrap(), DiffSpec::Staged);
    assert_eq!(DiffSpec::parse("unstaged", false).unwrap(), DiffSpec::Unstaged);
}

#[test]
fn treats_other_values_as_base_refs() {
    assert_eq!(DiffSpec::parse("origin/master", false).unwrap(), DiffSpec::BaseRef(String::from("origin/master")));
    assert_eq!(DiffSpec::parse("HEAD~1", false).unwrap(), DiffSpec::BaseRef(String::from("HEAD~1")));
}

#[test]
fn diff_spec_is_trimmed_and_must_not_be_empty() {
    assert_eq!(DiffSpec::parse("  staged \n", false).unwrap(), DiffSpec::Staged);
    assert_eq!(DiffSpec::parse("   ", false).unwrap_err(), "diff spec must not be empty");
}

#[test]
fn remote_diff_rejects_working_tree_keywords() {
    let error = DiffSpec::parse("working-tree", true).unwrap_err();
    assert!(error.contains("not supported in URL mode"));
    assert_eq!(DiffSpec::parse("main", true).unwrap(), DiffSpec::BaseRef(String::from("main")));
}

#[test]
fn parses_rename_records_from_name_status_output() {
    let output = b"R100\0old.rs\0src/new.rs\0M\0src/lib.rs\0D\0src/deleted.rs\0";
    let changed_paths = parse_name_status_output(output).unwrap();
    assert_eq!(
        changed_paths,
        vec![String::from("src/new.rs"), String::from("src/lib.rs"), String::from("src/deleted.rs")]
    );
}

#[test]
fn name_status_output_with_missing_paths_is_refused() {
    let error = parse_name_status_output(b"M\0").unwrap_err();
    assert_eq!(error, "git diff output for `M` was missing the changed path");
    let error = parse_name_status_output(b"R100\0old.rs\0").unwrap_err();
    assert_eq!(error, "git diff output for `R100` was missing the new path");
    let error = parse_name_status_output(b"C75\0").unwrap_err();
    assert_eq!(error, "git diff output for `C75` was missing the old path");
    assert!(parse_name_status_output(b"").unwrap().is_empty());
}

#[test]
fn untracked_listing_splits_on_nul() {
    let paths = nul_separated_paths(b"a.rs\0\0dir/b.rs\0");
    assert_eq!(paths, vec![String::from("a.rs"), String::from("dir/b.rs")]);
}

#[test]
fn working_tree_reads_staged_unstaged_and_untracked_changes() {
    assert_eq!(
        change_sources(DiffSpec::WorkingTree),
        vec![ChangeSource::StagedChanges, ChangeSource::UnstagedChanges, ChangeSource::UntrackedFiles]
    );
    assert_eq!(change_sources(DiffSpec::BaseRef(String::from("main"))), vec![ChangeSource::SinceMergeBase(String::from("main"))]);
    assert_eq!(
        git_args(&ChangeSource::SinceMergeBase(String::from("main")), "abc123"),
        vec!["diff", "--name-status", "-z", "--find-renames", "abc123", "HEAD"]
    );
    assert_eq!(git_args(&ChangeSource::StagedChanges, ""), vec!["diff", "--cached", "--name-status", "-z", "--find-renames"]);
}

#[test]
fn changed_paths_are_merged_sorted_and_unique() {
    let merged = changed_path_set(&vec![
        vec![String::from("b.rs"), String::from("a.rs")],
        vec![String::from("a.rs"), String::from("c.rs")],
    ]);
    assert_eq!(merged, vec![String::from("a.rs"), String::from("b.rs"), String::from("c.rs")]);
}

#[test]
fn scope_checks_use_whole_path_components() {
    assert!(is_in_scope("src/lib.rs", "src"));
    assert!(!is_in_scope("srcx/lib.rs", "src"));
    assert!(is_in_scope("anything.rs", ""));
    assert_eq!(path_relative_to_scope("src/core/lib.rs", "src"), "core/lib.rs");
    assert_eq!(path_relative_to_scope("other/lib.rs", "src"), "other/lib.rs");
    assert_eq!(scope_within_repo("crates/a", "/repo/crates/a", "/repo").unwrap(), "crates/a");
    assert_eq!(
        scope_within_repo("../x", "/elsewhere/x", "/repo").unwrap_err(),
        "base path `../x` must resolve inside git repository `/repo`"
    );
}

#[test]
fn diff_selection_counts_scope_and_missing_files() {
    let changed = vec![String::from("docs/a.md"), String::from("src/gone.rs"), String::from("src/lib.rs")];
    let is_file = vec![true, false, true];
    let selection = select_changed_paths(" main ", "/repo", &changed, &is_file, "src");
    assert_eq!(selection.spec, "main");
    assert_eq!(selection.changed_files_detected, 3);
    assert_eq!(selection.changed_files_in_scope, 2);
    assert_eq!(selection.skipped_deleted_or_missing, 1);
    assert_eq!(selection.changed_paths, vec![String::from("lib.rs")]);
}

#[test]
fn parses_command_line_budgets() {
    assert_eq!(parse_token_budget("32000"), Ok(32000));
    assert_eq!(parse_token_budget("32k"), Ok(32_000));
    assert_eq!(parse_token_budget(" 1M "), Ok(1_000_000));
    assert_eq!(parse_token_budget("+5"), Ok(5));
    assert_eq!(parse_token_budget(""), Err(String::from("token budget cannot be empty")));
    assert_eq!(parse_token_budget("k"), Err(String::from("token budget must include digits")));
    assert_eq!(parse_token_budget("12x"), Err(String::from("invalid token budget `12x`")));
    assert_eq!(parse_token_budget("0k"), Err(String::from("token budget must be greater than zero")));
    assert_eq!(
        parse_token_budget("18446744073709551615k"),
        Err(String::from("token budget `18446744073709551615k` is too large"))
    );
}

#[test]
fn parses_configuration_budgets() {
    assert_eq!(parse_config_budget("64K"), Ok(64_000));
    assert_eq!(parse_config_budget("  "), Err(String::from("token budget must not be empty")));
    assert_eq!(
        parse_config_budget("ten"),
        Err(String::from("failed to parse token budget `ten` as a positive integer: invalid digit found in string"))
    );
    assert_eq!(
        parse_config_budget("k"),
        Err(String::from("failed to parse token budget `k` as a positive integer: cannot parse integer from empty string"))
    );
    assert_eq!(
        parse_config_budget("99999999999999999999"),
        Err(String::from(
            "failed to parse token budget `99999999999999999999` as a positive integer: number too large to fit in target type"
        ))
    );
    assert_eq!(TokenBudgetValue::Integer(7).parse(), Ok(7));
    assert_eq!(TokenBudgetValue::Integer(0).parse(), Err(String::from("token budget must be greater than zero")));
    assert_eq!(TokenBudgetValue::String(String::from("2m")).parse(), Ok(2_000_000));
}

#[test]
fn integers_read_like_the_standard_parser() {
    for text in ["0", "42", "+42", "18446744073709551615", "18446744073709551616", "", "+", "-", "-1", "4 2", "١"] {
        let ours = parse_u64(text);
        let std_result = text.parse::<u64>();
        match (ours, std_result) {
            (Ok(a), Ok(b)) => assert_eq!(a, b, "{text:?}"),
            (Err(kind), Err(e)) => {
                let expected = match e.kind() {
                    std::num::IntErrorKind::Empty => IntErrorKind::Empty,
                    std::num::IntErrorKind::InvalidDigit => IntErrorKind::InvalidDigit,
                    _ => IntErrorKind::PosOverflow,
                };
                assert_eq!(kind, expected, "{text:?}");
                assert_eq!(kind.message(), e.to_string(), "{text:?}");
            },
            (a, b) => panic!("{text:?}: {a:?} vs {b:?}"),
        }
    }
}

#[test]
fn validates_modes_and_formats() {
    assert_eq!(validate_compression_mode(String::from("skeleton")), Ok(String::from("skeleton")));
    assert_eq!(
        validate_compression_mode(String::from("full")),
        Err(String::from("invalid compression mode `full`; expected `none`, `signatures`, or `skeleton`"))
    );
    assert_eq!(validate_context_format(String::from("json")), Ok(String::from("json")));
    assert_eq!(
        validate_context_format(String::from("yaml")),
        Err(String::from("invalid context format `yaml`; expected `markdown` or `json`"))
    );
}

fn section(budget: Option<u64>, format: Option<&str>, ignore: &[&str]) -> LoadedContextSection {
    LoadedContextSection {
        ignore: ignore.iter().map(|s| s.to_string()).collect(),
        focus: Vec::new(),
        diff: None,
        budget,
        compress: None,
        format: format.map(|s| s.to_string()),
        output: None,
    }
}

fn local_source() -> SourceLocation {
    SourceLocation {
        analysis_path: String::from("."),
        repo_root: String::from("."),
        display_path: None,
        display_repo_root: None,
        is_remote: false,
    }
}

fn request(profile: Option<&str>, budget: Option<u64>, ignore: &[&str]) -> ContextCommandInput {
    ContextCommandInput {
        source: SourceRequest::default(),
        config: None,
        no_config: false,
        profile: profile.map(|s| s.to_string()),
        list_profiles: false,
        ignore: ignore.iter().map(|s| s.to_string()).collect(),
        focus: Vec::new(),
        diff: None,
        budget,
        compress: None,
        format: None,
        output: None,
    }
}

fn sample_config() -> Option<LoadedSepheraConfig> {
    Some(LoadedSepheraConfig {
        source_path: String::from("/repo/.sephera.toml"),
        context: section(Some(1000), Some("json"), &["base"]),
        profiles: vec![
            (String::from("debug"), section(Some(2000), None, &["dbg"])),
            (String::from("review"), section(None, Some("markdown"), &["rev"])),
        ],
    })
}

#[test]
fn command_line_overrides_profile_which_overrides_config() {
    let config = sample_config();
    let merged = merge_context_sources(request(Some("debug"), None, &["cli"]), &config, &local_source()).unwrap();
    assert_eq!(merged.ignore, vec!["base", "dbg", "cli"]);
    assert_eq!(merged.budget, 2000);
    assert_eq!(merged.format, "json");
    let merged = merge_context_sources(request(Some("review"), Some(5), &[]), &config, &local_source()).unwrap();
    assert_eq!(merged.budget, 5);
    assert_eq!(merged.format, "markdown");
    let merged = merge_context_sources(request(None, None, &[]), &None, &local_source()).unwrap();
    assert_eq!(merged.budget, 128_000);
    assert_eq!(merged.format, "markdown");
    assert!(merged.ignore.is_empty());
}

#[test]
fn unknown_profiles_are_reported_with_the_available_ones() {
    let error = merge_context_sources(request(Some("ci"), None, &[]), &sample_config(), &local_source()).unwrap_err();
    assert_eq!(error, "profile `ci` was not found in `/repo/.sephera.toml`; available profiles: debug, review");
    let error = merge_context_sources(request(Some("ci"), None, &[]), &None, &local_source()).unwrap_err();
    assert_eq!(error, "profile `ci` was requested, but no `.sephera.toml` file was found");
    assert_eq!(comma_separated_profiles(&Vec::new()), "; no profiles are defined");
}

#[test]
fn remote_profile_listing_rewrites_config_path() {
    let source = SourceLocation {
        analysis_path: String::from("/tmp/clone/docs"),
        repo_root: String::from("/tmp/clone"),
        display_path: Some(String::from("https://github.com/reim/sephera/tree/main/docs")),
        display_repo_root: Some(String::from("https://github.com/reim/sephera@main")),
        is_remote: true,
    };
    let rendered = display_config_path("/tmp/clone/.sephera.toml", &source);
    assert_eq!(rendered, "https://github.com/reim/sephera@main/.sephera.toml");
    let listing = list_profiles(&sample_config(), &local_source());
    assert_eq!(listing.source_path.as_deref(), Some("/repo/.sephera.toml"));
    assert_eq!(listing.profiles, vec!["debug", "review"]);
}

#[test]
fn configuration_sections_are_checked_and_paths_resolved() {
    let toml = SepheraToml {
        context: ContextToml {
            focus: vec![String::from("src"), String::from("/abs/path")],
            budget: Some(TokenBudgetValue::String(String::from("32k"))),
            output: Some(String::from("out/context.md")),
            ..ContextToml::default()
        },
        profiles: vec![(
            String::from("fast"),
            ProfileToml { context: ContextToml { compress: Some(String::from("skeleton")), ..ContextToml::default() } },
        )],
    };
    let loaded = convert_context_config("/repo/.sephera.toml", toml).unwrap();
    assert_eq!(loaded.context.focus, vec!["/repo/src", "/abs/path"]);
    assert_eq!(loaded.context.budget, Some(32_000));
    assert_eq!(loaded.context.output.as_deref(), Some("/repo/out/context.md"));
    assert_eq!(loaded.profiles[0].0, "fast");
    assert_eq!(loaded.profiles[0].1.compress.as_deref(), Some("skeleton"));

    let bad = SepheraToml {
        context: ContextToml::default(),
        profiles: vec![(
            String::from("odd"),
            ProfileToml { context: ContextToml { format: Some(String::from("yaml")), ..ContextToml::default() } },
        )],
    };
    assert_eq!(
        convert_context_config("cfg/.sephera.toml", bad).unwrap_err(),
        "failed to parse `profiles.odd.context.format` in `cfg/.sephera.toml`: invalid context format `yaml`; expected `markdown` or `json`"
    );
    assert_eq!(resolve_relative_path("", "a.md"), "a.md");
    assert_eq!(resolve_relative_path("dir/", "a.md"), "dir/a.md");
}

#[test]
fn remote_outputs_inside_the_checkout_are_read_from_the_current_directory() {
    let config = sample_config();
    assert_eq!(remote_output_relative("/repo/out/c.md", &config, true, true).as_deref(), Some("out/c.md"));
    assert_eq!(remote_output_relative("/repo/out/c.md", &config, false, true), None);
    assert_eq!(remote_output_relative("/elsewhere/c.md", &config, true, true), None);
}

#[test]
fn context_arguments_become_a_command_input() {
    let args = ContextArgs {
        path: Some(String::from(".")),
        url: None,
        git_ref: None,
        config: None,
        no_config: true,
        profile: None,
        list_profiles: false,
        ignore: vec![String::from("target")],
        focus: vec![],
        diff: Some(String::from("staged")),
        budget: Some(32_000),
        compress: Some(ContextCompress::Skeleton),
        format: Some(ContextFormat::Json),
        output: None,
    };
    let input = context_command_input(args);
    assert_eq!(input.compress.as_deref(), Some("skeleton"));
    assert_eq!(input.format.as_deref(), Some("json"));
    assert_eq!(input.budget, Some(32_000));
    assert!(input.no_config);
}

#[test]
fn parses_github_tree_url() {
    let parsed_source = parse_remote_source("https://github.com/reim/sephera/tree/main/docs/src").unwrap();
    assert_eq!(
        parsed_source,
        ParsedRemoteSource::Tree {
            clone_url: String::from("https://github.com/reim/sephera"),
            display_repo_root: String::from("https://github.com/reim/sephera"),
            style: TreeHostingStyle::GitHub,
            tail_segments: vec![String::from("main"), String::from("docs"), String::from("src")],
        }
    );
}

#[test]
fn parses_gitlab_tree_url() {
    let parsed_source = parse_remote_source("https://gitlab.com/group/subgroup/repo/-/tree/main/docs").unwrap();
    assert_eq!(
        parsed_source,
        ParsedRemoteSource::Tree {
            clone_url: String::from("https://gitlab.com/group/subgroup/repo"),
            display_repo_root: String::from("https://gitlab.com/group/subgroup/repo"),
            style: TreeHostingStyle::GitLab,
            tail_segments: vec![String::from("main"), String::from("docs")],
        }
    );
}

#[test]
fn rejects_blob_urls() {
    let error = parse_remote_source("https://github.com/reim/sephera/blob/main/README.md").unwrap_err();
    assert!(error.contains("blob URLs are not supported"));
}

#[test]
fn parses_scp_style_repo_url() {
    let parsed_source = parse_remote_source("git@github.com:reim/sephera.git").unwrap();
    assert_eq!(
        parsed_source,
        ParsedRemoteSource::Repo {
            clone_url: String::from("git@github.com:reim/sephera.git"),
            display_repo_root: String::from("git@github.com:reim/sephera"),
        }
    );
}

#[test]
fn rejects_ref_without_url() {
    let error = plan_source(&SourceRequest { path: Some(String::from(".")), url: None, git_ref: Some(String::from("main")) })
        .unwrap_err();
    assert!(error.contains("`ref` requires `url`"));
}

#[test]
fn plans_local_and_remote_sources() {
    assert_eq!(plan_source(&SourceRequest::default()).unwrap(), SourcePlan::Local(String::from(".")));
    assert_eq!(
        plan_source(&SourceRequest { path: Some(String::from("a")), url: Some(String::from("b")), git_ref: None }).unwrap_err(),
        "`path` and `url` are mutually exclusive"
    );
    assert_eq!(
        plan_source(&SourceRequest {
            path: None,
            url: Some(String::from("https://github.com/a/b/tree/main")),
            git_ref: Some(String::from("v1")),
        })
        .unwrap_err(),
        "`ref` cannot be combined with a tree URL"
    );
    match plan_source(&SourceRequest { path: None, url: Some(String::from("https://example.com:8443/o/r.git/")), git_ref: None })
        .unwrap()
    {
        SourcePlan::Remote(ParsedRemoteSource::Repo { clone_url, display_repo_root }) => {
            assert_eq!(clone_url, "https://example.com:8443/o/r.git");
            assert_eq!(display_repo_root, "https://example.com:8443/o/r");
        },
        other => panic!("unexpected plan {other:?}"),
    }
}

#[test]
fn unusual_urls_are_refused_with_reasons() {
    assert_eq!(parse_remote_source("  ").unwrap_err(), "URL must not be empty");
    assert_eq!(parse_remote_source("ftp://host/a/b").unwrap_err(), "unsupported URL scheme `ftp`");
    assert_eq!(parse_remote_source("https://github.com/only").unwrap_err(), "URL must include a repository path");
    assert_eq!(parse_remote_source("https://github.com/a/b/tree").unwrap_err(), "tree URL is missing the ref segment");
    assert!(parse_remote_source("not a url").unwrap_err().starts_with("failed to parse URL `not a url`: "));
    match parse_remote_source("file:///tmp/repo/").unwrap() {
        ParsedRemoteSource::Repo { clone_url, display_repo_root } => {
            assert_eq!(clone_url, "file:///tmp/repo");
            assert_eq!(display_repo_root, "file:///tmp/repo");
        },
        other => panic!("unexpected {other:?}"),
    }
}

#[test]
fn url_text_helpers() {
    assert!(is_scp_style_git_url("git@github.com:owner/repo.git"));
    assert!(!is_scp_style_git_url("https://github.com/owner/repo"));
    assert!(!is_scp_style_git_url("user@host:"));
    assert_eq!(strip_trailing_slash("https://example.com///"), "https://example.com");
    assert_eq!(strip_trailing_git_suffix("https://example.com/org/repo.git/"), "https://example.com/org/repo");
    assert_eq!(strip_trailing_git_suffix("plain-repo"), "plain-repo");
    assert_eq!(
        render_tree_display_url(TreeHostingStyle::GitHub, "https://github.com/example/repo", "main", Some("src/lib")),
        "https://github.com/example/repo/tree/main/src/lib"
    );
    assert_eq!(
        render_tree_display_url(TreeHostingStyle::GitLab, "https://gitlab.com/example/repo", "feature/branch", None),
        "https://gitlab.com/example/repo/-/tree/feature/branch"
    );
}

#[test]
fn tree_segments_are_tried_longest_ref_first() {
    let tail = vec![String::from("feature"), String::from("docs"), String::from("docs")];
    let candidates = tree_ref_candidates(&tail).unwrap();
    assert_eq!(candidates[0], (String::from("feature/docs/docs"), None));
    assert_eq!(candidates[1], (String::from("feature/docs"), Some(String::from("docs"))));
    assert_eq!(candidates[2], (String::from("feature"), Some(String::from("docs/docs"))));
    assert!(tree_ref_candidates(&Vec::new()).is_err());
}

#[test]
fn focus_paths_are_resolved_and_ordered() {
    let inside = resolve_focus("src", ".", "/repo", "/repo/src", true).unwrap();
    assert_eq!(inside.relative_path, "src");
    assert_eq!(inside.kind, FocusKind::Directory);
    let error = resolve_focus("../x", ".", "/repo", "/x", false).unwrap_err();
    assert_eq!(error, "focus path `../x` must resolve inside `.`");
    let file = resolve_focus("src/lib.rs", ".", "/repo", "/repo/src/lib.rs", false).unwrap();
    let sorted = sort_focuses(&vec![file, inside.clone(), inside]);
    let names: Vec<&str> = sorted.iter().map(|f| f.normalized_relative_path.as_str()).collect();
    assert_eq!(names, vec!["src", "src/lib.rs"]);
}

const DEMO_DIR: &str = "/work/demo";

fn demo_path(relative: &str) -> String {
    format!("{DEMO_DIR}/{relative}")
}

fn demo_source() -> SourceLocation {
    SourceLocation {
        analysis_path: String::from(DEMO_DIR),
        repo_root: String::from(DEMO_DIR),
        display_path: None,
        display_repo_root: None,
        is_remote: false,
    }
}

fn context_args() -> ContextCommandInput {
    ContextCommandInput {
        source: SourceRequest { path: Some(String::from(DEMO_DIR)), url: None, git_ref: None },
        ..request(None, None, &[])
    }
}

fn demo_section(
    ignore: &[&str],
    focus: &[&str],
    budget: Option<u64>,
    format: Option<&str>,
    output: Option<&str>,
) -> LoadedContextSection {
    LoadedContextSection {
        ignore: ignore.iter().map(|s| s.to_string()).collect(),
        focus: focus.iter().map(|s| demo_path(s)).collect(),
        budget,
        format: format.map(|s| s.to_string()),
        output: output.map(demo_path),
        ..LoadedContextSection::default()
    }
}

#[test]
fn cli_scalars_override_config_values() {
    let arguments = ContextCommandInput {
        budget: Some(48_000),
        format: Some(String::from("json")),
        output: Some(demo_path("cli.json")),
        ..context_args()
    };
    let config = Some(LoadedSepheraConfig {
        source_path: demo_path(".sephera.toml"),
        context: demo_section(&["target"], &["src"], Some(16_000), Some("markdown"), Some("config.md")),
        profiles: Vec::new(),
    });
    let resolved = merge_context_sources(arguments, &config, &demo_source()).unwrap();
    assert_eq!(
        resolved,
        ContextOptions {
            ignore: vec![String::from("target")],
            focus: vec![demo_path("src")],
            diff: None,
            budget: 48_000,
            compress: None,
            format: String::from("json"),
            output: Some(demo_path("cli.json")),
        }
    );
}

#[test]
fn cli_lists_append_to_config_lists() {
    let arguments = ContextCommandInput {
        ignore: vec![String::from("*.snap")],
        focus: vec![String::from("tests")],
        ..context_args()
    };
    let config = Some(LoadedSepheraConfig {
        source_path: demo_path(".sephera.toml"),
        context: demo_section(&["target"], &["src"], None, None, None),
        profiles: Vec::new(),
    });
    let resolved = merge_context_sources(arguments, &config, &demo_source()).unwrap();
    assert_eq!(resolved.ignore, vec!["target", "*.snap"]);
    assert_eq!(resolved.focus, vec![demo_path("src"), String::from("tests")]);
}

#[test]
fn defaults_apply_when_cli_and_config_are_missing() {
    let resolved = merge_context_sources(context_args(), &None, &demo_source()).unwrap();
    assert_eq!(resolved.budget, 128_000);
    assert_eq!(resolved.format, "markdown");
    assert_eq!(resolved.output, None);
}

#[test]
fn profile_scalars_override_base_config_before_cli() {
    let arguments = ContextCommandInput { profile: Some(String::from("review")), ..context_args() };
    let config = Some(LoadedSepheraConfig {
        source_path: demo_path(".sephera.toml"),
        context: demo_section(&["target"], &["src"], Some(16_000), Some("markdown"), Some("base.md")),
        profiles: vec![(
            String::from("review"),
            demo_section(&["dist"], &["tests"], Some(32_000), Some("json"), Some("profile.json")),
        )],
    });
    let resolved = merge_context_sources(arguments, &config, &demo_source()).unwrap();
    assert_eq!(resolved.ignore, vec!["target", "dist"]);
    assert_eq!(resolved.focus, vec![demo_path("src"), demo_path("tests")]);
    assert_eq!(resolved.budget, 32_000);
    assert_eq!(resolved.format, "json");
    assert_eq!(resolved.output, Some(demo_path("profile.json")));
}

#[test]
fn cli_flags_override_selected_profile_values() {
    let arguments = ContextCommandInput {
        profile: Some(String::from("review")),
        budget: Some(48_000),
        format: Some(String::from("markdown")),
        output: Some(demo_path("cli.md")),
        ..context_args()
    };
    let config = Some(LoadedSepheraConfig {
        source_path: demo_path(".sephera.toml"),
        context: LoadedContextSection::default(),
        profiles: vec![(String::from("review"), demo_section(&[], &[], Some(32_000), Some("json"), Some("profile.json")))],
    });
    let resolved = merge_context_sources(arguments, &config, &demo_source()).unwrap();
    assert_eq!(resolved.budget, 48_000);
    assert_eq!(resolved.format, "markdown");
    assert_eq!(resolved.output, Some(demo_path("cli.md")));
}

#[test]
fn requesting_profile_without_config_returns_clear_error() {
    let error = merge_context_sources(
        ContextCommandInput { profile: Some(String::from("review")), ..context_args() },
        &None,
        &demo_source(),
    )
    .unwrap_err();
    assert!(error.contains("no `.sephera.toml` file was found"));
}

#[test]
fn listing_profiles_returns_sorted_names_from_config() {
    let profiles = list_profiles(
        &Some(LoadedSepheraConfig {
            source_path: demo_path(".sephera.toml"),
            context: LoadedContextSection::default(),
            profiles: vec![
                (String::from("debug"), LoadedContextSection::default()),
                (String::from("review"), LoadedContextSection::default()),
            ],
        }),
        &demo_source(),
    );
    assert_eq!(
        profiles,
        AvailableContextProfiles {
            source_path: Some(demo_path(".sephera.toml")),
            profiles: vec![String::from("debug"), String::from("review")],
        }
    );
}

#[test]
fn command_line_and_config_budgets_agree() {
    for raw in ["64k", " 2M ", "+15", "32000"] {
        assert_eq!(parse_token_budget(raw), parse_config_budget(raw));
    }
    assert_eq!(parse_token_budget("64k"), Ok(64_000));
    assert_eq!(parse_config_budget(" 2M "), Ok(2_000_000));
    for raw in ["", "k", "0", "12x", "99999999999999999999"] {
        assert!(parse_token_budget(raw).is_err());
        assert!(parse_config_budget(raw).is_err());
    }
}

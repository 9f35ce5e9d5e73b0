use sephera::context::candidate::ContextCandidate;
use sephera::context::budget::ContextBudget;
use sephera::context::pack::{build_context_file, rank_candidates, select_context_files_reading, select_ranked_files};
use sephera::context::markdown::write_metadata;
use sephera::context::types::{ContextDiffMetadata, ContextMetadata, SelectionClass};

fn candidate(class: SelectionClass, size_bytes: u64) -> ContextCandidate {
    ContextCandidate {
        absolute_path: String::from("/demo/src/big.rs"),
        normalized_relative_path: String::from("src/big.rs"),
        language: Some(String::from("Rust")),
        selection_class: class,
        size_bytes,
    }
}

#[test]
fn truncated_entry_stays_within_its_allowance() {
    let text: String = (0..2000).map(|i| format!("let value_{i} = {i};\n")).collect();
    let c = candidate(SelectionClass::General, text.len() as u64);
    let file = build_context_file(&c, text.as_bytes(), 50);
    assert!(file.truncated);
    assert!(file.estimated_tokens <= 50);
    assert!(file.excerpt.content.len() <= 200);
    assert_eq!(file.excerpt.line_start, 1);
}

#[test]
fn small_file_is_included_whole() {
    let text = "fn main() {}\n";
    let c = candidate(SelectionClass::FocusedFile, text.len() as u64);
    let file = build_context_file(&c, text.as_bytes(), 1000);
    assert!(!file.truncated);
    assert_eq!(file.excerpt.content, "fn main() {}");
    assert_eq!(file.estimated_tokens, 3);
}

#[test]
fn pack_stays_within_its_excerpt_budget() {
    let big: String = (0..3000).map(|i| format!("let value_{i} = {i};\n")).collect();
    let small = String::from("fn helper() {}\n");
    let cands = vec![
        candidate(SelectionClass::FocusedFile, big.len() as u64),
        candidate(SelectionClass::General, small.len() as u64),
        candidate(SelectionClass::General, big.len() as u64),
    ];
    let small_len = small.len() as u64;
    let budget = ContextBudget::new(3000);
    assert_eq!(budget.excerpt_tokens(), 2700);
    let files = select_context_files_reading(&cands, budget, |c: &ContextCandidate| {
        Ok::<Vec<u8>, ()>(if c.size_bytes == small_len { small.clone().into_bytes() } else { big.clone().into_bytes() })
    })
    .unwrap();
    assert!(!files.is_empty());
    let total: u64 = files.iter().map(|f| f.estimated_tokens).sum();
    assert!(total <= 2700);
    assert!(files[0].truncated);
    assert!(files[0].estimated_tokens <= 2700);
}

#[test]
fn metadata_table_lists_the_diff() {
    let mut metadata = ContextMetadata {
        base_path: String::from("/demo/src"),
        focus_paths: Vec::new(),
        diff: None,
        budget_tokens: 1000,
        metadata_budget_tokens: 100,
        excerpt_budget_tokens: 900,
        estimated_tokens: 10,
        estimated_metadata_tokens: 5,
        estimated_excerpt_tokens: 5,
        files_considered: 1,
        files_selected: 1,
        truncated_files: 0,
    };
    let mut plain = String::new();
    write_metadata(&mut plain, &metadata);
    assert!(!plain.contains("Diff spec"));
    metadata.diff = Some(ContextDiffMetadata {
        spec: String::from("working-tree"),
        repo_root: String::from("/demo"),
        changed_files_detected: 2,
        changed_files_in_scope: 1,
        changed_files_selected: 1,
        skipped_deleted_or_missing: 0,
    });
    let mut out = String::new();
    write_metadata(&mut out, &metadata);
    assert!(out.contains("| Diff spec | `working-tree` |"));
    assert!(out.contains("| Changed files detected | 2 |"));
    assert!(out.contains("| Changed files in scope | 1 |"));
}

#[test]
fn selection_reads_only_the_files_it_takes() {
    let big: String = (0..3000).map(|i| format!("let value_{i} = {i};\n")).collect();
    let cands = vec![
        candidate(SelectionClass::FocusedFile, big.len() as u64),
        candidate(SelectionClass::General, 10),
    ];
    let reads = std::cell::Cell::new(0usize);
    let files = select_context_files_reading(&cands, ContextBudget::new(3000), |c: &ContextCandidate| {
        reads.set(reads.get() + 1);
        assert_eq!(c.selection_class, SelectionClass::FocusedFile);
        Ok::<Vec<u8>, ()>(big.clone().into_bytes())
    })
    .unwrap();
    assert_eq!(files.len(), 1);
    assert!(files[0].truncated);
    assert_eq!(reads.get(), 1);

    let failed = select_context_files_reading(&cands, ContextBudget::new(3000), |c: &ContextCandidate| {
        Err::<Vec<u8>, u64>(c.size_bytes)
    });
    assert_eq!(failed, Err(big.len() as u64));
}

#[test]
fn selection_follows_the_ranking() {
    let mut general = candidate(SelectionClass::General, 20);
    general.normalized_relative_path = String::from("src/b.rs");
    let mut manifest = candidate(SelectionClass::Manifest, 30);
    manifest.normalized_relative_path = String::from("Cargo.toml");
    let mut small = candidate(SelectionClass::General, 10);
    small.normalized_relative_path = String::from("src/c.rs");
    let files = select_ranked_files(vec![general, manifest, small], ContextBudget::new(10_000), |c: &ContextCandidate| {
        Ok::<Vec<u8>, ()>(vec![b'x'; c.size_bytes as usize])
    })
    .unwrap();
    let paths: Vec<&str> = files.iter().map(|f| f.relative_path.as_str()).collect();
    assert_eq!(paths, vec!["Cargo.toml", "src/c.rs", "src/b.rs"]);
}

#[test]
fn ranking_keeps_input_order_of_equal_candidates() {
    let mut first = candidate(SelectionClass::General, 10);
    first.absolute_path = String::from("/first/src/big.rs");
    let mut second = candidate(SelectionClass::General, 10);
    second.absolute_path = String::from("/second/src/big.rs");
    let mut focused = candidate(SelectionClass::FocusedFile, 99);
    focused.normalized_relative_path = String::from("z.rs");
    let order = |v: Vec<ContextCandidate>| -> Vec<String> { v.into_iter().map(|c| c.absolute_path).collect() };
    let ranked = rank_candidates(vec![first.clone(), focused.clone(), second.clone()]);
    assert_eq!(order(ranked), vec!["/demo/src/big.rs", "/first/src/big.rs", "/second/src/big.rs"]);
    let ranked = rank_candidates(vec![second, first, focused]);
    assert_eq!(order(ranked), vec!["/demo/src/big.rs", "/second/src/big.rs", "/first/src/big.rs"]);
}

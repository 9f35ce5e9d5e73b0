//! The data of a context pack.
use vstd::prelude::*;

verus! {

/// The group a selected file is shown under.
#[derive(Debug, Clone, Copy, PartialEq, Eq, Structural)]
pub enum ContextGroupKind {
    Focus,
    Changes,
    ProjectMetadata,
    Workflows,
    Entrypoints,
    Testing,
    General,
}

impl ContextGroupKind {
    pub open spec fn spec_as_str(self) -> Seq<char> {
        match self {
            ContextGroupKind::Focus => "focus"@,
            ContextGroupKind::Changes => "changes"@,
            ContextGroupKind::ProjectMetadata => "project-metadata"@,
            ContextGroupKind::Workflows => "workflows"@,
            ContextGroupKind::Entrypoints => "entrypoints"@,
            ContextGroupKind::Testing => "testing"@,
            ContextGroupKind::General => "general"@,
        }
    }

    /// The kebab-case name of the group.
    pub fn as_str(self) -> (r: &'static str)
        ensures
            r@ == self.spec_as_str(),
    {
        match self {
            ContextGroupKind::Focus => "focus",
            ContextGroupKind::Changes => "changes",
            ContextGroupKind::ProjectMetadata => "project-metadata",
            ContextGroupKind::Workflows => "workflows",
            ContextGroupKind::Entrypoints => "entrypoints",
            ContextGroupKind::Testing => "testing",
            ContextGroupKind::General => "general",
        }
    }

    pub open spec fn spec_label(self) -> Seq<char> {
        match self {
            ContextGroupKind::Focus => "Focus"@,
            ContextGroupKind::Changes => "Changes"@,
            ContextGroupKind::ProjectMetadata => "Project Metadata"@,
            ContextGroupKind::Workflows => "Workflows"@,
            ContextGroupKind::Entrypoints => "Entrypoints"@,
            ContextGroupKind::Testing => "Testing"@,
            ContextGroupKind::General => "General"@,
        }
    }

    /// The human-readable title of the group.
    pub fn label(self) -> (r: &'static str)
        ensures
            r@ == self.spec_label(),
    {
        match self {
            ContextGroupKind::Focus => "Focus",
            ContextGroupKind::Changes => "Changes",
            ContextGroupKind::ProjectMetadata => "Project Metadata",
            ContextGroupKind::Workflows => "Workflows",
            ContextGroupKind::Entrypoints => "Entrypoints",
            ContextGroupKind::Testing => "Testing",
            ContextGroupKind::General => "General",
        }
    }
}

/// Why a file was selected.
#[derive(Debug, Clone, Copy, PartialEq, Eq, Structural)]
pub enum SelectionClass {
    FocusedFile,
    DiffFile,
    FocusedDescendant,
    Manifest,
    Workflow,
    Entrypoint,
    AdjacentTest,
    General,
}

impl SelectionClass {
    pub open spec fn spec_group_kind(self) -> ContextGroupKind {
        match self {
            SelectionClass::FocusedFile | SelectionClass::FocusedDescendant => ContextGroupKind::Focus,
            SelectionClass::DiffFile => ContextGroupKind::Changes,
            SelectionClass::Manifest => ContextGroupKind::ProjectMetadata,
            SelectionClass::Workflow => ContextGroupKind::Workflows,
            SelectionClass::Entrypoint => ContextGroupKind::Entrypoints,
            SelectionClass::AdjacentTest => ContextGroupKind::Testing,
            SelectionClass::General => ContextGroupKind::General,
        }
    }

    /// The group that files of this class are shown under.
    pub fn group_kind(self) -> (r: ContextGroupKind)
        ensures
            r == self.spec_group_kind(),
    {
        match self {
            SelectionClass::FocusedFile | SelectionClass::FocusedDescendant => ContextGroupKind::Focus,
            SelectionClass::DiffFile => ContextGroupKind::Changes,
            SelectionClass::Manifest => ContextGroupKind::ProjectMetadata,
            SelectionClass::Workflow => ContextGroupKind::Workflows,
            SelectionClass::Entrypoint => ContextGroupKind::Entrypoints,
            SelectionClass::AdjacentTest => ContextGroupKind::Testing,
            SelectionClass::General => ContextGroupKind::General,
        }
    }

    pub open spec fn spec_as_str(self) -> Seq<char> {
        match self {
            SelectionClass::FocusedFile => "focused-file"@,
            SelectionClass::DiffFile => "diff-file"@,
            SelectionClass::FocusedDescendant => "focused-descendant"@,
            SelectionClass::Manifest => "manifest"@,
            SelectionClass::Workflow => "workflow"@,
            SelectionClass::Entrypoint => "entrypoint"@,
            SelectionClass::AdjacentTest => "adjacent-test"@,
            SelectionClass::General => "general"@,
        }
    }

    /// The kebab-case name of the class.
    pub fn as_str(self) -> (r: &'static str)
        ensures
            r@ == self.spec_as_str(),
    {
        match self {
            SelectionClass::FocusedFile => "focused-file",
            SelectionClass::DiffFile => "diff-file",
            SelectionClass::FocusedDescendant => "focused-descendant",
            SelectionClass::Manifest => "manifest",
            SelectionClass::Workflow => "workflow",
            SelectionClass::Entrypoint => "entrypoint",
            SelectionClass::AdjacentTest => "adjacent-test",
            SelectionClass::General => "general",
        }
    }
}

/// The excerpt of one file: lines `line_start..=line_end` as text.
#[derive(Debug, Clone, PartialEq, Eq)]
pub struct ContextExcerpt {
    pub line_start: u64,
    pub line_end: u64,
    pub content: String,
}

/// One selected file.
#[derive(Debug, Clone, PartialEq, Eq)]
pub struct ContextFile {
    pub relative_path: String,
    pub language: Option<String>,
    pub size_bytes: u64,
    pub estimated_tokens: u64,
    pub truncated: bool,
    pub group: ContextGroupKind,
    pub selection_class: SelectionClass,
    pub excerpt: ContextExcerpt,
}

/// Per-group totals of the selected files.
#[derive(Debug, Clone, PartialEq, Eq)]
pub struct ContextGroupSummary {
    pub group: ContextGroupKind,
    pub label: &'static str,
    pub files: u64,
    pub estimated_tokens: u64,
    pub truncated_files: u64,
}

/// Per-language totals of the considered files.
#[derive(Debug, Clone, PartialEq, Eq)]
pub struct ContextLanguageSummary {
    pub language: String,
    pub files: u64,
    pub size_bytes: u64,
}

/// The Git changes that a pack was centred on.
#[derive(Debug, Clone, PartialEq, Eq)]
pub struct ContextDiffSelection {
    pub spec: String,
    pub repo_root: String,
    pub changed_paths: Vec<String>,
    pub changed_files_detected: u64,
    pub changed_files_in_scope: u64,
    pub skipped_deleted_or_missing: u64,
}

/// What the metadata reports of the Git changes.
#[derive(Debug, Clone, PartialEq, Eq)]
pub struct ContextDiffMetadata {
    pub spec: String,
    pub repo_root: String,
    pub changed_files_detected: u64,
    pub changed_files_in_scope: u64,
    pub changed_files_selected: u64,
    pub skipped_deleted_or_missing: u64,
}

/// The metadata of a context pack.
#[derive(Debug, Clone, PartialEq, Eq)]
pub struct ContextMetadata {
    pub base_path: String,
    pub focus_paths: Vec<String>,
    pub diff: Option<ContextDiffMetadata>,
    pub budget_tokens: u64,
    pub metadata_budget_tokens: u64,
    pub excerpt_budget_tokens: u64,
    pub estimated_tokens: u64,
    pub estimated_metadata_tokens: u64,
    pub estimated_excerpt_tokens: u64,
    pub files_considered: u64,
    pub files_selected: u64,
    pub truncated_files: u64,
}

/// A complete context pack.
#[derive(Debug, Clone, PartialEq, Eq)]
pub struct ContextReport {
    pub metadata: ContextMetadata,
    pub dominant_languages: Vec<ContextLanguageSummary>,
    pub groups: Vec<ContextGroupSummary>,
    pub files: Vec<ContextFile>,
}

/// The files of `files` that belong to `group`, in order.
pub open spec fn files_of_group(files: Seq<ContextFile>, group: ContextGroupKind) -> Seq<ContextFile> {
    files.filter(|f: ContextFile| f.group == group)
}

impl ContextReport {
    /// The files of the pack that belong to `group_kind`, in pack order.
    pub fn files_in_group(&self, group_kind: ContextGroupKind) -> (r: Vec<&ContextFile>)
        ensures
            r@.map_values(|f: &ContextFile| *f) == files_of_group(self.files@, group_kind),
    {
        let mut r: Vec<&ContextFile> = Vec::new();
        let mut i: usize = 0;
        while i < self.files.len()
            invariant
                i <= self.files@.len(),
                r@.map_values(|f: &ContextFile| *f) == files_of_group(self.files@.take(i as int), group_kind),
            decreases self.files@.len() - i,
        {
            proof {
                reveal_with_fuel(Seq::filter, 1);
                assert(self.files@.take(i + 1).drop_last() =~= self.files@.take(i as int));
            }
            if self.files[i].group == group_kind {
                r.push(&self.files[i]);
            }
            i = i + 1;
            proof {
                assert(r@.map_values(|f: &ContextFile| *f) =~= files_of_group(self.files@.take(i as int), group_kind));
            }
        }
        assert(self.files@.take(i as int) =~= self.files@);
        r
    }
}

} // verus!

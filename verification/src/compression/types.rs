//! Compression modes, the languages with a syntax grammar, and the result of
//! a compression.
use vstd::prelude::*;
use crate::text::str_eq;

verus! {

/// How source files are compressed in a context pack.
#[derive(Debug, Clone, Copy, PartialEq, Eq, Structural)]
pub enum CompressionMode {
    /// The file content as it is (named `none` in flags and files).
    Disabled,
    /// Top-level signatures, type definitions and imports; bodies become `{ … }`.
    Signatures,
    /// Signatures plus top-level control flow and key statements.
    Skeleton,
}

impl CompressionMode {
    pub open spec fn spec_as_str(self) -> Seq<char> {
        match self {
            CompressionMode::Disabled => "none"@,
            CompressionMode::Signatures => "signatures"@,
            CompressionMode::Skeleton => "skeleton"@,
        }
    }

    /// The kebab-case name used in flags and configuration files.
    pub fn as_str(self) -> (r: &'static str)
        ensures
            r@ == self.spec_as_str(),
    {
        match self {
            CompressionMode::Disabled => "none",
            CompressionMode::Signatures => "signatures",
            CompressionMode::Skeleton => "skeleton",
        }
    }

    /// Whether compression is active, that is, the mode is not `Disabled`.
    pub fn is_enabled(self) -> (r: bool)
        ensures
            r == !(self is Disabled),
    {
        !matches!(self, CompressionMode::Disabled)
    }
}

/// The result of compressing one source file.
#[derive(Debug, Clone, PartialEq, Eq)]
pub struct CompressedOutput {
    /// The compressed text.
    pub content: String,
    /// Number of structural items extracted.
    pub items_extracted: u64,
    /// Whether the parser reported syntax errors in the input.
    pub had_parse_errors: bool,
}

/// A language for which a syntax grammar is linked in.
#[derive(Debug, Clone, Copy, PartialEq, Eq, Hash, Structural)]
pub enum SupportedLanguage {
    Rust,
    Python,
    TypeScript,
    JavaScript,
    Go,
    Java,
    Cpp,
    C,
}

/// The grammar language for a language name, as `from_language_name` maps it.
pub open spec fn language_for_name(name: Seq<char>) -> Option<SupportedLanguage> {
    if name == "Rust"@ {
        Some(SupportedLanguage::Rust)
    } else if name == "Python"@ {
        Some(SupportedLanguage::Python)
    } else if name == "TypeScript"@ || name == "TSX"@ {
        Some(SupportedLanguage::TypeScript)
    } else if name == "JavaScript"@ || name == "JSX"@ {
        Some(SupportedLanguage::JavaScript)
    } else if name == "Go"@ {
        Some(SupportedLanguage::Go)
    } else if name == "Java"@ {
        Some(SupportedLanguage::Java)
    } else if name == "C++"@ {
        Some(SupportedLanguage::Cpp)
    } else if name == "C"@ || name == "C Header"@ {
        Some(SupportedLanguage::C)
    } else {
        None
    }
}

impl SupportedLanguage {
    /// The grammar language for a language name, or `None` for a language
    /// without a linked grammar.
    pub fn from_language_name(name: &str) -> (r: Option<SupportedLanguage>)
        ensures
            r == language_for_name(name@),
    {
        if str_eq(name, "Rust") {
            Some(SupportedLanguage::Rust)
        } else if str_eq(name, "Python") {
            Some(SupportedLanguage::Python)
        } else if str_eq(name, "TypeScript") || str_eq(name, "TSX") {
            Some(SupportedLanguage::TypeScript)
        } else if str_eq(name, "JavaScript") || str_eq(name, "JSX") {
            Some(SupportedLanguage::JavaScript)
        } else if str_eq(name, "Go") {
            Some(SupportedLanguage::Go)
        } else if str_eq(name, "Java") {
            Some(SupportedLanguage::Java)
        } else if str_eq(name, "C++") {
            Some(SupportedLanguage::Cpp)
        } else if str_eq(name, "C") || str_eq(name, "C Header") {
            Some(SupportedLanguage::C)
        } else {
            None
        }
    }

    /// Every supported language, each once.
    pub fn all() -> (r: Vec<SupportedLanguage>)
        ensures
            r@ == seq![
                SupportedLanguage::Rust,
                SupportedLanguage::Python,
                SupportedLanguage::TypeScript,
                SupportedLanguage::JavaScript,
                SupportedLanguage::Go,
                SupportedLanguage::Java,
                SupportedLanguage::Cpp,
                SupportedLanguage::C,
            ],
    {
        vec![
            SupportedLanguage::Rust,
            SupportedLanguage::Python,
            SupportedLanguage::TypeScript,
            SupportedLanguage::JavaScript,
            SupportedLanguage::Go,
            SupportedLanguage::Java,
            SupportedLanguage::Cpp,
            SupportedLanguage::C,
        ]
    }
}

} // verus!

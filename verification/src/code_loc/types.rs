//! Line-count metrics and reports.
use vstd::prelude::*;

verus! {

/// Counts of code, comment and empty lines, and a size in bytes.
#[derive(Debug, Clone, Copy, PartialEq, Eq, Default)]
pub struct LocMetrics {
    pub code_lines: u64,
    pub comment_lines: u64,
    pub empty_lines: u64,
    pub size_bytes: u64,
}

impl LocMetrics {
    /// All counts zero.
    pub fn zero() -> (r: Self)
        ensures
            r.code_lines == 0,
            r.comment_lines == 0,
            r.empty_lines == 0,
            r.size_bytes == 0,
    {
        LocMetrics { code_lines: 0, comment_lines: 0, empty_lines: 0, size_bytes: 0 }
    }

    /// The sum of `self` and `other` fits in every field.
    pub open spec fn can_add(self, other: Self) -> bool {
        &&& self.code_lines + other.code_lines <= u64::MAX
        &&& self.comment_lines + other.comment_lines <= u64::MAX
        &&& self.empty_lines + other.empty_lines <= u64::MAX
        &&& self.size_bytes + other.size_bytes <= u64::MAX
    }

    /// Adds `other` field by field.
    pub fn add_assign(&mut self, other: Self)
        requires
            old(self).can_add(other),
        ensures
            final(self).code_lines == old(self).code_lines + other.code_lines,
            final(self).comment_lines == old(self).comment_lines + other.comment_lines,
            final(self).empty_lines == old(self).empty_lines + other.empty_lines,
            final(self).size_bytes == old(self).size_bytes + other.size_bytes,
    {
        self.code_lines = self.code_lines + other.code_lines;
        self.comment_lines = self.comment_lines + other.comment_lines;
        self.empty_lines = self.empty_lines + other.empty_lines;
        self.size_bytes = self.size_bytes + other.size_bytes;
    }

    /// The field-by-field sum, when every field fits.
    pub fn checked_add(self, other: Self) -> (r: Option<Self>)
        ensures
            self.can_add(other) ==> r == Some(LocMetrics {
                code_lines: (self.code_lines + other.code_lines) as u64,
                comment_lines: (self.comment_lines + other.comment_lines) as u64,
                empty_lines: (self.empty_lines + other.empty_lines) as u64,
                size_bytes: (self.size_bytes + other.size_bytes) as u64,
            }),
            !self.can_add(other) ==> r is None,
    {
        if self.code_lines <= u64::MAX - other.code_lines && self.comment_lines <= u64::MAX - other.comment_lines
            && self.empty_lines <= u64::MAX - other.empty_lines && self.size_bytes <= u64::MAX - other.size_bytes {
            let mut sum = self;
            sum.add_assign(other);
            Some(sum)
        } else {
            None
        }
    }

    /// Some count is non-zero.
    pub open spec fn spec_has_content(self) -> bool {
        self.code_lines > 0 || self.comment_lines > 0 || self.empty_lines > 0 || self.size_bytes > 0
    }

    /// Whether some count is non-zero.
    pub fn has_content(self) -> (r: bool)
        ensures
            r == self.spec_has_content(),
    {
        self.code_lines > 0 || self.comment_lines > 0 || self.empty_lines > 0 || self.size_bytes > 0
    }
}

/// The metrics of one language.
#[derive(Debug, Clone, Copy, PartialEq, Eq)]
pub struct LanguageLoc {
    pub language: &'static str,
    pub metrics: LocMetrics,
}

} // verus!

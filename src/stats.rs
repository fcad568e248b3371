//! Counters reported by compilation and by scanning.
use vstd::prelude::*;

verus! {

/// Byte and pattern accounting of one compilation.
#[derive(Clone, Copy, Debug, PartialEq, Eq, Structural)]
pub struct CompilerStats {
    pub total_input_bytes: u64,
    pub total_stored_bytes: u64,
    pub stored_pattern_count: u32,
    pub short_pattern_count: u32,
    pub duplicate_patterns: u32,
    pub smallest_pattern_length: u32,
    pub largest_pattern_length: u32,
}

impl CompilerStats {
    pub open spec fn zeroed() -> Self {
        CompilerStats {
            total_input_bytes: 0,
            total_stored_bytes: 0,
            stored_pattern_count: 0,
            short_pattern_count: 0,
            duplicate_patterns: 0,
            smallest_pattern_length: 0,
            largest_pattern_length: 0,
        }
    }

    pub fn new() -> (r: Self)
        ensures
            r == Self::zeroed(),
    {
        CompilerStats {
            total_input_bytes: 0,
            total_stored_bytes: 0,
            stored_pattern_count: 0,
            short_pattern_count: 0,
            duplicate_patterns: 0,
            smallest_pattern_length: 0,
            largest_pattern_length: 0,
        }
    }
}

/// The pattern accounting that a loaded match file reports.
#[derive(Clone, Copy, Debug, PartialEq, Eq, Structural)]
pub struct MatchPatternStats {
    pub total_input_bytes: u64,
    pub total_stored_bytes: u64,
    pub stored_pattern_count: u32,
    pub short_pattern_count: u32,
    pub duplicate_patterns: u32,
    pub smallest_pattern_length: u32,
    pub largest_pattern_length: u32,
}

impl MatchPatternStats {
    pub open spec fn zeroed() -> Self {
        MatchPatternStats {
            total_input_bytes: 0,
            total_stored_bytes: 0,
            stored_pattern_count: 0,
            short_pattern_count: 0,
            duplicate_patterns: 0,
            smallest_pattern_length: 0,
            largest_pattern_length: 0,
        }
    }

    pub fn new() -> (r: Self)
        ensures
            r == Self::zeroed(),
    {
        MatchPatternStats {
            total_input_bytes: 0,
            total_stored_bytes: 0,
            stored_pattern_count: 0,
            short_pattern_count: 0,
            duplicate_patterns: 0,
            smallest_pattern_length: 0,
            largest_pattern_length: 0,
        }
    }
}

/// `a + b`, or `u64::MAX` where that does not fit.
pub open spec fn sat(a: u64, b: u64) -> u64 {
    if a + b > u64::MAX {
        u64::MAX
    } else {
        (a + b) as u64
    }
}

/// Counters of one or more scans.
#[derive(Clone, Copy, Debug, PartialEq, Eq, Structural)]
pub struct MatcherStats {
    pub total_hits: u64,
    pub total_misses: u64,
    pub total_filtered: u64,
    pub total_attempts: u64,
    pub total_comparisons: u64,
}

impl MatcherStats {
    pub open spec fn zeroed() -> Self {
        MatcherStats {
            total_hits: 0,
            total_misses: 0,
            total_filtered: 0,
            total_attempts: 0,
            total_comparisons: 0,
        }
    }

    pub fn new() -> (r: Self)
        ensures
            r == Self::zeroed(),
    {
        MatcherStats {
            total_hits: 0,
            total_misses: 0,
            total_filtered: 0,
            total_attempts: 0,
            total_comparisons: 0,
        }
    }

    /// Each counter of `self` plus that of `other`, saturating at `u64::MAX`.
    pub open spec fn added(self, other: Self) -> Self {
        MatcherStats {
            total_hits: sat(self.total_hits, other.total_hits),
            total_misses: sat(self.total_misses, other.total_misses),
            total_filtered: sat(self.total_filtered, other.total_filtered),
            total_attempts: sat(self.total_attempts, other.total_attempts),
            total_comparisons: sat(self.total_comparisons, other.total_comparisons),
        }
    }

    pub fn add(&self, other: &Self) -> (r: Self)
        ensures
            r == self.added(*other),
    {
        MatcherStats {
            total_hits: self.total_hits.saturating_add(other.total_hits),
            total_misses: self.total_misses.saturating_add(other.total_misses),
            total_filtered: self.total_filtered.saturating_add(other.total_filtered),
            total_attempts: self.total_attempts.saturating_add(other.total_attempts),
            total_comparisons: self.total_comparisons.saturating_add(other.total_comparisons),
        }
    }
}

} // verus!

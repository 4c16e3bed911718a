//! Counters of one processing run.

use vstd::prelude::*;

use crate::hardlink::ReplaceResult;

verus! {

/// `x + 1`, held at the top of the range.
pub open spec fn sat_inc(x: usize) -> usize {
    if x < usize::MAX {
        (x + 1) as usize
    } else {
        x
    }
}

/// `x + y`, held at the top of the range.
pub open spec fn sat_add_usize(x: usize, y: usize) -> usize {
    if x + y <= usize::MAX {
        (x + y) as usize
    } else {
        usize::MAX
    }
}

/// `x + y`, held at the top of the range.
pub open spec fn sat_add_u64(x: u64, y: u64) -> u64 {
    if x + y <= u64::MAX {
        (x + y) as u64
    } else {
        u64::MAX
    }
}

/// `x * y`, held at the top of the range.
pub open spec fn sat_mul_u64(x: u64, y: u64) -> u64 {
    if x * y <= u64::MAX {
        (x * y) as u64
    } else {
        u64::MAX
    }
}

/// What one run counted: how many duplicates were seen, how each
/// replacement ended, and how many bytes the replacements share.
/// Counts saturate instead of overflowing.
#[derive(Debug)]
pub struct Stats {
    /// Duplicates found, over all groups.
    pub total_duplicates: usize,
    /// Replacements that ended in `Replaced`.
    pub replaced: usize,
    /// Replacements that ended in `AlreadyLinked`.
    pub already_linked: usize,
    /// Replacements that ended in `CrossFilesystem`.
    pub cross_filesystem: usize,
    /// Replacements that ended in `RolledBack`, `RollbackFailed` or
    /// `Error`.
    pub errors: usize,
    /// Bytes shared, or planned to be shared: group file size times
    /// duplicate count, summed.
    pub total_savings: u64,
}

impl Stats {
    /// All counters at zero.
    pub fn new() -> (r: Self)
        ensures
            r.total_duplicates == 0,
            r.replaced == 0,
            r.already_linked == 0,
            r.cross_filesystem == 0,
            r.errors == 0,
            r.total_savings == 0,
    {
        Stats {
            total_duplicates: 0,
            replaced: 0,
            already_linked: 0,
            cross_filesystem: 0,
            errors: 0,
            total_savings: 0,
        }
    }

    /// Accounts one duplicate group before its replacements are
    /// attempted: `count` duplicates of a file of `size` bytes.
    pub fn add_group(&mut self, size: u64, count: usize)
        ensures
            final(self).total_duplicates == sat_add_usize(old(self).total_duplicates, count),
            final(self).total_savings == sat_add_u64(
                old(self).total_savings,
                sat_mul_u64(size, count as u64),
            ),
            final(self).replaced == old(self).replaced,
            final(self).already_linked == old(self).already_linked,
            final(self).cross_filesystem == old(self).cross_filesystem,
            final(self).errors == old(self).errors,
    {
        self.total_duplicates = self.total_duplicates.saturating_add(count);
        let group_savings = match size.checked_mul(count as u64) {
            Some(v) => v,
            None => u64::MAX,
        };
        self.total_savings = self.total_savings.saturating_add(group_savings);
    }

    /// Accounts the outcome of one replacement.
    pub fn record(&mut self, outcome: &ReplaceResult)
        ensures
            final(self).replaced == if outcome is Replaced {
                sat_inc(old(self).replaced)
            } else {
                old(self).replaced
            },
            final(self).already_linked == if outcome is AlreadyLinked {
                sat_inc(old(self).already_linked)
            } else {
                old(self).already_linked
            },
            final(self).cross_filesystem == if outcome is CrossFilesystem {
                sat_inc(old(self).cross_filesystem)
            } else {
                old(self).cross_filesystem
            },
            final(self).errors == if outcome is RolledBack || outcome is RollbackFailed
                || outcome is Error {
                sat_inc(old(self).errors)
            } else {
                old(self).errors
            },
            final(self).total_duplicates == old(self).total_duplicates,
            final(self).total_savings == old(self).total_savings,
    {
        match outcome {
            ReplaceResult::Replaced => {
                self.replaced = self.replaced.saturating_add(1);
            },
            ReplaceResult::AlreadyLinked => {
                self.already_linked = self.already_linked.saturating_add(1);
            },
            ReplaceResult::CrossFilesystem => {
                self.cross_filesystem = self.cross_filesystem.saturating_add(1);
            },
            ReplaceResult::RolledBack(_) => {
                self.errors = self.errors.saturating_add(1);
            },
            ReplaceResult::RollbackFailed(_) => {
                self.errors = self.errors.saturating_add(1);
            },
            ReplaceResult::Error(_) => {
                self.errors = self.errors.saturating_add(1);
            },
        }
    }
}

} // verus!

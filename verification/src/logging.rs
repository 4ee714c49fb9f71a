//! Rotation of the log file: which archived copies to drop and rename.

use vstd::prelude::*;
use vstd::string::StringExecFns;
use crate::text::{push_decimal, spec_decimal_chars};

verus! {

/// Log files kept: the current one and its archives.
pub const LOG_FILES_TO_KEEP: usize = 3;

/// Size from which the log file is rotated.
pub const MAX_LOG_FILE_BYTES: u64 = 256 * 1024;

/// One file operation of a rotation. Archive `i` is the log file's name
/// followed by "." and `i`.
#[derive(Debug, Clone, Copy, PartialEq, Eq)]
pub enum RotationStep {
    /// Delete archive `i` if it exists.
    RemoveIfExists(usize),
    /// Rename archive `from` to archive `to` if it exists.
    RenameIfExists(usize, usize),
    /// Rename the log file itself to archive `i` if it exists.
    RenameBaseTo(usize),
}

/// The rotation of a log file of `size` bytes: none below `max_bytes` or when
/// at most one file is kept; otherwise drop the oldest archive (number
/// `keep - 1`), shift every other archive up by one, newest last, and make
/// the log file archive 1.
pub open spec fn spec_rotation_plan(size: u64, max_bytes: u64, keep: usize) -> Seq<RotationStep> {
    if size < max_bytes || keep <= 1 {
        Seq::empty()
    } else {
        let oldest = (keep - 1) as int;
        Seq::new(
            oldest as nat + 1,
            |j: int|
                if j == 0 {
                    RotationStep::RemoveIfExists(oldest as usize)
                } else if j < oldest {
                    RotationStep::RenameIfExists((oldest - j) as usize, (oldest - j + 1) as usize)
                } else {
                    RotationStep::RenameBaseTo(1)
                },
        )
    }
}

pub fn rotation_plan(size: u64, max_bytes: u64, keep: usize) -> (plan: Vec<RotationStep>)
    ensures
        plan@ == spec_rotation_plan(size, max_bytes, keep),
{
    let mut plan: Vec<RotationStep> = Vec::new();
    if size < max_bytes || keep <= 1 {
        assert(plan@ =~= spec_rotation_plan(size, max_bytes, keep));
        return plan;
    }
    let archive_max = keep - 1;
    let ghost full = spec_rotation_plan(size, max_bytes, keep);
    plan.push(RotationStep::RemoveIfExists(archive_max));
    let mut idx = archive_max;
    while idx > 1
        invariant
            archive_max == keep - 1,
            archive_max >= 1,
            1 <= idx <= archive_max,
            full == spec_rotation_plan(size, max_bytes, keep),
            !(size < max_bytes || keep <= 1),
            plan@.len() == archive_max - idx + 1,
            forall|j: int| 0 <= j < plan@.len() ==> #[trigger] plan@[j] == full[j],
        decreases idx,
    {
        idx = idx - 1;
        plan.push(RotationStep::RenameIfExists(idx, idx + 1));
    }
    plan.push(RotationStep::RenameBaseTo(1));
    assert(plan@ =~= full);
    plan
}

/// In a rotation every rename lands on the archive that the step before it
/// emptied, so no archive that is kept gets overwritten; the oldest archive
/// is the one dropped, and the log file always ends up as archive 1.
pub proof fn lemma_rotation_never_overwrites(size: u64, max_bytes: u64, keep: usize)
    requires
        size >= max_bytes,
        keep > 1,
    ensures
        ({
            let plan = spec_rotation_plan(size, max_bytes, keep);
            &&& plan.len() == keep
            &&& plan[0] == RotationStep::RemoveIfExists((keep - 1) as usize)
            &&& plan.last() == RotationStep::RenameBaseTo(1)
            &&& forall|j: int|
                1 <= j < plan.len() ==> match #[trigger] plan[j] {
                    RotationStep::RenameIfExists(from, to) => to == from + 1 && match plan[j - 1] {
                        RotationStep::RemoveIfExists(i) => i == to,
                        RotationStep::RenameIfExists(f, _) => f == to,
                        RotationStep::RenameBaseTo(_) => false,
                    },
                    RotationStep::RenameBaseTo(to) => match plan[j - 1] {
                        RotationStep::RemoveIfExists(i) => i == to,
                        RotationStep::RenameIfExists(f, _) => f == to,
                        RotationStep::RenameBaseTo(_) => false,
                    },
                    RotationStep::RemoveIfExists(_) => false,
                }
        }),
{
}

/// The file name of archive `index` of the log file `name`.
pub fn rotated_file_name(name: &str, index: usize) -> (r: String)
    ensures
        r@ == name@ + seq!['.'] + spec_decimal_chars(index as nat),
{
    proof {
        reveal_strlit(".");
    }
    let mut r = String::from_str(name);
    r.append(".");
    push_decimal(&mut r, index as u64);
    assert(r@ =~= name@ + seq!['.'] + spec_decimal_chars(index as nat));
    r
}

} // verus!

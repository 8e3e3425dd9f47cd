//! The decisions of a file removal, apart from the file system calls.
use vstd::prelude::*;
use vstd::string::StringSliceAdditionalSpecFns;

verus! {

/// What to do with one operand of a removal.
#[derive(Debug, Clone, Copy, PartialEq, Eq, Structural)]
pub enum RemovePlan {
    /// `.` and `..` are never removed.
    RefuseDotEntry,
    /// A directory is removed only recursively.
    RefuseDirectory,
    /// Ask first; remove only on a yes.
    Confirm,
    /// Remove without asking.
    Remove,
}

/// Whether the bytes are `.` or `..`.
pub open spec fn is_dot_entry(b: Seq<u8>) -> bool {
    b == seq![46u8] || b == seq![46u8, 46u8]
}

/// The plan for an operand named `b` with the given attributes and options.
pub open spec fn removal_plan(
    b: Seq<u8>,
    is_dir: bool,
    readonly: bool,
    force: bool,
    recursive: bool,
    interactive: bool,
) -> RemovePlan {
    if is_dot_entry(b) {
        RemovePlan::RefuseDotEntry
    } else if is_dir && !recursive {
        RemovePlan::RefuseDirectory
    } else if (!force && readonly) || interactive {
        RemovePlan::Confirm
    } else {
        RemovePlan::Remove
    }
}

/// Decides what to do with the operand `name`: refuse `.` and `..`, refuse a
/// directory unless `recursive`, ask when it is read-only without `force` or
/// when `interactive`, and otherwise remove.
pub fn plan_removal(
    name: &str,
    is_dir: bool,
    readonly: bool,
    force: bool,
    recursive: bool,
    interactive: bool,
) -> (r: RemovePlan)
    ensures
        r == removal_plan(name.spec_bytes(), is_dir, readonly, force, recursive, interactive),
{
    let b = name.as_bytes();
    let dot = (b.len() == 1 && b[0] == 46u8) || (b.len() == 2 && b[0] == 46u8 && b[1] == 46u8);
    assert(dot == is_dot_entry(b@)) by {
        if b@.len() == 1 && b@[0] == 46u8 {
            assert(b@ =~= seq![46u8]);
        }
        if b@.len() == 2 && b@[0] == 46u8 && b@[1] == 46u8 {
            assert(b@ =~= seq![46u8, 46u8]);
        }
    }
    if dot {
        RemovePlan::RefuseDotEntry
    } else if is_dir && !recursive {
        RemovePlan::RefuseDirectory
    } else if (!force && readonly) || interactive {
        RemovePlan::Confirm
    } else {
        RemovePlan::Remove
    }
}

/// Whether an answer to a confirmation prompt is a yes: it starts with `y`.
pub fn is_yes(answer: &str) -> (r: bool)
    ensures
        r == (answer.spec_bytes().len() > 0 && answer.spec_bytes()[0] == 121u8),
{
    let b = answer.as_bytes();
    b.len() > 0 && b[0] == 121u8
}

} // verus!

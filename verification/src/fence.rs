//! The code-fence tracker: recognizes fence-opening and fence-closing lines.

use vstd::prelude::*;
use crate::text::{count_leading, find_not_from};

verus! {

/// The width of the run of backticks at the start of `line`.
pub open spec fn spec_fence_run(line: Seq<char>) -> int {
    find_not_from(line, '`', 0)
}

/// A line opens a fence when it starts with at least three backticks; the
/// fence's width is the length of that run.
pub open spec fn spec_fence_open(line: Seq<char>) -> Option<int> {
    if spec_fence_run(line) >= 3 {
        Some(spec_fence_run(line))
    } else {
        None
    }
}

/// A fence of width `w` closes on a line whose first `w` characters are all
/// backticks; whatever follows them on that line is irrelevant.
pub open spec fn spec_fence_close(line: Seq<char>, w: int) -> bool {
    spec_fence_run(line) >= w
}

/// Whether `line` opens a fence, and of what width.
pub fn is_code_block_start(line: &str) -> (r: Option<usize>)
    ensures
        match r {
            Some(w) => spec_fence_open(line@) == Some(w as int),
            None => spec_fence_open(line@) is None,
        },
{
    let run = count_leading(line, '`');
    if run >= 3 {
        Some(run)
    } else {
        None
    }
}

/// Whether `line` closes a fence of width `backtick_count`.
pub fn is_code_block_end(line: &str, backtick_count: usize) -> (r: bool)
    ensures
        r == spec_fence_close(line@, backtick_count as int),
{
    let run = count_leading(line, '`');
    run >= backtick_count
}

} // verus!

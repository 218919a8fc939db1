//! The header-line converter: removes the first top-level header and demotes
//! every other header by one level.

use vstd::prelude::*;
use vstd::string::StrSliceExecFns;
use crate::errors::{Error, SpecError};
use crate::text::{count_leading, find_not_from};

verus! {

/// What the header converter decides for one line.
pub enum HeaderStep {
    /// The line is not a header line: the next converter gets it.
    NotHeader,
    /// The line is the document's first header and it is top-level: the whole
    /// line, terminator included, disappears from the output.
    Consumed,
    /// The line is a header of level two or more: one leading `#` is removed.
    Demoted,
    /// The line is a top-level header but a header was already seen.
    DuplicateTop,
}

/// The header level of `line`: the length of its leading run of `#`.
pub open spec fn spec_header_level(line: Seq<char>) -> int {
    find_not_from(line, '#', 0)
}

/// A header line starts with one or more `#` immediately followed by a space.
pub open spec fn spec_is_header(line: Seq<char>) -> bool {
    &&& spec_header_level(line) > 0
    &&& spec_header_level(line) < line.len()
    &&& line[spec_header_level(line)] == ' '
}

/// What the header converter does to `line` when the document's
/// first-header flag is `first`.
pub open spec fn spec_header_step(line: Seq<char>, first: bool) -> HeaderStep {
    if !spec_is_header(line) {
        HeaderStep::NotHeader
    } else if spec_header_level(line) == 1 {
        if first {
            HeaderStep::Consumed
        } else {
            HeaderStep::DuplicateTop
        }
    } else {
        HeaderStep::Demoted
    }
}

/// Converts a header line, or reports that `line` is not one.
///
/// Returns `Ok(Some(text))` with the converted line content, `Ok(None)` when
/// `line` is no header line, and an error when `line` is a second top-level
/// header. The first-header flag is cleared by every header line.
pub fn convert_header_line<'a>(line: &'a str, is_first_header: &mut bool) -> (r: Result<
    Option<&'a str>,
    Error,
>)
    ensures
        match spec_header_step(line@, *old(is_first_header)) {
            HeaderStep::NotHeader => r matches Ok(o) && o is None && *final(is_first_header) == *old(
                is_first_header,
            ),
            HeaderStep::Consumed => r matches Ok(o) && (o matches Some(out) && out@
                == Seq::<char>::empty()) && *final(is_first_header) == false,
            HeaderStep::Demoted => r matches Ok(o) && (o matches Some(out) && out@ == line@.skip(
                1,
            )) && *final(is_first_header) == false,
            HeaderStep::DuplicateTop => r matches Err(e) && e@ == SpecError::NonFirstTopLevelHeader(
                line@,
            ) && *final(is_first_header) == *old(is_first_header),
        },
{
    let n = line.unicode_len();
    let level = count_leading(line, '#');
    if level > 0 && level < n && line.get_char(level) == ' ' {
        if level == 1 {
            if *is_first_header {
                *is_first_header = false;
                proof {
                    reveal_strlit("");
                    assert(""@ =~= Seq::<char>::empty());
                }
                Ok(Some(""))
            } else {
                Err(Error::NonFirstTopLevelHeader(line.to_owned()))
            }
        } else {
            *is_first_header = false;
            Ok(Some(line.substring_char(1, n)))
        }
    } else {
        Ok(None)
    }
}

} // verus!

//! The link-line converter: recognizes a reference-link-definition line,
//! extracts its URL span, and delegates to the URL converter.

use vstd::prelude::*;
use vstd::string::{StrSliceExecFns, StringExecFns};
use crate::errors::{Error, SpecError};
use crate::text::{
    find_char, find_from, find_non_ws, find_non_ws_from, find_ws, find_ws_from, lemma_find_from,
    lemma_find_non_ws_from, lemma_find_ws_from, opt_view,
};
use crate::url::{convert_url, spec_convert_url};

verus! {

/// Where the URL span of a link-definition line stands: the line matches
/// `[<label>]:<whitespace><url>` with at least one whitespace character after
/// the colon and a non-empty URL span ending at the next whitespace.
pub open spec fn spec_link_spans(line: Seq<char>) -> Option<(int, int)> {
    if line.len() == 0 || line[0] != '[' {
        None
    } else {
        let close = find_from(line, ']', 0);
        if close >= line.len() {
            None
        } else if close + 1 >= line.len() || line[close + 1] != ':' {
            None
        } else {
            let start = find_non_ws_from(line, close + 2);
            if start >= line.len() {
                None
            } else if start == close + 2 {
                None
            } else {
                Some((start, find_ws_from(line, start)))
            }
        }
    }
}

/// What the link converter does to `line`: `None` when the line is not a
/// link-definition line, otherwise the line with only its URL span replaced
/// by the URL converter's output, or that converter's error.
pub open spec fn spec_link_step(
    line: Seq<char>,
    pkg: Seq<char>,
    ver: Option<Seq<char>>,
    krate: Option<Seq<char>>,
) -> Option<Result<Seq<char>, SpecError>> {
    match spec_link_spans(line) {
        None => None,
        Some((start, end)) => match spec_convert_url(line.subrange(start, end), pkg, ver, krate) {
            Ok(link) => Some(Ok(line.take(start) + link + line.skip(end))),
            Err(e) => Some(Err(e)),
        },
    }
}

/// Converts a link-definition line, or reports that `line` is not one.
///
/// Returns `Ok(Some(text))` with the whole line rewritten, `Ok(None)` when the
/// line does not have the link-definition shape, and an error when its URL
/// points at the package's documentation but cannot be converted.
pub fn convert_link_line(
    line: &str,
    package_name: &str,
    version: Option<&str>,
    crate_name: Option<&str>,
) -> (r: Result<Option<String>, Error>)
    ensures
        match spec_link_step(line@, package_name@, opt_view(version), opt_view(crate_name)) {
            None => r matches Ok(o) && o is None,
            Some(Ok(out)) => r matches Ok(o) && (o matches Some(s) && s@ == out),
            Some(Err(e)) => r matches Err(err) && err@ == e,
        },
{
    let n = line.unicode_len();
    if n == 0 || line.get_char(0) != '[' {
        return Ok(None);
    }
    let close = find_char(line, ']', 0);
    proof {
        lemma_find_from(line@, ']', 0);
    }
    if close >= n {
        return Ok(None);
    }
    if close + 1 >= n || line.get_char(close + 1) != ':' {
        return Ok(None);
    }
    let url_start = find_non_ws(line, close + 2);
    proof {
        lemma_find_non_ws_from(line@, close + 2);
    }
    if url_start >= n {
        return Ok(None);
    }
    if url_start == close + 2 {
        return Ok(None);
    }
    let url_end = find_ws(line, url_start);
    proof {
        lemma_find_ws_from(line@, url_start as int);
    }
    let url = line.substring_char(url_start, url_end);
    match convert_url(url, package_name, version, crate_name) {
        Ok(link) => {
            let mut out = String::new();
            out.append(line.substring_char(0, url_start));
            out.append(link.as_str());
            out.append(line.substring_char(url_end, n));
            proof {
                assert(line@.subrange(0, url_start as int) =~= line@.take(url_start as int));
                assert(line@.subrange(url_end as int, n as int) =~= line@.skip(url_end as int));
                assert(Seq::<char>::empty() + line@.take(url_start as int) =~= line@.take(
                    url_start as int,
                ));
            }
            Ok(Some(out))
        },
        Err(error) => Err(error),
    }
}

} // verus!

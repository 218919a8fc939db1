//! The document transformer: walks the document line by line, consults the
//! fence tracker, and applies the header and link converters.

use vstd::prelude::*;
use vstd::string::{StrSliceExecFns, StringExecFns};
use crate::errors::{Error, SpecError};
use crate::fence::{is_code_block_end, is_code_block_start, spec_fence_close, spec_fence_open};
use crate::header::{convert_header_line, spec_header_step, HeaderStep};
use crate::link::{convert_link_line, spec_link_step};
use crate::text::{find_char, find_from, lemma_find_from, opt_view};
use crate::url::lemma_find_from_shift;

verus! {

/// The state threaded through the pass: whether the document's first header
/// is still to come, and the width of the open fence, if any.
pub struct ScanState {
    pub first: bool,
    pub fence: Option<int>,
}

/// The state a pass starts in: no header seen, no fence open.
pub open spec fn initial_state() -> ScanState {
    ScanState { first: true, fence: None }
}

/// The mathematical view of the transformer's executable state.
pub open spec fn st_of(first: bool, fence: Option<usize>) -> ScanState {
    ScanState {
        first,
        fence: match fence {
            Some(w) => Some(w as int),
            None => None,
        },
    }
}

/// What one line contributes to the output, and the state the pass continues
/// in. A line inside a fence, a fence delimiter line, and a line no converter
/// matches are copied verbatim; headers and link definitions are converted.
pub open spec fn spec_line_step(
    line: Seq<char>,
    st: ScanState,
    pkg: Seq<char>,
    ver: Option<Seq<char>>,
    krate: Option<Seq<char>>,
) -> Result<(Seq<char>, ScanState), SpecError> {
    match st.fence {
        Some(w) => Ok(
            (
                line,
                ScanState {
                    first: st.first,
                    fence: if spec_fence_close(line, w) {
                        None
                    } else {
                        Some(w)
                    },
                },
            ),
        ),
        None => match spec_fence_open(line) {
            Some(w) => Ok((line, ScanState { first: st.first, fence: Some(w) })),
            None => match spec_header_step(line, st.first) {
                HeaderStep::Consumed => Ok(
                    (Seq::empty(), ScanState { first: false, fence: None }),
                ),
                HeaderStep::Demoted => Ok((line.skip(1), ScanState { first: false, fence: None })),
                HeaderStep::DuplicateTop => Err(SpecError::NonFirstTopLevelHeader(line)),
                HeaderStep::NotHeader => match spec_link_step(line, pkg, ver, krate) {
                    Some(Ok(out)) => Ok((out, st)),
                    Some(Err(e)) => Err(e),
                    None => Ok((line, st)),
                },
            },
        },
    }
}

/// Where the first line of `s` ends: just after the first `\n`, or at the end
/// of `s` when no `\n` is left.
pub open spec fn spec_line_end(s: Seq<char>) -> int {
    let i = find_from(s, '\n', 0);
    if 0 <= i < s.len() {
        i + 1
    } else {
        s.len() as int
    }
}

/// The whole pass from state `st`: the concatenation of what each line
/// contributes, or the first error.
pub open spec fn spec_transform_from(
    s: Seq<char>,
    st: ScanState,
    pkg: Seq<char>,
    ver: Option<Seq<char>>,
    krate: Option<Seq<char>>,
) -> Result<Seq<char>, SpecError>
    decreases s.len(),
{
    if s.len() == 0 {
        Ok(Seq::empty())
    } else {
        let n = spec_line_end(s);
        match spec_line_step(s.take(n), st, pkg, ver, krate) {
            Ok(p) => match spec_transform_from(s.skip(n), p.1, pkg, ver, krate) {
                Ok(tail) => Ok(p.0 + tail),
                Err(e) => Err(e),
            },
            Err(e) => Err(e),
        }
    }
}

/// What [`rustdocify`] returns: the transformed document, or the first error
/// of the pass.
pub open spec fn spec_rustdocify(
    s: Seq<char>,
    pkg: Seq<char>,
    ver: Option<Seq<char>>,
    krate: Option<Seq<char>>,
) -> Result<Seq<char>, SpecError> {
    spec_transform_from(s, initial_state(), pkg, ver, krate)
}

/// Rewrites the given readme for embedding as crate documentation.
///
/// - Removes the top-level header.
/// - Changes every other header to be one level higher.
/// - Converts `docs.rs` links of the given `package_name` to intra-doc form.
/// - Changes nothing within fenced code blocks.
/// - If `version` is given, checks that converted links carry exactly it.
/// - If `crate_name` is given, checks that converted links carry exactly it,
///   if they carry any.
///
/// Line terminators are kept byte for byte; the consumed top-level header
/// disappears together with its terminator.
#[verifier::rlimit(50)]
pub fn rustdocify(
    readme: &str,
    package_name: &str,
    version: Option<&str>,
    crate_name: Option<&str>,
) -> (r: Result<String, Error>)
    ensures
        match r {
            Ok(out) => spec_rustdocify(
                readme@,
                package_name@,
                opt_view(version),
                opt_view(crate_name),
            ) == Ok::<Seq<char>, SpecError>(out@),
            Err(e) => spec_rustdocify(
                readme@,
                package_name@,
                opt_view(version),
                opt_view(crate_name),
            ) == Err::<Seq<char>, SpecError>(e@),
        },
{
    let ghost pkgv = package_name@;
    let ghost verv = opt_view(version);
    let ghost crv = opt_view(crate_name);
    let n = readme.unicode_len();
    let mut is_first_header = true;
    let mut code_block_level: Option<usize> = None;
    let mut result = String::new();
    let mut pos: usize = 0;
    proof {
        assert(readme@.skip(0) =~= readme@);
        assert(st_of(true, None) == initial_state());
        match spec_transform_from(readme@, initial_state(), pkgv, verv, crv) {
            Ok(t0) => {
                assert(Seq::<char>::empty() + t0 =~= t0);
            },
            Err(_) => {},
        }
    }
    while pos < n
        invariant
            pos <= n,
            n == readme@.len(),
            pkgv == package_name@,
            verv == opt_view(version),
            crv == opt_view(crate_name),
            ({
                let full = spec_rustdocify(readme@, pkgv, verv, crv);
                match spec_transform_from(
                    readme@.skip(pos as int),
                    st_of(is_first_header, code_block_level),
                    pkgv,
                    verv,
                    crv,
                ) {
                    Ok(t) => full == Ok::<Seq<char>, SpecError>(result@ + t),
                    Err(e) => full == Err::<Seq<char>, SpecError>(e),
                }
            }),
        decreases n - pos,
    {
        let found = find_char(readme, '\n', pos);
        proof {
            lemma_find_from(readme@, '\n', pos as int);
            lemma_find_from_shift(readme@, '\n', pos as int);
        }
        let line_end = if found < n {
            found + 1
        } else {
            n
        };
        let line = readme.substring_char(pos, line_end);
        let ghost t = readme@.skip(pos as int);
        let ghost st0 = st_of(is_first_header, code_block_level);
        let ghost res0 = result@;
        proof {
            assert(spec_line_end(t) == line_end - pos);
            assert(t.take(line_end - pos) =~= line@);
            assert(t.skip(line_end - pos) =~= readme@.skip(line_end as int));
        }
        match code_block_level {
            Some(level) => {
                // IN CODE BLOCK
                if is_code_block_end(line, level) {
                    code_block_level = None;
                }
                result.append(line);
                proof {
                    assert(spec_line_step(line@, st0, pkgv, verv, crv) == Ok::<
                        (Seq<char>, ScanState),
                        SpecError,
                    >((line@, st_of(is_first_header, code_block_level))));
                }
            },
            None => {
                // NOT IN CODE BLOCK
                let open = is_code_block_start(line);
                if open.is_some() {
                    code_block_level = open;
                    result.append(line);
                    proof {
                        assert(spec_line_step(line@, st0, pkgv, verv, crv) == Ok::<
                            (Seq<char>, ScanState),
                            SpecError,
                        >((line@, st_of(is_first_header, code_block_level))));
                    }
                } else {
                    match convert_header_line(line, &mut is_first_header) {
                        Err(e) => {
                            proof {
                                assert(spec_transform_from(t, st0, pkgv, verv, crv) == Err::<
                                    Seq<char>,
                                    SpecError,
                                >(e@));
                            }
                            return Err(e);
                        },
                        Ok(Some(converted)) => {
                            result.append(converted);
                            proof {
                                assert(spec_line_step(line@, st0, pkgv, verv, crv) matches Ok(p)
                                    && p.0 == converted@ && p.1 == st_of(
                                    is_first_header,
                                    code_block_level,
                                ));
                            }
                        },
                        Ok(None) => {
                            match convert_link_line(line, package_name, version, crate_name) {
                                Err(e) => {
                                    proof {
                                        assert(spec_transform_from(t, st0, pkgv, verv, crv)
                                            == Err::<Seq<char>, SpecError>(e@));
                                    }
                                    return Err(e);
                                },
                                Ok(Some(converted)) => {
                                    result.append(converted.as_str());
                                    proof {
                                        assert(spec_line_step(line@, st0, pkgv, verv, crv)
                                            matches Ok(p) && p.0 == converted@ && p.1 == st_of(
                                            is_first_header,
                                            code_block_level,
                                        ));
                                    }
                                },
                                Ok(None) => {
                                    result.append(line);
                                    proof {
                                        assert(spec_line_step(line@, st0, pkgv, verv, crv) == Ok::<
                                            (Seq<char>, ScanState),
                                            SpecError,
                                        >((line@, st_of(is_first_header, code_block_level))));
                                    }
                                },
                            }
                        },
                    }
                }
            },
        }
        pos = line_end;
        proof {
            let st1 = st_of(is_first_header, code_block_level);
            let t2 = readme@.skip(pos as int);
            match spec_line_step(line@, st0, pkgv, verv, crv) {
                Ok(p) => {
                    assert(result@ == res0 + p.0);
                    assert(p.1 == st1);
                    match spec_transform_from(t2, st1, pkgv, verv, crv) {
                        Ok(tt) => {
                            assert(res0 + (p.0 + tt) =~= result@ + tt);
                        },
                        Err(_) => {},
                    }
                },
                Err(_) => {
                    assert(false);
                },
            }
        }
    }
    proof {
        assert(readme@.skip(n as int) =~= Seq::<char>::empty());
        assert(spec_transform_from(
            Seq::<char>::empty(),
            st_of(is_first_header, code_block_level),
            pkgv,
            verv,
            crv,
        ) == Ok::<Seq<char>, SpecError>(Seq::<char>::empty()));
        assert(result@ + Seq::<char>::empty() =~= result@);
    }
    Ok(result)
}

} // verus!

//! The guarantees of the pass, stated over whole documents: every line's
//! exact terminator is kept, text inside fences is copied verbatim, the sole
//! top-level header is consumed, and every other header is demoted one level.

use vstd::prelude::*;
use crate::errors::SpecError;
use crate::fence::{spec_fence_close, spec_fence_open, spec_fence_run};
use crate::header::{spec_header_level, spec_is_header};
use crate::link::spec_link_spans;
use crate::text::{
    find_from, is_ws, lemma_find_from, lemma_find_not_from, lemma_find_not_from_is,
    lemma_find_non_ws_from, lemma_find_ws_from,
};
use crate::transform::{
    initial_state, spec_line_end, spec_line_step, spec_rustdocify, spec_transform_from, ScanState,
};
use crate::url::{
    spec_convert_url, spec_filename_link, spec_index_link, spec_item_link, spec_join_mods,
    spec_path_link, spec_root_link, spec_split, spec_trim_path,
};

verus! {

/// The lines of a document, each keeping its terminator; the final line may
/// have none.
pub open spec fn lines_of(s: Seq<char>) -> Seq<Seq<char>>
    decreases s.len(),
{
    if s.len() == 0 {
        Seq::empty()
    } else {
        seq![s.take(spec_line_end(s))] + lines_of(s.skip(spec_line_end(s)))
    }
}

/// The state the pass is in before each line, starting from `st`, for as long
/// as the steps before it succeed. Its length is one more than the number of
/// successful steps.
pub open spec fn pass_states(
    lines: Seq<Seq<char>>,
    st: ScanState,
    pkg: Seq<char>,
    ver: Option<Seq<char>>,
    krate: Option<Seq<char>>,
) -> Seq<ScanState>
    decreases lines.len(),
{
    if lines.len() == 0 {
        seq![st]
    } else {
        match spec_line_step(lines[0], st, pkg, ver, krate) {
            Ok(p) => seq![st] + pass_states(lines.skip(1), p.1, pkg, ver, krate),
            Err(_) => seq![st],
        }
    }
}

/// What each line contributes to the output, for as long as the steps
/// succeed.
pub open spec fn pass_outputs(
    lines: Seq<Seq<char>>,
    st: ScanState,
    pkg: Seq<char>,
    ver: Option<Seq<char>>,
    krate: Option<Seq<char>>,
) -> Seq<Seq<char>>
    decreases lines.len(),
{
    if lines.len() == 0 {
        Seq::empty()
    } else {
        match spec_line_step(lines[0], st, pkg, ver, krate) {
            Ok(p) => seq![p.0] + pass_outputs(lines.skip(1), p.1, pkg, ver, krate),
            Err(_) => Seq::empty(),
        }
    }
}

/// All the per-line contributions, joined back together.
pub open spec fn concat_outs(outs: Seq<Seq<char>>) -> Seq<char>
    decreases outs.len(),
{
    if outs.len() == 0 {
        Seq::empty()
    } else {
        outs[0] + concat_outs(outs.skip(1))
    }
}

/// The states before each line of document `s`, from the start of the pass.
pub open spec fn doc_states(
    s: Seq<char>,
    pkg: Seq<char>,
    ver: Option<Seq<char>>,
    krate: Option<Seq<char>>,
) -> Seq<ScanState> {
    pass_states(lines_of(s), initial_state(), pkg, ver, krate)
}

/// The per-line contributions of document `s`, from the start of the pass.
pub open spec fn doc_outputs(
    s: Seq<char>,
    pkg: Seq<char>,
    ver: Option<Seq<char>>,
    krate: Option<Seq<char>>,
) -> Seq<Seq<char>> {
    pass_outputs(lines_of(s), initial_state(), pkg, ver, krate)
}

/// The lines of a document, joined back together, are the document.
pub proof fn lemma_lines_of_concat(s: Seq<char>)
    ensures
        concat_outs(lines_of(s)) == s,
    decreases s.len(),
{
    if s.len() == 0 {
        assert(concat_outs(lines_of(s)) =~= s);
    } else {
        let n = spec_line_end(s);
        lemma_lines_of_concat(s.skip(n));
        assert(lines_of(s).skip(1) =~= lines_of(s.skip(n)));
        assert(s.take(n) + s.skip(n) =~= s);
    }
}

/// Every line of a document is non-empty and holds `\n` only as its last
/// character.
pub proof fn lemma_lines_of_wf(s: Seq<char>)
    ensures
        forall|i: int|
            0 <= i < lines_of(s).len() ==> {
                &&& #[trigger] lines_of(s)[i].len() > 0
                &&& forall|j: int|
                    0 <= j < lines_of(s)[i].len() - 1 ==> #[trigger] lines_of(s)[i][j] != '\n'
            },
    decreases s.len(),
{
    if s.len() > 0 {
        let k = find_from(s, '\n', 0);
        lemma_find_from(s, '\n', 0);
        let n = spec_line_end(s);
        let first = s.take(n);
        assert(first.len() > 0);
        assert(forall|j: int| 0 <= j < first.len() - 1 ==> #[trigger] first[j] != '\n');
        lemma_lines_of_wf(s.skip(n));
        assert(forall|i: int|
            1 <= i < lines_of(s).len() ==> lines_of(s)[i] == lines_of(s.skip(n))[i - 1]);
    }
}

/// The run of the pass, step by step: the state before line `i + 1` is what
/// the successful step on line `i` leaves behind, and a run that stops early
/// stops on a failing step.
pub proof fn lemma_pass_states(
    lines: Seq<Seq<char>>,
    st: ScanState,
    pkg: Seq<char>,
    ver: Option<Seq<char>>,
    krate: Option<Seq<char>>,
)
    ensures
        1 <= pass_states(lines, st, pkg, ver, krate).len() <= lines.len() + 1,
        pass_states(lines, st, pkg, ver, krate)[0] == st,
        forall|i: int|
            0 <= i < pass_states(lines, st, pkg, ver, krate).len() - 1 ==> (#[trigger] spec_line_step(
                lines[i],
                pass_states(lines, st, pkg, ver, krate)[i],
                pkg,
                ver,
                krate,
            ) matches Ok(p) && p.1 == pass_states(lines, st, pkg, ver, krate)[i + 1]),
        pass_states(lines, st, pkg, ver, krate).len() <= lines.len() ==> spec_line_step(
            lines[pass_states(lines, st, pkg, ver, krate).len() - 1],
            pass_states(lines, st, pkg, ver, krate)[pass_states(lines, st, pkg, ver, krate).len()
                - 1],
            pkg,
            ver,
            krate,
        ) is Err,
    decreases lines.len(),
{
    let sts = pass_states(lines, st, pkg, ver, krate);
    if lines.len() == 0 {
    } else {
        match spec_line_step(lines[0], st, pkg, ver, krate) {
            Ok(p) => {
                lemma_pass_states(lines.skip(1), p.1, pkg, ver, krate);
                let sts2 = pass_states(lines.skip(1), p.1, pkg, ver, krate);
                assert(sts == seq![st] + sts2);
                assert(forall|i: int| 0 <= i < sts2.len() ==> sts[i + 1] == sts2[i]);
                assert(forall|i: int| 1 <= i < lines.len() ==> lines[i] == lines.skip(1)[i - 1]);
                assert forall|i: int| 0 <= i < sts.len() - 1 implies (#[trigger] spec_line_step(
                    lines[i],
                    sts[i],
                    pkg,
                    ver,
                    krate,
                ) matches Ok(q) && q.1 == sts[i + 1]) by {
                    if i == 0 {
                        assert(sts[0] == st);
                        assert(sts[1] == sts2[0]);
                    } else {
                        assert(spec_line_step(lines.skip(1)[i - 1], sts2[i - 1], pkg, ver, krate)
                            matches Ok(q) && q.1 == sts2[i]);
                    }
                }
            },
            Err(_) => {
            },
        }
    }
}

/// The contributions of a run: one for each successful step, each produced
/// by the step on its line.
pub proof fn lemma_pass_outputs(
    lines: Seq<Seq<char>>,
    st: ScanState,
    pkg: Seq<char>,
    ver: Option<Seq<char>>,
    krate: Option<Seq<char>>,
)
    ensures
        pass_outputs(lines, st, pkg, ver, krate).len() == pass_states(
            lines,
            st,
            pkg,
            ver,
            krate,
        ).len() - 1,
        forall|i: int|
            0 <= i < pass_outputs(lines, st, pkg, ver, krate).len() ==> (#[trigger] spec_line_step(
                lines[i],
                pass_states(lines, st, pkg, ver, krate)[i],
                pkg,
                ver,
                krate,
            ) matches Ok(p) && pass_outputs(lines, st, pkg, ver, krate)[i] == p.0),
    decreases lines.len(),
{
    let sts = pass_states(lines, st, pkg, ver, krate);
    let outs = pass_outputs(lines, st, pkg, ver, krate);
    lemma_pass_states(lines, st, pkg, ver, krate);
    if lines.len() == 0 {
    } else {
        match spec_line_step(lines[0], st, pkg, ver, krate) {
            Ok(p) => {
                let sts2 = pass_states(lines.skip(1), p.1, pkg, ver, krate);
                let outs2 = pass_outputs(lines.skip(1), p.1, pkg, ver, krate);
                assert(sts == seq![st] + sts2);
                lemma_pass_outputs(lines.skip(1), p.1, pkg, ver, krate);
                assert(outs == seq![p.0] + outs2);
                assert(forall|i: int| 0 <= i < sts2.len() ==> sts[i + 1] == sts2[i]);
                assert(forall|i: int| 1 <= i < lines.len() ==> lines[i] == lines.skip(1)[i - 1]);
                assert forall|i: int| 0 <= i < outs.len() implies (#[trigger] spec_line_step(
                    lines[i],
                    sts[i],
                    pkg,
                    ver,
                    krate,
                ) matches Ok(q) && outs[i] == q.0) by {
                    if i == 0 {
                        assert(sts[0] == st);
                        assert(outs[0] == p.0);
                    } else {
                        assert(outs.len() == outs2.len() + 1);
                        assert(0 <= i - 1 < outs2.len());
                        assert(lines[i] == lines.skip(1)[i - 1]);
                        assert(sts[i] == sts2[i - 1]);
                        assert(spec_line_step(lines.skip(1)[i - 1], sts2[i - 1], pkg, ver, krate)
                            matches Ok(q) && outs2[i - 1] == q.0);
                        assert(outs[i] == outs2[i - 1]);
                    }
                }
            },
            Err(_) => {
                assert(sts.len() == 1);
                assert(outs.len() == 0);
            },
        }
    }
}

/// A reachable line whose step succeeds contributes exactly that step's
/// output, and the pass goes on in that step's state.
pub proof fn lemma_step_at(
    lines: Seq<Seq<char>>,
    st: ScanState,
    pkg: Seq<char>,
    ver: Option<Seq<char>>,
    krate: Option<Seq<char>>,
    i: int,
)
    requires
        0 <= i < lines.len(),
        i < pass_states(lines, st, pkg, ver, krate).len(),
        spec_line_step(
            lines[i],
            pass_states(lines, st, pkg, ver, krate)[i],
            pkg,
            ver,
            krate,
        ) is Ok,
    ensures
        i + 1 < pass_states(lines, st, pkg, ver, krate).len(),
        i < pass_outputs(lines, st, pkg, ver, krate).len(),
        spec_line_step(lines[i], pass_states(lines, st, pkg, ver, krate)[i], pkg, ver, krate)
            matches Ok(p) && pass_outputs(lines, st, pkg, ver, krate)[i] == p.0 && pass_states(
            lines,
            st,
            pkg,
            ver,
            krate,
        )[i + 1] == p.1,
{
    lemma_pass_states(lines, st, pkg, ver, krate);
    lemma_pass_outputs(lines, st, pkg, ver, krate);
    let sts = pass_states(lines, st, pkg, ver, krate);
    if sts.len() == i + 1 {
        assert(sts.len() <= lines.len());
        assert(spec_line_step(lines[i], sts[i], pkg, ver, krate) is Err);
    }
}

/// The pass and its run agree: the pass succeeds exactly when every line's
/// step succeeds, its output is then the concatenation of the per-line
/// contributions, and a pass that fails returns the error of the step it
/// stopped on.
pub proof fn lemma_transform_run(
    s: Seq<char>,
    st: ScanState,
    pkg: Seq<char>,
    ver: Option<Seq<char>>,
    krate: Option<Seq<char>>,
)
    ensures
        spec_transform_from(s, st, pkg, ver, krate) is Ok <==> pass_states(
            lines_of(s),
            st,
            pkg,
            ver,
            krate,
        ).len() == lines_of(s).len() + 1,
        spec_transform_from(s, st, pkg, ver, krate) is Ok ==> spec_transform_from(
            s,
            st,
            pkg,
            ver,
            krate,
        ) == Ok::<Seq<char>, SpecError>(concat_outs(pass_outputs(lines_of(s), st, pkg, ver, krate))),
        pass_states(lines_of(s), st, pkg, ver, krate).len() <= lines_of(s).len() ==> (
        spec_line_step(
            lines_of(s)[pass_states(lines_of(s), st, pkg, ver, krate).len() - 1],
            pass_states(lines_of(s), st, pkg, ver, krate)[pass_states(
                lines_of(s),
                st,
                pkg,
                ver,
                krate,
            ).len() - 1],
            pkg,
            ver,
            krate,
        ) matches Err(e) && spec_transform_from(s, st, pkg, ver, krate) == Err::<
            Seq<char>,
            SpecError,
        >(e)),
    decreases s.len(),
{
    let lines = lines_of(s);
    let sts = pass_states(lines, st, pkg, ver, krate);
    lemma_pass_states(lines, st, pkg, ver, krate);
    if s.len() == 0 {
        assert(spec_transform_from(s, st, pkg, ver, krate) == Ok::<Seq<char>, SpecError>(
            Seq::empty(),
        ));
        assert(concat_outs(pass_outputs(lines, st, pkg, ver, krate)) == Seq::<char>::empty());
    } else {
        let n = spec_line_end(s);
        let first = s.take(n);
        let rest = s.skip(n);
        assert(lines == seq![first] + lines_of(rest));
        assert(lines[0] == first);
        assert(lines.skip(1) =~= lines_of(rest));
        match spec_line_step(first, st, pkg, ver, krate) {
            Ok(p) => {
                lemma_transform_run(rest, p.1, pkg, ver, krate);
                let sts2 = pass_states(lines_of(rest), p.1, pkg, ver, krate);
                assert(sts == seq![st] + sts2);
                let outs = pass_outputs(lines, st, pkg, ver, krate);
                let outs2 = pass_outputs(lines_of(rest), p.1, pkg, ver, krate);
                assert(outs == seq![p.0] + outs2);
                match spec_transform_from(rest, p.1, pkg, ver, krate) {
                    Ok(tail) => {
                        assert(tail == concat_outs(outs2));
                        assert(outs.skip(1) =~= outs2);
                        assert(concat_outs(outs) == p.0 + concat_outs(outs2));
                        assert(spec_transform_from(s, st, pkg, ver, krate) == Ok::<
                            Seq<char>,
                            SpecError,
                        >(p.0 + tail));
                    },
                    Err(_) => {
                        assert(sts2.len() <= lines_of(rest).len());
                        assert(sts.len() - 1 == sts2.len());
                        assert(lines[sts.len() - 1] == lines_of(rest)[sts2.len() - 1]);
                        assert(sts[sts.len() - 1] == sts2[sts2.len() - 1]);
                    },
                }
            },
            Err(e) => {
                assert(sts == seq![st]);
                assert(sts.len() == 1 <= lines.len());
                assert(spec_transform_from(s, st, pkg, ver, krate) == Err::<Seq<char>, SpecError>(
                    e,
                ));
            },
        }
    }
}

/// The output of a successful pass is exactly the concatenation of the
/// per-line contributions, and the pass succeeds exactly when every line's
/// step does.
pub proof fn lemma_rustdocify_is_concat(
    s: Seq<char>,
    pkg: Seq<char>,
    ver: Option<Seq<char>>,
    krate: Option<Seq<char>>,
)
    ensures
        spec_rustdocify(s, pkg, ver, krate) is Ok <==> doc_states(s, pkg, ver, krate).len()
            == lines_of(s).len() + 1,
        spec_rustdocify(s, pkg, ver, krate) is Ok ==> spec_rustdocify(s, pkg, ver, krate) == Ok::<
            Seq<char>,
            SpecError,
        >(concat_outs(doc_outputs(s, pkg, ver, krate))),
{
    lemma_transform_run(s, initial_state(), pkg, ver, krate);
}

/// A header line never opens a fence: its first character is `#`.
proof fn lemma_header_line_opens_no_fence(line: Seq<char>)
    requires
        spec_is_header(line),
    ensures
        line.len() >= 2,
        line[0] == '#',
        spec_fence_open(line) is None,
{
    lemma_find_not_from(line, '#', 0);
    assert(spec_fence_run(line) == 0);
}

/// Once the first-header flag is cleared, no successful step sets it again.
proof fn lemma_step_first_monotone(
    line: Seq<char>,
    st: ScanState,
    pkg: Seq<char>,
    ver: Option<Seq<char>>,
    krate: Option<Seq<char>>,
)
    requires
        !st.first,
    ensures
        spec_line_step(line, st, pkg, ver, krate) matches Ok(p) ==> !p.1.first,
{
}

/// The first-header flag stays cleared for the rest of the run.
proof fn lemma_flag_stays_cleared(
    lines: Seq<Seq<char>>,
    st: ScanState,
    pkg: Seq<char>,
    ver: Option<Seq<char>>,
    krate: Option<Seq<char>>,
    a: int,
    b: int,
)
    requires
        0 <= a <= b,
        b < pass_states(lines, st, pkg, ver, krate).len(),
        !pass_states(lines, st, pkg, ver, krate)[a].first,
    ensures
        !pass_states(lines, st, pkg, ver, krate)[b].first,
    decreases b - a,
{
    if a < b {
        let sts = pass_states(lines, st, pkg, ver, krate);
        lemma_pass_states(lines, st, pkg, ver, krate);
        assert(spec_line_step(lines[a], sts[a], pkg, ver, krate) matches Ok(p) && p.1 == sts[a
            + 1]);
        lemma_step_first_monotone(lines[a], sts[a], pkg, ver, krate);
        lemma_flag_stays_cleared(lines, st, pkg, ver, krate, a + 1, b);
    }
}

/// Code-fence opacity: a line processed while a fence is open, and the line
/// that opens a fence, are copied to the output exactly as they stand — no
/// header or link conversion fires on them — and an open fence closes only
/// on a line whose first characters are at least the fence's width of
/// backticks.
pub proof fn lemma_code_fence_opacity(
    s: Seq<char>,
    pkg: Seq<char>,
    ver: Option<Seq<char>>,
    krate: Option<Seq<char>>,
    i: int,
)
    requires
        0 <= i < lines_of(s).len(),
        i < doc_states(s, pkg, ver, krate).len(),
        doc_states(s, pkg, ver, krate)[i].fence is Some || spec_fence_open(lines_of(s)[i])
            is Some,
    ensures
        i + 1 < doc_states(s, pkg, ver, krate).len(),
        i < doc_outputs(s, pkg, ver, krate).len(),
        doc_outputs(s, pkg, ver, krate)[i] == lines_of(s)[i],
        doc_states(s, pkg, ver, krate)[i + 1].first == doc_states(s, pkg, ver, krate)[i].first,
        doc_states(s, pkg, ver, krate)[i].fence matches Some(w) ==> doc_states(
            s,
            pkg,
            ver,
            krate,
        )[i + 1].fence == (if spec_fence_close(lines_of(s)[i], w) {
            None
        } else {
            Some(w)
        }),
        doc_states(s, pkg, ver, krate)[i].fence is None ==> doc_states(s, pkg, ver, krate)[i
            + 1].fence == spec_fence_open(lines_of(s)[i]),
{
    lemma_step_at(lines_of(s), initial_state(), pkg, ver, krate, i);
}

/// Single top-level header consumption: the document's first header, when it
/// is top-level and outside any fence, contributes nothing at all to the
/// output — the whole line disappears, terminator included — and the
/// first-header flag is cleared.
pub proof fn lemma_first_top_level_header_consumed(
    s: Seq<char>,
    pkg: Seq<char>,
    ver: Option<Seq<char>>,
    krate: Option<Seq<char>>,
    i: int,
)
    requires
        0 <= i < lines_of(s).len(),
        i < doc_states(s, pkg, ver, krate).len(),
        doc_states(s, pkg, ver, krate)[i].first,
        doc_states(s, pkg, ver, krate)[i].fence is None,
        spec_is_header(lines_of(s)[i]),
        spec_header_level(lines_of(s)[i]) == 1,
    ensures
        i + 1 < doc_states(s, pkg, ver, krate).len(),
        i < doc_outputs(s, pkg, ver, krate).len(),
        doc_outputs(s, pkg, ver, krate)[i] == Seq::<char>::empty(),
        !doc_states(s, pkg, ver, krate)[i + 1].first,
{
    lemma_header_line_opens_no_fence(lines_of(s)[i]);
    lemma_step_at(lines_of(s), initial_state(), pkg, ver, krate, i);
}

/// A second top-level header is rejected: after any header has been seen
/// outside a fence, a later top-level header outside a fence stops the whole
/// pass with `NonFirstTopLevelHeader` carrying that line.
pub proof fn lemma_second_top_level_header_rejected(
    s: Seq<char>,
    pkg: Seq<char>,
    ver: Option<Seq<char>>,
    krate: Option<Seq<char>>,
    j: int,
    i: int,
)
    requires
        0 <= j < i < lines_of(s).len(),
        i < doc_states(s, pkg, ver, krate).len(),
        doc_states(s, pkg, ver, krate)[j].fence is None,
        spec_is_header(lines_of(s)[j]),
        doc_states(s, pkg, ver, krate)[i].fence is None,
        spec_is_header(lines_of(s)[i]),
        spec_header_level(lines_of(s)[i]) == 1,
    ensures
        spec_rustdocify(s, pkg, ver, krate) == Err::<Seq<char>, SpecError>(
            SpecError::NonFirstTopLevelHeader(lines_of(s)[i]),
        ),
{
    let lines = lines_of(s);
    let st0 = initial_state();
    let sts = pass_states(lines, st0, pkg, ver, krate);
    lemma_pass_states(lines, st0, pkg, ver, krate);
    lemma_header_line_opens_no_fence(lines[j]);
    lemma_header_line_opens_no_fence(lines[i]);
    assert(spec_line_step(lines[j], sts[j], pkg, ver, krate) matches Ok(p) && p.1 == sts[j + 1]);
    assert(!sts[j + 1].first);
    lemma_flag_stays_cleared(lines, st0, pkg, ver, krate, j + 1, i);
    assert(spec_line_step(lines[i], sts[i], pkg, ver, krate) == Err::<
        (Seq<char>, ScanState),
        SpecError,
    >(SpecError::NonFirstTopLevelHeader(lines[i])));
    if sts.len() > i + 1 {
        assert(spec_line_step(lines[i], sts[i], pkg, ver, krate) matches Ok(p));
        assert(false);
    }
    lemma_transform_run(s, st0, pkg, ver, krate);
}

/// Header demotion: a level-N header (N at least 2) outside any fence loses
/// exactly one leading `#`, so it comes out as a header of level N − 1 with
/// the rest of the line, terminator included, unchanged.
pub proof fn lemma_header_demotion(
    s: Seq<char>,
    pkg: Seq<char>,
    ver: Option<Seq<char>>,
    krate: Option<Seq<char>>,
    i: int,
)
    requires
        0 <= i < lines_of(s).len(),
        i < doc_states(s, pkg, ver, krate).len(),
        doc_states(s, pkg, ver, krate)[i].fence is None,
        spec_is_header(lines_of(s)[i]),
        spec_header_level(lines_of(s)[i]) >= 2,
    ensures
        i + 1 < doc_states(s, pkg, ver, krate).len(),
        i < doc_outputs(s, pkg, ver, krate).len(),
        doc_outputs(s, pkg, ver, krate)[i] == lines_of(s)[i].skip(1),
        spec_is_header(lines_of(s)[i].skip(1)),
        spec_header_level(lines_of(s)[i].skip(1)) == spec_header_level(lines_of(s)[i]) - 1,
        !doc_states(s, pkg, ver, krate)[i + 1].first,
{
    let line = lines_of(s)[i];
    let lv = spec_header_level(line);
    lemma_header_line_opens_no_fence(line);
    lemma_step_at(lines_of(s), initial_state(), pkg, ver, krate, i);
    lemma_find_not_from(line, '#', 0);
    let d = line.skip(1);
    assert(forall|j: int| 0 <= j < lv - 1 ==> d[j] == line[j + 1]);
    assert(d[lv - 1] == line[lv as int]);
    lemma_find_not_from_is(d, '#', 0, lv - 1);
}

/// A line that starts with `#` but has no space after its leading `#` run is
/// no header: it is copied unchanged and changes no state.
pub proof fn lemma_hash_without_space_unchanged(
    s: Seq<char>,
    pkg: Seq<char>,
    ver: Option<Seq<char>>,
    krate: Option<Seq<char>>,
    i: int,
)
    requires
        0 <= i < lines_of(s).len(),
        i < doc_states(s, pkg, ver, krate).len(),
        doc_states(s, pkg, ver, krate)[i].fence is None,
        lines_of(s)[i].len() > 0,
        lines_of(s)[i][0] == '#',
        !spec_is_header(lines_of(s)[i]),
    ensures
        i + 1 < doc_states(s, pkg, ver, krate).len(),
        i < doc_outputs(s, pkg, ver, krate).len(),
        doc_outputs(s, pkg, ver, krate)[i] == lines_of(s)[i],
        doc_states(s, pkg, ver, krate)[i + 1] == doc_states(s, pkg, ver, krate)[i],
{
    let line = lines_of(s)[i];
    assert(spec_fence_run(line) == 0);
    lemma_step_at(lines_of(s), initial_state(), pkg, ver, krate, i);
}

/// A text without any whitespace character.
pub open spec fn no_ws(s: Seq<char>) -> bool {
    forall|j: int| 0 <= j < s.len() ==> !is_ws(#[trigger] s[j])
}

proof fn lemma_no_ws_concat(a: Seq<char>, b: Seq<char>)
    requires
        no_ws(a),
        no_ws(b),
    ensures
        no_ws(a + b),
{
    assert forall|j: int| 0 <= j < (a + b).len() implies !is_ws((a + b)[j]) by {
        if j < a.len() {
            assert((a + b)[j] == a[j]);
        } else {
            assert((a + b)[j] == b[j - a.len()]);
        }
    }
}

proof fn lemma_link_literals_no_ws()
    ensures
        no_ws("crate"@),
        no_ws("::"@),
        no_ws("#"@),
{
    reveal_strlit("crate");
    reveal_strlit("::");
    reveal_strlit("#");
    assert("crate"@ =~= seq!['c', 'r', 'a', 't', 'e']);
    assert("::"@ =~= seq![':', ':']);
    assert("#"@ =~= seq!['#']);
}

proof fn lemma_split_no_ws(s: Seq<char>, c: char)
    requires
        no_ws(s),
    ensures
        forall|i: int|
            0 <= i < spec_split(s, c).len() ==> no_ws(#[trigger] spec_split(s, c)[i]),
    decreases s.len(),
{
    let k = find_from(s, c, 0);
    lemma_find_from(s, c, 0);
    if 0 <= k < s.len() {
        assert(no_ws(s.take(k)));
        assert(no_ws(s.skip(k + 1)));
        lemma_split_no_ws(s.skip(k + 1), c);
        assert(forall|i: int|
            1 <= i < spec_split(s, c).len() ==> spec_split(s, c)[i] == spec_split(
                s.skip(k + 1),
                c,
            )[i - 1]);
    } else {
        assert(no_ws(spec_split(s, c)[0]));
    }
}

proof fn lemma_join_no_ws(segs: Seq<Seq<char>>)
    requires
        forall|i: int| 0 <= i < segs.len() ==> no_ws(#[trigger] segs[i]),
    ensures
        no_ws(spec_join_mods(segs)),
    decreases segs.len(),
{
    lemma_link_literals_no_ws();
    if segs.len() == 0 {
    } else {
        lemma_join_no_ws(segs.skip(1));
        lemma_no_ws_concat("::"@, segs[0]);
        lemma_no_ws_concat("::"@ + segs[0], spec_join_mods(segs.skip(1)));
    }
}

proof fn lemma_root_link_no_ws(fragment: Option<Seq<char>>)
    requires
        fragment matches Some(f) ==> no_ws(f),
    ensures
        no_ws(spec_root_link(fragment)),
        spec_root_link(fragment).len() > 0,
{
    lemma_link_literals_no_ws();
    reveal_strlit("crate");
    match fragment {
        Some(f) => {
            lemma_no_ws_concat("crate"@, "#"@);
            lemma_no_ws_concat("crate"@ + "#"@, f);
        },
        None => {},
    }
}

proof fn lemma_index_link_no_ws(mods: Seq<char>, fragment: Option<Seq<char>>)
    requires
        no_ws(mods),
        fragment matches Some(f) ==> no_ws(f),
    ensures
        no_ws(spec_index_link(mods, fragment)),
        spec_index_link(mods, fragment).len() > 0,
{
    lemma_link_literals_no_ws();
    reveal_strlit("crate");
    lemma_no_ws_concat("crate"@, mods);
    match fragment {
        Some(f) => {
            lemma_no_ws_concat("crate"@ + mods, "#"@);
            lemma_no_ws_concat("crate"@ + mods + "#"@, f);
        },
        None => {},
    }
}

proof fn lemma_item_link_no_ws(
    mods: Seq<char>,
    name: Seq<char>,
    specials: Seq<Seq<char>>,
    fragment: Option<Seq<char>>,
)
    requires
        no_ws(mods),
        no_ws(name),
        fragment matches Some(f) ==> no_ws(f),
    ensures
        no_ws(spec_item_link(mods, name, specials, fragment)),
        spec_item_link(mods, name, specials, fragment).len() > 0,
{
    lemma_link_literals_no_ws();
    reveal_strlit("crate");
    lemma_no_ws_concat("crate"@, mods);
    lemma_no_ws_concat("crate"@ + mods, "::"@);
    lemma_no_ws_concat("crate"@ + mods + "::"@, name);
    let base = "crate"@ + mods + "::"@ + name;
    match fragment {
        Some(f) => {
            lemma_no_ws_concat(base, "::"@);
            lemma_no_ws_concat(base, "#"@);
            lemma_no_ws_concat(base + "#"@, f);
            if specials.len() >= 1 && crate::text::has_prefix(f, specials[0]) {
                assert(no_ws(f.skip(specials[0].len() as int)));
                lemma_no_ws_concat(base + "::"@, f.skip(specials[0].len() as int));
            }
            if specials.len() >= 2 && crate::text::has_prefix(f, specials[1]) {
                assert(no_ws(f.skip(specials[1].len() as int)));
                lemma_no_ws_concat(base + "::"@, f.skip(specials[1].len() as int));
            }
        },
        None => {},
    }
}

proof fn lemma_filename_link_no_ws(
    url: Seq<char>,
    filename: Seq<char>,
    mods: Seq<char>,
    fragment: Option<Seq<char>>,
)
    requires
        no_ws(filename),
        no_ws(mods),
        fragment matches Some(f) ==> no_ws(f),
    ensures
        spec_filename_link(url, filename, mods, fragment) matches Ok(link) ==> no_ws(link)
            && link.len() > 0,
{
    if filename.len() >= 10 {
        lemma_item_link_no_ws(
            mods,
            filename.subrange(5, filename.len() - 5),
            seq!["method."@, "variant."@],
            fragment,
        );
    }
    if filename.len() >= 8 {
        lemma_item_link_no_ws(
            mods,
            filename.subrange(3, filename.len() - 5),
            Seq::empty(),
            fragment,
        );
    }
    if filename.len() >= 12 {
        lemma_item_link_no_ws(
            mods,
            filename.subrange(7, filename.len() - 5),
            seq!["method."@],
            fragment,
        );
    }
    if filename.len() >= 11 {
        lemma_item_link_no_ws(
            mods,
            filename.subrange(6, filename.len() - 5),
            seq!["tymethod."@],
            fragment,
        );
    }
}

proof fn lemma_path_link_no_ws(
    url: Seq<char>,
    path: Seq<Seq<char>>,
    fragment: Option<Seq<char>>,
    ver: Option<Seq<char>>,
    krate: Option<Seq<char>>,
)
    requires
        forall|i: int| 0 <= i < path.len() ==> no_ws(#[trigger] path[i]),
        fragment matches Some(f) ==> no_ws(f),
    ensures
        spec_path_link(url, path, fragment, ver, krate) matches Ok(link) ==> no_ws(link)
            && link.len() > 0,
{
    lemma_root_link_no_ws(fragment);
    if path.len() > 2 {
        let mods_file = spec_join_mods(path.subrange(2, path.len() - 1));
        let mods_all = spec_join_mods(path.skip(2));
        assert(forall|i: int|
            0 <= i < path.subrange(2, path.len() - 1).len() ==> no_ws(
                #[trigger] path.subrange(2, path.len() - 1)[i],
            ));
        assert(forall|i: int|
            0 <= i < path.skip(2).len() ==> no_ws(#[trigger] path.skip(2)[i]));
        lemma_join_no_ws(path.subrange(2, path.len() - 1));
        lemma_join_no_ws(path.skip(2));
        lemma_index_link_no_ws(mods_file, fragment);
        lemma_index_link_no_ws(mods_all, fragment);
        lemma_filename_link_no_ws(url, path.last(), mods_file, fragment);
    }
}

/// A converted URL contains no whitespace: it is either the URL itself,
/// unchanged, or built out of `crate`, `::`, `#` and pieces of the URL.
proof fn lemma_convert_url_no_ws(
    url: Seq<char>,
    pkg: Seq<char>,
    ver: Option<Seq<char>>,
    krate: Option<Seq<char>>,
)
    requires
        no_ws(url),
        url.len() > 0,
    ensures
        spec_convert_url(url, pkg, ver, krate) matches Ok(link) ==> no_ws(link) && link.len()
            > 0,
{
    let prefix = crate::url::spec_url_prefix(pkg);
    if crate::text::has_prefix(url, prefix) {
        let pl = prefix.len() as int;
        let path_start: int = if url.len() == pl {
            pl
        } else if url[pl] == '/' {
            pl + 1
        } else if url[pl] == '#' {
            pl
        } else {
            -1
        };
        if path_start != -1 {
            let frag_pos = find_from(url, '#', path_start);
            lemma_find_from(url, '#', path_start);
            let fragment = if frag_pos < url.len() {
                Some(url.skip(frag_pos + 1))
            } else {
                None
            };
            let raw = url.subrange(path_start, frag_pos);
            assert(no_ws(raw));
            lemma_split_no_ws(raw, '/');
            let segs = spec_split(raw, '/');
            let path = spec_trim_path(segs);
            assert(forall|i: int| 0 <= i < path.len() ==> no_ws(#[trigger] path[i]));
            assert(fragment matches Some(f) ==> no_ws(f));
            lemma_path_link_no_ws(url, path, fragment, ver, krate);
        }
    }
}

/// The terminator a line carries: `\r\n`, `\n`, or nothing.
pub open spec fn line_terminator(line: Seq<char>) -> Seq<char> {
    if line.len() >= 2 && line[line.len() - 2] == '\r' && line[line.len() - 1] == '\n' {
        line.skip(line.len() - 2)
    } else if line.len() >= 1 && line[line.len() - 1] == '\n' {
        line.skip(line.len() - 1)
    } else {
        Seq::empty()
    }
}

/// One successful step keeps its line's exact terminator, unless it consumes
/// the line entirely (the first top-level header); and its contribution is
/// still a single line, with `\n` at most at its end.
pub proof fn lemma_step_keeps_terminator(
    line: Seq<char>,
    st: ScanState,
    pkg: Seq<char>,
    ver: Option<Seq<char>>,
    krate: Option<Seq<char>>,
)
    requires
        line.len() > 0,
        forall|j: int| 0 <= j < line.len() - 1 ==> line[j] != '\n',
    ensures
        spec_line_step(line, st, pkg, ver, krate) matches Ok(p) ==> (p.0.len() == 0
            || line_terminator(p.0) == line_terminator(line)),
        spec_line_step(line, st, pkg, ver, krate) matches Ok(p) ==> forall|j: int|
            0 <= j < p.0.len() - 1 ==> #[trigger] p.0[j] != '\n',
{
    let tl = line.len() as int;
    match spec_line_step(line, st, pkg, ver, krate) {
        Err(_) => {},
        Ok(p) => {
            if st.fence is Some || spec_fence_open(line) is Some {
                // verbatim copy
            } else if spec_is_header(line) && spec_header_level(line) >= 2 {
                // demotion: one leading `#` goes; the tail, terminator
                // included, stays
                let d = line.skip(1);
                assert(d.len() == tl - 1 >= 2);
                assert(d[d.len() - 1] == line[tl - 1]);
                assert(d[d.len() - 2] == line[tl - 2]);
                if tl >= 2 && line[tl - 2] == '\r' && line[tl - 1] == '\n' {
                    assert(d.skip(d.len() - 2) =~= line.skip(tl - 2));
                } else if line[tl - 1] == '\n' {
                    assert(d.skip(d.len() - 1) =~= line.skip(tl - 1));
                }
            } else if spec_is_header(line) {
                // the consumed top-level header: empty contribution
            } else {
                match spec_link_spans(line) {
                    None => {},
                    Some((start, end)) => {
                        let close = find_from(line, ']', 0);
                        lemma_find_from(line, ']', 0);
                        lemma_find_non_ws_from(line, close + 2);
                        lemma_find_ws_from(line, start);
                        let url = line.subrange(start, end);
                        assert(no_ws(url));
                        assert(start < end);
                        lemma_convert_url_no_ws(url, pkg, ver, krate);
                        match spec_convert_url(url, pkg, ver, krate) {
                            Err(_) => {},
                            Ok(link) => {
                                let out = line.take(start) + link + line.skip(end);
                                assert(p.0 == out);
                                let k = out.len() as int;
                                assert(k == start + link.len() + (tl - end));
                                assert forall|j: int| 0 <= j < k - 1 implies #[trigger] out[j]
                                    != '\n' by {
                                    if j < start {
                                        assert(out[j] == line[j]);
                                    } else if j < start + link.len() {
                                        assert(out[j] == link[j - start]);
                                        assert(!is_ws(link[j - start]));
                                    } else {
                                        assert(out[j] == line[end + (j - start - link.len())]);
                                        assert(end + (j - start - link.len()) < tl - 1);
                                    }
                                }
                                if line[tl - 1] == '\n' {
                                    assert(is_ws(line[tl - 1]));
                                    assert(start <= tl - 2);
                                    if tl >= 2 && line[tl - 2] == '\r' {
                                        assert(is_ws(line[tl - 2]));
                                        assert(end <= tl - 2);
                                        assert(out[k - 1] == line[tl - 1]);
                                        assert(out[k - 2] == line[tl - 2]);
                                        assert(out.skip(k - 2) =~= line.skip(tl - 2));
                                    } else {
                                        assert(end <= tl - 1);
                                        assert(out[k - 1] == line[tl - 1]);
                                        if end <= tl - 2 {
                                            assert(out[k - 2] == line[tl - 2]);
                                        } else {
                                            assert(out[k - 2] == link[link.len() - 1]);
                                            assert(!is_ws(out[k - 2]));
                                        }
                                        assert(out.skip(k - 1) =~= line.skip(tl - 1));
                                    }
                                } else {
                                    // no terminator on the last line
                                    if end < tl {
                                        assert(out[k - 1] == line[tl - 1]);
                                    } else {
                                        assert(out[k - 1] == link[link.len() - 1]);
                                        assert(!is_ws(out[k - 1]));
                                    }
                                    assert(line_terminator(out) == Seq::<char>::empty());
                                }
                            },
                        }
                    },
                }
            }
        },
    }
}

/// Terminator preservation: a successful pass yields one contribution for
/// each input line; each is either empty — the consumed top-level header —
/// or ends in exactly the terminator of its line: `\r\n`, `\n`, or none.
/// The output is the concatenation of these contributions.
pub proof fn lemma_terminator_preservation(
    s: Seq<char>,
    pkg: Seq<char>,
    ver: Option<Seq<char>>,
    krate: Option<Seq<char>>,
)
    requires
        spec_rustdocify(s, pkg, ver, krate) is Ok,
    ensures
        doc_outputs(s, pkg, ver, krate).len() == lines_of(s).len(),
        spec_rustdocify(s, pkg, ver, krate) == Ok::<Seq<char>, SpecError>(
            concat_outs(doc_outputs(s, pkg, ver, krate)),
        ),
        forall|i: int|
            0 <= i < lines_of(s).len() ==> ((#[trigger] doc_outputs(s, pkg, ver, krate)[i]).len()
                == 0 || line_terminator(doc_outputs(s, pkg, ver, krate)[i]) == line_terminator(
                lines_of(s)[i],
            )),
        forall|i: int, j: int|
            0 <= i < lines_of(s).len() && 0 <= j < doc_outputs(s, pkg, ver, krate)[i].len() - 1
                ==> #[trigger] doc_outputs(s, pkg, ver, krate)[i][j] != '\n',
{
    let lines = lines_of(s);
    let st0 = initial_state();
    let sts = pass_states(lines, st0, pkg, ver, krate);
    let outs = pass_outputs(lines, st0, pkg, ver, krate);
    lemma_transform_run(s, st0, pkg, ver, krate);
    lemma_pass_states(lines, st0, pkg, ver, krate);
    lemma_pass_outputs(lines, st0, pkg, ver, krate);
    lemma_lines_of_wf(s);
    assert forall|i: int| 0 <= i < lines.len() implies ((#[trigger] outs[i]).len() == 0
        || line_terminator(outs[i]) == line_terminator(lines[i])) by {
        assert(spec_line_step(lines[i], sts[i], pkg, ver, krate) matches Ok(p) && outs[i] == p.0);
        lemma_step_keeps_terminator(lines[i], sts[i], pkg, ver, krate);
    }
    assert forall|i: int, j: int|
        0 <= i < lines.len() && 0 <= j < outs[i].len() - 1 implies #[trigger] outs[i][j]
        != '\n' by {
        assert(spec_line_step(lines[i], sts[i], pkg, ver, krate) matches Ok(p) && outs[i] == p.0);
        lemma_step_keeps_terminator(lines[i], sts[i], pkg, ver, krate);
    }
}

} // verus!

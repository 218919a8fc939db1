use readme_rustdocifier::{rustdocify, Error};

// ============================================================
// TERMINATOR PRESERVATION

#[test]
fn terminators_kept_through_conversions() {
    let input = "## A\r\n### B\n[x]: https://docs.rs/foo\r\n[y]: https://docs.rs/foo";
    let expected = "# A\r\n## B\n[x]: crate\r\n[y]: crate";
    assert_eq!(rustdocify(input, "foo", None, None), Ok(expected.to_owned()));
}

#[test]
fn consumed_header_takes_its_terminator_along() {
    assert_eq!(
        rustdocify("# Title\r\nrest\r\n", "foo", None, None),
        Ok("rest\r\n".to_owned())
    );
}

#[test]
fn empty_document() {
    assert_eq!(rustdocify("", "foo", None, None), Ok(String::new()));
}

// ============================================================
// CODE-FENCE OPACITY

#[test]
fn header_inside_fence_does_not_count_as_first() {
    let input = "```\n# inside\n```\n# Title\nrest";
    let expected = "```\n# inside\n```\nrest";
    assert_eq!(rustdocify(input, "foo", None, None), Ok(expected.to_owned()));
}

#[test]
fn fence_closes_on_longer_backtick_run() {
    let input = "```\ncode\n`````\n## x";
    let expected = "```\ncode\n`````\n# x";
    assert_eq!(rustdocify(input, "foo", None, None), Ok(expected.to_owned()));
}

#[test]
fn unclosed_fence_swallows_the_rest() {
    let input = "```\n## x\n[y]: https://docs.rs/foo";
    assert_eq!(rustdocify(input, "foo", None, None), Ok(input.to_owned()));
}

// ============================================================
// HEADERS

#[test]
fn single_top_header_is_removed() {
    assert_eq!(
        rustdocify("# Only\ntext", "foo", None, None),
        Ok("text".to_owned())
    );
}

#[test]
fn late_second_top_header_is_rejected() {
    assert_eq!(
        rustdocify("# A\n## B\n# C", "foo", None, None),
        Err(Error::NonFirstTopLevelHeader("# C".to_owned()))
    );
}

#[test]
fn level_six_header_becomes_level_five() {
    assert_eq!(
        rustdocify("###### six\n", "foo", None, None),
        Ok("##### six\n".to_owned())
    );
}

#[test]
fn all_hash_line_is_no_header() {
    assert_eq!(rustdocify("###", "foo", None, None), Ok("###".to_owned()));
    assert_eq!(
        rustdocify("## T\n###\n", "foo", None, None),
        Ok("# T\n###\n".to_owned())
    );
}

// ============================================================
// LINK LINES AT THE EDGE

#[test]
fn close_bracket_at_end_of_line_is_no_link() {
    assert_eq!(rustdocify("[x]", "foo", None, None), Ok("[x]".to_owned()));
    assert_eq!(rustdocify("[]", "foo", None, None), Ok("[]".to_owned()));
}

#[test]
fn empty_fragment_is_kept() {
    assert_eq!(
        rustdocify("[x]: https://docs.rs/foo#", "foo", None, None),
        Ok("[x]: crate#".to_owned())
    );
}

#[test]
fn filename_too_short_for_a_name_is_unrecognized() {
    assert_eq!(
        rustdocify("[x]: https://docs.rs/foo/*/foo/enum.html", "foo", None, None),
        Err(Error::UnrecognizedUrl(
            "https://docs.rs/foo/*/foo/enum.html".to_owned()
        ))
    );
}

#[test]
fn matching_version_and_crate_pass() {
    assert_eq!(
        rustdocify(
            "[x]: https://docs.rs/foo/0.1.0/foo/a/struct.S.html#method.m",
            "foo",
            Some("0.1.0"),
            Some("foo")
        ),
        Ok("[x]: crate::a::S::m".to_owned())
    );
}

#[test]
fn unknown_fragment_prefix_passes_through() {
    assert_eq!(
        rustdocify(
            "[x]: https://docs.rs/foo/*/foo/fn.bar.html#variant.Baz",
            "foo",
            None,
            None
        ),
        Ok("[x]: crate::bar#variant.Baz".to_owned())
    );
}

// ============================================================
// ERROR MESSAGES

#[test]
fn messages_name_the_kind_and_the_text() {
    assert_eq!(
        Error::MissingVersionInUrl("u".to_owned()).message(),
        "missing version in url: u"
    );
    assert_eq!(
        Error::NonFirstTopLevelHeader("# h".to_owned()).message(),
        "non-first top level header: # h"
    );
    assert_eq!(
        Error::UnrecognizedUrl("u".to_owned()).message(),
        "unrecognized url: u"
    );
    assert_eq!(
        Error::WrongCrateNameInUrl("u".to_owned()).message(),
        "wrong crate name in url: u"
    );
    assert_eq!(
        Error::WrongVersionInUrl("u".to_owned()).message(),
        "wrong version in url: u"
    );
}

use readme_rustdocifier::{rustdocify, Error};

// ============================================================
// HELPERS

fn test(input: &str, expected: &str) {
    assert_eq!(
        rustdocify(input, "foo", None, Some("foo")),
        Ok(expected.to_owned())
    );
}

// ============================================================
// MISC

#[test]
fn retain_exact_newlines() {
    let input = "## A\n## B\r\na\nb\r\n[x]: https://docs.rs/foo\n[y]: https://docs.rs/foo\r\n";
    let expected = "# A\n# B\r\na\nb\r\n[x]: crate\n[y]: crate\r\n";
    assert_eq!(rustdocify(input, "foo", None, None).unwrap(), expected);
}

// ============================================================
// HEADERS - ERRORS

#[test]
fn non_first_top_level_header() {
    assert_eq!(
        rustdocify("## Foo\n# Bar", "foo", None, None),
        Err(Error::NonFirstTopLevelHeader("# Bar".to_owned()))
    );
}

// ============================================================
// HEADERS - IGNORE

#[test]
fn ignore_headers_without_space_before() {
    test("#Foo\n##Bar", "#Foo\n##Bar");
}

// ============================================================
// HEADERS

#[test]
fn convert_headers() {
    test("# Foo\nfoo\n## Bar\nbar\n### Baz", "foo\n# Bar\nbar\n## Baz");
}

// ============================================================
// LINKS - ERRORS

#[test]
fn missing_version_in_url() {
    assert_eq!(
        rustdocify("[x]: https://docs.rs/foo", "foo", Some("0.1.0"), None),
        Err(Error::MissingVersionInUrl("https://docs.rs/foo".to_owned()))
    );
}

#[test]
fn unrecognized_url_html() {
    let input = "[x]: https://docs.rs/foo/*/foo/hello_world.html";
    let expected = "https://docs.rs/foo/*/foo/hello_world.html".to_owned();
    assert_eq!(
        rustdocify(input, "foo", None, None),
        Err(Error::UnrecognizedUrl(expected))
    );
}

#[test]
fn unrecognized_url_non_html() {
    let input = "[x]: https://docs.rs/foo/*/foo/hello_world.png";
    let expected = "https://docs.rs/foo/*/foo/hello_world.png".to_owned();
    assert_eq!(
        rustdocify(input, "foo", None, None),
        Err(Error::UnrecognizedUrl(expected))
    );
}

#[test]
fn wrong_crate_name_in_url() {
    assert_eq!(
        rustdocify("[x]: https://docs.rs/foo/*/bar", "foo", None, Some("foo")),
        Err(Error::WrongCrateNameInUrl(
            "https://docs.rs/foo/*/bar".to_owned()
        ))
    );
}

#[test]
fn wrong_version_in_url() {
    assert_eq!(
        rustdocify("[x]: https://docs.rs/foo/0.2.0", "foo", Some("0.1.0"), None),
        Err(Error::WrongVersionInUrl(
            "https://docs.rs/foo/0.2.0".to_owned()
        ))
    );
}

// ============================================================
// LINKS - NOT LINK LINE

#[test]
fn no_close_bracket() {
    test("[x: https://docs.rs/foo", "[x: https://docs.rs/foo");
}

#[test]
fn no_colon_after_close_bracket() {
    test("[x] https://docs.rs/foo", "[x] https://docs.rs/foo");
}

#[test]
fn no_space_after_colon() {
    test("[x]:https://docs.rs/foo", "[x]:https://docs.rs/foo");
}

#[test]
fn no_url() {
    test("[x]:   ", "[x]:   ");
}

// ============================================================
// LINKS - IGNORE

#[test]
fn ignore_link_of_another_domain() {
    test(
        "[x]: https://example.com/foo",
        "[x]: https://example.com/foo",
    );
}

#[test]
fn ignore_link_to_another_package() {
    test("[x]: https://docs.rs/bar", "[x]: https://docs.rs/bar");
}

#[test]
fn ignore_link_to_another_package_which_has_this_package_as_prefix() {
    test("[x]: https://docs.rs/foobar", "[x]: https://docs.rs/foobar");
}

// ============================================================
// LINKS - MISC

#[test]
fn retain_multiple_whitespace_before_url() {
    test("[x]:   https://docs.rs/foo", "[x]:   crate");
}

#[test]
fn retain_stuff_after_url() {
    test("[x]: https://docs.rs/foo   hello", "[x]: crate   hello");
}

// ============================================================
// LINKS - NO VERSION

#[test]
fn package() {
    test("[x]: https://docs.rs/foo", "[x]: crate");
}

#[test]
fn package_fragment() {
    test("[x]: https://docs.rs/foo#fragment", "[x]: crate#fragment");
}

#[test]
fn package_slash() {
    test("[x]: https://docs.rs/foo/", "[x]: crate");
}

#[test]
fn package_slash_fragment() {
    test("[x]: https://docs.rs/foo/#fragment", "[x]: crate#fragment");
}

// ============================================================
// LINKS - HAS VERSION, NO CRATE

#[test]
fn package_version() {
    test("[x]: https://docs.rs/foo/*", "[x]: crate");
}

#[test]
fn package_version_fragment() {
    test("[x]: https://docs.rs/foo/*#fragment", "[x]: crate#fragment");
}

#[test]
fn package_version_index() {
    test("[x]: https://docs.rs/foo/*/index.html", "[x]: crate");
}

#[test]
fn package_version_index_fragment() {
    test(
        "[x]: https://docs.rs/foo/*/index.html#fragment",
        "[x]: crate#fragment",
    );
}

#[test]
fn package_version_slash() {
    test("[x]: https://docs.rs/foo/*/", "[x]: crate");
}

#[test]
fn package_version_slash_fragment() {
    test("[x]: https://docs.rs/foo/*/#fragment", "[x]: crate#fragment");
}

// ============================================================
// LINKS - HAS CRATE, BUT NO MORE SEGMENTS

#[test]
fn package_version_crate() {
    test("[x]: https://docs.rs/foo/*/foo", "[x]: crate");
}

#[test]
fn package_version_crate_fragment() {
    test(
        "[x]: https://docs.rs/foo/*/foo#fragment",
        "[x]: crate#fragment",
    );
}

#[test]
fn package_version_crate_index() {
    test("[x]: https://docs.rs/foo/*/foo/index.html", "[x]: crate");
}

#[test]
fn package_version_crate_index_fragment() {
    test(
        "[x]: https://docs.rs/foo/*/foo/index.html#fragment",
        "[x]: crate#fragment",
    );
}

#[test]
fn package_version_crate_slash() {
    test("[x]: https://docs.rs/foo/*/foo/", "[x]: crate");
}

#[test]
fn package_version_crate_slash_fragment() {
    test(
        "[x]: https://docs.rs/foo/*/foo/#fragment",
        "[x]: crate#fragment",
    );
}

// ============================================================
// LINKS - MODULE

#[test]
fn module() {
    test("[x]: https://docs.rs/foo/*/foo/a/b", "[x]: crate::a::b");
}

#[test]
fn module_fragment() {
    test(
        "[x]: https://docs.rs/foo/*/foo/a/b#fragment",
        "[x]: crate::a::b#fragment",
    );
}

#[test]
fn module_index() {
    test(
        "[x]: https://docs.rs/foo/*/foo/a/b/index.html",
        "[x]: crate::a::b",
    );
}

#[test]
fn module_index_fragment() {
    test(
        "[x]: https://docs.rs/foo/*/foo/a/b/index.html#fragment",
        "[x]: crate::a::b#fragment",
    );
}

#[test]
fn module_slash() {
    test("[x]: https://docs.rs/foo/*/foo/a/b/", "[x]: crate::a::b");
}

#[test]
fn module_slash_fragment() {
    test(
        "[x]: https://docs.rs/foo/*/foo/a/b/#fragment",
        "[x]: crate::a::b#fragment",
    );
}

// ============================================================
// LINKS - ENUM

#[test]
fn root_enum() {
    test(
        "[x]: https://docs.rs/foo/*/foo/enum.Foo.html",
        "[x]: crate::Foo",
    );
}

#[test]
fn root_enum_fragment() {
    test(
        "[x]: https://docs.rs/foo/*/foo/enum.Foo.html#fragment",
        "[x]: crate::Foo#fragment",
    );
}

#[test]
fn root_enum_method() {
    test(
        "[x]: https://docs.rs/foo/*/foo/enum.Foo.html#method.bar",
        "[x]: crate::Foo::bar",
    );
}

#[test]
fn root_enum_variant() {
    test(
        "[x]: https://docs.rs/foo/*/foo/enum.Foo.html#variant.Bar",
        "[x]: crate::Foo::Bar",
    );
}

#[test]
fn module_enum() {
    test(
        "[x]: https://docs.rs/foo/*/foo/a/b/enum.Foo.html",
        "[x]: crate::a::b::Foo",
    );
}

#[test]
fn module_enum_fragment() {
    test(
        "[x]: https://docs.rs/foo/*/foo/a/b/enum.Foo.html#fragment",
        "[x]: crate::a::b::Foo#fragment",
    );
}

#[test]
fn module_enum_method() {
    test(
        "[x]: https://docs.rs/foo/*/foo/a/b/enum.Foo.html#method.bar",
        "[x]: crate::a::b::Foo::bar",
    );
}

#[test]
fn module_enum_variant() {
    test(
        "[x]: https://docs.rs/foo/*/foo/a/b/enum.Foo.html#variant.Bar",
        "[x]: crate::a::b::Foo::Bar",
    );
}

// ============================================================
// LINKS - FUNCTION

#[test]
fn root_function() {
    test(
        "[x]: https://docs.rs/foo/*/foo/fn.bar.html",
        "[x]: crate::bar",
    );
}

#[test]
fn root_function_fragment() {
    test(
        "[x]: https://docs.rs/foo/*/foo/fn.bar.html#fragment",
        "[x]: crate::bar#fragment",
    );
}

#[test]
fn module_function() {
    test(
        "[x]: https://docs.rs/foo/*/foo/a/b/fn.bar.html",
        "[x]: crate::a::b::bar",
    );
}

#[test]
fn module_function_fragment() {
    test(
        "[x]: https://docs.rs/foo/*/foo/a/b/fn.bar.html#fragment",
        "[x]: crate::a::b::bar#fragment",
    );
}

// ============================================================
// LINKS - STRUCT

#[test]
fn root_struct() {
    test(
        "[x]: https://docs.rs/foo/*/foo/struct.Foo.html",
        "[x]: crate::Foo",
    );
}

#[test]
fn root_struct_fragment() {
    test(
        "[x]: https://docs.rs/foo/*/foo/struct.Foo.html#fragment",
        "[x]: crate::Foo#fragment",
    );
}

#[test]
fn root_struct_method() {
    test(
        "[x]: https://docs.rs/foo/*/foo/struct.Foo.html#method.bar",
        "[x]: crate::Foo::bar",
    );
}

#[test]
fn module_struct() {
    test(
        "[x]: https://docs.rs/foo/*/foo/a/b/struct.Foo.html",
        "[x]: crate::a::b::Foo",
    );
}

#[test]
fn module_struct_fragment() {
    test(
        "[x]: https://docs.rs/foo/*/foo/a/b/struct.Foo.html#fragment",
        "[x]: crate::a::b::Foo#fragment",
    );
}

#[test]
fn module_struct_method() {
    test(
        "[x]: https://docs.rs/foo/*/foo/a/b/struct.Foo.html#method.bar",
        "[x]: crate::a::b::Foo::bar",
    );
}

// ============================================================
// LINKS - TRAIT

#[test]
fn root_trait() {
    test(
        "[x]: https://docs.rs/foo/*/foo/trait.Foo.html",
        "[x]: crate::Foo",
    );
}

#[test]
fn root_trait_fragment() {
    test(
        "[x]: https://docs.rs/foo/*/foo/trait.Foo.html#fragment",
        "[x]: crate::Foo#fragment",
    );
}

#[test]
fn root_trait_method() {
    test(
        "[x]: https://docs.rs/foo/*/foo/trait.Foo.html#tymethod.bar",
        "[x]: crate::Foo::bar",
    );
}

#[test]
fn module_trait() {
    test(
        "[x]: https://docs.rs/foo/*/foo/a/b/trait.Foo.html",
        "[x]: crate::a::b::Foo",
    );
}

#[test]
fn module_trait_fragment() {
    test(
        "[x]: https://docs.rs/foo/*/foo/a/b/trait.Foo.html#fragment",
        "[x]: crate::a::b::Foo#fragment",
    );
}

#[test]
fn module_trait_method() {
    test(
        "[x]: https://docs.rs/foo/*/foo/a/b/trait.Foo.html#tymethod.bar",
        "[x]: crate::a::b::Foo::bar",
    );
}

// ============================================================
// CODE BLOCKS

#[test]
fn two_backticks_doesnt_begin_code_block() {
    test("``\n## a", "``\n# a");
}

#[test]
fn three_backtick_code_block_with_header() {
    test("```\n## a\n```\n## b", "```\n## a\n```\n# b");
}

#[test]
fn four_backtick_code_block_with_header() {
    test("````\n```\n## a\n````\n## b", "````\n```\n## a\n````\n# b");
}

#[test]
fn code_block_with_link() {
    test(
        "```\n[a]: https://docs.rs/foo\n```\n[b]: https://docs.rs/foo",
        "```\n[a]: https://docs.rs/foo\n```\n[b]: crate",
    );
}

#[test]
fn code_block_with_short_line() {
    test("```\n\n```", "```\n\n```");
}

#[test]
fn code_block_with_type() {
    test("```foo\n## a\n```\n## b", "```foo\n## a\n```\n# b");
}

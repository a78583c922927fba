use songbird::format::{detect_format, format_body, BodyFormat};

#[test]
fn detects_json() {
    assert_eq!(detect_format("{\"a\": 1}"), BodyFormat::Json);
    assert_eq!(detect_format("  [1, 2, 3]"), BodyFormat::Json);
}

#[test]
fn detects_xml() {
    assert_eq!(detect_format("<root/>"), BodyFormat::Xml);
    assert_eq!(
        detect_format("<?xml version=\"1.0\"?><root/>"),
        BodyFormat::Xml
    );
}

#[test]
fn detects_plain() {
    assert_eq!(detect_format("plain text"), BodyFormat::Plain);
    assert_eq!(detect_format("{broken"), BodyFormat::Plain);
    assert_eq!(detect_format(""), BodyFormat::Plain);
    assert_eq!(detect_format("   "), BodyFormat::Plain);
}

#[test]
fn json_is_pretty_printed_with_key_order_preserved() {
    let formatted = format_body("{\"b\": 1, \"a\": {\"z\": 2, \"y\": 3}}", BodyFormat::Json);

    assert_eq!(
        formatted,
        "{\n  \"b\": 1,\n  \"a\": {\n    \"z\": 2,\n    \"y\": 3\n  }\n}"
    );
}

#[test]
fn unparseable_json_falls_back_to_raw() {
    assert_eq!(format_body("{oops", BodyFormat::Json), "{oops");
}

#[test]
fn xml_is_indented() {
    let input = "<?xml version=\"1.0\"?><root><item id=\"1\">alpha</item><empty/><child><x>1</x></child></root>";

    let formatted = format_body(input, BodyFormat::Xml);

    assert_eq!(
        formatted,
        "<?xml version=\"1.0\"?>\n<root>\n  <item id=\"1\">\n    alpha\n  </item>\n  <empty/>\n  <child>\n    <x>\n      1\n    </x>\n  </child>\n</root>\n"
    );
}

#[test]
fn xml_attribute_values_may_contain_gt() {
    let formatted = format_body("<a title=\"x>y\"/>", BodyFormat::Xml);

    assert_eq!(formatted, "<a title=\"x>y\"/>\n");
}

#[test]
fn xml_self_closing_tags_keep_depth() {
    let formatted = format_body("<root><item/><next>deep</next></root>", BodyFormat::Xml);

    assert_eq!(
        formatted,
        "<root>\n  <item/>\n  <next>\n    deep\n  </next>\n</root>\n"
    );
}

#[test]
fn xml_text_between_tags_is_trimmed() {
    let formatted = format_body("<a>  spaced  </a>", BodyFormat::Xml);

    assert_eq!(formatted, "<a>\n  spaced\n</a>\n");
}

#[test]
fn broken_xml_is_kept_verbatim() {
    assert_eq!(format_body("<broken", BodyFormat::Xml), "<broken\n");
}

#[test]
fn plain_bodies_pass_through() {
    assert_eq!(
        format_body("  raw text  ", BodyFormat::Plain),
        "  raw text  "
    );
}

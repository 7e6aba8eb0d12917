use prettify::links::{extract_links, render_links};

#[test]
fn test_single_link() {
    let input = "Check out [this link](https://example.com).";
    let expected_output = "Check out this link[1].\n\n[1] https://example.com";
    let (output, links) = extract_links(input);
    assert_eq!(render_links(output, &links), expected_output);
}

#[test]
fn test_multiple_links() {
    let input = "See [site one](https://one.com) and [site two](https://two.com).";
    let expected_output =
        "See site one[1] and site two[2].\n\n[1] https://one.com\n[2] https://two.com";
    let (output, links) = extract_links(input);
    assert_eq!(render_links(output, &links), expected_output);
}

#[test]
fn test_no_links() {
    let input = "This string has no links.";
    let expected_output = "This string has no links.";
    let (output, links) = extract_links(input);
    assert_eq!(render_links(output, &links), expected_output);
}

#[test]
fn test_mixed_content() {
    let input = "Here is a [link](https://example.com) with some [text](https://text.com) and more content.";
    let expected_output = "Here is a link[1] with some text[2] and more content.\n\n[1] https://example.com\n[2] https://text.com";
    let (output, links) = extract_links(input);
    assert_eq!(render_links(output, &links), expected_output);
}

#[test]
fn test_links_with_special_characters() {
    let input = "Check [this](https://example.com/special?query=1&val=two) out!";
    let expected_output =
        "Check this[1] out!\n\n[1] https://example.com/special?query=1&val=two";
    let (output, links) = extract_links(input);
    assert_eq!(render_links(output, &links), expected_output);
}

#[test]
fn test_multiple_same_links() {
    let input = "Here is [link1](https://example.com) and here is another [link1](https://example.com).";
    let expected_output = "Here is link1[1] and here is another link1[2].\n\n[1] https://example.com\n[2] https://example.com";
    let (output, links) = extract_links(input);
    assert_eq!(render_links(output, &links), expected_output);
}

#[test]
fn test_empty_link_text() {
    let input = "An empty [link]() should stay as is.";
    let expected_output = "An empty [link]() should stay as is.";
    let (output, links) = extract_links(input);
    assert_eq!(render_links(output, &links), expected_output);
}

#[test]
fn test_empty_input() {
    let input = "";
    let expected_output = "";
    let (output, links) = extract_links(input);
    assert_eq!(render_links(output, &links), expected_output);
}

#[test]
fn test_render_links_identity_on_empty_table() {
    let body = String::from("Any body text at all.\n\nWith paragraphs.");
    let links: Vec<String> = Vec::new();
    assert_eq!(render_links(body.clone(), &links), body);
}

#[test]
fn test_extract_links_is_deterministic() {
    let input = "See [a](https://a.example) then [b](https://b.example).";
    let first = extract_links(input);
    let second = extract_links(input);
    assert_eq!(first, second);
}

#[test]
fn test_link_numbering_is_monotone() {
    let input = "[one](https://1.example) then [two](https://2.example) then [three](https://3.example)";
    let (body, links) = extract_links(input);
    assert_eq!(links.len(), 3);
    assert_eq!(body, "one[1] then two[2] then three[3]");
    assert!(body.find("[1]").unwrap() < body.find("[2]").unwrap());
    assert!(body.find("[2]").unwrap() < body.find("[3]").unwrap());
}

#[test]
fn test_link_count_matches_placeholders() {
    let input = "x [a](https://a.example) y [b](https://b.example) z [c](https://c.example)";
    let (body, links) = extract_links(input);
    assert_eq!(links.len(), 3);
    for k in 1..=links.len() {
        let marker = format!("[{}]", k);
        assert_eq!(body.matches(&marker).count(), 1);
    }
}

#[test]
fn test_reference_style_link_left_untouched() {
    let input = "A reference [link][id] is not extracted.";
    let (body, links) = extract_links(input);
    assert_eq!(body, input);
    assert!(links.is_empty());
}

#[test]
fn test_non_http_scheme_left_untouched() {
    let input = "A [file link](ftp://example.com/x) stays.";
    let (body, links) = extract_links(input);
    assert_eq!(body, input);
    assert!(links.is_empty());
}

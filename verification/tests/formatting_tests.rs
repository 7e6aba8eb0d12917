use prettify::formatting::{format_markdown, format_sql};

#[test]
fn test_format_markdown_basic() {
    let input = "# Heading

This is a paragraph.";
    let expected_output = "# Heading

This is a paragraph.";
    assert_eq!(format_markdown(input, 80, true).unwrap(), expected_output);
}

#[test]
fn test_format_markdown_wrapping() {
    let input = "# Heading

This is a paragraph with a lot of text that should wrap to a new line based on the specified width.";
    let expected_output = "# Heading

This is a paragraph with a lot of text that should wrap to a
new line based on the specified width.";
    assert_eq!(format_markdown(input, 60, true).unwrap(), expected_output);
}

#[test]
fn test_format_markdown_with_lists() {
    let input = "1. Item one
2. Item two";
    let expected_output = "1.  Item one
2.  Item two";
    assert_eq!(format_markdown(input, 80, true).unwrap(), expected_output);
}

#[test]
fn test_format_markdown_with_code_block() {
    let input = "Here is some code:

```
let x = 10;
println!(\"x is {}\", x);
```";
    let expected_output = "Here is some code:

    let x = 10;
    println!(\"x is {}\", x);";
    assert_eq!(format_markdown(input, 80, true).unwrap(), expected_output);
}

#[test]
fn test_format_markdown_empty_input() {
    let input = "";
    let expected_output = "";
    assert_eq!(format_markdown(input, 80, true).unwrap(), expected_output);
}

#[test]
fn test_format_sql_basic() {
    let input = "SELECT * FROM users WHERE id = 1;";
    let expected_output = "SELECT
  *
FROM
  users
WHERE
  id = 1;";
    assert_eq!(format_sql(input), expected_output);
}

#[test]
fn test_format_sql_with_multiple_queries() {
    let input = "SELECT * FROM users; INSERT INTO users (id, name) VALUES (1, 'Alice');";
    let expected_output = "SELECT
  *
FROM
  users;
INSERT INTO
  users (id, name)
VALUES
  (1, 'Alice');";
    assert_eq!(format_sql(input), expected_output);
}

#[test]
fn test_format_sql_with_complex_query() {
    let input = "SELECT u.id, u.name, p.total FROM users u JOIN purchases p ON u.id = p.user_id WHERE p.total > 100 ORDER BY p.total DESC;";
    let expected_output = "SELECT
  u.id,
  u.name,
  p.total
FROM
  users u
  JOIN purchases p ON u.id = p.user_id
WHERE
  p.total > 100
ORDER BY
  p.total DESC;";
    assert_eq!(format_sql(input), expected_output);
}

#[test]
fn test_format_sql_empty_input() {
    let input = "";
    let expected_output = "";
    assert_eq!(format_sql(input), expected_output);
}

#[test]
fn test_link_escaping() {
    let input = "Check out this link[1].";
    let expected_output = "Check out this link[1].";
    let formatted = format_markdown(input, 80, true).unwrap();
    assert_eq!(formatted, expected_output);
}

#[test]
fn test_strip_bold_formatting() {
    let input = "This is **bold** text.";
    let expected_output = "This is bold text.";
    assert_eq!(format_markdown(input, 80, false).unwrap(), expected_output);
}

#[test]
fn test_strip_italic_formatting() {
    let input = "This is *italic* text.";
    let expected_output = "This is italic text.";
    assert_eq!(format_markdown(input, 80, false).unwrap(), expected_output);
}

#[test]
fn test_strip_bold_and_italic_formatting() {
    let input = "This has **bold** and *italic* and ***both***.";
    let expected_output = "This has bold and italic and both.";
    assert_eq!(format_markdown(input, 80, false).unwrap(), expected_output);
}

#[test]
fn test_keep_emphasis_preserves_bold_and_italic() {
    let input = "This is **bold** and *italic* text.";
    let expected_output = "This is **bold** and *italic* text.";
    assert_eq!(format_markdown(input, 80, true).unwrap(), expected_output);
}

#[test]
fn test_strip_nested_emphasis() {
    let input = "This is **bold with *nested italic* inside**.";
    let expected_output = "This is bold with nested italic inside.";
    assert_eq!(format_markdown(input, 80, false).unwrap(), expected_output);
}

#[test]
fn test_strip_emphasis_idempotent() {
    let input = "This is **bold with *nested italic* inside**, and `code`.";
    let once = format_markdown(input, 80, false).unwrap();
    let twice = format_markdown(&once, 80, false).unwrap();
    assert_eq!(once, twice);
}

#[test]
fn test_keep_flag_agrees_without_emphasis_characters() {
    let input = "# Heading\n\nPlain text with a [link](https://example.com) and no emphasis.";
    let stripped = format_markdown(input, 80, false).unwrap();
    let kept = format_markdown(input, 80, true).unwrap();
    assert_eq!(stripped, kept);
}

#[test]
fn test_format_markdown_output_is_trimmed() {
    let input = "\n\n   Some text surrounded by blank lines.\n\n\n";
    let output = format_markdown(input, 80, true).unwrap();
    assert_eq!(output, output.trim());
}

#[test]
fn test_format_markdown_no_escaped_brackets_remain() {
    let input = "Footnote markers like [1] and [2] survive.";
    let output = format_markdown(input, 80, true).unwrap();
    assert!(!output.contains("\\["));
    assert!(!output.contains("\\]"));
}

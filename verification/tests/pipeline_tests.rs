use prettify::formatting::format_output;
use prettify::input::{join_lines, push_input_line};
use prettify::links::extract_links;
use prettify::options::{InputKind, InputSource, Options, OutputDestination};
use prettify::output::{intro_text, stdout_banner};

fn options_for(kind: InputKind) -> Options {
    Options {
        input_src: InputSource::Stdin,
        output_dest: OutputDestination::Stdout,
        kind,
        width: 80,
        keep_emphasis: false,
    }
}

#[test]
fn test_pipeline_link_extraction_and_rendering() {
    let input = "See [site one](https://one.com) and [site two](https://two.com).";
    let (body, links) = extract_links(input);
    let output = format_output(&options_for(InputKind::Markdown), body, links).unwrap();
    assert_eq!(
        output,
        "See site one[1] and site two[2].\n\n[1] https://one.com\n[2] https://two.com"
    );
}

#[test]
fn test_pipeline_empty_url_left_untouched() {
    let input = "An empty [link]() should stay as is.";
    let (body, links) = extract_links(input);
    let output = format_output(&options_for(InputKind::Markdown), body, links).unwrap();
    assert_eq!(output, "An empty [link]() should stay as is.");
}

#[test]
fn test_pipeline_sql_branch_ignores_links() {
    let options = options_for(InputKind::Sql);
    let links = vec![String::from("https://ignored.example")];
    let output = format_output(&options, String::from("SELECT * FROM users WHERE id = 1;"), links)
        .unwrap();
    assert_eq!(output, "SELECT\n  *\nFROM\n  users\nWHERE\n  id = 1;");
}

#[test]
fn test_input_collection_stops_on_two_blank_lines() {
    let mut lines: Vec<String> = Vec::new();
    assert!(!push_input_line(&mut lines, String::from("first")));
    assert!(!push_input_line(&mut lines, String::from("second")));
    assert!(!push_input_line(&mut lines, String::from("")));
    assert!(push_input_line(&mut lines, String::from("")));
    assert_eq!(join_lines(&lines), "first\nsecond");
}

#[test]
fn test_input_collection_keeps_single_blank_lines() {
    let mut lines: Vec<String> = Vec::new();
    assert!(!push_input_line(&mut lines, String::from("a")));
    assert!(!push_input_line(&mut lines, String::from("")));
    assert!(!push_input_line(&mut lines, String::from("b")));
    assert_eq!(join_lines(&lines), "a\n\nb");
}

#[test]
fn test_join_lines_of_nothing_is_empty() {
    let lines: Vec<String> = Vec::new();
    assert_eq!(join_lines(&lines), "");
}

#[test]
fn test_stdout_banner_frames_the_body() {
    let banner = stdout_banner("hello", 5);
    assert_eq!(banner, "Formatted output:\n-----\nhello\n-----");
}

#[test]
fn test_intro_text_by_kind() {
    assert_eq!(intro_text(InputKind::Sql), "Enter a SQL string to be reformatted");
    assert_eq!(
        intro_text(InputKind::Markdown),
        "Enter a GitHub Flavored Markdown string to be reformatted.\n  - See https://github.github.com/gfm/ for the GFM spec"
    );
}

//! The markdown and SQL formatting passes, and the orchestrator that picks
//! between them.
//!
//! The markdown pass parses the text into the library's tree shape, applies
//! the verified Emphasis Strip unless asked to keep emphasis, has comrak
//! serialize the tree back at the configured width, and then — verified
//! exactly — trims the result and restores the brackets the renderer
//! escaped.

use crate::links::{render_links, rendered_links};
use crate::md_tree::{
    lemma_list_view_props, node_view, parse_markdown, parse_of, render_markdown_tree, render_of,
    render_ok, strip_node, strip_tree, MdNode, MdTree,
};
use crate::options::{InputKind, Options};
use crate::text::{
    chars_to_string, has_pair, is_ws_char, lemma_trim_no_ws_ends, lemma_unescape_first,
    lemma_unescape_last, lemma_unescape_no_escaped_brackets, str_to_chars, trim_chars, trim_spec,
    unescape_brackets, unescape_brackets_chars,
};
use vstd::prelude::*;

verus! {

/// What the SQL pretty-printer yields for the given query text.
pub uninterp spec fn sql_format(s: Seq<char>) -> Seq<char>;

/// The tree the markdown formatter hands to the renderer: the parse of `s`,
/// with the Emphasis Strip applied unless `keep_emphasis` is set. The strip
/// of a document node is a single node again.
pub open spec fn shaped_tree(s: Seq<char>, keep_emphasis: bool) -> MdTree {
    if keep_emphasis {
        parse_of(s)
    } else {
        strip_tree(parse_of(s))[0]
    }
}

/// Whether the markdown render succeeds for the given text, width and flag.
pub open spec fn markdown_render_ok(s: Seq<char>, width: int, keep_emphasis: bool) -> bool {
    render_ok(shaped_tree(s, keep_emphasis), width)
}

/// What `format_markdown` returns on success: the re-rendered CommonMark,
/// trimmed, with the escaped brackets restored.
pub open spec fn cleaned_markdown(s: Seq<char>, width: int, keep_emphasis: bool) -> Seq<char> {
    unescape_brackets(trim_spec(render_of(shaped_tree(s, keep_emphasis), width)))
}

/// Whether `s` neither begins nor ends with whitespace.
pub open spec fn no_lead_trail_ws(s: Seq<char>) -> bool {
    s.len() > 0 ==> (!is_ws_char(s[0]) && !is_ws_char(s.last()))
}

/// A cleaned markdown rendering never begins or ends with whitespace.
pub proof fn lemma_cleaned_markdown_trimmed(s: Seq<char>, width: int, keep_emphasis: bool)
    ensures
        no_lead_trail_ws(cleaned_markdown(s, width, keep_emphasis)),
{
    let rendered = render_of(shaped_tree(s, keep_emphasis), width);
    lemma_trim_no_ws_ends(rendered);
    if trim_spec(rendered).len() > 0 {
        lemma_unescape_first(trim_spec(rendered));
        lemma_unescape_last(trim_spec(rendered));
    }
}

/// A cleaned markdown rendering holds no escaped bracket, as long as the
/// trimmed render holds no doubled backslash for the unescape to split.
pub proof fn lemma_cleaned_markdown_unescaped(s: Seq<char>, width: int, keep_emphasis: bool)
    requires
        !has_pair(trim_spec(render_of(shaped_tree(s, keep_emphasis), width)), '\\', '\\'),
    ensures
        !has_pair(cleaned_markdown(s, width, keep_emphasis), '\\', '['),
        !has_pair(cleaned_markdown(s, width, keep_emphasis), '\\', ']'),
{
    lemma_unescape_no_escaped_brackets(
        trim_spec(render_of(shaped_tree(s, keep_emphasis), width)),
    );
}

/// Reformats a raw markdown string: re-renders it as CommonMark at `width`,
/// stripping bold and italic emphasis unless `keep_emphasis` is set, trims
/// the result and restores the brackets the renderer escaped. Fails exactly
/// when comrak's serialization fails, with its message.
pub fn format_markdown(input: &str, width: usize, keep_emphasis: bool) -> (r: Result<
    String,
    String,
>)
    ensures
        r is Ok <==> markdown_render_ok(input@, width as int, keep_emphasis),
        r is Ok ==> r->Ok_0@ == cleaned_markdown(input@, width as int, keep_emphasis),
        r is Ok ==> no_lead_trail_ws(r->Ok_0@),
{
    let tree = parse_markdown(input);
    let shaped: MdNode = if keep_emphasis {
        tree
    } else {
        let mut stripped = strip_node(&tree);
        proof {
            lemma_list_view_props(stripped@, 0);
            assert(stripped@.len() == 1);
            assert(node_view(stripped@[0]) == strip_tree(parse_of(input@))[0]);
        }
        stripped.remove(0)
    };
    proof {
        assert(node_view(shaped) == shaped_tree(input@, keep_emphasis));
    }
    match render_markdown_tree(&shaped, width) {
        Err(e) => Err(e),
        Ok(rendered) => {
            let chars = str_to_chars(rendered.as_str());
            let trimmed = trim_chars(&chars);
            let clean = unescape_brackets_chars(&trimmed);
            proof {
                lemma_cleaned_markdown_trimmed(input@, width as int, keep_emphasis);
            }
            Ok(chars_to_string(&clean))
        },
    }
}

/// Reformats a raw SQL string. Relies on sqlformat 0.2's `format` with no
/// query parameters and default options; it reads nothing but the query
/// text, so what it returns is a function of that text alone, named
/// `sql_format`.
#[verifier::external_body]
pub fn format_sql(input: &str) -> (r: String)
    ensures
        r@ == sql_format(input@),
{
    sqlformat::format(
        input,
        &sqlformat::QueryParams::default(),
        sqlformat::FormatOptions::default(),
    )
}

/// What `format_output` returns on success.
pub open spec fn formatted_output(
    options: Options,
    input: Seq<char>,
    links: Seq<Seq<char>>,
) -> Seq<char> {
    match options.kind {
        InputKind::Markdown => rendered_links(
            cleaned_markdown(input, options.width as int, options.keep_emphasis),
            links,
        ),
        InputKind::Sql => sql_format(input),
    }
}

/// Formats `input` as the configuration asks. The markdown branch re-renders
/// the text and appends the reference block for `links`; the SQL branch
/// delegates to the SQL pretty-printer and ignores `links`. Failure happens
/// exactly when the markdown branch's serialization fails.
pub fn format_output(options: &Options, input: String, links: Vec<String>) -> (r: Result<
    String,
    String,
>)
    ensures
        r is Ok <==> (options.kind is Sql || markdown_render_ok(
            input@,
            options.width as int,
            options.keep_emphasis,
        )),
        r is Ok ==> r->Ok_0@ == formatted_output(*options, input@, links.deep_view()),
{
    match options.kind {
        InputKind::Markdown => {
            match format_markdown(input.as_str(), options.width, options.keep_emphasis) {
                Ok(markdown) => Ok(render_links(markdown, &links)),
                Err(e) => Err(e),
            }
        },
        InputKind::Sql => Ok(format_sql(input.as_str())),
    }
}

} // verus!

//! The text the shell shows: the kind-specific introduction before
//! interactive entry, and the banner around a formatted body.

use crate::options::InputKind;
use crate::text::{chars_to_string, push_all, str_to_chars};
use vstd::prelude::*;

verus! {

/// The introduction line for each input kind.
pub open spec fn intro_text_spec(kind: InputKind) -> Seq<char> {
    match kind {
        InputKind::Markdown => "Enter a GitHub Flavored Markdown string to be reformatted.\n  - See https://github.github.com/gfm/ for the GFM spec"@,
        InputKind::Sql => "Enter a SQL string to be reformatted"@,
    }
}

/// The introduction shown for `kind` before interactive entry.
pub fn intro_text(kind: InputKind) -> (r: &'static str)
    ensures
        r@ == intro_text_spec(kind),
{
    match kind {
        InputKind::Markdown => "Enter a GitHub Flavored Markdown string to be reformatted.\n  - See https://github.github.com/gfm/ for the GFM spec",
        InputKind::Sql => "Enter a SQL string to be reformatted",
    }
}

/// `width` dashes.
pub open spec fn dashes(width: nat) -> Seq<char> {
    Seq::new(width, |i: int| '-')
}

/// The banner's first line.
pub open spec fn banner_header() -> Seq<char> {
    "Formatted output:\n"@
}

/// The banner printed when the output goes to the terminal: a header line,
/// then the body between two horizontal rules of `width` dashes.
pub open spec fn banner_spec(body: Seq<char>, width: nat) -> Seq<char> {
    banner_header() + dashes(width) + seq!['\n'] + body + seq!['\n'] + dashes(width)
}

fn dash_vec(width: usize) -> (r: Vec<char>)
    ensures
        r@ == dashes(width as nat),
{
    let mut r: Vec<char> = Vec::new();
    let mut i: usize = 0;
    while i < width
        invariant
            i <= width,
            r@ == dashes(i as nat),
        decreases width - i,
    {
        r.push('-');
        i = i + 1;
        proof {
            assert(r@ =~= dashes(i as nat));
        }
    }
    r
}

/// The banner around `body`, with rules of `width` dashes.
pub fn stdout_banner(body: &str, width: usize) -> (r: String)
    ensures
        r@ == banner_spec(body@, width as nat),
{
    let mut out: Vec<char> = str_to_chars("Formatted output:\n");
    let rule = dash_vec(width);
    let b = str_to_chars(body);
    push_all(&mut out, &rule);
    out.push('\n');
    push_all(&mut out, &b);
    out.push('\n');
    push_all(&mut out, &rule);
    proof {
        assert(out@ =~= banner_spec(body@, width as nat));
    }
    chars_to_string(&out)
}

} // verus!

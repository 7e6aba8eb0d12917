//! Inline-hyperlink extraction and footnote-style rendering.
//!
//! An inline link is a non-empty bracketed label followed immediately by a
//! parenthesized URL beginning with `http://` or `https://`; the label holds
//! no `]` and the URL holds no `)`. Each match, leftmost first, is replaced
//! by `LABEL[N]` with `N` its 1-based occurrence index, and its URL is
//! collected; `render_links` later appends the numbered reference block.

use crate::text::{
    chars_to_string, copy_range, dec_chars, dec_chars_vec, find_char, first_idx, join_with_newlines,
    lemma_first_idx, lemma_join_push, push_all, replace_first, replace_first_chars, str_to_chars,
};
use vstd::prelude::*;

verus! {

/// Whether `url` begins with `http://` or `https://`, with at least one
/// character following the scheme.
pub open spec fn url_has_scheme(url: Seq<char>) -> bool {
    (url.len() > 7 && url.take(7) == seq!['h', 't', 't', 'p', ':', '/', '/']) || (url.len() > 8
        && url.take(8) == seq!['h', 't', 't', 'p', 's', ':', '/', '/'])
}

/// The inline-link match starting at `i`, as `(full, label, url)`: the whole
/// matched text, the bracketed label, and the URL. `None` when no match
/// starts exactly at `i`.
pub open spec fn link_match_at(s: Seq<char>, i: int) -> Option<(Seq<char>, Seq<char>, Seq<char>)> {
    if !(0 <= i < s.len()) || s[i] != '[' {
        None
    } else {
        let j = first_idx(s, i + 1, ']');
        if j >= s.len() || j == i + 1 || j + 1 >= s.len() || s[j + 1] != '(' {
            None
        } else {
            let k = first_idx(s, j + 2, ')');
            if k >= s.len() {
                None
            } else {
                let url = s.subrange(j + 2, k);
                if url_has_scheme(url) {
                    Some((s.subrange(i, k + 1), s.subrange(i + 1, j), url))
                } else {
                    None
                }
            }
        }
    }
}

/// A match is non-empty and ends within `s`.
pub proof fn lemma_link_match_bounds(s: Seq<char>, i: int)
    requires
        link_match_at(s, i) is Some,
    ensures
        0 < link_match_at(s, i)->Some_0.0.len(),
        i + link_match_at(s, i)->Some_0.0.len() <= s.len(),
        0 <= i < s.len(),
{
    lemma_first_idx(s, i + 1, ']');
    let j = first_idx(s, i + 1, ']');
    lemma_first_idx(s, j + 2, ')');
}

/// All inline-link matches of `s` at or after `from`, leftmost first and
/// non-overlapping: after a match the scan resumes where it ended, otherwise
/// it advances one character.
pub open spec fn link_matches(s: Seq<char>, from: int) -> Seq<(Seq<char>, Seq<char>, Seq<char>)>
    decreases s.len() - from,
    via link_matches_decreases
{
    if !(0 <= from < s.len()) {
        Seq::empty()
    } else {
        match link_match_at(s, from) {
            Some(m) => seq![m] + link_matches(s, from + m.0.len()),
            None => link_matches(s, from + 1),
        }
    }
}

#[via_fn]
proof fn link_matches_decreases(s: Seq<char>, from: int) {
    if 0 <= from < s.len() {
        if link_match_at(s, from) is Some {
            lemma_link_match_bounds(s, from);
        }
    }
}

/// The URLs of all matches of `s`, in match order.
pub open spec fn link_urls(s: Seq<char>) -> Seq<Seq<char>> {
    link_matches(s, 0).map(|i: int, m: (Seq<char>, Seq<char>, Seq<char>)| m.2)
}

/// `LABEL[N]`: what replaces the `N`-th match.
pub open spec fn placeholder_for(label: Seq<char>, n: nat) -> Seq<char> {
    label + seq!['['] + dec_chars(n) + seq![']']
}

/// The working body after replacing, for each match in order, the first
/// remaining occurrence of its matched text by its placeholder; `n` numbers
/// the first of `ms`.
pub open spec fn apply_link_repls(
    body: Seq<char>,
    ms: Seq<(Seq<char>, Seq<char>, Seq<char>)>,
    n: nat,
) -> Seq<char>
    decreases ms.len(),
{
    if ms.len() == 0 {
        body
    } else {
        apply_link_repls(
            replace_first(body, ms[0].0, placeholder_for(ms[0].1, n)),
            ms.skip(1),
            n + 1,
        )
    }
}

/// The body `extract_links` returns for input `s`.
pub open spec fn extracted_body(s: Seq<char>) -> Seq<char> {
    apply_link_repls(s, link_matches(s, 0), 1)
}

fn url_scheme_check(url: &Vec<char>) -> (b: bool)
    ensures
        b == url_has_scheme(url@),
{
    if url.len() > 7 && url[0] == 'h' && url[1] == 't' && url[2] == 't' && url[3] == 'p' && url[4]
        == ':' && url[5] == '/' && url[6] == '/' {
        proof {
            assert(url@.take(7) =~= seq!['h', 't', 't', 'p', ':', '/', '/']);
        }
        return true;
    }
    if url.len() > 8 && url[0] == 'h' && url[1] == 't' && url[2] == 't' && url[3] == 'p' && url[4]
        == 's' && url[5] == ':' && url[6] == '/' && url[7] == '/' {
        proof {
            assert(url@.take(8) =~= seq!['h', 't', 't', 'p', 's', ':', '/', '/']);
        }
        return true;
    }
    proof {
        if url@.len() > 7 && url@.take(7) == seq!['h', 't', 't', 'p', ':', '/', '/'] {
            assert(forall|m: int| 0 <= m < 7 ==> url@[m] == #[trigger] url@.take(7)[m]);
        }
        if url@.len() > 8 && url@.take(8) == seq!['h', 't', 't', 'p', 's', ':', '/', '/'] {
            assert(forall|m: int| 0 <= m < 8 ==> url@[m] == #[trigger] url@.take(8)[m]);
        }
    }
    false
}

/// The match starting at `i`, as `(end, label, url)` with `end` one past the
/// matched text.
fn try_link_match(v: &Vec<char>, i: usize) -> (r: Option<(usize, Vec<char>, Vec<char>)>)
    requires
        i < v@.len(),
    ensures
        r is Some ==> ({
            let m = link_match_at(v@, i as int)->Some_0;
            let p = r->0;
            &&& link_match_at(v@, i as int) is Some
            &&& i < p.0 <= v@.len()
            &&& m.0 == v@.subrange(i as int, p.0 as int)
            &&& p.1@ == m.1
            &&& p.2@ == m.2
        }),
        r is None ==> link_match_at(v@, i as int) is None,
{
    let n = v.len();
    if v[i] != '[' {
        return None;
    }
    let j = find_char(v, i + 1, ']');
    proof {
        lemma_first_idx(v@, i + 1, ']');
    }
    if j >= n || j == i + 1 || j + 1 >= n {
        return None;
    }
    if v[j + 1] != '(' {
        return None;
    }
    let k = find_char(v, j + 2, ')');
    proof {
        lemma_first_idx(v@, j + 2, ')');
    }
    if k >= n {
        return None;
    }
    let url = copy_range(v, j + 2, k);
    if !url_scheme_check(&url) {
        return None;
    }
    let label = copy_range(v, i + 1, j);
    Some((k + 1, label, url))
}

fn make_placeholder(label: &Vec<char>, n: usize) -> (r: Vec<char>)
    ensures
        r@ == placeholder_for(label@, n as nat),
{
    let mut r: Vec<char> = Vec::new();
    push_all(&mut r, label);
    r.push('[');
    let d = dec_chars_vec(n);
    push_all(&mut r, &d);
    r.push(']');
    proof {
        assert(r@ =~= placeholder_for(label@, n as nat));
    }
    r
}

/// Splits `markdown` into a body in which each inline link has become
/// `LABEL[N]`, and the list of the matched URLs in match order. The body is
/// exactly the fold of single-shot replacements over the leftmost-first match
/// list, and the URL list is exactly the URLs of those matches, so the result
/// is a function of the input text alone.
pub fn extract_links(markdown: &str) -> (r: (String, Vec<String>))
    ensures
        r.0@ == extracted_body(markdown@),
        r.1.deep_view() == link_urls(markdown@),
        r.1.deep_view().len() == link_matches(markdown@, 0).len(),
        link_matches(markdown@, 0).len() == 0 ==> r.0@ == markdown@,
{
    let v = str_to_chars(markdown);
    let ghost gm = link_matches(v@, 0);
    let mut fulls: Vec<Vec<char>> = Vec::new();
    let mut labels: Vec<Vec<char>> = Vec::new();
    let mut urls: Vec<String> = Vec::new();
    let n = v.len();
    let mut i: usize = 0;
    proof {
        assert(gm.skip(0) =~= gm);
    }
    while i < n
        invariant
            i <= n,
            n == v@.len(),
            gm == link_matches(v@, 0),
            fulls@.len() == labels@.len(),
            labels@.len() == urls@.len(),
            fulls@.len() <= gm.len(),
            link_matches(v@, i as int) == gm.skip(fulls@.len() as int),
            forall|t: int|
                0 <= t < fulls@.len() ==> fulls@[t]@ == (#[trigger] gm[t]).0 && labels@[t]@
                    == gm[t].1 && urls@[t]@ == gm[t].2 && gm[t].0.len() > 0,
        decreases n - i,
    {
        let ghost c = fulls@.len() as int;
        match try_link_match(&v, i) {
            Some((end, label, url)) => {
                let ghost m_len = end - i;
                proof {
                    lemma_link_match_bounds(v@, i as int);
                    let m = link_match_at(v@, i as int)->Some_0;
                    assert(m.0.len() == end - i);
                    assert(link_matches(v@, i as int) == seq![m] + link_matches(v@, end as int));
                    assert(gm.skip(c)[0] == m);
                    assert(gm[c] == m);
                    assert((seq![m] + link_matches(v@, end as int)).skip(1) =~= link_matches(
                        v@,
                        end as int,
                    ));
                    assert(gm.skip(c).skip(1) =~= gm.skip(c + 1));
                }
                let full = copy_range(&v, i, end);
                let ghost fulls0 = fulls@;
                let ghost labels0 = labels@;
                let ghost urls0 = urls@;
                let link = chars_to_string(&url);
                fulls.push(full);
                labels.push(label);
                urls.push(link);
                i = end;
                proof {
                    let m = link_match_at(v@, (end - m_len) as int)->Some_0;
                    assert forall|t: int|
                        0 <= t < fulls@.len() implies fulls@[t]@ == (#[trigger] gm[t]).0
                        && labels@[t]@ == gm[t].1 && urls@[t]@ == gm[t].2 && gm[t].0.len() > 0 by {
                        if t < c {
                            assert(fulls0[t]@ == gm[t].0 && labels0[t]@ == gm[t].1 && urls0[t]@
                                == gm[t].2 && gm[t].0.len() > 0);
                            assert(fulls@[t] == fulls0[t] && labels@[t] == labels0[t] && urls@[t]
                                == urls0[t]);
                        } else {
                            assert(t == c);
                            assert(fulls@[t]@ == m.0 && labels@[t]@ == m.1 && urls@[t]@ == m.2);
                        }
                    }
                }
            },
            None => {
                proof {
                    assert(link_matches(v@, i as int) == link_matches(v@, i + 1));
                }
                i = i + 1;
            },
        }
    }
    proof {
        assert(link_matches(v@, n as int) =~= Seq::<(Seq<char>, Seq<char>, Seq<char>)>::empty());
        assert(gm.skip(fulls@.len() as int).len() == 0);
        assert(fulls@.len() == gm.len());
    }
    let mut body: Vec<char> = copy_range(&v, 0, n);
    proof {
        assert(v@.subrange(0, n as int) =~= v@);
        assert(gm.skip(0) =~= gm);
    }
    let mut t: usize = 0;
    while t < fulls.len()
        invariant
            t <= fulls@.len(),
            fulls@.len() == gm.len(),
            labels@.len() == gm.len(),
            forall|q: int|
                0 <= q < fulls@.len() ==> fulls@[q]@ == (#[trigger] gm[q]).0 && labels@[q]@
                    == gm[q].1 && gm[q].0.len() > 0,
            apply_link_repls(v@, gm, 1) == apply_link_repls(body@, gm.skip(t as int), (t + 1) as nat),
        decreases fulls@.len() - t,
    {
        let ph = make_placeholder(&labels[t], t + 1);
        let ghost before = body@;
        let new_body = replace_first_chars(&body, &fulls[t], &ph);
        body = new_body;
        proof {
            assert(gm.skip(t as int)[0] == gm[t as int]);
            assert(gm.skip(t as int).skip(1) =~= gm.skip(t + 1));
            assert(apply_link_repls(before, gm.skip(t as int), (t + 1) as nat)
                == apply_link_repls(
                replace_first(before, gm[t as int].0, placeholder_for(gm[t as int].1, (t + 1) as nat)),
                gm.skip(t + 1),
                (t + 2) as nat,
            ));
        }
        t = t + 1;
    }
    proof {
        assert(gm.skip(gm.len() as int) =~= Seq::<(Seq<char>, Seq<char>, Seq<char>)>::empty());
        assert(apply_link_repls(body@, gm.skip(t as int), (t + 1) as nat) == body@);
        let dv = urls.deep_view();
        assert(dv.len() == gm.len());
        assert forall|q: int| 0 <= q < gm.len() implies dv[q] == link_urls(v@)[q] by {
            assert(dv[q] == urls@[q].deep_view());
            assert(fulls@[q]@ == gm[q].0);
            assert(urls@[q]@ == gm[q].2);
            assert(link_urls(v@)[q] == gm[q].2);
        }
        assert(dv =~= link_urls(v@));
    }
    (chars_to_string(&body), urls)
}

/// The numbered reference lines for `links`: line `i` is `[i+1] URL`.
pub open spec fn ref_lines(links: Seq<Seq<char>>) -> Seq<Seq<char>> {
    links.map(|i: int, u: Seq<char>| seq!['['] + dec_chars((i + 1) as nat) + seq![']', ' '] + u)
}

/// What `render_links` returns: the body alone when there are no links,
/// otherwise the body, one blank line, and the joined reference lines.
pub open spec fn rendered_links(body: Seq<char>, links: Seq<Seq<char>>) -> Seq<char> {
    if links.len() == 0 {
        body
    } else {
        body + seq!['\n', '\n'] + join_with_newlines(ref_lines(links))
    }
}

fn ref_block_chars(links: &Vec<String>) -> (r: Vec<char>)
    requires
        links@.len() > 0,
    ensures
        r@ == join_with_newlines(ref_lines(links.deep_view())),
{
    let ghost lines = ref_lines(links.deep_view());
    let mut r: Vec<char> = Vec::new();
    let mut t: usize = 0;
    while t < links.len()
        invariant
            t <= links@.len(),
            lines == ref_lines(links.deep_view()),
            lines.len() == links@.len(),
            t == 0 ==> r@ == Seq::<char>::empty(),
            t > 0 ==> r@ == join_with_newlines(lines.take(t as int)),
        decreases links@.len() - t,
    {
        if t > 0 {
            r.push('\n');
        }
        r.push('[');
        let d = dec_chars_vec(t + 1);
        push_all(&mut r, &d);
        r.push(']');
        r.push(' ');
        let u = str_to_chars(links[t].as_str());
        push_all(&mut r, &u);
        proof {
            assert(links@[t as int]@ == links.deep_view()[t as int]);
            assert(lines[t as int] == seq!['['] + dec_chars((t + 1) as nat) + seq![']', ' ']
                + links.deep_view()[t as int]);
            lemma_join_push(lines.take(t as int), lines[t as int]);
            assert(lines.take(t as int).push(lines[t as int]) =~= lines.take(t + 1));
            if t == 0 {
                assert(r@ =~= join_with_newlines(lines.take(1)));
            } else {
                assert(r@ =~= join_with_newlines(lines.take(t as int)) + seq!['\n']
                    + lines[t as int]);
            }
        }
        t = t + 1;
    }
    proof {
        assert(lines.take(lines.len() as int) =~= lines);
    }
    r
}

/// Returns `body` unchanged when `links` is empty; otherwise appends a blank
/// line and the numbered reference block, one `[N] URL` line per link.
pub fn render_links(body: String, links: &Vec<String>) -> (r: String)
    ensures
        r@ == rendered_links(body@, links.deep_view()),
        links@.len() == 0 ==> r@ == body@,
{
    if links.len() == 0 {
        return body;
    }
    let mut out = str_to_chars(body.as_str());
    out.push('\n');
    out.push('\n');
    let block = ref_block_chars(links);
    push_all(&mut out, &block);
    proof {
        assert(out@ =~= rendered_links(body@, links.deep_view()));
    }
    chars_to_string(&out)
}

} // verus!

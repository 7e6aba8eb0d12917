//! The decisions of interactive line collection.
//!
//! Lines arrive one at a time from the outside. An empty line right after an
//! empty line ends the collection, and the earlier blank is dropped; the
//! payload is the collected lines joined with single newlines. Reading the
//! lines is the caller's business; every decision stands here.

use crate::text::{chars_to_string, join_with_newlines, lemma_join_push, push_all, str_to_chars};
use vstd::prelude::*;

verus! {

/// One step of line collection. An empty `line` arriving while the last
/// collected line is empty ends the collection: the stored blank is dropped
/// and the result is `true`. Any other line is appended and the result is
/// `false`.
pub fn push_input_line(lines: &mut Vec<String>, line: String) -> (done: bool)
    ensures
        done ==> old(lines)@.len() > 0 && old(lines)@.last()@.len() == 0 && line@.len() == 0
            && final(lines)@ == old(lines)@.drop_last(),
        !done ==> final(lines)@ == old(lines)@.push(line) && !(line@.len() == 0 && old(
            lines,
        )@.len() > 0 && old(lines)@.last()@.len() == 0),
{
    let line_empty = line.as_str().unicode_len() == 0;
    if line_empty && lines.len() > 0 {
        let last_empty = lines[lines.len() - 1].as_str().unicode_len() == 0;
        if last_empty {
            lines.pop();
            return true;
        }
    }
    lines.push(line);
    false
}

/// The collected lines joined with single `\n` separators.
pub fn join_lines(lines: &Vec<String>) -> (r: String)
    ensures
        r@ == join_with_newlines(lines.deep_view()),
{
    let ghost ls = lines.deep_view();
    let mut out: Vec<char> = Vec::new();
    let mut t: usize = 0;
    while t < lines.len()
        invariant
            t <= lines@.len(),
            ls == lines.deep_view(),
            ls.len() == lines@.len(),
            t == 0 ==> out@ == Seq::<char>::empty(),
            t > 0 ==> out@ == join_with_newlines(ls.take(t as int)),
        decreases lines@.len() - t,
    {
        if t > 0 {
            out.push('\n');
        }
        let u = str_to_chars(lines[t].as_str());
        push_all(&mut out, &u);
        proof {
            assert(ls[t as int] == lines@[t as int]@);
            lemma_join_push(ls.take(t as int), ls[t as int]);
            assert(ls.take(t as int).push(ls[t as int]) =~= ls.take(t + 1));
            if t == 0 {
                assert(out@ =~= join_with_newlines(ls.take(1)));
            } else {
                assert(out@ =~= join_with_newlines(ls.take(t as int)) + seq!['\n'] + ls[t as int]);
            }
        }
        t = t + 1;
    }
    proof {
        assert(ls.take(ls.len() as int) =~= ls);
    }
    chars_to_string(&out)
}

} // verus!

//! Character-sequence utilities shared by the formatting pipeline: substring
//! search, single-shot replacement, decimal numerals, whitespace trimming and
//! bracket unescaping, each stated over `Seq<char>`.

use vstd::prelude::*;

verus! {

// ---------------------------------------------------------------------------
// Characters of a string
// ---------------------------------------------------------------------------

/// The characters of `s`, in order.
pub fn str_to_chars(s: &str) -> (r: Vec<char>)
    ensures
        r@ == s@,
{
    let n = s.unicode_len();
    let mut r: Vec<char> = Vec::new();
    let mut i: usize = 0;
    while i < n
        invariant
            n == s@.len(),
            i <= n,
            r@ == s@.take(i as int),
        decreases n - i,
    {
        let c = s.get_char(i);
        r.push(c);
        i = i + 1;
        proof {
            assert(s@.take(i as int) =~= s@.take(i - 1).push(s@[i - 1]));
        }
    }
    proof {
        assert(s@.take(n as int) =~= s@);
    }
    r
}

/// Relies on `Iterator::collect` for `String`: collecting the characters of a
/// slice yields the string holding exactly those characters, in order.
#[verifier::external_body]
pub fn chars_to_string(v: &Vec<char>) -> (r: String)
    ensures
        r@ == v@,
{
    v.iter().collect()
}

// ---------------------------------------------------------------------------
// Searching
// ---------------------------------------------------------------------------

/// Index of the first occurrence of `c` in `s` at or after `from`;
/// `s.len()` when there is none.
pub open spec fn first_idx(s: Seq<char>, from: int, c: char) -> int
    decreases s.len() - from,
{
    if from < 0 || from >= s.len() {
        s.len() as int
    } else if s[from] == c {
        from
    } else {
        first_idx(s, from + 1, c)
    }
}

pub proof fn lemma_first_idx(s: Seq<char>, from: int, c: char)
    requires
        0 <= from <= s.len(),
    ensures
        from <= first_idx(s, from, c) <= s.len(),
        first_idx(s, from, c) < s.len() ==> s[first_idx(s, from, c)] == c,
        forall|k: int| from <= k < first_idx(s, from, c) ==> s[k] != c,
    decreases s.len() - from,
{
    if from < s.len() && s[from] != c {
        lemma_first_idx(s, from + 1, c);
    }
}

pub fn find_char(v: &Vec<char>, from: usize, c: char) -> (r: usize)
    requires
        from <= v@.len(),
    ensures
        r == first_idx(v@, from as int, c),
{
    let mut i = from;
    while i < v.len()
        invariant
            from <= i <= v@.len(),
            first_idx(v@, from as int, c) == first_idx(v@, i as int, c),
        decreases v@.len() - i,
    {
        if v[i] == c {
            assert(first_idx(v@, i as int, c) == i);
            return i;
        }
        assert(first_idx(v@, i as int, c) == first_idx(v@, i + 1, c));
        i = i + 1;
    }
    assert(first_idx(v@, i as int, c) == v@.len());
    i
}

/// Whether `pat` occurs in `hay` starting at index `i`.
pub open spec fn is_match_at(hay: Seq<char>, pat: Seq<char>, i: int) -> bool {
    0 <= i && i + pat.len() <= hay.len() && hay.subrange(i, i + pat.len() as int) == pat
}

/// Index of the leftmost occurrence of `pat` in `hay` at or after `from`;
/// `-1` when there is none.
pub open spec fn find_idx(hay: Seq<char>, pat: Seq<char>, from: int) -> int
    decreases hay.len() - from + 1,
{
    if from < 0 || from + pat.len() > hay.len() {
        -1
    } else if is_match_at(hay, pat, from) {
        from
    } else {
        find_idx(hay, pat, from + 1)
    }
}

pub proof fn lemma_find_idx(hay: Seq<char>, pat: Seq<char>, from: int)
    requires
        0 <= from,
    ensures
        find_idx(hay, pat, from) == -1 || from <= find_idx(hay, pat, from),
        find_idx(hay, pat, from) >= 0 ==> is_match_at(hay, pat, find_idx(hay, pat, from)),
    decreases hay.len() - from + 1,
{
    if from + pat.len() <= hay.len() && !is_match_at(hay, pat, from) {
        lemma_find_idx(hay, pat, from + 1);
    }
}

/// Whether the characters of `pat` stand in `hay` at index `i`.
fn match_here(hay: &Vec<char>, pat: &Vec<char>, i: usize) -> (b: bool)
    requires
        i + pat@.len() <= hay@.len(),
    ensures
        b == is_match_at(hay@, pat@, i as int),
{
    let hn = hay.len();
    let mut k: usize = 0;
    while k < pat.len()
        invariant
            k <= pat@.len(),
            hn == hay@.len(),
            i + pat@.len() <= hay@.len(),
            forall|m: int| 0 <= m < k ==> hay@[i + m] == pat@[m],
        decreases pat@.len() - k,
    {
        assert(i + k < hay@.len());
        if hay[i + k] != pat[k] {
            assert(hay@.subrange(i as int, i + pat@.len() as int)[k as int] != pat@[k as int]);
            return false;
        }
        k = k + 1;
    }
    assert(hay@.subrange(i as int, i + pat@.len() as int) =~= pat@);
    true
}

/// Leftmost occurrence of `pat` in `hay` at or after `from`.
fn find_sub(hay: &Vec<char>, pat: &Vec<char>, from: usize) -> (r: Option<usize>)
    requires
        pat@.len() > 0,
    ensures
        r is Some ==> r->0 == find_idx(hay@, pat@, from as int),
        r is None ==> find_idx(hay@, pat@, from as int) == -1,
{
    if pat.len() > hay.len() || from > hay.len() - pat.len() {
        assert(find_idx(hay@, pat@, from as int) == -1);
        return None;
    }
    let limit = hay.len() - pat.len();
    let mut i = from;
    while i <= limit
        invariant
            from <= i <= limit + 1,
            limit == hay@.len() - pat@.len(),
            0 < pat@.len() <= hay@.len(),
            hay@.len() <= usize::MAX,
            find_idx(hay@, pat@, from as int) == find_idx(hay@, pat@, i as int),
        decreases limit + 1 - i,
    {
        if match_here(hay, pat, i) {
            assert(find_idx(hay@, pat@, i as int) == i);
            return Some(i);
        }
        assert(find_idx(hay@, pat@, i as int) == find_idx(hay@, pat@, i + 1));
        i = i + 1;
    }
    assert(find_idx(hay@, pat@, i as int) == -1);
    None
}

// ---------------------------------------------------------------------------
// Building sequences
// ---------------------------------------------------------------------------

/// Copy of `v[a..b]`.
pub fn copy_range(v: &Vec<char>, a: usize, b: usize) -> (r: Vec<char>)
    requires
        a <= b <= v@.len(),
    ensures
        r@ == v@.subrange(a as int, b as int),
{
    let mut r: Vec<char> = Vec::new();
    let mut i = a;
    while i < b
        invariant
            a <= i <= b <= v@.len(),
            r@ == v@.subrange(a as int, i as int),
        decreases b - i,
    {
        r.push(v[i]);
        i = i + 1;
        proof {
            assert(v@.subrange(a as int, i as int) =~= v@.subrange(a as int, i - 1).push(
                v@[i - 1],
            ));
        }
    }
    r
}

/// Appends all of `src` to `dst`.
pub fn push_all(dst: &mut Vec<char>, src: &Vec<char>)
    ensures
        final(dst)@ == old(dst)@ + src@,
{
    let mut i: usize = 0;
    while i < src.len()
        invariant
            i <= src@.len(),
            dst@ == old(dst)@ + src@.take(i as int),
        decreases src@.len() - i,
    {
        dst.push(src[i]);
        i = i + 1;
        proof {
            assert(old(dst)@ + src@.take(i as int) =~= (old(dst)@ + src@.take(i - 1)).push(
                src@[i - 1],
            ));
        }
    }
    proof {
        assert(old(dst)@ + src@.take(src@.len() as int) =~= old(dst)@ + src@);
    }
}

// ---------------------------------------------------------------------------
// Single-shot replacement
// ---------------------------------------------------------------------------

/// `hay` with the leftmost occurrence of `pat` replaced by `rep`;
/// `hay` itself when `pat` does not occur.
pub open spec fn replace_first(hay: Seq<char>, pat: Seq<char>, rep: Seq<char>) -> Seq<char> {
    let i = find_idx(hay, pat, 0);
    if i < 0 {
        hay
    } else {
        hay.take(i) + rep + hay.skip(i + pat.len() as int)
    }
}

pub fn replace_first_chars(hay: &Vec<char>, pat: &Vec<char>, rep: &Vec<char>) -> (r: Vec<char>)
    requires
        pat@.len() > 0,
    ensures
        r@ == replace_first(hay@, pat@, rep@),
{
    proof {
        lemma_find_idx(hay@, pat@, 0);
    }
    match find_sub(hay, pat, 0) {
        None => {
            let r = copy_range(hay, 0, hay.len());
            proof {
                assert(hay@.subrange(0, hay@.len() as int) =~= hay@);
            }
            r
        },
        Some(i) => {
            assert(is_match_at(hay@, pat@, i as int));
            let hn = hay.len();
            let mut r = copy_range(hay, 0, i);
            push_all(&mut r, rep);
            let tail = copy_range(hay, i + pat.len(), hn);
            push_all(&mut r, &tail);
            proof {
                assert(hay@.subrange(0, i as int) =~= hay@.take(i as int));
                assert(hay@.subrange(i + pat@.len(), hay@.len() as int) =~= hay@.skip(
                    i + pat@.len() as int,
                ));
            }
            r
        },
    }
}

// ---------------------------------------------------------------------------
// Decimal numerals
// ---------------------------------------------------------------------------

/// The character for the decimal digit `d`.
pub open spec fn dec_digit(d: nat) -> char {
    if d == 0 {
        '0'
    } else if d == 1 {
        '1'
    } else if d == 2 {
        '2'
    } else if d == 3 {
        '3'
    } else if d == 4 {
        '4'
    } else if d == 5 {
        '5'
    } else if d == 6 {
        '6'
    } else if d == 7 {
        '7'
    } else if d == 8 {
        '8'
    } else {
        '9'
    }
}

/// The decimal numeral for `n`, most significant digit first.
pub open spec fn dec_chars(n: nat) -> Seq<char>
    decreases n,
{
    if n < 10 {
        seq![dec_digit(n)]
    } else {
        dec_chars(n / 10).push(dec_digit(n % 10))
    }
}

fn dec_digit_char(d: usize) -> (c: char)
    requires
        d < 10,
    ensures
        c == dec_digit(d as nat),
{
    if d == 0 {
        '0'
    } else if d == 1 {
        '1'
    } else if d == 2 {
        '2'
    } else if d == 3 {
        '3'
    } else if d == 4 {
        '4'
    } else if d == 5 {
        '5'
    } else if d == 6 {
        '6'
    } else if d == 7 {
        '7'
    } else if d == 8 {
        '8'
    } else {
        '9'
    }
}

/// The decimal numeral for `n`.
pub fn dec_chars_vec(n: usize) -> (r: Vec<char>)
    ensures
        r@ == dec_chars(n as nat),
    decreases n,
{
    if n < 10 {
        let mut r: Vec<char> = Vec::new();
        r.push(dec_digit_char(n));
        proof {
            assert(r@ =~= dec_chars(n as nat));
        }
        r
    } else {
        let mut r = dec_chars_vec(n / 10);
        r.push(dec_digit_char(n % 10));
        r
    }
}


// ---------------------------------------------------------------------------
// Whitespace and trimming
// ---------------------------------------------------------------------------

/// The characters `char::is_whitespace` accepts: the Unicode `White_Space` set.
pub open spec fn is_ws_char(c: char) -> bool {
    let u = c as int;
    u == 0x09 || u == 0x0A || u == 0x0B || u == 0x0C || u == 0x0D || u == 0x20 || u == 0x85
        || u == 0xA0 || u == 0x1680 || (0x2000 <= u && u <= 0x200A) || u == 0x2028 || u == 0x2029
        || u == 0x202F || u == 0x205F || u == 0x3000
}

/// Whether `c` is whitespace.
pub fn is_ws(c: char) -> (b: bool)
    ensures
        b == is_ws_char(c),
{
    let u = c as u32;
    u == 0x09 || u == 0x0A || u == 0x0B || u == 0x0C || u == 0x0D || u == 0x20 || u == 0x85
        || u == 0xA0 || u == 0x1680 || (0x2000 <= u && u <= 0x200A) || u == 0x2028 || u == 0x2029
        || u == 0x202F || u == 0x205F || u == 0x3000
}

/// First index at or after `from` holding a non-whitespace character;
/// `s.len()` when there is none.
pub open spec fn skip_ws_idx(s: Seq<char>, from: int) -> int
    decreases s.len() - from,
{
    if from < 0 || from >= s.len() {
        s.len() as int
    } else if !is_ws_char(s[from]) {
        from
    } else {
        skip_ws_idx(s, from + 1)
    }
}

/// One past the last non-whitespace character strictly before `end`;
/// `0` when there is none.
pub open spec fn rskip_ws_idx(s: Seq<char>, end: int) -> int
    decreases end,
{
    if end <= 0 || end > s.len() {
        0
    } else if !is_ws_char(s[end - 1]) {
        end
    } else {
        rskip_ws_idx(s, end - 1)
    }
}

/// `s` with leading and trailing whitespace removed.
pub open spec fn trim_spec(s: Seq<char>) -> Seq<char> {
    let a = skip_ws_idx(s, 0);
    let b = rskip_ws_idx(s, s.len() as int);
    if a < b {
        s.subrange(a, b)
    } else {
        Seq::empty()
    }
}

proof fn lemma_skip_ws_idx(s: Seq<char>, from: int)
    requires
        0 <= from <= s.len(),
    ensures
        from <= skip_ws_idx(s, from) <= s.len(),
        skip_ws_idx(s, from) < s.len() ==> !is_ws_char(s[skip_ws_idx(s, from)]),
    decreases s.len() - from,
{
    if from < s.len() && is_ws_char(s[from]) {
        lemma_skip_ws_idx(s, from + 1);
    }
}

proof fn lemma_rskip_ws_idx(s: Seq<char>, end: int)
    requires
        0 <= end <= s.len(),
    ensures
        0 <= rskip_ws_idx(s, end) <= end,
        rskip_ws_idx(s, end) > 0 ==> !is_ws_char(s[rskip_ws_idx(s, end) - 1]),
    decreases end,
{
    if end > 0 && is_ws_char(s[end - 1]) {
        lemma_rskip_ws_idx(s, end - 1);
    }
}

/// A trimmed sequence neither begins nor ends with whitespace.
pub proof fn lemma_trim_no_ws_ends(s: Seq<char>)
    ensures
        trim_spec(s).len() > 0 ==> !is_ws_char(trim_spec(s)[0]),
        trim_spec(s).len() > 0 ==> !is_ws_char(trim_spec(s).last()),
{
    lemma_skip_ws_idx(s, 0);
    lemma_rskip_ws_idx(s, s.len() as int);
}

fn first_non_ws(v: &Vec<char>) -> (r: usize)
    ensures
        r == skip_ws_idx(v@, 0),
{
    let n = v.len();
    let mut i: usize = 0;
    while i < n
        invariant
            i <= n,
            n == v@.len(),
            skip_ws_idx(v@, 0) == skip_ws_idx(v@, i as int),
        decreases n - i,
    {
        if !is_ws(v[i]) {
            assert(skip_ws_idx(v@, i as int) == i);
            return i;
        }
        assert(skip_ws_idx(v@, i as int) == skip_ws_idx(v@, i + 1));
        i = i + 1;
    }
    assert(skip_ws_idx(v@, i as int) == v@.len());
    i
}

fn last_non_ws_end(v: &Vec<char>) -> (r: usize)
    ensures
        r == rskip_ws_idx(v@, v@.len() as int),
{
    let mut e = v.len();
    while e > 0
        invariant
            e <= v@.len(),
            rskip_ws_idx(v@, v@.len() as int) == rskip_ws_idx(v@, e as int),
        decreases e,
    {
        if !is_ws(v[e - 1]) {
            assert(rskip_ws_idx(v@, e as int) == e);
            return e;
        }
        assert(rskip_ws_idx(v@, e as int) == rskip_ws_idx(v@, e - 1));
        e = e - 1;
    }
    assert(rskip_ws_idx(v@, 0) == 0);
    0
}

/// `v` with leading and trailing whitespace removed.
pub fn trim_chars(v: &Vec<char>) -> (r: Vec<char>)
    ensures
        r@ == trim_spec(v@),
{
    proof {
        lemma_skip_ws_idx(v@, 0);
        lemma_rskip_ws_idx(v@, v@.len() as int);
    }
    let a = first_non_ws(v);
    let b = last_non_ws_end(v);
    if a < b {
        copy_range(v, a, b)
    } else {
        let r: Vec<char> = Vec::new();
        assert(r@ =~= trim_spec(v@));
        r
    }
}

// ---------------------------------------------------------------------------
// Bracket unescaping
// ---------------------------------------------------------------------------

/// `s` with every two-character sequence `\[` turned into `[` and every `\]`
/// turned into `]`, scanning left to right.
pub open spec fn unescape_brackets(s: Seq<char>) -> Seq<char>
    decreases s.len(),
{
    if s.len() == 0 {
        Seq::empty()
    } else if s.len() >= 2 && s[0] == '\\' && (s[1] == '[' || s[1] == ']') {
        seq![s[1]] + unescape_brackets(s.skip(2))
    } else {
        seq![s[0]] + unescape_brackets(s.skip(1))
    }
}

pub fn unescape_brackets_chars(v: &Vec<char>) -> (r: Vec<char>)
    ensures
        r@ == unescape_brackets(v@),
{
    let n = v.len();
    let mut r: Vec<char> = Vec::new();
    let mut i: usize = 0;
    proof {
        assert(v@.skip(0) =~= v@);
        assert(Seq::<char>::empty() + unescape_brackets(v@) =~= unescape_brackets(v@));
    }
    while i < n
        invariant
            i <= n,
            n == v@.len(),
            unescape_brackets(v@) == r@ + unescape_brackets(v@.skip(i as int)),
        decreases n - i,
    {
        let ghost r_old = r@;
        let ghost rest = v@.skip(i as int);
        if i + 1 < n && v[i] == '\\' && (v[i + 1] == '[' || v[i + 1] == ']') {
            r.push(v[i + 1]);
            i = i + 2;
            proof {
                assert(rest.skip(2) =~= v@.skip(i as int));
                assert(unescape_brackets(rest) == seq![rest[1]] + unescape_brackets(rest.skip(2)));
                assert(r_old + (seq![rest[1]] + unescape_brackets(rest.skip(2))) =~= r@
                    + unescape_brackets(v@.skip(i as int)));
            }
        } else {
            r.push(v[i]);
            i = i + 1;
            proof {
                assert(rest.skip(1) =~= v@.skip(i as int));
                assert(unescape_brackets(rest) == seq![rest[0]] + unescape_brackets(rest.skip(1)));
                assert(r_old + (seq![rest[0]] + unescape_brackets(rest.skip(1))) =~= r@
                    + unescape_brackets(v@.skip(i as int)));
            }
        }
    }
    proof {
        assert(v@.skip(n as int) =~= Seq::<char>::empty());
        assert(r@ + unescape_brackets(Seq::<char>::empty()) =~= r@);
    }
    r
}

/// Whether the two-character sequence `a` then `b` occurs somewhere in `s`.
pub open spec fn has_pair(s: Seq<char>, a: char, b: char) -> bool {
    exists|k: int| 0 <= k && k + 1 < s.len() && #[trigger] s[k] == a && s[k + 1] == b
}

proof fn lemma_pair_cons(c: char, rest: Seq<char>, a: char, b: char)
    ensures
        has_pair(seq![c] + rest, a, b) <==> ((c == a && rest.len() > 0 && rest[0] == b)
            || has_pair(rest, a, b)),
{
    let s = seq![c] + rest;
    if has_pair(s, a, b) {
        let k = choose|k: int| 0 <= k && k + 1 < s.len() && #[trigger] s[k] == a && s[k + 1] == b;
        if k == 0 {
            assert(c == a && rest.len() > 0 && rest[0] == b);
        } else {
            assert(rest[k - 1] == a && rest[k] == b && k < rest.len());
            assert(has_pair(rest, a, b));
        }
    }
    if c == a && rest.len() > 0 && rest[0] == b {
        assert(s[0] == a && s[1] == b && 1 < s.len());
        assert(has_pair(s, a, b));
    }
    if has_pair(rest, a, b) {
        let k = choose|k: int| 0 <= k && k + 1 < rest.len() && #[trigger] rest[k] == a && rest[k + 1] == b;
        assert(s[k + 1] == a && s[k + 2] == b && k + 2 < s.len());
        assert(has_pair(s, a, b));
    }
}

proof fn lemma_pair_skip(s: Seq<char>, n: int, a: char, b: char)
    requires
        0 <= n <= s.len(),
        has_pair(s.skip(n), a, b),
    ensures
        has_pair(s, a, b),
{
    let t = s.skip(n);
    let k = choose|k: int| 0 <= k && k + 1 < t.len() && #[trigger] t[k] == a && t[k + 1] == b;
    assert(0 <= n + k && n + k + 1 < s.len() && s[n + k] == a && s[n + k + 1] == b);
    assert(has_pair(s, a, b));
}

proof fn lemma_unescape_head(s: Seq<char>)
    requires
        s.len() > 0,
    ensures
        unescape_brackets(s).len() > 0,
        s[0] != '\\' ==> unescape_brackets(s)[0] == s[0],
        (s[0] == '\\' && s.len() >= 2 && (s[1] == '[' || s[1] == ']')) ==> unescape_brackets(
            s,
        )[0] == s[1],
        (s[0] == '\\' && !(s.len() >= 2 && (s[1] == '[' || s[1] == ']'))) ==> unescape_brackets(
            s,
        )[0] == '\\',
{
    if s.len() >= 2 && s[0] == '\\' && (s[1] == '[' || s[1] == ']') {
        assert(unescape_brackets(s)[0] == s[1]);
    } else {
        assert(unescape_brackets(s)[0] == s[0]);
    }
}

/// The last character survives unescaping, unless it was an escaped bracket,
/// which ends the output as a bare bracket.
pub proof fn lemma_unescape_last(s: Seq<char>)
    requires
        s.len() > 0,
    ensures
        unescape_brackets(s).len() > 0,
        unescape_brackets(s).last() == s.last() || unescape_brackets(s).last() == '['
            || unescape_brackets(s).last() == ']',
    decreases s.len(),
{
    if s.len() >= 2 && s[0] == '\\' && (s[1] == '[' || s[1] == ']') {
        if s.len() == 2 {
            assert(unescape_brackets(s.skip(2)) =~= Seq::<char>::empty());
            assert(unescape_brackets(s) =~= seq![s[1]]);
        } else {
            lemma_unescape_last(s.skip(2));
            assert(unescape_brackets(s).last() == unescape_brackets(s.skip(2)).last());
            assert(s.skip(2).last() == s.last());
        }
    } else {
        if s.len() == 1 {
            assert(unescape_brackets(s.skip(1)) =~= Seq::<char>::empty());
            assert(unescape_brackets(s) =~= seq![s[0]]);
        } else {
            lemma_unescape_last(s.skip(1));
            assert(unescape_brackets(s).last() == unescape_brackets(s.skip(1)).last());
            assert(s.skip(1).last() == s.last());
        }
    }
}

/// The first character survives unescaping, unless it opened an escaped
/// bracket, which begins the output as a bare bracket.
pub proof fn lemma_unescape_first(s: Seq<char>)
    requires
        s.len() > 0,
    ensures
        unescape_brackets(s).len() > 0,
        unescape_brackets(s)[0] == s[0] || unescape_brackets(s)[0] == '[' || unescape_brackets(
            s,
        )[0] == ']',
{
    lemma_unescape_head(s);
}

/// Bracket unescaping leaves no escaped bracket behind: where the input holds
/// no doubled backslash, the output holds neither `\[` nor `\]`.
pub proof fn lemma_unescape_no_escaped_brackets(s: Seq<char>)
    requires
        !has_pair(s, '\\', '\\'),
    ensures
        !has_pair(unescape_brackets(s), '\\', '['),
        !has_pair(unescape_brackets(s), '\\', ']'),
    decreases s.len(),
{
    if s.len() == 0 {
    } else if s.len() >= 2 && s[0] == '\\' && (s[1] == '[' || s[1] == ']') {
        let rest = unescape_brackets(s.skip(2));
        if has_pair(s.skip(2), '\\', '\\') {
            lemma_pair_skip(s, 2, '\\', '\\');
        }
        lemma_unescape_no_escaped_brackets(s.skip(2));
        lemma_pair_cons(s[1], rest, '\\', '[');
        lemma_pair_cons(s[1], rest, '\\', ']');
    } else if s[0] == '\\' {
        let rest = unescape_brackets(s.skip(1));
        if s.len() >= 2 && s[1] == '\\' {
            assert(s[0] == '\\' && s[1] == '\\' && 1 < s.len());
            assert(has_pair(s, '\\', '\\'));
        }
        if has_pair(s.skip(1), '\\', '\\') {
            lemma_pair_skip(s, 1, '\\', '\\');
        }
        lemma_unescape_no_escaped_brackets(s.skip(1));
        lemma_pair_cons('\\', rest, '\\', '[');
        lemma_pair_cons('\\', rest, '\\', ']');
        if s.len() >= 2 {
            lemma_unescape_head(s.skip(1));
            assert(rest[0] == s[1]);
        }
    } else {
        let rest = unescape_brackets(s.skip(1));
        if has_pair(s.skip(1), '\\', '\\') {
            lemma_pair_skip(s, 1, '\\', '\\');
        }
        lemma_unescape_no_escaped_brackets(s.skip(1));
        lemma_pair_cons(s[0], rest, '\\', '[');
        lemma_pair_cons(s[0], rest, '\\', ']');
    }
}

// ---------------------------------------------------------------------------
// Joining lines
// ---------------------------------------------------------------------------

/// The lines of `ls` joined with single `\n` separators.
pub open spec fn join_with_newlines(ls: Seq<Seq<char>>) -> Seq<char>
    decreases ls.len(),
{
    if ls.len() == 0 {
        Seq::empty()
    } else if ls.len() == 1 {
        ls[0]
    } else {
        ls[0] + seq!['\n'] + join_with_newlines(ls.skip(1))
    }
}

/// Joining one more line appends a separator and the line.
pub proof fn lemma_join_push(ls: Seq<Seq<char>>, l: Seq<char>)
    ensures
        ls.len() == 0 ==> join_with_newlines(ls.push(l)) == l,
        ls.len() > 0 ==> join_with_newlines(ls.push(l)) == join_with_newlines(ls) + seq!['\n'] + l,
    decreases ls.len(),
{
    if ls.len() == 0 {
        assert(join_with_newlines(ls.push(l)) == ls.push(l)[0]);
        assert(ls.push(l)[0] == l);
    } else {
        lemma_join_push(ls.skip(1), l);
        assert(ls.push(l).skip(1) =~= ls.skip(1).push(l));
        assert(ls.push(l)[0] == ls[0]);
        if ls.len() == 1 {
            assert(join_with_newlines(ls.push(l)) == ls[0] + seq!['\n'] + join_with_newlines(
                ls.skip(1).push(l),
            ));
            assert(join_with_newlines(ls.skip(1).push(l)) == l);
            assert(join_with_newlines(ls) == ls[0]);
        } else {
            assert(join_with_newlines(ls.push(l)) == ls[0] + seq!['\n'] + join_with_newlines(
                ls.skip(1).push(l),
            ));
            assert(join_with_newlines(ls.skip(1).push(l)) == join_with_newlines(ls.skip(1))
                + seq!['\n'] + l);
            assert(ls[0] + seq!['\n'] + (join_with_newlines(ls.skip(1)) + seq!['\n'] + l) =~= (ls[0]
                + seq!['\n'] + join_with_newlines(ls.skip(1))) + seq!['\n'] + l);
        }
    }
}

} // verus!

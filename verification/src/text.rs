//! Text handling: whitespace classification, string equality, tokenization
//! of an instruction line, trimming, and splitting a program text into its
//! instruction lines. Everything here is verified against spec functions over
//! `Seq<char>`.

use vstd::prelude::*;

verus! {

/// A whitespace character, as Unicode's `White_Space` property defines it.
pub open spec fn is_space(c: char) -> bool {
    c == ' ' || c == '\t' || c == '\n' || c == '\u{b}' || c == '\u{c}' || c == '\r'
        || c == '\u{85}' || c == '\u{a0}' || c == '\u{1680}' || c == '\u{2000}' || c == '\u{2001}'
        || c == '\u{2002}' || c == '\u{2003}' || c == '\u{2004}' || c == '\u{2005}'
        || c == '\u{2006}' || c == '\u{2007}' || c == '\u{2008}' || c == '\u{2009}'
        || c == '\u{200a}' || c == '\u{2028}' || c == '\u{2029}' || c == '\u{202f}'
        || c == '\u{205f}' || c == '\u{3000}'
}

/// Decides [`is_space`] on a concrete character.
pub fn is_space_char(c: char) -> (r: bool)
    ensures
        r == is_space(c),
{
    c == ' ' || c == '\t' || c == '\n' || c == '\u{b}' || c == '\u{c}' || c == '\r'
        || c == '\u{85}' || c == '\u{a0}' || c == '\u{1680}' || c == '\u{2000}' || c == '\u{2001}'
        || c == '\u{2002}' || c == '\u{2003}' || c == '\u{2004}' || c == '\u{2005}'
        || c == '\u{2006}' || c == '\u{2007}' || c == '\u{2008}' || c == '\u{2009}'
        || c == '\u{200a}' || c == '\u{2028}' || c == '\u{2029}' || c == '\u{202f}'
        || c == '\u{205f}' || c == '\u{3000}'
}

/// Decides equality of two string slices by their character sequences.
pub fn str_eq(a: &str, b: &str) -> (r: bool)
    ensures
        r == (a@ == b@),
{
    let n = a.unicode_len();
    let m = b.unicode_len();
    if n != m {
        return false;
    }
    let mut i: usize = 0;
    while i < n
        invariant
            n == a@.len(),
            n == b@.len(),
            i <= n,
            forall|j: int| 0 <= j < i ==> a@[j] == b@[j],
        decreases n - i,
    {
        if a.get_char(i) != b.get_char(i) {
            return false;
        }
        i += 1;
    }
    proof {
        assert(a@ =~= b@);
    }
    true
}

/// The character sequences of a sequence of strings.
pub open spec fn views_of(v: Seq<String>) -> Seq<Seq<char>> {
    v.map_values(|x: String| x@)
}

/// The whitespace-separated tokens of a line, in order, defined one character
/// at a time from the right: a whitespace character closes the current token,
/// any other character extends it or opens a new one.
pub open spec fn tokens_of(s: Seq<char>) -> Seq<Seq<char>>
    decreases s.len(),
{
    if s.len() == 0 {
        Seq::empty()
    } else {
        let rest = tokens_of(s.drop_last());
        let c = s.last();
        if is_space(c) {
            rest
        } else if s.len() >= 2 && !is_space(s[s.len() - 2]) {
            rest.update(rest.len() - 1, rest.last().push(c))
        } else {
            rest.push(seq![c])
        }
    }
}

/// Appending a whitespace character leaves the tokens unchanged.
proof fn lemma_tokens_of_space_step(s: Seq<char>, i: int)
    requires
        0 <= i < s.len(),
        is_space(s[i]),
    ensures
        tokens_of(s.subrange(0, i + 1)) == tokens_of(s.subrange(0, i)),
{
    assert(s.subrange(0, i + 1).drop_last() =~= s.subrange(0, i));
}

/// A maximal run of non-whitespace characters starting at a token boundary
/// contributes exactly one token.
proof fn lemma_tokens_of_token_span(s: Seq<char>, i: int, k: int)
    requires
        0 <= i < k <= s.len(),
        i == 0 || is_space(s[i - 1]),
        forall|j: int| i <= j < k ==> !is_space(s[j]),
    ensures
        tokens_of(s.subrange(0, k)) == tokens_of(s.subrange(0, i)).push(s.subrange(i, k)),
    decreases k - i,
{
    let t = s.subrange(0, k);
    assert(t.drop_last() =~= s.subrange(0, k - 1));
    if k == i + 1 {
        assert(t.last() == s[i]);
        assert(seq![s[i]] =~= s.subrange(i, k));
    } else {
        lemma_tokens_of_token_span(s, i, k - 1);
        let rest = tokens_of(s.subrange(0, k - 1));
        assert(rest == tokens_of(s.subrange(0, i)).push(s.subrange(i, k - 1)));
        assert(rest.len() > 0);
        assert(t.last() == s[k - 1]);
        assert(t[k - 2] == s[k - 2]);
        assert(tokens_of(t) == rest.update(rest.len() - 1, rest.last().push(s[k - 1])));
        assert(s.subrange(i, k - 1).push(s[k - 1]) =~= s.subrange(i, k));
        assert(rest.update(rest.len() - 1, rest.last().push(s[k - 1])) =~= tokens_of(
            s.subrange(0, i),
        ).push(s.subrange(i, k)));
    }
}

/// Splits a line into its whitespace-separated tokens.
pub fn tokenize(s: &str) -> (toks: Vec<String>)
    ensures
        views_of(toks@) == tokens_of(s@),
{
    let n = s.unicode_len();
    let mut toks: Vec<String> = Vec::new();
    let mut i: usize = 0;
    while i < n
        invariant
            n == s@.len(),
            i <= n,
            views_of(toks@) == tokens_of(s@.subrange(0, i as int)),
            i == 0 || i == n || is_space(s@[i - 1]) || is_space(s@[i as int]),
        decreases n - i,
    {
        let c = s.get_char(i);
        if is_space_char(c) {
            proof {
                lemma_tokens_of_space_step(s@, i as int);
            }
            i += 1;
        } else {
            let start = i;
            let mut j = i + 1;
            while j < n
                invariant
                    n == s@.len(),
                    start < j <= n,
                    forall|t: int| start <= t < j ==> !is_space(s@[t]),
                ensures
                    start < j <= n,
                    forall|t: int| start <= t < j ==> !is_space(s@[t]),
                    j == n || is_space(s@[j as int]),
                decreases n - j,
            {
                if is_space_char(s.get_char(j)) {
                    break ;
                }
                j += 1;
            }
            let tok = s.substring_char(start, j).to_owned();
            proof {
                lemma_tokens_of_token_span(s@, start as int, j as int);
                assert(views_of(toks@.push(tok)) =~= views_of(toks@).push(tok@));
            }
            toks.push(tok);
            i = j;
        }
    }
    proof {
        assert(s@.subrange(0, n as int) =~= s@);
    }
    toks
}

/// How many whitespace characters the sequence starts with.
pub open spec fn leading_spaces(s: Seq<char>) -> int
    decreases s.len(),
{
    if s.len() == 0 {
        0
    } else if !is_space(s[0]) {
        0
    } else {
        1 + leading_spaces(s.drop_first())
    }
}

/// How many whitespace characters the sequence ends with.
pub open spec fn trailing_spaces(s: Seq<char>) -> int
    decreases s.len(),
{
    if s.len() == 0 {
        0
    } else if !is_space(s.last()) {
        0
    } else {
        1 + trailing_spaces(s.drop_last())
    }
}

/// The sequence with leading and trailing whitespace removed.
pub open spec fn trim_of(s: Seq<char>) -> Seq<char> {
    let a = leading_spaces(s);
    let b = s.len() - trailing_spaces(s);
    if a < b {
        s.subrange(a, b)
    } else {
        Seq::empty()
    }
}

proof fn lemma_leading_spaces_val(s: Seq<char>, a: int)
    requires
        0 <= a <= s.len(),
        forall|t: int| 0 <= t < a ==> is_space(s[t]),
        a == s.len() || !is_space(s[a]),
    ensures
        leading_spaces(s) == a,
    decreases a,
{
    if a > 0 {
        lemma_leading_spaces_val(s.drop_first(), a - 1);
    }
}

proof fn lemma_trailing_spaces_val(s: Seq<char>, b: int)
    requires
        0 <= b <= s.len(),
        forall|t: int| b <= t < s.len() ==> is_space(s[t]),
        b == 0 || !is_space(s[b - 1]),
    ensures
        trailing_spaces(s) == s.len() - b,
    decreases s.len() - b,
{
    if b < s.len() {
        assert(s.drop_last() =~= s.subrange(0, s.len() - 1));
        lemma_trailing_spaces_val(s.drop_last(), b);
    }
}

/// Removes leading and trailing whitespace.
pub fn trim_str(s: &str) -> (r: String)
    ensures
        r@ == trim_of(s@),
{
    let n = s.unicode_len();
    let mut a: usize = 0;
    while a < n
        invariant
            n == s@.len(),
            a <= n,
            forall|t: int| 0 <= t < a ==> is_space(s@[t]),
        ensures
            a <= n,
            forall|t: int| 0 <= t < a ==> is_space(s@[t]),
            a == n || !is_space(s@[a as int]),
        decreases n - a,
    {
        if !is_space_char(s.get_char(a)) {
            break ;
        }
        a += 1;
    }
    let mut b: usize = n;
    while b > a
        invariant
            n == s@.len(),
            a <= b <= n,
            forall|t: int| b <= t < n ==> is_space(s@[t]),
        ensures
            a <= b <= n,
            forall|t: int| b <= t < n ==> is_space(s@[t]),
            b == a || !is_space(s@[b - 1]),
        decreases b,
    {
        if !is_space_char(s.get_char(b - 1)) {
            break ;
        }
        b -= 1;
    }
    proof {
        if a == n {
            lemma_leading_spaces_val(s@, a as int);
            lemma_trailing_spaces_val(s@, 0);
        } else {
            lemma_leading_spaces_val(s@, a as int);
            assert(!is_space(s@[a as int]));
            assert(b > a);
            lemma_trailing_spaces_val(s@, b as int);
        }
    }
    s.substring_char(a, b).to_owned()
}

/// Drops a single carriage return at the end, if one stands there.
pub open spec fn strip_cr(c: Seq<char>) -> Seq<char> {
    if c.len() > 0 && c.last() == '\r' {
        c.drop_last()
    } else {
        c
    }
}

/// The start of the final, newline-unterminated line: the index just after
/// the last line feed, or `0` when there is none.
pub open spec fn line_break(s: Seq<char>) -> int
    decreases s.len(),
{
    if s.len() == 0 {
        0
    } else if s.last() == '\n' {
        s.len() as int
    } else {
        line_break(s.drop_last())
    }
}

proof fn lemma_line_break_bounds(s: Seq<char>)
    ensures
        0 <= line_break(s) <= s.len(),
    decreases s.len(),
{
    if s.len() > 0 && s.last() != '\n' {
        lemma_line_break_bounds(s.drop_last());
    }
}

/// The lines of a text, split at each line feed; a carriage return standing
/// immediately before a line feed is dropped, and a final line is produced
/// only when characters follow the last line feed.
pub open spec fn raw_lines(s: Seq<char>) -> Seq<Seq<char>>
    decreases s.len(),
    via raw_lines_decreases
{
    if s.len() == 0 {
        Seq::empty()
    } else if s.last() == '\n' {
        let body = s.drop_last();
        let st = line_break(body);
        raw_lines(body.subrange(0, st)).push(strip_cr(body.subrange(st, body.len() as int)))
    } else {
        let st = line_break(s);
        raw_lines(s.subrange(0, st)).push(s.subrange(st, s.len() as int))
    }
}

#[via_fn]
proof fn raw_lines_decreases(s: Seq<char>) {
    if s.len() > 0 {
        if s.last() == '\n' {
            lemma_line_break_bounds(s.drop_last());
        } else {
            assert(line_break(s) == line_break(s.drop_last()));
            lemma_line_break_bounds(s.drop_last());
        }
    }
}

/// The instruction lines an interpreter keeps: every nonempty raw line, in
/// order, with its surrounding whitespace trimmed.
pub open spec fn kept_lines(ls: Seq<Seq<char>>) -> Seq<Seq<char>>
    decreases ls.len(),
{
    if ls.len() == 0 {
        Seq::empty()
    } else {
        let rest = kept_lines(ls.drop_last());
        if ls.last().len() == 0 {
            rest
        } else {
            rest.push(trim_of(ls.last()))
        }
    }
}

/// The decoded program of a bytecode text.
pub open spec fn program_of(s: Seq<char>) -> Seq<Seq<char>> {
    kept_lines(raw_lines(s))
}

proof fn lemma_line_break_val(s: Seq<char>, st: int)
    requires
        0 <= st <= s.len(),
        st == 0 || s[st - 1] == '\n',
        forall|t: int| st <= t < s.len() ==> s[t] != '\n',
    ensures
        line_break(s) == st,
    decreases s.len(),
{
    if s.len() > 0 && s.last() != '\n' {
        lemma_line_break_val(s.drop_last(), st);
    }
}

proof fn lemma_raw_lines_newline_step(s: Seq<char>, st: int, i: int)
    requires
        0 <= st <= i < s.len(),
        s[i] == '\n',
        st == 0 || s[st - 1] == '\n',
        forall|t: int| st <= t < i ==> s[t] != '\n',
    ensures
        raw_lines(s.subrange(0, i + 1)) == raw_lines(s.subrange(0, st)).push(
            strip_cr(s.subrange(st, i)),
        ),
{
    let u = s.subrange(0, i + 1);
    assert(u.last() == '\n');
    let body = u.drop_last();
    assert(body =~= s.subrange(0, i));
    lemma_line_break_val(body, st);
    assert(body.subrange(0, st) =~= s.subrange(0, st));
    assert(body.subrange(st, body.len() as int) =~= s.subrange(st, i));
}

proof fn lemma_raw_lines_open_end(s: Seq<char>, st: int)
    requires
        0 <= st < s.len(),
        st == 0 || s[st - 1] == '\n',
        forall|t: int| st <= t < s.len() ==> s[t] != '\n',
    ensures
        raw_lines(s) == raw_lines(s.subrange(0, st)).push(s.subrange(st, s.len() as int)),
{
    assert(s.last() != '\n');
    lemma_line_break_val(s, st);
}

/// Decodes a bytecode text into its instruction lines: one entry for each
/// nonempty line of the text, trimmed.
pub fn load_lines(s: &str) -> (out: Vec<String>)
    ensures
        views_of(out@) == program_of(s@),
{
    let n = s.unicode_len();
    let mut out: Vec<String> = Vec::new();
    let mut st: usize = 0;
    let mut i: usize = 0;
    while i < n
        invariant
            n == s@.len(),
            st <= i <= n,
            st == 0 || s@[st - 1] == '\n',
            forall|t: int| st <= t < i ==> s@[t] != '\n',
            views_of(out@) == kept_lines(raw_lines(s@.subrange(0, st as int))),
        decreases n - i,
    {
        let c = s.get_char(i);
        if c == '\n' {
            let end = if i > st && s.get_char(i - 1) == '\r' {
                i - 1
            } else {
                i
            };
            proof {
                lemma_raw_lines_newline_step(s@, st as int, i as int);
            }
            if end > st {
                let line = trim_str(s.substring_char(st, end));
                proof {
                    assert(s@.subrange(st as int, end as int) =~= strip_cr(
                        s@.subrange(st as int, i as int),
                    ));
                    let rl = raw_lines(s@.subrange(0, st as int)).push(
                        strip_cr(s@.subrange(st as int, i as int)),
                    );
                    assert(rl.drop_last() =~= raw_lines(s@.subrange(0, st as int)));
                    assert(views_of(out@.push(line)) =~= views_of(out@).push(line@));
                }
                out.push(line);
            } else {
                proof {
                    let rl = raw_lines(s@.subrange(0, st as int)).push(
                        strip_cr(s@.subrange(st as int, i as int)),
                    );
                    assert(rl.drop_last() =~= raw_lines(s@.subrange(0, st as int)));
                    assert(strip_cr(s@.subrange(st as int, i as int)).len() == 0);
                }
            }
            st = i + 1;
            i += 1;
        } else {
            i += 1;
        }
    }
    if st < n {
        proof {
            lemma_raw_lines_open_end(s@, st as int);
        }
        let line = trim_str(s.substring_char(st, n));
        proof {
            let rl = raw_lines(s@.subrange(0, st as int)).push(
                s@.subrange(st as int, n as int),
            );
            assert(rl.drop_last() =~= raw_lines(s@.subrange(0, st as int)));
            assert(views_of(out@.push(line)) =~= views_of(out@).push(line@));
        }
        out.push(line);
    } else {
        proof {
            assert(s@.subrange(0, st as int) =~= s@);
        }
    }
    out
}

} // verus!

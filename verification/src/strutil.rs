//! Verified string utilities for the wire format: splitting on the
//! `\r\n` line terminator, whitespace tokenization, locating the path
//! separator, decimal rendering of lengths, and byte lengths.

use vstd::prelude::*;
use vstd::string::*;
use vstd::utf8::encode_utf8;

verus! {

// ---------------------------------------------------------------------------
// The line terminator
// ---------------------------------------------------------------------------

/// The two-character line terminator of the wire format.
pub open spec fn crlf() -> Seq<char> {
    seq!['\r', '\n']
}

/// True when the line terminator occurs somewhere in `s`.
pub open spec fn contains_crlf(s: Seq<char>) -> bool {
    exists|i: int| 0 <= i && i + 2 <= s.len() && #[trigger] s[i] == '\r' && s[i + 1] == '\n'
}

/// Splitting on the line terminator, defined from the right end of the
/// string. Two occurrences of `\r\n` can never overlap (its two characters
/// differ), so every occurrence separates two pieces and the result does not
/// depend on a scan direction. The result always has at least one piece.
pub open spec fn split_crlf(s: Seq<char>) -> Seq<Seq<char>>
    decreases s.len(),
{
    if s.len() < 2 {
        seq![s]
    } else if s[s.len() - 2] == '\r' && s[s.len() - 1] == '\n' {
        split_crlf(s.take(s.len() - 2)).push(Seq::empty())
    } else {
        let p = split_crlf(s.drop_last());
        p.update(p.len() - 1, p.last().push(s.last()))
    }
}

pub proof fn lemma_split_crlf_len(s: Seq<char>)
    ensures
        split_crlf(s).len() >= 1,
    decreases s.len(),
{
    if s.len() < 2 {
    } else if s[s.len() - 2] == '\r' && s[s.len() - 1] == '\n' {
        lemma_split_crlf_len(s.take(s.len() - 2));
    } else {
        lemma_split_crlf_len(s.drop_last());
    }
}

/// A string in which the terminator does not occur is a single piece.
pub proof fn lemma_split_crlf_whole(s: Seq<char>)
    requires
        !contains_crlf(s),
    ensures
        split_crlf(s) == seq![s],
    decreases s.len(),
{
    if s.len() < 2 {
    } else if s[s.len() - 2] == '\r' && s[s.len() - 1] == '\n' {
        assert(contains_crlf(s)) by {
            let i = s.len() - 2;
            assert(0 <= i && i + 2 <= s.len() && s[i] == '\r' && s[i + 1] == '\n');
        }
    } else {
        assert(!contains_crlf(s.drop_last())) by {
            if contains_crlf(s.drop_last()) {
                let i = choose|i: int|
                    0 <= i && i + 2 <= s.drop_last().len() && #[trigger] s.drop_last()[i] == '\r'
                        && s.drop_last()[i + 1] == '\n';
                assert(s[i] == '\r' && s[i + 1] == '\n');
                assert(contains_crlf(s));
            }
        }
        lemma_split_crlf_whole(s.drop_last());
        lemma_split_crlf_len(s.drop_last());
        assert(split_crlf(s) =~= seq![s.drop_last().push(s.last())]);
        assert(s.drop_last().push(s.last()) =~= s);
        assert(split_crlf(s) =~= seq![s]);
    }
}

/// Splitting distributes over a terminator placed between two strings.
pub proof fn lemma_split_crlf_concat(a: Seq<char>, b: Seq<char>)
    ensures
        split_crlf(a + crlf() + b) == split_crlf(a) + split_crlf(b),
    decreases b.len(),
{
    let s = a + crlf() + b;
    lemma_split_crlf_len(a);
    lemma_split_crlf_len(b);
    if b.len() == 0 {
        assert(s.len() == a.len() + 2);
        assert(s[s.len() - 2] == '\r' && s[s.len() - 1] == '\n');
        assert(s.take(s.len() - 2) =~= a);
        assert(split_crlf(s) == split_crlf(a).push(Seq::empty()));
        assert(split_crlf(b) =~= seq![b]);
        assert(b =~= Seq::<char>::empty());
        assert(split_crlf(a).push(Seq::<char>::empty()) =~= split_crlf(a) + seq![
            Seq::<char>::empty(),
        ]);
        assert(split_crlf(s) =~= split_crlf(a) + split_crlf(b));
    } else if b.len() == 1 {
        // the last two characters of s are '\n' and b[0]; '\n' != '\r',
        // so the tail of s is not a terminator
        assert(s.len() == a.len() + 3);
        assert(s[s.len() - 2] == '\n');
        assert(s.drop_last() =~= a + crlf() + Seq::<char>::empty());
        lemma_split_crlf_concat(a, Seq::empty());
        let p = split_crlf(s.drop_last());
        assert(p == split_crlf(a) + split_crlf(Seq::<char>::empty()));
        assert(split_crlf(Seq::<char>::empty()) =~= seq![Seq::<char>::empty()]);
        assert(p.len() == split_crlf(a).len() + 1);
        assert(p.last() =~= Seq::<char>::empty());
        assert(s.last() == b[0]);
        assert(split_crlf(s) == p.update(p.len() - 1, p.last().push(b[0])));
        assert(split_crlf(b) =~= seq![b]);
        assert(Seq::<char>::empty().push(b[0]) =~= b);
        assert(split_crlf(s) =~= split_crlf(a) + split_crlf(b));
    } else {
        assert(s.len() == a.len() + 2 + b.len());
        assert(s[s.len() - 2] == b[b.len() - 2] && s[s.len() - 1] == b[b.len() - 1]);
        if b[b.len() - 2] == '\r' && b[b.len() - 1] == '\n' {
            assert(s.take(s.len() - 2) =~= a + crlf() + b.take(b.len() - 2));
            lemma_split_crlf_concat(a, b.take(b.len() - 2));
            assert(split_crlf(s) == (split_crlf(a) + split_crlf(b.take(b.len() - 2))).push(
                Seq::empty(),
            ));
            assert(split_crlf(b) == split_crlf(b.take(b.len() - 2)).push(Seq::empty()));
            assert((split_crlf(a) + split_crlf(b.take(b.len() - 2))).push(Seq::<char>::empty())
                =~= split_crlf(a) + split_crlf(b.take(b.len() - 2)).push(Seq::<char>::empty()));
            assert(split_crlf(s) =~= split_crlf(a) + split_crlf(b));
        } else {
            assert(s.drop_last() =~= a + crlf() + b.drop_last());
            lemma_split_crlf_concat(a, b.drop_last());
            lemma_split_crlf_len(b.drop_last());
            let p = split_crlf(s.drop_last());
            let q = split_crlf(b.drop_last());
            assert(p == split_crlf(a) + q);
            assert(p.len() == split_crlf(a).len() + q.len());
            assert(p.last() == q.last());
            assert(s.last() == b.last());
            assert(b.drop_last().len() == b.len() - 1 >= 1);
            assert(split_crlf(s) == p.update(p.len() - 1, p.last().push(b.last())));
            assert(split_crlf(b) == q.update(q.len() - 1, q.last().push(b.last())));
            assert(p.update(p.len() - 1, p.last().push(b.last())) =~= split_crlf(a) + q.update(
                q.len() - 1,
                q.last().push(b.last()),
            ));
            assert(split_crlf(s) =~= split_crlf(a) + split_crlf(b));
        }
    }
}

// ---------------------------------------------------------------------------
// Whitespace tokenization
// ---------------------------------------------------------------------------

/// The ASCII whitespace characters.
pub open spec fn is_ws(c: char) -> bool {
    c == ' ' || c == '\t' || c == '\n' || c == '\r' || c == '\u{b}' || c == '\u{c}'
}

/// The maximal runs of non-whitespace characters in `s`, in order, defined
/// from the right end of the string: a non-whitespace character extends the
/// last run exactly when its predecessor is also non-whitespace.
pub open spec fn tokens(s: Seq<char>) -> Seq<Seq<char>>
    decreases s.len(),
{
    if s.len() == 0 {
        Seq::empty()
    } else {
        let t = tokens(s.drop_last());
        if is_ws(s.last()) {
            t
        } else if s.len() >= 2 && !is_ws(s[s.len() - 2]) {
            t.update(t.len() - 1, t.last().push(s.last()))
        } else {
            t.push(seq![s.last()])
        }
    }
}

/// Every token is non-empty.
pub proof fn lemma_tokens_nonempty(s: Seq<char>)
    ensures
        forall|i: int| 0 <= i < tokens(s).len() ==> #[trigger] tokens(s)[i].len() > 0,
        s.len() >= 1 && !is_ws(s.last()) ==> tokens(s).len() >= 1,
    decreases s.len(),
{
    if s.len() == 0 {
    } else {
        lemma_tokens_nonempty(s.drop_last());
        let t = tokens(s.drop_last());
        if is_ws(s.last()) {
        } else if s.len() >= 2 && !is_ws(s[s.len() - 2]) {
            assert(s.drop_last().len() >= 1 && !is_ws(s.drop_last().last()));
            assert(t.len() >= 1);
        } else {
        }
    }
}

/// Appending a whitespace character leaves the tokens unchanged.
pub proof fn lemma_tokens_append_ws(a: Seq<char>, c: char)
    requires
        is_ws(c),
    ensures
        tokens(a.push(c)) == tokens(a),
{
    assert(a.push(c).drop_last() =~= a);
}

/// Appending a run of non-whitespace characters extends the last token when
/// one is still open, and opens a new token otherwise.
pub proof fn lemma_tokens_append_run(a: Seq<char>, b: Seq<char>)
    requires
        forall|i: int| 0 <= i < b.len() ==> !is_ws(#[trigger] b[i]),
        b.len() > 0,
    ensures
        tokens(a + b) == if a.len() > 0 && !is_ws(a.last()) {
            tokens(a).update(tokens(a).len() - 1, tokens(a).last() + b)
        } else {
            tokens(a).push(b)
        },
    decreases b.len(),
{
    lemma_tokens_nonempty(a);
    let s = a + b;
    if b.len() == 1 {
        assert(s.drop_last() =~= a);
        assert(s.last() == b[0]);
        assert(!is_ws(s.last()));
        if a.len() > 0 && !is_ws(a.last()) {
            assert(s.len() >= 2 && s[s.len() - 2] == a.last());
            assert(tokens(s) == tokens(a).update(tokens(a).len() - 1, tokens(a).last().push(b[0])));
            assert(tokens(a).last().push(b[0]) =~= tokens(a).last() + b);
        } else {
            if s.len() >= 2 {
                assert(s[s.len() - 2] == a.last());
            }
            assert(tokens(s) == tokens(a).push(seq![b[0]]));
            assert(seq![b[0]] =~= b);
        }
    } else {
        let b0 = b.drop_last();
        lemma_tokens_append_run(a, b0);
        assert(s.drop_last() =~= a + b0);
        assert(s.last() == b.last());
        assert(!is_ws(b.last()));
        assert(s.len() >= 2 && s[s.len() - 2] == b[b.len() - 2]);
        assert(!is_ws(b[b.len() - 2]));
        let t = tokens(a + b0);
        assert(tokens(s) == t.update(t.len() - 1, t.last().push(b.last())));
        if a.len() > 0 && !is_ws(a.last()) {
            let base = tokens(a);
            assert(t == base.update(base.len() - 1, base.last() + b0));
            assert(t.len() == base.len());
            assert(t.last() == base.last() + b0);
            assert((base.last() + b0).push(b.last()) =~= base.last() + b);
            assert(tokens(s) =~= base.update(base.len() - 1, base.last() + b));
        } else {
            let base = tokens(a);
            assert(t == base.push(b0));
            assert(t.last() == b0);
            assert(b0.push(b.last()) =~= b);
            assert(tokens(s) =~= base.push(b));
        }
    }
}

// ---------------------------------------------------------------------------
// The path separator
// ---------------------------------------------------------------------------

/// Index of the first '/' in `s`, or `s.len()` when there is none.
pub open spec fn first_slash(s: Seq<char>) -> int
    decreases s.len(),
{
    if s.len() == 0 {
        0
    } else if s[0] == '/' {
        0
    } else {
        1 + first_slash(s.drop_first())
    }
}

/// `first_slash` is the unique index with nothing but non-slashes before it
/// and, when inside the string, a slash at it.
pub proof fn lemma_first_slash_is(s: Seq<char>, i: int)
    requires
        0 <= i <= s.len(),
        forall|j: int| 0 <= j < i ==> s[j] != '/',
        i < s.len() ==> s[i] == '/',
    ensures
        first_slash(s) == i,
    decreases s.len(),
{
    if s.len() == 0 {
    } else if s[0] == '/' {
        assert(i == 0);
    } else {
        assert(i >= 1);
        let d = s.drop_first();
        assert(forall|j: int| 0 <= j < i - 1 ==> d[j] == s[j + 1] && d[j] != '/');
        assert(i - 1 < d.len() ==> d[i - 1] == s[i] && d[i - 1] == '/');
        lemma_first_slash_is(d, i - 1);
    }
}

/// Finds the first '/' in `s`, returning its character index, or the length
/// of `s` in characters when there is none.
pub fn find_slash(s: &str) -> (r: usize)
    ensures
        r <= s@.len(),
        r == first_slash(s@),
        r < s@.len() ==> s@[r as int] == '/',
        forall|j: int| 0 <= j < r ==> s@[j] != '/',
{
    let n = s.unicode_len();
    let mut i: usize = 0;
    while i < n
        invariant
            i <= n,
            n == s@.len(),
            forall|j: int| 0 <= j < i ==> s@[j] != '/',
        decreases n - i,
    {
        if s.get_char(i) == '/' {
            proof {
                lemma_first_slash_is(s@, i as int);
            }
            return i;
        }
        i = i + 1;
    }
    proof {
        lemma_first_slash_is(s@, n as int);
    }
    i
}

// ---------------------------------------------------------------------------
// Exec splitting
// ---------------------------------------------------------------------------

/// Splits `s` on the `\r\n` line terminator; the result always holds at
/// least one piece.
pub fn split_lines(s: &str) -> (lines: Vec<String>)
    ensures
        lines.deep_view() == split_crlf(s@),
        lines.len() >= 1,
{
    let n = s.unicode_len();
    let mut lines: Vec<String> = Vec::new();
    let mut start: usize = 0;
    let mut i: usize = 0;
    while i < n
        invariant
            n == s@.len(),
            start <= i <= n,
            lines.deep_view().push(s@.subrange(start as int, i as int)) =~= split_crlf(
                s@.take(i as int),
            ),
            start == 0 || (start >= 2 && s@[start as int - 2] == '\r' && s@[start as int - 1]
                == '\n'),
            forall|j: int|
                start <= j < i ==> !(#[trigger] s@[j] == '\r' && j + 1 < s@.len() && s@[j + 1]
                    == '\n'),
        decreases n - i,
    {
        let ghost prev = lines.deep_view();
        let c = s.get_char(i);
        if c == '\r' && i + 1 < n && s.get_char(i + 1) == '\n' {
            let piece = s.substring_char(start, i).to_owned();
            lines.push(piece);
            proof {
                let t = s@.take(i as int + 2);
                assert(t.len() == i + 2);
                assert(t[t.len() - 2] == '\r' && t[t.len() - 1] == '\n');
                assert(t.take(t.len() - 2) =~= s@.take(i as int));
                assert(split_crlf(t) == split_crlf(s@.take(i as int)).push(Seq::empty()));
                assert(lines.deep_view() =~= prev.push(s@.subrange(start as int, i as int)));
                assert(s@.subrange(i as int + 2, i as int + 2) =~= Seq::<char>::empty());
                assert(lines.deep_view().push(s@.subrange(i as int + 2, i as int + 2))
                    =~~= split_crlf(t));
            }
            start = i + 2;
            i = i + 2;
        } else {
            proof {
                let t = s@.take(i as int + 1);
                assert(t.last() == s@[i as int]);
                if i as int + 1 < 2 {
                    assert(start == 0 && i == 0);
                    assert(s@.take(0) =~= Seq::<char>::empty());
                    assert(s@.subrange(0, 0) =~= Seq::<char>::empty());
                    assert(split_crlf(s@.take(0)) =~~= seq![Seq::<char>::empty()]);
                    assert(split_crlf(s@.take(0)).len() == 1);
                    assert(prev.push(s@.subrange(0, 0)).len() == prev.len() + 1);
                    assert(prev.push(s@.subrange(0, 0)) == split_crlf(s@.take(0)));
                    assert(prev.len() == 0);
                    assert(split_crlf(t) =~= seq![t]);
                    assert(t =~= s@.subrange(0, 1));
                    assert(prev.push(s@.subrange(start as int, i as int + 1)) =~~= split_crlf(t));
                } else {
                    assert(t[t.len() - 2] == s@[i as int - 1]);
                    // the previous character does not begin a terminator here
                    if i as int == start {
                        assert(s@[start as int - 1] == '\n');
                        assert(t[t.len() - 2] != '\r');
                    } else {
                        assert(!(s@[i as int - 1] == '\r' && (i as int) < s@.len() && s@[i as int]
                            == '\n'));
                        assert(!(t[t.len() - 2] == '\r' && t[t.len() - 1] == '\n'));
                    }
                    assert(t.drop_last() =~= s@.take(i as int));
                    let p = split_crlf(s@.take(i as int));
                    assert(split_crlf(t) == p.update(p.len() - 1, p.last().push(s@[i as int])));
                    assert(p =~= prev.push(s@.subrange(start as int, i as int)));
                    assert(p.last() == s@.subrange(start as int, i as int));
                    assert(s@.subrange(start as int, i as int).push(s@[i as int]) =~= s@.subrange(
                        start as int,
                        i as int + 1,
                    ));
                    assert(split_crlf(t) =~= prev.push(s@.subrange(start as int, i as int + 1)));
                }
            }
            i = i + 1;
        }
    }
    let piece = s.substring_char(start, n).to_owned();
    let ghost prev = lines.deep_view();
    lines.push(piece);
    proof {
        assert(s@.take(n as int) =~= s@);
        assert(lines.deep_view() =~= prev.push(s@.subrange(start as int, n as int)));
        assert(lines.deep_view() =~= split_crlf(s@));
    }
    lines
}

fn ws_char(c: char) -> (r: bool)
    ensures
        r == is_ws(c),
{
    c == ' ' || c == '\t' || c == '\n' || c == '\r' || c == '\u{b}' || c == '\u{c}'
}

/// Splits `s` into its maximal runs of non-whitespace characters.
pub fn split_whitespace(s: &str) -> (toks: Vec<String>)
    ensures
        toks.deep_view() == tokens(s@),
{
    let n = s.unicode_len();
    let mut toks: Vec<String> = Vec::new();
    let mut start: usize = 0;
    let mut in_tok: bool = false;
    let mut i: usize = 0;
    while i < n
        invariant
            n == s@.len(),
            i <= n,
            in_tok ==> start < i,
            in_tok ==> forall|j: int| start <= j < i ==> !is_ws(s@[j]),
            in_tok ==> toks.deep_view().push(s@.subrange(start as int, i as int)) =~= tokens(
                s@.take(i as int),
            ),
            !in_tok ==> toks.deep_view() =~= tokens(s@.take(i as int)),
            !in_tok ==> (i == 0 || is_ws(s@[i as int - 1])),
        decreases n - i,
    {
        let ghost prev = toks.deep_view();
        let c = s.get_char(i);
        proof {
            assert(s@.take(i as int + 1).drop_last() =~= s@.take(i as int));
            assert(s@.take(i as int + 1).last() == s@[i as int]);
        }
        if ws_char(c) {
            if in_tok {
                let piece = s.substring_char(start, i).to_owned();
                toks.push(piece);
                in_tok = false;
                proof {
                    assert(toks.deep_view() =~= prev.push(s@.subrange(start as int, i as int)));
                    assert(toks.deep_view() =~= tokens(s@.take(i as int + 1)));
                }
            } else {
                proof {
                    assert(toks.deep_view() =~= tokens(s@.take(i as int + 1)));
                }
            }
        } else {
            if in_tok {
                proof {
                    let t = tokens(s@.take(i as int));
                    assert(s@.take(i as int + 1)[i as int - 1] == s@[i as int - 1]);
                    assert(!is_ws(s@[i as int - 1]));
                    assert(tokens(s@.take(i as int + 1)) == t.update(
                        t.len() - 1,
                        t.last().push(s@[i as int]),
                    ));
                    assert(t =~= prev.push(s@.subrange(start as int, i as int)));
                    assert(s@.subrange(start as int, i as int).push(s@[i as int]) =~= s@.subrange(
                        start as int,
                        i as int + 1,
                    ));
                    assert(tokens(s@.take(i as int + 1)) =~= prev.push(
                        s@.subrange(start as int, i as int + 1),
                    ));
                }
            } else {
                proof {
                    if i > 0 {
                        assert(is_ws(s@[i as int - 1]));
                        assert(s@.take(i as int + 1)[i as int - 1] == s@[i as int - 1]);
                    }
                    assert(tokens(s@.take(i as int + 1)) == tokens(s@.take(i as int)).push(
                        seq![s@[i as int]],
                    ));
                    assert(seq![s@[i as int]] =~= s@.subrange(i as int, i as int + 1));
                    assert(tokens(s@.take(i as int + 1)) =~= prev.push(
                        s@.subrange(i as int, i as int + 1),
                    ));
                }
                start = i;
                in_tok = true;
            }
        }
        i = i + 1;
    }
    if in_tok {
        let ghost prev = toks.deep_view();
        let piece = s.substring_char(start, n).to_owned();
        toks.push(piece);
        proof {
            assert(toks.deep_view() =~= prev.push(s@.subrange(start as int, n as int)));
        }
    }
    proof {
        assert(s@.take(n as int) =~= s@);
    }
    toks
}

// ---------------------------------------------------------------------------
// Decimal rendering
// ---------------------------------------------------------------------------

/// The character for the decimal digit `d`.
pub open spec fn digit_char(d: nat) -> char {
    if d == 0 {
        '0'
    } else if d == 1 {
        '1'
    } else if d == 2 {
        '2'
    } else if d == 3 {
        '3'
    } else if d == 4 {
        '4'
    } else if d == 5 {
        '5'
    } else if d == 6 {
        '6'
    } else if d == 7 {
        '7'
    } else if d == 8 {
        '8'
    } else {
        '9'
    }
}

/// The decimal digits of `n`, most significant first.
pub open spec fn dec_str(n: nat) -> Seq<char>
    decreases n,
{
    if n < 10 {
        seq![digit_char(n)]
    } else {
        dec_str(n / 10).push(digit_char(n % 10))
    }
}

/// The value of a decimal digit character (10 for a non-digit).
pub open spec fn digit_val(c: char) -> nat {
    if c == '0' {
        0
    } else if c == '1' {
        1
    } else if c == '2' {
        2
    } else if c == '3' {
        3
    } else if c == '4' {
        4
    } else if c == '5' {
        5
    } else if c == '6' {
        6
    } else if c == '7' {
        7
    } else if c == '8' {
        8
    } else if c == '9' {
        9
    } else {
        10
    }
}

/// The numeric value of a digit string, most significant digit first.
pub open spec fn dec_val(s: Seq<char>) -> nat
    decreases s.len(),
{
    if s.len() == 0 {
        0
    } else {
        dec_val(s.drop_last()) * 10 + digit_val(s.last())
    }
}

/// Reading the decimal digits of `n` back gives `n`.
pub proof fn lemma_dec_str_val(n: nat)
    ensures
        dec_val(dec_str(n)) == n,
    decreases n,
{
    if n < 10 {
        let s = dec_str(n);
        assert(s == seq![digit_char(n)]);
        assert(s.len() == 1);
        assert(s.drop_last() =~= Seq::<char>::empty());
        assert(dec_val(s.drop_last()) == 0);
        assert(s.last() == digit_char(n));
        assert(digit_val(digit_char(n)) == n);
        assert(dec_val(s) == dec_val(s.drop_last()) * 10 + digit_val(s.last()));
    } else {
        lemma_dec_str_val(n / 10);
        let s = dec_str(n);
        assert(s == dec_str(n / 10).push(digit_char(n % 10)));
        assert(s.len() >= 1);
        assert(s.drop_last() =~= dec_str(n / 10));
        assert(s.last() == digit_char(n % 10));
        assert(n % 10 < 10) by (nonlinear_arith);
        vstd::arithmetic::div_mod::lemma_fundamental_div_mod(n as int, 10);
        assert(digit_val(digit_char(n % 10)) == n % 10);
        assert(dec_val(s) == dec_val(s.drop_last()) * 10 + digit_val(s.last()));
        assert(dec_val(s) == (n / 10) * 10 + (n % 10));
    }
}

/// Every character of `dec_str(n)` is a decimal digit.
pub proof fn lemma_dec_str_digits(n: nat)
    ensures
        dec_str(n).len() >= 1,
        forall|i: int| 0 <= i < dec_str(n).len() ==> '0' <= #[trigger] dec_str(n)[i] <= '9',
    decreases n,
{
    if n < 10 {
    } else {
        lemma_dec_str_digits(n / 10);
        assert(forall|i: int|
            0 <= i < dec_str(n / 10).len() ==> dec_str(n)[i] == #[trigger] dec_str(n / 10)[i]);
    }
}

/// The line terminator never occurs among decimal digits.
pub proof fn lemma_dec_str_no_crlf(n: nat)
    ensures
        !contains_crlf(dec_str(n)),
{
    lemma_dec_str_digits(n);
    if contains_crlf(dec_str(n)) {
        let i = choose|i: int|
            0 <= i && i + 2 <= dec_str(n).len() && #[trigger] dec_str(n)[i] == '\r' && dec_str(
                n,
            )[i + 1] == '\n';
        assert('0' <= dec_str(n)[i] <= '9');
        assert(false);
    }
}

fn digit_literal(d: usize) -> (s: &'static str)
    requires
        d < 10,
    ensures
        s@ == seq![digit_char(d as nat)],
{
    proof {
        reveal_strlit("0");
        reveal_strlit("1");
        reveal_strlit("2");
        reveal_strlit("3");
        reveal_strlit("4");
        reveal_strlit("5");
        reveal_strlit("6");
        reveal_strlit("7");
        reveal_strlit("8");
        reveal_strlit("9");
    }
    if d == 0 {
        proof {
            assert("0"@ =~= seq![digit_char(d as nat)]);
        }
        "0"
    } else if d == 1 {
        proof {
            assert("1"@ =~= seq![digit_char(d as nat)]);
        }
        "1"
    } else if d == 2 {
        proof {
            assert("2"@ =~= seq![digit_char(d as nat)]);
        }
        "2"
    } else if d == 3 {
        proof {
            assert("3"@ =~= seq![digit_char(d as nat)]);
        }
        "3"
    } else if d == 4 {
        proof {
            assert("4"@ =~= seq![digit_char(d as nat)]);
        }
        "4"
    } else if d == 5 {
        proof {
            assert("5"@ =~= seq![digit_char(d as nat)]);
        }
        "5"
    } else if d == 6 {
        proof {
            assert("6"@ =~= seq![digit_char(d as nat)]);
        }
        "6"
    } else if d == 7 {
        proof {
            assert("7"@ =~= seq![digit_char(d as nat)]);
        }
        "7"
    } else if d == 8 {
        proof {
            assert("8"@ =~= seq![digit_char(d as nat)]);
        }
        "8"
    } else {
        proof {
            assert("9"@ =~= seq![digit_char(d as nat)]);
        }
        "9"
    }
}

/// Renders `n` in decimal, most significant digit first.
pub fn dec_string(n: usize) -> (s: String)
    ensures
        s@ == dec_str(n as nat),
    decreases n,
{
    if n < 10 {
        digit_literal(n).to_owned()
    } else {
        assert(n / 10 < n) by (nonlinear_arith)
            requires
                n >= 10,
        ;
        let mut s = dec_string(n / 10);
        s.append(digit_literal(n % 10));
        proof {
            assert(dec_str(n as nat / 10) + seq![digit_char(n as nat % 10)] =~= dec_str(n as nat));
        }
        s
    }
}

// ---------------------------------------------------------------------------
// Byte lengths and equality
// ---------------------------------------------------------------------------

/// The length in bytes of the UTF-8 encoding of `s`.
pub fn byte_length(s: &str) -> (n: usize)
    ensures
        n == encode_utf8(s@).len(),
{
    s.as_bytes().len()
}

/// Character-for-character equality of two strings.
pub fn str_eq(a: &str, b: &str) -> (r: bool)
    ensures
        r == (a@ == b@),
{
    let x = String::from_str(a);
    let y = String::from_str(b);
    x == y
}

} // verus!

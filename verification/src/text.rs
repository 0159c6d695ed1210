//! Verified text helpers: trimming, whitespace splitting and index
//! parsing for the interactive command lines.

use vstd::prelude::*;
use vstd::string::StrSliceExecFns;
use vstd::string::StringExecFns;

verus! {

/// Unicode white space, as `str::trim` and whitespace splitting use it.
pub open spec fn is_space(c: char) -> bool {
    c == ' ' || c == '\t' || c == '\n' || c == '\r' || c == '\u{000B}' || c == '\u{000C}' || c
        == '\u{0085}' || c == '\u{00A0}' || c == '\u{1680}' || c == '\u{2000}' || c == '\u{2001}'
        || c == '\u{2002}' || c == '\u{2003}' || c == '\u{2004}' || c == '\u{2005}' || c
        == '\u{2006}' || c == '\u{2007}' || c == '\u{2008}' || c == '\u{2009}' || c == '\u{200A}'
        || c == '\u{2028}' || c == '\u{2029}' || c == '\u{202F}' || c == '\u{205F}' || c
        == '\u{3000}'
}

fn is_space_char(c: char) -> (r: bool)
    ensures
        r == is_space(c),
{
    c == ' ' || c == '\t' || c == '\n' || c == '\r' || c == '\u{000B}' || c == '\u{000C}' || c
        == '\u{0085}' || c == '\u{00A0}' || c == '\u{1680}' || c == '\u{2000}' || c == '\u{2001}'
        || c == '\u{2002}' || c == '\u{2003}' || c == '\u{2004}' || c == '\u{2005}' || c
        == '\u{2006}' || c == '\u{2007}' || c == '\u{2008}' || c == '\u{2009}' || c == '\u{200A}'
        || c == '\u{2028}' || c == '\u{2029}' || c == '\u{202F}' || c == '\u{205F}' || c
        == '\u{3000}'
}

/// The first index at or after `i` holding a non-space char, or `s.len()`.
pub open spec fn next_non_space(s: Seq<char>, i: int) -> int
    decreases s.len() - i,
{
    if i < 0 || i >= s.len() {
        s.len() as int
    } else if is_space(s[i]) {
        next_non_space(s, i + 1)
    } else {
        i
    }
}

/// The first index at or after `i` holding a space, or `s.len()`.
pub open spec fn next_space(s: Seq<char>, i: int) -> int
    decreases s.len() - i,
{
    if i < 0 || i >= s.len() {
        s.len() as int
    } else if !is_space(s[i]) {
        next_space(s, i + 1)
    } else {
        i
    }
}

pub proof fn lemma_next_non_space_bounds(s: Seq<char>, i: int)
    requires
        0 <= i <= s.len(),
    ensures
        i <= next_non_space(s, i) <= s.len(),
        next_non_space(s, i) < s.len() ==> !is_space(s[next_non_space(s, i)]),
    decreases s.len() - i,
{
    if i < s.len() && is_space(s[i]) {
        lemma_next_non_space_bounds(s, i + 1);
    }
}

pub proof fn lemma_next_space_bounds(s: Seq<char>, i: int)
    requires
        0 <= i <= s.len(),
    ensures
        i <= next_space(s, i) <= s.len(),
    decreases s.len() - i,
{
    if i < s.len() && !is_space(s[i]) {
        lemma_next_space_bounds(s, i + 1);
    }
}

/// The last index `b` such that `s[b - 1]` is non-space and everything
/// from `b` to `i` is space; `0` when all of `s[..i]` is space.
pub open spec fn trim_end_idx(s: Seq<char>, i: int) -> int
    decreases i,
{
    if i <= 0 || i > s.len() {
        0
    } else if is_space(s[i - 1]) {
        trim_end_idx(s, i - 1)
    } else {
        i
    }
}

pub proof fn lemma_trim_end_bounds(s: Seq<char>, i: int)
    requires
        0 <= i <= s.len(),
    ensures
        0 <= trim_end_idx(s, i) <= i,
    decreases i,
{
    if i > 0 && is_space(s[i - 1]) {
        lemma_trim_end_bounds(s, i - 1);
    }
}

/// `s` with leading and trailing white space removed.
pub open spec fn trimmed(s: Seq<char>) -> Seq<char> {
    let a = next_non_space(s, 0);
    let b = trim_end_idx(s, s.len() as int);
    if a <= b {
        s.subrange(a, b)
    } else {
        Seq::empty()
    }
}

/// Trim leading and trailing white space.
pub fn trim(s: &str) -> (r: String)
    ensures
        r@ == trimmed(s@),
{
    let n = s.unicode_len();
    proof {
        lemma_next_non_space_bounds(s@, 0);
        lemma_trim_end_bounds(s@, n as int);
    }
    let mut a: usize = 0;
    loop
        invariant_except_break
            n == s@.len(),
            a <= n,
            next_non_space(s@, 0) == next_non_space(s@, a as int),
        ensures
            a <= n,
            a as int == next_non_space(s@, 0),
        decreases n - a,
    {
        if a >= n {
            break ;
        }
        if !is_space_char(s.get_char(a)) {
            break ;
        }
        a += 1;
    }
    if a == n {
        proof {
            assert(trimmed(s@) =~= Seq::<char>::empty());
        }
        return String::new();
    }
    let mut b: usize = n;
    loop
        invariant_except_break
            n == s@.len(),
            a < b <= n,
            a as int == next_non_space(s@, 0),
            a < n,
            !is_space(s@[a as int]),
            trim_end_idx(s@, n as int) == trim_end_idx(s@, b as int),
        ensures
            a < b <= n,
            b as int == trim_end_idx(s@, n as int),
            !is_space(s@[b - 1]),
        decreases b,
    {
        if !is_space_char(s.get_char(b - 1)) {
            break ;
        }
        proof {
            if b - 1 == a {
                assert(false);
            }
        }
        b -= 1;
    }
    let r = s.substring_char(a, b);
    proof {
        assert(r@ == trimmed(s@));
    }
    String::from_str(r)
}

/// The whitespace-separated tokens of `s` from index `i` on.
pub open spec fn ws_tokens_from(s: Seq<char>, i: int) -> Seq<Seq<char>>
    decreases s.len() - i,
    when 0 <= i <= s.len()
    via ws_tokens_from_dec
{
    let a = next_non_space(s, i);
    if a >= s.len() {
        Seq::empty()
    } else {
        let b = next_space(s, a);
        seq![s.subrange(a, b)] + ws_tokens_from(s, b)
    }
}

#[via_fn]
proof fn ws_tokens_from_dec(s: Seq<char>, i: int) {
    lemma_next_non_space_bounds(s, i);
    let a = next_non_space(s, i);
    if a < s.len() {
        lemma_next_space_bounds(s, a + 1);
    }
}

/// All whitespace-separated tokens of `s`, in order, each non-empty and
/// maximal.
pub open spec fn ws_tokens(s: Seq<char>) -> Seq<Seq<char>> {
    ws_tokens_from(s, 0)
}

/// Split on white space, dropping empty tokens, as the interactive loop
/// reads its ID line.
pub fn split_whitespace_tokens(s: &str) -> (toks: Vec<String>)
    ensures
        toks.deep_view() == ws_tokens(s@),
{
    let n = s.unicode_len();
    let mut toks: Vec<String> = Vec::new();
    let mut i: usize = 0;
    loop
        invariant_except_break
            n == s@.len(),
            0 <= i <= n,
            ws_tokens(s@) == toks.deep_view() + ws_tokens_from(s@, i as int),
        ensures
            toks.deep_view() == ws_tokens(s@),
        decreases n - i,
    {
        proof {
            lemma_next_non_space_bounds(s@, i as int);
        }
        let mut a: usize = i;
        loop
            invariant_except_break
                n == s@.len(),
                i <= a <= n,
                next_non_space(s@, i as int) == next_non_space(s@, a as int),
            ensures
                i <= a <= n,
                a as int == next_non_space(s@, i as int),
            decreases n - a,
        {
            if a >= n {
                break ;
            }
            if !is_space_char(s.get_char(a)) {
                break ;
            }
            a += 1;
        }
        if a >= n {
            proof {
                assert(ws_tokens_from(s@, i as int) =~= Seq::<Seq<char>>::empty());
                assert(toks.deep_view() + Seq::<Seq<char>>::empty() =~= toks.deep_view());
            }
            break ;
        }
        proof {
            lemma_next_space_bounds(s@, a as int);
        }
        let mut b: usize = a;
        loop
            invariant_except_break
                n == s@.len(),
                a <= b <= n,
                next_space(s@, a as int) == next_space(s@, b as int),
            ensures
                a <= b <= n,
                b as int == next_space(s@, a as int),
            decreases n - b,
        {
            if b >= n {
                break ;
            }
            if is_space_char(s.get_char(b)) {
                break ;
            }
            b += 1;
        }
        let tok = s.substring_char(a, b);
        let ghost pre = toks.deep_view();
        toks.push(String::from_str(tok));
        proof {
            assert(toks.deep_view() =~= pre + seq![tok@]);
            assert(ws_tokens_from(s@, i as int) == seq![s@.subrange(a as int, b as int)]
                + ws_tokens_from(s@, b as int));
            assert((pre + seq![tok@]) + ws_tokens_from(s@, b as int) =~= pre + (seq![tok@]
                + ws_tokens_from(s@, b as int)));
        }
        i = b;
    }
    toks
}

/// A decimal digit.
pub open spec fn is_digit(c: char) -> bool {
    c == '0' || c == '1' || c == '2' || c == '3' || c == '4' || c == '5' || c == '6' || c == '7'
        || c == '8' || c == '9'
}

/// The value of a decimal digit.
pub open spec fn digit_val(c: char) -> int {
    if c == '0' {
        0
    } else if c == '1' {
        1
    } else if c == '2' {
        2
    } else if c == '3' {
        3
    } else if c == '4' {
        4
    } else if c == '5' {
        5
    } else if c == '6' {
        6
    } else if c == '7' {
        7
    } else if c == '8' {
        8
    } else {
        9
    }
}

pub open spec fn all_digits(s: Seq<char>) -> bool {
    forall|i: int| 0 <= i < s.len() ==> is_digit(#[trigger] s[i])
}

/// The numeric value of a digit string.
pub open spec fn digits_val(s: Seq<char>) -> int
    decreases s.len(),
{
    if s.len() == 0 {
        0
    } else {
        digits_val(s.drop_last()) * 10 + digit_val(s.last())
    }
}

/// What parsing a token as a decimal index yields: the value of a
/// non-empty all-digit token that fits a `usize`, and nothing otherwise.
pub open spec fn parse_index_spec(s: Seq<char>) -> Option<int> {
    if s.len() > 0 && all_digits(s) && digits_val(s) <= usize::MAX {
        Some(digits_val(s))
    } else {
        None
    }
}

fn digit_of(c: char) -> (r: Option<u8>)
    ensures
        is_digit(c) ==> r == Some(digit_val(c) as u8),
        !is_digit(c) ==> r is None,
{
    match c {
        '0' => Some(0),
        '1' => Some(1),
        '2' => Some(2),
        '3' => Some(3),
        '4' => Some(4),
        '5' => Some(5),
        '6' => Some(6),
        '7' => Some(7),
        '8' => Some(8),
        '9' => Some(9),
        _ => None,
    }
}

proof fn lemma_digits_val_nonneg(s: Seq<char>)
    requires
        all_digits(s),
    ensures
        digits_val(s) >= 0,
    decreases s.len(),
{
    if s.len() > 0 {
        assert(all_digits(s.drop_last())) by {
            assert(forall|i: int| 0 <= i < s.len() - 1 ==> s.drop_last()[i] == #[trigger] s[i]);
        }
        lemma_digits_val_nonneg(s.drop_last());
    }
}

/// Parse a token as a decimal index exactly as the interactive loop needs
/// it: `Some` iff the token is non-empty, all digits, and in range.
pub fn parse_index(tok: &str) -> (r: Option<usize>)
    ensures
        match r {
            Some(v) => parse_index_spec(tok@) == Some(v as int),
            None => parse_index_spec(tok@) is None,
        },
{
    let n = tok.unicode_len();
    if n == 0 {
        return None;
    }
    let mut acc: usize = 0;
    let mut i: usize = 0;
    while i < n
        invariant
            n == tok@.len(),
            0 < n,
            0 <= i <= n,
            all_digits(tok@.subrange(0, i as int)),
            acc == digits_val(tok@.subrange(0, i as int)),
        decreases n - i,
    {
        let ghost pre = tok@.subrange(0, i as int);
        let c = tok.get_char(i);
        match digit_of(c) {
            None => {
                proof {
                    assert(tok@[i as int] == c);
                }
                return None;
            },
            Some(d) => {
                let m = match acc.checked_mul(10) {
                    Some(m) => m,
                    None => {
                        proof {
                            lemma_parse_overflow(tok@, i as int, acc as int);
                        }
                        return None;
                    },
                };
                let s = match m.checked_add(d as usize) {
                    Some(s) => s,
                    None => {
                        proof {
                            lemma_parse_overflow(tok@, i as int, acc as int);
                        }
                        return None;
                    },
                };
                acc = s;
                proof {
                    let cur = tok@.subrange(0, i + 1);
                    assert(cur.drop_last() =~= pre);
                    assert(cur.last() == c);
                    assert(all_digits(cur)) by {
                        assert(forall|j: int| 0 <= j < i ==> cur[j] == #[trigger] pre[j]);
                    }
                }
            },
        }
        i += 1;
    }
    proof {
        assert(tok@.subrange(0, n as int) =~= tok@);
    }
    Some(acc)
}

proof fn lemma_parse_overflow(s: Seq<char>, i: int, acc: int)
    requires
        0 <= i < s.len(),
        all_digits(s.subrange(0, i)),
        acc == digits_val(s.subrange(0, i)),
        acc * 10 > usize::MAX || (is_digit(s[i]) && acc * 10 + digit_val(s[i]) > usize::MAX),
    ensures
        parse_index_spec(s) is None,
    decreases s.len() - i,
{
    if all_digits(s) {
        let cur = s.subrange(0, i + 1);
        assert(cur.drop_last() =~= s.subrange(0, i));
        assert(cur.last() == s[i]);
        assert(is_digit(s[i]));
        lemma_digits_val_nonneg(s.subrange(0, i));
        let acc2 = digits_val(cur);
        assert(acc2 == acc * 10 + digit_val(s[i]));
        assert(acc2 > usize::MAX);
        if i + 1 < s.len() {
            assert(all_digits(cur)) by {
                assert(forall|j: int| 0 <= j <= i ==> cur[j] == #[trigger] s[j]);
            }
            lemma_parse_overflow(s, i + 1, acc2);
        } else {
            assert(cur =~= s);
        }
    }
}

} // verus!

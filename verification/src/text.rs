//! Character-level text utilities: equality, searching, trimming, comment
//! stripping, line splitting and decimal parsing, each specified over the
//! character sequence view of the string it works on.

use vstd::prelude::*;
use vstd::string::*;

verus! {

/// The whitespace characters that trimming removes (the ASCII range).
pub open spec fn is_space(c: char) -> bool {
    c == ' ' || c == '\t' || c == '\n' || c == '\r' || c == '\u{b}' || c == '\u{c}'
}

pub fn is_space_char(c: char) -> (r: bool)
    ensures
        r == is_space(c),
{
    c == ' ' || c == '\t' || c == '\n' || c == '\r' || c == '\u{b}' || c == '\u{c}'
}

/// Character-for-character string equality.
pub fn str_eq(a: &str, b: &str) -> (r: bool)
    ensures
        r == (a@ == b@),
{
    let la = a.unicode_len();
    let lb = b.unicode_len();
    if la != lb {
        return false;
    }
    let mut i: usize = 0;
    while i < la
        invariant
            a@.len() == la,
            b@.len() == la,
            i <= la,
            forall|k: int| 0 <= k < i ==> a@[k] == b@[k],
        decreases la - i,
    {
        if a.get_char(i) != b.get_char(i) {
            return false;
        }
        i = i + 1;
    }
    proof {
        assert(a@ =~= b@);
    }
    true
}

/// The index of the first occurrence of `c` in `s`, or `s.len()` if `c`
/// does not occur.
pub open spec fn char_index(s: Seq<char>, c: char) -> int
    decreases s.len(),
{
    if s.len() == 0 {
        0
    } else if s[0] == c {
        0
    } else {
        1 + char_index(s.skip(1), c)
    }
}

pub proof fn lemma_char_index(s: Seq<char>, c: char)
    ensures
        0 <= char_index(s, c) <= s.len(),
        forall|k: int| 0 <= k < char_index(s, c) ==> s[k] != c,
        char_index(s, c) < s.len() ==> s[char_index(s, c)] == c,
    decreases s.len(),
{
    if s.len() == 0 {
    } else if s[0] == c {
    } else {
        lemma_char_index(s.skip(1), c);
        assert forall|k: int| 0 <= k < char_index(s, c) implies s[k] != c by {
            if k > 0 {
                assert(s.skip(1)[k - 1] == s[k]);
            }
        }
        if char_index(s, c) < s.len() {
            assert(s.skip(1)[char_index(s, c) - 1] == s[char_index(s, c)]);
        }
    }
}

/// Finds the first occurrence of `c` in `s`.
pub fn find_char(s: &str, c: char) -> (r: Option<usize>)
    ensures
        match r {
            Some(i) => i == char_index(s@, c) && i < s@.len() && s@[i as int] == c,
            None => char_index(s@, c) == s@.len(),
        },
{
    let n = s.unicode_len();
    let mut i: usize = 0;
    while i < n
        invariant
            s@.len() == n,
            i <= n,
            forall|k: int| 0 <= k < i ==> s@[k] != c,
        decreases n - i,
    {
        if s.get_char(i) == c {
            proof {
                lemma_char_index(s@, c);
            }
            return Some(i);
        }
        i = i + 1;
    }
    proof {
        lemma_char_index(s@, c);
    }
    None
}

/// The number of leading whitespace characters of `s`.
pub open spec fn trim_start_idx(s: Seq<char>) -> int
    decreases s.len(),
{
    if s.len() == 0 {
        0
    } else if !is_space(s[0]) {
        0
    } else {
        1 + trim_start_idx(s.skip(1))
    }
}

/// One past the last non-whitespace character of `s`, or 0 if `s` is all
/// whitespace.
pub open spec fn trim_end_idx(s: Seq<char>) -> int
    decreases s.len(),
{
    if s.len() == 0 {
        0
    } else if !is_space(s.last()) {
        s.len() as int
    } else {
        trim_end_idx(s.drop_last())
    }
}

/// `s` with leading and trailing whitespace removed.
pub open spec fn spec_trim(s: Seq<char>) -> Seq<char> {
    let a = trim_start_idx(s);
    let b = trim_end_idx(s);
    if a <= b {
        s.subrange(a, b)
    } else {
        Seq::empty()
    }
}

pub proof fn lemma_trim_start_idx(s: Seq<char>)
    ensures
        0 <= trim_start_idx(s) <= s.len(),
        forall|k: int| 0 <= k < trim_start_idx(s) ==> is_space(s[k]),
        trim_start_idx(s) < s.len() ==> !is_space(s[trim_start_idx(s)]),
    decreases s.len(),
{
    if s.len() == 0 {
    } else if !is_space(s[0]) {
    } else {
        lemma_trim_start_idx(s.skip(1));
        assert forall|k: int| 0 <= k < trim_start_idx(s) implies is_space(s[k]) by {
            if k > 0 {
                assert(s.skip(1)[k - 1] == s[k]);
            }
        }
        if trim_start_idx(s) < s.len() {
            assert(s.skip(1)[trim_start_idx(s) - 1] == s[trim_start_idx(s)]);
        }
    }
}

pub proof fn lemma_trim_end_idx(s: Seq<char>)
    ensures
        0 <= trim_end_idx(s) <= s.len(),
        forall|k: int| trim_end_idx(s) <= k < s.len() ==> is_space(s[k]),
        trim_end_idx(s) > 0 ==> !is_space(s[trim_end_idx(s) - 1]),
    decreases s.len(),
{
    if s.len() == 0 {
    } else if !is_space(s.last()) {
    } else {
        lemma_trim_end_idx(s.drop_last());
        assert forall|k: int| trim_end_idx(s) <= k < s.len() implies is_space(s[k]) by {
            if k < s.len() - 1 {
                assert(s.drop_last()[k] == s[k]);
            }
        }
        if trim_end_idx(s) > 0 {
            assert(s.drop_last()[trim_end_idx(s) - 1] == s[trim_end_idx(s) - 1]);
        }
    }
}

/// `s` with leading and trailing whitespace removed.
pub fn trim_slice<'a>(s: &'a str) -> (r: &'a str)
    ensures
        r@ == spec_trim(s@),
{
    let n = s.unicode_len();
    let mut a: usize = 0;
    while a < n && is_space_char(s.get_char(a))
        invariant
            s@.len() == n,
            a <= n,
            forall|k: int| 0 <= k < a ==> is_space(s@[k]),
        decreases n - a,
    {
        a = a + 1;
    }
    let mut b: usize = n;
    while b > a && is_space_char(s.get_char(b - 1))
        invariant
            s@.len() == n,
            a <= b <= n,
            forall|k: int| 0 <= k < a ==> is_space(s@[k]),
            a < n ==> !is_space(s@[a as int]),
            forall|k: int| b <= k < n ==> is_space(s@[k]),
        decreases b,
    {
        b = b - 1;
    }
    proof {
        lemma_trim_start_idx(s@);
        lemma_trim_end_idx(s@);
        if a < n {
            // `a` is the first non-space index and `b` is one past the last.
            assert(a == trim_start_idx(s@));
            assert(b > a);
            assert(b == trim_end_idx(s@));
        } else {
            assert(a == n && b == n);
            assert(trim_start_idx(s@) == n);
            assert(trim_end_idx(s@) == 0);
        }
    }
    let r = s.substring_char(a, b);
    proof {
        if a >= n {
            assert(r@ =~= spec_trim(s@));
        }
    }
    r
}

/// The index where a `//` comment begins in `s`, or `s.len()` if there is
/// no comment.
pub open spec fn comment_idx(s: Seq<char>) -> int
    decreases s.len(),
{
    if s.len() < 2 {
        s.len() as int
    } else if s[0] == '/' && s[1] == '/' {
        0
    } else {
        1 + comment_idx(s.skip(1))
    }
}

pub proof fn lemma_comment_idx(s: Seq<char>)
    ensures
        0 <= comment_idx(s) <= s.len(),
        forall|k: int|
            #![trigger s[k]]
            0 <= k < comment_idx(s) && k + 1 < s.len() ==> !(s[k] == '/' && s[k + 1] == '/'),
        comment_idx(s) < s.len() ==> comment_idx(s) + 1 < s.len() && s[comment_idx(s)] == '/'
            && s[comment_idx(s) + 1] == '/',
    decreases s.len(),
{
    if s.len() < 2 {
    } else if s[0] == '/' && s[1] == '/' {
    } else {
        lemma_comment_idx(s.skip(1));
        assert forall|k: int| #![trigger s[k]]
            0 <= k < comment_idx(s) && k + 1 < s.len() implies !(s[k] == '/' && s[k + 1]
            == '/') by {
            if k > 0 {
                assert(s.skip(1)[k - 1] == s[k]);
                assert(s.skip(1)[k] == s[k + 1]);
            }
        }
        if comment_idx(s) < s.len() {
            assert(s.skip(1)[comment_idx(s) - 1] == s[comment_idx(s)]);
            assert(s.skip(1)[comment_idx(s)] == s[comment_idx(s) + 1]);
        }
    }
}

/// `s` up to (excluding) its `//` comment, or all of `s` if it has none.
pub open spec fn spec_strip_comment(s: Seq<char>) -> Seq<char> {
    s.take(comment_idx(s))
}

pub fn strip_comment_slice<'a>(s: &'a str) -> (r: &'a str)
    ensures
        r@ == spec_strip_comment(s@),
{
    let n = s.unicode_len();
    let mut i: usize = 0;
    while n - i > 1
        invariant
            s@.len() == n,
            i <= n,
            forall|k: int|
                #![trigger s@[k]]
                0 <= k < i && k + 1 < n ==> !(s@[k] == '/' && s@[k + 1] == '/'),
        decreases n - i,
    {
        if s.get_char(i) == '/' && s.get_char(i + 1) == '/' {
            proof {
                lemma_comment_idx(s@);
                assert(i == comment_idx(s@));
            }
            return s.substring_char(0, i);
        }
        i = i + 1;
    }
    proof {
        lemma_comment_idx(s@);
        assert(comment_idx(s@) == n);
    }
    let r = s.substring_char(0, n);
    proof {
        assert(r@ =~= spec_strip_comment(s@));
    }
    r
}


/// `s` split at `'\n'` characters, without a trailing empty line for a
/// final newline.
pub open spec fn spec_split_lines(s: Seq<char>) -> Seq<Seq<char>>
    decreases s.len(),
    via spec_split_lines_decreases
{
    if s.len() == 0 {
        Seq::empty()
    } else {
        let i = char_index(s, '\n');
        if i == s.len() {
            seq![s]
        } else {
            seq![s.take(i)] + spec_split_lines(s.skip(i + 1))
        }
    }
}

#[via_fn]
proof fn spec_split_lines_decreases(s: Seq<char>) {
    if s.len() > 0 {
        lemma_char_index(s, '\n');
    }
}

/// Splitting yields at most one line per character of the source.
pub proof fn lemma_split_lines_count(s: Seq<char>)
    ensures
        spec_split_lines(s).len() <= s.len(),
    decreases s.len(),
{
    if s.len() > 0 {
        lemma_char_index(s, '\n');
        let i = char_index(s, '\n');
        if i < s.len() {
            lemma_split_lines_count(s.skip(i + 1));
        }
    }
}

/// Splits `s` into its lines.
pub fn split_lines(s: &str) -> (r: Vec<String>)
    ensures
        r.deep_view() == spec_split_lines(s@),
{
    let mut out: Vec<String> = Vec::new();
    let mut rest: &str = s;
    proof {
        assert(out.deep_view() + spec_split_lines(rest@) =~= spec_split_lines(s@));
    }
    while rest.unicode_len() != 0
        invariant
            out.deep_view() + spec_split_lines(rest@) == spec_split_lines(s@),
        decreases rest@.len(),
    {
        let n = rest.unicode_len();
        let ghost pre = out.deep_view();
        match find_char(rest, '\n') {
            Some(i) => {
                let line = rest.substring_char(0, i).to_owned();
                out.push(line);
                let next = rest.substring_char(i + 1, n);
                proof {
                    assert(out.deep_view() =~= pre.push(rest@.take(i as int)));
                    assert(next@ =~= rest@.skip(i + 1));
                    assert(spec_split_lines(rest@) == seq![rest@.take(i as int)]
                        + spec_split_lines(next@));
                    assert(out.deep_view() + spec_split_lines(next@) =~= pre
                        + spec_split_lines(rest@));
                }
                rest = next;
            },
            None => {
                out.push(rest.to_owned());
                let next = rest.substring_char(n, n);
                proof {
                    assert(out.deep_view() =~= pre.push(rest@));
                    assert(spec_split_lines(rest@) == seq![rest@]);
                    assert(next@ =~= Seq::<char>::empty());
                    assert(out.deep_view() + spec_split_lines(next@) =~= pre
                        + spec_split_lines(rest@));
                }
                rest = next;
            },
        }
    }
    proof {
        assert(spec_split_lines(rest@) =~= Seq::<Seq<char>>::empty());
        assert(out.deep_view() =~= spec_split_lines(s@));
    }
    out
}

/// Whether `c` is a decimal digit.
pub open spec fn is_digit(c: char) -> bool {
    48 <= c as u32 <= 57
}

/// The numeric value of the digit `c`, or 0 if `c` is not a digit.
pub open spec fn digit_val(c: char) -> nat {
    if is_digit(c) {
        (c as u32 - 48) as nat
    } else {
        0
    }
}

/// Whether `s` is a non-empty string of decimal digits.
pub open spec fn is_dec(s: Seq<char>) -> bool {
    s.len() > 0 && forall|k: int| 0 <= k < s.len() ==> is_digit(s[k])
}

/// The value of `s` read as a decimal numeral.
pub open spec fn dec_value(s: Seq<char>) -> nat
    decreases s.len(),
{
    if s.len() == 0 {
        0
    } else {
        dec_value(s.drop_last()) * 10 + digit_val(s.last())
    }
}

/// A numeral's prefixes never exceed its value.
proof fn lemma_dec_value_prefix(s: Seq<char>, i: int)
    requires
        0 <= i <= s.len(),
    ensures
        dec_value(s.take(i)) <= dec_value(s),
    decreases s.len() - i,
{
    if i < s.len() {
        lemma_dec_value_prefix(s, i + 1);
        assert(s.take(i + 1).drop_last() =~= s.take(i));
        assert(s.take(i + 1).last() == s[i]);
        let v = dec_value(s.take(i));
        assert(v <= v * 10) by (nonlinear_arith)
            requires v >= 0
        ;
    } else {
        assert(s.take(i) =~= s);
    }
}

/// Reads `s` as a decimal numeral; `None` when `s` is not a non-empty
/// digit string or its value does not fit in a `usize`.
pub fn parse_dec(s: &str) -> (r: Option<usize>)
    ensures
        match r {
            Some(v) => is_dec(s@) && v as nat == dec_value(s@),
            None => !is_dec(s@) || dec_value(s@) > usize::MAX,
        },
{
    let n = s.unicode_len();
    if n == 0 {
        return None;
    }
    let mut acc: usize = 0;
    let mut i: usize = 0;
    while i < n
        invariant
            s@.len() == n,
            0 < n,
            i <= n,
            forall|k: int| 0 <= k < i ==> is_digit(s@[k]),
            acc as nat == dec_value(s@.take(i as int)),
        decreases n - i,
    {
        let c = s.get_char(i);
        let u = c as u32;
        if u < 48 || u > 57 {
            assert(!is_digit(s@[i as int]));
            return None;
        }
        let d = (u - 48) as usize;
        proof {
            assert(s@.take(i + 1).drop_last() =~= s@.take(i as int));
            assert(s@.take(i + 1).last() == s@[i as int]);
        }
        let m = match acc.checked_mul(10) {
            Some(m) => m,
            None => {
                proof {
                    lemma_dec_value_prefix(s@, i + 1);
                }
                return None;
            },
        };
        acc = match m.checked_add(d) {
            Some(a) => a,
            None => {
                proof {
                    lemma_dec_value_prefix(s@, i + 1);
                }
                return None;
            },
        };
        i = i + 1;
    }
    proof {
        assert(s@.take(n as int) =~= s@);
    }
    Some(acc)
}

/// An element-for-element copy of a vector of lines.
pub fn clone_lines(v: &Vec<String>) -> (r: Vec<String>)
    ensures
        r.deep_view() == v.deep_view(),
{
    let mut out: Vec<String> = Vec::new();
    let mut i: usize = 0;
    while i < v.len()
        invariant
            i <= v.len(),
            out@.len() == i,
            forall|k: int| 0 <= k < i ==> out@[k]@ == v@[k]@,
        decreases v.len() - i,
    {
        out.push(v[i].clone());
        i = i + 1;
    }
    proof {
        assert(out.deep_view() =~= v.deep_view());
    }
    out
}

} // verus!

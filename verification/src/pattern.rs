//! The fixed text patterns of the highlighter, as verified functions.
//!
//! Three patterns drive the highlighting: an IPv4-shaped substring
//! (four dot-separated groups of one to three digits, purely syntactic,
//! with no bound on octet values), the literal keyword markers "Ban"
//! and "Found", and the fixed multi-line delimiter "++++". Matching is
//! leftmost: the first position where a pattern fits wins, and the last
//! digit group of an address is greedy (up to three digits).

use vstd::prelude::*;
use vstd::string::*;

verus! {

/// Whether a character is an ASCII decimal digit.
pub open spec fn is_digit(c: char) -> bool {
    48 <= c as u32 && c as u32 <= 57
}

/// The length of the maximal run of digits starting at `i`.
pub open spec fn digit_run(s: Seq<char>, i: int) -> int
    decreases s.len() - i,
{
    if i < 0 || i >= s.len() || !is_digit(s[i]) {
        0
    } else {
        1 + digit_run(s, i + 1)
    }
}

pub proof fn lemma_digit_run_bound(s: Seq<char>, i: int)
    requires
        0 <= i <= s.len(),
    ensures
        0 <= digit_run(s, i),
        i + digit_run(s, i) <= s.len(),
    decreases s.len() - i,
{
    if i < s.len() && is_digit(s[i]) {
        lemma_digit_run_bound(s, i + 1);
    }
}

/// A digit run is exactly delimited by its first non-digit (or the end).
pub proof fn lemma_digit_run_exact(s: Seq<char>, i: int, j: int)
    requires
        0 <= i <= j <= s.len(),
        forall|k: int| i <= k < j ==> is_digit(s[k]),
        j == s.len() || !is_digit(s[j]),
    ensures
        digit_run(s, i) == j - i,
    decreases j - i,
{
    if i < j {
        lemma_digit_run_exact(s, i + 1, j);
    }
}

/// Whether an IPv4-shaped substring starts at position `i`: three digit
/// groups of one to three digits, each followed by a dot, and a final
/// group of at least one digit. The groups before a dot are exact digit
/// runs; the final group is greedy, up to three digits.
pub open spec fn ip_match_at(s: Seq<char>, i: int) -> bool {
    let a = digit_run(s, i);
    let b = digit_run(s, i + a + 1);
    let c = digit_run(s, i + a + b + 2);
    let d = digit_run(s, i + a + b + c + 3);
    &&& 0 <= i
    &&& 1 <= a <= 3
    &&& i + a < s.len() && s[i + a] == '.'
    &&& 1 <= b <= 3
    &&& i + a + 1 + b < s.len() && s[i + a + 1 + b] == '.'
    &&& 1 <= c <= 3
    &&& i + a + b + 2 + c < s.len() && s[i + a + b + 2 + c] == '.'
    &&& 1 <= d
}

/// The length of the IPv4-shaped match starting at `i` (meaningful only
/// when `ip_match_at(s, i)` holds): the final group takes at most three
/// digits.
pub open spec fn ip_match_len(s: Seq<char>, i: int) -> int {
    let a = digit_run(s, i);
    let b = digit_run(s, i + a + 1);
    let c = digit_run(s, i + a + b + 2);
    let d = digit_run(s, i + a + b + c + 3);
    a + b + c + 3 + if d > 3 { 3 } else { d }
}

pub proof fn lemma_ip_match_len_bound(s: Seq<char>, i: int)
    requires
        ip_match_at(s, i),
    ensures
        7 <= ip_match_len(s, i),
        i + ip_match_len(s, i) <= s.len(),
{
    lemma_digit_run_bound(
        s,
        i + digit_run(s, i) + digit_run(s, i + digit_run(s, i) + 1) + digit_run(
            s,
            i + digit_run(s, i) + digit_run(s, i + digit_run(s, i) + 1) + 2,
        ) + 3,
    );
}

/// Whether a digit-dot-digit pattern occurs anywhere in `s`.
pub open spec fn has_ddd(s: Seq<char>) -> bool {
    exists|i: int|
        0 <= i && i + 2 < s.len() && #[trigger] is_digit(s[i]) && s[i + 1] == '.' && is_digit(
            s[i + 2],
        )
}

/// Every character of a digit run is a digit.
pub proof fn lemma_digit_run_digits(s: Seq<char>, i: int)
    requires
        0 <= i,
    ensures
        forall|k: int| i <= k < i + digit_run(s, i) ==> is_digit(s[k]),
    decreases s.len() - i,
{
    if i < s.len() && is_digit(s[i]) {
        lemma_digit_run_digits(s, i + 1);
    }
}

/// An IPv4-shaped match contains a digit-dot-digit pattern.
pub proof fn lemma_ip_match_has_ddd(s: Seq<char>, i: int)
    requires
        ip_match_at(s, i),
    ensures
        has_ddd(s),
{
    lemma_digit_run_digits(s, i);
    let a = digit_run(s, i);
    assert(is_digit(s[i + a - 1]));
    assert(digit_run(s, i + a + 1) >= 1);
    assert(is_digit(s[i + a + 1]));
    assert(0 <= i + a - 1 && (i + a - 1) + 2 < s.len() && is_digit(s[i + a - 1]) && s[(i + a - 1)
        + 1] == '.' && is_digit(s[(i + a - 1) + 2]));
}

/// Whether some IPv4-shaped substring occurs in `s`.
pub open spec fn has_ip(s: Seq<char>) -> bool {
    exists|i: int| ip_match_at(s, i)
}

/// The position of the leftmost IPv4-shaped match at or after `i`, or
/// `s.len()` when there is none.
pub open spec fn first_ip_from(s: Seq<char>, i: int) -> int
    decreases s.len() - i,
{
    if i < 0 {
        i
    } else if i >= s.len() {
        s.len() as int
    } else if ip_match_at(s, i) {
        i
    } else {
        first_ip_from(s, i + 1)
    }
}

/// The position of the leftmost IPv4-shaped match, or `s.len()` when
/// there is none.
pub open spec fn first_ip(s: Seq<char>) -> int {
    first_ip_from(s, 0)
}

pub proof fn lemma_first_ip_found(s: Seq<char>, i: int)
    requires
        0 <= i <= s.len(),
    ensures
        ({
            let p = first_ip_from(s, i);
            &&& i <= p <= s.len()
            &&& forall|j: int| i <= j < p ==> !ip_match_at(s, j)
            &&& p < s.len() ==> ip_match_at(s, p)
            &&& p == s.len() ==> forall|j: int| i <= j ==> !ip_match_at(s, j)
        }),
    decreases s.len() - i,
{
    if i < s.len() && !ip_match_at(s, i) {
        lemma_first_ip_found(s, i + 1);
    }
}

/// Whether the pattern `pat` occurs in `s` starting at position `i`.
pub open spec fn pat_at(s: Seq<char>, pat: Seq<char>, i: int) -> bool {
    &&& 0 <= i
    &&& i + pat.len() <= s.len()
    &&& s.subrange(i, i + pat.len()) == pat
}

/// Whether the pattern `pat` occurs somewhere in `s`.
pub open spec fn contains_pat(s: Seq<char>, pat: Seq<char>) -> bool {
    exists|i: int| pat_at(s, pat, i)
}

/// The position of the leftmost occurrence of `pat` at or after `i`, or
/// `s.len()` when there is none.
pub open spec fn first_pat_from(s: Seq<char>, pat: Seq<char>, i: int) -> int
    decreases s.len() - i,
{
    if i < 0 {
        i
    } else if i >= s.len() {
        s.len() as int
    } else if pat_at(s, pat, i) {
        i
    } else {
        first_pat_from(s, pat, i + 1)
    }
}

/// The position of the leftmost occurrence of `pat`, or `s.len()` when
/// there is none.
pub open spec fn first_pat(s: Seq<char>, pat: Seq<char>) -> int {
    first_pat_from(s, pat, 0)
}

pub proof fn lemma_first_pat_found(s: Seq<char>, pat: Seq<char>, i: int)
    requires
        0 <= i <= s.len(),
        pat.len() >= 1,
    ensures
        ({
            let p = first_pat_from(s, pat, i);
            &&& i <= p <= s.len()
            &&& forall|j: int| i <= j < p ==> !pat_at(s, pat, j)
            &&& p < s.len() ==> pat_at(s, pat, p)
            &&& p == s.len() ==> forall|j: int| i <= j ==> !pat_at(s, pat, j)
        }),
    decreases s.len() - i,
{
    if i < s.len() && !pat_at(s, pat, i) {
        lemma_first_pat_found(s, pat, i + 1);
    }
}

/// The fixed multi-line delimiter on which a delivered raw line is
/// segmented into logical sub-lines.
pub open spec fn delim() -> Seq<char> {
    seq!['+', '+', '+', '+']
}

/// The keyword marker "Ban".
pub open spec fn kw_ban() -> Seq<char> {
    seq!['B', 'a', 'n']
}

/// The keyword marker "Found".
pub open spec fn kw_found() -> Seq<char> {
    seq!['F', 'o', 'u', 'n', 'd']
}

/// A raw line split on every occurrence of the delimiter, in order.
/// Always yields at least one (possibly empty) sub-line.
pub open spec fn split_sublines(s: Seq<char>) -> Seq<Seq<char>>
    decreases s.len(),
    via split_sublines_decreases
{
    if contains_pat(s, delim()) {
        let p = first_pat(s, delim());
        seq![s.take(p)] + split_sublines(s.skip(p + 4))
    } else {
        seq![s]
    }
}

#[via_fn]
proof fn split_sublines_decreases(s: Seq<char>) {
    if contains_pat(s, delim()) {
        lemma_first_pat_found(s, delim(), 0);
    }
}

pub proof fn lemma_split_sublines_len(s: Seq<char>)
    ensures
        split_sublines(s).len() >= 1,
    decreases s.len(),
{
    if contains_pat(s, delim()) {
        lemma_first_pat_found(s, delim(), 0);
        lemma_split_sublines_len(s.skip(first_pat(s, delim()) + 4));
    }
}

/// Whether a character is an ASCII decimal digit.
fn char_is_digit(c: char) -> (r: bool)
    ensures
        r == is_digit(c),
{
    let u = c as u32;
    48 <= u && u <= 57
}

/// The length of the maximal digit run starting at `i`.
fn digit_run_from(s: &str, n: usize, i: usize) -> (r: usize)
    requires
        n == s@.len(),
        i <= n,
    ensures
        i + r <= n,
        r == digit_run(s@, i as int),
{
    let mut j = i;
    while j < n && char_is_digit(s.get_char(j))
        invariant
            i <= j <= n,
            forall|k: int| i <= k < j ==> is_digit(s@[k]),
        decreases n - j,
    {
        j = j + 1;
    }
    proof {
        lemma_digit_run_exact(s@, i as int, j as int);
    }
    j - i
}

/// The length of the IPv4-shaped match starting exactly at `i`, if any.
fn ip_len_at(s: &str, n: usize, i: usize) -> (r: Option<usize>)
    requires
        n == s@.len(),
        i <= n,
    ensures
        (r is Some) == ip_match_at(s@, i as int),
        (r matches Some(l) ==> l == ip_match_len(s@, i as int) && i + l <= n),
{
    let a = digit_run_from(s, n, i);
    if a < 1 || a > 3 || i + a == n {
        return None;
    }
    if s.get_char(i + a) != '.' {
        return None;
    }
    let b = digit_run_from(s, n, i + a + 1);
    if b < 1 || b > 3 || i + a + 1 + b == n {
        return None;
    }
    if s.get_char(i + a + 1 + b) != '.' {
        return None;
    }
    let c = digit_run_from(s, n, i + a + b + 2);
    if c < 1 || c > 3 || i + a + b + 2 + c == n {
        return None;
    }
    if s.get_char(i + a + b + 2 + c) != '.' {
        return None;
    }
    let d = digit_run_from(s, n, i + a + b + c + 3);
    if d < 1 {
        return None;
    }
    let dl = if d > 3 { 3 } else { d };
    Some(a + b + c + 3 + dl)
}

/// The leftmost IPv4-shaped match in `s`, as its position and length.
pub fn find_ip(s: &str, n: usize) -> (r: Option<(usize, usize)>)
    requires
        n == s@.len(),
    ensures
        (r is Some) == has_ip(s@),
        (r matches Some(pl) ==> {
            &&& pl.0 == first_ip(s@)
            &&& ip_match_at(s@, pl.0 as int)
            &&& pl.1 == ip_match_len(s@, pl.0 as int)
            &&& pl.0 + pl.1 <= n
        }),
{
    let mut i: usize = 0;
    while i < n
        invariant
            0 <= i <= n,
            forall|j: int| 0 <= j < i ==> !ip_match_at(s@, j),
        decreases n - i,
    {
        match ip_len_at(s, n, i) {
            Some(l) => {
                proof {
                    lemma_first_ip_found(s@, 0);
                }
                return Some((i, l));
            },
            None => {},
        }
        i = i + 1;
    }
    proof {
        assert(forall|j: int| ip_match_at(s@, j) ==> 0 <= j < n);
    }
    None
}

/// Whether `pat` occurs in `s` starting exactly at `i`.
fn pat_match_at(s: &str, n: usize, pat: &str, m: usize, i: usize) -> (r: bool)
    requires
        n == s@.len(),
        m == pat@.len(),
        i <= n,
    ensures
        r == pat_at(s@, pat@, i as int),
{
    if m > n - i {
        return false;
    }
    let mut k: usize = 0;
    while k < m
        invariant
            0 <= k <= m,
            i + m <= n,
            forall|t: int| 0 <= t < k ==> s@[i + t] == pat@[t],
        decreases m - k,
    {
        if s.get_char(i + k) != pat.get_char(k) {
            proof {
                assert(s@.subrange(i as int, i + m) != pat@) by {
                    assert(s@.subrange(i as int, i + m)[k as int] == s@[i + k]);
                }
            }
            return false;
        }
        k = k + 1;
    }
    proof {
        assert(s@.subrange(i as int, i + m) =~= pat@);
    }
    true
}

/// The position of the leftmost occurrence of `pat` in `s`, if any.
pub fn find_pat(s: &str, n: usize, pat: &str, m: usize) -> (r: Option<usize>)
    requires
        n == s@.len(),
        m == pat@.len(),
        m >= 1,
    ensures
        (r is Some) == contains_pat(s@, pat@),
        (r matches Some(p) ==> p == first_pat(s@, pat@) && pat_at(s@, pat@, p as int)),
{
    let mut i: usize = 0;
    while i < n
        invariant
            0 <= i <= n,
            forall|j: int| 0 <= j < i ==> !pat_at(s@, pat@, j),
        decreases n - i,
    {
        if pat_match_at(s, n, pat, m, i) {
            proof {
                lemma_first_pat_found(s@, pat@, 0);
            }
            return Some(i);
        }
        i = i + 1;
    }
    proof {
        assert(forall|j: int| pat_at(s@, pat@, j) ==> 0 <= j < n);
    }
    None
}

} // verus!

//! Verified string helpers: comparisons, searching, case folding,
//! whitespace splitting, trimming, and decimal rendering and parsing.
//!
//! Everything here is defined over `Seq<char>` views, so that the
//! modules building on it can state exact contracts about the strings
//! they produce and consume.

use vstd::prelude::*;

verus! {

/// The whitespace characters recognized by this crate's tokenizers.
pub open spec fn is_ws(c: char) -> bool {
    c == ' ' || c == '\t' || c == '\n' || c == '\r'
}

/// Executable mirror of [`is_ws`].
pub fn is_ws_char(c: char) -> (r: bool)
    ensures
        r == is_ws(c),
{
    c == ' ' || c == '\t' || c == '\n' || c == '\r'
}

/// Character-by-character equality of two string slices.
pub fn str_eq(a: &str, b: &str) -> (r: bool)
    ensures
        r == (a@ == b@),
{
    let a_len = a.unicode_len();
    let b_len = b.unicode_len();
    if a_len != b_len {
        assert(a@ != b@) by {
            assert(a@.len() != b@.len());
        }
        return false;
    }
    let mut i: usize = 0;
    while i < a_len
        invariant
            i <= a_len,
            a_len == a@.len(),
            b_len == b@.len(),
            a_len == b_len,
            forall|k: int| 0 <= k < i ==> a@[k] == b@[k],
        decreases a_len - i,
    {
        if a.get_char(i) != b.get_char(i) {
            assert(a@ != b@) by {
                assert(a@[i as int] != b@[i as int]);
            }
            return false;
        }
        i += 1;
    }
    proof {
        assert(a@ =~= b@);
    }
    true
}

/// Does `s` start with the prefix `p`?
pub open spec fn spec_starts_with(s: Seq<char>, p: Seq<char>) -> bool {
    p.len() <= s.len() && s.subrange(0, p.len() as int) == p
}

pub fn starts_with(s: &str, p: &str) -> (r: bool)
    ensures
        r == spec_starts_with(s@, p@),
{
    let s_len = s.unicode_len();
    let p_len = p.unicode_len();
    if p_len > s_len {
        return false;
    }
    let mut i: usize = 0;
    while i < p_len
        invariant
            i <= p_len,
            s_len == s@.len(),
            p_len == p@.len(),
            p_len <= s_len,
            forall|k: int| 0 <= k < i ==> s@[k] == p@[k],
        decreases p_len - i,
    {
        if s.get_char(i) != p.get_char(i) {
            assert(s@.subrange(0, p@.len() as int) != p@) by {
                assert(s@.subrange(0, p@.len() as int)[i as int] != p@[i as int]);
            }
            return false;
        }
        i += 1;
    }
    proof {
        assert(s@.subrange(0, p@.len() as int) =~= p@);
    }
    true
}

/// Does `s` end with the suffix `p`?
pub open spec fn spec_ends_with(s: Seq<char>, p: Seq<char>) -> bool {
    p.len() <= s.len() && s.subrange(s.len() - p.len(), s.len() as int) == p
}

pub fn ends_with(s: &str, p: &str) -> (r: bool)
    ensures
        r == spec_ends_with(s@, p@),
{
    let s_len = s.unicode_len();
    let p_len = p.unicode_len();
    if p_len > s_len {
        return false;
    }
    let off: usize = s_len - p_len;
    let mut i: usize = 0;
    while i < p_len
        invariant
            i <= p_len,
            s_len == s@.len(),
            p_len == p@.len(),
            p_len <= s_len,
            off == s_len - p_len,
            forall|k: int| 0 <= k < i ==> s@[off + k] == p@[k],
        decreases p_len - i,
    {
        if s.get_char(off + i) != p.get_char(i) {
            assert(s@.subrange(s@.len() - p@.len(), s@.len() as int) != p@) by {
                assert(s@.subrange(s@.len() - p@.len(), s@.len() as int)[i as int] != p@[
                    i as int
                ]);
            }
            return false;
        }
        i += 1;
    }
    proof {
        assert(s@.subrange(s@.len() - p@.len(), s@.len() as int) =~= p@);
    }
    true
}

/// Does the needle `n` occur as a contiguous subsequence of `h`?
pub open spec fn spec_contains_seq(h: Seq<char>, n: Seq<char>) -> bool {
    exists|i: int|
        0 <= i && i + n.len() <= h.len() && #[trigger] h.subrange(i, i + n.len() as int) == n
}

pub fn contains_str(h: &str, n: &str) -> (r: bool)
    ensures
        r == spec_contains_seq(h@, n@),
{
    let h_len = h.unicode_len();
    let n_len = n.unicode_len();
    if n_len > h_len {
        return false;
    }
    if n_len == 0 {
        proof {
            assert(h@.subrange(0, 0 + n@.len() as int) =~= n@);
        }
        return true;
    }
    let mut i: usize = 0;
    while i <= h_len - n_len
        invariant
            h_len == h@.len(),
            n_len == n@.len(),
            0 < n_len <= h_len,
            i <= h_len - n_len + 1,
            forall|k: int|
                0 <= k < i ==> #[trigger] h@.subrange(k, k + n@.len() as int) != n@,
        decreases h_len - i,
    {
        let mut j: usize = 0;
        let mut matched = true;
        while j < n_len
            invariant
                j <= n_len,
                h_len == h@.len(),
                n_len == n@.len(),
                i + n_len <= h_len,
                matched ==> forall|k: int| 0 <= k < j ==> h@[i + k] == n@[k],
                !matched ==> h@.subrange(i as int, i + n@.len() as int) != n@,
            decreases n_len - j,
        {
            if h.get_char(i + j) != n.get_char(j) {
                proof {
                    assert(h@.subrange(i as int, i + n@.len() as int)[j as int] != n@[
                        j as int
                    ]);
                }
                matched = false;
                j = n_len;
            } else {
                j += 1;
            }
        }
        if matched {
            proof {
                assert(h@.subrange(i as int, i + n@.len() as int) =~= n@);
            }
            return true;
        }
        i += 1;
    }
    false
}

/// ASCII lower-casing of one character; other characters are unchanged.
pub open spec fn lower_char(c: char) -> char {
    match c {
        'A' => 'a',
        'B' => 'b',
        'C' => 'c',
        'D' => 'd',
        'E' => 'e',
        'F' => 'f',
        'G' => 'g',
        'H' => 'h',
        'I' => 'i',
        'J' => 'j',
        'K' => 'k',
        'L' => 'l',
        'M' => 'm',
        'N' => 'n',
        'O' => 'o',
        'P' => 'p',
        'Q' => 'q',
        'R' => 'r',
        'S' => 's',
        'T' => 't',
        'U' => 'u',
        'V' => 'v',
        'W' => 'w',
        'X' => 'x',
        'Y' => 'y',
        'Z' => 'z',
        _ => c,
    }
}

/// ASCII lower-casing of a whole character sequence.
pub open spec fn lower_seq(s: Seq<char>) -> Seq<char> {
    s.map_values(|c: char| lower_char(c))
}

fn lower_char_exec(c: char) -> (r: char)
    ensures
        r == lower_char(c),
{
    match c {
        'A' => 'a',
        'B' => 'b',
        'C' => 'c',
        'D' => 'd',
        'E' => 'e',
        'F' => 'f',
        'G' => 'g',
        'H' => 'h',
        'I' => 'i',
        'J' => 'j',
        'K' => 'k',
        'L' => 'l',
        'M' => 'm',
        'N' => 'n',
        'O' => 'o',
        'P' => 'p',
        'Q' => 'q',
        'R' => 'r',
        'S' => 's',
        'T' => 't',
        'U' => 'u',
        'V' => 'v',
        'W' => 'w',
        'X' => 'x',
        'Y' => 'y',
        'Z' => 'z',
        _ => c,
    }
}

/// ASCII-case-insensitive equality.
pub fn eq_ignore_case(a: &str, b: &str) -> (r: bool)
    ensures
        r == (lower_seq(a@) == lower_seq(b@)),
{
    let a_len = a.unicode_len();
    let b_len = b.unicode_len();
    if a_len != b_len {
        assert(lower_seq(a@).len() != lower_seq(b@).len());
        return false;
    }
    let mut i: usize = 0;
    while i < a_len
        invariant
            i <= a_len,
            a_len == a@.len(),
            b_len == b@.len(),
            a_len == b_len,
            forall|k: int| 0 <= k < i ==> lower_seq(a@)[k] == lower_seq(b@)[k],
        decreases a_len - i,
    {
        if lower_char_exec(a.get_char(i)) != lower_char_exec(b.get_char(i)) {
            assert(lower_seq(a@)[i as int] != lower_seq(b@)[i as int]);
            return false;
        }
        i += 1;
    }
    proof {
        assert(lower_seq(a@) =~= lower_seq(b@));
    }
    true
}

/// ASCII-case-insensitive substring search.
pub fn contains_ignore_case(h: &str, n: &str) -> (r: bool)
    ensures
        r == spec_contains_seq(lower_seq(h@), lower_seq(n@)),
{
    let hl = to_lowercase_ascii(h);
    let nl = to_lowercase_ascii(n);
    contains_str(hl.as_str(), nl.as_str())
}

/// ASCII lower-casing of a whole string.
pub fn to_lowercase_ascii(s: &str) -> (r: String)
    ensures
        r@ == lower_seq(s@),
{
    let len = s.unicode_len();
    let mut out = String::new();
    let mut i: usize = 0;
    while i < len
        invariant
            i <= len,
            len == s@.len(),
            out@ == lower_seq(s@.subrange(0, i as int)),
        decreases len - i,
    {
        let c = lower_char_exec(s.get_char(i));
        push_char(&mut out, c);
        proof {
            assert(out@ =~= lower_seq(s@.subrange(0, i + 1)));
        }
        i += 1;
    }
    proof {
        assert(s@.subrange(0, len as int) =~= s@);
    }
    out
}

/// Appends one character to a string.
///
/// Relies on `String::push` of std, which is documented to append the
/// given character to the end of the string.
#[verifier::external_body]
pub fn push_char(s: &mut String, c: char)
    ensures
        final(s)@ == old(s)@.push(c),
{
    s.push(c);
}

/// Length of the run of non-whitespace characters at the head of `s`.
pub open spec fn token_len(s: Seq<char>) -> int
    decreases s.len(),
{
    if s.len() == 0 || is_ws(s[0]) {
        0
    } else {
        1 + token_len(s.drop_first())
    }
}

pub proof fn lemma_token_len_bounds(s: Seq<char>)
    ensures
        0 <= token_len(s) <= s.len(),
    decreases s.len(),
{
    if s.len() == 0 || is_ws(s[0]) {
    } else {
        lemma_token_len_bounds(s.drop_first());
    }
}

/// The whitespace-separated tokens of `s`, in order.
pub open spec fn split_ws(s: Seq<char>) -> Seq<Seq<char>>
    decreases s.len(),
    via split_ws_decreases
{
    if s.len() == 0 {
        Seq::empty()
    } else if is_ws(s[0]) {
        split_ws(s.drop_first())
    } else {
        seq![s.take(token_len(s))] + split_ws(s.skip(token_len(s)))
    }
}

#[via_fn]
proof fn split_ws_decreases(s: Seq<char>) {
    lemma_token_len_bounds(s);
    if s.len() > 0 && !is_ws(s[0]) {
        lemma_token_len_bounds(s.drop_first());
    }
}

/// If the first `j` characters of `s` are not whitespace and position `j`
/// is the end of the string or whitespace, the head token is exactly `j` long.
pub proof fn lemma_token_len_run(s: Seq<char>, j: int)
    requires
        0 <= j <= s.len(),
        forall|k: int| 0 <= k < j ==> !is_ws(s[k]),
        j == s.len() || is_ws(s[j]),
    ensures
        token_len(s) == j,
    decreases j,
{
    if j == 0 {
    } else {
        assert(!is_ws(s[0]));
        lemma_token_len_run(s.drop_first(), j - 1);
    }
}

/// Splits a string into whitespace-separated tokens.
pub fn split_whitespace(s: &str) -> (r: Vec<String>)
    ensures
        r@.map_values(|t: String| t@) == split_ws(s@),
{
    let len = s.unicode_len();
    let mut out: Vec<String> = Vec::new();
    proof {
        assert(s@.skip(0) =~= s@);
        assert(out@.map_values(|t: String| t@) =~= Seq::<Seq<char>>::empty());
        assert(Seq::<Seq<char>>::empty() + split_ws(s@) =~= split_ws(s@));
    }
    let mut i: usize = 0;
    while i < len
        invariant
            i <= len,
            len == s@.len(),
            out@.map_values(|t: String| t@) + split_ws(s@.skip(i as int)) == split_ws(s@),
        decreases len - i,
    {
        if is_ws_char(s.get_char(i)) {
            proof {
                assert(s@.skip(i as int).drop_first() =~= s@.skip(i + 1));
            }
            i += 1;
        } else {
            let mut j: usize = i + 1;
            while j < len && !is_ws_char(s.get_char(j))
                invariant
                    i < j <= len,
                    len == s@.len(),
                    forall|k: int| i <= k < j ==> !is_ws(s@[k]),
                decreases len - j,
            {
                j += 1;
            }
            let token = s.substring_char(i, j);
            proof {
                let rest = s@.skip(i as int);
                assert forall|k: int| 0 <= k < j - i implies !is_ws(rest[k]) by {
                    assert(rest[k] == s@[i + k]);
                }
                if j < len {
                    assert(is_ws(rest[j - i]));
                }
                lemma_token_len_run(rest, j - i);
                assert(rest.take(j - i) =~= s@.subrange(i as int, j as int));
                assert(rest.skip(j - i) =~= s@.skip(j as int));
                assert(split_ws(rest) == seq![token@] + split_ws(s@.skip(j as int)));
            }
            let ghost pre = out@.map_values(|t: String| t@);
            out.push(token.to_owned());
            proof {
                assert(out@.map_values(|t: String| t@) =~= pre + seq![token@]);
                assert((pre + seq![token@]) + split_ws(s@.skip(j as int)) =~= pre + (seq![
                    token@,
                ] + split_ws(s@.skip(j as int))));
            }
            i = j;
        }
    }
    proof {
        assert(s@.skip(len as int) =~= Seq::<char>::empty());
        assert(out@.map_values(|t: String| t@) =~= split_ws(s@));
    }
    out
}

/// Number of whitespace characters at the head of `s`.
pub open spec fn leading_ws(s: Seq<char>) -> int
    decreases s.len(),
{
    if s.len() == 0 || !is_ws(s[0]) {
        0
    } else {
        1 + leading_ws(s.drop_first())
    }
}

/// Position just after the last non-whitespace character of `s`.
pub open spec fn end_of_content(s: Seq<char>) -> int
    decreases s.len(),
{
    if s.len() == 0 || !is_ws(s.last()) {
        s.len() as int
    } else {
        end_of_content(s.drop_last())
    }
}

/// `s` with leading and trailing whitespace removed.
pub open spec fn spec_trim(s: Seq<char>) -> Seq<char> {
    if end_of_content(s) <= leading_ws(s) {
        Seq::empty()
    } else {
        s.subrange(leading_ws(s), end_of_content(s))
    }
}

proof fn lemma_leading_ws_run(s: Seq<char>, j: int)
    requires
        0 <= j <= s.len(),
        forall|k: int| 0 <= k < j ==> is_ws(s[k]),
        j == s.len() || !is_ws(s[j]),
    ensures
        leading_ws(s) == j,
    decreases j,
{
    if j == 0 {
    } else {
        assert(is_ws(s[0]));
        lemma_leading_ws_run(s.drop_first(), j - 1);
    }
}

proof fn lemma_end_of_content_run(s: Seq<char>, j: int)
    requires
        0 <= j <= s.len(),
        forall|k: int| j <= k < s.len() ==> is_ws(s[k]),
        j == 0 || !is_ws(s[j - 1]),
    ensures
        end_of_content(s) == j,
    decreases s.len() - j,
{
    if j == s.len() {
    } else {
        assert(is_ws(s.last()));
        assert forall|k: int| j <= k < s.drop_last().len() implies is_ws(s.drop_last()[k]) by {
            assert(s.drop_last()[k] == s[k]);
        }
        lemma_end_of_content_run(s.drop_last(), j);
    }
}

/// Removes leading and trailing whitespace.
pub fn trim(s: &str) -> (r: &str)
    ensures
        r@ == spec_trim(s@),
{
    let len = s.unicode_len();
    let mut b: usize = 0;
    while b < len && is_ws_char(s.get_char(b))
        invariant
            b <= len,
            len == s@.len(),
            forall|k: int| 0 <= k < b ==> is_ws(s@[k]),
        decreases len - b,
    {
        b += 1;
    }
    proof {
        lemma_leading_ws_run(s@, b as int);
    }
    if b == len {
        let r = s.substring_char(0, 0);
        proof {
            lemma_end_of_content_bounds(s@);
            assert(r@ =~= spec_trim(s@));
        }
        return r;
    }
    let mut e: usize = len;
    while b < e && is_ws_char(s.get_char(e - 1))
        invariant
            b <= e <= len,
            len == s@.len(),
            forall|k: int| e <= k < len ==> is_ws(s@[k]),
        decreases e,
    {
        e -= 1;
    }
    proof {
        assert(!is_ws(s@[b as int]));
        if e == b {
            assert(is_ws(s@[b as int]));
        }
        assert(b < e);
        assert(!is_ws(s@[e - 1]));
        lemma_end_of_content_run(s@, e as int);
    }
    let r = s.substring_char(b, e);
    proof {
        assert(r@ =~= spec_trim(s@));
    }
    r
}

proof fn lemma_end_of_content_bounds(s: Seq<char>)
    ensures
        0 <= end_of_content(s) <= s.len(),
    decreases s.len(),
{
    if s.len() == 0 || !is_ws(s.last()) {
    } else {
        lemma_end_of_content_bounds(s.drop_last());
    }
}

/// The decimal digit character for a value in `0 ..= 9`.
pub open spec fn dec_digit(d: int) -> char {
    if d == 0 {
        '0'
    } else if d == 1 {
        '1'
    } else if d == 2 {
        '2'
    } else if d == 3 {
        '3'
    } else if d == 4 {
        '4'
    } else if d == 5 {
        '5'
    } else if d == 6 {
        '6'
    } else if d == 7 {
        '7'
    } else if d == 8 {
        '8'
    } else {
        '9'
    }
}

/// The decimal rendering of a non-negative integer, without sign
/// and without leading zeros (`0` renders as `"0"`).
pub open spec fn dec_str(n: int) -> Seq<char>
    decreases n,
{
    if n <= 9 {
        seq![dec_digit(n)]
    } else {
        dec_str(n / 10).push(dec_digit(n % 10))
    }
}

fn digit_char(d: u64) -> (r: char)
    requires
        d <= 9,
    ensures
        r == dec_digit(d as int),
{
    if d == 0 {
        '0'
    } else if d == 1 {
        '1'
    } else if d == 2 {
        '2'
    } else if d == 3 {
        '3'
    } else if d == 4 {
        '4'
    } else if d == 5 {
        '5'
    } else if d == 6 {
        '6'
    } else if d == 7 {
        '7'
    } else if d == 8 {
        '8'
    } else {
        '9'
    }
}

/// Renders a non-negative integer in decimal.
pub fn u64_to_string(n: u64) -> (r: String)
    ensures
        r@ == dec_str(n as int),
    decreases n,
{
    if n <= 9 {
        let mut out = String::new();
        push_char(&mut out, digit_char(n));
        proof {
            assert(out@ =~= dec_str(n as int));
        }
        out
    } else {
        proof {
            assert(n / 10 < n) by (nonlinear_arith)
                requires
                    n >= 10,
            ;
        }
        let mut out = u64_to_string(n / 10);
        push_char(&mut out, digit_char(n % 10));
        proof {
            assert(out@ =~= dec_str(n as int));
        }
        out
    }
}

/// The decimal rendering of `n`, left-padded with zeros to at least
/// `width` characters.
pub open spec fn padded_dec_str(n: int, width: int) -> Seq<char> {
    if dec_str(n).len() >= width {
        dec_str(n)
    } else {
        Seq::new((width - dec_str(n).len()) as nat, |i: int| '0') + dec_str(n)
    }
}

/// Renders `n` zero-padded to at least `width` characters
/// (used for calendar fields: 4-digit years, 2-digit months and days).
pub fn u64_to_padded_string(n: u64, width: usize) -> (r: String)
    requires
        width <= 8,
    ensures
        r@ == padded_dec_str(n as int, width as int),
{
    let digits = u64_to_string(n);
    let dlen = digits.as_str().unicode_len();
    if dlen >= width {
        return digits;
    }
    let mut out = String::new();
    let mut k: usize = 0;
    proof {
        assert(out@ =~= Seq::new(0nat, |i: int| '0'));
    }
    while k < width - dlen
        invariant
            k <= width - dlen,
            dlen == dec_str(n as int).len(),
            dlen < width,
            out@ == Seq::new(k as nat, |i: int| '0'),
        decreases width - dlen - k,
    {
        push_char(&mut out, '0');
        proof {
            assert(out@ =~= Seq::new((k + 1) as nat, |i: int| '0'));
        }
        k += 1;
    }
    out.append(digits.as_str());
    proof {
        assert(out@ =~= padded_dec_str(n as int, width as int));
    }
    out
}

/// Index of the first occurrence of `sep` in `s`, or `s.len()` if none.
pub open spec fn first_index_of(s: Seq<char>, sep: char) -> int
    decreases s.len(),
{
    if s.len() == 0 {
        0
    } else if s[0] == sep {
        0
    } else {
        1 + first_index_of(s.drop_first(), sep)
    }
}

pub proof fn lemma_first_index_of_bounds(s: Seq<char>, sep: char)
    ensures
        0 <= first_index_of(s, sep) <= s.len(),
    decreases s.len(),
{
    if s.len() == 0 || s[0] == sep {
    } else {
        lemma_first_index_of_bounds(s.drop_first(), sep);
    }
}

pub proof fn lemma_first_index_of_run(s: Seq<char>, sep: char, j: int)
    requires
        0 <= j <= s.len(),
        forall|k: int| 0 <= k < j ==> s[k] != sep,
        j == s.len() || s[j] == sep,
    ensures
        first_index_of(s, sep) == j,
    decreases j,
{
    if j == 0 {
    } else {
        assert(s[0] != sep);
        lemma_first_index_of_run(s.drop_first(), sep, j - 1);
    }
}

/// The parts of `s` separated by `sep`; empty parts are kept, and
/// there is always at least one part.
pub open spec fn split_char_seq(s: Seq<char>, sep: char) -> Seq<Seq<char>>
    decreases s.len(),
    via split_char_seq_decreases
{
    let k = first_index_of(s, sep);
    if k == s.len() {
        seq![s]
    } else {
        seq![s.take(k)] + split_char_seq(s.skip(k + 1), sep)
    }
}

#[via_fn]
proof fn split_char_seq_decreases(s: Seq<char>, sep: char) {
    lemma_first_index_of_bounds(s, sep);
}

/// Splits a string on a separator character, keeping empty parts.
pub fn split_char(s: &str, sep: char) -> (r: Vec<String>)
    ensures
        r@.map_values(|t: String| t@) == split_char_seq(s@, sep),
        r@.len() >= 1,
{
    let len = s.unicode_len();
    let mut out: Vec<String> = Vec::new();
    let mut i: usize = 0;
    proof {
        assert(s@.skip(0) =~= s@);
        assert(out@.map_values(|t: String| t@) =~= Seq::<Seq<char>>::empty());
    }
    loop
        invariant
            i <= len,
            len == s@.len(),
            out@.map_values(|t: String| t@) + split_char_seq(s@.skip(i as int), sep)
                == split_char_seq(s@, sep),
            i > 0 ==> out@.len() >= 1,
            i == 0 ==> out@.len() == 0,
        decreases len - i + 1,
    {
        let mut j: usize = i;
        while j < len && s.get_char(j) != sep
            invariant
                i <= j <= len,
                len == s@.len(),
                forall|k: int| i <= k < j ==> s@[k] != sep,
            decreases len - j,
        {
            j += 1;
        }
        let part = s.substring_char(i, j);
        let ghost rest = s@.skip(i as int);
        proof {
            assert forall|k: int| 0 <= k < j - i implies rest[k] != sep by {
                assert(rest[k] == s@[i + k]);
            }
            if j < len {
                assert(rest[j - i] == s@[j as int]);
            }
            lemma_first_index_of_run(rest, sep, j - i);
            assert(rest.take(j - i) =~= s@.subrange(i as int, j as int));
        }
        let ghost pre = out@.map_values(|t: String| t@);
        out.push(part.to_owned());
        proof {
            assert(out@.map_values(|t: String| t@) =~= pre.push(part@));
        }
        if j == len {
            proof {
                assert(rest.take(j - i) =~= rest);
                assert(split_char_seq(rest, sep) == seq![rest]);
                assert(pre.push(part@) =~= pre + seq![part@]);
                assert(out@.map_values(|t: String| t@) =~= split_char_seq(s@, sep));
            }
            return out;
        }
        proof {
            assert(rest.skip(j - i + 1) =~= s@.skip(j + 1));
            assert(split_char_seq(rest, sep) == seq![part@] + split_char_seq(
                s@.skip(j + 1), sep));
            assert(pre.push(part@) + split_char_seq(s@.skip(j + 1), sep) =~= pre + (seq![
                part@,
            ] + split_char_seq(s@.skip(j + 1), sep)));
        }
        i = j + 1;
    }
}

/// ASCII upper-casing of one character; other characters are unchanged.
pub open spec fn upper_char(c: char) -> char {
    match c {
        'a' => 'A',
        'b' => 'B',
        'c' => 'C',
        'd' => 'D',
        'e' => 'E',
        'f' => 'F',
        'g' => 'G',
        'h' => 'H',
        'i' => 'I',
        'j' => 'J',
        'k' => 'K',
        'l' => 'L',
        'm' => 'M',
        'n' => 'N',
        'o' => 'O',
        'p' => 'P',
        'q' => 'Q',
        'r' => 'R',
        's' => 'S',
        't' => 'T',
        'u' => 'U',
        'v' => 'V',
        'w' => 'W',
        'x' => 'X',
        'y' => 'Y',
        'z' => 'Z',
        _ => c,
    }
}

/// `s` with its first character upper-cased.
pub open spec fn spec_capitalize(s: Seq<char>) -> Seq<char> {
    if s.len() == 0 {
        s
    } else {
        seq![upper_char(s[0])] + s.drop_first()
    }
}

/// Upper-cases the first character of a string.
pub fn capitalize(s: &str) -> (r: String)
    ensures
        r@ == spec_capitalize(s@),
{
    let len = s.unicode_len();
    if len == 0 {
        let r = String::new();
        proof {
            assert(r@ =~= spec_capitalize(s@));
        }
        return r;
    }
    let first = s.get_char(0);
    let up = match first {
        'a' => 'A',
        'b' => 'B',
        'c' => 'C',
        'd' => 'D',
        'e' => 'E',
        'f' => 'F',
        'g' => 'G',
        'h' => 'H',
        'i' => 'I',
        'j' => 'J',
        'k' => 'K',
        'l' => 'L',
        'm' => 'M',
        'n' => 'N',
        'o' => 'O',
        'p' => 'P',
        'q' => 'Q',
        'r' => 'R',
        's' => 'S',
        't' => 'T',
        'u' => 'U',
        'v' => 'V',
        'w' => 'W',
        'x' => 'X',
        'y' => 'Y',
        'z' => 'Z',
        other => other,
    };
    let mut out = String::new();
    push_char(&mut out, up);
    let tail = s.substring_char(1, len);
    out.append(tail);
    proof {
        assert(tail@ =~= s@.drop_first());
        assert(out@ =~= spec_capitalize(s@));
    }
    out
}

/// Does the vector hold a string equal to `x`?
pub fn vec_contains_str(v: &Vec<String>, x: &str) -> (r: bool)
    ensures
        r == v@.map_values(|t: String| t@).contains(x@),
{
    let ghost views = v@.map_values(|t: String| t@);
    let n = v.len();
    let mut i: usize = 0;
    while i < n
        invariant
            i <= n,
            n == v@.len(),
            views == v@.map_values(|t: String| t@),
            forall|k: int| 0 <= k < i ==> views[k] != x@,
        decreases n - i,
    {
        if str_eq(v[i].as_str(), x) {
            proof {
                assert(views[i as int] == x@);
            }
            return true;
        }
        i += 1;
    }
    proof {
        if views.contains(x@) {
            let k = choose|k: int| 0 <= k < views.len() && views[k] == x@;
            assert(views[k] == x@);
        }
    }
    false
}

/// Is `c` a decimal digit?
pub open spec fn is_digit(c: char) -> bool {
    48 <= c as u32 <= 57
}

/// The value of a decimal digit character.
pub open spec fn digit_val(c: char) -> int {
    c as u32 - 48
}

pub open spec fn all_digits(s: Seq<char>) -> bool {
    forall|i: int| 0 <= i < s.len() ==> is_digit(#[trigger] s[i])
}

/// The value of a digit string, most significant digit first.
pub open spec fn digits_val(s: Seq<char>) -> int
    decreases s.len(),
{
    if s.len() == 0 {
        0
    } else {
        10 * digits_val(s.drop_last()) + digit_val(s.last())
    }
}

proof fn lemma_digits_val_nonneg(s: Seq<char>)
    requires
        all_digits(s),
    ensures
        digits_val(s) >= 0,
    decreases s.len(),
{
    if s.len() > 0 {
        assert(all_digits(s.drop_last())) by {
            assert(forall|i: int|
                0 <= i < s.drop_last().len() ==> s.drop_last()[i] == s[i]);
        }
        lemma_digits_val_nonneg(s.drop_last());
        assert(is_digit(s.last()));
    }
}

/// A longer prefix of a digit string never has a smaller value.
proof fn lemma_digits_val_prefix_le(s: Seq<char>, i: int, j: int)
    requires
        all_digits(s),
        0 <= i <= j <= s.len(),
    ensures
        digits_val(s.subrange(0, i)) <= digits_val(s.subrange(0, j)),
    decreases j - i,
{
    if i < j {
        lemma_digits_val_prefix_le(s, i, j - 1);
        let pre = s.subrange(0, j - 1);
        let cur = s.subrange(0, j);
        assert(cur.drop_last() =~= pre);
        assert(cur.last() == s[j - 1]);
        assert(all_digits(pre)) by {
            assert(forall|k: int| 0 <= k < pre.len() ==> pre[k] == s[k]);
        }
        lemma_digits_val_nonneg(pre);
        assert(is_digit(s[j - 1]));
    }
}

/// The unsigned decimal strings this crate accepts: one or more
/// digits whose value fits in 64 bits, nothing else.
pub open spec fn spec_parse_u64(s: Seq<char>) -> Option<u64> {
    if s.len() >= 1 && all_digits(s) && digits_val(s) <= u64::MAX {
        Some(digits_val(s) as u64)
    } else {
        None
    }
}

/// Parses an unsigned decimal string whose value fits in 64 bits.
pub fn parse_u64(s: &str) -> (r: Option<u64>)
    ensures
        r == spec_parse_u64(s@),
{
    let len = s.unicode_len();
    if len == 0 {
        return None;
    }
    let mut acc: u64 = 0;
    let mut i: usize = 0;
    proof {
        assert(s@.subrange(0, 0) =~= Seq::<char>::empty());
    }
    while i < len
        invariant
            i <= len,
            1 <= len,
            len == s@.len(),
            all_digits(s@.subrange(0, i as int)),
            acc == digits_val(s@.subrange(0, i as int)),
        decreases len - i,
    {
        let c = s.get_char(i);
        let cv = c as u32;
        if cv < 48 || cv > 57 {
            assert(!is_digit(s@[i as int]));
            return None;
        }
        let d = (cv - 48) as u64;
        let headroom = (u64::MAX - d) / 10;
        proof {
            vstd::arithmetic::div_mod::lemma_fundamental_div_mod((u64::MAX - d) as int,
                10);
            vstd::arithmetic::div_mod::lemma_mod_bound((u64::MAX - d) as int, 10);
            let pre = s@.subrange(0, i as int);
            let cur = s@.subrange(0, i + 1);
            assert(cur.drop_last() =~= pre);
            assert(cur.last() == s@[i as int]);
            assert(forall|k: int| 0 <= k < cur.len() ==> is_digit(cur[k]));
        }
        if acc > headroom {
            // The next digit pushes the value past 64 bits, and every
            // longer digit prefix only grows, so no suffix can parse.
            proof {
                let cur = s@.subrange(0, i + 1);
                assert(digits_val(cur) > u64::MAX);
                if all_digits(s@) {
                    lemma_digits_val_prefix_le(s@, i + 1, len as int);
                    assert(s@.subrange(0, len as int) =~= s@);
                }
            }
            return None;
        }
        acc = acc * 10 + d;
        i += 1;
    }
    proof {
        assert(s@.subrange(0, len as int) =~= s@);
    }
    Some(acc)
}

/// The signed decimal strings this crate accepts: an optional `-`,
/// then digits, with the value within the signed 64-bit magnitudes
/// the formatting logic takes (the most negative value stays out).
pub open spec fn spec_parse_i64(s: Seq<char>) -> Option<i64> {
    if s.len() >= 1 && s[0] == '-' {
        match spec_parse_u64(s.drop_first()) {
            Some(v) => if v <= i64::MAX {
                Some((-(v as int)) as i64)
            } else {
                None
            },
            None => None,
        }
    } else {
        match spec_parse_u64(s) {
            Some(v) => if v <= i64::MAX {
                Some(v as i64)
            } else {
                None
            },
            None => None,
        }
    }
}

/// Parses a signed decimal string into the 64-bit range.
pub fn parse_i64(s: &str) -> (r: Option<i64>)
    ensures
        r == spec_parse_i64(s@),
{
    let len = s.unicode_len();
    if len >= 1 && s.get_char(0) == '-' {
        let rest = s.substring_char(1, len);
        proof {
            assert(rest@ =~= s@.drop_first());
        }
        match parse_u64(rest) {
            Some(v) => {
                if v <= (i64::MAX as u64) {
                    Some(-(v as i64))
                } else {
                    None
                }
            },
            None => None,
        }
    } else {
        match parse_u64(s) {
            Some(v) => {
                if v <= (i64::MAX as u64) {
                    Some(v as i64)
                } else {
                    None
                }
            },
            None => None,
        }
    }
}

/// The concatenation of `parts` with `sep` between adjacent elements.
pub open spec fn join_with(parts: Seq<Seq<char>>, sep: Seq<char>) -> Seq<char>
    decreases parts.len(),
{
    if parts.len() == 0 {
        Seq::empty()
    } else if parts.len() == 1 {
        parts[0]
    } else {
        parts[0] + sep + join_with(parts.drop_first(), sep)
    }
}

proof fn lemma_join_with_push(parts: Seq<Seq<char>>, sep: Seq<char>, x: Seq<char>)
    requires
        parts.len() >= 1,
    ensures
        join_with(parts.push(x), sep) == join_with(parts, sep) + sep + x,
    decreases parts.len(),
{
    if parts.len() == 1 {
        assert(parts.push(x)[0] == parts[0]);
        assert(parts.push(x).drop_first() =~= seq![x]);
        assert(join_with(seq![x], sep) == seq![x][0]);
        assert(join_with(parts.push(x), sep) =~= parts[0] + sep + x);
        assert(join_with(parts, sep) + sep + x =~= parts[0] + sep + x);
    } else {
        assert(parts.push(x).drop_first() =~= parts.drop_first().push(x));
        lemma_join_with_push(parts.drop_first(), sep, x);
        assert(join_with(parts.push(x), sep) =~= join_with(parts, sep) + sep + x);
    }
}

/// Joins strings with a separator.
pub fn join_strings(parts: &Vec<String>, sep: &str) -> (r: String)
    ensures
        r@ == join_with(parts@.map_values(|p: String| p@), sep@),
{
    let ghost views = parts@.map_values(|p: String| p@);
    let mut out = String::new();
    let mut i: usize = 0;
    if parts.len() == 0 {
        proof {
            assert(out@ =~= join_with(views, sep@));
        }
        return out;
    }
    out.append(parts[0].as_str());
    i = 1;
    proof {
        assert(views.subrange(0, 1) =~= seq![views[0]]);
        assert(out@ =~= join_with(views.subrange(0, 1), sep@));
    }
    while i < parts.len()
        invariant
            1 <= i <= parts.len(),
            views == parts@.map_values(|p: String| p@),
            views.len() == parts@.len(),
            out@ == join_with(views.subrange(0, i as int), sep@),
        decreases parts.len() - i,
    {
        out.append(sep);
        out.append(parts[i].as_str());
        proof {
            let pre = views.subrange(0, i as int);
            lemma_join_with_push(pre, sep@, views[i as int]);
            assert(pre.push(views[i as int]) =~= views.subrange(0, i + 1));
        }
        i += 1;
    }
    proof {
        assert(views.subrange(0, views.len() as int) =~= views);
    }
    out
}

} // verus!

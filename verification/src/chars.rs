//! Character classes and low-level text helpers shared by the grammars.

use vstd::prelude::*;

verus! {

/// ASCII decimal digit.
pub open spec fn is_digit_char(c: char) -> bool {
    '0' <= c && c <= '9'
}

/// ASCII letter.
pub open spec fn is_alpha_char(c: char) -> bool {
    ('a' <= c && c <= 'z') || ('A' <= c && c <= 'Z')
}

/// ASCII letter or digit.
pub open spec fn is_alnum_char(c: char) -> bool {
    is_alpha_char(c) || is_digit_char(c)
}

/// Separator accepted between version segments.
pub open spec fn is_sep_char(c: char) -> bool {
    c == '-' || c == '_' || c == '.'
}

/// Blank characters that the requirement grammar skips.
pub open spec fn is_space_char(c: char) -> bool {
    c == ' ' || c == '\t'
}

/// Numeric value of an ASCII digit.
pub open spec fn digit_val(c: char) -> int {
    c as int - '0' as int
}

/// Executable test for an ASCII digit.
pub fn digit_char(c: char) -> (r: bool)
    ensures
        r == is_digit_char(c),
{
    '0' <= c && c <= '9'
}

/// Executable test for an ASCII letter.
pub fn alpha_char(c: char) -> (r: bool)
    ensures
        r == is_alpha_char(c),
{
    ('a' <= c && c <= 'z') || ('A' <= c && c <= 'Z')
}

/// Executable test for an ASCII letter or digit.
pub fn alnum_char(c: char) -> (r: bool)
    ensures
        r == is_alnum_char(c),
{
    alpha_char(c) || digit_char(c)
}

/// Executable test for a segment separator.
pub fn sep_char(c: char) -> (r: bool)
    ensures
        r == is_sep_char(c),
{
    c == '-' || c == '_' || c == '.'
}

/// Executable test for a blank.
pub fn space_char(c: char) -> (r: bool)
    ensures
        r == is_space_char(c),
{
    c == ' ' || c == '\t'
}

/// The low byte a character truncates to.
pub open spec fn low_byte(c: char) -> int {
    (c as int) % 256
}

/// Whether a character's low byte is an ASCII digit.
pub open spec fn is_digit_byte(c: char) -> bool {
    48 <= low_byte(c) && low_byte(c) <= 57
}

/// Whether a character's low byte is an ASCII letter.
pub open spec fn is_alpha_byte(c: char) -> bool {
    (65 <= low_byte(c) && low_byte(c) <= 90) || (97 <= low_byte(c) && low_byte(c) <= 122)
}

/// Whether a character's low byte is an ASCII letter or digit.
pub open spec fn is_alnum_byte(c: char) -> bool {
    is_alpha_byte(c) || is_digit_byte(c)
}

/// Whether a character's low byte is an ASCII hexadecimal digit.
pub open spec fn is_hex_byte(c: char) -> bool {
    is_digit_byte(c) || (65 <= low_byte(c) && low_byte(c) <= 70) || (97 <= low_byte(c)
        && low_byte(c) <= 102)
}

/// Executable low-byte digit test.
pub fn digit_byte(c: char) -> (r: bool)
    ensures
        r == is_digit_byte(c),
{
    let b: u32 = (c as u32) % 256;
    48 <= b && b <= 57
}

/// Executable low-byte letter test.
pub fn alpha_byte(c: char) -> (r: bool)
    ensures
        r == is_alpha_byte(c),
{
    let b: u32 = (c as u32) % 256;
    (65 <= b && b <= 90) || (97 <= b && b <= 122)
}

/// Executable low-byte letter-or-digit test.
pub fn alnum_byte(c: char) -> (r: bool)
    ensures
        r == is_alnum_byte(c),
{
    alpha_byte(c) || digit_byte(c)
}

/// Executable low-byte hexadecimal test.
pub fn hex_byte(c: char) -> (r: bool)
    ensures
        r == is_hex_byte(c),
{
    let b: u32 = (c as u32) % 256;
    (48 <= b && b <= 57) || (65 <= b && b <= 70) || (97 <= b && b <= 102)
}

/// ASCII lower-casing of one character; anything but `A`-`Z` is unchanged.
pub open spec fn lower_char(c: char) -> char {
    if c == 'A' {
        'a'
    } else if c == 'B' {
        'b'
    } else if c == 'C' {
        'c'
    } else if c == 'D' {
        'd'
    } else if c == 'E' {
        'e'
    } else if c == 'F' {
        'f'
    } else if c == 'G' {
        'g'
    } else if c == 'H' {
        'h'
    } else if c == 'I' {
        'i'
    } else if c == 'J' {
        'j'
    } else if c == 'K' {
        'k'
    } else if c == 'L' {
        'l'
    } else if c == 'M' {
        'm'
    } else if c == 'N' {
        'n'
    } else if c == 'O' {
        'o'
    } else if c == 'P' {
        'p'
    } else if c == 'Q' {
        'q'
    } else if c == 'R' {
        'r'
    } else if c == 'S' {
        's'
    } else if c == 'T' {
        't'
    } else if c == 'U' {
        'u'
    } else if c == 'V' {
        'v'
    } else if c == 'W' {
        'w'
    } else if c == 'X' {
        'x'
    } else if c == 'Y' {
        'y'
    } else if c == 'Z' {
        'z'
    } else {
        c
    }
}

/// ASCII lower-casing of a character sequence.
pub open spec fn lower_seq(s: Seq<char>) -> Seq<char> {
    s.map_values(|c: char| lower_char(c))
}

/// Executable ASCII lower-casing of one character.
pub fn to_lower_char(c: char) -> (r: char)
    ensures
        r == lower_char(c),
{
    if c == 'A' {
        'a'
    } else if c == 'B' {
        'b'
    } else if c == 'C' {
        'c'
    } else if c == 'D' {
        'd'
    } else if c == 'E' {
        'e'
    } else if c == 'F' {
        'f'
    } else if c == 'G' {
        'g'
    } else if c == 'H' {
        'h'
    } else if c == 'I' {
        'i'
    } else if c == 'J' {
        'j'
    } else if c == 'K' {
        'k'
    } else if c == 'L' {
        'l'
    } else if c == 'M' {
        'm'
    } else if c == 'N' {
        'n'
    } else if c == 'O' {
        'o'
    } else if c == 'P' {
        'p'
    } else if c == 'Q' {
        'q'
    } else if c == 'R' {
        'r'
    } else if c == 'S' {
        's'
    } else if c == 'T' {
        't'
    } else if c == 'U' {
        'u'
    } else if c == 'V' {
        'v'
    } else if c == 'W' {
        'w'
    } else if c == 'X' {
        'x'
    } else if c == 'Y' {
        'y'
    } else if c == 'Z' {
        'z'
    } else {
        c
    }
}

/// End of the run of decimal digits starting at `i`.
pub open spec fn digit_run_end(s: Seq<char>, i: int) -> int
    decreases s.len() - i,
{
    if i < s.len() && is_digit_char(s[i]) {
        digit_run_end(s, i + 1)
    } else {
        i
    }
}

/// End of the run of ASCII letters and digits starting at `i`.
pub open spec fn alnum_run_end(s: Seq<char>, i: int) -> int
    decreases s.len() - i,
{
    if i < s.len() && is_alnum_char(s[i]) {
        alnum_run_end(s, i + 1)
    } else {
        i
    }
}

/// End of the run of blanks starting at `i`.
pub open spec fn space_run_end(s: Seq<char>, i: int) -> int
    decreases s.len() - i,
{
    if i < s.len() && is_space_char(s[i]) {
        space_run_end(s, i + 1)
    } else {
        i
    }
}

/// Bounds of a digit run, and that it holds digits only.
pub proof fn lemma_digit_run(s: Seq<char>, i: int)
    requires
        0 <= i <= s.len(),
    ensures
        i <= digit_run_end(s, i) <= s.len(),
        forall|m: int| i <= m < digit_run_end(s, i) ==> is_digit_char(s[m]),
        digit_run_end(s, i) < s.len() ==> !is_digit_char(s[digit_run_end(s, i)]),
    decreases s.len() - i,
{
    if i < s.len() && is_digit_char(s[i]) {
        lemma_digit_run(s, i + 1);
    }
}

/// Bounds of an alphanumeric run, and that it holds letters and digits only.
pub proof fn lemma_alnum_run(s: Seq<char>, i: int)
    requires
        0 <= i <= s.len(),
    ensures
        i <= alnum_run_end(s, i) <= s.len(),
        forall|m: int| i <= m < alnum_run_end(s, i) ==> is_alnum_char(s[m]),
        alnum_run_end(s, i) < s.len() ==> !is_alnum_char(s[alnum_run_end(s, i)]),
    decreases s.len() - i,
{
    if i < s.len() && is_alnum_char(s[i]) {
        lemma_alnum_run(s, i + 1);
    }
}

/// Bounds of a blank run.
pub proof fn lemma_space_run(s: Seq<char>, i: int)
    requires
        0 <= i <= s.len(),
    ensures
        i <= space_run_end(s, i) <= s.len(),
    decreases s.len() - i,
{
    if i < s.len() && is_space_char(s[i]) {
        lemma_space_run(s, i + 1);
    }
}

/// The numeric value of the digits `s[i..j)`, most significant first.
pub open spec fn digits_val(s: Seq<char>, i: int, j: int) -> int
    decreases j - i,
{
    if i >= j {
        0
    } else {
        digits_val(s, i, j - 1) * 10 + digit_val(s[j - 1])
    }
}

/// A digit string's value is non-negative.
pub proof fn lemma_digits_val_nonneg(s: Seq<char>, i: int, j: int)
    requires
        i <= j,
        forall|m: int| i <= m < j ==> 0 <= #[trigger] digit_val(s[m]) <= 9,
    ensures
        0 <= digits_val(s, i, j),
    decreases j - i,
{
    if i < j {
        lemma_digits_val_nonneg(s, i, j - 1);
        assert(digits_val(s, i, j - 1) * 10 >= 0) by (nonlinear_arith)
            requires
                digits_val(s, i, j - 1) >= 0,
        ;
    }
}

/// A digit string's value grows with its length.
pub proof fn lemma_digits_val_bounds(s: Seq<char>, i: int, k: int, j: int)
    requires
        i <= k <= j,
        forall|m: int| i <= m < j ==> 0 <= #[trigger] digit_val(s[m]) <= 9,
    ensures
        0 <= digits_val(s, i, k) <= digits_val(s, i, j),
    decreases j - k,
{
    lemma_digits_val_nonneg(s, i, k);
    if k < j {
        lemma_digits_val_bounds(s, i, k, j - 1);
        assert(digits_val(s, i, j - 1) * 10 >= digits_val(s, i, j - 1)) by (nonlinear_arith)
            requires
                digits_val(s, i, j - 1) >= 0,
        ;
    }
}

/// Executable scan to the end of a digit run.
pub fn scan_digits(s: &str, i: usize) -> (j: usize)
    requires
        i <= s@.len(),
    ensures
        j == digit_run_end(s@, i as int),
        i <= j <= s@.len(),
{
    let n = s.unicode_len();
    let mut j = i;
    while j < n && digit_char(s.get_char(j))
        invariant
            i <= j <= n == s@.len(),
            digit_run_end(s@, i as int) == digit_run_end(s@, j as int),
        decreases n - j,
    {
        j += 1;
    }
    proof {
        lemma_digit_run(s@, i as int);
    }
    j
}

/// Executable scan to the end of an alphanumeric run.
pub fn scan_alnum(s: &str, i: usize) -> (j: usize)
    requires
        i <= s@.len(),
    ensures
        j == alnum_run_end(s@, i as int),
        i <= j <= s@.len(),
{
    let n = s.unicode_len();
    let mut j = i;
    while j < n && alnum_char(s.get_char(j))
        invariant
            i <= j <= n == s@.len(),
            alnum_run_end(s@, i as int) == alnum_run_end(s@, j as int),
        decreases n - j,
    {
        j += 1;
    }
    proof {
        lemma_alnum_run(s@, i as int);
    }
    j
}

/// Executable scan to the end of a blank run.
pub fn scan_spaces(s: &str, i: usize) -> (j: usize)
    requires
        i <= s@.len(),
    ensures
        j == space_run_end(s@, i as int),
        i <= j <= s@.len(),
{
    let n = s.unicode_len();
    let mut j = i;
    while j < n && space_char(s.get_char(j))
        invariant
            i <= j <= n == s@.len(),
            space_run_end(s@, i as int) == space_run_end(s@, j as int),
        decreases n - j,
    {
        j += 1;
    }
    proof {
        lemma_space_run(s@, i as int);
    }
    j
}

/// Executable value of one digit.
pub fn digit_value(c: char) -> (r: u64)
    requires
        is_digit_char(c),
    ensures
        r == digit_val(c),
{
    ((c as u32) - ('0' as u32)) as u64
}

/// A required digit group read as a number: `None` when no digit stands at
/// `i` or the group's value exceeds the largest representable number.
pub open spec fn spec_u64_digits(s: Seq<char>, i: int) -> Option<(int, u64)> {
    let j = digit_run_end(s, i);
    if j == i {
        None
    } else if digits_val(s, i, j) > u64::MAX {
        None
    } else {
        Some((j, digits_val(s, i, j) as u64))
    }
}

/// An optional digit group read as a number, defaulting to 0: `None` only
/// when a digit group is present but too large.
pub open spec fn spec_u64_opt(s: Seq<char>, i: int) -> Option<(int, u64)> {
    let j = digit_run_end(s, i);
    if j == i {
        Some((i, 0))
    } else if digits_val(s, i, j) > u64::MAX {
        None
    } else {
        Some((j, digits_val(s, i, j) as u64))
    }
}

/// Executable read of a required digit group.
pub fn parse_u64_digits(s: &str, i: usize) -> (r: Option<(usize, u64)>)
    requires
        i <= s@.len(),
    ensures
        match r {
            Some((j, v)) => spec_u64_digits(s@, i as int) == Some((j as int, v)) && i < j
                <= s@.len(),
            None => spec_u64_digits(s@, i as int) is None,
        },
{
    let j = scan_digits(s, i);
    proof {
        lemma_digit_run(s@, i as int);
        assert(forall|m: int|
            i <= m < j ==> 0 <= #[trigger] digit_val(s@[m]) <= 9);
    }
    if j == i {
        return None;
    }
    let mut k = i;
    let mut val: u64 = 0;
    while k < j
        invariant
            i <= k <= j <= s@.len(),
            j == digit_run_end(s@, i as int),
            forall|m: int| i <= m < j ==> is_digit_char(s@[m]),
            forall|m: int| i <= m < j ==> 0 <= #[trigger] digit_val(s@[m]) <= 9,
            val == digits_val(s@, i as int, k as int),
        decreases j - k,
    {
        let d = digit_value(s.get_char(k));
        let stepped = match val.checked_mul(10) {
            Some(m) => m.checked_add(d),
            None => None,
        };
        match stepped {
            Some(v) => {
                val = v;
            },
            None => {
                proof {
                    lemma_digits_val_bounds(s@, i as int, k + 1 as int, j as int);
                }
                return None;
            },
        }
        k += 1;
    }
    Some((j, val))
}

/// Executable read of an optional digit group.
pub fn parse_u64_opt(s: &str, i: usize) -> (r: Option<(usize, u64)>)
    requires
        i <= s@.len(),
    ensures
        match r {
            Some((j, v)) => spec_u64_opt(s@, i as int) == Some((j as int, v)) && i <= j <= s@.len(),
            None => spec_u64_opt(s@, i as int) is None,
        },
{
    let j = scan_digits(s, i);
    if j == i {
        return Some((i, 0));
    }
    match parse_u64_digits(s, i) {
        Some((j2, v)) => Some((j2, v)),
        None => None,
    }
}

/// Case-insensitive match of the lower-case tag `t[k..]` at `s[i + k..]`.
pub open spec fn tag_nocase_from(s: Seq<char>, i: int, t: Seq<char>, k: int) -> bool
    decreases t.len() - k,
{
    if k >= t.len() {
        true
    } else if i + k >= s.len() {
        false
    } else {
        lower_char(s[i + k]) == t[k] && tag_nocase_from(s, i, t, k + 1)
    }
}

/// Case-insensitive match of the lower-case tag `t` at position `i`.
pub open spec fn spec_tag_nocase(s: Seq<char>, i: int, t: Seq<char>) -> bool {
    tag_nocase_from(s, i, t, 0)
}

fn tag_nocase_step(s: &str, n: usize, i: usize, t: &str, tn: usize, k: usize) -> (r: bool)
    requires
        n == s@.len(),
        tn == t@.len(),
        i <= n,
        k <= tn,
        i + tn <= usize::MAX,
    ensures
        r == tag_nocase_from(s@, i as int, t@, k as int),
    decreases tn - k,
{
    if k >= tn {
        true
    } else if i + k >= n {
        false
    } else {
        if to_lower_char(s.get_char(i + k)) == t.get_char(k) {
            tag_nocase_step(s, n, i, t, tn, k + 1)
        } else {
            false
        }
    }
}

/// Executable case-insensitive tag match; `t` must be lower-case.
pub fn tag_nocase(s: &str, i: usize, t: &str) -> (r: bool)
    requires
        i <= s@.len(),
    ensures
        r == spec_tag_nocase(s@, i as int, t@),
{
    let n = s.unicode_len();
    let tn = t.unicode_len();
    if tn > n - i {
        proof {
            if spec_tag_nocase(s@, i as int, t@) {
                lemma_tag_end(s@, i as int, t@, 0);
            }
        }
        false
    } else {
        tag_nocase_step(s, n, i, t, tn, 0)
    }
}

/// Exact match of the tag `t[k..]` at `s[i + k..]`.
pub open spec fn tag_from(s: Seq<char>, i: int, t: Seq<char>, k: int) -> bool
    decreases t.len() - k,
{
    if k >= t.len() {
        true
    } else if i + k >= s.len() {
        false
    } else {
        s[i + k] == t[k] && tag_from(s, i, t, k + 1)
    }
}

/// Exact match of the tag `t` at position `i`.
pub open spec fn spec_tag(s: Seq<char>, i: int, t: Seq<char>) -> bool {
    tag_from(s, i, t, 0)
}

fn tag_step(s: &str, n: usize, i: usize, t: &str, tn: usize, k: usize) -> (r: bool)
    requires
        n == s@.len(),
        tn == t@.len(),
        i <= n,
        k <= tn,
        i + tn <= usize::MAX,
    ensures
        r == tag_from(s@, i as int, t@, k as int),
    decreases tn - k,
{
    if k >= tn {
        true
    } else if i + k >= n {
        false
    } else {
        if s.get_char(i + k) == t.get_char(k) {
            tag_step(s, n, i, t, tn, k + 1)
        } else {
            false
        }
    }
}

/// Executable exact tag match.
pub fn tag(s: &str, i: usize, t: &str) -> (r: bool)
    requires
        i <= s@.len(),
    ensures
        r == spec_tag(s@, i as int, t@),
{
    let n = s.unicode_len();
    let tn = t.unicode_len();
    if tn > n - i {
        proof {
            if spec_tag(s@, i as int, t@) {
                lemma_tag_end(s@, i as int, t@, 0);
            }
        }
        false
    } else {
        tag_step(s, n, i, t, tn, 0)
    }
}

/// Relies on std's `String::push`: appends exactly one character at the end
/// of the string.  vstd gives this method no specification.
pub assume_specification[ String::push ](s: &mut String, c: char)
    ensures
        final(s)@ == old(s)@.push(c),
;

/// ASCII-case-insensitive equality of two character sequences from
/// position `i`.
pub open spec fn eq_nocase_from(a: Seq<char>, b: Seq<char>, i: int) -> bool
    decreases a.len() - i,
{
    if i >= a.len() && i >= b.len() {
        true
    } else if i >= a.len() || i >= b.len() {
        false
    } else {
        lower_char(a[i]) == lower_char(b[i]) && eq_nocase_from(a, b, i + 1)
    }
}

/// ASCII-case-insensitive equality of two character sequences.
pub open spec fn eq_nocase(a: Seq<char>, b: Seq<char>) -> bool {
    eq_nocase_from(a, b, 0)
}

fn eq_nocase_step(a: &str, b: &str, an: usize, bn: usize, i: usize) -> (r: bool)
    requires
        an == a@.len(),
        bn == b@.len(),
        i <= an,
        i <= bn,
    ensures
        r == eq_nocase_from(a@, b@, i as int),
    decreases an - i,
{
    if i == an && i == bn {
        true
    } else if i == an || i == bn {
        false
    } else {
        if to_lower_char(a.get_char(i)) == to_lower_char(b.get_char(i)) {
            eq_nocase_step(a, b, an, bn, i + 1)
        } else {
            false
        }
    }
}

/// Executable ASCII-case-insensitive string equality.
pub fn str_eq_nocase(a: &str, b: &str) -> (r: bool)
    ensures
        r == eq_nocase(a@, b@),
{
    let an = a.unicode_len();
    let bn = b.unicode_len();
    eq_nocase_step(a, b, an, bn, 0)
}

/// The text from position `j` to the end, as an owned string.
pub fn rest_of(s: &str, j: usize) -> (r: String)
    requires
        j <= s@.len(),
    ensures
        r@ == s@.skip(j as int),
{
    let n = s.unicode_len();
    let sub = s.substring_char(j, n);
    proof {
        assert(sub@ =~= s@.skip(j as int));
    }
    sub.to_owned()
}

proof fn lemma_tag_from_iff(s: Seq<char>, t: Seq<char>, k: int)
    requires
        0 <= k <= t.len(),
        s.len() == t.len(),
    ensures
        tag_from(s, 0, t, k) <==> (forall|m: int| k <= m < t.len() ==> s[m] == t[m]),
    decreases t.len() - k,
{
    if k < t.len() {
        lemma_tag_from_iff(s, t, k + 1);
    }
}

/// On texts of equal length, an exact tag match is text equality.
pub proof fn lemma_tag_full(s: Seq<char>, t: Seq<char>)
    requires
        s.len() == t.len(),
    ensures
        spec_tag(s, 0, t) <==> s == t,
{
    lemma_tag_from_iff(s, t, 0);
    if spec_tag(s, 0, t) {
        assert(s =~= t);
    }
}

/// What a case-insensitive tag match says: the window fits in the text and
/// each of its positions holds the tag's character, up to case.
pub proof fn lemma_tag_nocase_iff(s: Seq<char>, i: int, t: Seq<char>, k: int)
    requires
        0 <= i,
        0 <= k <= t.len(),
    ensures
        tag_nocase_from(s, i, t, k) <==> ((k == t.len() || i + t.len() <= s.len()) && (forall|
            p: int,
        |
            i + k <= p < i + t.len() ==> lower_char(#[trigger] s[p]) == t[p - i])),
    decreases t.len() - k,
{
    if k < t.len() {
        lemma_tag_nocase_iff(s, i, t, k + 1);
        if (k == t.len() || i + t.len() <= s.len()) && (forall|p: int|
            i + k <= p < i + t.len() ==> lower_char(#[trigger] s[p]) == t[p - i]) {
            assert(lower_char(s[i + k]) == t[k]);
            assert(i + k < s.len());
            assert(tag_nocase_from(s, i, t, k));
        }
        if tag_nocase_from(s, i, t, k) {
            assert(i + k < s.len());
            if k + 1 == t.len() {
                assert(i + t.len() <= s.len());
            }
            assert forall|p: int|
                i + k <= p < i + t.len() implies lower_char(#[trigger] s[p]) == t[p - i] by {
                if p == i + k {
                    assert(lower_char(s[i + k]) == t[k]);
                } else {
                    assert(lower_char(s[p]) == t[p - i]);
                }
            }
        }
    }
}

/// A matched non-empty tag ends within the input.
pub proof fn lemma_tag_end(s: Seq<char>, i: int, t: Seq<char>, k: int)
    requires
        0 <= i,
        0 <= k <= t.len(),
        tag_nocase_from(s, i, t, k) || tag_from(s, i, t, k),
    ensures
        k < t.len() ==> i + t.len() <= s.len(),
    decreases t.len() - k,
{
    if k < t.len() {
        lemma_tag_end(s, i, t, k + 1);
    }
}

} // verus!

//! The version-scheme grammar: `[v]? [N!]? N(.N)* [pre]? [post]? [dev]? [+local]?`.
//!
//! Every production has a specification-level definition over a character
//! sequence and a position, and an executable parser proved to return exactly
//! what the definition says.  Parsing consumes a prefix; callers that need
//! the whole input consumed check the returned position.

use crate::chars::{
    alnum_char, alnum_run_end, digit_run_end, digit_val, digits_val, is_alnum_char, is_digit_char,
    is_sep_char, lemma_alnum_run, lemma_digit_run, lemma_digits_val_nonneg, lemma_tag_end,
    lower_char, lower_seq, parse_u64_digits, parse_u64_opt, scan_alnum, scan_digits, sep_char,
    spec_tag_nocase, spec_u64_digits, spec_u64_opt, tag_nocase, to_lower_char,
};
use crate::version::{LocalPartV, LocalVersionPart, Version, VersionV};
use vstd::prelude::*;

verus! {

/// One optional separator (`-`, `_` or `.`) at position `i`.
pub open spec fn spec_sep(s: Seq<char>, i: int) -> int {
    if 0 <= i < s.len() && is_sep_char(s[i]) {
        i + 1
    } else {
        i
    }
}

/// The epoch: a digit group followed by `!`.
pub open spec fn spec_epoch(s: Seq<char>, i: int) -> Option<(int, u64)> {
    match spec_u64_digits(s, i) {
        Some((j, v)) => if j < s.len() && s[j] == '!' {
            Some((j + 1, v))
        } else {
            None
        },
        None => None,
    }
}

/// Further release groups: a `.`-separated digit group repeated as often as
/// it matches.  Returns the end position and the group values.
pub open spec fn spec_release_more(s: Seq<char>, i: int) -> (int, Seq<u64>)
    decreases s.len() - i,
{
    if 0 <= i < s.len() && s[i] == '.' {
        match spec_u64_digits(s, i + 1) {
            Some((j, v)) => if i + 1 < j <= s.len() {
                let rest = spec_release_more(s, j);
                (rest.0, seq![v] + rest.1)
            } else {
                (i, Seq::empty())
            },
            None => (i, Seq::empty()),
        }
    } else {
        (i, Seq::empty())
    }
}

/// The release: one digit group, then further `.`-separated groups.
pub open spec fn spec_release(s: Seq<char>, i: int) -> Option<(int, Seq<u64>)> {
    match spec_u64_digits(s, i) {
        Some((j, v)) => if i < j <= s.len() {
            let rest = spec_release_more(s, j);
            Some((rest.0, seq![v] + rest.1))
        } else {
            None
        },
        None => None,
    }
}

/// The pre-release letter, case-insensitive, longest tokens first; the
/// result is the normalized letter.
pub open spec fn spec_pre_l(s: Seq<char>, i: int) -> Option<(int, Seq<char>)> {
    if spec_tag_nocase(s, i, "alpha"@) {
        Some((i + 5, "a"@))
    } else if spec_tag_nocase(s, i, "preview"@) {
        Some((i + 7, "rc"@))
    } else if spec_tag_nocase(s, i, "beta"@) {
        Some((i + 4, "b"@))
    } else if spec_tag_nocase(s, i, "a"@) {
        Some((i + 1, "a"@))
    } else if spec_tag_nocase(s, i, "b"@) {
        Some((i + 1, "b"@))
    } else if spec_tag_nocase(s, i, "c"@) {
        Some((i + 1, "rc"@))
    } else if spec_tag_nocase(s, i, "rc"@) {
        Some((i + 2, "rc"@))
    } else if spec_tag_nocase(s, i, "pre"@) {
        Some((i + 3, "rc"@))
    } else {
        None
    }
}

/// The pre-release segment: optional separator, letter, optional separator,
/// optional number.
pub open spec fn spec_pre(s: Seq<char>, i: int) -> Option<(int, (Seq<char>, u64))> {
    let i1 = spec_sep(s, i);
    match spec_pre_l(s, i1) {
        Some((i2, letter)) => {
            let i3 = spec_sep(s, i2);
            match spec_u64_opt(s, i3) {
                Some((i4, num)) => Some((i4, (letter, num))),
                None => None,
            }
        },
        None => None,
    }
}

/// The post-release letter, case-insensitive, longest tokens first.
pub open spec fn spec_post_l(s: Seq<char>, i: int) -> Option<int> {
    if spec_tag_nocase(s, i, "post"@) {
        Some(i + 4)
    } else if spec_tag_nocase(s, i, "rev"@) {
        Some(i + 3)
    } else if spec_tag_nocase(s, i, "r"@) {
        Some(i + 1)
    } else {
        None
    }
}

/// The post-release segment: either the shorthand `-N`, or an optional
/// separator, letter, optional separator and optional number.
pub open spec fn spec_post(s: Seq<char>, i: int) -> Option<(int, (Seq<char>, u64))> {
    if 0 <= i < s.len() && s[i] == '-' && spec_u64_digits(s, i + 1) is Some {
        let jv = spec_u64_digits(s, i + 1)->Some_0;
        Some((jv.0, ("post"@, jv.1)))
    } else {
        let i1 = spec_sep(s, i);
        match spec_post_l(s, i1) {
            Some(i2) => {
                let i3 = spec_sep(s, i2);
                match spec_u64_opt(s, i3) {
                    Some((i4, num)) => Some((i4, ("post"@, num))),
                    None => None,
                }
            },
            None => None,
        }
    }
}

/// The dev-release segment: optional separator, `dev`, optional separator,
/// optional number.
pub open spec fn spec_dev(s: Seq<char>, i: int) -> Option<(int, (Seq<char>, u64))> {
    let i1 = spec_sep(s, i);
    if spec_tag_nocase(s, i1, "dev"@) {
        let i3 = spec_sep(s, i1 + 3);
        match spec_u64_opt(s, i3) {
            Some((i4, num)) => Some((i4, ("dev"@, num))),
            None => None,
        }
    } else {
        None
    }
}

/// Classification of one local segment: numeric if it is all digits and fits
/// in a number, otherwise a lower-cased string.
pub open spec fn classify_local(seg: Seq<char>) -> LocalPartV {
    if seg.len() > 0 && (forall|m: int| 0 <= m < seg.len() ==> is_digit_char(seg[m]))
        && digits_val(seg, 0, seg.len() as int) <= u64::MAX {
        LocalPartV::Num(digits_val(seg, 0, seg.len() as int) as u64)
    } else {
        LocalPartV::LowerStr(lower_seq(seg))
    }
}

/// Further local segments: a separator and an alphanumeric run, repeated.
pub open spec fn spec_local_more(s: Seq<char>, i: int) -> (int, Seq<LocalPartV>)
    decreases s.len() - i,
{
    if 0 <= i < s.len() && is_sep_char(s[i]) {
        let j = alnum_run_end(s, i + 1);
        if i + 1 < j <= s.len() {
            let rest = spec_local_more(s, j);
            (rest.0, seq![classify_local(s.subrange(i + 1, j))] + rest.1)
        } else {
            (i, Seq::empty())
        }
    } else {
        (i, Seq::empty())
    }
}

/// The local label: `+`, an alphanumeric segment, then further separated
/// segments.
pub open spec fn spec_local(s: Seq<char>, i: int) -> Option<(int, Seq<LocalPartV>)> {
    if 0 <= i < s.len() && s[i] == '+' {
        let j = alnum_run_end(s, i + 1);
        if i + 1 < j <= s.len() {
            let rest = spec_local_more(s, j);
            Some((rest.0, seq![classify_local(s.subrange(i + 1, j))] + rest.1))
        } else {
            None
        }
    } else {
        None
    }
}

/// A whole version: optional `v`, optional epoch, release, then optional
/// pre, post, dev and local segments.  Only the release is required.
pub open spec fn spec_version_scheme(s: Seq<char>, i: int) -> Option<(int, VersionV)> {
    let i0 = if 0 <= i < s.len() && s[i] == 'v' {
        i + 1
    } else {
        i
    };
    let ep = match spec_epoch(s, i0) {
        Some((j, v)) => (j, v),
        None => (i0, 0u64),
    };
    match spec_release(s, ep.0) {
        None => None,
        Some((i2, rel)) => {
            let pr = match spec_pre(s, i2) {
                Some((j, p)) => (j, Some(p)),
                None => (i2, None),
            };
            let po = match spec_post(s, pr.0) {
                Some((j, p)) => (j, Some(p)),
                None => (pr.0, None),
            };
            let de = match spec_dev(s, po.0) {
                Some((j, p)) => (j, Some(p)),
                None => (po.0, None),
            };
            let lo = match spec_local(s, de.0) {
                Some((j, p)) => (j, Some(p)),
                None => (de.0, None),
            };
            Some(
                (
                    lo.0,
                    VersionV {
                        epoch: ep.1,
                        release: rel,
                        pre: pr.1,
                        post: po.1,
                        dev: de.1,
                        local: lo.1,
                    },
                ),
            )
        },
    }
}

/// Executable skip of one optional separator.
fn skip_sep(s: &str, i: usize) -> (j: usize)
    requires
        i <= s@.len(),
    ensures
        j == spec_sep(s@, i as int),
        i <= j <= s@.len(),
{
    let n = s.unicode_len();
    if i < n && sep_char(s.get_char(i)) {
        i + 1
    } else {
        i
    }
}

/// The epoch: a digit group followed by `!`.
pub fn epoch(s: &str, i: usize) -> (r: Option<(usize, u64)>)
    requires
        i <= s@.len(),
    ensures
        match r {
            Some((j, v)) => spec_epoch(s@, i as int) == Some((j as int, v)) && i <= j <= s@.len(),
            None => spec_epoch(s@, i as int) is None,
        },
{
    match parse_u64_digits(s, i) {
        Some((j, v)) => {
            let n = s.unicode_len();
            if j < n && s.get_char(j) == '!' {
                Some((j + 1, v))
            } else {
                None
            }
        },
        None => None,
    }
}

fn release_more(s: &str, i: usize, acc: &mut Vec<u64>) -> (j: usize)
    requires
        i <= s@.len(),
    ensures
        j == spec_release_more(s@, i as int).0,
        final(acc)@ == old(acc)@ + spec_release_more(s@, i as int).1,
        i <= j <= s@.len(),
    decreases s@.len() - i,
{
    let n = s.unicode_len();
    if i < n && s.get_char(i) == '.' {
        match parse_u64_digits(s, i + 1) {
            Some((q, w)) => {
                acc.push(w);
                let j = release_more(s, q, acc);
                proof {
                    assert(acc@ =~= old(acc)@ + spec_release_more(s@, i as int).1);
                }
                j
            },
            None => {
                proof {
                    assert(acc@ =~= old(acc)@ + spec_release_more(s@, i as int).1);
                }
                i
            },
        }
    } else {
        proof {
            assert(acc@ =~= old(acc)@ + spec_release_more(s@, i as int).1);
        }
        i
    }
}

/// The release: one digit group, then further `.`-separated groups.
pub fn release(s: &str, i: usize) -> (r: Option<(usize, Vec<u64>)>)
    requires
        i <= s@.len(),
    ensures
        match r {
            Some((j, rel)) => spec_release(s@, i as int) == Some((j as int, rel@)) && i <= j
                <= s@.len(),
            None => spec_release(s@, i as int) is None,
        },
{
    match parse_u64_digits(s, i) {
        Some((q, v)) => {
            let mut acc: Vec<u64> = Vec::new();
            acc.push(v);
            let j = release_more(s, q, &mut acc);
            proof {
                assert(acc@ =~= seq![v] + spec_release_more(s@, q as int).1);
            }
            Some((j, acc))
        },
        None => None,
    }
}

/// The pre-release letter; the result is already normalized.
pub fn pre_l(s: &str, i: usize) -> (r: Option<(usize, String)>)
    requires
        i <= s@.len(),
    ensures
        match r {
            Some((j, l)) => spec_pre_l(s@, i as int) == Some((j as int, l@)) && i <= j <= s@.len(),
            None => spec_pre_l(s@, i as int) is None,
        },
{
    let n = s.unicode_len();
    proof {
        reveal_strlit("alpha");
        reveal_strlit("preview");
        reveal_strlit("beta");
        reveal_strlit("a");
        reveal_strlit("b");
        reveal_strlit("c");
        reveal_strlit("rc");
        reveal_strlit("pre");
    }
    if tag_nocase(s, i, "alpha") {
        proof {
            lemma_tag_end(s@, i as int, "alpha"@, 0);
        }
        Some((i + 5, String::from_str("a")))
    } else if tag_nocase(s, i, "preview") {
        proof {
            lemma_tag_end(s@, i as int, "preview"@, 0);
        }
        Some((i + 7, String::from_str("rc")))
    } else if tag_nocase(s, i, "beta") {
        proof {
            lemma_tag_end(s@, i as int, "beta"@, 0);
        }
        Some((i + 4, String::from_str("b")))
    } else if tag_nocase(s, i, "a") {
        proof {
            lemma_tag_end(s@, i as int, "a"@, 0);
        }
        Some((i + 1, String::from_str("a")))
    } else if tag_nocase(s, i, "b") {
        proof {
            lemma_tag_end(s@, i as int, "b"@, 0);
        }
        Some((i + 1, String::from_str("b")))
    } else if tag_nocase(s, i, "c") {
        proof {
            lemma_tag_end(s@, i as int, "c"@, 0);
        }
        Some((i + 1, String::from_str("rc")))
    } else if tag_nocase(s, i, "rc") {
        proof {
            lemma_tag_end(s@, i as int, "rc"@, 0);
        }
        Some((i + 2, String::from_str("rc")))
    } else if tag_nocase(s, i, "pre") {
        proof {
            lemma_tag_end(s@, i as int, "pre"@, 0);
        }
        Some((i + 3, String::from_str("rc")))
    } else {
        None
    }
}

/// The pre-release segment.
pub fn pre(s: &str, i: usize) -> (r: Option<(usize, (String, u64))>)
    requires
        i <= s@.len(),
    ensures
        match r {
            Some((j, p)) => spec_pre(s@, i as int) == Some((j as int, (p.0@, p.1))) && i <= j
                <= s@.len(),
            None => spec_pre(s@, i as int) is None,
        },
{
    let i1 = skip_sep(s, i);
    match pre_l(s, i1) {
        Some((i2, letter)) => {
            let i3 = skip_sep(s, i2);
            match parse_u64_opt(s, i3) {
                Some((i4, num)) => Some((i4, (letter, num))),
                None => None,
            }
        },
        None => None,
    }
}

/// The post-release letter.
pub fn post_l(s: &str, i: usize) -> (r: Option<usize>)
    requires
        i <= s@.len(),
    ensures
        match r {
            Some(j) => spec_post_l(s@, i as int) == Some(j as int) && i <= j <= s@.len(),
            None => spec_post_l(s@, i as int) is None,
        },
{
    let n = s.unicode_len();
    proof {
        reveal_strlit("post");
        reveal_strlit("rev");
        reveal_strlit("r");
    }
    if tag_nocase(s, i, "post") {
        proof {
            lemma_tag_end(s@, i as int, "post"@, 0);
        }
        Some(i + 4)
    } else if tag_nocase(s, i, "rev") {
        proof {
            lemma_tag_end(s@, i as int, "rev"@, 0);
        }
        Some(i + 3)
    } else if tag_nocase(s, i, "r") {
        proof {
            lemma_tag_end(s@, i as int, "r"@, 0);
        }
        Some(i + 1)
    } else {
        None
    }
}

/// The post-release segment.
pub fn post(s: &str, i: usize) -> (r: Option<(usize, (String, u64))>)
    requires
        i <= s@.len(),
    ensures
        match r {
            Some((j, p)) => spec_post(s@, i as int) == Some((j as int, (p.0@, p.1))) && i <= j
                <= s@.len(),
            None => spec_post(s@, i as int) is None,
        },
{
    let n = s.unicode_len();
    if i < n && s.get_char(i) == '-' {
        match parse_u64_digits(s, i + 1) {
            Some((j, v)) => {
                return Some((j, (String::from_str("post"), v)));
            },
            None => {},
        }
    }
    let i1 = skip_sep(s, i);
    match post_l(s, i1) {
        Some(i2) => {
            let i3 = skip_sep(s, i2);
            match parse_u64_opt(s, i3) {
                Some((i4, num)) => Some((i4, (String::from_str("post"), num))),
                None => None,
            }
        },
        None => None,
    }
}

/// The dev-release segment.
pub fn dev(s: &str, i: usize) -> (r: Option<(usize, (String, u64))>)
    requires
        i <= s@.len(),
    ensures
        match r {
            Some((j, p)) => spec_dev(s@, i as int) == Some((j as int, (p.0@, p.1))) && i <= j
                <= s@.len(),
            None => spec_dev(s@, i as int) is None,
        },
{
    let n = s.unicode_len();
    proof {
        reveal_strlit("dev");
    }
    let i1 = skip_sep(s, i);
    if tag_nocase(s, i1, "dev") {
        proof {
            lemma_tag_end(s@, i1 as int, "dev"@, 0);
        }
        let i3 = skip_sep(s, i1 + 3);
        match parse_u64_opt(s, i3) {
            Some((i4, num)) => Some((i4, (String::from_str("dev"), num))),
            None => None,
        }
    } else {
        None
    }
}

/// The value of a digit string equals the value of the same digits read
/// inside the enclosing text.
proof fn lemma_digits_val_subrange(s: Seq<char>, i: int, j: int, k: int)
    requires
        0 <= i <= k <= j <= s.len(),
    ensures
        digits_val(s, i, k) == digits_val(s.subrange(i, j), 0, k - i),
    decreases k - i,
{
    if i < k {
        lemma_digits_val_subrange(s, i, j, k - 1);
    }
}

/// The lower-cased text of `s[i..j)`.
fn lower_segment(s: &str, i: usize, j: usize) -> (r: String)
    requires
        i <= j <= s@.len(),
    ensures
        r@ == lower_seq(s@.subrange(i as int, j as int)),
{
    let mut out = String::new();
    let mut k = i;
    while k < j
        invariant
            i <= k <= j <= s@.len(),
            out@ == lower_seq(s@.subrange(i as int, k as int)),
        decreases j - k,
    {
        out.push(to_lower_char(s.get_char(k)));
        proof {
            assert(s@.subrange(i as int, k + 1 as int) =~= s@.subrange(i as int, k as int).push(
                s@[k as int],
            ));
            assert(out@ =~= lower_seq(s@.subrange(i as int, k + 1 as int)));
        }
        k += 1;
    }
    out
}

/// One local segment, classified as numeric or lower-cased string.
fn local_segment(s: &str, i: usize, j: usize) -> (p: LocalVersionPart)
    requires
        i < j <= s@.len(),
        j == alnum_run_end(s@, i as int),
    ensures
        p@ == classify_local(s@.subrange(i as int, j as int)),
{
    proof {
        lemma_alnum_run(s@, i as int);
        lemma_digit_run(s@, i as int);
        if digit_run_end(s@, i as int) > j {
            assert(is_digit_char(s@[j as int]));
        }
    }
    let d = scan_digits(s, i);
    let ghost seg = s@.subrange(i as int, j as int);
    if d == j {
        proof {
            assert(forall|m: int| 0 <= m < seg.len() ==> is_digit_char(seg[m]));
            lemma_digits_val_subrange(s@, i as int, j as int, j as int);
        }
        match parse_u64_digits(s, i) {
            Some((_, v)) => LocalVersionPart::Num(v),
            None => LocalVersionPart::LowerStr(lower_segment(s, i, j)),
        }
    } else {
        proof {
            assert(!is_digit_char(s@[d as int]));
            assert(!(forall|m: int| 0 <= m < seg.len() ==> is_digit_char(seg[m]))) by {
                assert(seg[d - i] == s@[d as int]);
            }
        }
        LocalVersionPart::LowerStr(lower_segment(s, i, j))
    }
}

fn local_more(s: &str, i: usize, acc: &mut Vec<LocalVersionPart>) -> (j: usize)
    requires
        i <= s@.len(),
    ensures
        j == spec_local_more(s@, i as int).0,
        final(acc)@.map_values(|p: LocalVersionPart| p@) == old(acc)@.map_values(
            |p: LocalVersionPart| p@,
        ) + spec_local_more(s@, i as int).1,
        i <= j <= s@.len(),
    decreases s@.len() - i,
{
    let n = s.unicode_len();
    if i < n && sep_char(s.get_char(i)) {
        let q = scan_alnum(s, i + 1);
        if q > i + 1 {
            let part = local_segment(s, i + 1, q);
            acc.push(part);
            let ghost mid = acc@;
            let j = local_more(s, q, acc);
            proof {
                assert(mid.map_values(|p: LocalVersionPart| p@) =~= old(acc)@.map_values(
                    |p: LocalVersionPart| p@,
                ).push(part@));
                assert(acc@.map_values(|p: LocalVersionPart| p@) =~= old(acc)@.map_values(
                    |p: LocalVersionPart| p@,
                ) + spec_local_more(s@, i as int).1);
            }
            j
        } else {
            proof {
                assert(acc@.map_values(|p: LocalVersionPart| p@) =~= old(acc)@.map_values(
                    |p: LocalVersionPart| p@,
                ) + spec_local_more(s@, i as int).1);
            }
            i
        }
    } else {
        proof {
            assert(acc@.map_values(|p: LocalVersionPart| p@) =~= old(acc)@.map_values(
                |p: LocalVersionPart| p@,
            ) + spec_local_more(s@, i as int).1);
        }
        i
    }
}

/// The local label.
pub fn local(s: &str, i: usize) -> (r: Option<(usize, Vec<LocalVersionPart>)>)
    requires
        i <= s@.len(),
    ensures
        match r {
            Some((j, parts)) => spec_local(s@, i as int) == Some(
                (j as int, parts@.map_values(|p: LocalVersionPart| p@)),
            ) && i <= j <= s@.len(),
            None => spec_local(s@, i as int) is None,
        },
{
    let n = s.unicode_len();
    if i < n && s.get_char(i) == '+' {
        let q = scan_alnum(s, i + 1);
        if q > i + 1 {
            let part = local_segment(s, i + 1, q);
            let mut acc: Vec<LocalVersionPart> = Vec::new();
            acc.push(part);
            let ghost one = acc@;
            let j = local_more(s, q, &mut acc);
            proof {
                assert(one.map_values(|p: LocalVersionPart| p@) =~= seq![part@]);
                assert(acc@.map_values(|p: LocalVersionPart| p@) =~= seq![part@]
                    + spec_local_more(s@, q as int).1);
            }
            Some((j, acc))
        } else {
            None
        }
    } else {
        None
    }
}

/// A whole version, parsed from position `i`.
pub fn version_at(s: &str, i: usize) -> (r: Option<(usize, Version)>)
    requires
        i <= s@.len(),
    ensures
        match r {
            Some((j, v)) => spec_version_scheme(s@, i as int) == Some((j as int, v@)) && i <= j
                <= s@.len(),
            None => spec_version_scheme(s@, i as int) is None,
        },
{
    let n = s.unicode_len();
    let i0 = if i < n && s.get_char(i) == 'v' {
        i + 1
    } else {
        i
    };
    let (i1, ep) = match epoch(s, i0) {
        Some((j, v)) => (j, v),
        None => (i0, 0u64),
    };
    match release(s, i1) {
        None => None,
        Some((i2, rel)) => {
            let (i3, pr) = match pre(s, i2) {
                Some((j, p)) => (j, Some(p)),
                None => (i2, None),
            };
            let (i4, po) = match post(s, i3) {
                Some((j, p)) => (j, Some(p)),
                None => (i3, None),
            };
            let (i5, de) = match dev(s, i4) {
                Some((j, p)) => (j, Some(p)),
                None => (i4, None),
            };
            let (i6, lo) = match local(s, i5) {
                Some((j, p)) => (j, Some(p)),
                None => (i5, None),
            };
            let v = Version { epoch: ep, release: rel, pre: pr, post: po, dev: de, local: lo };
            proof {
                assert(v@ =~= spec_version_scheme(s@, i as int)->Some_0.1);
            }
            Some((i6, v))
        },
    }
}

/// A parsed version is well-formed: its release is non-empty, its segment
/// letters are normalized, and its local label, when present, is non-empty.
pub proof fn lemma_version_scheme_wf(s: Seq<char>, i: int, j: int, v: VersionV)
    requires
        spec_version_scheme(s, i) == Some((j, v)),
    ensures
        v.wf(),
{
}

/// A whole version parsed from the start of the text, with the unconsumed
/// remainder.  Fails exactly when the text does not begin with a release.
pub fn version_scheme(input: &str) -> (r: Result<(String, Version), crate::ParseError>)
    ensures
        match r {
            Ok((rest, v)) => {
                &&& spec_version_scheme(input@, 0) matches Some((j, vv)) && vv == v@ && rest@
                    == input@.skip(j)
                &&& v@.wf()
            },
            Err(e) => spec_version_scheme(input@, 0) is None && e.rest@ == input@,
        },
{
    match version_at(input, 0) {
        Some((j, v)) => {
            proof {
                lemma_version_scheme_wf(input@, 0, j as int, v@);
            }
            Ok((crate::chars::rest_of(input, j), v))
        },
        None => Err(crate::ParseError { rest: input.to_owned() }),
    }
}

/// A version parsed from the whole text: fails when the text does not match
/// the version grammar or is not consumed entirely.
pub fn parse_version(input: &str) -> (r: Result<Version, crate::ParseError>)
    ensures
        match r {
            Ok(v) => spec_version_scheme(input@, 0) == Some((input@.len() as int, v@)) && v@.wf(),
            Err(e) => match spec_version_scheme(input@, 0) {
                Some((j, _)) => j < input@.len() && e.rest@ == input@.skip(j),
                None => e.rest@ == input@,
            },
        },
{
    let n = input.unicode_len();
    match version_at(input, 0) {
        Some((j, v)) => {
            if j == n {
                proof {
                    lemma_version_scheme_wf(input@, 0, j as int, v@);
                }
                Ok(v)
            } else {
                Err(crate::ParseError { rest: crate::chars::rest_of(input, j) })
            }
        },
        None => Err(crate::ParseError { rest: input.to_owned() }),
    }
}

} // verus!

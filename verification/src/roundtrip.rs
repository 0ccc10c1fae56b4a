//! Laws tying the renderers to the parser: the canonical text of a version
//! parses back to that version, and the wildcard prefix of a version, used
//! as an equality constraint, contains that version.

use crate::chars::{
    alnum_run_end, digit_run_end, digit_val, digits_val, is_alnum_char, is_digit_char,
    lemma_tag_nocase_iff, lower_char, lower_seq,
};
use crate::version::{
    dec_digits, digit_char_of, join_locals, join_nums, local_part_text, render_prefix,
    render_version, LocalPartV, VersionV,
};
use crate::version_parse::{
    classify_local, spec_dev, spec_epoch, spec_local, spec_local_more, spec_post, spec_pre,
    spec_pre_l, spec_release, spec_release_more, spec_sep, spec_version_scheme,
};
use crate::specifier::{
    has_wildcard, spec_equal, spec_full_version, wildcard_release_match,
};
use vstd::prelude::*;

verus! {

/// Two equal stretches of text carry the same digit value.
proof fn lemma_digits_val_shift(s: Seq<char>, t: Seq<char>, si: int, ti: int, k: int)
    requires
        0 <= k,
        forall|m: int| 0 <= m < k ==> #[trigger] s[si + m] == t[ti + m],
    ensures
        digits_val(s, si, si + k) == digits_val(t, ti, ti + k),
    decreases k,
{
    if k > 0 {
        lemma_digits_val_shift(s, t, si, ti, k - 1);
    }
}

/// A digit run ends exactly where the digits end.
proof fn lemma_digit_run_exact(s: Seq<char>, i: int, j: int)
    requires
        0 <= i <= j <= s.len(),
        forall|m: int| i <= m < j ==> is_digit_char(s[m]),
        j == s.len() || !is_digit_char(s[j]),
    ensures
        digit_run_end(s, i) == j,
    decreases j - i,
{
    if i < j {
        lemma_digit_run_exact(s, i + 1, j);
    }
}

/// The decimal text of a number is a non-empty digit string with that
/// number as its value.
proof fn lemma_dec_digits(n: u64)
    ensures
        dec_digits(n).len() >= 1,
        forall|k: int|
            0 <= k < dec_digits(n).len() ==> is_digit_char(#[trigger] dec_digits(n)[k]),
        digits_val(dec_digits(n), 0, dec_digits(n).len() as int) == n,
    decreases n,
{
    if n < 10 {
        assert(dec_digits(n) == seq![digit_char_of(n)]);
        assert(dec_digits(n)[0] == digit_char_of(n));
        assert(digits_val(dec_digits(n), 0, 1) == digits_val(dec_digits(n), 0, 0) * 10
            + digit_val(dec_digits(n)[0]));
        assert(digit_val(digit_char_of(n)) == n);
    } else {
        lemma_dec_digits(n / 10);
        let d = dec_digits(n / 10);
        let c = digit_char_of(n % 10);
        let l = d.len() as int;
        assert(dec_digits(n) == d.push(c));
        assert(forall|k: int| 0 <= k < l ==> d.push(c)[k] == d[k]);
        lemma_digits_val_shift(d, d.push(c), 0, 0, l);
        assert(digits_val(d.push(c), 0, l + 1) == digits_val(d.push(c), 0, l) * 10 + digit_val(
            d.push(c)[l],
        ));
        assert(n == (n / 10) * 10 + (n % 10));
    }
}

/// At a place where the text holds the decimal digits of `n` with no digit
/// after them, the digit-group productions read exactly `n`.
proof fn lemma_parse_u64_at(t: Seq<char>, i: int, n: u64)
    requires
        0 <= i,
        i + dec_digits(n).len() <= t.len(),
        forall|m: int|
            0 <= m < dec_digits(n).len() ==> t[i + m] == #[trigger] dec_digits(n)[m],
        i + dec_digits(n).len() == t.len() || !is_digit_char(t[i + dec_digits(n).len()]),
    ensures
        crate::chars::spec_u64_digits(t, i) == Some((i + dec_digits(n).len() as int, n)),
        crate::chars::spec_u64_opt(t, i) == Some((i + dec_digits(n).len() as int, n)),
{
    lemma_dec_digits(n);
    let l = dec_digits(n).len() as int;
    assert forall|m: int| i <= m < i + l implies is_digit_char(t[m]) by {
        assert(t[m] == dec_digits(n)[m - i]);
        assert(is_digit_char(dec_digits(n)[m - i]));
    }
    lemma_digit_run_exact(t, i, i + l);
    lemma_digits_val_shift(dec_digits(n), t, 0, i, l);
}

/// The left form of a dot-joined number list: the first number, then a dot
/// and the rest.
proof fn lemma_join_nums_head(rel: Seq<u64>)
    requires
        rel.len() >= 1,
    ensures
        rel.len() == 1 ==> join_nums(rel) == dec_digits(rel[0]),
        rel.len() > 1 ==> join_nums(rel) == dec_digits(rel[0]) + seq!['.'] + join_nums(
            rel.drop_first(),
        ),
    decreases rel.len(),
{
    if rel.len() == 2 {
        assert(rel.drop_last() =~= seq![rel[0]]);
        assert(rel.drop_first() =~= seq![rel[1]]);
        assert(join_nums(rel) == join_nums(rel.drop_last()) + seq!['.'] + dec_digits(rel.last()));
        assert(join_nums(rel) =~= dec_digits(rel[0]) + seq!['.'] + join_nums(rel.drop_first()));
    } else if rel.len() > 2 {
        let dl = rel.drop_last();
        let df = rel.drop_first();
        lemma_join_nums_head(dl);
        assert(dl.drop_first() =~= df.drop_last());
        assert(dl[0] == rel[0]);
        assert(df.last() == rel.last());
        assert(join_nums(rel) == join_nums(dl) + seq!['.'] + dec_digits(rel.last()));
        assert(join_nums(dl) == dec_digits(rel[0]) + seq!['.'] + join_nums(df.drop_last()));
        assert(join_nums(df) == join_nums(df.drop_last()) + seq!['.'] + dec_digits(df.last()));
        assert(join_nums(rel) =~= dec_digits(rel[0]) + seq!['.'] + join_nums(df));
    }
}

/// No digit stands at `e`, nor a dot followed by a digit: further release
/// groups cannot continue there.
pub open spec fn release_boundary(t: Seq<char>, e: int) -> bool {
    &&& e == t.len() || !is_digit_char(t[e])
    &&& !(e + 1 < t.len() && t[e] == '.' && is_digit_char(t[e + 1]))
}

/// At a release boundary the further-groups production consumes nothing.
proof fn lemma_release_more_stops(t: Seq<char>, e: int)
    requires
        0 <= e <= t.len(),
        release_boundary(t, e),
    ensures
        spec_release_more(t, e) == (e, Seq::<u64>::empty()),
{
    if e < t.len() && t[e] == '.' {
        assert(digit_run_end(t, e + 1) == e + 1) by {
            if e + 1 < t.len() {
                assert(!is_digit_char(t[e + 1]));
            }
        }
    }
}

/// At a place where the text holds a dot-joined number list followed by a
/// release boundary, the release production reads exactly those numbers.
proof fn lemma_parse_release_at(t: Seq<char>, i: int, rel: Seq<u64>)
    requires
        0 <= i,
        rel.len() >= 1,
        i + join_nums(rel).len() <= t.len(),
        forall|m: int|
            0 <= m < join_nums(rel).len() ==> t[i + m] == #[trigger] join_nums(rel)[m],
        release_boundary(t, i + join_nums(rel).len()),
    ensures
        spec_release(t, i) == Some((i + join_nums(rel).len() as int, rel)),
    decreases rel.len(),
{
    lemma_join_nums_head(rel);
    lemma_dec_digits(rel[0]);
    let l0 = dec_digits(rel[0]).len() as int;
    let jl = join_nums(rel).len() as int;
    let e = i + jl;
    if rel.len() == 1 {
        lemma_parse_u64_at(t, i, rel[0]);
        lemma_release_more_stops(t, e);
        assert(seq![rel[0]] + Seq::<u64>::empty() =~= rel);
    } else {
        let df = rel.drop_first();
        // t[i .. i+l0) is dec_digits(rel[0]), then a dot, then the rest.
        assert forall|m: int| 0 <= m < l0 implies t[i + m] == #[trigger] dec_digits(rel[0])[m] by {
            assert(t[i + m] == join_nums(rel)[m]);
            assert(join_nums(rel)[m] == dec_digits(rel[0])[m]);
        }
        assert(join_nums(rel)[l0] == '.');
        assert(t[i + l0] == join_nums(rel)[l0]);
        lemma_parse_u64_at(t, i, rel[0]);
        assert forall|m: int|
            0 <= m < join_nums(df).len() implies t[i + l0 + 1 + m] == #[trigger] join_nums(df)[m]
        by {
            assert(join_nums(rel)[l0 + 1 + m] == join_nums(df)[m]);
            assert(t[i + (l0 + 1 + m)] == join_nums(rel)[l0 + 1 + m]);
        }
        // the rest of the groups parse from i + l0.
        lemma_parse_release_more_at(t, i + l0, df);
        assert(seq![rel[0]] + df =~= rel);
    }
}

/// At a place where the text holds a dot, a number and so on, followed by a
/// release boundary, the further-groups production reads those numbers.
proof fn lemma_parse_release_more_at(t: Seq<char>, i: int, rest: Seq<u64>)
    requires
        0 <= i,
        rest.len() >= 1,
        i + 1 + join_nums(rest).len() <= t.len(),
        t[i] == '.',
        forall|m: int|
            0 <= m < join_nums(rest).len() ==> t[i + 1 + m] == #[trigger] join_nums(rest)[m],
        release_boundary(t, i + 1 + join_nums(rest).len()),
    ensures
        spec_release_more(t, i) == (i + 1 + join_nums(rest).len() as int, rest),
    decreases rest.len(),
{
    lemma_join_nums_head(rest);
    lemma_dec_digits(rest[0]);
    let l0 = dec_digits(rest[0]).len() as int;
    let e = i + 1 + join_nums(rest).len() as int;
    assert forall|m: int| 0 <= m < l0 implies t[i + 1 + m] == #[trigger] dec_digits(rest[0])[m] by {
        assert(t[i + 1 + m] == join_nums(rest)[m]);
        assert(join_nums(rest)[m] == dec_digits(rest[0])[m]);
    }
    if rest.len() == 1 {
        lemma_parse_u64_at(t, i + 1, rest[0]);
        lemma_release_more_stops(t, e);
        assert(seq![rest[0]] + Seq::<u64>::empty() =~= rest);
    } else {
        let df = rest.drop_first();
        assert(join_nums(rest)[l0] == '.');
        assert(t[i + 1 + l0] == join_nums(rest)[l0]);
        lemma_parse_u64_at(t, i + 1, rest[0]);
        assert forall|m: int|
            0 <= m < join_nums(df).len() implies t[i + 1 + l0 + 1 + m] == #[trigger] join_nums(
            df,
        )[m] by {
            assert(join_nums(rest)[l0 + 1 + m] == join_nums(df)[m]);
            assert(t[i + 1 + (l0 + 1 + m)] == join_nums(rest)[l0 + 1 + m]);
        }
        lemma_parse_release_more_at(t, i + 1 + l0, df);
        assert(seq![rest[0]] + df =~= rest);
    }
}

/// At the end of the text no optional segment matches.
proof fn lemma_segments_none_at_end(t: Seq<char>, e: int)
    requires
        0 <= e,
        e == t.len(),
    ensures
        spec_pre(t, e) is None,
        spec_post(t, e) is None,
        spec_dev(t, e) is None,
        spec_local(t, e) is None,
{
    reveal_strlit("alpha");
    reveal_strlit("preview");
    reveal_strlit("beta");
    reveal_strlit("a");
    reveal_strlit("b");
    reveal_strlit("c");
    reveal_strlit("rc");
    reveal_strlit("pre");
    reveal_strlit("post");
    reveal_strlit("rev");
    reveal_strlit("r");
    reveal_strlit("dev");
    assert(spec_sep(t, e) == e);
    assert(!crate::chars::spec_tag_nocase(t, e, "alpha"@));
    assert(!crate::chars::spec_tag_nocase(t, e, "preview"@));
    assert(!crate::chars::spec_tag_nocase(t, e, "beta"@));
    assert(!crate::chars::spec_tag_nocase(t, e, "a"@));
    assert(!crate::chars::spec_tag_nocase(t, e, "b"@));
    assert(!crate::chars::spec_tag_nocase(t, e, "c"@));
    assert(!crate::chars::spec_tag_nocase(t, e, "rc"@));
    assert(!crate::chars::spec_tag_nocase(t, e, "pre"@));
    assert(!crate::chars::spec_tag_nocase(t, e, "post"@));
    assert(!crate::chars::spec_tag_nocase(t, e, "rev"@));
    assert(!crate::chars::spec_tag_nocase(t, e, "r"@));
    assert(!crate::chars::spec_tag_nocase(t, e, "dev"@));
}

/// A local part as the parser itself produces it: numbers, or non-empty
/// lower-case alphanumeric strings that do not read back as a number.
pub open spec fn canonical_local_part(p: LocalPartV) -> bool {
    match p {
        LocalPartV::Num(_) => true,
        LocalPartV::LowerStr(s) => {
            &&& s.len() >= 1
            &&& forall|k: int|
                0 <= k < s.len() ==> is_alnum_char(#[trigger] s[k]) && lower_char(s[k]) == s[k]
            &&& !((forall|k: int| 0 <= k < s.len() ==> is_digit_char(#[trigger] s[k]))
                && digits_val(s, 0, s.len() as int) <= u64::MAX)
        },
    }
}

/// A version as the parser itself produces it: well-formed, with canonical
/// local parts.
pub open spec fn canonical_version(v: VersionV) -> bool {
    &&& v.wf()
    &&& match v.local {
        Some(ps) => forall|k: int| 0 <= k < ps.len() ==> canonical_local_part(#[trigger] ps[k]),
        None => true,
    }
}

/// An alphanumeric run ends exactly where the letters and digits end.
proof fn lemma_alnum_run_exact(s: Seq<char>, i: int, j: int)
    requires
        0 <= i <= j <= s.len(),
        forall|m: int| i <= m < j ==> is_alnum_char(s[m]),
        j == s.len() || !is_alnum_char(s[j]),
    ensures
        alnum_run_end(s, i) == j,
    decreases j - i,
{
    if i < j {
        lemma_alnum_run_exact(s, i + 1, j);
    }
}

/// The left form of a dot-joined local label.
proof fn lemma_join_locals_head(ps: Seq<LocalPartV>)
    requires
        ps.len() >= 1,
    ensures
        ps.len() == 1 ==> join_locals(ps) == local_part_text(ps[0]),
        ps.len() > 1 ==> join_locals(ps) == local_part_text(ps[0]) + seq!['.'] + join_locals(
            ps.drop_first(),
        ),
    decreases ps.len(),
{
    if ps.len() == 2 {
        assert(ps.drop_last() =~= seq![ps[0]]);
        assert(ps.drop_first() =~= seq![ps[1]]);
        assert(join_locals(ps) == join_locals(ps.drop_last()) + seq!['.'] + local_part_text(
            ps.last(),
        ));
        assert(join_locals(ps) =~= local_part_text(ps[0]) + seq!['.'] + join_locals(
            ps.drop_first(),
        ));
    } else if ps.len() > 2 {
        let dl = ps.drop_last();
        let df = ps.drop_first();
        lemma_join_locals_head(dl);
        assert(dl.drop_first() =~= df.drop_last());
        assert(dl[0] == ps[0]);
        assert(df.last() == ps.last());
        assert(join_locals(ps) == join_locals(dl) + seq!['.'] + local_part_text(ps.last()));
        assert(join_locals(dl) == local_part_text(ps[0]) + seq!['.'] + join_locals(
            df.drop_last(),
        ));
        assert(join_locals(df) == join_locals(df.drop_last()) + seq!['.'] + local_part_text(
            df.last(),
        ));
        assert(join_locals(ps) =~= local_part_text(ps[0]) + seq!['.'] + join_locals(df));
    }
}

/// The text of a canonical local part is non-empty and alphanumeric, and
/// classifies back to the part itself.
proof fn lemma_local_part_text(p: LocalPartV)
    requires
        canonical_local_part(p),
    ensures
        local_part_text(p).len() >= 1,
        forall|k: int|
            0 <= k < local_part_text(p).len() ==> is_alnum_char(#[trigger] local_part_text(p)[k]),
        classify_local(local_part_text(p)) == p,
{
    match p {
        LocalPartV::Num(n) => {
            lemma_dec_digits(n);
        },
        LocalPartV::LowerStr(s) => {
            assert(lower_seq(s) =~= s);
        },
    }
}

/// At a place where the text holds a dot and a further canonical local
/// label reaching the end of the text, the further-segments production
/// reads that label.
proof fn lemma_parse_local_more_at(t: Seq<char>, i: int, rest: Seq<LocalPartV>)
    requires
        0 <= i <= t.len(),
        forall|k: int| 0 <= k < rest.len() ==> canonical_local_part(#[trigger] rest[k]),
        rest.len() == 0 ==> i == t.len(),
        rest.len() >= 1 ==> i < t.len() && t[i] == '.' && i + 1 + join_locals(rest).len()
            == t.len() && (forall|m: int|
            0 <= m < join_locals(rest).len() ==> t[i + 1 + m] == #[trigger] join_locals(rest)[m]),
    ensures
        spec_local_more(t, i) == (t.len() as int, rest),
    decreases rest.len(),
{
    if rest.len() == 0 {
        assert(spec_local_more(t, i) == (i, Seq::<LocalPartV>::empty()));
        assert(Seq::<LocalPartV>::empty() =~= rest);
    } else {
        lemma_join_locals_head(rest);
        lemma_local_part_text(rest[0]);
        let text0 = local_part_text(rest[0]);
        let l0 = text0.len() as int;
        let segend = i + 1 + l0;
        assert forall|m: int| 0 <= m < l0 implies t[i + 1 + m] == #[trigger] text0[m] by {
            assert(t[i + 1 + m] == join_locals(rest)[m]);
            assert(join_locals(rest)[m] == text0[m]);
        }
        assert forall|m: int| i + 1 <= m < segend implies is_alnum_char(t[m]) by {
            assert(t[m] == text0[m - (i + 1)]);
        }
        if rest.len() == 1 {
            assert(segend == t.len());
        } else {
            assert(join_locals(rest)[l0] == '.');
            assert(t[i + 1 + l0] == join_locals(rest)[l0]);
            assert(!is_alnum_char('.'));
        }
        lemma_alnum_run_exact(t, i + 1, segend);
        assert(t.subrange(i + 1, segend) =~= text0);
        if rest.len() == 1 {
            lemma_parse_local_more_at(t, segend, rest.drop_first());
        } else {
            let df = rest.drop_first();
            assert forall|m: int|
                0 <= m < join_locals(df).len() implies t[segend + 1 + m] == #[trigger] join_locals(
                df,
            )[m] by {
                assert(join_locals(rest)[l0 + 1 + m] == join_locals(df)[m]);
                assert(t[i + 1 + (l0 + 1 + m)] == join_locals(rest)[l0 + 1 + m]);
            }
            lemma_parse_local_more_at(t, segend, df);
        }
        assert(seq![rest[0]] + rest.drop_first() =~= rest);
    }
}

/// At a place where the text holds `+` and a canonical local label reaching
/// the end of the text, the local production reads that label.
proof fn lemma_parse_local_at(t: Seq<char>, i: int, ps: Seq<LocalPartV>)
    requires
        0 <= i < t.len(),
        ps.len() >= 1,
        forall|k: int| 0 <= k < ps.len() ==> canonical_local_part(#[trigger] ps[k]),
        t[i] == '+',
        i + 1 + join_locals(ps).len() == t.len(),
        forall|m: int|
            0 <= m < join_locals(ps).len() ==> t[i + 1 + m] == #[trigger] join_locals(ps)[m],
    ensures
        spec_local(t, i) == Some((t.len() as int, ps)),
{
    lemma_join_locals_head(ps);
    lemma_local_part_text(ps[0]);
    let text0 = local_part_text(ps[0]);
    let l0 = text0.len() as int;
    let segend = i + 1 + l0;
    assert forall|m: int| 0 <= m < l0 implies t[i + 1 + m] == #[trigger] text0[m] by {
        assert(t[i + 1 + m] == join_locals(ps)[m]);
        assert(join_locals(ps)[m] == text0[m]);
    }
    assert forall|m: int| i + 1 <= m < segend implies is_alnum_char(t[m]) by {
        assert(t[m] == text0[m - (i + 1)]);
    }
    if ps.len() == 1 {
        assert(segend == t.len());
    } else {
        assert(join_locals(ps)[l0] == '.');
        assert(t[i + 1 + l0] == join_locals(ps)[l0]);
        assert(!is_alnum_char('.'));
    }
    lemma_alnum_run_exact(t, i + 1, segend);
    assert(t.subrange(i + 1, segend) =~= text0);
    if ps.len() == 1 {
        lemma_parse_local_more_at(t, segend, ps.drop_first());
    } else {
        let df = ps.drop_first();
        assert forall|m: int|
            0 <= m < join_locals(df).len() implies t[segend + 1 + m] == #[trigger] join_locals(
            df,
        )[m] by {
            assert(join_locals(ps)[l0 + 1 + m] == join_locals(df)[m]);
            assert(t[i + 1 + (l0 + 1 + m)] == join_locals(ps)[l0 + 1 + m]);
        }
        lemma_parse_local_more_at(t, segend, df);
    }
    assert(seq![ps[0]] + ps.drop_first() =~= ps);
}

/// At a place where the text holds a normalized pre-release letter and its
/// number with no digit after them, the pre production reads that segment.
proof fn lemma_parse_pre_at(t: Seq<char>, i: int, l: Seq<char>, pl: int, n: u64)
    requires
        0 <= i,
        (l == "a"@ && pl == 1) || (l == "b"@ && pl == 1) || (l == "rc"@ && pl == 2),
        i + pl + dec_digits(n).len() <= t.len(),
        forall|m: int| 0 <= m < pl ==> t[i + m] == #[trigger] l[m],
        forall|m: int|
            0 <= m < dec_digits(n).len() ==> t[i + pl + m] == #[trigger] dec_digits(n)[m],
        i + pl + dec_digits(n).len() == t.len() || !is_digit_char(t[i + pl + dec_digits(n).len()]),
    ensures
        spec_pre(t, i) == Some((i + pl + dec_digits(n).len() as int, (l, n))),
{
    reveal_strlit("alpha");
    reveal_strlit("preview");
    reveal_strlit("beta");
    reveal_strlit("a");
    reveal_strlit("b");
    reveal_strlit("c");
    reveal_strlit("rc");
    reveal_strlit("pre");
    lemma_dec_digits(n);
    lemma_tag_nocase_iff(t, i, "alpha"@, 0);
    lemma_tag_nocase_iff(t, i, "preview"@, 0);
    lemma_tag_nocase_iff(t, i, "beta"@, 0);
    lemma_tag_nocase_iff(t, i, "a"@, 0);
    lemma_tag_nocase_iff(t, i, "b"@, 0);
    lemma_tag_nocase_iff(t, i, "c"@, 0);
    lemma_tag_nocase_iff(t, i, "rc"@, 0);
    assert(t[i] == l[0]);
    assert(t[i + pl] == dec_digits(n)[0]);
    assert(is_digit_char(t[i + pl]));
    assert(spec_sep(t, i) == i);
    if l == "a"@ {
        // `alpha` would need an `l` where a digit stands.
        assert(lower_char(t[i + 1]) != 'l');
        assert(spec_pre_l(t, i) == Some((i + 1, "a"@)));
    } else if l == "b"@ {
        assert(lower_char(t[i + 1]) != 'e');
        assert(spec_pre_l(t, i) == Some((i + 1, "b"@)));
    } else {
        assert(t[i + 1] == l[1]);
        assert(spec_pre_l(t, i) == Some((i + 2, "rc"@)));
    }
    assert(spec_sep(t, i + pl) == i + pl);
    lemma_parse_u64_at(t, i + pl, n);
}

/// Where the text continues with a post segment, a dev segment, a local
/// label or nothing, no pre-release letter matches.
proof fn lemma_pre_none_at(t: Seq<char>, i: int)
    requires
        0 <= i <= t.len(),
        ({
            ||| i == t.len()
            ||| t[i] == '+'
            ||| (t[i] == '.' && i + 2 < t.len() && t[i + 1] == 'p' && t[i + 2] == 'o')
            ||| (t[i] == '.' && i + 1 < t.len() && t[i + 1] == 'd')
        }),
    ensures
        spec_pre(t, i) is None,
{
    reveal_strlit("alpha");
    reveal_strlit("preview");
    reveal_strlit("beta");
    reveal_strlit("a");
    reveal_strlit("b");
    reveal_strlit("c");
    reveal_strlit("rc");
    reveal_strlit("pre");
    let i1 = spec_sep(t, i);
    lemma_tag_nocase_iff(t, i1, "alpha"@, 0);
    lemma_tag_nocase_iff(t, i1, "preview"@, 0);
    lemma_tag_nocase_iff(t, i1, "beta"@, 0);
    lemma_tag_nocase_iff(t, i1, "a"@, 0);
    lemma_tag_nocase_iff(t, i1, "b"@, 0);
    lemma_tag_nocase_iff(t, i1, "c"@, 0);
    lemma_tag_nocase_iff(t, i1, "rc"@, 0);
    lemma_tag_nocase_iff(t, i1, "pre"@, 0);
    if i == t.len() {
        assert(i1 == i);
    } else if t[i] == '+' {
        assert(i1 == i);
        assert(lower_char(t[i1]) == '+');
    } else if t[i] == '.' && i + 2 < t.len() && t[i + 1] == 'p' && t[i + 2] == 'o' {
        assert(i1 == i + 1);
        assert(lower_char(t[i1]) == 'p');
        assert(lower_char(t[i1 + 1]) == 'o');
    } else {
        assert(i1 == i + 1);
        assert(lower_char(t[i1]) == 'd');
    }
    assert(spec_pre_l(t, i1) is None);
}

/// At a place where the text holds `.post` and a number with no digit after
/// them, the post production reads that segment.
proof fn lemma_parse_post_at(t: Seq<char>, i: int, n: u64)
    requires
        0 <= i,
        i + 5 + dec_digits(n).len() <= t.len(),
        t[i] == '.',
        t[i + 1] == 'p',
        t[i + 2] == 'o',
        t[i + 3] == 's',
        t[i + 4] == 't',
        forall|m: int|
            0 <= m < dec_digits(n).len() ==> t[i + 5 + m] == #[trigger] dec_digits(n)[m],
        i + 5 + dec_digits(n).len() == t.len() || !is_digit_char(t[i + 5 + dec_digits(n).len()]),
    ensures
        spec_post(t, i) == Some((i + 5 + dec_digits(n).len() as int, ("post"@, n))),
{
    reveal_strlit("post");
    lemma_dec_digits(n);
    assert(spec_sep(t, i) == i + 1);
    lemma_tag_nocase_iff(t, i + 1, "post"@, 0);
    assert forall|m: int|
        0 <= m < 4 implies i + 1 + m < t.len() && lower_char(#[trigger] t[i + 1 + m])
            == "post"@[m] by {
        if m == 0 {
            assert(t[i + 1] == 'p');
        } else if m == 1 {
            assert(t[i + 2] == 'o');
        } else if m == 2 {
            assert(t[i + 3] == 's');
        } else {
            assert(t[i + 4] == 't');
        }
    }
    assert(crate::version_parse::spec_post_l(t, i + 1) == Some(i + 5));
    assert(t[i + 5] == dec_digits(n)[0]);
    assert(is_digit_char(t[i + 5]));
    assert(spec_sep(t, i + 5) == i + 5);
    lemma_parse_u64_at(t, i + 5, n);
}

/// Where the text continues with a dev segment, a local label or nothing,
/// no post-release letter matches.
proof fn lemma_post_none_at(t: Seq<char>, i: int)
    requires
        0 <= i <= t.len(),
        ({
            ||| i == t.len()
            ||| t[i] == '+'
            ||| (t[i] == '.' && i + 1 < t.len() && t[i + 1] == 'd')
        }),
    ensures
        spec_post(t, i) is None,
{
    reveal_strlit("post");
    reveal_strlit("rev");
    reveal_strlit("r");
    let i1 = spec_sep(t, i);
    lemma_tag_nocase_iff(t, i1, "post"@, 0);
    lemma_tag_nocase_iff(t, i1, "rev"@, 0);
    lemma_tag_nocase_iff(t, i1, "r"@, 0);
    if i == t.len() {
        assert(i1 == i);
    } else if t[i] == '+' {
        assert(i1 == i);
        assert(lower_char(t[i1]) == '+');
    } else {
        assert(i1 == i + 1);
        assert(lower_char(t[i1]) == 'd');
    }
    assert(crate::version_parse::spec_post_l(t, i1) is None);
}

/// At a place where the text holds `.dev` and a number with no digit after
/// them, the dev production reads that segment.
proof fn lemma_parse_dev_at(t: Seq<char>, i: int, n: u64)
    requires
        0 <= i,
        i + 4 + dec_digits(n).len() <= t.len(),
        t[i] == '.',
        t[i + 1] == 'd',
        t[i + 2] == 'e',
        t[i + 3] == 'v',
        forall|m: int|
            0 <= m < dec_digits(n).len() ==> t[i + 4 + m] == #[trigger] dec_digits(n)[m],
        i + 4 + dec_digits(n).len() == t.len() || !is_digit_char(t[i + 4 + dec_digits(n).len()]),
    ensures
        spec_dev(t, i) == Some((i + 4 + dec_digits(n).len() as int, ("dev"@, n))),
{
    reveal_strlit("dev");
    lemma_dec_digits(n);
    assert(spec_sep(t, i) == i + 1);
    lemma_tag_nocase_iff(t, i + 1, "dev"@, 0);
    assert forall|m: int|
        0 <= m < 3 implies i + 1 + m < t.len() && lower_char(#[trigger] t[i + 1 + m])
            == "dev"@[m] by {
        if m == 0 {
            assert(t[i + 1] == 'd');
        } else if m == 1 {
            assert(t[i + 2] == 'e');
        } else {
            assert(t[i + 3] == 'v');
        }
    }
    assert(t[i + 4] == dec_digits(n)[0]);
    assert(is_digit_char(t[i + 4]));
    assert(spec_sep(t, i + 4) == i + 4);
    lemma_parse_u64_at(t, i + 4, n);
}

/// Where the text continues with a local label or nothing, no dev keyword
/// matches.
proof fn lemma_dev_none_at(t: Seq<char>, i: int)
    requires
        0 <= i <= t.len(),
        i == t.len() || t[i] == '+',
    ensures
        spec_dev(t, i) is None,
{
    reveal_strlit("dev");
    let i1 = spec_sep(t, i);
    assert(i1 == i);
    lemma_tag_nocase_iff(t, i1, "dev"@, 0);
    if i < t.len() {
        assert(lower_char(t[i1]) == '+');
    }
}

/// The pieces of the full canonical text of a version.
pub open spec fn piece_ep(v: VersionV) -> Seq<char> {
    if v.epoch != 0 {
        dec_digits(v.epoch) + seq!['!']
    } else {
        Seq::empty()
    }
}

/// The pre-release piece of the canonical text.
pub open spec fn piece_pp(v: VersionV) -> Seq<char> {
    match v.pre {
        Some((l, n)) => l + dec_digits(n),
        None => Seq::empty(),
    }
}

/// The post-release piece of the canonical text.
pub open spec fn piece_qp(v: VersionV) -> Seq<char> {
    match v.post {
        Some((_, n)) => ".post"@ + dec_digits(n),
        None => Seq::empty(),
    }
}

/// The dev-release piece of the canonical text.
pub open spec fn piece_dp(v: VersionV) -> Seq<char> {
    match v.dev {
        Some((_, n)) => ".dev"@ + dec_digits(n),
        None => Seq::empty(),
    }
}

/// The local-label piece of the canonical text.
pub open spec fn piece_lp(v: VersionV) -> Seq<char> {
    match v.local {
        Some(ps) => seq!['+'] + join_locals(ps),
        None => Seq::empty(),
    }
}

/// Positions of the piece boundaries in the canonical text.
pub open spec fn q1(v: VersionV) -> int {
    piece_ep(v).len() as int
}

/// End of the release piece.
pub open spec fn q2(v: VersionV) -> int {
    q1(v) + join_nums(v.release).len()
}

/// End of the pre piece.
pub open spec fn q3(v: VersionV) -> int {
    q2(v) + piece_pp(v).len()
}

/// End of the post piece.
pub open spec fn q4(v: VersionV) -> int {
    q3(v) + piece_qp(v).len()
}

/// End of the dev piece.
pub open spec fn q5(v: VersionV) -> int {
    q4(v) + piece_dp(v).len()
}

/// The canonical text decomposes into its pieces.
proof fn lemma_rt_decompose(v: VersionV)
    ensures
        render_version(v, false, true) == piece_ep(v) + join_nums(v.release) + piece_pp(v)
            + piece_qp(v) + piece_dp(v) + piece_lp(v),
{
}

/// Window facts: each piece of the canonical text reads back at its place.
proof fn lemma_rt_windows(v: VersionV)
    ensures
        render_version(v, false, true).len() == q5(v) + piece_lp(v).len(),
        forall|m: int|
            0 <= m < piece_ep(v).len() ==> render_version(v, false, true)[m]
                == #[trigger] piece_ep(v)[m],
        forall|m: int|
            0 <= m < join_nums(v.release).len() ==> render_version(v, false, true)[q1(v) + m]
                == #[trigger] join_nums(v.release)[m],
        forall|m: int|
            0 <= m < piece_pp(v).len() ==> render_version(v, false, true)[q2(v) + m]
                == #[trigger] piece_pp(v)[m],
        forall|m: int|
            0 <= m < piece_qp(v).len() ==> render_version(v, false, true)[q3(v) + m]
                == #[trigger] piece_qp(v)[m],
        forall|m: int|
            0 <= m < piece_dp(v).len() ==> render_version(v, false, true)[q4(v) + m]
                == #[trigger] piece_dp(v)[m],
        forall|m: int|
            0 <= m < piece_lp(v).len() ==> render_version(v, false, true)[q5(v) + m]
                == #[trigger] piece_lp(v)[m],
{
    lemma_rt_decompose(v);
    let t = render_version(v, false, true);
    let ep = piece_ep(v);
    let rp = join_nums(v.release);
    let pp = piece_pp(v);
    let qp = piece_qp(v);
    let dp = piece_dp(v);
    let lp = piece_lp(v);
    let c2 = ep + rp;
    let c3 = c2 + pp;
    let c4 = c3 + qp;
    let c5 = c4 + dp;
    assert(t == c5 + lp);
    assert forall|m: int| 0 <= m < ep.len() implies t[m] == #[trigger] ep[m] by {
        assert(t[m] == c5[m]);
        assert(c5[m] == c4[m]);
        assert(c4[m] == c3[m]);
        assert(c3[m] == c2[m]);
    }
    assert forall|m: int| 0 <= m < rp.len() implies t[q1(v) + m] == #[trigger] rp[m] by {
        assert(t[q1(v) + m] == c5[q1(v) + m]);
        assert(c5[q1(v) + m] == c4[q1(v) + m]);
        assert(c4[q1(v) + m] == c3[q1(v) + m]);
        assert(c3[q1(v) + m] == c2[q1(v) + m]);
    }
    assert forall|m: int| 0 <= m < pp.len() implies t[q2(v) + m] == #[trigger] pp[m] by {
        assert(t[q2(v) + m] == c5[q2(v) + m]);
        assert(c5[q2(v) + m] == c4[q2(v) + m]);
        assert(c4[q2(v) + m] == c3[q2(v) + m]);
    }
    assert forall|m: int| 0 <= m < qp.len() implies t[q3(v) + m] == #[trigger] qp[m] by {
        assert(t[q3(v) + m] == c5[q3(v) + m]);
        assert(c5[q3(v) + m] == c4[q3(v) + m]);
    }
    assert forall|m: int| 0 <= m < dp.len() implies t[q4(v) + m] == #[trigger] dp[m] by {
        assert(t[q4(v) + m] == c5[q4(v) + m]);
    }
    assert forall|m: int| 0 <= m < lp.len() implies t[q5(v) + m] == #[trigger] lp[m] by {
        assert(t[q5(v) + m] == lp[m]);
    }
}

/// The first characters of the optional pieces, where present.
proof fn lemma_rt_firsts(v: VersionV)
    requires
        canonical_version(v),
    ensures
        v.pre is Some ==> (render_version(v, false, true)[q2(v)] == 'a' || render_version(
            v,
            false,
            true,
        )[q2(v)] == 'b' || render_version(v, false, true)[q2(v)] == 'r'),
        v.post is Some ==> render_version(v, false, true)[q3(v)] == '.' && render_version(
            v,
            false,
            true,
        )[q3(v) + 1] == 'p' && render_version(v, false, true)[q3(v) + 2] == 'o',
        v.dev is Some ==> render_version(v, false, true)[q4(v)] == '.' && render_version(
            v,
            false,
            true,
        )[q4(v) + 1] == 'd',
        v.local is Some ==> render_version(v, false, true)[q5(v)] == '+',
        v.pre is Some ==> piece_pp(v).len() >= 2,
        v.post is Some ==> piece_qp(v).len() >= 6,
        v.dev is Some ==> piece_dp(v).len() >= 5,
        v.local is Some ==> piece_lp(v).len() >= 2,
{
    reveal_strlit(".post");
    reveal_strlit(".dev");
    reveal_strlit("a");
    reveal_strlit("b");
    reveal_strlit("rc");
    assert(".post"@ =~= seq!['.', 'p', 'o', 's', 't']);
    assert(".dev"@ =~= seq!['.', 'd', 'e', 'v']);
    lemma_rt_windows(v);
    let t = render_version(v, false, true);
    if v.pre is Some {
        let l = v.pre->Some_0.0;
        let n = v.pre->Some_0.1;
        lemma_dec_digits(n);
        assert(piece_pp(v) == l + dec_digits(n));
        assert(piece_pp(v)[0] == l[0]);
        assert(t[q2(v)] == piece_pp(v)[0]);
    }
    if v.post is Some {
        lemma_dec_digits(v.post->Some_0.1);
        assert(t[q3(v)] == piece_qp(v)[0]);
        assert(t[q3(v) + 1] == piece_qp(v)[1]);
        assert(t[q3(v) + 2] == piece_qp(v)[2]);
    }
    if v.dev is Some {
        lemma_dec_digits(v.dev->Some_0.1);
        assert(t[q4(v)] == piece_dp(v)[0]);
        assert(t[q4(v) + 1] == piece_dp(v)[1]);
    }
    if v.local is Some {
        let ps = v.local->Some_0;
        lemma_join_locals_head(ps);
        lemma_local_part_text(ps[0]);
        assert(t[q5(v)] == piece_lp(v)[0]);
    }
}

/// The head of the canonical text: no leading `v`, the epoch piece, and the
/// release.
proof fn lemma_rt_head(v: VersionV)
    requires
        canonical_version(v),
    ensures
        render_version(v, false, true).len() > 0,
        render_version(v, false, true)[0] != 'v',
        v.epoch != 0 ==> spec_epoch(render_version(v, false, true), 0) == Some((q1(v), v.epoch)),
        v.epoch == 0 ==> spec_epoch(render_version(v, false, true), 0) is None,
        spec_release(render_version(v, false, true), q1(v)) == Some((q2(v), v.release)),
{
    lemma_rt_windows(v);
    lemma_rt_firsts(v);
    let t = render_version(v, false, true);
    let ep = piece_ep(v);
    let rp = join_nums(v.release);
    lemma_join_nums_head(v.release);
    lemma_dec_digits(v.release[0]);
    if v.epoch != 0 {
        lemma_dec_digits(v.epoch);
        assert(t[0] == dec_digits(v.epoch)[0]);
    } else {
        assert(t[0] == rp[0]);
        assert(rp[0] == dec_digits(v.release[0])[0]);
    }
    assert(is_digit_char(t[0]));
    if v.epoch != 0 {
        lemma_dec_digits(v.epoch);
        let dl = dec_digits(v.epoch).len() as int;
        assert forall|m: int|
            0 <= m < dl implies t[0 + m] == #[trigger] dec_digits(v.epoch)[m] by {
            assert(t[m] == ep[m]);
        }
        assert(t[dl] == ep[dl]);
        assert(t[dl] == '!');
        lemma_parse_u64_at(t, 0, v.epoch);
    } else {
        assert forall|m: int|
            0 <= m < dec_digits(v.release[0]).len() implies t[0 + m] == #[trigger] dec_digits(
            v.release[0],
        )[m] by {
            assert(t[m] == rp[m]);
            assert(rp[m] == dec_digits(v.release[0])[m]);
        }
        let g = dec_digits(v.release[0]).len() as int;
        if v.release.len() > 1 {
            assert(t[g] == rp[g]);
            assert(rp[g] == '.');
        } else {
            assert(g == q2(v));
            if q2(v) < t.len() {
                assert(t[q2(v)] != '!');
            }
        }
        lemma_parse_u64_at(t, 0, v.release[0]);
    }
    assert(release_boundary(t, q2(v))) by {
        if q2(v) < t.len() {
            if v.pre is Some {
                assert(!is_digit_char(t[q2(v)]));
                assert(t[q2(v)] != '.');
            } else if v.post is Some {
                assert(t[q2(v)] == '.');
                assert(!is_digit_char(t[q2(v) + 1]));
            } else if v.dev is Some {
                assert(t[q2(v)] == '.');
                assert(!is_digit_char(t[q2(v) + 1]));
            } else if v.local is Some {
                assert(t[q2(v)] == '+');
            } else {
                assert(false);
            }
        }
    }
    lemma_parse_release_at(t, q1(v), v.release);
}

/// The segment portion of the canonical text: pre, post, dev and local
/// parse at their places, and are absent where the version has none.
#[verifier::rlimit(100)]
proof fn lemma_rt_segments(v: VersionV)
    requires
        canonical_version(v),
    ensures
        match v.pre {
            Some(p) => spec_pre(render_version(v, false, true), q2(v)) == Some((q3(v), p)),
            None => spec_pre(render_version(v, false, true), q2(v)) is None,
        },
        match v.post {
            Some(p) => spec_post(render_version(v, false, true), q3(v)) == Some((q4(v), p)),
            None => spec_post(render_version(v, false, true), q3(v)) is None,
        },
        match v.dev {
            Some(p) => spec_dev(render_version(v, false, true), q4(v)) == Some((q5(v), p)),
            None => spec_dev(render_version(v, false, true), q4(v)) is None,
        },
        match v.local {
            Some(ps) => spec_local(render_version(v, false, true), q5(v)) == Some(
                (render_version(v, false, true).len() as int, ps),
            ),
            None => spec_local(render_version(v, false, true), q5(v)) is None,
        },
{
    reveal_strlit(".post");
    reveal_strlit(".dev");
    reveal_strlit("a");
    reveal_strlit("b");
    reveal_strlit("rc");
    assert(".post"@ =~= seq!['.', 'p', 'o', 's', 't']);
    assert(".dev"@ =~= seq!['.', 'd', 'e', 'v']);
    lemma_rt_windows(v);
    lemma_rt_firsts(v);
    let t = render_version(v, false, true);
    let pp = piece_pp(v);
    let qp = piece_qp(v);
    let dp = piece_dp(v);
    let lp = piece_lp(v);
    if v.pre is Some {
        let l = v.pre->Some_0.0;
        let n = v.pre->Some_0.1;
        let pl: int = if l == "rc"@ {
            2
        } else {
            1
        };
        assert(l.len() == pl);
        assert forall|m: int| 0 <= m < pl implies t[q2(v) + m] == #[trigger] l[m] by {
            assert(t[q2(v) + m] == pp[m]);
            assert(pp[m] == l[m]);
        }
        assert forall|m: int|
            0 <= m < dec_digits(n).len() implies t[q2(v) + pl + m] == #[trigger] dec_digits(
            n,
        )[m] by {
            assert(t[q2(v) + (pl + m)] == pp[pl + m]);
            assert(pp[pl + m] == dec_digits(n)[m]);
        }
        assert(q3(v) == q2(v) + pl + dec_digits(n).len()) by {
            lemma_dec_digits(n);
        }
        assert(q3(v) == t.len() || !is_digit_char(t[q3(v)]));
        lemma_parse_pre_at(t, q2(v), l, pl, n);
    } else {
        lemma_pre_none_at(t, q2(v));
    }
    if v.post is Some {
        let n = v.post->Some_0.1;
        assert forall|m: int|
            0 <= m < dec_digits(n).len() implies t[q3(v) + 5 + m] == #[trigger] dec_digits(
            n,
        )[m] by {
            assert(t[q3(v) + (5 + m)] == qp[5 + m]);
            assert(qp[5 + m] == dec_digits(n)[m]);
        }
        assert(t[q3(v) + 3] == qp[3]);
        assert(t[q3(v) + 4] == qp[4]);
        assert(q4(v) == q3(v) + 5 + dec_digits(n).len()) by {
            lemma_dec_digits(n);
        }
        assert(q4(v) == t.len() || !is_digit_char(t[q4(v)]));
        lemma_parse_post_at(t, q3(v), n);
        assert(v.post->Some_0 == ("post"@, n));
    } else {
        lemma_post_none_at(t, q3(v));
    }
    if v.dev is Some {
        let n = v.dev->Some_0.1;
        assert forall|m: int|
            0 <= m < dec_digits(n).len() implies t[q4(v) + 4 + m] == #[trigger] dec_digits(
            n,
        )[m] by {
            assert(t[q4(v) + (4 + m)] == dp[4 + m]);
            assert(dp[4 + m] == dec_digits(n)[m]);
        }
        assert(t[q4(v) + 2] == dp[2]);
        assert(t[q4(v) + 3] == dp[3]);
        assert(q5(v) == q4(v) + 4 + dec_digits(n).len()) by {
            lemma_dec_digits(n);
        }
        assert(q5(v) == t.len() || !is_digit_char(t[q5(v)]));
        lemma_parse_dev_at(t, q4(v), n);
        assert(v.dev->Some_0 == ("dev"@, n));
    } else {
        lemma_dev_none_at(t, q4(v));
    }
    if v.local is Some {
        let ps = v.local->Some_0;
        assert forall|m: int|
            0 <= m < join_locals(ps).len() implies t[q5(v) + 1 + m] == #[trigger] join_locals(
            ps,
        )[m] by {
            assert(t[q5(v) + (1 + m)] == lp[1 + m]);
            assert(lp[1 + m] == join_locals(ps)[m]);
        }
        assert(q5(v) + 1 + join_locals(ps).len() == t.len());
        lemma_parse_local_at(t, q5(v), ps);
    } else {
        assert(q5(v) == t.len());
    }
}

/// The full canonical text of a version parses back to exactly that
/// version, consuming the whole text: rendering loses nothing.
pub proof fn lemma_canonical_roundtrip(v: VersionV)
    requires
        canonical_version(v),
    ensures
        spec_version_scheme(render_version(v, false, true), 0) == Some(
            (render_version(v, false, true).len() as int, v),
        ),
        spec_full_version(render_version(v, false, true)) == Some(v),
{
    lemma_rt_windows(v);
    lemma_rt_head(v);
    lemma_rt_segments(v);
    let t = render_version(v, false, true);
    match spec_version_scheme(t, 0) {
        Some((j, w)) => {
            assert(j == t.len());
            assert(w =~= v);
        },
        None => {
            assert(false);
        },
    }
}

/// Facts about lower-casing: it keeps letters and digits, is idempotent,
/// and leaves digits alone.
proof fn lemma_lower_char_props(c: char)
    ensures
        is_alnum_char(c) ==> is_alnum_char(lower_char(c)) && lower_char(lower_char(c))
            == lower_char(c),
        is_digit_char(lower_char(c)) == is_digit_char(c),
        is_digit_char(c) ==> lower_char(c) == c,
{
}

/// The classification of a non-empty alphanumeric segment is canonical.
proof fn lemma_classify_canonical(seg: Seq<char>)
    requires
        seg.len() >= 1,
        forall|k: int| 0 <= k < seg.len() ==> is_alnum_char(#[trigger] seg[k]),
    ensures
        canonical_local_part(classify_local(seg)),
{
    if (forall|m: int| 0 <= m < seg.len() ==> is_digit_char(seg[m])) && digits_val(
        seg,
        0,
        seg.len() as int,
    ) <= u64::MAX {
    } else {
        let ls = lower_seq(seg);
        assert(ls.len() == seg.len());
        assert forall|k: int|
            0 <= k < ls.len() implies is_alnum_char(#[trigger] ls[k]) && lower_char(ls[k])
                == ls[k] by {
            assert(ls[k] == lower_char(seg[k]));
            lemma_lower_char_props(seg[k]);
        }
        if forall|m: int| 0 <= m < seg.len() ==> is_digit_char(seg[m]) {
            assert(ls =~= seg) by {
                assert forall|k: int| 0 <= k < seg.len() implies ls[k] == seg[k] by {
                    lemma_lower_char_props(seg[k]);
                }
            }
            assert(digits_val(ls, 0, ls.len() as int) > u64::MAX);
        } else {
            let k0 = choose|m: int| 0 <= m < seg.len() && !is_digit_char(seg[m]);
            assert(!is_digit_char(ls[k0])) by {
                assert(ls[k0] == lower_char(seg[k0]));
                lemma_lower_char_props(seg[k0]);
            }
            assert(!(forall|m: int| 0 <= m < ls.len() ==> is_digit_char(#[trigger] ls[m])));
        }
    }
}

/// Every local part the further-segments production yields is canonical.
proof fn lemma_local_more_canonical(s: Seq<char>, i: int)
    requires
        0 <= i,
    ensures
        forall|k: int|
            0 <= k < spec_local_more(s, i).1.len() ==> canonical_local_part(
                #[trigger] spec_local_more(s, i).1[k],
            ),
    decreases s.len() - i,
{
    if 0 <= i < s.len() && crate::chars::is_sep_char(s[i]) {
        let j = alnum_run_end(s, i + 1);
        if i + 1 < j <= s.len() {
            crate::chars::lemma_alnum_run(s, i + 1);
            let seg = s.subrange(i + 1, j);
            assert forall|k: int| 0 <= k < seg.len() implies is_alnum_char(#[trigger] seg[k]) by {
                assert(seg[k] == s[i + 1 + k]);
            }
            lemma_classify_canonical(seg);
            lemma_local_more_canonical(s, j);
            let res = spec_local_more(s, i).1;
            assert forall|k: int|
                0 <= k < res.len() implies canonical_local_part(#[trigger] res[k]) by {
                if k == 0 {
                } else {
                    assert(res[k] == spec_local_more(s, j).1[k - 1]);
                }
            }
        }
    }
}

/// Every version the grammar yields is canonical, so its canonical text
/// parses back to it.
pub proof fn lemma_parsed_canonical(s: Seq<char>, i: int)
    requires
        0 <= i <= s.len(),
        spec_version_scheme(s, i) is Some,
    ensures
        canonical_version(spec_version_scheme(s, i)->Some_0.1),
{
    let v = spec_version_scheme(s, i)->Some_0.1;
    match v.local {
        Some(ps) => {
            let i0 = if 0 <= i < s.len() && s[i] == 'v' {
                i + 1
            } else {
                i
            };
            let ep = match spec_epoch(s, i0) {
                Some((j, w)) => (j, w),
                None => (i0, 0u64),
            };
            let rl = spec_release(s, ep.0)->Some_0;
            let pr = match spec_pre(s, rl.0) {
                Some((j, p)) => (j, Some(p)),
                None => (rl.0, None),
            };
            let po = match spec_post(s, pr.0) {
                Some((j, p)) => (j, Some(p)),
                None => (pr.0, None),
            };
            let de = match spec_dev(s, po.0) {
                Some((j, p)) => (j, Some(p)),
                None => (po.0, None),
            };
            let li = de.0;
            assert(spec_local(s, li) is Some);
            assert(ps == spec_local(s, li)->Some_0.1);
            if 0 <= li < s.len() && s[li] == '+' {
                let j = alnum_run_end(s, li + 1);
                if li + 1 < j <= s.len() {
                    crate::chars::lemma_alnum_run(s, li + 1);
                    let seg = s.subrange(li + 1, j);
                    assert forall|k: int|
                        0 <= k < seg.len() implies is_alnum_char(#[trigger] seg[k]) by {
                        assert(seg[k] == s[li + 1 + k]);
                    }
                    lemma_classify_canonical(seg);
                    lemma_local_more_canonical(s, j);
                    assert forall|k: int|
                        0 <= k < ps.len() implies canonical_local_part(#[trigger] ps[k]) by {
                        if k == 0 {
                        } else {
                            assert(ps[k] == spec_local_more(s, j).1[k - 1]);
                        }
                    }
                }
            }
        },
        None => {},
    }
}

/// Round trip: the canonical text of any version the grammar yields parses
/// back, in whole, to that very version — in particular to one equal by
/// the ordering key.
pub proof fn lemma_version_text_roundtrip(s: Seq<char>, i: int, j: int, v: VersionV)
    requires
        0 <= i <= s.len(),
        spec_version_scheme(s, i) == Some((j, v)),
    ensures
        spec_full_version(render_version(v, false, true)) == Some(v),
{
    lemma_parsed_canonical(s, i);
    lemma_canonical_roundtrip(v);
}

/// The wildcard prefix of a version, applied as an `==` constraint,
/// contains that version, whenever the release has at least two components
/// (a single-component release leaves a bare `.*`, which nothing matches).
#[verifier::rlimit(100)]
pub proof fn lemma_prefix_wildcard_contains(v: VersionV)
    requires
        v.wf(),
        v.release.len() >= 2,
    ensures
        spec_equal(v, render_prefix(v)),
{
    reveal_strlit(".*");
    let t = render_prefix(v);
    let ep: Seq<char> = if v.epoch != 0 {
        dec_digits(v.epoch) + seq!['!']
    } else {
        Seq::empty()
    };
    let rel = v.release.drop_last();
    let rp = join_nums(rel);
    assert(".*"@ =~= seq!['.', '*']);
    assert(t == ep + rp + ".*"@);
    lemma_join_nums_head(rel);
    lemma_dec_digits(rel[0]);
    assert(rp.len() >= 1);
    let el = ep.len() as int;
    let rl = rp.len() as int;
    let hl = el + rl;
    assert(t.len() == hl + 2);
    assert(t[hl] == '.');
    assert(t[hl + 1] == '*');
    assert(has_wildcard(t));
    let head = t.take(hl);
    assert(head =~= ep + rp);

    // The optional leading `v` is absent: the head starts with a digit.
    if v.epoch != 0 {
        lemma_dec_digits(v.epoch);
        assert(head[0] == dec_digits(v.epoch)[0]);
    } else {
        assert(head[0] == rp[0]);
        assert(rp[0] == dec_digits(rel[0])[0]);
    }
    assert(is_digit_char(head[0]));
    assert(head[0] != 'v');

    // The epoch part.
    if v.epoch != 0 {
        lemma_dec_digits(v.epoch);
        let dl = dec_digits(v.epoch).len() as int;
        assert forall|m: int|
            0 <= m < dl implies head[0 + m] == #[trigger] dec_digits(v.epoch)[m] by {
            assert(head[m] == ep[m]);
        }
        assert(head[dl] == ep[dl]);
        assert(head[dl] == '!');
        lemma_parse_u64_at(head, 0, v.epoch);
        assert(spec_epoch(head, 0) == Some((el, v.epoch)));
    } else {
        // No `!` follows the first digit group, so the epoch is absent.
        assert forall|m: int|
            0 <= m < dec_digits(rel[0]).len() implies head[0 + m] == #[trigger] dec_digits(
            rel[0],
        )[m] by {
            assert(head[m] == rp[m]);
            assert(rp[m] == dec_digits(rel[0])[m]);
        }
        let g = dec_digits(rel[0]).len() as int;
        if rel.len() == 1 {
            assert(g == hl);
        } else {
            assert(head[g] == rp[g]);
            assert(rp[g] == '.');
        }
        lemma_parse_u64_at(head, 0, rel[0]);
        assert(spec_epoch(head, 0) is None);
    }

    // The release part.
    assert forall|m: int| 0 <= m < rl implies head[el + m] == #[trigger] rp[m] by {
        assert(head[el + m] == (ep + rp)[el + m]);
    }
    assert(release_boundary(head, el + rl));
    lemma_parse_release_at(head, el, rel);

    // Nothing follows.
    lemma_segments_none_at_end(head, hl);

    let sv = VersionV {
        epoch: v.epoch,
        release: rel,
        pre: None,
        post: None,
        dev: None,
        local: None,
    };
    assert(spec_version_scheme(head, 0) == Some((hl, sv)));
    assert(spec_full_version(head) == Some(sv));
    assert(wildcard_release_match(v.release, rel));
}

} // verus!

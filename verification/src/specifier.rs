//! Version constraints: one comparison operator with a version text, and the
//! containment semantics of the eight operators.
//!
//! The version text of a constraint is kept as written, wildcard suffix
//! included, and parsed anew at each containment check: a candidate text that
//! does not parse as a version is never an error, the check just fails.

use crate::chars::{eq_nocase, str_eq_nocase};
use crate::version::{
    base_of, clone_locals, public_of, render_prefix, render_version, ver_cmp, Version, VersionV,
};
use crate::version_parse::{spec_version_scheme, version_at};
use core::cmp::Ordering;
use vstd::prelude::*;

verus! {

/// The eight comparison operators of a version constraint.
#[derive(Debug, PartialEq, Eq, Structural, Clone, Copy)]
pub enum Comparison {
    LessThan,
    LessThanOrEqual,
    NotEqual,
    Equal,
    GreaterThanOrEqual,
    GreaterThan,
    CompatibleRelease,
    ArbitraryEqual,
}

/// The operator a token stands for, by exact-text lookup.
pub open spec fn spec_comparison_of(s: Seq<char>) -> Option<Comparison> {
    if s == "<"@ {
        Some(Comparison::LessThan)
    } else if s == "<="@ {
        Some(Comparison::LessThanOrEqual)
    } else if s == "!="@ {
        Some(Comparison::NotEqual)
    } else if s == "=="@ {
        Some(Comparison::Equal)
    } else if s == ">="@ {
        Some(Comparison::GreaterThanOrEqual)
    } else if s == ">"@ {
        Some(Comparison::GreaterThan)
    } else if s == "~="@ {
        Some(Comparison::CompatibleRelease)
    } else if s == "==="@ {
        Some(Comparison::ArbitraryEqual)
    } else {
        None
    }
}

fn str_is(s: &str, t: &str) -> (r: bool)
    ensures
        r == (s@ == t@),
{
    let sn = s.unicode_len();
    let tn = t.unicode_len();
    if sn != tn {
        proof {
            assert(s@ != t@);
        }
        false
    } else {
        let r = crate::chars::tag(s, 0, t);
        proof {
            crate::chars::lemma_tag_full(s@, t@);
        }
        r
    }
}

impl Comparison {
    /// The operator a token stands for; unrecognized text is refused.
    pub fn try_from(value: &str) -> (r: Result<Self, ()>)
        ensures
            match r {
                Ok(c) => spec_comparison_of(value@) == Some(c),
                Err(_) => spec_comparison_of(value@) is None,
            },
    {
        proof {
            reveal_strlit("<");
            reveal_strlit("<=");
            reveal_strlit("!=");
            reveal_strlit("==");
            reveal_strlit(">=");
            reveal_strlit(">");
            reveal_strlit("~=");
            reveal_strlit("===");
        }
        if str_is(value, "<") {
            Ok(Self::LessThan)
        } else if str_is(value, "<=") {
            Ok(Self::LessThanOrEqual)
        } else if str_is(value, "!=") {
            Ok(Self::NotEqual)
        } else if str_is(value, "==") {
            Ok(Self::Equal)
        } else if str_is(value, ">=") {
            Ok(Self::GreaterThanOrEqual)
        } else if str_is(value, ">") {
            Ok(Self::GreaterThan)
        } else if str_is(value, "~=") {
            Ok(Self::CompatibleRelease)
        } else if str_is(value, "===") {
            Ok(Self::ArbitraryEqual)
        } else {
            Err(())
        }
    }
}

/// A comparison operator token after optional blanks, tried in a fixed
/// order, longer tokens before the shorter tokens they start with, so that
/// `===` is read as arbitrary equality and not as `==` with a leftover `=`.
pub open spec fn spec_version_cmp(s: Seq<char>, i: int) -> Option<(int, Comparison)> {
    let i1 = crate::chars::space_run_end(s, i);
    if crate::chars::spec_tag(s, i1, "<="@) {
        Some((i1 + 2, Comparison::LessThanOrEqual))
    } else if crate::chars::spec_tag(s, i1, "<"@) {
        Some((i1 + 1, Comparison::LessThan))
    } else if crate::chars::spec_tag(s, i1, "!="@) {
        Some((i1 + 2, Comparison::NotEqual))
    } else if crate::chars::spec_tag(s, i1, "==="@) {
        Some((i1 + 3, Comparison::ArbitraryEqual))
    } else if crate::chars::spec_tag(s, i1, "=="@) {
        Some((i1 + 2, Comparison::Equal))
    } else if crate::chars::spec_tag(s, i1, ">="@) {
        Some((i1 + 2, Comparison::GreaterThanOrEqual))
    } else if crate::chars::spec_tag(s, i1, ">"@) {
        Some((i1 + 1, Comparison::GreaterThan))
    } else if crate::chars::spec_tag(s, i1, "~="@) {
        Some((i1 + 2, Comparison::CompatibleRelease))
    } else {
        None
    }
}

/// Executable comparison operator token.
pub fn version_cmp(s: &str, i: usize) -> (r: Option<(usize, Comparison)>)
    requires
        i <= s@.len(),
    ensures
        match r {
            Some((j, c)) => spec_version_cmp(s@, i as int) == Some((j as int, c)) && i < j
                <= s@.len(),
            None => spec_version_cmp(s@, i as int) is None,
        },
{
    proof {
        reveal_strlit("<=");
        reveal_strlit("<");
        reveal_strlit("!=");
        reveal_strlit("==");
        reveal_strlit(">=");
        reveal_strlit(">");
        reveal_strlit("~=");
        reveal_strlit("===");
    }
    let n = s.unicode_len();
    let i1 = crate::chars::scan_spaces(s, i);
    if crate::chars::tag(s, i1, "<=") {
        proof {
            crate::chars::lemma_tag_end(s@, i1 as int, "<="@, 0);
        }
        Some((i1 + 2, Comparison::LessThanOrEqual))
    } else if crate::chars::tag(s, i1, "<") {
        proof {
            crate::chars::lemma_tag_end(s@, i1 as int, "<"@, 0);
        }
        Some((i1 + 1, Comparison::LessThan))
    } else if crate::chars::tag(s, i1, "!=") {
        proof {
            crate::chars::lemma_tag_end(s@, i1 as int, "!="@, 0);
        }
        Some((i1 + 2, Comparison::NotEqual))
    } else if crate::chars::tag(s, i1, "===") {
        proof {
            crate::chars::lemma_tag_end(s@, i1 as int, "==="@, 0);
        }
        Some((i1 + 3, Comparison::ArbitraryEqual))
    } else if crate::chars::tag(s, i1, "==") {
        proof {
            crate::chars::lemma_tag_end(s@, i1 as int, "=="@, 0);
        }
        Some((i1 + 2, Comparison::Equal))
    } else if crate::chars::tag(s, i1, ">=") {
        proof {
            crate::chars::lemma_tag_end(s@, i1 as int, ">="@, 0);
        }
        Some((i1 + 2, Comparison::GreaterThanOrEqual))
    } else if crate::chars::tag(s, i1, ">") {
        proof {
            crate::chars::lemma_tag_end(s@, i1 as int, ">"@, 0);
        }
        Some((i1 + 1, Comparison::GreaterThan))
    } else if crate::chars::tag(s, i1, "~=") {
        proof {
            crate::chars::lemma_tag_end(s@, i1 as int, "~="@, 0);
        }
        Some((i1 + 2, Comparison::CompatibleRelease))
    } else {
        None
    }
}

/// One version constraint: an operator and the version text it applies to,
/// kept as written.
#[derive(Debug, PartialEq)]
pub struct VersionSpec(pub Comparison, pub String);

impl From<(Comparison, String)> for VersionSpec {
    fn from(pair: (Comparison, String)) -> (r: Self)
    {
        VersionSpec(pair.0, pair.1)
    }
}

impl vstd::std_specs::convert::FromSpecImpl<(Comparison, String)> for VersionSpec {
    open spec fn obeys_from_spec() -> bool {
        true
    }

    open spec fn from_spec(pair: (Comparison, String)) -> Self {
        VersionSpec(pair.0, pair.1)
    }
}

/// The version denoted by a text, provided the grammar consumes it whole.
pub open spec fn spec_full_version(text: Seq<char>) -> Option<VersionV> {
    match spec_version_scheme(text, 0) {
        Some((j, v)) => if j == text.len() {
            Some(v)
        } else {
            None
        },
        None => None,
    }
}

/// Whether a constraint text asks for prefix (wildcard) matching.
pub open spec fn has_wildcard(text: Seq<char>) -> bool {
    text.len() >= 2 && text[text.len() - 2] == '.' && text[text.len() - 1] == '*'
}

/// Position-by-position release match up to the shorter length, with the
/// constraint's extra components required to be zero.
pub open spec fn wildcard_release_match(candidate: Seq<u64>, spec_rel: Seq<u64>) -> bool {
    &&& forall|k: int|
        0 <= k < candidate.len() && k < spec_rel.len() ==> candidate[k] == spec_rel[k]
    &&& forall|k: int| candidate.len() <= k < spec_rel.len() ==> spec_rel[k] == 0
}

/// `==` containment: wildcard texts ask for an epoch match and a
/// zero-padded release prefix match, the candidate's local label ignored;
/// full texts ask for ordering-key equality, the candidate's local label
/// copied onto a constraint that has none.
pub open spec fn spec_equal(v: VersionV, text: Seq<char>) -> bool {
    if has_wildcard(text) {
        match spec_full_version(text.take(text.len() - 2)) {
            Some(sv) => v.epoch == sv.epoch && wildcard_release_match(v.release, sv.release),
            None => false,
        }
    } else {
        match spec_full_version(text) {
            Some(sv) => {
                let sv2 = if sv.local is None && v.local is Some {
                    VersionV { local: v.local, ..sv }
                } else {
                    sv
                };
                ver_cmp(v, sv2) == 0
            },
            None => false,
        }
    }
}

/// `<=` containment: the candidate's public portion orders at or below the
/// constraint version.
pub open spec fn spec_le(v: VersionV, text: Seq<char>) -> bool {
    match spec_full_version(text) {
        Some(sv) => ver_cmp(public_of(v), sv) <= 0,
        None => false,
    }
}

/// `>=` containment: the candidate's public portion orders at or above the
/// constraint version.
pub open spec fn spec_ge(v: VersionV, text: Seq<char>) -> bool {
    match spec_full_version(text) {
        Some(sv) => ver_cmp(public_of(v), sv) >= 0,
        None => false,
    }
}

/// Whether a version is a pre-release: it carries a dev or pre segment.
pub open spec fn spec_is_prerelease(v: VersionV) -> bool {
    v.dev is Some || v.pre is Some
}

/// `<` containment: strictly below, except that a pre-release of the
/// constraint's own base does not satisfy it when the constraint is not
/// itself a pre-release.
pub open spec fn spec_lt(v: VersionV, text: Seq<char>) -> bool {
    match spec_full_version(text) {
        Some(sv) => ver_cmp(v, sv) < 0 && !(!spec_is_prerelease(sv) && spec_is_prerelease(v)
            && ver_cmp(base_of(v), base_of(sv)) == 0),
        None => false,
    }
}

/// `>` containment: strictly above, except that a post-release of the
/// constraint's own base does not satisfy it when the constraint is not
/// itself a post-release, and a candidate with a local label never satisfies
/// it on the constraint's own base.
pub open spec fn spec_gt(v: VersionV, text: Seq<char>) -> bool {
    match spec_full_version(text) {
        Some(sv) => {
            &&& ver_cmp(v, sv) > 0
            &&& !(!(sv.post is Some) && v.post is Some && ver_cmp(base_of(v), base_of(sv)) == 0)
            &&& !(v.local is Some && ver_cmp(base_of(v), base_of(sv)) == 0)
        },
        None => false,
    }
}

/// `~=` containment: at or above the constraint, and equal to the
/// constraint's wildcard prefix.
pub open spec fn spec_compatible(v: VersionV, text: Seq<char>) -> bool {
    match spec_full_version(text) {
        Some(sv) => spec_ge(v, text) && spec_equal(v, render_prefix(sv)),
        None => false,
    }
}

/// `===` containment: case-insensitive equality between the candidate's
/// full canonical text and the literal constraint text.
pub open spec fn spec_arbitrary(v: VersionV, text: Seq<char>) -> bool {
    eq_nocase(render_version(v, false, true), text)
}

/// Containment of an already parsed candidate under one operator.
pub open spec fn spec_contains_version(op: Comparison, text: Seq<char>, v: VersionV) -> bool {
    match op {
        Comparison::CompatibleRelease => spec_compatible(v, text),
        Comparison::Equal => spec_equal(v, text),
        Comparison::NotEqual => !spec_equal(v, text),
        Comparison::LessThanOrEqual => spec_le(v, text),
        Comparison::GreaterThanOrEqual => spec_ge(v, text),
        Comparison::LessThan => spec_lt(v, text),
        Comparison::GreaterThan => spec_gt(v, text),
        Comparison::ArbitraryEqual => spec_arbitrary(v, text),
    }
}

/// Containment of a candidate text: its longest version prefix is parsed,
/// and a text with no such prefix is contained in nothing.
pub open spec fn spec_contains(op: Comparison, text: Seq<char>, version: Seq<char>) -> bool {
    match spec_version_scheme(version, 0) {
        Some((_, v)) => spec_contains_version(op, text, v),
        None => false,
    }
}

/// The version a text denotes, provided the grammar consumes it whole.
fn full_version(text: &str) -> (r: Option<Version>)
    ensures
        match r {
            Some(v) => spec_full_version(text@) == Some(v@) && v@.wf(),
            None => spec_full_version(text@) is None,
        },
{
    let n = text.unicode_len();
    match version_at(text, 0) {
        Some((j, v)) => if j == n {
            proof {
                crate::version_parse::lemma_version_scheme_wf(text@, 0, j as int, v@);
            }
            Some(v)
        } else {
            None
        },
        None => None,
    }
}

impl VersionSpec {
    /// Whether this constraint contains the version a text denotes: the text
    /// is parsed, an unparseable text is contained in nothing, and the
    /// operator's containment rule is applied.
    pub fn contains(&self, version: &str) -> (r: bool)
        ensures
            r == spec_contains(self.0, self.1@, version@),
    {
        match version_at(version, 0) {
            Some((_, v)) => {
                proof {
                    crate::version_parse::lemma_version_scheme_wf(
                        version@,
                        0,
                        spec_version_scheme(version@, 0)->Some_0.0,
                        v@,
                    );
                }
                match self.0 {
                    Comparison::CompatibleRelease => self.compare_compatible(&v, self.1.as_str()),
                    Comparison::Equal => self.compare_equal(&v, self.1.as_str()),
                    Comparison::NotEqual => self.compare_not_equal(&v, self.1.as_str()),
                    Comparison::LessThanOrEqual => self.compare_less_than_equal(
                        &v,
                        self.1.as_str(),
                    ),
                    Comparison::GreaterThanOrEqual => self.compare_greater_than_equal(
                        &v,
                        self.1.as_str(),
                    ),
                    Comparison::LessThan => self.compare_less_than(&v, self.1.as_str()),
                    Comparison::GreaterThan => self.compare_greater_than(&v, self.1.as_str()),
                    Comparison::ArbitraryEqual => self.compare_arbitrary(&v, self.1.as_str()),
                }
            },
            None => false,
        }
    }

    /// `~=` is `>=` the constraint and `==` its wildcard prefix.
    fn compare_compatible(&self, prospective: &Version, text: &str) -> (r: bool)
        ensures
            r == spec_compatible(prospective@, text@),
    {
        match full_version(text) {
            Some(sv) => {
                if self.compare_greater_than_equal(prospective, text) {
                    let prefix = sv.prefix_str();
                    self.compare_equal(prospective, prefix.as_str())
                } else {
                    false
                }
            },
            None => false,
        }
    }

    /// `==`, with wildcard and local-label handling.
    #[verifier::loop_isolation(false)]
    fn compare_equal(&self, prospective: &Version, text: &str) -> (r: bool)
        ensures
            r == spec_equal(prospective@, text@),
    {
        let n = text.unicode_len();
        if n >= 2 && text.get_char(n - 2) == '.' && text.get_char(n - 1) == '*' {
            let head = text.substring_char(0, n - 2);
            proof {
                assert(head@ =~= text@.take(n - 2 as int));
            }
            match full_version(head) {
                Some(sv) => {
                    if prospective.epoch != sv.epoch {
                        return false;
                    }
                    let alen = prospective.release.len();
                    let blen = sv.release.len();
                    let m = if alen < blen {
                        alen
                    } else {
                        blen
                    };
                    let mut k: usize = 0;
                    while k < m
                        invariant
                            m <= alen == prospective.release@.len(),
                            m <= blen == sv.release@.len(),
                            k <= m,
                            forall|j: int|
                                0 <= j < k ==> prospective.release@[j] == sv.release@[j],
                        decreases m - k,
                    {
                        if prospective.release[k] != sv.release[k] {
                            proof {
                                assert(!wildcard_release_match(
                                    prospective@.release,
                                    sv@.release,
                                )) by {
                                    assert(prospective@.release[k as int] != sv@.release[
                                        k as int]);
                                }
                            }
                            return false;
                        }
                        k += 1;
                    }
                    if blen > alen {
                        let mut k2: usize = alen;
                        while k2 < blen
                            invariant
                                alen <= k2 <= blen == sv.release@.len(),
                                alen == prospective.release@.len(),
                                forall|j: int| alen <= j < k2 ==> sv.release@[j] == 0,
                            decreases blen - k2,
                        {
                            if sv.release[k2] != 0 {
                                proof {
                                    assert(!wildcard_release_match(
                                        prospective@.release,
                                        sv@.release,
                                    )) by {
                                        assert(sv@.release[k2 as int] != 0);
                                    }
                                }
                                return false;
                            }
                            k2 += 1;
                        }
                    }
                    true
                },
                None => false,
            }
        } else {
            match full_version(text) {
                Some(sv) => {
                    let sv2 = if sv.local.is_none() && prospective.local.is_some() {
                        let copied = match &prospective.local {
                            Some(l) => Some(clone_locals(l)),
                            None => None,
                        };
                        Version {
                            epoch: sv.epoch,
                            release: sv.release,
                            pre: sv.pre,
                            post: sv.post,
                            dev: sv.dev,
                            local: copied,
                        }
                    } else {
                        sv
                    };
                    proof {
                        assert(sv2@ =~= (if spec_full_version(text@)->Some_0.local is None
                            && prospective@.local is Some {
                            VersionV { local: prospective@.local, ..spec_full_version(text@)->Some_0 }
                        } else {
                            spec_full_version(text@)->Some_0
                        }));
                    }
                    match prospective.compare(&sv2) {
                        Ordering::Equal => true,
                        _ => false,
                    }
                },
                None => false,
            }
        }
    }

    /// `!=` is the exact negation of `==`.
    fn compare_not_equal(&self, prospective: &Version, text: &str) -> (r: bool)
        ensures
            r == !spec_equal(prospective@, text@),
    {
        !self.compare_equal(prospective, text)
    }

    /// `<=` on the public portion.
    fn compare_less_than_equal(&self, prospective: &Version, text: &str) -> (r: bool)
        ensures
            r == spec_le(prospective@, text@),
    {
        match full_version(text) {
            Some(sv) => match prospective.to_public().compare(&sv) {
                Ordering::Greater => false,
                _ => true,
            },
            None => false,
        }
    }

    /// `>=` on the public portion.
    fn compare_greater_than_equal(&self, prospective: &Version, text: &str) -> (r: bool)
        ensures
            r == spec_ge(prospective@, text@),
    {
        match full_version(text) {
            Some(sv) => match prospective.to_public().compare(&sv) {
                Ordering::Less => false,
                _ => true,
            },
            None => false,
        }
    }

    /// `<`, with the pre-release exclusion window.
    fn compare_less_than(&self, prospective: &Version, text: &str) -> (r: bool)
        ensures
            r == spec_lt(prospective@, text@),
    {
        match full_version(text) {
            Some(sv) => {
                match prospective.compare(&sv) {
                    Ordering::Less => {},
                    _ => {
                        return false;
                    },
                }
                if !sv.is_prerelease() && prospective.is_prerelease() {
                    match prospective.to_base().compare(&sv.to_base()) {
                        Ordering::Equal => {
                            return false;
                        },
                        _ => {},
                    }
                }
                true
            },
            None => false,
        }
    }

    /// `>`, with the post-release and local-label exclusion windows.
    fn compare_greater_than(&self, prospective: &Version, text: &str) -> (r: bool)
        ensures
            r == spec_gt(prospective@, text@),
    {
        match full_version(text) {
            Some(sv) => {
                match prospective.compare(&sv) {
                    Ordering::Greater => {},
                    _ => {
                        return false;
                    },
                }
                if !sv.is_postrelease() && prospective.is_postrelease() {
                    match prospective.to_base().compare(&sv.to_base()) {
                        Ordering::Equal => {
                            return false;
                        },
                        _ => {},
                    }
                }
                if prospective.local.is_some() {
                    match prospective.to_base().compare(&sv.to_base()) {
                        Ordering::Equal => {
                            return false;
                        },
                        _ => {},
                    }
                }
                true
            },
            None => false,
        }
    }

    /// `===`: case-insensitive equality with the candidate's full text.
    fn compare_arbitrary(&self, prospective: &Version, text: &str) -> (r: bool)
        requires
            prospective@.release.len() >= 1,
        ensures
            r == spec_arbitrary(prospective@, text@),
    {
        let own = prospective.full_str();
        str_eq_nocase(own.as_str(), text)
    }
}

} // verus!

//! Requirement specifiers: `name [extras] (version constraints | @ url) [; marker]`.
//!
//! The URL form is tried before the plain form, because a URL is a
//! prefix-ambiguous text the version grammar could otherwise mis-consume.
//! A parsed requirement is immutable; its constraints are tested against a
//! candidate version text with every constraint required to hold.

use crate::chars::{
    is_alnum_byte, is_digit_char, is_sep_char, is_space_char, scan_spaces, sep_char, space_run_end,
    alnum_byte,
};
use crate::marker::{spec_quoted_marker, quoted_marker, MarkerExpr, MarkerTree};
use crate::specifier::{
    spec_contains, spec_version_cmp, version_cmp, Comparison, VersionSpec,
};
use crate::uri::{spec_uri_reference, uri_reference};
use crate::version_parse::{
    spec_dev, spec_epoch, spec_local, spec_post, spec_pre, spec_release, dev, epoch, local, post,
    pre, release,
};
use vstd::prelude::*;

verus! {

/// The source-control systems a URL-based requirement may name.  The
/// grammar itself does not inspect the URL; the classification is left to
/// callers.
#[derive(Debug, PartialEq)]
pub enum VersionControlSystem {
    Git,
    Mercurial,
    Subversion,
    Bazaar,
    Unknown,
}

/// A requirement: a package name, the extras asked for, either a list of
/// version constraints or a source URL, and an optional marker expression.
#[derive(Debug, PartialEq)]
pub struct RequirementSpecifier {
    pub name: String,
    pub extras: Vec<String>,
    pub version_specs: Vec<VersionSpec>,
    pub urlspec: Option<String>,
    pub marker_expr: Option<MarkerExpr>,
}

impl View for VersionSpec {
    type V = (Comparison, Seq<char>);

    open spec fn view(&self) -> (Comparison, Seq<char>) {
        (self.0, self.1@)
    }
}

/// Mathematical model of a requirement.
#[verifier::ext_equal]
pub ghost struct ReqV {
    pub name: Seq<char>,
    pub extras: Seq<Seq<char>>,
    pub version_specs: Seq<(Comparison, Seq<char>)>,
    pub urlspec: Option<Seq<char>>,
    pub marker_expr: Option<MarkerTree>,
}

/// Model of an optional marker expression.
pub open spec fn marker_view(m: Option<MarkerExpr>) -> Option<MarkerTree> {
    match m {
        Some(e) => Some(e@),
        None => None,
    }
}

/// Model of an optional string.
pub open spec fn opt_str_view(o: Option<String>) -> Option<Seq<char>> {
    match o {
        Some(t) => Some(t@),
        None => None,
    }
}

impl View for RequirementSpecifier {
    type V = ReqV;

    open spec fn view(&self) -> ReqV {
        ReqV {
            name: self.name@,
            extras: self.extras@.map_values(|e: String| e@),
            version_specs: self.version_specs@.map_values(|vs: VersionSpec| vs@),
            urlspec: opt_str_view(self.urlspec),
            marker_expr: marker_view(self.marker_expr),
        }
    }
}

impl Default for RequirementSpecifier {
    /// The empty requirement: an empty name and nothing else.
    fn default() -> (r: Self)
        ensures
            r@ == (ReqV {
                name: Seq::empty(),
                extras: Seq::empty(),
                version_specs: Seq::empty(),
                urlspec: None,
                marker_expr: None,
            }),
    {
        let r = RequirementSpecifier {
            name: String::new(),
            extras: Vec::new(),
            version_specs: Vec::new(),
            urlspec: None,
            marker_expr: None,
        };
        proof {
            assert(r@ =~= (ReqV {
                name: Seq::empty(),
                extras: Seq::empty(),
                version_specs: Seq::empty(),
                urlspec: None,
                marker_expr: None,
            }));
        }
        r
    }
}

/// Whether every constraint of a requirement contains the version a text
/// denotes; an empty constraint list is satisfied by any text.
pub open spec fn spec_req_contains(rv: ReqV, version: Seq<char>) -> bool {
    forall|k: int|
        0 <= k < rv.version_specs.len() ==> spec_contains(
            #[trigger] rv.version_specs[k].0,
            rv.version_specs[k].1,
            version,
        )
}

impl RequirementSpecifier {
    /// Whether every stored constraint contains the version the text
    /// denotes.
    pub fn contains(&self, version: &str) -> (r: bool)
        ensures
            r == spec_req_contains(self@, version@),
    {
        let mut i: usize = 0;
        while i < self.version_specs.len()
            invariant
                i <= self.version_specs@.len(),
                forall|k: int|
                    0 <= k < i ==> spec_contains(
                        #[trigger] self@.version_specs[k].0,
                        self@.version_specs[k].1,
                        version@,
                    ),
            decreases self.version_specs@.len() - i,
        {
            if !self.version_specs[i].contains(version) {
                proof {
                    assert(!spec_contains(
                        self@.version_specs[i as int].0,
                        self@.version_specs[i as int].1,
                        version@,
                    ));
                }
                return false;
            }
            i += 1;
        }
        true
    }
}

/// End of a run of identifier separators (`-`, `_`, `.`).
pub open spec fn sep_run_end(s: Seq<char>, i: int) -> int
    decreases s.len() - i,
{
    if 0 <= i < s.len() && is_sep_char(s[i]) {
        sep_run_end(s, i + 1)
    } else {
        i
    }
}

/// One identifier tail piece: separators followed by one letter or digit.
pub open spec fn spec_identifier_end(s: Seq<char>, i: int) -> Option<int> {
    let j = sep_run_end(s, i);
    if i <= j && j < s.len() && is_alnum_byte(s[j]) {
        Some(j + 1)
    } else {
        None
    }
}

/// Further identifier pieces, repeated as long as they match.
pub open spec fn spec_ident_more(s: Seq<char>, i: int) -> int
    decreases s.len() - i,
{
    match spec_identifier_end(s, i) {
        Some(j) => if i < j <= s.len() {
            spec_ident_more(s, j)
        } else {
            i
        },
        None => i,
    }
}

/// An identifier: a letter or digit, then separator-joined pieces; it
/// starts and ends on a letter or digit.  The result is the matched text.
pub open spec fn spec_identifier(s: Seq<char>, i: int) -> Option<(int, Seq<char>)> {
    if 0 <= i < s.len() && is_alnum_byte(s[i]) {
        let e = spec_ident_more(s, i + 1);
        Some((e, s.subrange(i, e)))
    } else {
        None
    }
}

/// Further extras: blanks, a comma, blanks and an identifier, repeated.
pub open spec fn spec_extras_more(s: Seq<char>, i: int) -> (int, Seq<Seq<char>>)
    decreases s.len() - i,
{
    let j0 = space_run_end(s, i);
    if 0 <= i <= j0 && j0 < s.len() && s[j0] == ',' {
        let j1 = space_run_end(s, j0 + 1);
        match spec_identifier(s, j1) {
            Some((j2, id)) => if i < j2 <= s.len() {
                let rest = spec_extras_more(s, j2);
                (rest.0, seq![id] + rest.1)
            } else {
                (i, Seq::empty())
            },
            None => (i, Seq::empty()),
        }
    } else {
        (i, Seq::empty())
    }
}

/// A comma-separated list of identifiers.
pub open spec fn spec_extras_list(s: Seq<char>, i: int) -> Option<(int, Seq<Seq<char>>)> {
    match spec_identifier(s, i) {
        Some((j, id)) => {
            let rest = spec_extras_more(s, j);
            Some((rest.0, seq![id] + rest.1))
        },
        None => None,
    }
}

/// A bracketed extras list, possibly empty.
pub open spec fn spec_extras(s: Seq<char>, i: int) -> Option<(int, Seq<Seq<char>>)> {
    if 0 <= i < s.len() && s[i] == '[' {
        let i1 = space_run_end(s, i + 1);
        match spec_extras_list(s, i1) {
            Some((j, ids)) => {
                let i2 = space_run_end(s, j);
                if i2 < s.len() && s[i2] == ']' {
                    Some((i2 + 1, ids))
                } else {
                    None
                }
            },
            None => {
                let i2 = space_run_end(s, i1);
                if i2 < s.len() && s[i2] == ']' {
                    Some((i2 + 1, Seq::empty()))
                } else {
                    None
                }
            },
        }
    } else {
        None
    }
}

/// A Unicode whitespace character.
pub open spec fn is_uni_space(c: char) -> bool {
    ||| c == ' ' || c == '\t' || c == '\n' || c == '\r'
    ||| c as int == 11 || c as int == 12 || c as int == 133 || c as int == 160
    ||| c as int == 5760 || (8192 <= c as int && c as int <= 8202)
    ||| c as int == 8232 || c as int == 8233 || c as int == 8239 || c as int == 8287
    ||| c as int == 12288
}

/// Executable Unicode whitespace test.
pub fn uni_space(c: char) -> (r: bool)
    ensures
        r == is_uni_space(c),
{
    let u = c as u32;
    u == 32 || u == 9 || u == 10 || u == 13 || u == 11 || u == 12 || u == 133 || u == 160
        || u == 5760 || (8192 <= u && u <= 8202) || u == 8232 || u == 8233 || u == 8239
        || u == 8287 || u == 12288
}

/// End of a run of arbitrary-version characters: anything but whitespace,
/// `;` and `)`.
pub open spec fn arb_run_end(s: Seq<char>, i: int) -> int
    decreases s.len() - i,
{
    if 0 <= i < s.len() && !is_uni_space(s[i]) && s[i] != ';' && s[i] != ')' {
        arb_run_end(s, i + 1)
    } else {
        i
    }
}

/// The version text of an `===` constraint: blanks, then any run free of
/// whitespace, `;` and `)`.
pub open spec fn spec_version_arbitraryequal(s: Seq<char>, i: int) -> (int, Seq<char>) {
    let i1 = space_run_end(s, i);
    let e = arb_run_end(s, i1);
    if 0 <= i1 <= e <= s.len() {
        (e, s.subrange(i1, e))
    } else {
        (i1, Seq::empty())
    }
}

/// End of the optional version suffix of an `==`/`!=` constraint: the
/// wildcard `.*`, or pre, post, dev and local segments.
pub open spec fn eq_suffix_end(s: Seq<char>, i: int) -> int {
    if 0 <= i && i + 1 < s.len() && s[i] == '.' && s[i + 1] == '*' {
        i + 2
    } else {
        let i1 = match spec_pre(s, i) {
            Some((j, _)) => j,
            None => i,
        };
        let i2 = match spec_post(s, i1) {
            Some((j, _)) => j,
            None => i1,
        };
        let i3 = match spec_dev(s, i2) {
            Some((j, _)) => j,
            None => i2,
        };
        match spec_local(s, i3) {
            Some((j, _)) => j,
            None => i3,
        }
    }
}

/// End of the version core: optional `v`, optional epoch, then a release;
/// nothing when the release is missing.
pub open spec fn version_core_end(s: Seq<char>, i: int) -> Option<int> {
    let i0 = if 0 <= i < s.len() && s[i] == 'v' {
        i + 1
    } else {
        i
    };
    let i1 = match spec_epoch(s, i0) {
        Some((j, _)) => j,
        None => i0,
    };
    match spec_release(s, i1) {
        Some((j, _)) => Some(j),
        None => None,
    }
}

/// The version text of an `==` or `!=` constraint: blanks, the version
/// core, then the optional wildcard or segment suffix.
pub open spec fn spec_version_equal_notequal(s: Seq<char>, i: int) -> Option<(int, Seq<char>)> {
    let i1 = space_run_end(s, i);
    match version_core_end(s, i1) {
        Some(j) => {
            let e = eq_suffix_end(s, j);
            if 0 <= i1 <= e <= s.len() {
                Some((e, s.subrange(i1, e)))
            } else {
                None
            }
        },
        None => None,
    }
}

/// End of the segment suffix without wildcard or local label.
pub open spec fn plain_suffix_end(s: Seq<char>, i: int) -> int {
    let i1 = match spec_pre(s, i) {
        Some((j, _)) => j,
        None => i,
    };
    let i2 = match spec_post(s, i1) {
        Some((j, _)) => j,
        None => i1,
    };
    match spec_dev(s, i2) {
        Some((j, _)) => j,
        None => i2,
    }
}

/// The version text of a `~=` constraint: the release must have at least
/// two components, and neither wildcard nor local label is allowed.
pub open spec fn spec_version_compatiblerelease(s: Seq<char>, i: int) -> Option<(int, Seq<char>)> {
    let i1 = space_run_end(s, i);
    let i0 = if 0 <= i1 < s.len() && s[i1] == 'v' {
        i1 + 1
    } else {
        i1
    };
    let i2 = match spec_epoch(s, i0) {
        Some((j, _)) => j,
        None => i0,
    };
    match spec_release(s, i2) {
        Some((j, rel)) => if rel.len() >= 2 {
            let e = plain_suffix_end(s, j);
            if 0 <= i1 <= e <= s.len() {
                Some((e, s.subrange(i1, e)))
            } else {
                None
            }
        } else {
            None
        },
        None => None,
    }
}

/// The version text of an ordering constraint: the version core and the
/// segment suffix, without wildcard or local label.
pub open spec fn spec_version_other_operator(s: Seq<char>, i: int) -> Option<(int, Seq<char>)> {
    let i1 = space_run_end(s, i);
    match version_core_end(s, i1) {
        Some(j) => {
            let e = plain_suffix_end(s, j);
            if 0 <= i1 <= e <= s.len() {
                Some((e, s.subrange(i1, e)))
            } else {
                None
            }
        },
        None => None,
    }
}

/// One constraint: an operator, then the version text its grammar allows,
/// then blanks.
pub open spec fn spec_version_one(s: Seq<char>, i: int) -> Option<(int, (Comparison, Seq<char>))> {
    match spec_version_cmp(s, i) {
        Some((j, op)) => {
            let vt = match op {
                Comparison::ArbitraryEqual => Some(spec_version_arbitraryequal(s, j)),
                Comparison::Equal => spec_version_equal_notequal(s, j),
                Comparison::NotEqual => spec_version_equal_notequal(s, j),
                Comparison::CompatibleRelease => spec_version_compatiblerelease(s, j),
                _ => spec_version_other_operator(s, j),
            };
            match vt {
                Some((e, text)) => Some((space_run_end(s, e), (op, text))),
                None => None,
            }
        },
        None => None,
    }
}

/// Further constraints: blanks, a comma and one constraint, repeated.
pub open spec fn spec_version_more(s: Seq<char>, i: int) -> (int, Seq<(Comparison, Seq<char>)>)
    decreases s.len() - i,
{
    let j0 = space_run_end(s, i);
    if 0 <= i <= j0 && j0 < s.len() && s[j0] == ',' {
        match spec_version_one(s, j0 + 1) {
            Some((j, vs)) => if i < j <= s.len() {
                let rest = spec_version_more(s, j);
                (rest.0, seq![vs] + rest.1)
            } else {
                (i, Seq::empty())
            },
            None => (i, Seq::empty()),
        }
    } else {
        (i, Seq::empty())
    }
}

/// A comma-separated list of constraints.
pub open spec fn spec_version_many(s: Seq<char>, i: int) -> Option<(int, Seq<(Comparison, Seq<char>)>)> {
    match spec_version_one(s, i) {
        Some((j, vs)) => {
            let rest = spec_version_more(s, j);
            Some((rest.0, seq![vs] + rest.1))
        },
        None => None,
    }
}

/// A constraint list, optionally parenthesized.  The parenthesized form is
/// tried first; if it fails the plain form is tried from the start.
pub open spec fn spec_versionspec(s: Seq<char>, i: int) -> Option<(int, Seq<(Comparison, Seq<char>)>)> {
    let wrapped = if 0 <= i < s.len() && s[i] == '(' {
        match spec_version_many(s, i + 1) {
            Some((j, vs)) => if j < s.len() && s[j] == ')' {
                Some((j + 1, vs))
            } else {
                None
            },
            None => None,
        }
    } else {
        None
    };
    if wrapped is Some {
        wrapped
    } else {
        spec_version_many(s, i)
    }
}

/// A URL clause: `@`, blanks, then a URI reference; the matched reference
/// is kept verbatim.
pub open spec fn spec_urlspec(s: Seq<char>, i: int) -> Option<(int, Seq<char>)> {
    if 0 <= i < s.len() && s[i] == '@' {
        let i1 = space_run_end(s, i + 1);
        let e = spec_uri_reference(s, i1);
        if i1 <= e <= s.len() {
            Some((e, s.subrange(i1, e)))
        } else {
            None
        }
    } else {
        None
    }
}

/// A plain requirement: name, optional extras, optional constraints,
/// optional marker.
pub open spec fn spec_name_req(s: Seq<char>, i: int) -> Option<(int, ReqV)> {
    match spec_identifier(s, i) {
        Some((j, name)) => {
            let i1 = space_run_end(s, j);
            let ex = match spec_extras(s, i1) {
                Some((j2, ids)) => (j2, ids),
                None => (i1, Seq::empty()),
            };
            let i2 = space_run_end(s, ex.0);
            let vs = match spec_versionspec(s, i2) {
                Some((j3, specs)) => (j3, specs),
                None => (i2, Seq::empty()),
            };
            let i3 = space_run_end(s, vs.0);
            let mk = match spec_quoted_marker(s, i3) {
                Some((j4, m)) => (j4, Some(m)),
                None => (i3, None),
            };
            Some(
                (
                    mk.0,
                    ReqV {
                        name: name,
                        extras: ex.1,
                        version_specs: vs.1,
                        urlspec: None,
                        marker_expr: mk.1,
                    },
                ),
            )
        },
        None => None,
    }
}

/// A URL requirement: name, optional extras, a URL clause that must be
/// followed by a blank or the end of the input, and an optional marker.
pub open spec fn spec_url_req(s: Seq<char>, i: int) -> Option<(int, ReqV)> {
    match spec_identifier(s, i) {
        Some((j, name)) => {
            let i1 = space_run_end(s, j);
            let ex = match spec_extras(s, i1) {
                Some((j2, ids)) => (j2, ids),
                None => (i1, Seq::empty()),
            };
            let i2 = space_run_end(s, ex.0);
            match spec_urlspec(s, i2) {
                Some((j3, url)) => {
                    let after = if j3 == s.len() {
                        Some(j3)
                    } else if j3 < s.len() && is_space_char(s[j3]) {
                        Some(space_run_end(s, j3))
                    } else {
                        None
                    };
                    match after {
                        Some(i3) => {
                            let mk = match spec_quoted_marker(s, i3) {
                                Some((j4, m)) => (j4, Some(m)),
                                None => (i3, None),
                            };
                            Some(
                                (
                                    mk.0,
                                    ReqV {
                                        name: name,
                                        extras: ex.1,
                                        version_specs: Seq::empty(),
                                        urlspec: Some(url),
                                        marker_expr: mk.1,
                                    },
                                ),
                            )
                        },
                        None => None,
                    }
                },
                None => None,
            }
        },
        None => None,
    }
}

/// A whole requirement line: blanks, the URL form or else the plain form,
/// then blanks.
pub open spec fn spec_specification(s: Seq<char>, i: int) -> Option<(int, ReqV)> {
    let i1 = space_run_end(s, i);
    let req = match spec_url_req(s, i1) {
        Some(r) => Some(r),
        None => spec_name_req(s, i1),
    };
    match req {
        Some((j, rv)) => Some((space_run_end(s, j), rv)),
        None => None,
    }
}

fn scan_seps(s: &str, n: usize, i: usize) -> (j: usize)
    requires
        n == s@.len(),
        i <= n,
    ensures
        j == sep_run_end(s@, i as int),
        i <= j <= s@.len(),
    decreases n - i,
{
    if i < n && sep_char(s.get_char(i)) {
        scan_seps(s, n, i + 1)
    } else {
        i
    }
}

/// One identifier tail piece.
pub fn identifier_end(s: &str, i: usize) -> (r: Option<usize>)
    requires
        i <= s@.len(),
    ensures
        match r {
            Some(j) => spec_identifier_end(s@, i as int) == Some(j as int) && i < j <= s@.len(),
            None => spec_identifier_end(s@, i as int) is None,
        },
{
    let n = s.unicode_len();
    let j = scan_seps(s, n, i);
    if j < n && alnum_byte(s.get_char(j)) {
        Some(j + 1)
    } else {
        None
    }
}

fn ident_more(s: &str, i: usize) -> (j: usize)
    requires
        i <= s@.len(),
    ensures
        j == spec_ident_more(s@, i as int),
        i <= j <= s@.len(),
    decreases s@.len() - i,
{
    match identifier_end(s, i) {
        Some(j) => ident_more(s, j),
        None => i,
    }
}

/// An identifier; the result is the matched text.
pub fn identifier(s: &str, i: usize) -> (r: Option<(usize, String)>)
    requires
        i <= s@.len(),
    ensures
        match r {
            Some((j, t)) => spec_identifier(s@, i as int) == Some((j as int, t@)) && i < j
                <= s@.len(),
            None => spec_identifier(s@, i as int) is None,
        },
{
    let n = s.unicode_len();
    if i < n && alnum_byte(s.get_char(i)) {
        let e = ident_more(s, i + 1);
        let text = s.substring_char(i, e);
        Some((e, text.to_owned()))
    } else {
        None
    }
}

fn extras_more(s: &str, i: usize, acc: &mut Vec<String>) -> (j: usize)
    requires
        i <= s@.len(),
    ensures
        j == spec_extras_more(s@, i as int).0,
        final(acc)@.map_values(|e: String| e@) == old(acc)@.map_values(|e: String| e@)
            + spec_extras_more(s@, i as int).1,
        i <= j <= s@.len(),
    decreases s@.len() - i,
{
    let n = s.unicode_len();
    let j0 = scan_spaces(s, i);
    if j0 < n && s.get_char(j0) == ',' {
        let j1 = scan_spaces(s, j0 + 1);
        match identifier(s, j1) {
            Some((j2, id)) => {
                acc.push(id);
                let ghost mid = acc@;
                let j = extras_more(s, j2, acc);
                proof {
                    assert(mid.map_values(|e: String| e@) =~= old(acc)@.map_values(
                        |e: String| e@,
                    ).push(spec_identifier(s@, j1 as int)->Some_0.1));
                    assert(acc@.map_values(|e: String| e@) =~= old(acc)@.map_values(
                        |e: String| e@,
                    ) + spec_extras_more(s@, i as int).1);
                }
                j
            },
            None => {
                proof {
                    assert(acc@.map_values(|e: String| e@) =~= old(acc)@.map_values(
                        |e: String| e@,
                    ) + spec_extras_more(s@, i as int).1);
                }
                i
            },
        }
    } else {
        proof {
            assert(acc@.map_values(|e: String| e@) =~= old(acc)@.map_values(|e: String| e@)
                + spec_extras_more(s@, i as int).1);
        }
        i
    }
}

/// A comma-separated list of identifiers.
pub fn extras_list(s: &str, i: usize) -> (r: Option<(usize, Vec<String>)>)
    requires
        i <= s@.len(),
    ensures
        match r {
            Some((j, ids)) => spec_extras_list(s@, i as int) == Some(
                (j as int, ids@.map_values(|e: String| e@)),
            ) && i < j <= s@.len(),
            None => spec_extras_list(s@, i as int) is None,
        },
{
    match identifier(s, i) {
        Some((j, id)) => {
            let mut acc: Vec<String> = Vec::new();
            acc.push(id);
            let ghost one = acc@;
            let e = extras_more(s, j, &mut acc);
            proof {
                assert(one.map_values(|e2: String| e2@) =~= seq![
                    spec_identifier(s@, i as int)->Some_0.1,
                ]);
                assert(acc@.map_values(|e2: String| e2@) =~= seq![
                    spec_identifier(s@, i as int)->Some_0.1,
                ] + spec_extras_more(s@, j as int).1);
            }
            Some((e, acc))
        },
        None => None,
    }
}

/// A bracketed extras list.
pub fn extras(s: &str, i: usize) -> (r: Option<(usize, Vec<String>)>)
    requires
        i <= s@.len(),
    ensures
        match r {
            Some((j, ids)) => spec_extras(s@, i as int) == Some(
                (j as int, ids@.map_values(|e: String| e@)),
            ) && i < j <= s@.len(),
            None => spec_extras(s@, i as int) is None,
        },
{
    let n = s.unicode_len();
    if i < n && s.get_char(i) == '[' {
        let i1 = scan_spaces(s, i + 1);
        match extras_list(s, i1) {
            Some((j, ids)) => {
                let i2 = scan_spaces(s, j);
                if i2 < n && s.get_char(i2) == ']' {
                    Some((i2 + 1, ids))
                } else {
                    None
                }
            },
            None => {
                let i2 = scan_spaces(s, i1);
                if i2 < n && s.get_char(i2) == ']' {
                    let empty: Vec<String> = Vec::new();
                    proof {
                        assert(empty@.map_values(|e: String| e@) =~= Seq::<Seq<char>>::empty());
                    }
                    Some((i2 + 1, empty))
                } else {
                    None
                }
            },
        }
    } else {
        None
    }
}

fn scan_arb(s: &str, n: usize, i: usize) -> (j: usize)
    requires
        n == s@.len(),
        i <= n,
    ensures
        j == arb_run_end(s@, i as int),
        i <= j <= s@.len(),
    decreases n - i,
{
    if i < n {
        let c = s.get_char(i);
        if !uni_space(c) && c != ';' && c != ')' {
            return scan_arb(s, n, i + 1);
        }
    }
    i
}

/// The version text of an `===` constraint.
pub fn version_arbitraryequal(s: &str, i: usize) -> (r: (usize, String))
    requires
        i <= s@.len(),
    ensures
        spec_version_arbitraryequal(s@, i as int) == (r.0 as int, r.1@),
        i <= r.0 <= s@.len(),
{
    let n = s.unicode_len();
    let i1 = scan_spaces(s, i);
    let e = scan_arb(s, n, i1);
    let text = s.substring_char(i1, e);
    (e, text.to_owned())
}

fn eq_suffix(s: &str, i: usize) -> (j: usize)
    requires
        i <= s@.len(),
    ensures
        j == eq_suffix_end(s@, i as int),
        i <= j <= s@.len(),
{
    let n = s.unicode_len();
    if i < n && n - i > 1 && s.get_char(i) == '.' && s.get_char(i + 1) == '*' {
        i + 2
    } else {
        let i1 = match pre(s, i) {
            Some((j, _)) => j,
            None => i,
        };
        let i2 = match post(s, i1) {
            Some((j, _)) => j,
            None => i1,
        };
        let i3 = match dev(s, i2) {
            Some((j, _)) => j,
            None => i2,
        };
        match local(s, i3) {
            Some((j, _)) => j,
            None => i3,
        }
    }
}

fn version_core(s: &str, i: usize) -> (r: Option<usize>)
    requires
        i <= s@.len(),
    ensures
        match r {
            Some(j) => version_core_end(s@, i as int) == Some(j as int) && i <= j <= s@.len(),
            None => version_core_end(s@, i as int) is None,
        },
{
    let n = s.unicode_len();
    let i0 = if i < n && s.get_char(i) == 'v' {
        i + 1
    } else {
        i
    };
    let i1 = match epoch(s, i0) {
        Some((j, _)) => j,
        None => i0,
    };
    match release(s, i1) {
        Some((j, _)) => Some(j),
        None => None,
    }
}

/// The version text of an `==` or `!=` constraint.
pub fn version_equal_notequal(s: &str, i: usize) -> (r: Option<(usize, String)>)
    requires
        i <= s@.len(),
    ensures
        match r {
            Some((j, t)) => spec_version_equal_notequal(s@, i as int) == Some((j as int, t@)) && i
                <= j <= s@.len(),
            None => spec_version_equal_notequal(s@, i as int) is None,
        },
{
    let i1 = scan_spaces(s, i);
    match version_core(s, i1) {
        Some(j) => {
            let e = eq_suffix(s, j);
            let text = s.substring_char(i1, e);
            Some((e, text.to_owned()))
        },
        None => None,
    }
}

fn plain_suffix(s: &str, i: usize) -> (j: usize)
    requires
        i <= s@.len(),
    ensures
        j == plain_suffix_end(s@, i as int),
        i <= j <= s@.len(),
{
    let i1 = match pre(s, i) {
        Some((j, _)) => j,
        None => i,
    };
    let i2 = match post(s, i1) {
        Some((j, _)) => j,
        None => i1,
    };
    match dev(s, i2) {
        Some((j, _)) => j,
        None => i2,
    }
}

/// The version text of a `~=` constraint.
pub fn version_compatiblerelease(s: &str, i: usize) -> (r: Option<(usize, String)>)
    requires
        i <= s@.len(),
    ensures
        match r {
            Some((j, t)) => spec_version_compatiblerelease(s@, i as int) == Some((j as int, t@))
                && i <= j <= s@.len(),
            None => spec_version_compatiblerelease(s@, i as int) is None,
        },
{
    let n = s.unicode_len();
    let i1 = scan_spaces(s, i);
    let i0 = if i1 < n && s.get_char(i1) == 'v' {
        i1 + 1
    } else {
        i1
    };
    let i2 = match epoch(s, i0) {
        Some((j, _)) => j,
        None => i0,
    };
    match release(s, i2) {
        Some((j, rel)) => {
            if rel.len() >= 2 {
                let e = plain_suffix(s, j);
                let text = s.substring_char(i1, e);
                Some((e, text.to_owned()))
            } else {
                None
            }
        },
        None => None,
    }
}

/// The version text of an ordering constraint.
pub fn version_other_operator(s: &str, i: usize) -> (r: Option<(usize, String)>)
    requires
        i <= s@.len(),
    ensures
        match r {
            Some((j, t)) => spec_version_other_operator(s@, i as int) == Some((j as int, t@)) && i
                <= j <= s@.len(),
            None => spec_version_other_operator(s@, i as int) is None,
        },
{
    let i1 = scan_spaces(s, i);
    match version_core(s, i1) {
        Some(j) => {
            let e = plain_suffix(s, j);
            let text = s.substring_char(i1, e);
            Some((e, text.to_owned()))
        },
        None => None,
    }
}

/// One constraint: an operator and its version text.
pub fn version_one(s: &str, i: usize) -> (r: Option<(usize, VersionSpec)>)
    requires
        i <= s@.len(),
    ensures
        match r {
            Some((j, vs)) => spec_version_one(s@, i as int) == Some((j as int, vs@)) && i <= j
                <= s@.len(),
            None => spec_version_one(s@, i as int) is None,
        },
{
    match version_cmp(s, i) {
        Some((j, op)) => {
            let vt = match op {
                Comparison::ArbitraryEqual => Some(version_arbitraryequal(s, j)),
                Comparison::Equal => version_equal_notequal(s, j),
                Comparison::NotEqual => version_equal_notequal(s, j),
                Comparison::CompatibleRelease => version_compatiblerelease(s, j),
                _ => version_other_operator(s, j),
            };
            match vt {
                Some((e, text)) => Some((scan_spaces(s, e), VersionSpec(op, text))),
                None => None,
            }
        },
        None => None,
    }
}

fn version_more(s: &str, i: usize, acc: &mut Vec<VersionSpec>) -> (j: usize)
    requires
        i <= s@.len(),
    ensures
        j == spec_version_more(s@, i as int).0,
        final(acc)@.map_values(|vs: VersionSpec| vs@) == old(acc)@.map_values(
            |vs: VersionSpec| vs@,
        ) + spec_version_more(s@, i as int).1,
        i <= j <= s@.len(),
    decreases s@.len() - i,
{
    let n = s.unicode_len();
    let j0 = scan_spaces(s, i);
    if j0 < n && s.get_char(j0) == ',' {
        match version_one(s, j0 + 1) {
            Some((j, vs)) => {
                if j > i {
                    let ghost vsv = vs@;
                    acc.push(vs);
                    let ghost mid = acc@;
                    let e = version_more(s, j, acc);
                    proof {
                        assert(mid.map_values(|x: VersionSpec| x@) =~= old(acc)@.map_values(
                            |x: VersionSpec| x@,
                        ).push(vsv));
                        assert(acc@.map_values(|x: VersionSpec| x@) =~= old(acc)@.map_values(
                            |x: VersionSpec| x@,
                        ) + spec_version_more(s@, i as int).1);
                    }
                    e
                } else {
                    proof {
                        assert(acc@.map_values(|x: VersionSpec| x@) =~= old(acc)@.map_values(
                            |x: VersionSpec| x@,
                        ) + spec_version_more(s@, i as int).1);
                    }
                    i
                }
            },
            None => {
                proof {
                    assert(acc@.map_values(|x: VersionSpec| x@) =~= old(acc)@.map_values(
                        |x: VersionSpec| x@,
                    ) + spec_version_more(s@, i as int).1);
                }
                i
            },
        }
    } else {
        proof {
            assert(acc@.map_values(|x: VersionSpec| x@) =~= old(acc)@.map_values(
                |x: VersionSpec| x@,
            ) + spec_version_more(s@, i as int).1);
        }
        i
    }
}

/// A comma-separated list of constraints.
pub fn version_many(s: &str, i: usize) -> (r: Option<(usize, Vec<VersionSpec>)>)
    requires
        i <= s@.len(),
    ensures
        match r {
            Some((j, specs)) => spec_version_many(s@, i as int) == Some(
                (j as int, specs@.map_values(|vs: VersionSpec| vs@)),
            ) && i <= j <= s@.len(),
            None => spec_version_many(s@, i as int) is None,
        },
{
    match version_one(s, i) {
        Some((j, vs)) => {
            let ghost vsv = vs@;
            let mut acc: Vec<VersionSpec> = Vec::new();
            acc.push(vs);
            let ghost one = acc@;
            let e = version_more(s, j, &mut acc);
            proof {
                assert(one.map_values(|x: VersionSpec| x@) =~= seq![vsv]);
                assert(acc@.map_values(|x: VersionSpec| x@) =~= seq![vsv] + spec_version_more(
                    s@,
                    j as int,
                ).1);
            }
            Some((e, acc))
        },
        None => None,
    }
}

/// A constraint list, optionally parenthesized.
pub fn versionspec(s: &str, i: usize) -> (r: Option<(usize, Vec<VersionSpec>)>)
    requires
        i <= s@.len(),
    ensures
        match r {
            Some((j, specs)) => spec_versionspec(s@, i as int) == Some(
                (j as int, specs@.map_values(|vs: VersionSpec| vs@)),
            ) && i <= j <= s@.len(),
            None => spec_versionspec(s@, i as int) is None,
        },
{
    let n = s.unicode_len();
    if i < n && s.get_char(i) == '(' {
        match version_many(s, i + 1) {
            Some((j, specs)) => {
                if j < n && s.get_char(j) == ')' {
                    return Some((j + 1, specs));
                }
            },
            None => {},
        }
    }
    version_many(s, i)
}

/// A URL clause.
pub fn urlspec(s: &str, i: usize) -> (r: Option<(usize, String)>)
    requires
        i <= s@.len(),
    ensures
        match r {
            Some((j, t)) => spec_urlspec(s@, i as int) == Some((j as int, t@)) && i <= j
                <= s@.len(),
            None => spec_urlspec(s@, i as int) is None,
        },
{
    let n = s.unicode_len();
    if i < n && s.get_char(i) == '@' {
        let i1 = scan_spaces(s, i + 1);
        let e = uri_reference(s, i1);
        let text = s.substring_char(i1, e);
        Some((e, text.to_owned()))
    } else {
        None
    }
}

/// A plain requirement.
pub fn name_req(s: &str, i: usize) -> (r: Option<(usize, RequirementSpecifier)>)
    requires
        i <= s@.len(),
    ensures
        match r {
            Some((j, req)) => spec_name_req(s@, i as int) == Some((j as int, req@)) && i <= j
                <= s@.len(),
            None => spec_name_req(s@, i as int) is None,
        },
{
    match identifier(s, i) {
        Some((j, name)) => {
            let i1 = scan_spaces(s, j);
            let (i1b, ext) = match extras(s, i1) {
                Some((j2, ids)) => (j2, ids),
                None => (i1, Vec::new()),
            };
            let i2 = scan_spaces(s, i1b);
            let (i2b, specs) = match versionspec(s, i2) {
                Some((j3, specs)) => (j3, specs),
                None => (i2, Vec::new()),
            };
            let i3 = scan_spaces(s, i2b);
            let (i3b, mk) = match quoted_marker(s, i3) {
                Some((j4, m)) => (j4, Some(m)),
                None => (i3, None),
            };
            let req = RequirementSpecifier {
                name,
                extras: ext,
                version_specs: specs,
                urlspec: None,
                marker_expr: mk,
            };
            proof {
                assert(req@ =~= spec_name_req(s@, i as int)->Some_0.1);
            }
            Some((i3b, req))
        },
        None => None,
    }
}

/// A URL requirement.
pub fn url_req(s: &str, i: usize) -> (r: Option<(usize, RequirementSpecifier)>)
    requires
        i <= s@.len(),
    ensures
        match r {
            Some((j, req)) => spec_url_req(s@, i as int) == Some((j as int, req@)) && i <= j
                <= s@.len(),
            None => spec_url_req(s@, i as int) is None,
        },
{
    let n = s.unicode_len();
    match identifier(s, i) {
        Some((j, name)) => {
            let i1 = scan_spaces(s, j);
            let (i1b, ext) = match extras(s, i1) {
                Some((j2, ids)) => (j2, ids),
                None => (i1, Vec::new()),
            };
            let i2 = scan_spaces(s, i1b);
            match urlspec(s, i2) {
                Some((j3, url)) => {
                    let after = if j3 == n {
                        Some(j3)
                    } else if j3 < n && crate::chars::space_char(s.get_char(j3)) {
                        Some(scan_spaces(s, j3))
                    } else {
                        None
                    };
                    match after {
                        Some(i3) => {
                            let (i3b, mk) = match quoted_marker(s, i3) {
                                Some((j4, m)) => (j4, Some(m)),
                                None => (i3, None),
                            };
                            let req = RequirementSpecifier {
                                name,
                                extras: ext,
                                version_specs: Vec::new(),
                                urlspec: Some(url),
                                marker_expr: mk,
                            };
                            proof {
                                assert(req@ =~= spec_url_req(s@, i as int)->Some_0.1);
                            }
                            Some((i3b, req))
                        },
                        None => None,
                    }
                },
                None => None,
            }
        },
        None => None,
    }
}

/// A whole requirement line parsed from the start of the text, with the
/// unconsumed remainder.
pub fn specification(input: &str) -> (r: Result<(String, RequirementSpecifier), crate::ParseError>)
    ensures
        match r {
            Ok((rest, req)) => spec_specification(input@, 0) matches Some((j, rv)) && rv == req@
                && rest@ == input@.skip(j),
            Err(e) => spec_specification(input@, 0) is None && e.rest@ == input@,
        },
{
    let i1 = scan_spaces(input, 0);
    let req = match url_req(input, i1) {
        Some(r2) => Some(r2),
        None => name_req(input, i1),
    };
    match req {
        Some((j, rv)) => {
            let e = scan_spaces(input, j);
            Ok((crate::chars::rest_of(input, e), rv))
        },
        None => Err(crate::ParseError { rest: input.to_owned() }),
    }
}

/// A requirement parsed from the whole text: fails when the text does not
/// match the grammar or is not consumed entirely.
pub fn parse_specification(input: &str) -> (r: Result<RequirementSpecifier, crate::ParseError>)
    ensures
        match r {
            Ok(req) => spec_specification(input@, 0) == Some((input@.len() as int, req@)),
            Err(e) => match spec_specification(input@, 0) {
                Some((j, _)) => j < input@.len() && e.rest@ == input@.skip(j),
                None => e.rest@ == input@,
            },
        },
{
    let n = input.unicode_len();
    let i1 = scan_spaces(input, 0);
    let req = match url_req(input, i1) {
        Some(r2) => Some(r2),
        None => name_req(input, i1),
    };
    match req {
        Some((j, rv)) => {
            let e = scan_spaces(input, j);
            if e == n {
                Ok(rv)
            } else {
                Err(crate::ParseError { rest: crate::chars::rest_of(input, e) })
            }
        },
        None => Err(crate::ParseError { rest: input.to_owned() }),
    }
}

} // verus!

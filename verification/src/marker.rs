//! Environment-marker expressions: a boolean grammar over a fixed set of
//! environment variables and quoted literals, with `and` binding tighter
//! than `or` and parentheses overriding both.
//!
//! The grammar is stratified into two precedence layers: the `or` layer
//! wraps only the `and` layer, which wraps only basic comparisons and
//! parenthesized groups, so the recursion always consumes an opening
//! parenthesis before it re-enters the top layer.

use crate::chars::{low_byte, scan_spaces, space_run_end, spec_tag, tag};
use crate::specifier::{spec_version_cmp, version_cmp, Comparison};
use vstd::prelude::*;

verus! {

/// An operator of a basic marker comparison: a version comparison operator
/// or one of the set-membership operators.
#[derive(Debug, PartialEq)]
pub enum MarkerOp {
    Comparison(Comparison),
    In,
    NotIn,
}

impl From<Comparison> for MarkerOp {
    fn from(c: Comparison) -> (r: Self)
    {
        MarkerOp::Comparison(c)
    }
}

impl vstd::std_specs::convert::FromSpecImpl<Comparison> for MarkerOp {
    open spec fn obeys_from_spec() -> bool {
        true
    }

    open spec fn from_spec(c: Comparison) -> Self {
        MarkerOp::Comparison(c)
    }
}

/// A marker expression: a basic comparison of two operands, or a
/// conjunction or disjunction.  Each composite node owns its two children;
/// the tree is immutable once built.
#[derive(Debug, PartialEq)]
pub enum MarkerExpr {
    Basic(String, MarkerOp, String),
    And(Box<MarkerExpr>, Box<MarkerExpr>),
    Or(Box<MarkerExpr>, Box<MarkerExpr>),
}

/// Mathematical model of a marker expression.
pub ghost enum MarkerTree {
    Basic(Seq<char>, MarkerOp, Seq<char>),
    And(Box<MarkerTree>, Box<MarkerTree>),
    Or(Box<MarkerTree>, Box<MarkerTree>),
}

impl View for MarkerExpr {
    type V = MarkerTree;

    open spec fn view(&self) -> MarkerTree
        decreases self,
    {
        match self {
            MarkerExpr::Basic(l, op, r) => MarkerTree::Basic(l@, *op, r@),
            MarkerExpr::And(l, r) => MarkerTree::And(Box::new((**l).view()), Box::new((**r).view())),
            MarkerExpr::Or(l, r) => MarkerTree::Or(Box::new((**l).view()), Box::new((**r).view())),
        }
    }
}

/// Whether a character may stand in a quoted marker literal: blanks,
/// characters whose low byte is an ASCII letter or digit, and a fixed set
/// of punctuation.
pub open spec fn is_python_char(c: char) -> bool {
    ||| low_byte(c) == 32
    ||| low_byte(c) == 9
    ||| (48 <= low_byte(c) && low_byte(c) <= 57)
    ||| (65 <= low_byte(c) && low_byte(c) <= 90)
    ||| (97 <= low_byte(c) && low_byte(c) <= 122)
    ||| c == '(' || c == ')' || c == '.' || c == '{' || c == '}' || c == '-' || c == '_'
    ||| c == '*' || c == '#' || c == ':' || c == ';' || c == ',' || c == '/' || c == '?'
    ||| c == '[' || c == ']' || c == '!' || c == '~' || c == '`' || c == '@' || c == '$'
    ||| c == '%' || c == '^' || c == '&' || c == '=' || c == '+' || c == '|' || c == '<'
    ||| c == '>'
}

/// Executable test for a quoted-literal character.
pub fn is_python_str_c(c: char) -> (r: bool)
    ensures
        r == is_python_char(c),
{
    let b: u32 = (c as u32) % 256;
    b == 32 || b == 9 || (48 <= b && b <= 57) || (65 <= b && b <= 90) || (97 <= b && b <= 122)
        || c == '(' || c == ')' || c == '.' || c == '{' || c == '}' || c == '-' || c == '_'
        || c == '*' || c == '#' || c == ':' || c == ';' || c == ',' || c == '/' || c == '?'
        || c == '[' || c == ']' || c == '!' || c == '~' || c == '`' || c == '@' || c == '$'
        || c == '%' || c == '^' || c == '&' || c == '=' || c == '+' || c == '|' || c == '<'
        || c == '>'
}

/// End of a run of quoted-literal characters, with one extra character also
/// allowed (the other quote).
pub open spec fn pystr_run_end(s: Seq<char>, i: int, extra: char) -> int
    decreases s.len() - i,
{
    if 0 <= i < s.len() && (is_python_char(s[i]) || s[i] == extra) {
        pystr_run_end(s, i + 1, extra)
    } else {
        i
    }
}

proof fn lemma_pystr_run(s: Seq<char>, i: int, extra: char)
    requires
        0 <= i <= s.len(),
    ensures
        i <= pystr_run_end(s, i, extra) <= s.len(),
    decreases s.len() - i,
{
    if i < s.len() && (is_python_char(s[i]) || s[i] == extra) {
        lemma_pystr_run(s, i + 1, extra);
    }
}

fn scan_pystr_step(s: &str, n: usize, i: usize, extra: char) -> (j: usize)
    requires
        n == s@.len(),
        i <= n,
    ensures
        j == pystr_run_end(s@, i as int, extra),
        i <= j <= s@.len(),
    decreases n - i,
{
    if i < n {
        let c = s.get_char(i);
        if is_python_str_c(c) || c == extra {
            return scan_pystr_step(s, n, i + 1, extra);
        }
    }
    i
}

fn scan_pystr(s: &str, i: usize, extra: char) -> (j: usize)
    requires
        i <= s@.len(),
    ensures
        j == pystr_run_end(s@, i as int, extra),
        i <= j <= s@.len(),
{
    let n = s.unicode_len();
    scan_pystr_step(s, n, i, extra)
}

/// A quoted string literal: either single quotes around a run in which
/// double quotes are also allowed, or the other way round.  The result is
/// the text between the quotes.
pub open spec fn spec_python_str(s: Seq<char>, i: int) -> Option<(int, Seq<char>)> {
    if 0 <= i < s.len() && s[i] == '\'' {
        let j = pystr_run_end(s, i + 1, '"');
        if j < s.len() && s[j] == '\'' {
            Some((j + 1, s.subrange(i + 1, j)))
        } else {
            None
        }
    } else if 0 <= i < s.len() && s[i] == '"' {
        let j = pystr_run_end(s, i + 1, '\'');
        if j < s.len() && s[j] == '"' {
            Some((j + 1, s.subrange(i + 1, j)))
        } else {
            None
        }
    } else {
        None
    }
}

/// Executable quoted string literal.
pub fn python_str(s: &str, i: usize) -> (r: Option<(usize, String)>)
    requires
        i <= s@.len(),
    ensures
        match r {
            Some((j, t)) => spec_python_str(s@, i as int) == Some((j as int, t@)) && i < j
                <= s@.len(),
            None => spec_python_str(s@, i as int) is None,
        },
{
    let n = s.unicode_len();
    if i < n && s.get_char(i) == '\'' {
        let j = scan_pystr(s, i + 1, '"');
        if j < n && s.get_char(j) == '\'' {
            let inner = s.substring_char(i + 1, j);
            Some((j + 1, inner.to_owned()))
        } else {
            None
        }
    } else if i < n && s.get_char(i) == '"' {
        let j = scan_pystr(s, i + 1, '\'');
        if j < n && s.get_char(j) == '"' {
            let inner = s.substring_char(i + 1, j);
            Some((j + 1, inner.to_owned()))
        } else {
            None
        }
    } else {
        None
    }
}

/// The fixed set of recognized environment-variable names, tried in order;
/// the result is the matched name.
pub open spec fn spec_env_var(s: Seq<char>, i: int) -> Option<(int, Seq<char>)> {
    if spec_tag(s, i, "python_version"@) {
        Some((i + 14, "python_version"@))
    } else if spec_tag(s, i, "python_full_version"@) {
        Some((i + 19, "python_full_version"@))
    } else if spec_tag(s, i, "os_name"@) {
        Some((i + 7, "os_name"@))
    } else if spec_tag(s, i, "sys_platform"@) {
        Some((i + 12, "sys_platform"@))
    } else if spec_tag(s, i, "platform_release"@) {
        Some((i + 16, "platform_release"@))
    } else if spec_tag(s, i, "platform_system"@) {
        Some((i + 15, "platform_system"@))
    } else if spec_tag(s, i, "platform_version"@) {
        Some((i + 16, "platform_version"@))
    } else if spec_tag(s, i, "platform_machine"@) {
        Some((i + 16, "platform_machine"@))
    } else if spec_tag(s, i, "platform_python_implementation"@) {
        Some((i + 30, "platform_python_implementation"@))
    } else if spec_tag(s, i, "implementation_name"@) {
        Some((i + 19, "implementation_name"@))
    } else if spec_tag(s, i, "implementation_version"@) {
        Some((i + 22, "implementation_version"@))
    } else if spec_tag(s, i, "extra"@) {
        Some((i + 5, "extra"@))
    } else {
        None
    }
}

/// Executable recognizer of an environment-variable name.
pub fn env_var(s: &str, i: usize) -> (r: Option<(usize, String)>)
    requires
        i <= s@.len(),
    ensures
        match r {
            Some((j, t)) => spec_env_var(s@, i as int) == Some((j as int, t@)) && i < j <= s@.len(),
            None => spec_env_var(s@, i as int) is None,
        },
{
    let n = s.unicode_len();
    proof {
        reveal_strlit("python_version");
        reveal_strlit("python_full_version");
        reveal_strlit("os_name");
        reveal_strlit("sys_platform");
        reveal_strlit("platform_release");
        reveal_strlit("platform_system");
        reveal_strlit("platform_version");
        reveal_strlit("platform_machine");
        reveal_strlit("platform_python_implementation");
        reveal_strlit("implementation_name");
        reveal_strlit("implementation_version");
        reveal_strlit("extra");
    }
    if tag(s, i, "python_version") {
        proof {
            crate::chars::lemma_tag_end(s@, i as int, "python_version"@, 0);
        }
        Some((i + 14, String::from_str("python_version")))
    } else if tag(s, i, "python_full_version") {
        proof {
            crate::chars::lemma_tag_end(s@, i as int, "python_full_version"@, 0);
        }
        Some((i + 19, String::from_str("python_full_version")))
    } else if tag(s, i, "os_name") {
        proof {
            crate::chars::lemma_tag_end(s@, i as int, "os_name"@, 0);
        }
        Some((i + 7, String::from_str("os_name")))
    } else if tag(s, i, "sys_platform") {
        proof {
            crate::chars::lemma_tag_end(s@, i as int, "sys_platform"@, 0);
        }
        Some((i + 12, String::from_str("sys_platform")))
    } else if tag(s, i, "platform_release") {
        proof {
            crate::chars::lemma_tag_end(s@, i as int, "platform_release"@, 0);
        }
        Some((i + 16, String::from_str("platform_release")))
    } else if tag(s, i, "platform_system") {
        proof {
            crate::chars::lemma_tag_end(s@, i as int, "platform_system"@, 0);
        }
        Some((i + 15, String::from_str("platform_system")))
    } else if tag(s, i, "platform_version") {
        proof {
            crate::chars::lemma_tag_end(s@, i as int, "platform_version"@, 0);
        }
        Some((i + 16, String::from_str("platform_version")))
    } else if tag(s, i, "platform_machine") {
        proof {
            crate::chars::lemma_tag_end(s@, i as int, "platform_machine"@, 0);
        }
        Some((i + 16, String::from_str("platform_machine")))
    } else if tag(s, i, "platform_python_implementation") {
        proof {
            crate::chars::lemma_tag_end(s@, i as int, "platform_python_implementation"@, 0);
        }
        Some((i + 30, String::from_str("platform_python_implementation")))
    } else if tag(s, i, "implementation_name") {
        proof {
            crate::chars::lemma_tag_end(s@, i as int, "implementation_name"@, 0);
        }
        Some((i + 19, String::from_str("implementation_name")))
    } else if tag(s, i, "implementation_version") {
        proof {
            crate::chars::lemma_tag_end(s@, i as int, "implementation_version"@, 0);
        }
        Some((i + 22, String::from_str("implementation_version")))
    } else if tag(s, i, "extra") {
        proof {
            crate::chars::lemma_tag_end(s@, i as int, "extra"@, 0);
        }
        Some((i + 5, String::from_str("extra")))
    } else {
        None
    }
}

/// A marker operand: leading blanks, then an environment-variable name or a
/// quoted literal, the name tried first.
pub open spec fn spec_marker_var(s: Seq<char>, i: int) -> Option<(int, Seq<char>)> {
    let i1 = space_run_end(s, i);
    match spec_env_var(s, i1) {
        Some(r) => Some(r),
        None => spec_python_str(s, i1),
    }
}

/// Executable marker operand.
pub fn marker_var(s: &str, i: usize) -> (r: Option<(usize, String)>)
    requires
        i <= s@.len(),
    ensures
        match r {
            Some((j, t)) => spec_marker_var(s@, i as int) == Some((j as int, t@)) && i < j
                <= s@.len(),
            None => spec_marker_var(s@, i as int) is None,
        },
{
    let i1 = scan_spaces(s, i);
    match env_var(s, i1) {
        Some(r) => Some(r),
        None => python_str(s, i1),
    }
}

/// A marker operator: a version comparison operator, `in`, or `not in`.
pub open spec fn spec_marker_op(s: Seq<char>, i: int) -> Option<(int, MarkerOp)> {
    match spec_version_cmp(s, i) {
        Some((j, c)) => Some((j, MarkerOp::Comparison(c))),
        None => {
            let i1 = space_run_end(s, i);
            if spec_tag(s, i1, "in"@) {
                Some((i1 + 2, MarkerOp::In))
            } else if spec_tag(s, i1, "not"@) {
                let i2 = space_run_end(s, i1 + 3);
                if i2 > i1 + 3 && spec_tag(s, i2, "in"@) {
                    Some((i2 + 2, MarkerOp::NotIn))
                } else {
                    None
                }
            } else {
                None
            }
        },
    }
}

/// Executable marker operator.
pub fn marker_op(s: &str, i: usize) -> (r: Option<(usize, MarkerOp)>)
    requires
        i <= s@.len(),
    ensures
        match r {
            Some((j, op)) => spec_marker_op(s@, i as int) == Some((j as int, op)) && i < j
                <= s@.len(),
            None => spec_marker_op(s@, i as int) is None,
        },
{
    let n = s.unicode_len();
    proof {
        reveal_strlit("in");
        reveal_strlit("not");
    }
    match version_cmp(s, i) {
        Some((j, c)) => Some((j, MarkerOp::Comparison(c))),
        None => {
            let i1 = scan_spaces(s, i);
            if tag(s, i1, "in") {
                proof {
                    crate::chars::lemma_tag_end(s@, i1 as int, "in"@, 0);
                }
                Some((i1 + 2, MarkerOp::In))
            } else if tag(s, i1, "not") {
                proof {
                    crate::chars::lemma_tag_end(s@, i1 as int, "not"@, 0);
                }
                let i2 = scan_spaces(s, i1 + 3);
                if i2 > i1 + 3 && tag(s, i2, "in") {
                    proof {
                        crate::chars::lemma_tag_end(s@, i2 as int, "in"@, 0);
                    }
                    Some((i2 + 2, MarkerOp::NotIn))
                } else {
                    None
                }
            } else {
                None
            }
        },
    }
}

/// A basic comparison (`operand op operand`) or a parenthesized group.  The
/// comparison is tried first; a group consumes its opening parenthesis
/// before re-entering the top layer, so the recursion terminates.
pub open spec fn spec_marker_expr(s: Seq<char>, i: int) -> Option<(int, MarkerTree)>
    decreases s.len() - i, 0int,
{
    let basic = match spec_marker_var(s, i) {
        Some((i1, l)) => match spec_marker_op(s, i1) {
            Some((i2, op)) => match spec_marker_var(s, i2) {
                Some((i3, r)) => Some((i3, MarkerTree::Basic(l, op, r))),
                None => None,
            },
            None => None,
        },
        None => None,
    };
    if basic is Some {
        basic
    } else {
        let i1 = space_run_end(s, i);
        if i <= i1 && i1 < s.len() && s[i1] == '(' {
            match spec_marker_or(s, i1 + 1) {
                Some((j, t)) => {
                    let i2 = space_run_end(s, j);
                    if i2 < s.len() && s[i2] == ')' {
                        Some((i2 + 1, t))
                    } else {
                        None
                    }
                },
                None => None,
            }
        } else {
            None
        }
    }
}

/// A conjunction of at most two operands: `expr and expr`, or a single
/// expression.
pub open spec fn spec_marker_and(s: Seq<char>, i: int) -> Option<(int, MarkerTree)>
    decreases s.len() - i, 1int,
{
    let pair = match spec_marker_expr(s, i) {
        Some((j, l)) => {
            let i2 = space_run_end(s, j);
            if i <= j && spec_tag(s, i2, "and"@) {
                let i4 = space_run_end(s, i2 + 3);
                if i <= i4 <= s.len() {
                    match spec_marker_expr(s, i4) {
                        Some((k, r)) => Some((k, MarkerTree::And(Box::new(l), Box::new(r)))),
                        None => None,
                    }
                } else {
                    None
                }
            } else {
                None
            }
        },
        None => None,
    };
    if pair is Some {
        pair
    } else {
        spec_marker_expr(s, i)
    }
}

/// A disjunction of at most two operands: `and-layer or and-layer`, or a
/// single and-layer expression.  `and` binds tighter than `or` because the
/// operands of `or` are whole and-layer expressions.
pub open spec fn spec_marker_or(s: Seq<char>, i: int) -> Option<(int, MarkerTree)>
    decreases s.len() - i, 2int,
{
    let pair = match spec_marker_and(s, i) {
        Some((j, l)) => {
            let i2 = space_run_end(s, j);
            if i <= j && spec_tag(s, i2, "or"@) {
                let i4 = space_run_end(s, i2 + 2);
                if i <= i4 <= s.len() {
                    match spec_marker_and(s, i4) {
                        Some((k, r)) => Some((k, MarkerTree::Or(Box::new(l), Box::new(r)))),
                        None => None,
                    }
                } else {
                    None
                }
            } else {
                None
            }
        },
        None => None,
    };
    if pair is Some {
        pair
    } else {
        spec_marker_and(s, i)
    }
}

/// A marker clause at the end of a requirement: `;` then a marker
/// expression.
pub open spec fn spec_quoted_marker(s: Seq<char>, i: int) -> Option<(int, MarkerTree)> {
    if 0 <= i < s.len() && s[i] == ';' {
        let i1 = space_run_end(s, i + 1);
        if i < i1 {
            spec_marker_or(s, i1)
        } else {
            None
        }
    } else {
        None
    }
}

/// Executable basic comparison or parenthesized group.
pub fn marker_expr(s: &str, i: usize) -> (r: Option<(usize, MarkerExpr)>)
    requires
        i <= s@.len(),
    ensures
        match r {
            Some((j, e)) => spec_marker_expr(s@, i as int) == Some((j as int, e@)) && i < j
                <= s@.len(),
            None => spec_marker_expr(s@, i as int) is None,
        },
    decreases s@.len() - i, 0int,
{
    let n = s.unicode_len();
    match marker_var(s, i) {
        Some((i1, l)) => {
            match marker_op(s, i1) {
                Some((i2, op)) => {
                    match marker_var(s, i2) {
                        Some((i3, rr)) => {
                            return Some((i3, MarkerExpr::Basic(l, op, rr)));
                        },
                        None => {},
                    }
                },
                None => {},
            }
        },
        None => {},
    }
    let i1 = scan_spaces(s, i);
    if i1 < n && s.get_char(i1) == '(' {
        match marker_or(s, i1 + 1) {
            Some((j, t)) => {
                let i2 = scan_spaces(s, j);
                if i2 < n && s.get_char(i2) == ')' {
                    Some((i2 + 1, t))
                } else {
                    None
                }
            },
            None => None,
        }
    } else {
        None
    }
}

/// Executable conjunction layer.
pub fn marker_and(s: &str, i: usize) -> (r: Option<(usize, MarkerExpr)>)
    requires
        i <= s@.len(),
    ensures
        match r {
            Some((j, e)) => spec_marker_and(s@, i as int) == Some((j as int, e@)) && i < j
                <= s@.len(),
            None => spec_marker_and(s@, i as int) is None,
        },
    decreases s@.len() - i, 1int,
{
    let n = s.unicode_len();
    proof {
        reveal_strlit("and");
    }
    match marker_expr(s, i) {
        Some((j, l)) => {
            let i2 = scan_spaces(s, j);
            if tag(s, i2, "and") {
                proof {
                    crate::chars::lemma_tag_end(s@, i2 as int, "and"@, 0);
                }
                let i4 = scan_spaces(s, i2 + 3);
                match marker_expr(s, i4) {
                    Some((k, rr)) => {
                        return Some((k, MarkerExpr::And(Box::new(l), Box::new(rr))));
                    },
                    None => {},
                }
            }
            Some((j, l))
        },
        None => None,
    }
}

/// Executable disjunction layer.
pub fn marker_or(s: &str, i: usize) -> (r: Option<(usize, MarkerExpr)>)
    requires
        i <= s@.len(),
    ensures
        match r {
            Some((j, e)) => spec_marker_or(s@, i as int) == Some((j as int, e@)) && i < j
                <= s@.len(),
            None => spec_marker_or(s@, i as int) is None,
        },
    decreases s@.len() - i, 2int,
{
    let n = s.unicode_len();
    proof {
        reveal_strlit("or");
    }
    match marker_and(s, i) {
        Some((j, l)) => {
            let i2 = scan_spaces(s, j);
            if tag(s, i2, "or") {
                proof {
                    crate::chars::lemma_tag_end(s@, i2 as int, "or"@, 0);
                }
                let i4 = scan_spaces(s, i2 + 2);
                match marker_and(s, i4) {
                    Some((k, rr)) => {
                        return Some((k, MarkerExpr::Or(Box::new(l), Box::new(rr))));
                    },
                    None => {},
                }
            }
            Some((j, l))
        },
        None => None,
    }
}

/// Executable marker clause: `;` then a marker expression.
pub fn quoted_marker(s: &str, i: usize) -> (r: Option<(usize, MarkerExpr)>)
    requires
        i <= s@.len(),
    ensures
        match r {
            Some((j, e)) => spec_quoted_marker(s@, i as int) == Some((j as int, e@)) && i < j
                <= s@.len(),
            None => spec_quoted_marker(s@, i as int) is None,
        },
{
    let n = s.unicode_len();
    if i < n && s.get_char(i) == ';' {
        let i1 = scan_spaces(s, i + 1);
        marker_or(s, i1)
    } else {
        None
    }
}

} // verus!

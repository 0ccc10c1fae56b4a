//! The URI-reference grammar of RFC 3986, as a recognizer.
//!
//! A requirement may name its source by URL; the text after `@` is
//! delimited by this grammar and kept verbatim, never decomposed further.
//! Each production has a specification-level definition returning the end
//! position of the match (or nothing, where the production can fail), and
//! an executable recognizer proved equal to it.  Alternatives are ordered:
//! the first that matches wins, so an octet of a dotted address is always a
//! single digit, the alternative that could take more never being reached.

use crate::chars::{
    alnum_byte, alpha_byte, digit_byte, digit_run_end, hex_byte, is_alnum_byte, is_alpha_byte,
    is_digit_byte, is_hex_byte, scan_digits,
};
use vstd::prelude::*;

verus! {

/// An unreserved character: a letter or digit by low byte, or `-._~`.
pub open spec fn is_unreserved_char(c: char) -> bool {
    is_alnum_byte(c) || c == '-' || c == '.' || c == '_' || c == '~'
}

/// A sub-delimiter.
pub open spec fn is_sub_delim_char(c: char) -> bool {
    c == '!' || c == '$' || c == '&' || c == '\'' || c == '(' || c == ')' || c == '*' || c == '+'
        || c == ',' || c == ';' || c == '='
}

/// A general delimiter.
pub open spec fn is_gen_delim_char(c: char) -> bool {
    c == ':' || c == '/' || c == '?' || c == '#' || c == '[' || c == ']' || c == '@'
}

/// Executable unreserved-character test.
pub fn unreserved_char(c: char) -> (r: bool)
    ensures
        r == is_unreserved_char(c),
{
    alnum_byte(c) || c == '-' || c == '.' || c == '_' || c == '~'
}

/// Executable sub-delimiter test.
pub fn sub_delim_char(c: char) -> (r: bool)
    ensures
        r == is_sub_delim_char(c),
{
    c == '!' || c == '$' || c == '&' || c == '\'' || c == '(' || c == ')' || c == '*' || c == '+'
        || c == ',' || c == ';' || c == '='
}

/// Executable general-delimiter test.
pub fn gen_delim_char(c: char) -> (r: bool)
    ensures
        r == is_gen_delim_char(c),
{
    c == ':' || c == '/' || c == '?' || c == '#' || c == '[' || c == ']' || c == '@'
}

/// One unreserved character.
pub open spec fn spec_unreserved(s: Seq<char>, i: int) -> Option<int> {
    if 0 <= i < s.len() && is_unreserved_char(s[i]) {
        Some(i + 1)
    } else {
        None
    }
}

/// One sub-delimiter.
pub open spec fn spec_sub_delims(s: Seq<char>, i: int) -> Option<int> {
    if 0 <= i < s.len() && is_sub_delim_char(s[i]) {
        Some(i + 1)
    } else {
        None
    }
}

/// One general delimiter.
pub open spec fn spec_gen_delims(s: Seq<char>, i: int) -> Option<int> {
    if 0 <= i < s.len() && is_gen_delim_char(s[i]) {
        Some(i + 1)
    } else {
        None
    }
}

/// One reserved character: a general or sub-delimiter.
pub open spec fn spec_reserved(s: Seq<char>, i: int) -> Option<int> {
    match spec_gen_delims(s, i) {
        Some(j) => Some(j),
        None => spec_sub_delims(s, i),
    }
}

/// A percent-encoded byte: `%` and two hexadecimal characters.
pub open spec fn spec_pct_encoded(s: Seq<char>, i: int) -> Option<int> {
    if 0 <= i && i + 2 < s.len() && s[i] == '%' && is_hex_byte(s[i + 1]) && is_hex_byte(s[i + 2]) {
        Some(i + 3)
    } else {
        None
    }
}

/// One path character: unreserved, percent-encoded, sub-delimiter, `:` or
/// `@`.
pub open spec fn spec_pchar(s: Seq<char>, i: int) -> Option<int> {
    match spec_unreserved(s, i) {
        Some(j) => Some(j),
        None => match spec_pct_encoded(s, i) {
            Some(j) => Some(j),
            None => match spec_sub_delims(s, i) {
                Some(j) => Some(j),
                None => if 0 <= i < s.len() && (s[i] == ':' || s[i] == '@') {
                    Some(i + 1)
                } else {
                    None
                },
            },
        },
    }
}

/// A possibly empty run of path characters.
pub open spec fn spec_segment(s: Seq<char>, i: int) -> int
    decreases s.len() - i,
{
    match spec_pchar(s, i) {
        Some(j) => if i < j <= s.len() {
            spec_segment(s, j)
        } else {
            i
        },
        None => i,
    }
}

/// A non-empty run of path characters.
pub open spec fn spec_segment_nz(s: Seq<char>, i: int) -> Option<int> {
    match spec_pchar(s, i) {
        Some(j) => if i < j <= s.len() {
            Some(spec_segment(s, j))
        } else {
            None
        },
        None => None,
    }
}

/// One character of a no-scheme segment: as a path character but `@` in
/// place of `:`.
pub open spec fn spec_nc_char(s: Seq<char>, i: int) -> Option<int> {
    match spec_unreserved(s, i) {
        Some(j) => Some(j),
        None => match spec_pct_encoded(s, i) {
            Some(j) => Some(j),
            None => match spec_sub_delims(s, i) {
                Some(j) => Some(j),
                None => if 0 <= i < s.len() && s[i] == '@' {
                    Some(i + 1)
                } else {
                    None
                },
            },
        },
    }
}

/// A possibly empty run of no-scheme characters.
pub open spec fn spec_nc_run(s: Seq<char>, i: int) -> int
    decreases s.len() - i,
{
    match spec_nc_char(s, i) {
        Some(j) => if i < j <= s.len() {
            spec_nc_run(s, j)
        } else {
            i
        },
        None => i,
    }
}

/// A non-empty segment without a colon.
pub open spec fn spec_segment_nz_nc(s: Seq<char>, i: int) -> Option<int> {
    match spec_nc_char(s, i) {
        Some(j) => if i < j <= s.len() {
            Some(spec_nc_run(s, j))
        } else {
            None
        },
        None => None,
    }
}

/// Slash-introduced segments, repeated: the form of `path-abempty`.
pub open spec fn spec_path_abempty(s: Seq<char>, i: int) -> int
    decreases s.len() - i,
{
    if 0 <= i < s.len() && s[i] == '/' {
        let j = spec_segment(s, i + 1);
        if i < j <= s.len() {
            spec_path_abempty(s, j)
        } else {
            i
        }
    } else {
        i
    }
}

/// An absolute path: `/`, optionally followed by a non-empty segment and
/// further slash-introduced segments.
pub open spec fn spec_path_absolute(s: Seq<char>, i: int) -> Option<int> {
    if 0 <= i < s.len() && s[i] == '/' {
        match spec_segment_nz(s, i + 1) {
            Some(j) => if i < j <= s.len() {
                Some(spec_path_abempty(s, j))
            } else {
                Some(i + 1)
            },
            None => Some(i + 1),
        }
    } else {
        None
    }
}

/// A rootless path: a non-empty segment, then slash-introduced segments.
pub open spec fn spec_path_rootless(s: Seq<char>, i: int) -> Option<int> {
    match spec_segment_nz(s, i) {
        Some(j) => if i <= j <= s.len() {
            Some(spec_path_abempty(s, j))
        } else {
            None
        },
        None => None,
    }
}

/// A no-scheme path: a colon-free non-empty segment, then slash-introduced
/// segments.
pub open spec fn spec_path_noscheme(s: Seq<char>, i: int) -> Option<int> {
    match spec_segment_nz_nc(s, i) {
        Some(j) => if i <= j <= s.len() {
            Some(spec_path_abempty(s, j))
        } else {
            None
        },
        None => None,
    }
}

/// One query or fragment character: a path character, `/` or `?`.
pub open spec fn spec_query_char(s: Seq<char>, i: int) -> Option<int> {
    match spec_pchar(s, i) {
        Some(j) => Some(j),
        None => if 0 <= i < s.len() && (s[i] == '/' || s[i] == '?') {
            Some(i + 1)
        } else {
            None
        },
    }
}

/// A possibly empty query or fragment.
pub open spec fn spec_query(s: Seq<char>, i: int) -> int
    decreases s.len() - i,
{
    match spec_query_char(s, i) {
        Some(j) => if i < j <= s.len() {
            spec_query(s, j)
        } else {
            i
        },
        None => i,
    }
}

/// A scheme: a letter, then letters, digits, `+`, `-` and `.`.
pub open spec fn spec_scheme_run(s: Seq<char>, i: int) -> int
    decreases s.len() - i,
{
    if 0 <= i < s.len() && (is_alnum_byte(s[i]) || s[i] == '+' || s[i] == '-' || s[i] == '.') {
        spec_scheme_run(s, i + 1)
    } else {
        i
    }
}

/// A scheme name.
pub open spec fn spec_scheme(s: Seq<char>, i: int) -> Option<int> {
    if 0 <= i < s.len() && is_alpha_byte(s[i]) {
        Some(spec_scheme_run(s, i + 1))
    } else {
        None
    }
}

/// One user-information character: unreserved, percent-encoded,
/// sub-delimiter or `:`.
pub open spec fn spec_ui_char(s: Seq<char>, i: int) -> Option<int> {
    match spec_unreserved(s, i) {
        Some(j) => Some(j),
        None => match spec_pct_encoded(s, i) {
            Some(j) => Some(j),
            None => match spec_sub_delims(s, i) {
                Some(j) => Some(j),
                None => if 0 <= i < s.len() && s[i] == ':' {
                    Some(i + 1)
                } else {
                    None
                },
            },
        },
    }
}

/// A possibly empty run of user-information characters.
pub open spec fn spec_userinfo(s: Seq<char>, i: int) -> int
    decreases s.len() - i,
{
    match spec_ui_char(s, i) {
        Some(j) => if i < j <= s.len() {
            spec_userinfo(s, j)
        } else {
            i
        },
        None => i,
    }
}

/// One registered-name character: unreserved, percent-encoded or
/// sub-delimiter.
pub open spec fn spec_rn_char(s: Seq<char>, i: int) -> Option<int> {
    match spec_unreserved(s, i) {
        Some(j) => Some(j),
        None => match spec_pct_encoded(s, i) {
            Some(j) => Some(j),
            None => spec_sub_delims(s, i),
        },
    }
}

/// A possibly empty registered name.
pub open spec fn spec_reg_name(s: Seq<char>, i: int) -> int
    decreases s.len() - i,
{
    match spec_rn_char(s, i) {
        Some(j) => if i < j <= s.len() {
            spec_reg_name(s, j)
        } else {
            i
        },
        None => i,
    }
}

/// One octet of a dotted address.  The one-digit alternative stands first
/// and always wins, so an octet is exactly one digit.
pub open spec fn spec_dec_octet(s: Seq<char>, i: int) -> Option<int> {
    if 0 <= i < s.len() && is_digit_byte(s[i]) {
        Some(i + 1)
    } else {
        None
    }
}

/// A dotted address of four octets.
pub open spec fn spec_ipv4address(s: Seq<char>, i: int) -> Option<int> {
    match spec_dec_octet(s, i) {
        Some(j1) => if j1 < s.len() && s[j1] == '.' {
            match spec_dec_octet(s, j1 + 1) {
                Some(j2) => if j2 < s.len() && s[j2] == '.' {
                    match spec_dec_octet(s, j2 + 1) {
                        Some(j3) => if j3 < s.len() && s[j3] == '.' {
                            spec_dec_octet(s, j3 + 1)
                        } else {
                            None
                        },
                        None => None,
                    }
                } else {
                    None
                },
                None => None,
            }
        } else {
            None
        },
        None => None,
    }
}

/// End of a run of hexadecimal characters (by low byte).
pub open spec fn hex_run_end(s: Seq<char>, i: int) -> int
    decreases s.len() - i,
{
    if 0 <= i < s.len() && is_hex_byte(s[i]) {
        hex_run_end(s, i + 1)
    } else {
        i
    }
}

/// A 16-bit group: one to four hexadecimal characters, greedily.
pub open spec fn spec_h16(s: Seq<char>, i: int) -> Option<int> {
    let j = hex_run_end(s, i);
    if j == i {
        None
    } else if j > i + 4 {
        Some(i + 4)
    } else {
        Some(j)
    }
}

/// A 16-bit group followed by a colon.
pub open spec fn spec_h16_colon(s: Seq<char>, i: int) -> Option<int> {
    match spec_h16(s, i) {
        Some(j) => if j < s.len() && s[j] == ':' {
            Some(j + 1)
        } else {
            None
        },
        None => None,
    }
}

/// Exactly `k` colon-terminated 16-bit groups.
pub open spec fn spec_h16_colons(s: Seq<char>, i: int, k: int) -> Option<int>
    decreases k,
{
    if k <= 0 {
        Some(i)
    } else {
        match spec_h16_colon(s, i) {
            Some(j) => spec_h16_colons(s, j, k - 1),
            None => None,
        }
    }
}

/// Up to `k` colon-terminated 16-bit groups, greedily.
pub open spec fn spec_h16_colons_upto(s: Seq<char>, i: int, k: int) -> int
    decreases k,
{
    if k <= 0 {
        i
    } else {
        match spec_h16_colon(s, i) {
            Some(j) => spec_h16_colons_upto(s, j, k - 1),
            None => i,
        }
    }
}

/// The optional head of an address alternative: up to `k` colon-terminated
/// groups and one more group, or nothing.
pub open spec fn spec_ipv6_pre(s: Seq<char>, i: int, k: int) -> int {
    let u = spec_h16_colons_upto(s, i, k);
    match spec_h16(s, u) {
        Some(j) => j,
        None => i,
    }
}

/// The last 32 bits of an address: two 16-bit groups or a dotted address.
pub open spec fn spec_ls32(s: Seq<char>, i: int) -> Option<int> {
    let pair = match spec_h16(s, i) {
        Some(j) => if j < s.len() && s[j] == ':' {
            spec_h16(s, j + 1)
        } else {
            None
        },
        None => None,
    };
    if pair is Some {
        pair
    } else {
        spec_ipv4address(s, i)
    }
}

/// Whether the two-character tag `::` stands at `i`.
pub open spec fn dcolon_at(s: Seq<char>, i: int) -> bool {
    0 <= i && i + 1 < s.len() && s[i] == ':' && s[i + 1] == ':'
}

/// A numeric address: the nine alternatives of the grammar, tried in order.
pub open spec fn spec_ipv6address(s: Seq<char>, i: int) -> Option<int> {
    let a1 = match spec_h16_colons(s, i, 6) {
        Some(j) => spec_ls32(s, j),
        None => None,
    };
    let a2 = if dcolon_at(s, i) {
        match spec_h16_colons(s, i + 2, 5) {
            Some(j) => spec_ls32(s, j),
            None => None,
        }
    } else {
        None
    };
    let a3 = {
        let p = spec_ipv6_pre(s, i, 0);
        if dcolon_at(s, p) {
            match spec_h16_colons(s, p + 2, 4) {
                Some(j) => spec_ls32(s, j),
                None => None,
            }
        } else {
            None
        }
    };
    let a4 = {
        let p = spec_ipv6_pre(s, i, 1);
        if dcolon_at(s, p) {
            match spec_h16_colons(s, p + 2, 3) {
                Some(j) => spec_ls32(s, j),
                None => None,
            }
        } else {
            None
        }
    };
    let a5 = {
        let p = spec_ipv6_pre(s, i, 2);
        if dcolon_at(s, p) {
            match spec_h16_colons(s, p + 2, 2) {
                Some(j) => spec_ls32(s, j),
                None => None,
            }
        } else {
            None
        }
    };
    let a6 = {
        let p = spec_ipv6_pre(s, i, 3);
        if dcolon_at(s, p) {
            match spec_h16_colon(s, p + 2) {
                Some(j) => spec_ls32(s, j),
                None => None,
            }
        } else {
            None
        }
    };
    let a7 = {
        let p = spec_ipv6_pre(s, i, 4);
        if dcolon_at(s, p) {
            spec_ls32(s, p + 2)
        } else {
            None
        }
    };
    let a8 = {
        let p = spec_ipv6_pre(s, i, 5);
        if dcolon_at(s, p) {
            spec_h16(s, p + 2)
        } else {
            None
        }
    };
    let a9 = {
        let p = spec_ipv6_pre(s, i, 6);
        if dcolon_at(s, p) {
            Some(p + 2)
        } else {
            None
        }
    };
    if a1 is Some {
        a1
    } else if a2 is Some {
        a2
    } else if a3 is Some {
        a3
    } else if a4 is Some {
        a4
    } else if a5 is Some {
        a5
    } else if a6 is Some {
        a6
    } else if a7 is Some {
        a7
    } else if a8 is Some {
        a8
    } else {
        a9
    }
}

/// An ASCII hexadecimal character (no byte truncation).
pub open spec fn is_hex_char(c: char) -> bool {
    ('0' <= c && c <= '9') || ('a' <= c && c <= 'f') || ('A' <= c && c <= 'F')
}

/// End of a run of ASCII hexadecimal characters.
pub open spec fn hexc_run_end(s: Seq<char>, i: int) -> int
    decreases s.len() - i,
{
    if 0 <= i < s.len() && is_hex_char(s[i]) {
        hexc_run_end(s, i + 1)
    } else {
        i
    }
}

/// One future-address character: unreserved, sub-delimiter or `:`.
pub open spec fn spec_vf_char(s: Seq<char>, i: int) -> Option<int> {
    match spec_unreserved(s, i) {
        Some(j) => Some(j),
        None => match spec_sub_delims(s, i) {
            Some(j) => Some(j),
            None => if 0 <= i < s.len() && s[i] == ':' {
                Some(i + 1)
            } else {
                None
            },
        },
    }
}

/// A possibly empty run of future-address characters.
pub open spec fn spec_vf_run(s: Seq<char>, i: int) -> int
    decreases s.len() - i,
{
    match spec_vf_char(s, i) {
        Some(j) => if i < j <= s.len() {
            spec_vf_run(s, j)
        } else {
            i
        },
        None => i,
    }
}

/// A future address form: `v`, hexadecimal characters, `.`, then at least
/// one future-address character.
pub open spec fn spec_ipvfuture(s: Seq<char>, i: int) -> Option<int> {
    if 0 <= i < s.len() && s[i] == 'v' {
        let j = hexc_run_end(s, i + 1);
        if j > i + 1 && j < s.len() && s[j] == '.' {
            match spec_vf_char(s, j + 1) {
                Some(k) => if j + 1 < k <= s.len() {
                    Some(spec_vf_run(s, k))
                } else {
                    None
                },
                None => None,
            }
        } else {
            None
        }
    } else {
        None
    }
}

/// A bracketed address: a numeric or future address between `[` and `]`.
pub open spec fn spec_ip_literal(s: Seq<char>, i: int) -> Option<int> {
    if 0 <= i < s.len() && s[i] == '[' {
        let inner = match spec_ipv6address(s, i + 1) {
            Some(j) => Some(j),
            None => spec_ipvfuture(s, i + 1),
        };
        match inner {
            Some(j) => if j < s.len() && s[j] == ']' {
                Some(j + 1)
            } else {
                None
            },
            None => None,
        }
    } else {
        None
    }
}

/// A host: a bracketed address, a dotted address, or a registered name,
/// tried in order; a registered name may be empty, so a host always
/// matches.
pub open spec fn spec_host(s: Seq<char>, i: int) -> int {
    match spec_ip_literal(s, i) {
        Some(j) => j,
        None => match spec_ipv4address(s, i) {
            Some(j) => j,
            None => spec_reg_name(s, i),
        },
    }
}

/// An authority: optional user information and `@`, a host, an optional
/// port.
pub open spec fn spec_authority(s: Seq<char>, i: int) -> int {
    let u = spec_userinfo(s, i);
    let hstart = if u < s.len() && s[u] == '@' {
        u + 1
    } else {
        i
    };
    let h = spec_host(s, hstart);
    if h < s.len() && s[h] == ':' {
        digit_run_end(s, h + 1)
    } else {
        h
    }
}

/// The hierarchical part of a URI: `//` with authority and path, an
/// absolute path, a rootless path, or nothing.
pub open spec fn spec_hier_part(s: Seq<char>, i: int) -> int {
    if 0 <= i && i + 1 < s.len() && s[i] == '/' && s[i + 1] == '/' {
        spec_path_abempty(s, spec_authority(s, i + 2))
    } else {
        match spec_path_absolute(s, i) {
            Some(j) => j,
            None => match spec_path_rootless(s, i) {
                Some(j) => j,
                None => i,
            },
        }
    }
}

/// The relative part of a reference: as the hierarchical part, with a
/// no-scheme path in place of a rootless one.
pub open spec fn spec_relative_part(s: Seq<char>, i: int) -> int {
    if 0 <= i && i + 1 < s.len() && s[i] == '/' && s[i + 1] == '/' {
        spec_path_abempty(s, spec_authority(s, i + 2))
    } else {
        match spec_path_absolute(s, i) {
            Some(j) => j,
            None => match spec_path_noscheme(s, i) {
                Some(j) => j,
                None => i,
            },
        }
    }
}

/// An optional `?` query suffix.
pub open spec fn spec_opt_query(s: Seq<char>, i: int) -> int {
    if 0 <= i < s.len() && s[i] == '?' {
        spec_query(s, i + 1)
    } else {
        i
    }
}

/// An optional `#` fragment suffix.
pub open spec fn spec_opt_fragment(s: Seq<char>, i: int) -> int {
    if 0 <= i < s.len() && s[i] == '#' {
        spec_query(s, i + 1)
    } else {
        i
    }
}

/// A full URI: scheme, `:`, hierarchical part, optional query and fragment.
pub open spec fn spec_uri(s: Seq<char>, i: int) -> Option<int> {
    match spec_scheme(s, i) {
        Some(j) => if j < s.len() && s[j] == ':' {
            Some(spec_opt_fragment(s, spec_opt_query(s, spec_hier_part(s, j + 1))))
        } else {
            None
        },
        None => None,
    }
}

/// An absolute URI: as a full URI, without a fragment.
pub open spec fn spec_absolute_uri(s: Seq<char>, i: int) -> Option<int> {
    match spec_scheme(s, i) {
        Some(j) => if j < s.len() && s[j] == ':' {
            Some(spec_opt_query(s, spec_hier_part(s, j + 1)))
        } else {
            None
        },
        None => None,
    }
}

/// A relative reference: relative part, optional query and fragment.
pub open spec fn spec_relative_ref(s: Seq<char>, i: int) -> int {
    spec_opt_fragment(s, spec_opt_query(s, spec_relative_part(s, i)))
}

/// A URI reference: a full URI, or else a relative reference.
pub open spec fn spec_uri_reference(s: Seq<char>, i: int) -> int {
    match spec_uri(s, i) {
        Some(j) => j,
        None => spec_relative_ref(s, i),
    }
}

/// One unreserved character.
pub fn unreserved(s: &str, i: usize) -> (r: Option<usize>)
    requires
        i <= s@.len(),
    ensures
        match r {
            Some(j) => spec_unreserved(s@, i as int) == Some(j as int) && i < j <= s@.len(),
            None => spec_unreserved(s@, i as int) is None,
        },
{
    let n = s.unicode_len();
    if i < n && unreserved_char(s.get_char(i)) {
        Some(i + 1)
    } else {
        None
    }
}

/// One sub-delimiter.
pub fn sub_delims(s: &str, i: usize) -> (r: Option<usize>)
    requires
        i <= s@.len(),
    ensures
        match r {
            Some(j) => spec_sub_delims(s@, i as int) == Some(j as int) && i < j <= s@.len(),
            None => spec_sub_delims(s@, i as int) is None,
        },
{
    let n = s.unicode_len();
    if i < n && sub_delim_char(s.get_char(i)) {
        Some(i + 1)
    } else {
        None
    }
}

/// One general delimiter.
pub fn gen_delims(s: &str, i: usize) -> (r: Option<usize>)
    requires
        i <= s@.len(),
    ensures
        match r {
            Some(j) => spec_gen_delims(s@, i as int) == Some(j as int) && i < j <= s@.len(),
            None => spec_gen_delims(s@, i as int) is None,
        },
{
    let n = s.unicode_len();
    if i < n && gen_delim_char(s.get_char(i)) {
        Some(i + 1)
    } else {
        None
    }
}

/// One reserved character.
pub fn reserved(s: &str, i: usize) -> (r: Option<usize>)
    requires
        i <= s@.len(),
    ensures
        match r {
            Some(j) => spec_reserved(s@, i as int) == Some(j as int) && i < j <= s@.len(),
            None => spec_reserved(s@, i as int) is None,
        },
{
    match gen_delims(s, i) {
        Some(j) => Some(j),
        None => sub_delims(s, i),
    }
}

/// A percent-encoded byte.
pub fn pct_encoded(s: &str, i: usize) -> (r: Option<usize>)
    requires
        i <= s@.len(),
    ensures
        match r {
            Some(j) => spec_pct_encoded(s@, i as int) == Some(j as int) && i < j <= s@.len(),
            None => spec_pct_encoded(s@, i as int) is None,
        },
{
    let n = s.unicode_len();
    if i < n && n - i > 2 && s.get_char(i) == '%' && hex_byte(s.get_char(i + 1)) && hex_byte(
        s.get_char(i + 2),
    ) {
        Some(i + 3)
    } else {
        None
    }
}

/// One path character.
pub fn pchar(s: &str, i: usize) -> (r: Option<usize>)
    requires
        i <= s@.len(),
    ensures
        match r {
            Some(j) => spec_pchar(s@, i as int) == Some(j as int) && i < j <= s@.len(),
            None => spec_pchar(s@, i as int) is None,
        },
{
    let n = s.unicode_len();
    match unreserved(s, i) {
        Some(j) => Some(j),
        None => match pct_encoded(s, i) {
            Some(j) => Some(j),
            None => match sub_delims(s, i) {
                Some(j) => Some(j),
                None => {
                    if i < n && (s.get_char(i) == ':' || s.get_char(i) == '@') {
                        Some(i + 1)
                    } else {
                        None
                    }
                },
            },
        },
    }
}

/// A possibly empty run of path characters.
pub fn segment(s: &str, i: usize) -> (j: usize)
    requires
        i <= s@.len(),
    ensures
        j == spec_segment(s@, i as int),
        i <= j <= s@.len(),
    decreases s@.len() - i,
{
    match pchar(s, i) {
        Some(j) => segment(s, j),
        None => i,
    }
}

/// A non-empty run of path characters.
pub fn segment_nz(s: &str, i: usize) -> (r: Option<usize>)
    requires
        i <= s@.len(),
    ensures
        match r {
            Some(j) => spec_segment_nz(s@, i as int) == Some(j as int) && i < j <= s@.len(),
            None => spec_segment_nz(s@, i as int) is None,
        },
{
    match pchar(s, i) {
        Some(j) => Some(segment(s, j)),
        None => None,
    }
}

fn nc_char(s: &str, i: usize) -> (r: Option<usize>)
    requires
        i <= s@.len(),
    ensures
        match r {
            Some(j) => spec_nc_char(s@, i as int) == Some(j as int) && i < j <= s@.len(),
            None => spec_nc_char(s@, i as int) is None,
        },
{
    let n = s.unicode_len();
    match unreserved(s, i) {
        Some(j) => Some(j),
        None => match pct_encoded(s, i) {
            Some(j) => Some(j),
            None => match sub_delims(s, i) {
                Some(j) => Some(j),
                None => {
                    if i < n && s.get_char(i) == '@' {
                        Some(i + 1)
                    } else {
                        None
                    }
                },
            },
        },
    }
}

fn nc_run(s: &str, i: usize) -> (j: usize)
    requires
        i <= s@.len(),
    ensures
        j == spec_nc_run(s@, i as int),
        i <= j <= s@.len(),
    decreases s@.len() - i,
{
    match nc_char(s, i) {
        Some(j) => nc_run(s, j),
        None => i,
    }
}

/// A non-empty segment without a colon.
pub fn segment_nz_nc(s: &str, i: usize) -> (r: Option<usize>)
    requires
        i <= s@.len(),
    ensures
        match r {
            Some(j) => spec_segment_nz_nc(s@, i as int) == Some(j as int) && i < j <= s@.len(),
            None => spec_segment_nz_nc(s@, i as int) is None,
        },
{
    match nc_char(s, i) {
        Some(j) => Some(nc_run(s, j)),
        None => None,
    }
}

/// Slash-introduced segments, repeated.
pub fn path_abempty(s: &str, i: usize) -> (j: usize)
    requires
        i <= s@.len(),
    ensures
        j == spec_path_abempty(s@, i as int),
        i <= j <= s@.len(),
    decreases s@.len() - i,
{
    let n = s.unicode_len();
    if i < n && s.get_char(i) == '/' {
        let j = segment(s, i + 1);
        path_abempty(s, j)
    } else {
        i
    }
}

/// An absolute path.
pub fn path_absolute(s: &str, i: usize) -> (r: Option<usize>)
    requires
        i <= s@.len(),
    ensures
        match r {
            Some(j) => spec_path_absolute(s@, i as int) == Some(j as int) && i < j <= s@.len(),
            None => spec_path_absolute(s@, i as int) is None,
        },
{
    let n = s.unicode_len();
    if i < n && s.get_char(i) == '/' {
        match segment_nz(s, i + 1) {
            Some(j) => Some(path_abempty(s, j)),
            None => Some(i + 1),
        }
    } else {
        None
    }
}

/// A rootless path.
pub fn path_rootless(s: &str, i: usize) -> (r: Option<usize>)
    requires
        i <= s@.len(),
    ensures
        match r {
            Some(j) => spec_path_rootless(s@, i as int) == Some(j as int) && i < j <= s@.len(),
            None => spec_path_rootless(s@, i as int) is None,
        },
{
    match segment_nz(s, i) {
        Some(j) => Some(path_abempty(s, j)),
        None => None,
    }
}

/// A no-scheme path.
pub fn path_noscheme(s: &str, i: usize) -> (r: Option<usize>)
    requires
        i <= s@.len(),
    ensures
        match r {
            Some(j) => spec_path_noscheme(s@, i as int) == Some(j as int) && i < j <= s@.len(),
            None => spec_path_noscheme(s@, i as int) is None,
        },
{
    match segment_nz_nc(s, i) {
        Some(j) => Some(path_abempty(s, j)),
        None => None,
    }
}

/// The empty path.
pub fn path_empty(s: &str, i: usize) -> (j: usize)
    requires
        i <= s@.len(),
    ensures
        j == i,
{
    i
}

/// Any path form.  The slash-introduced form can match the empty text and
/// stands first, so it always wins.
pub fn path(s: &str, i: usize) -> (j: usize)
    requires
        i <= s@.len(),
    ensures
        j == spec_path_abempty(s@, i as int),
        i <= j <= s@.len(),
{
    path_abempty(s, i)
}

fn query_char(s: &str, i: usize) -> (r: Option<usize>)
    requires
        i <= s@.len(),
    ensures
        match r {
            Some(j) => spec_query_char(s@, i as int) == Some(j as int) && i < j <= s@.len(),
            None => spec_query_char(s@, i as int) is None,
        },
{
    let n = s.unicode_len();
    match pchar(s, i) {
        Some(j) => Some(j),
        None => {
            if i < n && (s.get_char(i) == '/' || s.get_char(i) == '?') {
                Some(i + 1)
            } else {
                None
            }
        },
    }
}

/// A possibly empty query.
pub fn query(s: &str, i: usize) -> (j: usize)
    requires
        i <= s@.len(),
    ensures
        j == spec_query(s@, i as int),
        i <= j <= s@.len(),
    decreases s@.len() - i,
{
    match query_char(s, i) {
        Some(j) => query(s, j),
        None => i,
    }
}

/// A possibly empty fragment, of the same form as a query.
pub fn fragment(s: &str, i: usize) -> (j: usize)
    requires
        i <= s@.len(),
    ensures
        j == spec_query(s@, i as int),
        i <= j <= s@.len(),
{
    query(s, i)
}

fn scheme_run(s: &str, n: usize, i: usize) -> (j: usize)
    requires
        n == s@.len(),
        i <= n,
    ensures
        j == spec_scheme_run(s@, i as int),
        i <= j <= s@.len(),
    decreases n - i,
{
    if i < n {
        let c = s.get_char(i);
        if alnum_byte(c) || c == '+' || c == '-' || c == '.' {
            return scheme_run(s, n, i + 1);
        }
    }
    i
}

/// A scheme name.
pub fn scheme(s: &str, i: usize) -> (r: Option<usize>)
    requires
        i <= s@.len(),
    ensures
        match r {
            Some(j) => spec_scheme(s@, i as int) == Some(j as int) && i < j <= s@.len(),
            None => spec_scheme(s@, i as int) is None,
        },
{
    let n = s.unicode_len();
    if i < n && alpha_byte(s.get_char(i)) {
        Some(scheme_run(s, n, i + 1))
    } else {
        None
    }
}

fn ui_char(s: &str, i: usize) -> (r: Option<usize>)
    requires
        i <= s@.len(),
    ensures
        match r {
            Some(j) => spec_ui_char(s@, i as int) == Some(j as int) && i < j <= s@.len(),
            None => spec_ui_char(s@, i as int) is None,
        },
{
    let n = s.unicode_len();
    match unreserved(s, i) {
        Some(j) => Some(j),
        None => match pct_encoded(s, i) {
            Some(j) => Some(j),
            None => match sub_delims(s, i) {
                Some(j) => Some(j),
                None => {
                    if i < n && s.get_char(i) == ':' {
                        Some(i + 1)
                    } else {
                        None
                    }
                },
            },
        },
    }
}

/// A possibly empty run of user-information characters.
pub fn userinfo(s: &str, i: usize) -> (j: usize)
    requires
        i <= s@.len(),
    ensures
        j == spec_userinfo(s@, i as int),
        i <= j <= s@.len(),
    decreases s@.len() - i,
{
    match ui_char(s, i) {
        Some(j) => userinfo(s, j),
        None => i,
    }
}

fn rn_char(s: &str, i: usize) -> (r: Option<usize>)
    requires
        i <= s@.len(),
    ensures
        match r {
            Some(j) => spec_rn_char(s@, i as int) == Some(j as int) && i < j <= s@.len(),
            None => spec_rn_char(s@, i as int) is None,
        },
{
    match unreserved(s, i) {
        Some(j) => Some(j),
        None => match pct_encoded(s, i) {
            Some(j) => Some(j),
            None => sub_delims(s, i),
        },
    }
}

/// A possibly empty registered name.
pub fn reg_name(s: &str, i: usize) -> (j: usize)
    requires
        i <= s@.len(),
    ensures
        j == spec_reg_name(s@, i as int),
        i <= j <= s@.len(),
    decreases s@.len() - i,
{
    match rn_char(s, i) {
        Some(j) => reg_name(s, j),
        None => i,
    }
}

/// One octet of a dotted address: a single digit.
pub fn dec_octet(s: &str, i: usize) -> (r: Option<usize>)
    requires
        i <= s@.len(),
    ensures
        match r {
            Some(j) => spec_dec_octet(s@, i as int) == Some(j as int) && i < j <= s@.len(),
            None => spec_dec_octet(s@, i as int) is None,
        },
{
    let n = s.unicode_len();
    if i < n && digit_byte(s.get_char(i)) {
        Some(i + 1)
    } else {
        None
    }
}

/// A dotted address of four octets.
pub fn ipv4address(s: &str, i: usize) -> (r: Option<usize>)
    requires
        i <= s@.len(),
    ensures
        match r {
            Some(j) => spec_ipv4address(s@, i as int) == Some(j as int) && i < j <= s@.len(),
            None => spec_ipv4address(s@, i as int) is None,
        },
{
    let n = s.unicode_len();
    match dec_octet(s, i) {
        Some(j1) => {
            if j1 < n && s.get_char(j1) == '.' {
                match dec_octet(s, j1 + 1) {
                    Some(j2) => {
                        if j2 < n && s.get_char(j2) == '.' {
                            match dec_octet(s, j2 + 1) {
                                Some(j3) => {
                                    if j3 < n && s.get_char(j3) == '.' {
                                        dec_octet(s, j3 + 1)
                                    } else {
                                        None
                                    }
                                },
                                None => None,
                            }
                        } else {
                            None
                        }
                    },
                    None => None,
                }
            } else {
                None
            }
        },
        None => None,
    }
}

fn scan_hex(s: &str, n: usize, i: usize) -> (j: usize)
    requires
        n == s@.len(),
        i <= n,
    ensures
        j == hex_run_end(s@, i as int),
        i <= j <= s@.len(),
    decreases n - i,
{
    if i < n && hex_byte(s.get_char(i)) {
        scan_hex(s, n, i + 1)
    } else {
        i
    }
}

/// A 16-bit group: one to four hexadecimal characters, greedily.
pub fn h16(s: &str, i: usize) -> (r: Option<usize>)
    requires
        i <= s@.len(),
    ensures
        match r {
            Some(j) => spec_h16(s@, i as int) == Some(j as int) && i < j <= s@.len(),
            None => spec_h16(s@, i as int) is None,
        },
{
    let n = s.unicode_len();
    let j = scan_hex(s, n, i);
    if j == i {
        None
    } else if j - i > 4 {
        Some(i + 4)
    } else {
        Some(j)
    }
}

fn h16_colon(s: &str, i: usize) -> (r: Option<usize>)
    requires
        i <= s@.len(),
    ensures
        match r {
            Some(j) => spec_h16_colon(s@, i as int) == Some(j as int) && i < j <= s@.len(),
            None => spec_h16_colon(s@, i as int) is None,
        },
{
    let n = s.unicode_len();
    match h16(s, i) {
        Some(j) => {
            if j < n && s.get_char(j) == ':' {
                Some(j + 1)
            } else {
                None
            }
        },
        None => None,
    }
}

fn h16_colons(s: &str, i: usize, k: usize) -> (r: Option<usize>)
    requires
        i <= s@.len(),
    ensures
        match r {
            Some(j) => spec_h16_colons(s@, i as int, k as int) == Some(j as int) && i <= j
                <= s@.len(),
            None => spec_h16_colons(s@, i as int, k as int) is None,
        },
    decreases k,
{
    if k == 0 {
        Some(i)
    } else {
        match h16_colon(s, i) {
            Some(j) => h16_colons(s, j, k - 1),
            None => None,
        }
    }
}

fn h16_colons_upto(s: &str, i: usize, k: usize) -> (j: usize)
    requires
        i <= s@.len(),
    ensures
        j == spec_h16_colons_upto(s@, i as int, k as int),
        i <= j <= s@.len(),
    decreases k,
{
    if k == 0 {
        i
    } else {
        match h16_colon(s, i) {
            Some(j) => h16_colons_upto(s, j, k - 1),
            None => i,
        }
    }
}

fn ipv6_pre(s: &str, i: usize, k: usize) -> (j: usize)
    requires
        i <= s@.len(),
    ensures
        j == spec_ipv6_pre(s@, i as int, k as int),
        i <= j <= s@.len(),
{
    let u = h16_colons_upto(s, i, k);
    match h16(s, u) {
        Some(j) => j,
        None => i,
    }
}

/// The last 32 bits of an address.
pub fn ls32(s: &str, i: usize) -> (r: Option<usize>)
    requires
        i <= s@.len(),
    ensures
        match r {
            Some(j) => spec_ls32(s@, i as int) == Some(j as int) && i < j <= s@.len(),
            None => spec_ls32(s@, i as int) is None,
        },
{
    let n = s.unicode_len();
    match h16(s, i) {
        Some(j) => {
            if j < n && s.get_char(j) == ':' {
                match h16(s, j + 1) {
                    Some(k) => Some(k),
                    None => ipv4address(s, i),
                }
            } else {
                ipv4address(s, i)
            }
        },
        None => ipv4address(s, i),
    }
}

fn dcolon(s: &str, i: usize) -> (r: bool)
    requires
        i <= s@.len(),
    ensures
        r == dcolon_at(s@, i as int),
{
    let n = s.unicode_len();
    i < n && n - i > 1 && s.get_char(i) == ':' && s.get_char(i + 1) == ':'
}

fn ipv6_tail(s: &str, i: usize, k: usize) -> (r: Option<usize>)
    requires
        i <= s@.len(),
    ensures
        match r {
            Some(j) => (match spec_h16_colons(s@, i as int, k as int) {
                Some(m) => spec_ls32(s@, m) == Some(j as int),
                None => false,
            }) && i <= j <= s@.len(),
            None => match spec_h16_colons(s@, i as int, k as int) {
                Some(m) => spec_ls32(s@, m) is None,
                None => true,
            },
        },
{
    match h16_colons(s, i, k) {
        Some(m) => ls32(s, m),
        None => None,
    }
}

/// A numeric address: the nine alternatives, tried in order.
pub fn ipv6address(s: &str, i: usize) -> (r: Option<usize>)
    requires
        i <= s@.len(),
    ensures
        match r {
            Some(j) => spec_ipv6address(s@, i as int) == Some(j as int) && i <= j <= s@.len(),
            None => spec_ipv6address(s@, i as int) is None,
        },
{
    let n = s.unicode_len();
    if let Some(j) = ipv6_tail(s, i, 6) {
        return Some(j);
    }
    if dcolon(s, i) {
        if let Some(j) = ipv6_tail(s, i + 2, 5) {
            return Some(j);
        }
    }
    let p3 = ipv6_pre(s, i, 0);
    if dcolon(s, p3) {
        if let Some(j) = ipv6_tail(s, p3 + 2, 4) {
            return Some(j);
        }
    }
    let p4 = ipv6_pre(s, i, 1);
    if dcolon(s, p4) {
        if let Some(j) = ipv6_tail(s, p4 + 2, 3) {
            return Some(j);
        }
    }
    let p5 = ipv6_pre(s, i, 2);
    if dcolon(s, p5) {
        if let Some(j) = ipv6_tail(s, p5 + 2, 2) {
            return Some(j);
        }
    }
    let p6 = ipv6_pre(s, i, 3);
    if dcolon(s, p6) {
        if let Some(m) = h16_colon(s, p6 + 2) {
            if let Some(j) = ls32(s, m) {
                return Some(j);
            }
        }
    }
    let p7 = ipv6_pre(s, i, 4);
    if dcolon(s, p7) {
        if let Some(j) = ls32(s, p7 + 2) {
            return Some(j);
        }
    }
    let p8 = ipv6_pre(s, i, 5);
    if dcolon(s, p8) {
        if let Some(j) = h16(s, p8 + 2) {
            return Some(j);
        }
    }
    let p9 = ipv6_pre(s, i, 6);
    if dcolon(s, p9) {
        return Some(p9 + 2);
    }
    None
}

fn scan_hexc(s: &str, n: usize, i: usize) -> (j: usize)
    requires
        n == s@.len(),
        i <= n,
    ensures
        j == hexc_run_end(s@, i as int),
        i <= j <= s@.len(),
    decreases n - i,
{
    if i < n {
        let c = s.get_char(i);
        if ('0' <= c && c <= '9') || ('a' <= c && c <= 'f') || ('A' <= c && c <= 'F') {
            return scan_hexc(s, n, i + 1);
        }
    }
    i
}

fn vf_char(s: &str, i: usize) -> (r: Option<usize>)
    requires
        i <= s@.len(),
    ensures
        match r {
            Some(j) => spec_vf_char(s@, i as int) == Some(j as int) && i < j <= s@.len(),
            None => spec_vf_char(s@, i as int) is None,
        },
{
    let n = s.unicode_len();
    match unreserved(s, i) {
        Some(j) => Some(j),
        None => match sub_delims(s, i) {
            Some(j) => Some(j),
            None => {
                if i < n && s.get_char(i) == ':' {
                    Some(i + 1)
                } else {
                    None
                }
            },
        },
    }
}

fn vf_run(s: &str, i: usize) -> (j: usize)
    requires
        i <= s@.len(),
    ensures
        j == spec_vf_run(s@, i as int),
        i <= j <= s@.len(),
    decreases s@.len() - i,
{
    match vf_char(s, i) {
        Some(j) => vf_run(s, j),
        None => i,
    }
}

/// A future address form.
pub fn ipvfuture(s: &str, i: usize) -> (r: Option<usize>)
    requires
        i <= s@.len(),
    ensures
        match r {
            Some(j) => spec_ipvfuture(s@, i as int) == Some(j as int) && i < j <= s@.len(),
            None => spec_ipvfuture(s@, i as int) is None,
        },
{
    let n = s.unicode_len();
    if i < n && s.get_char(i) == 'v' {
        let j = scan_hexc(s, n, i + 1);
        if j > i + 1 && j < n && s.get_char(j) == '.' {
            match vf_char(s, j + 1) {
                Some(k) => Some(vf_run(s, k)),
                None => None,
            }
        } else {
            None
        }
    } else {
        None
    }
}

/// A bracketed address.
pub fn ip_literal(s: &str, i: usize) -> (r: Option<usize>)
    requires
        i <= s@.len(),
    ensures
        match r {
            Some(j) => spec_ip_literal(s@, i as int) == Some(j as int) && i < j <= s@.len(),
            None => spec_ip_literal(s@, i as int) is None,
        },
{
    let n = s.unicode_len();
    if i < n && s.get_char(i) == '[' {
        let inner = match ipv6address(s, i + 1) {
            Some(j) => Some(j),
            None => ipvfuture(s, i + 1),
        };
        match inner {
            Some(j) => {
                if j < n && s.get_char(j) == ']' {
                    Some(j + 1)
                } else {
                    None
                }
            },
            None => None,
        }
    } else {
        None
    }
}

/// A host.
pub fn host(s: &str, i: usize) -> (j: usize)
    requires
        i <= s@.len(),
    ensures
        j == spec_host(s@, i as int),
        i <= j <= s@.len(),
{
    match ip_literal(s, i) {
        Some(j) => j,
        None => match ipv4address(s, i) {
            Some(j) => j,
            None => reg_name(s, i),
        },
    }
}

/// An authority.
pub fn authority(s: &str, i: usize) -> (j: usize)
    requires
        i <= s@.len(),
    ensures
        j == spec_authority(s@, i as int),
        i <= j <= s@.len(),
{
    let n = s.unicode_len();
    let u = userinfo(s, i);
    let hstart = if u < n && s.get_char(u) == '@' {
        u + 1
    } else {
        i
    };
    let h = host(s, hstart);
    if h < n && s.get_char(h) == ':' {
        scan_digits(s, h + 1)
    } else {
        h
    }
}

/// The hierarchical part of a URI.
pub fn hier_part(s: &str, i: usize) -> (j: usize)
    requires
        i <= s@.len(),
    ensures
        j == spec_hier_part(s@, i as int),
        i <= j <= s@.len(),
{
    let n = s.unicode_len();
    if i < n && n - i > 1 && s.get_char(i) == '/' && s.get_char(i + 1) == '/' {
        let a = authority(s, i + 2);
        path_abempty(s, a)
    } else {
        match path_absolute(s, i) {
            Some(j) => j,
            None => match path_rootless(s, i) {
                Some(j) => j,
                None => i,
            },
        }
    }
}

/// The relative part of a reference.
pub fn relative_part(s: &str, i: usize) -> (j: usize)
    requires
        i <= s@.len(),
    ensures
        j == spec_relative_part(s@, i as int),
        i <= j <= s@.len(),
{
    let n = s.unicode_len();
    if i < n && n - i > 1 && s.get_char(i) == '/' && s.get_char(i + 1) == '/' {
        let a = authority(s, i + 2);
        path_abempty(s, a)
    } else {
        match path_absolute(s, i) {
            Some(j) => j,
            None => match path_noscheme(s, i) {
                Some(j) => j,
                None => i,
            },
        }
    }
}

fn opt_query(s: &str, i: usize) -> (j: usize)
    requires
        i <= s@.len(),
    ensures
        j == spec_opt_query(s@, i as int),
        i <= j <= s@.len(),
{
    let n = s.unicode_len();
    if i < n && s.get_char(i) == '?' {
        query(s, i + 1)
    } else {
        i
    }
}

fn opt_fragment(s: &str, i: usize) -> (j: usize)
    requires
        i <= s@.len(),
    ensures
        j == spec_opt_fragment(s@, i as int),
        i <= j <= s@.len(),
{
    let n = s.unicode_len();
    if i < n && s.get_char(i) == '#' {
        query(s, i + 1)
    } else {
        i
    }
}

/// A full URI.
pub fn uri(s: &str, i: usize) -> (r: Option<usize>)
    requires
        i <= s@.len(),
    ensures
        match r {
            Some(j) => spec_uri(s@, i as int) == Some(j as int) && i <= j <= s@.len(),
            None => spec_uri(s@, i as int) is None,
        },
{
    let n = s.unicode_len();
    match scheme(s, i) {
        Some(j) => {
            if j < n && s.get_char(j) == ':' {
                let h = hier_part(s, j + 1);
                Some(opt_fragment(s, opt_query(s, h)))
            } else {
                None
            }
        },
        None => None,
    }
}

/// An absolute URI: as a full URI, without a fragment.
pub fn absolute_uri(s: &str, i: usize) -> (r: Option<usize>)
    requires
        i <= s@.len(),
    ensures
        match r {
            Some(j) => spec_absolute_uri(s@, i as int) == Some(j as int) && i <= j <= s@.len(),
            None => spec_absolute_uri(s@, i as int) is None,
        },
{
    let n = s.unicode_len();
    match scheme(s, i) {
        Some(j) => {
            if j < n && s.get_char(j) == ':' {
                let h = hier_part(s, j + 1);
                Some(opt_query(s, h))
            } else {
                None
            }
        },
        None => None,
    }
}

/// A relative reference.
pub fn relative_ref(s: &str, i: usize) -> (j: usize)
    requires
        i <= s@.len(),
    ensures
        j == spec_relative_ref(s@, i as int),
        i <= j <= s@.len(),
{
    let p = relative_part(s, i);
    opt_fragment(s, opt_query(s, p))
}

/// A URI reference: a full URI, or else a relative reference.
pub fn uri_reference(s: &str, i: usize) -> (j: usize)
    requires
        i <= s@.len(),
    ensures
        j == spec_uri_reference(s@, i as int),
        i <= j <= s@.len(),
{
    match uri(s, i) {
        Some(j) => j,
        None => relative_ref(s, i),
    }
}

} // verus!

//! Parsing and comparison of package requirement specifiers and version
//! identifiers.
//!
//! A requirement line such as `name[extra1,extra2]>=1.0,<2.0; os_name=='posix'`
//! is decomposed into a package name, an optional extras list, a list of
//! version constraints or a source URL, and an optional boolean
//! environment-marker expression.  Independently, a version string such as
//! `1!2.0.0b2.post1+ubuntu.3` is decomposed into epoch, release, pre, post,
//! dev and local segments, and versions are totally ordered with the scheme's
//! rules for pre-releases, post-releases, dev-releases, wildcard matching and
//! compatible-release matching.

use vstd::prelude::*;

pub mod chars;
pub mod marker;
pub mod requirement;
pub mod roundtrip;
pub mod uri;
pub mod specifier;
pub mod version;
pub mod version_parse;

verus! {

/// A structural parse failure: the input did not match the grammar.  The
/// unconsumed remainder is kept, so a caller can report the position.
#[derive(Debug, PartialEq)]
pub struct ParseError {
    pub rest: String,
}

} // verus!

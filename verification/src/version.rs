//! Version identifiers: data model, total ordering and canonical text.
//!
//! A version is decomposed into epoch, release, pre, post, dev and local
//! segments.  Versions are ordered by a composite key: the release has its
//! trailing zero components stripped, and the optional segments are mapped to
//! a three-state value (absent-as-low, absent-as-high, or present) so that a
//! dev-only release sorts before its pre-releases, a final release outranks
//! its pre-releases and dev builds, and post-releases sort above.

use core::cmp::Ordering;
use vstd::prelude::*;

verus! {

/// One element of a local version label: either a numeric segment or a
/// lower-cased alphanumeric segment.  Numeric segments always order above
/// string segments.
#[derive(Debug)]
pub enum LocalVersionPart {
    Num(u64),
    LowerStr(String),
}

/// Mathematical model of a local version part.
pub ghost enum LocalPartV {
    Num(u64),
    LowerStr(Seq<char>),
}

impl View for LocalVersionPart {
    type V = LocalPartV;

    open spec fn view(&self) -> LocalPartV {
        match self {
            LocalVersionPart::Num(n) => LocalPartV::Num(*n),
            LocalVersionPart::LowerStr(s) => LocalPartV::LowerStr(s@),
        }
    }
}

/// A parsed version identifier: `[N!]N(.N)*[{a|b|rc}N][.postN][.devN][+local]`.
///
/// The pre-release letter is stored normalized (`a`, `b` or `rc`); the post
/// and dev segments carry the literal letters `post` and `dev`.  A missing
/// trailing number on a segment defaults to 0.  The release sequence always
/// has at least one element in a well-formed version.
#[derive(Debug)]
pub struct Version {
    pub epoch: u64,
    pub release: Vec<u64>,
    pub pre: Option<(String, u64)>,
    pub post: Option<(String, u64)>,
    pub dev: Option<(String, u64)>,
    pub local: Option<Vec<LocalVersionPart>>,
}

/// Mathematical model of a version.
#[verifier::ext_equal]
pub ghost struct VersionV {
    pub epoch: u64,
    pub release: Seq<u64>,
    pub pre: Option<(Seq<char>, u64)>,
    pub post: Option<(Seq<char>, u64)>,
    pub dev: Option<(Seq<char>, u64)>,
    pub local: Option<Seq<LocalPartV>>,
}

/// Model of an optional lettered segment.
pub open spec fn seg_view(seg: Option<(String, u64)>) -> Option<(Seq<char>, u64)> {
    match seg {
        Some((l, n)) => Some((l@, n)),
        None => None,
    }
}

/// Model of an optional local label.
pub open spec fn local_view(local: Option<Vec<LocalVersionPart>>) -> Option<Seq<LocalPartV>> {
    match local {
        Some(v) => Some(v@.map_values(|p: LocalVersionPart| p@)),
        None => None,
    }
}

impl View for Version {
    type V = VersionV;

    open spec fn view(&self) -> VersionV {
        VersionV {
            epoch: self.epoch,
            release: self.release@,
            pre: seg_view(self.pre),
            post: seg_view(self.post),
            dev: seg_view(self.dev),
            local: local_view(self.local),
        }
    }
}

impl VersionV {
    /// The invariant every parsed version satisfies: a non-empty release and
    /// normalized segment letters.
    pub open spec fn wf(self) -> bool {
        &&& self.release.len() >= 1
        &&& match self.pre {
            Some((l, _)) => l == "a"@ || l == "b"@ || l == "rc"@,
            None => true,
        }
        &&& match self.post {
            Some((l, _)) => l == "post"@,
            None => true,
        }
        &&& match self.dev {
            Some((l, _)) => l == "dev"@,
            None => true,
        }
        &&& match self.local {
            Some(parts) => parts.len() >= 1,
            None => true,
        }
    }
}

/// Three-state ordering value for an optional lettered segment: an absent
/// segment is pinned either below or above every present one.
pub enum SegmentKey {
    NegInf,
    Val(String, u64),
    PosInf,
}

/// Mathematical model of a segment key.
pub ghost enum SegKeyV {
    NegInf,
    Val(Seq<char>, u64),
    PosInf,
}

impl View for SegmentKey {
    type V = SegKeyV;

    open spec fn view(&self) -> SegKeyV {
        match self {
            SegmentKey::NegInf => SegKeyV::NegInf,
            SegmentKey::Val(l, n) => SegKeyV::Val(l@, *n),
            SegmentKey::PosInf => SegKeyV::PosInf,
        }
    }
}

/// Composite ordering key of a version.  Two versions compare exactly as
/// their keys compare, component by component.
pub struct CmpKey {
    pub epoch: u64,
    pub release: Vec<u64>,
    pub pre: SegmentKey,
    pub post: SegmentKey,
    pub dev: SegmentKey,
    pub local: Vec<LocalVersionPart>,
}

/// Mathematical model of a composite ordering key.
#[verifier::ext_equal]
pub ghost struct CmpKeyV {
    pub epoch: u64,
    pub release: Seq<u64>,
    pub pre: SegKeyV,
    pub post: SegKeyV,
    pub dev: SegKeyV,
    pub local: Seq<LocalPartV>,
}

impl View for CmpKey {
    type V = CmpKeyV;

    open spec fn view(&self) -> CmpKeyV {
        CmpKeyV {
            epoch: self.epoch,
            release: self.release@,
            pre: self.pre@,
            post: self.post@,
            dev: self.dev@,
            local: self.local@.map_values(|p: LocalVersionPart| p@),
        }
    }
}

/// The release sequence with its trailing zero components removed.
pub open spec fn strip_trailing_zeros(s: Seq<u64>) -> Seq<u64>
    decreases s.len(),
{
    if s.len() > 0 && s[s.len() - 1] == 0 {
        strip_trailing_zeros(s.take(s.len() - 1))
    } else {
        s
    }
}

/// The ordering key of a version.  An absent pre sorts above every real
/// pre-release, except that a dev-only version (no pre, no post) gets a pre
/// below every real one; an absent post sorts below and an absent dev above
/// every real value; an absent local label is the empty sequence, below any
/// present label.
pub open spec fn key_of(v: VersionV) -> CmpKeyV {
    CmpKeyV {
        epoch: v.epoch,
        release: strip_trailing_zeros(v.release),
        pre: if v.pre is None && v.post is None && v.dev is Some {
            SegKeyV::NegInf
        } else {
            match v.pre {
                None => SegKeyV::PosInf,
                Some((l, n)) => SegKeyV::Val(l, n),
            }
        },
        post: match v.post {
            None => SegKeyV::NegInf,
            Some((l, n)) => SegKeyV::Val(l, n),
        },
        dev: match v.dev {
            None => SegKeyV::PosInf,
            Some((l, n)) => SegKeyV::Val(l, n),
        },
        local: match v.local {
            None => Seq::empty(),
            Some(parts) => parts,
        },
    }
}

/// Three-way comparison of two numbers: -1, 0 or 1.
pub open spec fn cmp_u64(a: u64, b: u64) -> int {
    if a < b {
        -1
    } else if a == b {
        0
    } else {
        1
    }
}

/// Lexicographic comparison of two character sequences from position `i`.
pub open spec fn cmp_chars_from(a: Seq<char>, b: Seq<char>, i: int) -> int
    decreases a.len() - i,
{
    if i >= a.len() && i >= b.len() {
        0
    } else if i >= a.len() {
        -1
    } else if i >= b.len() {
        1
    } else if a[i] < b[i] {
        -1
    } else if b[i] < a[i] {
        1
    } else {
        cmp_chars_from(a, b, i + 1)
    }
}

/// Lexicographic comparison of two character sequences.
pub open spec fn cmp_chars(a: Seq<char>, b: Seq<char>) -> int {
    cmp_chars_from(a, b, 0)
}

/// Lexicographic comparison of two number sequences from position `i`.
pub open spec fn cmp_nums_from(a: Seq<u64>, b: Seq<u64>, i: int) -> int
    decreases a.len() - i,
{
    if i >= a.len() && i >= b.len() {
        0
    } else if i >= a.len() {
        -1
    } else if i >= b.len() {
        1
    } else if cmp_u64(a[i], b[i]) != 0 {
        cmp_u64(a[i], b[i])
    } else {
        cmp_nums_from(a, b, i + 1)
    }
}

/// Lexicographic comparison of two number sequences.
pub open spec fn cmp_nums(a: Seq<u64>, b: Seq<u64>) -> int {
    cmp_nums_from(a, b, 0)
}

/// Comparison of two local parts: a numeric part outranks every string part;
/// numbers compare numerically, strings lexicographically.
pub open spec fn cmp_local_part(a: LocalPartV, b: LocalPartV) -> int {
    match (a, b) {
        (LocalPartV::Num(x), LocalPartV::Num(y)) => cmp_u64(x, y),
        (LocalPartV::Num(_), LocalPartV::LowerStr(_)) => 1,
        (LocalPartV::LowerStr(_), LocalPartV::Num(_)) => -1,
        (LocalPartV::LowerStr(x), LocalPartV::LowerStr(y)) => cmp_chars(x, y),
    }
}

/// Lexicographic comparison of two local labels from position `i`.
pub open spec fn cmp_locals_from(a: Seq<LocalPartV>, b: Seq<LocalPartV>, i: int) -> int
    decreases a.len() - i,
{
    if i >= a.len() && i >= b.len() {
        0
    } else if i >= a.len() {
        -1
    } else if i >= b.len() {
        1
    } else if cmp_local_part(a[i], b[i]) != 0 {
        cmp_local_part(a[i], b[i])
    } else {
        cmp_locals_from(a, b, i + 1)
    }
}

/// Lexicographic comparison of two local labels.
pub open spec fn cmp_locals(a: Seq<LocalPartV>, b: Seq<LocalPartV>) -> int {
    cmp_locals_from(a, b, 0)
}

/// Comparison of two segment keys: absent-as-low below every present value,
/// absent-as-high above; present values compare by letter, then number.
pub open spec fn cmp_seg(a: SegKeyV, b: SegKeyV) -> int {
    match (a, b) {
        (SegKeyV::NegInf, SegKeyV::NegInf) => 0,
        (SegKeyV::NegInf, _) => -1,
        (_, SegKeyV::NegInf) => 1,
        (SegKeyV::PosInf, SegKeyV::PosInf) => 0,
        (SegKeyV::Val(_, _), SegKeyV::PosInf) => -1,
        (SegKeyV::PosInf, SegKeyV::Val(_, _)) => 1,
        (SegKeyV::Val(l1, n1), SegKeyV::Val(l2, n2)) => if cmp_chars(l1, l2) != 0 {
            cmp_chars(l1, l2)
        } else {
            cmp_u64(n1, n2)
        },
    }
}

/// Comparison of two composite keys, component by component.
pub open spec fn cmp_key(a: CmpKeyV, b: CmpKeyV) -> int {
    if cmp_u64(a.epoch, b.epoch) != 0 {
        cmp_u64(a.epoch, b.epoch)
    } else if cmp_nums(a.release, b.release) != 0 {
        cmp_nums(a.release, b.release)
    } else if cmp_seg(a.pre, b.pre) != 0 {
        cmp_seg(a.pre, b.pre)
    } else if cmp_seg(a.post, b.post) != 0 {
        cmp_seg(a.post, b.post)
    } else if cmp_seg(a.dev, b.dev) != 0 {
        cmp_seg(a.dev, b.dev)
    } else {
        cmp_locals(a.local, b.local)
    }
}

/// The total order on versions: comparison of their composite keys.
pub open spec fn ver_cmp(a: VersionV, b: VersionV) -> int {
    cmp_key(key_of(a), key_of(b))
}

/// The public portion of a version: the same version without its local label.
pub open spec fn public_of(v: VersionV) -> VersionV {
    VersionV { local: None, ..v }
}

/// The base of a version: epoch and release only.
pub open spec fn base_of(v: VersionV) -> VersionV {
    VersionV { epoch: v.epoch, release: v.release, pre: None, post: None, dev: None, local: None }
}

/// The integer sign that an `Ordering` stands for.
pub open spec fn ord_sign(o: Ordering) -> int {
    match o {
        Ordering::Less => -1,
        Ordering::Equal => 0,
        Ordering::Greater => 1,
    }
}

/// The `Ordering` with a given sign.
pub open spec fn sign_ord(i: int) -> Ordering {
    if i < 0 {
        Ordering::Less
    } else if i == 0 {
        Ordering::Equal
    } else {
        Ordering::Greater
    }
}

/// Three-way comparison of two numbers.
pub fn compare_u64(a: u64, b: u64) -> (r: Ordering)
    ensures
        ord_sign(r) == cmp_u64(a, b),
{
    if a < b {
        Ordering::Less
    } else if a == b {
        Ordering::Equal
    } else {
        Ordering::Greater
    }
}

fn compare_str_from(a: &str, b: &str, al: usize, bl: usize, i: usize) -> (r: Ordering)
    requires
        al == a@.len(),
        bl == b@.len(),
        i <= al,
        i <= bl,
    ensures
        ord_sign(r) == cmp_chars_from(a@, b@, i as int),
    decreases al - i,
{
    if i == al && i == bl {
        Ordering::Equal
    } else if i == al {
        Ordering::Less
    } else if i == bl {
        Ordering::Greater
    } else {
        let ca = a.get_char(i);
        let cb = b.get_char(i);
        if ca < cb {
            Ordering::Less
        } else if cb < ca {
            Ordering::Greater
        } else {
            compare_str_from(a, b, al, bl, i + 1)
        }
    }
}

/// Lexicographic comparison of two strings by character value.
pub fn compare_str(a: &str, b: &str) -> (r: Ordering)
    ensures
        ord_sign(r) == cmp_chars(a@, b@),
{
    let al = a.unicode_len();
    let bl = b.unicode_len();
    compare_str_from(a, b, al, bl, 0)
}

fn compare_nums_from(a: &Vec<u64>, b: &Vec<u64>, i: usize) -> (r: Ordering)
    requires
        i <= a@.len(),
        i <= b@.len(),
    ensures
        ord_sign(r) == cmp_nums_from(a@, b@, i as int),
    decreases a@.len() - i,
{
    if i == a.len() && i == b.len() {
        Ordering::Equal
    } else if i == a.len() {
        Ordering::Less
    } else if i == b.len() {
        Ordering::Greater
    } else {
        match compare_u64(a[i], b[i]) {
            Ordering::Equal => compare_nums_from(a, b, i + 1),
            r => r,
        }
    }
}

/// Lexicographic comparison of two number sequences.
pub fn compare_nums(a: &Vec<u64>, b: &Vec<u64>) -> (r: Ordering)
    ensures
        ord_sign(r) == cmp_nums(a@, b@),
{
    compare_nums_from(a, b, 0)
}

impl LocalVersionPart {
    /// Comparison of two local parts: numeric parts outrank string parts.
    pub fn cmp(&self, other: &Self) -> (r: Ordering)
        ensures
            ord_sign(r) == cmp_local_part(self@, other@),
    {
        match self {
            LocalVersionPart::Num(x) => match other {
                LocalVersionPart::Num(y) => compare_u64(*x, *y),
                LocalVersionPart::LowerStr(_) => Ordering::Greater,
            },
            LocalVersionPart::LowerStr(x) => match other {
                LocalVersionPart::Num(_) => Ordering::Less,
                LocalVersionPart::LowerStr(y) => compare_str(x.as_str(), y.as_str()),
            },
        }
    }
}

fn compare_locals_from(a: &Vec<LocalVersionPart>, b: &Vec<LocalVersionPart>, i: usize) -> (r:
    Ordering)
    requires
        i <= a@.len(),
        i <= b@.len(),
    ensures
        ord_sign(r) == cmp_locals_from(
            a@.map_values(|p: LocalVersionPart| p@),
            b@.map_values(|p: LocalVersionPart| p@),
            i as int,
        ),
    decreases a@.len() - i,
{
    if i == a.len() && i == b.len() {
        Ordering::Equal
    } else if i == a.len() {
        Ordering::Less
    } else if i == b.len() {
        Ordering::Greater
    } else {
        match a[i].cmp(&b[i]) {
            Ordering::Equal => compare_locals_from(a, b, i + 1),
            r => r,
        }
    }
}

/// Lexicographic comparison of two local labels.
pub fn compare_locals(a: &Vec<LocalVersionPart>, b: &Vec<LocalVersionPart>) -> (r: Ordering)
    ensures
        ord_sign(r) == cmp_locals(
            a@.map_values(|p: LocalVersionPart| p@),
            b@.map_values(|p: LocalVersionPart| p@),
        ),
{
    compare_locals_from(a, b, 0)
}

impl SegmentKey {
    /// Comparison of two segment keys.
    pub fn cmp(&self, other: &Self) -> (r: Ordering)
        ensures
            ord_sign(r) == cmp_seg(self@, other@),
    {
        match (self, other) {
            (SegmentKey::NegInf, SegmentKey::NegInf) => Ordering::Equal,
            (SegmentKey::NegInf, _) => Ordering::Less,
            (_, SegmentKey::NegInf) => Ordering::Greater,
            (SegmentKey::PosInf, SegmentKey::PosInf) => Ordering::Equal,
            (SegmentKey::Val(_, _), SegmentKey::PosInf) => Ordering::Less,
            (SegmentKey::PosInf, SegmentKey::Val(_, _)) => Ordering::Greater,
            (SegmentKey::Val(l1, n1), SegmentKey::Val(l2, n2)) => match compare_str(
                l1.as_str(),
                l2.as_str(),
            ) {
                Ordering::Equal => compare_u64(*n1, *n2),
                r => r,
            },
        }
    }
}

impl Clone for LocalVersionPart {
    fn clone(&self) -> (r: Self)
        ensures
            r == *self,
    {
        match self {
            LocalVersionPart::Num(n) => LocalVersionPart::Num(*n),
            LocalVersionPart::LowerStr(s) => LocalVersionPart::LowerStr(s.clone()),
        }
    }
}

/// Copy of a number vector.
pub(crate) fn copy_nums(v: &Vec<u64>) -> (r: Vec<u64>)
    ensures
        r@ == v@,
{
    let mut out: Vec<u64> = Vec::new();
    let mut i: usize = 0;
    while i < v.len()
        invariant
            i <= v@.len(),
            out@ =~= v@.take(i as int),
        decreases v@.len() - i,
    {
        out.push(v[i]);
        i += 1;
    }
    proof {
        assert(out@ =~= v@);
    }
    out
}

/// Copy of a local label.
pub(crate) fn clone_locals(v: &Vec<LocalVersionPart>) -> (r: Vec<LocalVersionPart>)
    ensures
        r@ =~= v@,
{
    let mut out: Vec<LocalVersionPart> = Vec::new();
    let mut i: usize = 0;
    while i < v.len()
        invariant
            i <= v@.len(),
            out@ =~= v@.take(i as int),
        decreases v@.len() - i,
    {
        out.push(v[i].clone());
        i += 1;
    }
    out
}

/// Copy of an optional lettered segment.
pub(crate) fn clone_seg(s: &Option<(String, u64)>) -> (r: Option<(String, u64)>)
    ensures
        r == *s,
{
    match s {
        Some((l, n)) => Some((l.clone(), *n)),
        None => None,
    }
}

impl CmpKey {
    /// Comparison of two composite keys, component by component.
    pub fn cmp(&self, other: &Self) -> (r: Ordering)
        ensures
            ord_sign(r) == cmp_key(self@, other@),
    {
        match compare_u64(self.epoch, other.epoch) {
            Ordering::Equal => match compare_nums(&self.release, &other.release) {
                Ordering::Equal => match self.pre.cmp(&other.pre) {
                    Ordering::Equal => match self.post.cmp(&other.post) {
                        Ordering::Equal => match self.dev.cmp(&other.dev) {
                            Ordering::Equal => compare_locals(&self.local, &other.local),
                            r => r,
                        },
                        r => r,
                    },
                    r => r,
                },
                r => r,
            },
            r => r,
        }
    }
}

impl Version {
    /// The release sequence with its trailing zero components removed; used
    /// by the ordering key.
    pub fn release_without_trailing_zero(&self) -> (r: Vec<u64>)
        ensures
            r@ == strip_trailing_zeros(self.release@),
    {
        let mut n: usize = self.release.len();
        proof {
            assert(self.release@.take(n as int) =~= self.release@);
        }
        while n > 0 && self.release[n - 1] == 0
            invariant
                n <= self.release@.len(),
                strip_trailing_zeros(self.release@) == strip_trailing_zeros(
                    self.release@.take(n as int),
                ),
            decreases n,
        {
            proof {
                assert(self.release@.take(n as int).take(n - 1 as int) =~= self.release@.take(
                    n - 1 as int,
                ));
            }
            n -= 1;
        }
        proof {
            if n > 0 {
                assert(strip_trailing_zeros(self.release@.take(n as int)) == self.release@.take(
                    n as int,
                ));
            } else {
                assert(self.release@.take(0) =~= Seq::<u64>::empty());
            }
        }
        let mut out: Vec<u64> = Vec::new();
        let mut i: usize = 0;
        while i < n
            invariant
                i <= n <= self.release@.len(),
                out@ =~= self.release@.take(i as int),
            decreases n - i,
        {
            out.push(self.release[i]);
            i += 1;
        }
        proof {
            assert(out@ =~= self.release@.take(n as int));
        }
        out
    }

    /// The composite ordering key of this version.
    pub fn cmpkey(&self) -> (k: CmpKey)
        ensures
            k@ == key_of(self@),
    {
        let pre = if self.pre.is_none() && self.post.is_none() && self.dev.is_some() {
            SegmentKey::NegInf
        } else {
            match &self.pre {
                None => SegmentKey::PosInf,
                Some((l, n)) => SegmentKey::Val(l.clone(), *n),
            }
        };
        let post = match &self.post {
            None => SegmentKey::NegInf,
            Some((l, n)) => SegmentKey::Val(l.clone(), *n),
        };
        let dev = match &self.dev {
            None => SegmentKey::PosInf,
            Some((l, n)) => SegmentKey::Val(l.clone(), *n),
        };
        let local = match &self.local {
            None => Vec::new(),
            Some(v) => clone_locals(v),
        };
        let k = CmpKey {
            epoch: self.epoch,
            release: self.release_without_trailing_zero(),
            pre,
            post,
            dev,
            local,
        };
        proof {
            assert(k@ =~= key_of(self@));
        }
        k
    }

    /// Three-way comparison of two versions by their ordering keys.
    pub fn compare(&self, other: &Version) -> (r: Ordering)
        ensures
            ord_sign(r) == ver_cmp(self@, other@),
    {
        self.cmpkey().cmp(&other.cmpkey())
    }

    /// Whether this version is a pre-release: it carries a dev or pre segment.
    pub fn is_prerelease(&self) -> (r: bool)
        ensures
            r == (self@.dev is Some || self@.pre is Some),
    {
        self.dev.is_some() || self.pre.is_some()
    }

    /// Whether this version is a post-release.
    pub fn is_postrelease(&self) -> (r: bool)
        ensures
            r == (self@.post is Some),
    {
        self.post.is_some()
    }

    /// The same version without its local label.
    pub fn to_public(&self) -> (r: Self)
        ensures
            r@ == public_of(self@),
    {
        let r = Version {
            epoch: self.epoch,
            release: copy_nums(&self.release),
            pre: clone_seg(&self.pre),
            post: clone_seg(&self.post),
            dev: clone_seg(&self.dev),
            local: None,
        };
        proof {
            assert(r@ =~= public_of(self@));
        }
        r
    }

    /// Epoch and release only, with every other segment dropped.
    pub fn to_base(&self) -> (r: Self)
        ensures
            r@ == base_of(self@),
    {
        let r = Version {
            epoch: self.epoch,
            release: copy_nums(&self.release),
            pre: None,
            post: None,
            dev: None,
            local: None,
        };
        proof {
            assert(r@ =~= base_of(self@));
        }
        r
    }
}

fn digit_str(d: u64) -> (r: &'static str)
    requires
        d < 10,
    ensures
        r@ == seq![digit_char_of(d)],
{
    proof {
        reveal_strlit("0");
        reveal_strlit("1");
        reveal_strlit("2");
        reveal_strlit("3");
        reveal_strlit("4");
        reveal_strlit("5");
        reveal_strlit("6");
        reveal_strlit("7");
        reveal_strlit("8");
        reveal_strlit("9");
        assert("0"@ =~= seq!['0']);
        assert("1"@ =~= seq!['1']);
        assert("2"@ =~= seq!['2']);
        assert("3"@ =~= seq!['3']);
        assert("4"@ =~= seq!['4']);
        assert("5"@ =~= seq!['5']);
        assert("6"@ =~= seq!['6']);
        assert("7"@ =~= seq!['7']);
        assert("8"@ =~= seq!['8']);
        assert("9"@ =~= seq!['9']);
    }
    if d == 0 {
        "0"
    } else if d == 1 {
        "1"
    } else if d == 2 {
        "2"
    } else if d == 3 {
        "3"
    } else if d == 4 {
        "4"
    } else if d == 5 {
        "5"
    } else if d == 6 {
        "6"
    } else if d == 7 {
        "7"
    } else if d == 8 {
        "8"
    } else {
        "9"
    }
}

/// Appends the decimal digits of `n`.
fn push_u64(out: &mut String, n: u64)
    ensures
        final(out)@ == old(out)@ + dec_digits(n),
    decreases n,
{
    if n >= 10 {
        assert(n / 10 < n);
        push_u64(out, n / 10);
        let ghost mid = out@;
        out.append(digit_str(n % 10));
        proof {
            assert(out@ =~= old(out)@ + dec_digits(n));
        }
    } else {
        out.append(digit_str(n));
        proof {
            assert(out@ =~= old(out)@ + dec_digits(n));
        }
    }
}

/// Appends the numbers of `v`, joined with `.` separators.
fn push_nums(out: &mut String, v: &Vec<u64>)
    ensures
        final(out)@ == old(out)@ + join_nums(v@),
{
    proof {
        reveal_strlit(".");
        assert("."@ =~= seq!['.']);
        assert(v@.take(0) =~= Seq::<u64>::empty());
    }
    let mut i: usize = 0;
    while i < v.len()
        invariant
            i <= v@.len(),
            out@ == old(out)@ + join_nums(v@.take(i as int)),
            "."@ =~= seq!['.'],
        decreases v@.len() - i,
    {
        if i > 0 {
            out.append(".");
        }
        push_u64(out, v[i]);
        proof {
            assert(v@.take(i + 1 as int).drop_last() =~= v@.take(i as int));
            assert(v@.take(i + 1 as int).last() == v@[i as int]);
            if i == 0 {
                assert(out@ =~= old(out)@ + join_nums(v@.take(i + 1 as int)));
            } else {
                assert(out@ =~= old(out)@ + join_nums(v@.take(i + 1 as int)));
            }
        }
        i += 1;
    }
    proof {
        assert(v@.take(v@.len() as int) =~= v@);
    }
}

/// Appends the local parts of `v`, joined with `.` separators.
fn push_locals(out: &mut String, v: &Vec<LocalVersionPart>)
    ensures
        final(out)@ == old(out)@ + join_locals(v@.map_values(|p: LocalVersionPart| p@)),
{
    let ghost parts = v@.map_values(|p: LocalVersionPart| p@);
    proof {
        reveal_strlit(".");
        assert("."@ =~= seq!['.']);
        assert(parts.take(0) =~= Seq::<LocalPartV>::empty());
    }
    let mut i: usize = 0;
    while i < v.len()
        invariant
            i <= v@.len(),
            parts == v@.map_values(|p: LocalVersionPart| p@),
            out@ == old(out)@ + join_locals(parts.take(i as int)),
            "."@ =~= seq!['.'],
        decreases v@.len() - i,
    {
        if i > 0 {
            out.append(".");
        }
        match &v[i] {
            LocalVersionPart::Num(n) => {
                push_u64(out, *n);
            },
            LocalVersionPart::LowerStr(s) => {
                out.append(s.as_str());
            },
        }
        proof {
            assert(parts.take(i + 1 as int).drop_last() =~= parts.take(i as int));
            assert(parts.take(i + 1 as int).last() == parts[i as int]);
            assert(out@ =~= old(out)@ + join_locals(parts.take(i + 1 as int)));
        }
        i += 1;
    }
    proof {
        assert(parts.take(parts.len() as int) =~= parts);
    }
}

impl Version {
    /// The canonical text of this version.  The release keeps its trailing
    /// zero components unless `strip_trailing_zero` is set, and stripping
    /// never goes below one component: an all-zero release renders as `0`.
    /// The local label is included only when `with_local` is set.  Only a
    /// version with an empty release has no canonical text.
    #[verifier::rlimit(100)]
    pub fn canonicalize_str(&self, strip_trailing_zero: bool, with_local: bool) -> (r: String)
        requires
            self@.release.len() >= 1,
        ensures
            r@ == render_version(self@, strip_trailing_zero, with_local),
    {
        let mut parts = String::new();
        proof {
            reveal_strlit("!");
            assert("!"@ =~= seq!['!']);
            reveal_strlit("+");
            assert("+"@ =~= seq!['+']);
        }
        if self.epoch != 0 {
            push_u64(&mut parts, self.epoch);
            parts.append("!");
        }
        let ghost head = parts@;
        let rel = if strip_trailing_zero {
            let mut stripped = self.release_without_trailing_zero();
            if stripped.len() == 0 {
                stripped.push(0);
            }
            proof {
                assert(stripped@ =~= stripped_release(self@.release));
            }
            stripped
        } else {
            copy_nums(&self.release)
        };
        push_nums(&mut parts, &rel);
        match &self.pre {
            Some((l, n)) => {
                parts.append(l.as_str());
                push_u64(&mut parts, *n);
            },
            None => {},
        }
        match &self.post {
            Some((_, n)) => {
                parts.append(".post");
                push_u64(&mut parts, *n);
            },
            None => {},
        }
        match &self.dev {
            Some((_, n)) => {
                parts.append(".dev");
                push_u64(&mut parts, *n);
            },
            None => {},
        }
        if with_local {
            match &self.local {
                Some(lp) => {
                    parts.append("+");
                    push_locals(&mut parts, lp);
                },
                None => {},
            }
        }
        proof {
            assert(parts@ =~= render_version(self@, strip_trailing_zero, with_local));
        }
        parts
    }

    /// The canonical text of the public portion: epoch, release, pre, post
    /// and dev, without the local label.
    pub fn public_str(&self) -> (r: String)
        requires
            self@.release.len() >= 1,
        ensures
            r@ == render_version(self@, false, false),
    {
        self.canonicalize_str(false, false)
    }

    /// The full canonical text, local label included.
    pub fn full_str(&self) -> (r: String)
        requires
            self@.release.len() >= 1,
        ensures
            r@ == render_version(self@, false, true),
    {
        self.canonicalize_str(false, true)
    }

    /// The wildcard prefix of this version: the release with its last
    /// component dropped and `.*` appended, used for compatible-release
    /// matching.
    pub fn prefix_str(&self) -> (r: String)
        ensures
            r@ == render_prefix(self@),
    {
        let mut parts = String::new();
        proof {
            reveal_strlit("!");
            assert("!"@ =~= seq!['!']);
        }
        if self.epoch != 0 {
            push_u64(&mut parts, self.epoch);
            parts.append("!");
        }
        if self.release.len() > 1 {
            let mut rel = copy_nums(&self.release);
            rel.pop();
            proof {
                assert(rel@ =~= self.release@.drop_last());
            }
            push_nums(&mut parts, &rel);
        }
        parts.append(".*");
        proof {
            assert(parts@ =~= render_prefix(self@));
        }
        parts
    }
}

impl PartialEq for Version {
    /// Versions are equal when their ordering keys are equal.
    fn eq(&self, other: &Self) -> (r: bool)
    {
        match self.compare(other) {
            Ordering::Equal => true,
            _ => false,
        }
    }
}

impl vstd::std_specs::cmp::PartialEqSpecImpl for Version {
    open spec fn obeys_eq_spec() -> bool {
        true
    }

    open spec fn eq_spec(&self, other: &Self) -> bool {
        ver_cmp(self@, other@) == 0
    }
}

impl PartialOrd for Version {
    /// Versions are ordered by their composite keys.
    fn partial_cmp(&self, other: &Self) -> (r: Option<Ordering>)
    {
        Some(self.compare(other))
    }
}

impl vstd::std_specs::cmp::PartialOrdSpecImpl for Version {
    open spec fn obeys_partial_cmp_spec() -> bool {
        true
    }

    open spec fn partial_cmp_spec(&self, other: &Self) -> Option<Ordering> {
        Some(sign_ord(ver_cmp(self@, other@)))
    }
}

impl PartialEq for LocalVersionPart {
    /// Local parts are equal when they compare as equal.
    fn eq(&self, other: &Self) -> (r: bool)
    {
        match self.cmp(other) {
            Ordering::Equal => true,
            _ => false,
        }
    }
}

impl vstd::std_specs::cmp::PartialEqSpecImpl for LocalVersionPart {
    open spec fn obeys_eq_spec() -> bool {
        true
    }

    open spec fn eq_spec(&self, other: &Self) -> bool {
        cmp_local_part(self@, other@) == 0
    }
}

impl PartialOrd for LocalVersionPart {
    /// Local parts are ordered with numeric parts above string parts.
    fn partial_cmp(&self, other: &Self) -> (r: Option<Ordering>)
    {
        Some(self.cmp(other))
    }
}

impl vstd::std_specs::cmp::PartialOrdSpecImpl for LocalVersionPart {
    open spec fn obeys_partial_cmp_spec() -> bool {
        true
    }

    open spec fn partial_cmp_spec(&self, other: &Self) -> Option<Ordering> {
        Some(sign_ord(cmp_local_part(self@, other@)))
    }
}

/// The decimal digits of a number, most significant first.
pub open spec fn dec_digits(n: u64) -> Seq<char>
    decreases n,
{
    if n < 10 {
        seq![digit_char_of(n)]
    } else {
        dec_digits(n / 10).push(digit_char_of(n % 10))
    }
}

/// The character of a decimal digit.
pub open spec fn digit_char_of(d: u64) -> char {
    if d == 0 {
        '0'
    } else if d == 1 {
        '1'
    } else if d == 2 {
        '2'
    } else if d == 3 {
        '3'
    } else if d == 4 {
        '4'
    } else if d == 5 {
        '5'
    } else if d == 6 {
        '6'
    } else if d == 7 {
        '7'
    } else if d == 8 {
        '8'
    } else {
        '9'
    }
}

/// Numbers joined with `.` separators.
pub open spec fn join_nums(s: Seq<u64>) -> Seq<char>
    decreases s.len(),
{
    if s.len() == 0 {
        Seq::empty()
    } else if s.len() == 1 {
        dec_digits(s[0])
    } else {
        join_nums(s.drop_last()) + seq!['.'] + dec_digits(s.last())
    }
}

/// The text of one local part.
pub open spec fn local_part_text(p: LocalPartV) -> Seq<char> {
    match p {
        LocalPartV::Num(n) => dec_digits(n),
        LocalPartV::LowerStr(s) => s,
    }
}

/// Local parts joined with `.` separators.
pub open spec fn join_locals(s: Seq<LocalPartV>) -> Seq<char>
    decreases s.len(),
{
    if s.len() == 0 {
        Seq::empty()
    } else if s.len() == 1 {
        local_part_text(s[0])
    } else {
        join_locals(s.drop_last()) + seq!['.'] + local_part_text(s.last())
    }
}

/// The release with trailing zero components stripped, kept at one
/// component: an all-zero release strips to the single component 0.
pub open spec fn stripped_release(rel: Seq<u64>) -> Seq<u64> {
    if strip_trailing_zeros(rel).len() == 0 {
        seq![0u64]
    } else {
        strip_trailing_zeros(rel)
    }
}

/// The canonical text of a version: `[N!]N(.N)*[{a|b|rc}N][.postN][.devN][+local]`,
/// with the epoch omitted when 0, the release optionally stripped of its
/// trailing zero components (never below one component), and the local
/// label optionally omitted.
pub open spec fn render_version(v: VersionV, strip: bool, with_local: bool) -> Seq<char> {
    (if v.epoch != 0 {
        dec_digits(v.epoch) + seq!['!']
    } else {
        Seq::empty()
    }) + join_nums(
        if strip {
            stripped_release(v.release)
        } else {
            v.release
        },
    ) + (match v.pre {
        Some((l, n)) => l + dec_digits(n),
        None => Seq::empty(),
    }) + (match v.post {
        Some((_, n)) => ".post"@ + dec_digits(n),
        None => Seq::empty(),
    }) + (match v.dev {
        Some((_, n)) => ".dev"@ + dec_digits(n),
        None => Seq::empty(),
    }) + (if with_local {
        match v.local {
            Some(parts) => seq!['+'] + join_locals(parts),
            None => Seq::empty(),
        }
    } else {
        Seq::empty()
    })
}

/// The wildcard prefix text of a version: the epoch, the release with its
/// last component dropped, and a trailing `.*`.
pub open spec fn render_prefix(v: VersionV) -> Seq<char> {
    (if v.epoch != 0 {
        dec_digits(v.epoch) + seq!['!']
    } else {
        Seq::empty()
    }) + (if v.release.len() > 1 {
        join_nums(v.release.drop_last())
    } else {
        Seq::empty()
    }) + ".*"@
}

proof fn lemma_cmp_chars_from_props(a: Seq<char>, b: Seq<char>, i: int)
    requires
        0 <= i <= a.len(),
        0 <= i <= b.len(),
    ensures
        -1 <= cmp_chars_from(a, b, i) <= 1,
        cmp_chars_from(a, b, i) == -cmp_chars_from(b, a, i),
        cmp_chars_from(a, b, i) == 0 <==> (a.len() == b.len() && forall|j: int|
            i <= j < a.len() ==> a[j] == b[j]),
    decreases a.len() - i,
{
    if i < a.len() && i < b.len() {
        lemma_cmp_chars_from_props(a, b, i + 1);
    }
}

proof fn lemma_cmp_chars_from_trans(a: Seq<char>, b: Seq<char>, c: Seq<char>, i: int)
    requires
        0 <= i <= a.len(),
        0 <= i <= b.len(),
        0 <= i <= c.len(),
        cmp_chars_from(a, b, i) <= 0,
        cmp_chars_from(b, c, i) <= 0,
    ensures
        cmp_chars_from(a, c, i) <= 0,
        cmp_chars_from(a, b, i) < 0 || cmp_chars_from(b, c, i) < 0 ==> cmp_chars_from(a, c, i) < 0,
    decreases a.len() - i,
{
    if i < a.len() && i < b.len() && i < c.len() && a[i] == b[i] && b[i] == c[i] {
        lemma_cmp_chars_from_trans(a, b, c, i + 1);
    } else {
        lemma_cmp_chars_from_props(a, b, i);
        lemma_cmp_chars_from_props(b, c, i);
        lemma_cmp_chars_from_props(a, c, i);
    }
}

proof fn lemma_cmp_chars_eq(a: Seq<char>, b: Seq<char>)
    ensures
        cmp_chars(a, b) == 0 <==> a == b,
        -1 <= cmp_chars(a, b) <= 1,
        cmp_chars(a, b) == -cmp_chars(b, a),
{
    lemma_cmp_chars_from_props(a, b, 0);
    if cmp_chars(a, b) == 0 {
        assert(a =~= b);
    }
}

proof fn lemma_cmp_nums_from_props(a: Seq<u64>, b: Seq<u64>, i: int)
    requires
        0 <= i <= a.len(),
        0 <= i <= b.len(),
    ensures
        -1 <= cmp_nums_from(a, b, i) <= 1,
        cmp_nums_from(a, b, i) == -cmp_nums_from(b, a, i),
        cmp_nums_from(a, b, i) == 0 <==> (a.len() == b.len() && forall|j: int|
            i <= j < a.len() ==> a[j] == b[j]),
    decreases a.len() - i,
{
    if i < a.len() && i < b.len() {
        lemma_cmp_nums_from_props(a, b, i + 1);
    }
}

proof fn lemma_cmp_nums_from_trans(a: Seq<u64>, b: Seq<u64>, c: Seq<u64>, i: int)
    requires
        0 <= i <= a.len(),
        0 <= i <= b.len(),
        0 <= i <= c.len(),
        cmp_nums_from(a, b, i) <= 0,
        cmp_nums_from(b, c, i) <= 0,
    ensures
        cmp_nums_from(a, c, i) <= 0,
        cmp_nums_from(a, b, i) < 0 || cmp_nums_from(b, c, i) < 0 ==> cmp_nums_from(a, c, i) < 0,
    decreases a.len() - i,
{
    if i < a.len() && i < b.len() && i < c.len() && a[i] == b[i] && b[i] == c[i] {
        lemma_cmp_nums_from_trans(a, b, c, i + 1);
    } else {
        lemma_cmp_nums_from_props(a, b, i);
        lemma_cmp_nums_from_props(b, c, i);
    }
}

proof fn lemma_cmp_nums_eq(a: Seq<u64>, b: Seq<u64>)
    ensures
        cmp_nums(a, b) == 0 <==> a == b,
        -1 <= cmp_nums(a, b) <= 1,
        cmp_nums(a, b) == -cmp_nums(b, a),
{
    lemma_cmp_nums_from_props(a, b, 0);
    if cmp_nums(a, b) == 0 {
        assert(a =~= b);
    }
}

proof fn lemma_cmp_local_part_props(a: LocalPartV, b: LocalPartV)
    ensures
        -1 <= cmp_local_part(a, b) <= 1,
        cmp_local_part(a, b) == -cmp_local_part(b, a),
        cmp_local_part(a, b) == 0 <==> a == b,
{
    match (a, b) {
        (LocalPartV::LowerStr(x), LocalPartV::LowerStr(y)) => {
            lemma_cmp_chars_eq(x, y);
        },
        _ => {},
    }
}

proof fn lemma_cmp_local_part_trans(a: LocalPartV, b: LocalPartV, c: LocalPartV)
    requires
        cmp_local_part(a, b) <= 0,
        cmp_local_part(b, c) <= 0,
    ensures
        cmp_local_part(a, c) <= 0,
        cmp_local_part(a, b) < 0 || cmp_local_part(b, c) < 0 ==> cmp_local_part(a, c) < 0,
{
    match (a, b, c) {
        (LocalPartV::LowerStr(x), LocalPartV::LowerStr(y), LocalPartV::LowerStr(z)) => {
            lemma_cmp_chars_from_trans(x, y, z, 0);
            lemma_cmp_chars_eq(x, y);
            lemma_cmp_chars_eq(y, z);
            lemma_cmp_chars_eq(x, z);
        },
        _ => {},
    }
}

proof fn lemma_cmp_locals_from_props(a: Seq<LocalPartV>, b: Seq<LocalPartV>, i: int)
    requires
        0 <= i <= a.len(),
        0 <= i <= b.len(),
    ensures
        -1 <= cmp_locals_from(a, b, i) <= 1,
        cmp_locals_from(a, b, i) == -cmp_locals_from(b, a, i),
        cmp_locals_from(a, b, i) == 0 <==> (a.len() == b.len() && forall|j: int|
            i <= j < a.len() ==> a[j] == b[j]),
    decreases a.len() - i,
{
    if i < a.len() && i < b.len() {
        lemma_cmp_local_part_props(a[i], b[i]);
        lemma_cmp_locals_from_props(a, b, i + 1);
    }
}

proof fn lemma_cmp_locals_from_trans(a: Seq<LocalPartV>, b: Seq<LocalPartV>, c: Seq<LocalPartV>, i: int)
    requires
        0 <= i <= a.len(),
        0 <= i <= b.len(),
        0 <= i <= c.len(),
        cmp_locals_from(a, b, i) <= 0,
        cmp_locals_from(b, c, i) <= 0,
    ensures
        cmp_locals_from(a, c, i) <= 0,
        cmp_locals_from(a, b, i) < 0 || cmp_locals_from(b, c, i) < 0 ==> cmp_locals_from(a, c, i)
            < 0,
    decreases a.len() - i,
{
    if i < a.len() && i < b.len() && i < c.len() && a[i] == b[i] && b[i] == c[i] {
        lemma_cmp_local_part_props(a[i], b[i]);
        lemma_cmp_locals_from_trans(a, b, c, i + 1);
    } else {
        lemma_cmp_locals_from_props(a, b, i);
        lemma_cmp_locals_from_props(b, c, i);
        if i < a.len() && i < b.len() && i < c.len() {
            lemma_cmp_local_part_props(a[i], b[i]);
            lemma_cmp_local_part_props(b[i], c[i]);
            lemma_cmp_local_part_props(a[i], c[i]);
            lemma_cmp_local_part_trans(a[i], b[i], c[i]);
        }
    }
}

proof fn lemma_cmp_locals_eq(a: Seq<LocalPartV>, b: Seq<LocalPartV>)
    ensures
        cmp_locals(a, b) == 0 <==> a == b,
        -1 <= cmp_locals(a, b) <= 1,
        cmp_locals(a, b) == -cmp_locals(b, a),
{
    lemma_cmp_locals_from_props(a, b, 0);
    if cmp_locals(a, b) == 0 {
        assert(a =~= b);
    }
}

proof fn lemma_cmp_seg_props(a: SegKeyV, b: SegKeyV)
    ensures
        -1 <= cmp_seg(a, b) <= 1,
        cmp_seg(a, b) == -cmp_seg(b, a),
        cmp_seg(a, b) == 0 <==> a == b,
{
    match (a, b) {
        (SegKeyV::Val(l1, n1), SegKeyV::Val(l2, n2)) => {
            lemma_cmp_chars_eq(l1, l2);
        },
        _ => {},
    }
}

proof fn lemma_cmp_seg_trans(a: SegKeyV, b: SegKeyV, c: SegKeyV)
    requires
        cmp_seg(a, b) <= 0,
        cmp_seg(b, c) <= 0,
    ensures
        cmp_seg(a, c) <= 0,
        cmp_seg(a, b) < 0 || cmp_seg(b, c) < 0 ==> cmp_seg(a, c) < 0,
{
    match (a, b, c) {
        (SegKeyV::Val(l1, n1), SegKeyV::Val(l2, n2), SegKeyV::Val(l3, n3)) => {
            lemma_cmp_chars_from_trans(l1, l2, l3, 0);
            lemma_cmp_chars_eq(l1, l2);
            lemma_cmp_chars_eq(l2, l3);
            lemma_cmp_chars_eq(l1, l3);
        },
        _ => {},
    }
}

proof fn lemma_cmp_key_props(a: CmpKeyV, b: CmpKeyV)
    ensures
        -1 <= cmp_key(a, b) <= 1,
        cmp_key(a, b) == -cmp_key(b, a),
        cmp_key(a, b) == 0 <==> a == b,
{
    lemma_cmp_nums_eq(a.release, b.release);
    lemma_cmp_seg_props(a.pre, b.pre);
    lemma_cmp_seg_props(a.post, b.post);
    lemma_cmp_seg_props(a.dev, b.dev);
    lemma_cmp_locals_eq(a.local, b.local);
    if cmp_key(a, b) == 0 {
        assert(a =~= b);
    }
}

proof fn lemma_cmp_key_trans(a: CmpKeyV, b: CmpKeyV, c: CmpKeyV)
    requires
        cmp_key(a, b) <= 0,
        cmp_key(b, c) <= 0,
    ensures
        cmp_key(a, c) <= 0,
        cmp_key(a, b) < 0 || cmp_key(b, c) < 0 ==> cmp_key(a, c) < 0,
{
    lemma_cmp_nums_eq(a.release, b.release);
    lemma_cmp_nums_eq(b.release, c.release);
    lemma_cmp_nums_eq(a.release, c.release);
    if cmp_nums(a.release, b.release) <= 0 && cmp_nums(b.release, c.release) <= 0 {
        lemma_cmp_nums_from_trans(a.release, b.release, c.release, 0);
    }
    lemma_cmp_seg_props(a.pre, b.pre);
    lemma_cmp_seg_props(b.pre, c.pre);
    lemma_cmp_seg_props(a.pre, c.pre);
    lemma_cmp_seg_props(a.post, b.post);
    lemma_cmp_seg_props(b.post, c.post);
    lemma_cmp_seg_props(a.post, c.post);
    lemma_cmp_seg_props(a.dev, b.dev);
    lemma_cmp_seg_props(b.dev, c.dev);
    lemma_cmp_seg_props(a.dev, c.dev);
    lemma_cmp_locals_eq(a.local, b.local);
    lemma_cmp_locals_eq(b.local, c.local);
    lemma_cmp_locals_eq(a.local, c.local);
    if cmp_seg(a.pre, b.pre) <= 0 && cmp_seg(b.pre, c.pre) <= 0 {
        lemma_cmp_seg_trans(a.pre, b.pre, c.pre);
    }
    if cmp_seg(a.post, b.post) <= 0 && cmp_seg(b.post, c.post) <= 0 {
        lemma_cmp_seg_trans(a.post, b.post, c.post);
    }
    if cmp_seg(a.dev, b.dev) <= 0 && cmp_seg(b.dev, c.dev) <= 0 {
        lemma_cmp_seg_trans(a.dev, b.dev, c.dev);
    }
    if cmp_locals(a.local, b.local) <= 0 && cmp_locals(b.local, c.local) <= 0 {
        lemma_cmp_locals_from_trans(a.local, b.local, c.local, 0);
    }
}

/// The version order is total: for any two versions exactly one of
/// "less", "equal" and "greater" holds, comparing in either direction gives
/// opposite signs, and two versions compare as equal exactly when their
/// composite ordering keys coincide.
pub proof fn lemma_version_order_trichotomy(a: VersionV, b: VersionV)
    ensures
        ver_cmp(a, b) == -1 || ver_cmp(a, b) == 0 || ver_cmp(a, b) == 1,
        ver_cmp(a, b) == -ver_cmp(b, a),
        ver_cmp(a, b) == 0 <==> key_of(a) == key_of(b),
{
    lemma_cmp_key_props(key_of(a), key_of(b));
}

/// The version order is transitive, and strictly so as soon as one of the
/// two steps is strict.
pub proof fn lemma_version_order_transitive(a: VersionV, b: VersionV, c: VersionV)
    requires
        ver_cmp(a, b) <= 0,
        ver_cmp(b, c) <= 0,
    ensures
        ver_cmp(a, c) <= 0,
        ver_cmp(a, b) < 0 || ver_cmp(b, c) < 0 ==> ver_cmp(a, c) < 0,
{
    lemma_cmp_key_trans(key_of(a), key_of(b), key_of(c));
}

/// A numeric local part always orders above a string local part, whatever
/// the number and whatever the string.
pub proof fn lemma_local_num_above_str(n: u64, s: Seq<char>)
    ensures
        cmp_local_part(LocalPartV::Num(n), LocalPartV::LowerStr(s)) == 1,
        cmp_local_part(LocalPartV::LowerStr(s), LocalPartV::Num(n)) == -1,
{
}

impl Default for Version {
    /// The zero version: epoch 0, empty release, no other segments.
    fn default() -> (r: Self)
        ensures
            r@ == (VersionV {
                epoch: 0,
                release: Seq::empty(),
                pre: None,
                post: None,
                dev: None,
                local: None,
            }),
    {
        let r = Version {
            epoch: 0,
            release: Vec::new(),
            pre: None,
            post: None,
            dev: None,
            local: None,
        };
        proof {
            assert(r@ =~= (VersionV {
                epoch: 0,
                release: Seq::empty(),
                pre: None,
                post: None,
                dev: None,
                local: None,
            }));
        }
        r
    }
}

} // verus!

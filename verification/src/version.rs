//! PEP 440 version model: canonical version strings, total ordering, and
//! operator (specifier) semantics. Versions are kept in canonical form, so a
//! parsed version renders back to exactly the bytes it was parsed from.

use vstd::prelude::*;
use vstd::string::StringSliceAdditionalSpecFns;

use crate::error::HuakError;

verus! {

// ---------------------------------------------------------------------------
// Data model
// ---------------------------------------------------------------------------

/// The phase of a pre-release segment, ordered `a < b < rc`.
#[derive(Clone, Copy, PartialEq, Eq, Structural, Debug)]
pub enum PreKind {
    Alpha,
    Beta,
    ReleaseCandidate,
}

/// A pre-release segment such as `a1`, `b2` or `rc3`.
#[derive(Clone, Copy, PartialEq, Eq, Structural, Debug)]
pub struct PreRelease {
    pub kind: PreKind,
    pub number: u64,
}

/// A PEP 440 version: release segments plus optional pre, post and dev
/// segments and an optional local segment (kept as its ASCII bytes).
/// Immutable once parsed.
#[derive(Debug)]
pub struct Version {
    pub release: Vec<u64>,
    pub pre: Option<PreRelease>,
    pub post: Option<u64>,
    pub dev: Option<u64>,
    pub local: Option<Vec<u8>>,
}

/// The local segment as a ghost sequence, `None` when absent.
pub open spec fn local_view(v: Version) -> Option<Seq<u8>> {
    match v.local {
        None => None,
        Some(l) => Some(l@),
    }
}

/// A byte allowed inside a local segment: lowercase ASCII letters, digits
/// and `.`.
pub open spec fn is_local_byte(b: u8) -> bool {
    (97 <= b && b <= 122) || (48 <= b && b <= 57) || b == 46
}

/// Well-formedness: at least one release segment, and a local segment, when
/// present, is a non-empty run of local bytes.
pub open spec fn wf_version(v: Version) -> bool {
    &&& v.release@.len() >= 1
    &&& match local_view(v) {
        None => true,
        Some(l) => l.len() >= 1 && forall|i: int| 0 <= i < l.len() ==> is_local_byte(l[i]),
    }
}

// ---------------------------------------------------------------------------
// Canonical rendering (version -> bytes)
// ---------------------------------------------------------------------------

/// The decimal digits of `n`, most significant first.
pub open spec fn dec_bytes(n: nat) -> Seq<u8>
    decreases n,
{
    if n < 10 {
        seq![(48 + n) as u8]
    } else {
        dec_bytes(n / 10) + seq![(48 + n % 10) as u8]
    }
}

/// Release segments joined by `.`.
pub open spec fn release_bytes(r: Seq<u64>) -> Seq<u8>
    decreases r.len(),
{
    if r.len() == 0 {
        Seq::empty()
    } else if r.len() == 1 {
        dec_bytes(r[0] as nat)
    } else {
        dec_bytes(r[0] as nat) + seq![46u8] + release_bytes(r.skip(1))
    }
}

/// The canonical spelling of a pre-release phase: `a`, `b` or `rc`.
pub open spec fn kind_bytes(k: PreKind) -> Seq<u8> {
    match k {
        PreKind::Alpha => seq![97u8],
        PreKind::Beta => seq![98u8],
        PreKind::ReleaseCandidate => seq![114u8, 99u8],
    }
}

pub open spec fn pre_bytes(p: Option<PreRelease>) -> Seq<u8> {
    match p {
        None => Seq::empty(),
        Some(pr) => kind_bytes(pr.kind) + dec_bytes(pr.number as nat),
    }
}

pub open spec fn post_bytes(p: Option<u64>) -> Seq<u8> {
    match p {
        None => Seq::empty(),
        // ".post"
        Some(n) => seq![46u8, 112u8, 111u8, 115u8, 116u8] + dec_bytes(n as nat),
    }
}

pub open spec fn dev_bytes(d: Option<u64>) -> Seq<u8> {
    match d {
        None => Seq::empty(),
        // ".dev"
        Some(n) => seq![46u8, 100u8, 101u8, 118u8] + dec_bytes(n as nat),
    }
}

pub open spec fn local_bytes(l: Option<Seq<u8>>) -> Seq<u8> {
    match l {
        None => Seq::empty(),
        // "+"
        Some(x) => seq![43u8] + x,
    }
}

/// The canonical rendering of a version.
pub open spec fn version_bytes(v: Version) -> Seq<u8> {
    release_bytes(v.release@) + pre_bytes(v.pre) + post_bytes(v.post) + dev_bytes(v.dev)
        + local_bytes(local_view(v))
}

// ---------------------------------------------------------------------------
// Grammar scan (bytes -> structure); mirrors the executable parser
// ---------------------------------------------------------------------------

pub open spec fn is_digit(b: u8) -> bool {
    48 <= b && b <= 57
}

pub open spec fn digit_val(b: u8) -> nat {
    if is_digit(b) {
        (b - 48) as nat
    } else {
        0
    }
}

/// First index at or after `i` holding a non-digit (or the end of `s`).
pub open spec fn digit_run_end(s: Seq<u8>, i: int) -> int
    decreases s.len() - i when 0 <= i <= s.len()
{
    if i < s.len() && is_digit(s[i]) {
        digit_run_end(s, i + 1)
    } else {
        i
    }
}

pub proof fn lemma_digit_run_end_bounds(s: Seq<u8>, i: int)
    requires
        0 <= i <= s.len(),
    ensures
        i <= digit_run_end(s, i) <= s.len(),
        forall|k: int| i <= k < digit_run_end(s, i) ==> is_digit(s[k]),
        digit_run_end(s, i) < s.len() ==> !is_digit(s[digit_run_end(s, i)]),
    decreases s.len() - i,
{
    if i < s.len() && is_digit(s[i]) {
        lemma_digit_run_end_bounds(s, i + 1);
    }
}

/// The numeric value of the digits of `s` in `[i, j)`.
pub open spec fn num_val(s: Seq<u8>, i: int, j: int) -> nat
    decreases j - i when i <= j
{
    if j <= i {
        0
    } else {
        num_val(s, i, j - 1) * 10 + digit_val(s[j - 1])
    }
}

/// One canonical numeric group starting at `i`: a non-empty digit run with no
/// leading zero whose value fits in a `u64`. Yields the value and the index
/// just past the run.
pub open spec fn scan_group(s: Seq<u8>, i: int) -> Option<(u64, int)> {
    let j = digit_run_end(s, i);
    if i < j && (j - i == 1 || s[i] != 48) && num_val(s, i, j) <= u64::MAX {
        Some((num_val(s, i, j) as u64, j))
    } else {
        None
    }
}

/// Release segments: numeric groups separated by `.`, where a separator
/// counts only when a digit follows it.
pub open spec fn scan_release(s: Seq<u8>, i: int) -> Option<(Seq<u64>, int)>
    decreases s.len() - i when 0 <= i <= s.len() via scan_release_decreases
{
    match scan_group(s, i) {
        None => None,
        Some((n, j)) => {
            if j < s.len() && s[j] == 46 && j + 1 < s.len() && is_digit(s[j + 1]) {
                match scan_release(s, j + 1) {
                    None => None,
                    Some((rest, e)) => Some((seq![n] + rest, e)),
                }
            } else {
                Some((seq![n], j))
            }
        },
    }
}

#[via_fn]
proof fn scan_release_decreases(s: Seq<u8>, i: int) {
    lemma_digit_run_end_bounds(s, i);
}

/// Optional pre-release segment (`a`, `b` or `rc` plus a numeric group).
pub open spec fn scan_pre(s: Seq<u8>, k: int) -> Option<(Option<PreRelease>, int)> {
    if k < s.len() && (s[k] == 97 || s[k] == 98) {
        let kind = if s[k] == 97 {
            PreKind::Alpha
        } else {
            PreKind::Beta
        };
        match scan_group(s, k + 1) {
            None => None,
            Some((n, j)) => Some((Some(PreRelease { kind, number: n }), j)),
        }
    } else if k + 1 < s.len() && s[k] == 114 && s[k + 1] == 99 {
        match scan_group(s, k + 2) {
            None => None,
            Some((n, j)) => Some((Some(PreRelease { kind: PreKind::ReleaseCandidate, number: n }), j)),
        }
    } else {
        Some((None, k))
    }
}

/// Optional `.post` segment.
pub open spec fn scan_post(s: Seq<u8>, k: int) -> Option<(Option<u64>, int)> {
    if k + 5 <= s.len() && s[k] == 46 && s[k + 1] == 112 && s[k + 2] == 111 && s[k + 3] == 115
        && s[k + 4] == 116 {
        match scan_group(s, k + 5) {
            None => None,
            Some((n, j)) => Some((Some(n), j)),
        }
    } else {
        Some((None, k))
    }
}

/// Optional `.dev` segment.
pub open spec fn scan_dev(s: Seq<u8>, k: int) -> Option<(Option<u64>, int)> {
    if k + 4 <= s.len() && s[k] == 46 && s[k + 1] == 100 && s[k + 2] == 101 && s[k + 3] == 118 {
        match scan_group(s, k + 4) {
            None => None,
            Some((n, j)) => Some((Some(n), j)),
        }
    } else {
        Some((None, k))
    }
}

/// Optional `+local` segment, which always extends to the end of `s`.
pub open spec fn scan_local(s: Seq<u8>, k: int) -> Option<(Option<Seq<u8>>, int)> {
    if k < s.len() && s[k] == 43 {
        let l = s.subrange(k + 1, s.len() as int);
        if l.len() >= 1 && (forall|i: int| 0 <= i < l.len() ==> is_local_byte(l[i])) {
            Some((Some(l), s.len() as int))
        } else {
            None
        }
    } else {
        Some((None, k))
    }
}

/// A whole canonical version string: release, then optional pre, post, dev
/// and local segments, with nothing left over.
pub open spec fn scan_version(s: Seq<u8>) -> Option<
    (Seq<u64>, Option<PreRelease>, Option<u64>, Option<u64>, Option<Seq<u8>>),
> {
    match scan_release(s, 0) {
        None => None,
        Some((rel, k)) => match scan_pre(s, k) {
            None => None,
            Some((pre, k2)) => match scan_post(s, k2) {
                None => None,
                Some((post, k3)) => match scan_dev(s, k3) {
                    None => None,
                    Some((dev, k4)) => match scan_local(s, k4) {
                        None => None,
                        Some((loc, k5)) => {
                            if k5 == s.len() {
                                Some((rel, pre, post, dev, loc))
                            } else {
                                None
                            }
                        },
                    },
                },
            },
        },
    }
}

/// The strings `Version::parse` accepts.
pub open spec fn version_grammar(s: Seq<u8>) -> bool {
    scan_version(s) is Some
}

// ---------------------------------------------------------------------------
// Scanned bytes render back to themselves (parse/print round trip)
// ---------------------------------------------------------------------------

pub proof fn lemma_num_val_monotonic(s: Seq<u8>, i: int, j: int, k: int)
    requires
        i <= j <= k,
    ensures
        num_val(s, i, j) <= num_val(s, i, k),
    decreases k - j,
{
    if j < k {
        lemma_num_val_monotonic(s, i, j, k - 1);
    }
}

pub proof fn lemma_num_val_positive(s: Seq<u8>, i: int, j: int)
    requires
        0 <= i < j <= s.len(),
        forall|k: int| i <= k < j ==> is_digit(s[k]),
        s[i] != 48,
    ensures
        num_val(s, i, j) >= 1,
    decreases j - i,
{
    if j == i + 1 {
        assert(digit_val(s[i]) >= 1);
    } else {
        lemma_num_val_positive(s, i, j - 1);
    }
}

/// A canonical digit run renders back to itself.
pub proof fn lemma_dec_bytes_round(s: Seq<u8>, i: int, j: int)
    requires
        0 <= i < j <= s.len(),
        forall|k: int| i <= k < j ==> is_digit(s[k]),
        j - i == 1 || s[i] != 48,
    ensures
        dec_bytes(num_val(s, i, j)) == s.subrange(i, j),
    decreases j - i,
{
    if j == i + 1 {
        assert(num_val(s, i, i) == 0);
        assert(num_val(s, i, j) == digit_val(s[i]));
        assert(dec_bytes(num_val(s, i, j)) =~= s.subrange(i, j));
    } else {
        let v = num_val(s, i, j - 1);
        let d = digit_val(s[j - 1]);
        let n = num_val(s, i, j);
        assert(n == v * 10 + d);
        lemma_num_val_positive(s, i, j - 1);
        assert(d < 10);
        assert(n >= 10) by {
            assert(v >= 1);
            assert(v * 10 >= 10) by (nonlinear_arith)
                requires
                    v >= 1,
            ;
        }
        vstd::arithmetic::div_mod::lemma_fundamental_div_mod_converse(
            n as int,
            10,
            v as int,
            d as int,
        );
        assert(n / 10 == v);
        assert(n % 10 == d);
        lemma_dec_bytes_round(s, i, j - 1);
        assert(48 + d == s[j - 1]);
        assert(dec_bytes(n) == dec_bytes(v) + seq![s[j - 1]]);
        assert(dec_bytes(n) =~= s.subrange(i, j));
    }
}

pub proof fn lemma_scan_group_render(s: Seq<u8>, i: int)
    requires
        0 <= i <= s.len(),
        scan_group(s, i) is Some,
    ensures
        ({
            let (n, j) = scan_group(s, i)->Some_0;
            &&& i < j <= s.len()
            &&& dec_bytes(n as nat) == s.subrange(i, j)
            &&& forall|k: int| i <= k < j ==> is_digit(s[k])
            &&& j < s.len() ==> !is_digit(s[j])
        }),
{
    lemma_digit_run_end_bounds(s, i);
    let j = digit_run_end(s, i);
    lemma_dec_bytes_round(s, i, j);
}

pub proof fn lemma_scan_release_render(s: Seq<u8>, i: int)
    requires
        0 <= i <= s.len(),
        scan_release(s, i) is Some,
    ensures
        ({
            let (rel, k) = scan_release(s, i)->Some_0;
            &&& i < k <= s.len()
            &&& rel.len() >= 1
            &&& release_bytes(rel) == s.subrange(i, k)
        }),
    decreases s.len() - i,
{
    let (n, j) = scan_group(s, i)->Some_0;
    lemma_scan_group_render(s, i);
    if j < s.len() && s[j] == 46 && j + 1 < s.len() && is_digit(s[j + 1]) {
        lemma_scan_release_render(s, j + 1);
        let (rest, e) = scan_release(s, j + 1)->Some_0;
        let rel = seq![n] + rest;
        assert(rel.len() >= 2);
        assert(rel[0] == n);
        assert(rel.skip(1) =~= rest);
        assert(release_bytes(rel) == dec_bytes(n as nat) + seq![46u8] + release_bytes(rest));
        assert(seq![46u8] =~= s.subrange(j, j + 1));
        assert(release_bytes(rel) =~= s.subrange(i, e));
    } else {
        let rel = seq![n];
        assert(release_bytes(rel) == dec_bytes(rel[0] as nat));
        assert(release_bytes(rel) =~= s.subrange(i, j));
    }
}

pub proof fn lemma_scan_pre_render(s: Seq<u8>, k: int)
    requires
        0 <= k <= s.len(),
        scan_pre(s, k) is Some,
    ensures
        ({
            let (p, k2) = scan_pre(s, k)->Some_0;
            &&& k <= k2 <= s.len()
            &&& pre_bytes(p) == s.subrange(k, k2)
        }),
{
    let (p, k2) = scan_pre(s, k)->Some_0;
    if k < s.len() && (s[k] == 97 || s[k] == 98) {
        lemma_scan_group_render(s, k + 1);
        let (n, j) = scan_group(s, k + 1)->Some_0;
        assert(kind_bytes(p->Some_0.kind) =~= s.subrange(k, k + 1));
        assert(pre_bytes(p) =~= s.subrange(k, k2));
    } else if k + 1 < s.len() && s[k] == 114 && s[k + 1] == 99 {
        lemma_scan_group_render(s, k + 2);
        assert(kind_bytes(PreKind::ReleaseCandidate) =~= s.subrange(k, k + 2));
        assert(pre_bytes(p) =~= s.subrange(k, k2));
    } else {
        assert(pre_bytes(p) =~= s.subrange(k, k));
    }
}

pub proof fn lemma_scan_post_render(s: Seq<u8>, k: int)
    requires
        0 <= k <= s.len(),
        scan_post(s, k) is Some,
    ensures
        ({
            let (p, k2) = scan_post(s, k)->Some_0;
            &&& k <= k2 <= s.len()
            &&& post_bytes(p) == s.subrange(k, k2)
        }),
{
    let (p, k2) = scan_post(s, k)->Some_0;
    if k + 5 <= s.len() && s[k] == 46 && s[k + 1] == 112 && s[k + 2] == 111 && s[k + 3] == 115
        && s[k + 4] == 116 {
        lemma_scan_group_render(s, k + 5);
        assert(seq![46u8, 112u8, 111u8, 115u8, 116u8] =~= s.subrange(k, k + 5));
        assert(post_bytes(p) =~= s.subrange(k, k2));
    } else {
        assert(post_bytes(p) =~= s.subrange(k, k));
    }
}

pub proof fn lemma_scan_dev_render(s: Seq<u8>, k: int)
    requires
        0 <= k <= s.len(),
        scan_dev(s, k) is Some,
    ensures
        ({
            let (d, k2) = scan_dev(s, k)->Some_0;
            &&& k <= k2 <= s.len()
            &&& dev_bytes(d) == s.subrange(k, k2)
        }),
{
    let (d, k2) = scan_dev(s, k)->Some_0;
    if k + 4 <= s.len() && s[k] == 46 && s[k + 1] == 100 && s[k + 2] == 101 && s[k + 3] == 118 {
        lemma_scan_group_render(s, k + 4);
        assert(seq![46u8, 100u8, 101u8, 118u8] =~= s.subrange(k, k + 4));
        assert(dev_bytes(d) =~= s.subrange(k, k2));
    } else {
        assert(dev_bytes(d) =~= s.subrange(k, k));
    }
}

pub proof fn lemma_scan_local_render(s: Seq<u8>, k: int)
    requires
        0 <= k <= s.len(),
        scan_local(s, k) is Some,
    ensures
        ({
            let (l, k2) = scan_local(s, k)->Some_0;
            &&& k <= k2 <= s.len()
            &&& local_bytes(l) == s.subrange(k, k2)
            &&& match l {
                None => true,
                Some(x) => x.len() >= 1 && forall|i: int| 0 <= i < x.len() ==> is_local_byte(x[i]),
            }
        }),
{
    let (l, k2) = scan_local(s, k)->Some_0;
    if k < s.len() && s[k] == 43 {
        assert(seq![43u8] =~= s.subrange(k, k + 1));
        assert(local_bytes(l) =~= s.subrange(k, k2));
    } else {
        assert(local_bytes(l) =~= s.subrange(k, k));
    }
}

// ---------------------------------------------------------------------------
// PEP 440 precedence
// ---------------------------------------------------------------------------

/// Release segment at `i`, zero-padded past the end.
pub open spec fn rel_at(r: Seq<u64>, i: int) -> u64 {
    if 0 <= i < r.len() {
        r[i]
    } else {
        0
    }
}

/// Releases compare element-wise with zero-padding; equality under padding.
pub open spec fn release_equiv(a: Seq<u64>, b: Seq<u64>) -> bool {
    forall|i: int| 0 <= i ==> #[trigger] rel_at(a, i) == rel_at(b, i)
}

/// `i` witnesses that `a` sorts strictly below `b`: the releases agree
/// before `i` and differ there in `a`'s favor.
pub open spec fn rl_wit(a: Seq<u64>, b: Seq<u64>, i: int) -> bool {
    &&& 0 <= i
    &&& rel_at(a, i) < rel_at(b, i)
    &&& forall|j: int| 0 <= j < i ==> #[trigger] rel_at(a, j) == rel_at(b, j)
}

/// Strict zero-padded lexicographic order on releases.
pub open spec fn release_lt(a: Seq<u64>, b: Seq<u64>) -> bool {
    exists|i: int| #[trigger] rl_wit(a, b, i)
}

pub open spec fn kind_rank(k: PreKind) -> int {
    match k {
        PreKind::Alpha => 0,
        PreKind::Beta => 1,
        PreKind::ReleaseCandidate => 2,
    }
}

/// Pre-release key: a pure dev-release sorts before any pre-release, and a
/// final or post-release sorts after every pre-release.
pub open spec fn pre_key(v: Version) -> (int, int, int) {
    match v.pre {
        Some(p) => (1, kind_rank(p.kind), p.number as int),
        None => if v.post is None && v.dev is Some {
            (0, 0, 0)
        } else {
            (2, 0, 0)
        },
    }
}

/// Post-release key: absent sorts first.
pub open spec fn post_key(v: Version) -> (int, int) {
    match v.post {
        Some(n) => (1, n as int),
        None => (0, 0),
    }
}

/// Dev-release key: absent sorts last.
pub open spec fn dev_key(v: Version) -> (int, int) {
    match v.dev {
        Some(n) => (0, n as int),
        None => (1, 0),
    }
}

pub open spec fn triple_lt(a: (int, int, int), b: (int, int, int)) -> bool {
    a.0 < b.0 || (a.0 == b.0 && (a.1 < b.1 || (a.1 == b.1 && a.2 < b.2)))
}

pub open spec fn pair_lt(a: (int, int), b: (int, int)) -> bool {
    a.0 < b.0 || (a.0 == b.0 && a.1 < b.1)
}

/// Strict byte-wise lexicographic order, used for the local tiebreaker.
pub open spec fn bytes_lex_lt(a: Seq<u8>, b: Seq<u8>) -> bool
    decreases a.len(),
{
    if b.len() == 0 {
        false
    } else if a.len() == 0 {
        true
    } else if a[0] < b[0] {
        true
    } else if a[0] > b[0] {
        false
    } else {
        bytes_lex_lt(a.skip(1), b.skip(1))
    }
}

/// A version without a local segment sorts before one with it.
pub open spec fn local_lt(a: Option<Seq<u8>>, b: Option<Seq<u8>>) -> bool {
    match b {
        None => false,
        Some(lb) => match a {
            None => true,
            Some(la) => bytes_lex_lt(la, lb),
        },
    }
}

/// Total equivalence under PEP 440 precedence: zero-padded releases and
/// identical pre, post, dev and local segments.
pub open spec fn version_equiv(a: Version, b: Version) -> bool {
    &&& release_equiv(a.release@, b.release@)
    &&& a.pre == b.pre
    &&& a.post == b.post
    &&& a.dev == b.dev
    &&& local_view(a) == local_view(b)
}

/// Strict PEP 440 precedence: release first, then dev/pre/post placement,
/// with the local segment as the final tiebreaker.
pub open spec fn version_lt(a: Version, b: Version) -> bool {
    ||| release_lt(a.release@, b.release@)
    ||| (release_equiv(a.release@, b.release@) && (triple_lt(pre_key(a), pre_key(b)) || (pre_key(a)
        == pre_key(b) && (pair_lt(post_key(a), post_key(b)) || (post_key(a) == post_key(b) && (
    pair_lt(dev_key(a), dev_key(b)) || (dev_key(a) == dev_key(b) && local_lt(
        local_view(a),
        local_view(b),
    ))))))))
}

/// Any string the grammar accepts is exactly the canonical rendering of the
/// structure the scan yields.
pub proof fn lemma_scan_version_render(s: Seq<u8>)
    requires
        scan_version(s) is Some,
    ensures
        ({
            let (rel, pre, post, dev, loc) = scan_version(s)->Some_0;
            &&& rel.len() >= 1
            &&& release_bytes(rel) + pre_bytes(pre) + post_bytes(post) + dev_bytes(dev)
                + local_bytes(loc) == s
            &&& match loc {
                None => true,
                Some(x) => x.len() >= 1 && forall|i: int| 0 <= i < x.len() ==> is_local_byte(x[i]),
            }
        }),
{
    let (rel, k) = scan_release(s, 0)->Some_0;
    lemma_scan_release_render(s, 0);
    let (pre, k2) = scan_pre(s, k)->Some_0;
    lemma_scan_pre_render(s, k);
    let (post, k3) = scan_post(s, k2)->Some_0;
    lemma_scan_post_render(s, k2);
    let (dev, k4) = scan_dev(s, k3)->Some_0;
    lemma_scan_dev_render(s, k3);
    let (loc, k5) = scan_local(s, k4)->Some_0;
    lemma_scan_local_render(s, k4);
    assert(k5 == s.len());
    assert(release_bytes(rel) + pre_bytes(pre) + post_bytes(post) + dev_bytes(dev) + local_bytes(
        loc,
    ) =~= s);
}

// ---------------------------------------------------------------------------
// Version operators
// ---------------------------------------------------------------------------

/// A PEP 440 comparison operator of a version specifier.
#[derive(Clone, Copy, PartialEq, Eq, Structural, Debug, Hash)]
pub enum VersionOperator {
    /// `==`: equality under PEP 440 precedence (releases zero-padded).
    Equal,
    /// `===`: arbitrary equality, segment for segment without padding.
    ExactEqual,
    /// `!=`
    NotEqual,
    /// `~=`: compatible release.
    TildeEqual,
    /// `<`
    LessThan,
    /// `<=`
    LessThanEqual,
    /// `>`
    GreaterThan,
    /// `>=`
    GreaterThanEqual,
}

/// The spelling of each operator.
pub open spec fn op_bytes(op: VersionOperator) -> Seq<u8> {
    match op {
        VersionOperator::Equal => seq![61u8, 61u8],
        VersionOperator::ExactEqual => seq![61u8, 61u8, 61u8],
        VersionOperator::NotEqual => seq![33u8, 61u8],
        VersionOperator::TildeEqual => seq![126u8, 61u8],
        VersionOperator::LessThan => seq![60u8],
        VersionOperator::LessThanEqual => seq![60u8, 61u8],
        VersionOperator::GreaterThan => seq![62u8],
        VersionOperator::GreaterThanEqual => seq![62u8, 61u8],
    }
}

/// Segment-for-segment equality without zero-padding; what `===` means for
/// versions kept in canonical form.
pub open spec fn version_exact_eq(a: Version, b: Version) -> bool {
    &&& a.release@ == b.release@
    &&& a.pre == b.pre
    &&& a.post == b.post
    &&& a.dev == b.dev
    &&& local_view(a) == local_view(b)
}

/// `i` witnesses that `v`'s release leaves the constraint's kept prefix
/// downward before its last position.
pub open spec fn cb_wit(v: Seq<u64>, c: Seq<u64>, i: int) -> bool {
    &&& 0 <= i < c.len() - 2
    &&& rel_at(v, i) < rel_at(c, i)
    &&& forall|j: int| 0 <= j < i ==> #[trigger] rel_at(v, j) == rel_at(c, j)
}

/// The compatible-release upper bound: `v`'s release lies below the
/// constraint's release with its second-to-last segment bumped (the lower
/// bound `>= c` is handled separately). Meaningful when `c` has at least two
/// release segments.
pub open spec fn compat_below(v: Seq<u64>, c: Seq<u64>) -> bool {
    let n = c.len() as int;
    ||| exists|i: int| #[trigger] cb_wit(v, c, i)
    ||| ((forall|j: int| 0 <= j < n - 2 ==> #[trigger] rel_at(v, j) == rel_at(c, j)) && rel_at(
        v,
        n - 2,
    ) <= rel_at(c, n - 2))
}

/// What `satisfies(version, operator, constraint)` decides.
pub open spec fn spec_satisfies(v: Version, op: VersionOperator, c: Version) -> bool {
    match op {
        VersionOperator::Equal => version_equiv(v, c),
        VersionOperator::ExactEqual => version_exact_eq(v, c),
        VersionOperator::NotEqual => !version_equiv(v, c),
        VersionOperator::TildeEqual => c.release@.len() >= 2 && (version_lt(c, v) || version_equiv(
            v,
            c,
        )) && compat_below(v.release@, c.release@),
        VersionOperator::LessThan => version_lt(v, c),
        VersionOperator::LessThanEqual => version_lt(v, c) || version_equiv(v, c),
        VersionOperator::GreaterThan => version_lt(c, v),
        VersionOperator::GreaterThanEqual => version_lt(c, v) || version_equiv(v, c),
    }
}

// ---------------------------------------------------------------------------
// Canonical renderings are ASCII
// ---------------------------------------------------------------------------

/// Every byte is seven-bit, so the sequence names an ASCII string.
pub open spec fn ascii_bytes(s: Seq<u8>) -> bool {
    forall|i: int| 0 <= i < s.len() ==> s[i] < 128
}

pub proof fn lemma_dec_bytes_ascii(n: nat)
    ensures
        ascii_bytes(dec_bytes(n)),
        dec_bytes(n).len() >= 1,
    decreases n,
{
    if n >= 10 {
        lemma_dec_bytes_ascii(n / 10);
    }
}

pub proof fn lemma_release_bytes_ascii(r: Seq<u64>)
    ensures
        ascii_bytes(release_bytes(r)),
    decreases r.len(),
{
    if r.len() == 1 {
        lemma_dec_bytes_ascii(r[0] as nat);
    } else if r.len() > 1 {
        lemma_dec_bytes_ascii(r[0] as nat);
        lemma_release_bytes_ascii(r.skip(1));
    }
}

pub proof fn lemma_version_bytes_ascii(v: Version)
    requires
        wf_version(v),
    ensures
        ascii_bytes(version_bytes(v)),
{
    lemma_release_bytes_ascii(v.release@);
    match v.pre {
        Some(p) => lemma_dec_bytes_ascii(p.number as nat),
        None => (),
    }
    match v.post {
        Some(n) => lemma_dec_bytes_ascii(n as nat),
        None => (),
    }
    match v.dev {
        Some(n) => lemma_dec_bytes_ascii(n as nat),
        None => (),
    }
}

/// Accepted version strings hold only ASCII bytes.
pub proof fn lemma_version_grammar_ascii(s: Seq<u8>)
    requires
        version_grammar(s),
    ensures
        ascii_bytes(s),
{
    lemma_scan_version_render(s);
    let (rel, pre, post, dev, loc) = scan_version(s)->Some_0;
    lemma_release_bytes_ascii(rel);
    match pre {
        Some(p) => lemma_dec_bytes_ascii(p.number as nat),
        None => (),
    }
    match post {
        Some(n) => lemma_dec_bytes_ascii(n as nat),
        None => (),
    }
    match dev {
        Some(n) => lemma_dec_bytes_ascii(n as nat),
        None => (),
    }
    let a = release_bytes(rel);
    let b = pre_bytes(pre);
    let c = post_bytes(post);
    let d = dev_bytes(dev);
    let e = local_bytes(loc);
    assert forall|i: int| 0 <= i < s.len() implies #[trigger] s[i] < 128 by {
        assert(s[i] == (a + b + c + d + e)[i]);
        if i < a.len() {
            assert(s[i] == a[i]);
        } else if i < a.len() + b.len() {
            assert(s[i] == b[i - a.len()]);
        } else if i < a.len() + b.len() + c.len() {
            assert(s[i] == c[i - a.len() - b.len()]);
        } else if i < a.len() + b.len() + c.len() + d.len() {
            assert(s[i] == d[i - a.len() - b.len() - c.len()]);
        } else {
            assert(s[i] == e[i - a.len() - b.len() - c.len() - d.len()]);
        }
    }
}

// ---------------------------------------------------------------------------
// Executable parser
// ---------------------------------------------------------------------------

/// One canonical numeric group starting at `i`, per `scan_group`.
pub(crate) fn parse_group(bytes: &[u8], i: usize) -> (r: Option<(u64, usize)>)
    requires
        i <= bytes@.len(),
    ensures
        match scan_group(bytes@, i as int) {
            Some((n, j)) => r matches Some((rn, rj)) && rn == n && rj as int == j,
            None => r is None,
        },
{
    let ghost s = bytes@;
    let len = bytes.len();
    let mut j = i;
    while j < len && 48 <= bytes[j] && bytes[j] <= 57
        invariant
            i <= j <= len,
            len == s.len(),
            s == bytes@,
            digit_run_end(s, i as int) == digit_run_end(s, j as int),
        decreases len - j,
    {
        j = j + 1;
    }
    assert(digit_run_end(s, i as int) == j as int);
    proof {
        lemma_digit_run_end_bounds(s, i as int);
    }
    if j == i {
        return None;
    }
    if j - i > 1 && bytes[i] == 48 {
        return None;
    }
    let mut val: u64 = 0;
    let mut k = i;
    while k < j
        invariant
            i <= k <= j <= len,
            len == s.len(),
            s == bytes@,
            digit_run_end(s, i as int) == j as int,
            forall|m: int| i <= m < j ==> is_digit(s[m]),
            val == num_val(s, i as int, k as int),
        decreases j - k,
    {
        let d: u8 = bytes[k] - 48;
        proof {
            vstd::arithmetic::div_mod::lemma_fundamental_div_mod(
                (u64::MAX - d) as int,
                10,
            );
        }
        if val > (u64::MAX - d as u64) / 10 {
            proof {
                assert(val * 10 + d > u64::MAX);
                assert(digit_val(s[k as int]) == d);
                assert(num_val(s, i as int, k as int + 1) == val * 10 + d);
                lemma_num_val_monotonic(s, i as int, k as int + 1, j as int);
                assert(num_val(s, i as int, j as int) > u64::MAX);
                assert(scan_group(s, i as int) is None);
            }
            return None;
        }
        assert(val * 10 + d <= u64::MAX);
        val = val * 10 + d as u64;
        k = k + 1;
    }
    Some((val, j))
}

/// Release segments from `i`, per `scan_release`.
pub(crate) fn parse_release(bytes: &[u8], i: usize) -> (r: Option<(Vec<u64>, usize)>)
    requires
        i <= bytes@.len(),
    ensures
        match scan_release(bytes@, i as int) {
            Some((rel, k)) => r matches Some((v, rk)) && v@ == rel && rk as int == k,
            None => r is None,
        },
    decreases bytes@.len() - i,
{
    match parse_group(bytes, i) {
        None => None,
        Some((n, j)) => {
            if j < bytes.len() && bytes[j] == 46 && j + 1 < bytes.len() && 48 <= bytes[j + 1]
                && bytes[j + 1] <= 57 {
                match parse_release(bytes, j + 1) {
                    None => None,
                    Some((mut rest, e)) => {
                        rest.insert(0, n);
                        proof {
                            let (rel, k) = scan_release(bytes@, i as int)->Some_0;
                            assert(rest@ =~= rel);
                        }
                        Some((rest, e))
                    },
                }
            } else {
                let mut v: Vec<u64> = Vec::new();
                v.push(n);
                proof {
                    let (rel, k) = scan_release(bytes@, i as int)->Some_0;
                    assert(v@ =~= rel);
                }
                Some((v, j))
            }
        },
    }
}

/// Optional pre-release segment at `k`, per `scan_pre`.
fn parse_pre(bytes: &[u8], k: usize) -> (r: Option<(Option<PreRelease>, usize)>)
    requires
        k <= bytes@.len(),
    ensures
        match scan_pre(bytes@, k as int) {
            Some((p, j)) => r matches Some((rp, rj)) && rp == p && rj as int == j,
            None => r is None,
        },
{
    let len = bytes.len();
    if k < len && (bytes[k] == 97 || bytes[k] == 98) {
        let kind = if bytes[k] == 97 {
            PreKind::Alpha
        } else {
            PreKind::Beta
        };
        match parse_group(bytes, k + 1) {
            None => None,
            Some((n, j)) => Some((Some(PreRelease { kind, number: n }), j)),
        }
    } else if k < len && bytes[k] == 114 && k + 1 < len && bytes[k + 1] == 99 {
        match parse_group(bytes, k + 2) {
            None => None,
            Some((n, j)) => Some((Some(PreRelease { kind: PreKind::ReleaseCandidate, number: n }), j)),
        }
    } else {
        Some((None, k))
    }
}

/// Optional `.post` segment at `k`, per `scan_post`.
fn parse_post(bytes: &[u8], k: usize) -> (r: Option<(Option<u64>, usize)>)
    requires
        k <= bytes@.len(),
    ensures
        match scan_post(bytes@, k as int) {
            Some((p, j)) => r matches Some((rp, rj)) && rp == p && rj as int == j,
            None => r is None,
        },
{
    let len = bytes.len();
    if k < len && len - k >= 5 && bytes[k] == 46 && bytes[k + 1] == 112 && bytes[k + 2] == 111
        && bytes[k + 3] == 115 && bytes[k + 4] == 116 {
        match parse_group(bytes, k + 5) {
            None => None,
            Some((n, j)) => Some((Some(n), j)),
        }
    } else {
        Some((None, k))
    }
}

/// Optional `.dev` segment at `k`, per `scan_dev`.
fn parse_dev(bytes: &[u8], k: usize) -> (r: Option<(Option<u64>, usize)>)
    requires
        k <= bytes@.len(),
    ensures
        match scan_dev(bytes@, k as int) {
            Some((p, j)) => r matches Some((rp, rj)) && rp == p && rj as int == j,
            None => r is None,
        },
{
    let len = bytes.len();
    if k < len && len - k >= 4 && bytes[k] == 46 && bytes[k + 1] == 100 && bytes[k + 2] == 101
        && bytes[k + 3] == 118 {
        match parse_group(bytes, k + 4) {
            None => None,
            Some((n, j)) => Some((Some(n), j)),
        }
    } else {
        Some((None, k))
    }
}

/// Optional `+local` segment at `k`, per `scan_local`.
fn parse_local(bytes: &[u8], k: usize) -> (r: Option<(Option<Vec<u8>>, usize)>)
    requires
        k <= bytes@.len(),
    ensures
        match scan_local(bytes@, k as int) {
            Some((l, j)) => r matches Some((rl, rj)) && rj as int == j && (match (rl, l) {
                (Some(rv), Some(lv)) => rv@ == lv,
                (None, None) => true,
                _ => false,
            }),
            None => r is None,
        },
{
    let ghost s = bytes@;
    let len = bytes.len();
    if k < len && bytes[k] == 43 {
        if len - k < 2 {
            return None;
        }
        let mut m = k + 1;
        while m < len
            invariant
                k + 1 <= m <= len,
                len == s.len(),
                s == bytes@,
                k < len,
                s[k as int] == 43,
                forall|q: int| k + 1 <= q < m ==> is_local_byte(s[q]),
            decreases len - m,
        {
            let b = bytes[m];
            if !((97 <= b && b <= 122) || (48 <= b && b <= 57) || b == 46) {
                proof {
                    let l = s.subrange(k as int + 1, s.len() as int);
                    let idx = m as int - (k as int + 1);
                    assert(0 <= idx < l.len());
                    assert(l[idx] == s[m as int]);
                    assert(!is_local_byte(l[idx]));
                    assert(!(forall|q: int| 0 <= q < l.len() ==> is_local_byte(l[q]))) by {
                        if (forall|q: int| 0 <= q < l.len() ==> is_local_byte(l[q])) {
                            assert(is_local_byte(l[idx]));
                        }
                    };
                    assert(scan_local(s, k as int) is None);
                }
                return None;
            }
            m = m + 1;
        }
        let l = vstd::slice::slice_to_vec(vstd::slice::slice_subrange(bytes, k + 1, len));
        proof {
            let lv = s.subrange(k as int + 1, s.len() as int);
            assert(forall|q: int| 0 <= q < lv.len() ==> is_local_byte(#[trigger] lv[q]));
        }
        Some((Some(l), len))
    } else {
        Some((None, k))
    }
}

// ---------------------------------------------------------------------------
// Executable rendering
// ---------------------------------------------------------------------------

/// The characters an ASCII byte sequence spells.
pub open spec fn ascii_view(s: Seq<u8>) -> Seq<char> {
    s.map_values(|b: u8| b as char)
}

/// Relies on `String::from_utf8`: bytes below 0x80 decode to one ASCII
/// character each, so the result spells exactly the given bytes.
#[verifier::external_body]
pub(crate) fn ascii_to_string(bytes: Vec<u8>) -> (r: String)
    requires
        ascii_bytes(bytes@),
    ensures
        r@ == ascii_view(bytes@),
{
    match String::from_utf8(bytes) {
        Ok(s) => s,
        Err(_) => String::new(),
    }
}

/// Append the decimal digits of `n`.
pub(crate) fn push_dec(out: &mut Vec<u8>, n: u64)
    ensures
        final(out)@ == old(out)@ + dec_bytes(n as nat),
    decreases n,
{
    if n >= 10 {
        push_dec(out, n / 10);
    }
    let d: u8 = (n % 10) as u8 + 48;
    out.push(d);
    proof {
        if n < 10 {
            assert(out@ =~= old(out)@ + dec_bytes(n as nat));
        } else {
            assert(out@ =~= old(out)@ + dec_bytes(n as nat));
        }
    }
}

/// Append the release segments from `i` on, joined by `.`.
fn push_release_from(out: &mut Vec<u8>, rel: &Vec<u64>, i: usize)
    requires
        i < rel@.len(),
    ensures
        final(out)@ == old(out)@ + release_bytes(rel@.skip(i as int)),
    decreases rel@.len() - i,
{
    let n = rel.len();
    push_dec(out, rel[i]);
    if i + 1 < n {
        out.push(46);
        push_release_from(out, rel, i + 1);
        proof {
            let tail = rel@.skip(i as int);
            assert(tail[0] == rel@[i as int]);
            assert(tail.skip(1) =~= rel@.skip(i as int + 1));
            assert(out@ =~= old(out)@ + release_bytes(tail));
        }
    } else {
        proof {
            let tail = rel@.skip(i as int);
            assert(tail.len() == 1);
            assert(tail[0] == rel@[i as int]);
            assert(out@ =~= old(out)@ + release_bytes(tail));
        }
    }
}

/// Append a pre-release segment's canonical bytes, if any.
fn push_pre(out: &mut Vec<u8>, pre: Option<PreRelease>)
    ensures
        final(out)@ == old(out)@ + pre_bytes(pre),
{
    match pre {
        Some(p) => {
            match p.kind {
                PreKind::Alpha => out.push(97),
                PreKind::Beta => out.push(98),
                PreKind::ReleaseCandidate => {
                    out.push(114);
                    out.push(99);
                },
            }
            push_dec(out, p.number);
            proof {
                assert(out@ =~= old(out)@ + pre_bytes(pre));
            }
        },
        None => {
            proof {
                assert(out@ =~= old(out)@ + pre_bytes(pre));
            }
        },
    }
}

/// Append a `.post` segment's canonical bytes, if any.
fn push_post(out: &mut Vec<u8>, post: Option<u64>)
    ensures
        final(out)@ == old(out)@ + post_bytes(post),
{
    match post {
        Some(n) => {
            out.push(46);
            out.push(112);
            out.push(111);
            out.push(115);
            out.push(116);
            push_dec(out, n);
            proof {
                assert(out@ =~= old(out)@ + post_bytes(post));
            }
        },
        None => {
            proof {
                assert(out@ =~= old(out)@ + post_bytes(post));
            }
        },
    }
}

/// Append a `.dev` segment's canonical bytes, if any.
fn push_dev(out: &mut Vec<u8>, dev: Option<u64>)
    ensures
        final(out)@ == old(out)@ + dev_bytes(dev),
{
    match dev {
        Some(n) => {
            out.push(46);
            out.push(100);
            out.push(101);
            out.push(118);
            push_dec(out, n);
            proof {
                assert(out@ =~= old(out)@ + dev_bytes(dev));
            }
        },
        None => {
            proof {
                assert(out@ =~= old(out)@ + dev_bytes(dev));
            }
        },
    }
}

/// Append a `+local` segment's bytes, if any.
fn push_local(out: &mut Vec<u8>, local: &Option<Vec<u8>>)
    ensures
        final(out)@ == old(out)@ + local_bytes(
            match *local {
                None => None,
                Some(l) => Some(l@),
            },
        ),
{
    match local {
        Some(l) => {
            out.push(43);
            let n = l.len();
            let mut q: usize = 0;
            while q < n
                invariant
                    q <= n,
                    n == l@.len(),
                    out@ == old(out)@ + seq![43u8] + l@.subrange(0, q as int),
                decreases n - q,
            {
                out.push(l[q]);
                proof {
                    assert(out@ =~= old(out)@ + seq![43u8] + l@.subrange(0, q as int + 1));
                }
                q = q + 1;
            }
            proof {
                assert(l@.subrange(0, l@.len() as int) =~= l@);
                assert(out@ =~= old(out)@ + (seq![43u8] + l@));
            }
        },
        None => {
            proof {
                assert(out@ =~= old(out)@ + Seq::<u8>::empty());
            }
        },
    }
}

impl Version {
    /// Parse a canonical PEP 440 version string. Succeeds exactly on the
    /// strings of `version_grammar`, and the parsed value renders back to the
    /// input byte for byte, which pins the result down.
    pub fn parse(s: &str) -> (r: Result<Version, HuakError>)
        ensures
            r is Ok <==> version_grammar(s.spec_bytes()),
            r matches Ok(v) ==> wf_version(v) && version_bytes(v) == s.spec_bytes(),
            r matches Err(e) ==> (e matches HuakError::VersionParseError { input } && input@
                == s@),
    {
        let bytes = s.as_bytes();
        match Self::parse_bytes(bytes) {
            Some(v) => Ok(v),
            None => Err(HuakError::VersionParseError { input: s.to_owned() }),
        }
    }

    /// Parse a canonical version from raw bytes.
    pub(crate) fn parse_bytes(bytes: &[u8]) -> (r: Option<Version>)
        ensures
            r is Some <==> version_grammar(bytes@),
            r matches Some(v) ==> wf_version(v) && version_bytes(v) == bytes@,
    {
        let ghost s = bytes@;
        let (release, k) = match parse_release(bytes, 0) {
            None => {
                return None;
            },
            Some(x) => x,
        };
        proof {
            lemma_scan_release_render(s, 0);
        }
        let (pre, k2) = match parse_pre(bytes, k) {
            None => {
                return None;
            },
            Some(x) => x,
        };
        proof {
            lemma_scan_pre_render(s, k as int);
        }
        let (post, k3) = match parse_post(bytes, k2) {
            None => {
                return None;
            },
            Some(x) => x,
        };
        proof {
            lemma_scan_post_render(s, k2 as int);
        }
        let (dev, k4) = match parse_dev(bytes, k3) {
            None => {
                return None;
            },
            Some(x) => x,
        };
        proof {
            lemma_scan_dev_render(s, k3 as int);
        }
        let (local, k5) = match parse_local(bytes, k4) {
            None => {
                return None;
            },
            Some(x) => x,
        };
        if k5 != bytes.len() {
            return None;
        }
        let v = Version { release, pre, post, dev, local };
        proof {
            lemma_scan_version_render(s);
            let (rel, pre_s, post_s, dev_s, loc_s) = scan_version(s)->Some_0;
            assert(v.release@ == rel);
            assert(local_view(v) == loc_s);
        }
        Some(v)
    }

    /// Append this version's canonical bytes.
    pub(crate) fn push_bytes(&self, out: &mut Vec<u8>)
        requires
            wf_version(*self),
        ensures
            final(out)@ == old(out)@ + version_bytes(*self),
    {
        push_release_from(out, &self.release, 0);
        proof {
            assert(self.release@.skip(0) =~= self.release@);
        }
        push_pre(out, self.pre);
        push_post(out, self.post);
        push_dev(out, self.dev);
        push_local(out, &self.local);
        proof {
            assert(old(out)@ + release_bytes(self.release@) + pre_bytes(self.pre) + post_bytes(
                self.post,
            ) + dev_bytes(self.dev) + local_bytes(local_view(*self)) =~= old(out)@ + version_bytes(
                *self,
            ));
        }
    }

    /// The canonical string of this version, e.g. `1.2.0rc1.post3+local`.
    pub fn version_str(&self) -> (r: String)
        requires
            wf_version(*self),
        ensures
            r@ == ascii_view(version_bytes(*self)),
    {
        let mut out: Vec<u8> = Vec::new();
        self.push_bytes(&mut out);
        proof {
            lemma_version_bytes_ascii(*self);
            assert(out@ =~= version_bytes(*self));
        }
        ascii_to_string(out)
    }
}

// ---------------------------------------------------------------------------
// Executable comparison
// ---------------------------------------------------------------------------

proof fn lemma_release_lt_from_point(a: Seq<u64>, b: Seq<u64>, i: int)
    requires
        0 <= i,
        rel_at(a, i) < rel_at(b, i),
        forall|j: int| 0 <= j < i ==> #[trigger] rel_at(a, j) == rel_at(b, j),
    ensures
        release_lt(a, b),
        !release_lt(b, a),
        !release_equiv(a, b),
{
    assert(rl_wit(a, b, i));
    assert(release_lt(a, b));
    if release_lt(b, a) {
        let w = choose|w: int| #[trigger] rl_wit(b, a, w);
        if w < i {
            assert(rel_at(a, w) == rel_at(b, w));
        } else if w > i {
            assert(rel_at(b, i) == rel_at(a, i));
        }
        assert(false);
    }
}

proof fn lemma_release_equiv_from_prefix(a: Seq<u64>, b: Seq<u64>, n: int)
    requires
        n >= a.len(),
        n >= b.len(),
        forall|j: int| 0 <= j < n ==> #[trigger] rel_at(a, j) == rel_at(b, j),
    ensures
        release_equiv(a, b),
        !release_lt(a, b),
        !release_lt(b, a),
{
    assert forall|i: int| 0 <= i implies #[trigger] rel_at(a, i) == rel_at(b, i) by {
        if i >= n {
            assert(rel_at(a, i) == 0);
            assert(rel_at(b, i) == 0);
        }
    }
    if release_lt(a, b) {
        let w = choose|w: int| #[trigger] rl_wit(a, b, w);
        assert(rel_at(a, w) == rel_at(b, w));
        assert(false);
    }
    if release_lt(b, a) {
        let w = choose|w: int| #[trigger] rl_wit(b, a, w);
        assert(rel_at(a, w) == rel_at(b, w));
        assert(false);
    }
}

/// Zero-padded element-wise comparison of release sequences.
fn release_cmp(a: &Vec<u64>, b: &Vec<u64>) -> (r: core::cmp::Ordering)
    ensures
        r == core::cmp::Ordering::Less <==> release_lt(a@, b@),
        r == core::cmp::Ordering::Greater <==> release_lt(b@, a@),
        r == core::cmp::Ordering::Equal <==> release_equiv(a@, b@),
{
    let alen = a.len();
    let blen = b.len();
    let n = if alen > blen {
        alen
    } else {
        blen
    };
    let mut i: usize = 0;
    while i < n
        invariant
            i <= n,
            n >= a@.len(),
            n >= b@.len(),
            alen == a@.len(),
            blen == b@.len(),
            forall|j: int| 0 <= j < i ==> #[trigger] rel_at(a@, j) == rel_at(b@, j),
        decreases n - i,
    {
        let av: u64 = if i < alen {
            a[i]
        } else {
            0
        };
        let bv: u64 = if i < blen {
            b[i]
        } else {
            0
        };
        assert(av == rel_at(a@, i as int));
        assert(bv == rel_at(b@, i as int));
        if av < bv {
            proof {
                lemma_release_lt_from_point(a@, b@, i as int);
            }
            return core::cmp::Ordering::Less;
        }
        if av > bv {
            proof {
                lemma_release_lt_from_point(b@, a@, i as int);
            }
            return core::cmp::Ordering::Greater;
        }
        i = i + 1;
    }
    proof {
        lemma_release_equiv_from_prefix(a@, b@, n as int);
    }
    core::cmp::Ordering::Equal
}

proof fn lemma_lex_skip(a: Seq<u8>, b: Seq<u8>, i: int)
    requires
        0 <= i <= a.len(),
        i <= b.len(),
        forall|j: int| 0 <= j < i ==> a[j] == b[j],
    ensures
        bytes_lex_lt(a, b) == bytes_lex_lt(a.skip(i), b.skip(i)),
    decreases i,
{
    if i == 0 {
        assert(a.skip(0) =~= a);
        assert(b.skip(0) =~= b);
    } else {
        assert(a.len() > 0 && b.len() > 0 && a[0] == b[0]);
        assert(bytes_lex_lt(a, b) == bytes_lex_lt(a.skip(1), b.skip(1)));
        assert(forall|j: int| 0 <= j < i - 1 ==> a.skip(1)[j] == b.skip(1)[j]);
        lemma_lex_skip(a.skip(1), b.skip(1), i - 1);
        assert(a.skip(1).skip(i - 1) =~= a.skip(i));
        assert(b.skip(1).skip(i - 1) =~= b.skip(i));
    }
}

/// Byte-wise lexicographic comparison.
fn bytes_cmp(x: &Vec<u8>, y: &Vec<u8>) -> (r: core::cmp::Ordering)
    ensures
        r == core::cmp::Ordering::Less <==> bytes_lex_lt(x@, y@),
        r == core::cmp::Ordering::Greater <==> bytes_lex_lt(y@, x@),
        r == core::cmp::Ordering::Equal <==> x@ == y@,
{
    let xlen = x.len();
    let ylen = y.len();
    let mut i: usize = 0;
    while i < xlen && i < ylen
        invariant
            i <= xlen,
            i <= ylen,
            xlen == x@.len(),
            ylen == y@.len(),
            forall|j: int| 0 <= j < i ==> x@[j] == y@[j],
        decreases xlen - i,
    {
        let xv = x[i];
        let yv = y[i];
        if xv < yv {
            proof {
                lemma_lex_skip(x@, y@, i as int);
                lemma_lex_skip(y@, x@, i as int);
                assert(x@.skip(i as int)[0] == xv);
                assert(y@.skip(i as int)[0] == yv);
                assert(bytes_lex_lt(x@.skip(i as int), y@.skip(i as int)));
                assert(!bytes_lex_lt(y@.skip(i as int), x@.skip(i as int)));
                assert(x@[i as int] != y@[i as int]);
            }
            return core::cmp::Ordering::Less;
        }
        if xv > yv {
            proof {
                lemma_lex_skip(x@, y@, i as int);
                lemma_lex_skip(y@, x@, i as int);
                assert(x@.skip(i as int)[0] == xv);
                assert(y@.skip(i as int)[0] == yv);
                assert(bytes_lex_lt(y@.skip(i as int), x@.skip(i as int)));
                assert(!bytes_lex_lt(x@.skip(i as int), y@.skip(i as int)));
                assert(x@[i as int] != y@[i as int]);
            }
            return core::cmp::Ordering::Greater;
        }
        i = i + 1;
    }
    proof {
        lemma_lex_skip(x@, y@, i as int);
        lemma_lex_skip(y@, x@, i as int);
    }
    if xlen < ylen {
        proof {
            assert(x@.skip(i as int).len() == 0);
            assert(y@.skip(i as int).len() > 0);
            assert(x@.len() != y@.len());
        }
        core::cmp::Ordering::Less
    } else if xlen > ylen {
        proof {
            assert(y@.skip(i as int).len() == 0);
            assert(x@.skip(i as int).len() > 0);
            assert(x@.len() != y@.len());
        }
        core::cmp::Ordering::Greater
    } else {
        proof {
            assert(x@.skip(i as int).len() == 0);
            assert(y@.skip(i as int).len() == 0);
            assert(x@ =~= y@);
        }
        core::cmp::Ordering::Equal
    }
}

/// Comparison of optional local segments: absent sorts first, then bytes.
fn local_cmp(a: &Option<Vec<u8>>, b: &Option<Vec<u8>>) -> (r: core::cmp::Ordering)
    ensures
        ({
            let av = match *a {
                None => None,
                Some(ref l) => Some(l@),
            };
            let bv = match *b {
                None => None,
                Some(ref l) => Some(l@),
            };
            &&& (r == core::cmp::Ordering::Less <==> local_lt(av, bv))
            &&& (r == core::cmp::Ordering::Greater <==> local_lt(bv, av))
            &&& (r == core::cmp::Ordering::Equal <==> av == bv)
        }),
{
    match (a, b) {
        (None, None) => core::cmp::Ordering::Equal,
        (None, Some(_)) => core::cmp::Ordering::Less,
        (Some(_), None) => core::cmp::Ordering::Greater,
        (Some(x), Some(y)) => bytes_cmp(x, y),
    }
}

/// The pre-release placement key of a version, per `pre_key`.
fn pre_key_exec(v: &Version) -> (r: (u8, u8, u64))
    ensures
        (r.0 as int, r.1 as int, r.2 as int) == pre_key(*v),
{
    match v.pre {
        Some(p) => {
            let kr: u8 = match p.kind {
                PreKind::Alpha => 0,
                PreKind::Beta => 1,
                PreKind::ReleaseCandidate => 2,
            };
            (1, kr, p.number)
        },
        None => {
            if v.post.is_none() && v.dev.is_some() {
                (0, 0, 0)
            } else {
                (2, 0, 0)
            }
        },
    }
}

/// The post-release key of a version, per `post_key`.
fn post_key_exec(v: &Version) -> (r: (u8, u64))
    ensures
        (r.0 as int, r.1 as int) == post_key(*v),
{
    match v.post {
        Some(n) => (1, n),
        None => (0, 0),
    }
}

/// The dev-release key of a version, per `dev_key`.
fn dev_key_exec(v: &Version) -> (r: (u8, u64))
    ensures
        (r.0 as int, r.1 as int) == dev_key(*v),
{
    match v.dev {
        Some(n) => (0, n),
        None => (1, 0),
    }
}

impl Version {
    /// Total order per PEP 440 precedence: releases compare element-wise with
    /// zero-padding; within one release, dev-releases sort before
    /// pre-releases, which sort before the final release, which sorts before
    /// post-releases; the local segment is the last tiebreaker.
    pub fn compare(&self, other: &Version) -> (r: core::cmp::Ordering)
        ensures
            r == core::cmp::Ordering::Less <==> version_lt(*self, *other),
            r == core::cmp::Ordering::Greater <==> version_lt(*other, *self),
            r == core::cmp::Ordering::Equal <==> version_equiv(*self, *other),
    {
        match release_cmp(&self.release, &other.release) {
            core::cmp::Ordering::Less => core::cmp::Ordering::Less,
            core::cmp::Ordering::Greater => core::cmp::Ordering::Greater,
            core::cmp::Ordering::Equal => {
                let (a0, a1, a2) = pre_key_exec(self);
                let (b0, b1, b2) = pre_key_exec(other);
                if a0 < b0 || (a0 == b0 && (a1 < b1 || (a1 == b1 && a2 < b2))) {
                    core::cmp::Ordering::Less
                } else if b0 < a0 || (a0 == b0 && (b1 < a1 || (a1 == b1 && b2 < a2))) {
                    core::cmp::Ordering::Greater
                } else {
                    let (p0, p1) = post_key_exec(self);
                    let (q0, q1) = post_key_exec(other);
                    if p0 < q0 || (p0 == q0 && p1 < q1) {
                        core::cmp::Ordering::Less
                    } else if q0 < p0 || (p0 == q0 && q1 < p1) {
                        core::cmp::Ordering::Greater
                    } else {
                        let (d0, d1) = dev_key_exec(self);
                        let (e0, e1) = dev_key_exec(other);
                        if d0 < e0 || (d0 == e0 && d1 < e1) {
                            core::cmp::Ordering::Less
                        } else if e0 < d0 || (d0 == e0 && e1 < d1) {
                            core::cmp::Ordering::Greater
                        } else {
                            local_cmp(&self.local, &other.local)
                        }
                    }
                }
            },
        }
    }

    /// Segment-for-segment equality without zero-padding, what `===` decides
    /// on versions kept in canonical form.
    pub fn eq_exact(&self, other: &Version) -> (r: bool)
        ensures
            r == version_exact_eq(*self, *other),
    {
        let rel_eq = match bytes_like_cmp_u64(&self.release, &other.release) {
            true => true,
            false => false,
        };
        if !rel_eq {
            return false;
        }
        let pre_eq = match (self.pre, other.pre) {
            (None, None) => true,
            (Some(p), Some(q)) => p == q,
            _ => false,
        };
        if !pre_eq {
            return false;
        }
        let post_eq = match (self.post, other.post) {
            (None, None) => true,
            (Some(p), Some(q)) => p == q,
            _ => false,
        };
        if !post_eq {
            return false;
        }
        let dev_eq = match (self.dev, other.dev) {
            (None, None) => true,
            (Some(p), Some(q)) => p == q,
            _ => false,
        };
        if !dev_eq {
            return false;
        }
        match (&self.local, &other.local) {
            (None, None) => true,
            (Some(x), Some(y)) => match bytes_cmp(x, y) {
                core::cmp::Ordering::Equal => true,
                _ => false,
            },
            _ => false,
        }
    }
}

/// Element-wise equality of two `u64` vectors.
fn bytes_like_cmp_u64(a: &Vec<u64>, b: &Vec<u64>) -> (r: bool)
    ensures
        r == (a@ == b@),
{
    let alen = a.len();
    if alen != b.len() {
        proof {
            assert(a@.len() != b@.len());
        }
        return false;
    }
    let mut i: usize = 0;
    while i < alen
        invariant
            i <= alen,
            alen == a@.len(),
            alen == b@.len(),
            forall|j: int| 0 <= j < i ==> a@[j] == b@[j],
        decreases alen - i,
    {
        if a[i] != b[i] {
            proof {
                assert(a@[i as int] != b@[i as int]);
            }
            return false;
        }
        i = i + 1;
    }
    proof {
        assert(a@ =~= b@);
    }
    true
}

// ---------------------------------------------------------------------------
// Operator semantics
// ---------------------------------------------------------------------------

proof fn lemma_compat_below_from_point(v: Seq<u64>, c: Seq<u64>, i: int)
    requires
        c.len() >= 2,
        0 <= i < c.len() - 2,
        rel_at(v, i) != rel_at(c, i),
        forall|j: int| 0 <= j < i ==> #[trigger] rel_at(v, j) == rel_at(c, j),
    ensures
        rel_at(v, i) < rel_at(c, i) ==> compat_below(v, c),
        rel_at(v, i) > rel_at(c, i) ==> !compat_below(v, c),
{
    let n = c.len() as int;
    if rel_at(v, i) < rel_at(c, i) {
        assert(cb_wit(v, c, i));
        assert(compat_below(v, c));
    } else {
        if compat_below(v, c) {
            if exists|w: int| #[trigger] cb_wit(v, c, w) {
                let w = choose|w: int| #[trigger] cb_wit(v, c, w);
                if w < i {
                    assert(rel_at(v, w) == rel_at(c, w));
                } else if w > i {
                    assert(rel_at(v, i) == rel_at(c, i));
                }
                assert(false);
            } else {
                assert(rel_at(v, i) == rel_at(c, i));
                assert(false);
            }
        }
    }
}

/// Whether `v` lies below the compatible-release upper bound of `c`.
fn compat_below_exec(v: &Vec<u64>, c: &Vec<u64>) -> (r: bool)
    requires
        c@.len() >= 2,
    ensures
        r == compat_below(v@, c@),
{
    let clen = c.len();
    let vlen = v.len();
    let mut i: usize = 0;
    while i < clen - 2
        invariant
            i <= clen - 2,
            clen == c@.len(),
            vlen == v@.len(),
            clen >= 2,
            forall|j: int| 0 <= j < i ==> #[trigger] rel_at(v@, j) == rel_at(c@, j),
        decreases clen - i,
    {
        let vv: u64 = if i < vlen {
            v[i]
        } else {
            0
        };
        let cv = c[i];
        assert(vv == rel_at(v@, i as int));
        assert(cv == rel_at(c@, i as int));
        if vv != cv {
            proof {
                lemma_compat_below_from_point(v@, c@, i as int);
            }
            return vv < cv;
        }
        i = i + 1;
    }
    let vv: u64 = if clen - 2 < vlen {
        v[clen - 2]
    } else {
        0
    };
    let cv = c[clen - 2];
    proof {
        assert(vv == rel_at(v@, c@.len() - 2));
        assert(cv == rel_at(c@, c@.len() - 2));
        if vv <= cv {
            assert(compat_below(v@, c@));
        } else {
            if compat_below(v@, c@) {
                if exists|w: int| #[trigger] cb_wit(v@, c@, w) {
                    let w = choose|w: int| #[trigger] cb_wit(v@, c@, w);
                    assert(rel_at(v@, w) == rel_at(c@, w));
                    assert(false);
                }
                assert(false);
            }
        }
    }
    vv <= cv
}

/// Apply a PEP 440 operator: `version` is the candidate and `constraint` the
/// specifier's version. The compatible-release operator `~=` is
/// `>= constraint` together with `< constraint`'s next significant release,
/// and `===` is segment-for-segment equality.
pub fn satisfies(version: &Version, operator: &VersionOperator, constraint: &Version) -> (r: bool)
    ensures
        r == spec_satisfies(*version, *operator, *constraint),
{
    match operator {
        VersionOperator::Equal => match version.compare(constraint) {
            core::cmp::Ordering::Equal => true,
            _ => false,
        },
        VersionOperator::NotEqual => match version.compare(constraint) {
            core::cmp::Ordering::Equal => false,
            _ => true,
        },
        VersionOperator::LessThan => match version.compare(constraint) {
            core::cmp::Ordering::Less => true,
            _ => false,
        },
        VersionOperator::LessThanEqual => match version.compare(constraint) {
            core::cmp::Ordering::Greater => false,
            _ => true,
        },
        VersionOperator::GreaterThan => match version.compare(constraint) {
            core::cmp::Ordering::Greater => true,
            _ => false,
        },
        VersionOperator::GreaterThanEqual => match version.compare(constraint) {
            core::cmp::Ordering::Less => false,
            _ => true,
        },
        VersionOperator::ExactEqual => version.eq_exact(constraint),
        VersionOperator::TildeEqual => {
            if constraint.release.len() < 2 {
                return false;
            }
            let lower = match version.compare(constraint) {
                core::cmp::Ordering::Less => false,
                _ => true,
            };
            if !lower {
                return false;
            }
            compat_below_exec(&version.release, &constraint.release)
        },
    }
}

impl VersionOperator {
    /// Parse an operator spelling such as `==` or `~=`.
    pub fn parse(s: &str) -> (r: Result<VersionOperator, HuakError>)
        ensures
            r matches Ok(op) ==> op_of_bytes(s.spec_bytes()) == Some(op) && op_bytes(op)
                == s.spec_bytes(),
            r is Ok <==> op_of_bytes(s.spec_bytes()) is Some,
            r matches Err(e) ==> (e matches HuakError::InvalidOperatorError { input } && input@
                == s@),
    {
        let bytes = s.as_bytes();
        match op_from_bytes(bytes) {
            Some(op) => Ok(op),
            None => Err(HuakError::InvalidOperatorError { input: s.to_owned() }),
        }
    }
}

/// Which operator, if any, a whole byte string spells.
pub open spec fn op_of_bytes(s: Seq<u8>) -> Option<VersionOperator> {
    if s.len() == 1 {
        if s[0] == 60 {
            Some(VersionOperator::LessThan)
        } else if s[0] == 62 {
            Some(VersionOperator::GreaterThan)
        } else {
            None
        }
    } else if s.len() == 2 {
        if s[0] == 61 && s[1] == 61 {
            Some(VersionOperator::Equal)
        } else if s[0] == 33 && s[1] == 61 {
            Some(VersionOperator::NotEqual)
        } else if s[0] == 126 && s[1] == 61 {
            Some(VersionOperator::TildeEqual)
        } else if s[0] == 60 && s[1] == 61 {
            Some(VersionOperator::LessThanEqual)
        } else if s[0] == 62 && s[1] == 61 {
            Some(VersionOperator::GreaterThanEqual)
        } else {
            None
        }
    } else if s.len() == 3 && s[0] == 61 && s[1] == 61 && s[2] == 61 {
        Some(VersionOperator::ExactEqual)
    } else {
        None
    }
}

/// Parse a whole byte string as an operator, per `op_of_bytes`.
pub(crate) fn op_from_bytes(bytes: &[u8]) -> (r: Option<VersionOperator>)
    ensures
        r == op_of_bytes(bytes@),
        r matches Some(op) ==> op_bytes(op) == bytes@,
{
    let len = bytes.len();
    let r = if len == 1 {
        if bytes[0] == 60 {
            Some(VersionOperator::LessThan)
        } else if bytes[0] == 62 {
            Some(VersionOperator::GreaterThan)
        } else {
            None
        }
    } else if len == 2 {
        if bytes[0] == 61 && bytes[1] == 61 {
            Some(VersionOperator::Equal)
        } else if bytes[0] == 33 && bytes[1] == 61 {
            Some(VersionOperator::NotEqual)
        } else if bytes[0] == 126 && bytes[1] == 61 {
            Some(VersionOperator::TildeEqual)
        } else if bytes[0] == 60 && bytes[1] == 61 {
            Some(VersionOperator::LessThanEqual)
        } else if bytes[0] == 62 && bytes[1] == 61 {
            Some(VersionOperator::GreaterThanEqual)
        } else {
            None
        }
    } else if len == 3 && bytes[0] == 61 && bytes[1] == 61 && bytes[2] == 61 {
        Some(VersionOperator::ExactEqual)
    } else {
        None
    };
    proof {
        if r is Some {
            assert(op_bytes(r->Some_0) =~= bytes@);
        }
    }
    r
}

/// Append an operator's spelling.
pub(crate) fn push_op(out: &mut Vec<u8>, op: VersionOperator)
    ensures
        final(out)@ == old(out)@ + op_bytes(op),
{
    match op {
        VersionOperator::Equal => {
            out.push(61);
            out.push(61);
        },
        VersionOperator::ExactEqual => {
            out.push(61);
            out.push(61);
            out.push(61);
        },
        VersionOperator::NotEqual => {
            out.push(33);
            out.push(61);
        },
        VersionOperator::TildeEqual => {
            out.push(126);
            out.push(61);
        },
        VersionOperator::LessThan => {
            out.push(60);
        },
        VersionOperator::LessThanEqual => {
            out.push(60);
            out.push(61);
        },
        VersionOperator::GreaterThan => {
            out.push(62);
        },
        VersionOperator::GreaterThanEqual => {
            out.push(62);
            out.push(61);
        },
    }
    proof {
        assert(out@ =~= old(out)@ + op_bytes(op));
    }
}

// ---------------------------------------------------------------------------
// The precedence order is strict and transitive
// ---------------------------------------------------------------------------

pub proof fn lemma_release_order(a: Seq<u64>, b: Seq<u64>, c: Seq<u64>)
    ensures
        release_lt(a, b) && release_lt(b, c) ==> release_lt(a, c),
        release_equiv(a, b) && release_lt(b, c) ==> release_lt(a, c),
        release_lt(a, b) && release_equiv(b, c) ==> release_lt(a, c),
{
    if release_lt(a, b) && release_lt(b, c) {
        let i1 = choose|i: int| #[trigger] rl_wit(a, b, i);
        let i2 = choose|i: int| #[trigger] rl_wit(b, c, i);
        if i1 <= i2 {
            assert(rl_wit(a, c, i1));
        } else {
            assert(rl_wit(a, c, i2));
        }
    }
    if release_equiv(a, b) && release_lt(b, c) {
        let i = choose|i: int| #[trigger] rl_wit(b, c, i);
        assert(rel_at(a, i) == rel_at(b, i));
        assert(rl_wit(a, c, i));
    }
    if release_lt(a, b) && release_equiv(b, c) {
        let i = choose|i: int| #[trigger] rl_wit(a, b, i);
        assert(rel_at(b, i) == rel_at(c, i));
        assert(rl_wit(a, c, i));
    }
}

pub proof fn lemma_release_lt_irrefl(a: Seq<u64>)
    ensures
        !release_lt(a, a),
{
    if release_lt(a, a) {
        let i = choose|i: int| #[trigger] rl_wit(a, a, i);
        assert(false);
    }
}

pub proof fn lemma_lex_trans(a: Seq<u8>, b: Seq<u8>, c: Seq<u8>)
    ensures
        bytes_lex_lt(a, b) && bytes_lex_lt(b, c) ==> bytes_lex_lt(a, c),
    decreases a.len() + b.len() + c.len(),
{
    if bytes_lex_lt(a, b) && bytes_lex_lt(b, c) {
        if a.len() == 0 {
        } else {
            assert(b.len() > 0 && c.len() > 0);
            if a[0] == b[0] && b[0] == c[0] {
                lemma_lex_trans(a.skip(1), b.skip(1), c.skip(1));
            }
        }
    }
}

pub proof fn lemma_lex_irrefl(a: Seq<u8>)
    ensures
        !bytes_lex_lt(a, a),
    decreases a.len(),
{
    if a.len() > 0 {
        lemma_lex_irrefl(a.skip(1));
    }
}

/// Strict precedence is transitive.
pub proof fn lemma_version_lt_trans(a: Version, b: Version, c: Version)
    ensures
        version_lt(a, b) && version_lt(b, c) ==> version_lt(a, c),
{
    lemma_release_order(a.release@, b.release@, c.release@);
    if version_lt(a, b) && version_lt(b, c) {
        if release_equiv(a.release@, b.release@) && release_equiv(b.release@, c.release@) {
            assert(release_equiv(a.release@, c.release@));
            match (local_view(a), local_view(b), local_view(c)) {
                (Some(la), Some(lb), Some(lc)) => lemma_lex_trans(la, lb, lc),
                _ => (),
            }
        }
    }
}

/// Strict precedence is irreflexive: nothing sorts below itself, and more
/// generally nothing sorts below anything order-equivalent to it.
pub proof fn lemma_version_lt_irrefl(a: Version, b: Version)
    ensures
        version_equiv(a, b) ==> !version_lt(a, b),
{
    if version_equiv(a, b) && version_lt(a, b) {
        if release_lt(a.release@, b.release@) {
            let i = choose|i: int| #[trigger] rl_wit(a.release@, b.release@, i);
            assert(rel_at(a.release@, i) == rel_at(b.release@, i));
            assert(false);
        }
        match (local_view(a), local_view(b)) {
            (Some(la), Some(lb)) => {
                lemma_lex_irrefl(la);
            },
            _ => (),
        }
    }
}

impl VersionOperator {
    /// The operator's spelling, e.g. `==`.
    pub fn op_str(&self) -> (r: String)
        ensures
            r@ == ascii_view(op_bytes(*self)),
    {
        let mut out: Vec<u8> = Vec::new();
        push_op(&mut out, *self);
        proof {
            assert(out@ =~= op_bytes(*self));
        }
        ascii_to_string(out)
    }
}

} // verus!
